use repo_discovery::weights::{
    default_keywords, sample_keywords, WeightTracker, INITIAL_WEIGHT, MAX_COMBINATION,
    MIN_COMBINATION,
};

#[test]
fn default_keywords_are_the_builtin_six() {
    let kws = default_keywords();
    assert_eq!(
        kws,
        vec!["setup", "author", "date", "library", "output", "title"]
            .into_iter()
            .map(|s| s.to_string())
            .collect::<Vec<String>>()
    );
}

#[test]
fn cold_start_gives_every_keyword_the_same_weight() {
    let tracker = WeightTracker::new(default_keywords());
    let n = tracker.len();
    assert_eq!(n, 6);
    for i in 0..n {
        assert_eq!(tracker.weight_at(i), INITIAL_WEIGHT);
    }
}

#[test]
fn feedback_moves_only_the_sampled_keywords() {
    let mut tracker = WeightTracker::new(default_keywords());
    let sampled = vec![0usize, 2usize];
    tracker.record_feedback(&sampled, 5);
    assert_eq!(tracker.weight_at(0), INITIAL_WEIGHT + 5);
    assert_eq!(tracker.weight_at(1), INITIAL_WEIGHT);
    assert_eq!(tracker.weight_at(2), INITIAL_WEIGHT + 5);
    assert_eq!(tracker.weight_at(3), INITIAL_WEIGHT);
}

#[test]
fn weights_never_decrease_and_never_drop_below_one() {
    let mut tracker = WeightTracker::new(default_keywords());
    let mut floor: Vec<u64> = (0..tracker.len()).map(|i| tracker.weight_at(i)).collect();
    let rounds = vec![
        (vec![0usize, 1usize], 0u32),
        (vec![2usize], 7u32),
        (vec![0usize, 3usize, 5usize], 0u32),
        (vec![4usize], 1u32),
    ];
    for (sampled, new_count) in rounds {
        tracker.record_feedback(&sampled, new_count);
        for i in 0..tracker.len() {
            let w = tracker.weight_at(i);
            assert!(w >= floor[i]);
            assert!(w >= 1);
            floor[i] = w;
        }
    }
}

#[test]
fn sampled_combinations_are_distinct_in_range_and_sized() {
    let tracker = WeightTracker::new(default_keywords());
    let n = tracker.len();
    for _ in 0..50 {
        let sampled = sample_keywords(&tracker);
        assert!(sampled.len() >= MIN_COMBINATION as usize);
        assert!(sampled.len() <= MAX_COMBINATION as usize);
        for (a, &idx) in sampled.iter().enumerate() {
            assert!(idx < n);
            for &other in &sampled[a + 1..] {
                assert_ne!(idx, other);
            }
        }
    }
}

#[test]
fn sampling_a_tiny_universe_takes_all_of_it() {
    let tracker = WeightTracker::new(vec!["setup".to_string()]);
    let sampled = sample_keywords(&tracker);
    assert_eq!(sampled, vec![0usize]);
}
