//! Keyword weights and the weighted sampling of keyword combinations.
//!
//! Every keyword carries a cumulative count of the new discoveries
//! attributed to queries it took part in. All keywords start at the same
//! high weight, so early cycles explore the whole universe evenly before
//! feedback differentiates them (the weights never drop below one, so no
//! keyword is ever starved). A combination is drawn by weighted sampling
//! without replacement: the draw count is uniform between
//! `MIN_COMBINATION` and `MAX_COMBINATION`, and each draw picks a remaining
//! keyword with probability proportional to its weight.
//!
//! The policy here is `max(weight, 1)` over a universe in which every
//! keyword is present from the start: the tracker gives each keyword its
//! initial weight at construction, so no fallback weight for absent
//! keywords is ever needed.

use vstd::prelude::*;

verus! {

/// Weight of every keyword before any feedback.
pub const INITIAL_WEIGHT: u64 = 100;

/// Fewest keywords drawn into one combination.
pub const MIN_COMBINATION: u64 = 2;

/// Most keywords drawn into one combination.
pub const MAX_COMBINATION: u64 = 4;

/// Relies on rand::random to draw a value from the thread-local generator;
/// nothing is promised of the value, so callers hold for every outcome.
pub assume_specification<T>[ rand::random::<T> ]() -> (r: T)
    where
        rand::distributions::Standard: rand::distributions::Distribution<T>,
;

/// `a + b`, stopping at the largest representable value.
pub open spec fn saturating_add_u64(a: u64, b: u64) -> u64 {
    if a + b > u64::MAX {
        u64::MAX
    } else {
        (a + b) as u64
    }
}

/// Sum of the weights at the given indices.
pub open spec fn weight_sum(weights: Seq<u64>, idxs: Seq<usize>) -> int
    decreases idxs.len(),
{
    if idxs.len() == 0 {
        0
    } else {
        weights[idxs[0] as int] + weight_sum(weights, idxs.drop_first())
    }
}

proof fn lemma_weight_sum_concat(weights: Seq<u64>, a: Seq<usize>, b: Seq<usize>)
    ensures
        weight_sum(weights, a + b) == weight_sum(weights, a) + weight_sum(weights, b),
    decreases a.len(),
{
    if a.len() == 0 {
        assert(a + b =~= b);
    } else {
        assert((a + b)[0] == a[0]);
        assert((a + b).drop_first() =~= a.drop_first() + b);
        lemma_weight_sum_concat(weights, a.drop_first(), b);
    }
}

proof fn lemma_weight_sum_bounds(weights: Seq<u64>, idxs: Seq<usize>)
    requires
        forall|j: int| 0 <= j < idxs.len() ==> idxs[j] < weights.len(),
        forall|i: int| 0 <= i < weights.len() ==> weights[i] >= 1,
    ensures
        idxs.len() <= weight_sum(weights, idxs) <= idxs.len() * (u64::MAX as int),
    decreases idxs.len(),
{
    if idxs.len() > 0 {
        lemma_weight_sum_bounds(weights, idxs.drop_first());
    }
}

/// The built-in keyword universe used when no keyword file is available:
/// tokens present in most of the target documents, so queries stay broad.
pub fn default_keywords() -> (kws: Vec<String>)
    ensures
        kws.deep_view() == seq!["setup"@, "author"@, "date"@, "library"@, "output"@, "title"@],
{
    let mut kws: Vec<String> = Vec::new();
    kws.push("setup".to_owned());
    kws.push("author".to_owned());
    kws.push("date".to_owned());
    kws.push("library".to_owned());
    kws.push("output".to_owned());
    kws.push("title".to_owned());
    proof {
        assert(kws.deep_view() =~= seq![
            "setup"@,
            "author"@,
            "date"@,
            "library"@,
            "output"@,
            "title"@,
        ]);
    }
    kws
}

/// Law: the cold start is fair. While every keyword still carries the
/// initial weight — as a fresh tracker does, before any feedback — all
/// sampling weights are equal, so no keyword is preferred over another.
pub proof fn lemma_cold_start_fair(t: &WeightTracker)
    requires
        t.wf(),
        forall|i: int| 0 <= i < t.num_keywords() ==> t.weight_of(i) == INITIAL_WEIGHT,
    ensures
        forall|i: int, j: int|
            0 <= i < t.num_keywords() && 0 <= j < t.num_keywords() ==> t.weight_of(i)
                == t.weight_of(j),
{
}

/// The per-keyword yield weights, parallel to the keyword universe.
pub struct WeightTracker {
    keywords: Vec<String>,
    weights: Vec<u64>,
}

impl WeightTracker {
    /// The keyword universe, in its given order.
    pub closed spec fn keywords_seq(&self) -> Seq<Seq<char>> {
        self.keywords.deep_view()
    }

    /// The weights, parallel to the keywords.
    pub closed spec fn weights_seq(&self) -> Seq<u64> {
        self.weights@
    }

    pub open spec fn num_keywords(&self) -> int {
        self.keywords_seq().len() as int
    }

    /// The sampling weight of keyword `i`.
    pub open spec fn weight_of(&self, i: int) -> u64 {
        self.weights_seq()[i]
    }

    /// One weight per keyword, each at least one so that no keyword's
    /// sampling probability is ever zero.
    pub open spec fn wf(&self) -> bool {
        &&& self.weights_seq().len() == self.keywords_seq().len()
        &&& forall|i: int| 0 <= i < self.weights_seq().len() ==> #[trigger] self.weights_seq()[i] >= 1
    }

    /// A tracker over the given keywords: the cold start gives every
    /// keyword the same weight, so none is preferred before feedback.
    pub fn new(keywords: Vec<String>) -> (t: Self)
        ensures
            t.wf(),
            t.keywords_seq() == keywords.deep_view(),
            forall|i: int| 0 <= i < t.num_keywords() ==> t.weight_of(i) == INITIAL_WEIGHT,
    {
        let n = keywords.len();
        let mut weights: Vec<u64> = Vec::new();
        let mut i: usize = 0;
        while i < n
            invariant
                i <= n,
                weights@.len() == i,
                forall|j: int| 0 <= j < i ==> #[trigger] weights@[j] == INITIAL_WEIGHT,
            decreases n - i,
        {
            weights.push(INITIAL_WEIGHT);
            i = i + 1;
        }
        WeightTracker { keywords, weights }
    }

    /// How many keywords the tracker knows.
    pub fn len(&self) -> (n: usize)
        ensures
            n == self.num_keywords(),
    {
        self.keywords.len()
    }

    /// The keyword at index `i`.
    pub fn keyword_at(&self, i: usize) -> (k: &String)
        requires
            i < self.num_keywords(),
        ensures
            k@ == self.keywords_seq()[i as int],
    {
        &self.keywords[i]
    }

    /// The current weight of keyword `i`.
    pub fn weight_at(&self, i: usize) -> (w: u64)
        requires
            self.wf(),
            i < self.num_keywords(),
        ensures
            w == self.weight_of(i as int),
    {
        self.weights[i]
    }

    /// Credit `new_count` fresh discoveries to every keyword of the sampled
    /// combination. Weights never decrease and never drop below one, and
    /// only the keywords that took part in the query move.
    pub fn record_feedback(&mut self, sampled: &Vec<usize>, new_count: u32)
        requires
            old(self).wf(),
            sampled@.no_duplicates(),
            forall|j: int| 0 <= j < sampled@.len() ==> sampled@[j] < old(self).num_keywords(),
        ensures
            final(self).wf(),
            final(self).keywords_seq() == old(self).keywords_seq(),
            forall|i: int| 0 <= i < final(self).num_keywords() ==> final(self).weight_of(i)
                >= old(self).weight_of(i),
            forall|i: int| 0 <= i < final(self).num_keywords() ==> final(self).weight_of(i) >= 1,
            forall|j: int| 0 <= j < sampled@.len() ==> final(self).weight_of(sampled@[j] as int)
                == saturating_add_u64(old(self).weight_of(sampled@[j] as int), new_count as u64),
            forall|i: usize| i < final(self).num_keywords() && !sampled@.contains(i)
                ==> final(self).weight_of(i as int) == old(self).weight_of(i as int),
    {
        let ghost w0 = self.weights@;
        let mut j: usize = 0;
        while j < sampled.len()
            invariant
                self.wf(),
                w0 == old(self).weights@,
                self.keywords == old(self).keywords,
                self.weights@.len() == w0.len(),
                sampled@.no_duplicates(),
                j <= sampled@.len(),
                forall|l: int| 0 <= l < sampled@.len() ==> sampled@[l] < w0.len(),
                forall|l: int| 0 <= l < j ==> #[trigger] self.weights@[sampled@[l] as int]
                    == saturating_add_u64(w0[sampled@[l] as int], new_count as u64),
                forall|i: usize| i < w0.len() && !sampled@.take(j as int).contains(i)
                    ==> self.weights@[i as int] == w0[i as int],
            decreases sampled@.len() - j,
        {
            let idx = sampled[j];
            proof {
                assert(!sampled@.take(j as int).contains(idx));
            }
            let ghost wpre = self.weights@;
            let w = self.weights[idx];
            let add = new_count as u64;
            let grown = if w > u64::MAX - add {
                u64::MAX
            } else {
                w + add
            };
            self.weights.set(idx, grown);
            proof {
                assert(self.weights@ == wpre.update(idx as int, grown));
                assert(sampled@.take(j + 1) =~= sampled@.take(j as int).push(sampled@[j as int]));
                assert(sampled@.take(j + 1)[j as int] == sampled@[j as int]);
                assert forall|i: usize| i < w0.len() && !sampled@.take(j + 1).contains(i)
                    implies self.weights@[i as int] == w0[i as int] by {
                    assert(!sampled@.take(j as int).contains(i));
                    assert(sampled@.take(j + 1).contains(sampled@[j as int]));
                    assert(i != sampled@[j as int]);
                    assert(self.weights@[i as int] == wpre[i as int]);
                }
                assert forall|l: int| 0 <= l < j + 1
                    implies #[trigger] self.weights@[sampled@[l] as int]
                    == saturating_add_u64(w0[sampled@[l] as int], new_count as u64) by {
                    if l < j {
                        assert(sampled@[l] != sampled@[j as int]);
                        assert(self.weights@[sampled@[l] as int] == wpre[sampled@[l] as int]);
                    }
                }
            }
            j = j + 1;
        }
        proof {
            assert(sampled@.take(sampled@.len() as int) =~= sampled@);
            assert(self.weights@.len() == self.weights.len());
            assert(self.weights@.len() <= usize::MAX);
            assert forall|i: int| 0 <= i < self.weights@.len()
                implies #[trigger] self.weights@[i] >= w0[i] by {
                let iu = i as usize;
                if sampled@.contains(iu) {
                    let l = choose|l: int| 0 <= l < sampled@.len() && sampled@[l] == iu;
                    assert(self.weights@[sampled@[l] as int]
                        == saturating_add_u64(w0[sampled@[l] as int], new_count as u64));
                    assert(sampled@[l] as int == i);
                } else {
                    assert(!sampled@.take(sampled@.len() as int).contains(iu));
                    assert(self.weights@[iu as int] == w0[iu as int]);
                }
            }
        }
    }

    /// Sum the weights of the given keyword indices.
    fn total_weight(&self, idxs: &Vec<usize>) -> (t: u128)
        requires
            self.wf(),
            forall|j: int| 0 <= j < idxs@.len() ==> idxs@[j] < self.num_keywords(),
        ensures
            t == weight_sum(self.weights_seq(), idxs@),
    {
        let ghost full = idxs@;
        let mut t: u128 = 0;
        let mut i: usize = 0;
        proof {
            assert(full.skip(0) =~= full);
        }
        while i < idxs.len()
            invariant
                self.wf(),
                full == idxs@,
                i <= full.len(),
                forall|j: int| 0 <= j < full.len() ==> full[j] < self.num_keywords(),
                t + weight_sum(self.weights_seq(), full.skip(i as int))
                    == weight_sum(self.weights_seq(), full),
                t <= i * (u64::MAX as int),
            decreases idxs.len() - i,
        {
            proof {
                assert(full.skip(i as int)[0] == full[i as int]);
                assert(full.skip(i as int).drop_first() =~= full.skip(i + 1));
                lemma_weight_sum_bounds(self.weights_seq(), full.skip(i + 1));
            }
            let idx = idxs[i];
            t = t + self.weights[idx] as u128;
            i = i + 1;
        }
        proof {
            assert(full.skip(full.len() as int) =~= Seq::<usize>::empty());
        }
        t
    }

    /// Walk the prefix sums of the remaining keywords' weights and pick the
    /// index whose weight interval holds the drawn point `t`: the weights
    /// before it sum to at most `t`, and adding the picked weight passes it.
    fn pick_weighted(&self, idxs: &Vec<usize>, t: u128) -> (j: usize)
        requires
            self.wf(),
            forall|j: int| 0 <= j < idxs@.len() ==> idxs@[j] < self.num_keywords(),
            t < weight_sum(self.weights_seq(), idxs@),
        ensures
            j < idxs@.len(),
            weight_sum(self.weights_seq(), idxs@.take(j as int)) <= t,
            t < weight_sum(self.weights_seq(), idxs@.take(j + 1)),
    {
        let ghost full = idxs@;
        let mut acc: u128 = 0;
        let mut j: usize = 0;
        proof {
            assert(full.skip(0) =~= full);
            assert(full.take(0) =~= Seq::<usize>::empty());
            lemma_weight_sum_bounds(self.weights_seq(), full);
        }
        while j < idxs.len()
            invariant
                self.wf(),
                full == idxs@,
                j <= full.len(),
                forall|l: int| 0 <= l < full.len() ==> full[l] < self.num_keywords(),
                acc == weight_sum(self.weights_seq(), full.take(j as int)),
                acc + weight_sum(self.weights_seq(), full.skip(j as int))
                    == weight_sum(self.weights_seq(), full),
                t < weight_sum(self.weights_seq(), full),
                acc <= t,
            decreases idxs.len() - j,
        {
            proof {
                assert(full.skip(j as int)[0] == full[j as int]);
                assert(full.skip(j as int).drop_first() =~= full.skip(j + 1));
                assert(full.take(j + 1) =~= full.take(j as int) + seq![full[j as int]]);
                lemma_weight_sum_concat(
                    self.weights_seq(),
                    full.take(j as int),
                    seq![full[j as int]],
                );
                assert(seq![full[j as int]][0] == full[j as int]);
                assert(seq![full[j as int]].drop_first() =~= Seq::<usize>::empty());
                assert(weight_sum(self.weights_seq(), Seq::<usize>::empty()) == 0);
                assert(weight_sum(self.weights_seq(), seq![full[j as int]])
                    == self.weights_seq()[full[j as int] as int]);
                assert(weight_sum(self.weights_seq(), full.take(j + 1))
                    == weight_sum(self.weights_seq(), full.take(j as int))
                    + self.weights_seq()[full[j as int] as int]);
                lemma_weight_sum_bounds(self.weights_seq(), full.skip(j + 1));
            }
            let idx = idxs[j];
            let w = self.weights[idx] as u128;
            if t - acc < w {
                return j;
            }
            acc = acc + w;
            j = j + 1;
        }
        proof {
            assert(full.skip(full.len() as int) =~= Seq::<usize>::empty());
            assert(false);
        }
        0
    }
}

/// A uniform draw from the closed range `[lo, hi]`.
fn draw_in_range(lo: u64, hi: u64) -> (r: u64)
    requires
        lo <= hi,
        hi - lo < u64::MAX,
    ensures
        lo <= r <= hi,
{
    let width = hi - lo + 1;
    let x: u64 = rand::random::<u64>();
    lo + x % width
}

/// A draw below `total`.
fn draw_below(total: u128) -> (r: u128)
    requires
        total >= 1,
    ensures
        r < total,
{
    let x: u64 = rand::random::<u64>();
    (x as u128) % total
}

/// Draw a keyword combination: the count is uniform between
/// `MIN_COMBINATION` and `MAX_COMBINATION` (capped by the universe), and
/// the members are drawn by weight without replacement, so the sampled
/// indices are distinct and in range.
pub fn sample_keywords(tracker: &WeightTracker) -> (sampled: Vec<usize>)
    requires
        tracker.wf(),
        tracker.num_keywords() >= 1,
    ensures
        sampled@.no_duplicates(),
        forall|j: int| 0 <= j < sampled@.len() ==> sampled@[j] < tracker.num_keywords(),
        sampled@.len() <= MAX_COMBINATION,
        sampled@.len() <= tracker.num_keywords(),
        MIN_COMBINATION <= sampled@.len() || sampled@.len() == tracker.num_keywords(),
{
    let k = draw_in_range(MIN_COMBINATION, MAX_COMBINATION);
    let n = tracker.len();
    let mut remaining: Vec<usize> = Vec::new();
    let mut i: usize = 0;
    while i < n
        invariant
            i <= n,
            remaining@.len() == i,
            forall|j: int| 0 <= j < i ==> #[trigger] remaining@[j] == j,
        decreases n - i,
    {
        remaining.push(i);
        i = i + 1;
    }
    proof {
        assert forall|a: int, b: int|
            0 <= a < remaining@.len() && 0 <= b < remaining@.len() && a != b
            implies remaining@[a] != remaining@[b] by {}
    }
    let mut sampled: Vec<usize> = Vec::new();
    let mut c: u64 = 0;
    while c < k && remaining.len() > 0
        invariant
            tracker.wf(),
            c <= k,
            k <= MAX_COMBINATION,
            MIN_COMBINATION <= k,
            sampled@.len() == c,
            sampled@.len() + remaining@.len() == tracker.num_keywords(),
            sampled@.no_duplicates(),
            remaining@.no_duplicates(),
            forall|j: int| 0 <= j < sampled@.len() ==> sampled@[j] < tracker.num_keywords(),
            forall|j: int| 0 <= j < remaining@.len() ==> remaining@[j] < tracker.num_keywords(),
            forall|a: int, b: int|
                0 <= a < sampled@.len() && 0 <= b < remaining@.len()
                    ==> sampled@[a] != remaining@[b],
        decreases k - c,
    {
        let total = tracker.total_weight(&remaining);
        proof {
            lemma_weight_sum_bounds(tracker.weights_seq(), remaining@);
        }
        let t = draw_below(total);
        let j = tracker.pick_weighted(&remaining, t);
        let ghost rem0 = remaining@;
        let idx = remaining.remove(j);
        let ghost srem = remaining@;
        proof {
            assert(srem =~= rem0.remove(j as int));
            assert forall|a: int, b: int|
                0 <= a < srem.len() && 0 <= b < srem.len() && a != b
                implies srem[a] != srem[b] by {
                let a0: int = if a < j { a } else { a + 1 };
                let b0: int = if b < j { b } else { b + 1 };
                assert(srem[a] == rem0[a0] && srem[b] == rem0[b0]);
            }
            assert forall|b: int| 0 <= b < srem.len() implies idx != srem[b] by {
                let b0: int = if b < j { b } else { b + 1 };
                assert(srem[b] == rem0[b0]);
            }
        }
        let ghost spre = sampled@;
        sampled.push(idx);
        proof {
            assert forall|a: int, b: int|
                0 <= a < sampled@.len() && 0 <= b < sampled@.len() && a != b
                implies sampled@[a] != sampled@[b] by {
                if a < spre.len() && b < spre.len() {
                    assert(spre[a] != spre[b]);
                } else if a < spre.len() {
                    assert(spre[a] != rem0[j as int]);
                } else if b < spre.len() {
                    assert(spre[b] != rem0[j as int]);
                }
            }
        }
        c = c + 1;
    }
    sampled
}

} // verus!
