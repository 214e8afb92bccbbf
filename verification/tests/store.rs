use repo_discovery::ident::IdentifierStore;

#[test]
fn from_lines_drops_duplicate_lines() {
    let lines = vec!["a/b".to_string(), "c/d".to_string(), "a/b".to_string()];
    let store = IdentifierStore::from_lines(&lines);
    assert_eq!(store.num_known(), 2);
    assert_eq!(store.num_pending(), 0);
    assert!(store.seen(&"a/b".to_string()));
    assert!(store.seen(&"c/d".to_string()));
    assert!(!store.seen(&"e/f".to_string()));
}

#[test]
fn record_classifies_new_then_known() {
    let mut store = IdentifierStore::new();
    assert!(store.record("a/b".to_string()));
    assert!(!store.record("a/b".to_string()));
    assert_eq!(store.num_pending(), 1);
    assert_eq!(store.num_known(), 0);
}

#[test]
fn process_page_counts_new_and_known() {
    let mut store = IdentifierStore::from_lines(&vec!["a/b".to_string()]);
    let items = vec!["a/b".to_string(), "c/d".to_string(), "c/d".to_string()];
    let (new_count, known_count) = store.process_page(&items);
    assert_eq!(new_count, 1);
    assert_eq!(known_count, 2);
    assert_eq!(store.num_pending(), 1);
}

#[test]
fn second_pass_over_same_stream_finds_nothing_new() {
    let items = vec!["a/b".to_string(), "c/d".to_string(), "e/f".to_string()];
    let mut store = IdentifierStore::new();
    let (first_new, _) = store.process_page(&items);
    assert_eq!(first_new, 3);
    let (second_new, second_known) = store.process_page(&items);
    assert_eq!(second_new, 0);
    assert_eq!(second_known, 3);
    assert_eq!(store.num_pending(), 3);
}

#[test]
fn take_unflushed_hands_each_identifier_out_once() {
    let mut store = IdentifierStore::new();
    store.record("a/b".to_string());
    store.record("c/d".to_string());
    let batch = store.take_unflushed();
    assert_eq!(batch, vec!["a/b".to_string(), "c/d".to_string()]);
    let again = store.take_unflushed();
    assert!(again.is_empty());
    store.record("e/f".to_string());
    let later = store.take_unflushed();
    assert_eq!(later, vec!["e/f".to_string()]);
}

#[test]
fn end_cycle_merges_pending_into_known() {
    let mut store = IdentifierStore::from_lines(&vec!["a/b".to_string()]);
    store.record("c/d".to_string());
    let batch = store.end_cycle();
    assert_eq!(batch, vec!["c/d".to_string()]);
    assert_eq!(store.num_known(), 2);
    assert_eq!(store.num_pending(), 0);
    assert!(store.seen(&"c/d".to_string()));
}

#[test]
fn crash_after_flush_loses_nothing_and_duplicates_nothing() {
    // A cycle discovers two identifiers; cancellation strikes mid-page and
    // the pending set is flushed to the store file before the process stops.
    let mut file_lines: Vec<String> = Vec::new();
    let mut store = IdentifierStore::from_lines(&file_lines);
    store.record("a/b".to_string());
    store.record("c/d".to_string());
    let flushed = store.take_unflushed();
    file_lines.extend(flushed);

    // Restart: the store file already carries both identifiers.
    let mut restarted = IdentifierStore::from_lines(&file_lines);
    assert!(restarted.seen(&"a/b".to_string()));
    assert!(restarted.seen(&"c/d".to_string()));

    // The next cycle must not classify either as new.
    let items = vec!["a/b".to_string(), "c/d".to_string()];
    let (new_count, known_count) = restarted.process_page(&items);
    assert_eq!(new_count, 0);
    assert_eq!(known_count, 2);
    let nothing = restarted.take_unflushed();
    assert!(nothing.is_empty());
}
