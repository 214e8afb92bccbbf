use repo_discovery::accounts::{derive_accounts, user_from_repo};
use repo_discovery::crawl::handle_page;
use repo_discovery::cursor::QueryCursor;
use repo_discovery::ident::IdentifierStore;
use repo_discovery::query::{join_keywords, keyword_query, user_query};
use repo_discovery::weights::{default_keywords, WeightTracker, INITIAL_WEIGHT};

#[test]
fn account_is_the_segment_before_the_first_slash() {
    assert_eq!(user_from_repo("alice/x"), "alice".to_string());
    assert_eq!(user_from_repo("bob/deep/path"), "bob".to_string());
    assert_eq!(user_from_repo("noslash"), "noslash".to_string());
    assert_eq!(user_from_repo(""), "".to_string());
}

#[test]
fn derived_accounts_are_deduplicated_and_each_queried_once() {
    let known = vec!["alice/x".to_string(), "alice/y".to_string(), "bob/z".to_string()];
    let users = derive_accounts(&known);
    assert_eq!(users, vec!["alice".to_string(), "bob".to_string()]);
}

#[test]
fn derived_accounts_come_out_sorted() {
    let known = vec!["zoe/a".to_string(), "amy/b".to_string(), "zoe/c".to_string(), "mia/d".to_string()];
    let users = derive_accounts(&known);
    assert_eq!(users, vec!["amy".to_string(), "mia".to_string(), "zoe".to_string()]);
}

#[test]
fn keyword_query_appends_the_document_type_filter() {
    assert_eq!(keyword_query("setup title"), "setup title extension:Rmd".to_string());
}

#[test]
fn user_query_scopes_to_the_account() {
    assert_eq!(user_query("alice"), "output user:alice extension:Rmd".to_string());
}

#[test]
fn joined_keywords_are_space_separated() {
    let tracker = WeightTracker::new(default_keywords());
    let sampled = vec![1usize, 0usize, 4usize];
    assert_eq!(join_keywords(&tracker, &sampled), "author setup output".to_string());
    let single = vec![3usize];
    assert_eq!(join_keywords(&tracker, &single), "library".to_string());
    let none: Vec<usize> = Vec::new();
    assert_eq!(join_keywords(&tracker, &none), "".to_string());
}

#[test]
fn one_page_flows_through_store_weights_and_cursor() {
    let mut store = IdentifierStore::from_lines(&vec!["a/b".to_string()]);
    let mut tracker = WeightTracker::new(default_keywords());
    let mut cursor = QueryCursor::new_default();
    let sampled = vec![0usize, 1usize];
    let query = "setup author extension:Rmd".to_string();
    let items = vec!["a/b".to_string(), "c/d".to_string(), "e/f".to_string()];

    let stats = handle_page(
        &mut store,
        &mut tracker,
        &sampled,
        &mut cursor,
        Some(3),
        true,
        &items,
        &query,
    );

    assert_eq!(stats.query, query);
    assert_eq!(stats.page, 1);
    assert_eq!(stats.new_repos, 2);
    assert_eq!(stats.known_repos, 1);
    assert_eq!(store.num_pending(), 2);
    assert_eq!(tracker.weight_at(0), INITIAL_WEIGHT + 2);
    assert_eq!(tracker.weight_at(1), INITIAL_WEIGHT + 2);
    assert_eq!(tracker.weight_at(2), INITIAL_WEIGHT);
    assert_eq!(cursor.current_page(), 2);
}
