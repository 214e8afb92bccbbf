//! The per-page transition of the crawl loop.
//!
//! One successful response page flows through three updates: its identifiers
//! are classified against the store, the sampled keywords are credited with
//! the page's new discoveries, and the cursor folds in the pagination
//! metadata and steps to the next page. The statistics record emitted after
//! each page reports the outcome.

use vstd::prelude::*;
use crate::cursor::QueryCursor;
use crate::ident::IdentifierStore;
use crate::ident::new_count_of;
use crate::ident::new_items_of;
use crate::weights::WeightTracker;
use crate::weights::saturating_add_u64;

verus! {

/// One statistics record, emitted after each processed page.
pub struct PageStats {
    /// The query the page answered.
    pub query: String,
    /// The page number, 1-based.
    pub page: u32,
    /// Identifiers on the page seen for the first time.
    pub new_repos: u32,
    /// Identifiers on the page already seen.
    pub known_repos: u32,
}

/// Fold one successful response page into the crawl state: classify the
/// page's identifiers against the store, credit the sampled keywords with
/// the page's new-discovery count, and advance the cursor.
pub fn handle_page(
    store: &mut IdentifierStore,
    tracker: &mut WeightTracker,
    sampled: &Vec<usize>,
    cursor: &mut QueryCursor,
    reported_total: Option<u32>,
    has_next: bool,
    items: &Vec<String>,
    query: &String,
) -> (stats: PageStats)
    requires
        old(store).wf(),
        old(tracker).wf(),
        sampled@.no_duplicates(),
        forall|j: int| 0 <= j < sampled@.len() ==> sampled@[j] < old(tracker).num_keywords(),
        items@.len() <= u32::MAX,
        old(cursor).page() < u32::MAX,
    ensures
        final(store).wf(),
        final(tracker).wf(),
        final(store).known_seq() == old(store).known_seq(),
        final(store).flushed() == old(store).flushed(),
        final(store).seen_ids() == old(store).seen_ids().union(items.deep_view().to_set()),
        final(store).pending_seq() == old(store).pending_seq() + new_items_of(
            old(store).seen_ids(),
            items.deep_view(),
        ),
        stats.new_repos == new_count_of(old(store).seen_ids(), items.deep_view()),
        stats.new_repos + stats.known_repos == items@.len(),
        stats.page == old(cursor).page(),
        stats.query@ == query@,
        final(tracker).keywords_seq() == old(tracker).keywords_seq(),
        forall|j: int| 0 <= j < sampled@.len() ==> final(tracker).weight_of(sampled@[j] as int)
            == saturating_add_u64(
            old(tracker).weight_of(sampled@[j] as int),
            new_count_of(old(store).seen_ids(), items.deep_view()) as u64,
        ),
        forall|i: usize| i < final(tracker).num_keywords() && !sampled@.contains(i)
            ==> final(tracker).weight_of(i as int) == old(tracker).weight_of(i as int),
        forall|i: int| 0 <= i < final(tracker).num_keywords() ==> final(tracker).weight_of(i)
            >= old(tracker).weight_of(i),
        final(cursor).page() == old(cursor).page() + 1,
        final(cursor).total_pages() == (if old(cursor).total_pages() is Some {
            old(cursor).total_pages()
        } else {
            reported_total
        }),
        final(cursor).still_results() == has_next,
        final(cursor).max_pages() == old(cursor).max_pages(),
{
    let page = cursor.current_page();
    let counts = store.process_page(items);
    tracker.record_feedback(sampled, counts.0);
    cursor.record_response(reported_total, has_next);
    PageStats { query: query.clone(), page, new_repos: counts.0, known_repos: counts.1 }
}

} // verus!
