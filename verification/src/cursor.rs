//! Pagination state for one query cycle.
//!
//! A cycle sweeps a single keyword combination (or a single account) page by
//! page, starting at page 1. The total page count is unknown until the first
//! successful response; until then a configurable ceiling bounds the sweep so
//! it cannot loop without end. The remote also reports, with every page,
//! whether a further page exists; the sweep stops as soon as it does not.

use vstd::prelude::*;

verus! {

/// Page ceiling used while the remote has not yet reported a total.
pub const DEFAULT_PAGE_CEILING: u32 = 1000;

/// Pagination state of the current cycle: the next page to fetch (1-based),
/// the total page count once the remote has reported one, whether the remote
/// says a further page exists, and the ceiling that stands in for the total
/// while it is unknown.
pub struct QueryCursor {
    page: u32,
    total_pages: Option<u32>,
    still_results: bool,
    max_pages: u32,
}

/// What the crawl loop must do next within one cycle.
#[derive(Clone, Copy, Debug, PartialEq, Eq, Structural)]
pub enum PaginateStep {
    /// Fetch this page of the current query.
    FetchPage { page: u32 },
    /// The cycle is over: merge pending discoveries and select a new query.
    Exhausted,
    /// Cancellation was observed: persist pending state and stop the crawl.
    Cancelled,
}

impl QueryCursor {
    /// The next page to fetch, 1-based.
    pub closed spec fn page(&self) -> u32 {
        self.page
    }

    /// The remote's total page count, once reported.
    pub closed spec fn total_pages(&self) -> Option<u32> {
        self.total_pages
    }

    /// Whether the remote reported that a further page exists.
    pub closed spec fn still_results(&self) -> bool {
        self.still_results
    }

    /// The ceiling that bounds the sweep while the total is unknown.
    pub closed spec fn max_pages(&self) -> u32 {
        self.max_pages
    }

    /// The last page the sweep may fetch: the reported total where known,
    /// else the configured ceiling.
    pub open spec fn page_bound(&self) -> u32 {
        match self.total_pages() {
            Some(t) => t,
            None => self.max_pages(),
        }
    }

    /// A fresh cursor for a new cycle, bounded by `max_pages` until the
    /// remote reports a total.
    pub fn new(max_pages: u32) -> (c: Self)
        ensures
            c.page() == 1,
            c.total_pages() is None,
            c.still_results(),
            c.max_pages() == max_pages,
    {
        QueryCursor { page: 1, total_pages: None, still_results: true, max_pages }
    }

    /// A fresh cursor with the default page ceiling.
    pub fn new_default() -> (c: Self)
        ensures
            c.page() == 1,
            c.total_pages() is None,
            c.still_results(),
            c.max_pages() == DEFAULT_PAGE_CEILING,
    {
        Self::new(DEFAULT_PAGE_CEILING)
    }

    /// Whether the sweep may fetch the cursor's current page.
    pub fn may_fetch(&self) -> (r: bool)
        ensures
            r == (self.page() <= self.page_bound() && self.still_results()),
    {
        let within = match self.total_pages {
            Some(t) => self.page <= t,
            None => self.page <= self.max_pages,
        };
        within && self.still_results
    }

    /// Fold one successful response's pagination metadata into the cursor:
    /// keep the first reported total, adopt the continuation flag, and step
    /// to the next page.
    pub fn record_response(&mut self, reported_total: Option<u32>, has_next: bool)
        requires
            old(self).page() < u32::MAX,
        ensures
            final(self).page() == old(self).page() + 1,
            final(self).total_pages() == (if old(self).total_pages() is Some {
                old(self).total_pages()
            } else {
                reported_total
            }),
            final(self).still_results() == has_next,
            final(self).max_pages() == old(self).max_pages(),
    {
        if self.total_pages.is_none() {
            self.total_pages = reported_total;
        }
        self.still_results = has_next;
        self.page = self.page + 1;
    }

    /// The cursor's current page, for building the next request.
    pub fn current_page(&self) -> (p: u32)
        ensures
            p == self.page(),
    {
        self.page
    }
}

/// The Paginating state's transition: cancellation wins over everything,
/// then the page bound and the continuation flag decide between fetching
/// the current page and ending the cycle.
pub fn paginate_step(cursor: &QueryCursor, cancelled: bool) -> (s: PaginateStep)
    ensures
        cancelled ==> s == PaginateStep::Cancelled,
        !cancelled && cursor.page() <= cursor.page_bound() && cursor.still_results()
            ==> s == (PaginateStep::FetchPage { page: cursor.page() }),
        !cancelled && !(cursor.page() <= cursor.page_bound() && cursor.still_results())
            ==> s == PaginateStep::Exhausted,
{
    if cancelled {
        PaginateStep::Cancelled
    } else if cursor.may_fetch() {
        PaginateStep::FetchPage { page: cursor.current_page() }
    } else {
        PaginateStep::Exhausted
    }
}

} // verus!
