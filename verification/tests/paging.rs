use repo_discovery::cursor::{paginate_step, PaginateStep, QueryCursor, DEFAULT_PAGE_CEILING};
use repo_discovery::retry::{RetryDecision, RetryState, BASE_DELAY_SECS, MAX_RETRIES};

#[test]
fn backoff_doubles_from_the_base_and_gives_up_on_the_eleventh_failure() {
    let mut retry = RetryState::new();
    let mut expected = BASE_DELAY_SECS;
    for _ in 0..MAX_RETRIES {
        match retry.on_failure() {
            RetryDecision::Retry { delay_secs } => assert_eq!(delay_secs, expected),
            RetryDecision::GiveUp => panic!("gave up inside the retry budget"),
        }
        expected *= 2;
    }
    // Delays were 61, 122, ..., 61 * 2^9 = 31232 seconds.
    assert_eq!(expected, BASE_DELAY_SECS * 1024);
    assert_eq!(retry.on_failure(), RetryDecision::GiveUp);
    assert_eq!(retry.on_failure(), RetryDecision::GiveUp);
}

#[test]
fn pagination_visits_exactly_the_reported_pages() {
    // The simulated remote reports three pages in total and no further page
    // on page 3.
    let mut cursor = QueryCursor::new_default();
    let mut visited: Vec<u32> = Vec::new();
    loop {
        match paginate_step(&cursor, false) {
            PaginateStep::FetchPage { page } => {
                visited.push(page);
                let has_next = page < 3;
                cursor.record_response(Some(3), has_next);
            }
            PaginateStep::Exhausted => break,
            PaginateStep::Cancelled => panic!("nothing cancelled this sweep"),
        }
    }
    assert_eq!(visited, vec![1, 2, 3]);
}

#[test]
fn pagination_stops_at_the_reported_total_even_with_a_continuation() {
    // A remote that keeps claiming a further page still cannot drive the
    // sweep past its reported total.
    let mut cursor = QueryCursor::new_default();
    let mut visited: Vec<u32> = Vec::new();
    loop {
        match paginate_step(&cursor, false) {
            PaginateStep::FetchPage { page } => {
                visited.push(page);
                cursor.record_response(Some(3), true);
            }
            PaginateStep::Exhausted => break,
            PaginateStep::Cancelled => panic!("nothing cancelled this sweep"),
        }
    }
    assert_eq!(visited, vec![1, 2, 3]);
}

#[test]
fn pagination_respects_the_ceiling_while_the_total_is_unknown() {
    let mut cursor = QueryCursor::new(2);
    let mut visited: Vec<u32> = Vec::new();
    loop {
        match paginate_step(&cursor, false) {
            PaginateStep::FetchPage { page } => {
                visited.push(page);
                cursor.record_response(None, true);
            }
            PaginateStep::Exhausted => break,
            PaginateStep::Cancelled => panic!("nothing cancelled this sweep"),
        }
    }
    assert_eq!(visited, vec![1, 2]);
}

#[test]
fn pagination_stops_when_the_continuation_ends() {
    let mut cursor = QueryCursor::new_default();
    let mut visited: Vec<u32> = Vec::new();
    loop {
        match paginate_step(&cursor, false) {
            PaginateStep::FetchPage { page } => {
                visited.push(page);
                cursor.record_response(None, page < 2);
            }
            PaginateStep::Exhausted => break,
            PaginateStep::Cancelled => panic!("nothing cancelled this sweep"),
        }
    }
    assert_eq!(visited, vec![1, 2]);
}

#[test]
fn cancellation_wins_at_every_checkpoint() {
    let cursor = QueryCursor::new_default();
    assert_eq!(paginate_step(&cursor, true), PaginateStep::Cancelled);
    assert_eq!(DEFAULT_PAGE_CEILING, 1000);
}
