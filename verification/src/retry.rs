//! Exponential-backoff retry policy for rate-limited remote queries.
//!
//! A rate-limit error from the remote is absorbed by sleeping and retrying:
//! the first retry waits `BASE_DELAY_SECS` seconds and every further retry
//! doubles the wait. After `MAX_RETRIES` consecutive failures of the same
//! request the next failure is fatal: the crawl flushes its pending state
//! and stops, since the credential is presumed invalid or blocked.

use vstd::prelude::*;

verus! {

/// Seconds slept before the first retry of a failing request.
pub const BASE_DELAY_SECS: u64 = 61;

/// Consecutive failures of one request absorbed before giving up.
pub const MAX_RETRIES: u32 = 10;

/// 2^n as a mathematical integer.
pub open spec fn pow2(n: nat) -> nat
    decreases n,
{
    if n == 0 {
        1
    } else {
        2 * pow2((n - 1) as nat)
    }
}

pub proof fn lemma_pow2_mono(a: nat, b: nat)
    requires
        a <= b,
    ensures
        pow2(a) <= pow2(b),
    decreases b,
{
    if a < b {
        lemma_pow2_mono(a, (b - 1) as nat);
    }
}

/// What the crawl loop must do after one failed request.
#[derive(Clone, Copy, Debug, PartialEq, Eq, Structural)]
pub enum RetryDecision {
    /// Sleep for `delay_secs` seconds, then retry the same request.
    Retry { delay_secs: u64 },
    /// The retry budget is exhausted: flush pending state and stop fatally.
    GiveUp,
}

/// Consecutive-failure count and current backoff delay for a single request.
pub struct RetryState {
    tries: u32,
    delay_secs: u64,
}

impl RetryState {
    /// Retries already taken for the current request.
    pub closed spec fn tries(&self) -> u32 {
        self.tries
    }

    pub closed spec fn wf(&self) -> bool {
        &&& self.tries <= MAX_RETRIES
        &&& self.delay_secs == BASE_DELAY_SECS * pow2(self.tries as nat)
    }

    /// A fresh state: no failures seen yet for this request.
    pub fn new() -> (s: Self)
        ensures
            s.wf(),
            s.tries() == 0,
    {
        RetryState { tries: 0, delay_secs: BASE_DELAY_SECS }
    }

    /// Decide what follows one more consecutive failure of the same request.
    ///
    /// The n-th retry (n = 1, 2, ...) is preceded by a sleep of exactly
    /// `BASE_DELAY_SECS * 2^(n-1)` seconds; failure number `MAX_RETRIES + 1`
    /// yields `GiveUp` with no further retry.
    pub fn on_failure(&mut self) -> (d: RetryDecision)
        requires
            old(self).wf(),
        ensures
            final(self).wf(),
            old(self).tries() < MAX_RETRIES ==> {
                &&& d matches RetryDecision::Retry { delay_secs }
                    && delay_secs == BASE_DELAY_SECS * pow2(old(self).tries() as nat)
                &&& final(self).tries() == old(self).tries() + 1
            },
            old(self).tries() >= MAX_RETRIES ==> d == RetryDecision::GiveUp
                && *final(self) == *old(self),
    {
        if self.tries >= MAX_RETRIES {
            RetryDecision::GiveUp
        } else {
            let d = self.delay_secs;
            proof {
                lemma_pow2_mono(self.tries as nat, (MAX_RETRIES - 1) as nat);
                reveal_with_fuel(pow2, 11);
                assert(pow2((MAX_RETRIES - 1) as nat) == 512);
            }
            self.delay_secs = self.delay_secs * 2;
            self.tries = self.tries + 1;
            RetryDecision::Retry { delay_secs: d }
        }
    }
}

} // verus!
