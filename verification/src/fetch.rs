//! Retry policy of the paginated fetcher.
//!
//! A fetch attempt that fails for a transient reason is retried with a
//! linearly growing delay, up to a fixed total number of attempts; when the
//! bound is reached the failure becomes terminal.

use vstd::prelude::*;

verus! {

/// Total attempts a single page fetch may use.
pub const MAX_ATTEMPTS: u32 = 4;

/// Unit of the linear backoff, in seconds.
pub const RETRY_UNIT_SECS: u64 = 3;

/// What to do after a failed attempt.
#[derive(Debug, Clone, Copy, PartialEq, Eq, Structural)]
pub enum RetryDecision {
    /// Try again after this many seconds.
    RetryAfter(u64),
    /// The failure is terminal: surface it to the caller.
    GiveUp,
}

/// Retry bookkeeping for one page fetch.
#[derive(Debug, Clone, Copy, PartialEq, Eq, Structural)]
pub struct RetryState {
    /// Attempts that have failed so far.
    pub attempts: u32,
}

impl RetryState {
    /// Never more failures than the bound allows.
    pub open spec fn wf(&self) -> bool {
        self.attempts <= MAX_ATTEMPTS
    }

    /// A fresh fetch: no attempt has failed yet.
    pub fn new() -> (r: RetryState)
        ensures
            r.attempts == 0,
            r.wf(),
    {
        RetryState { attempts: 0 }
    }

    /// Records one failed attempt.  The fetch gives up exactly on the
    /// `MAX_ATTEMPTS`-th failure; any earlier failure waits `attempts`
    /// times the backoff unit and tries again.
    pub fn on_failure(&mut self) -> (d: RetryDecision)
        requires
            old(self).attempts < MAX_ATTEMPTS,
        ensures
            final(self).attempts == old(self).attempts + 1,
            final(self).wf(),
            d == if final(self).attempts == MAX_ATTEMPTS {
                RetryDecision::GiveUp
            } else {
                RetryDecision::RetryAfter((final(self).attempts as u64 * RETRY_UNIT_SECS) as u64)
            },
    {
        self.attempts = self.attempts + 1;
        if self.attempts == MAX_ATTEMPTS {
            RetryDecision::GiveUp
        } else {
            RetryDecision::RetryAfter((self.attempts as u64) * RETRY_UNIT_SECS)
        }
    }
}

} // verus!
