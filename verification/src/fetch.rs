//! The content fetcher's waiting policy. A fetch is issued to the remote
//! blob store and then polled until the transfer reaches its terminal
//! completed state; the poller here decides, after each poll, whether to
//! serve the bytes, wait with exponential backoff, or give up — never an
//! unbounded spin.

use vstd::prelude::*;

verus! {

/// The delay before the first retry, in milliseconds.
pub const INITIAL_DELAY_MS: u64 = 10;

/// The largest delay between polls, in milliseconds.
pub const MAX_DELAY_MS: u64 = 1280;

/// What the caller must do after one poll of the transfer.
#[derive(Clone, Copy, PartialEq, Eq, Structural, Debug)]
pub enum FetchAction {
    /// The transfer is complete: serve the retrieved bytes.
    Ready,
    /// Wait this many milliseconds, then poll again.
    Wait(u64),
    /// The waiting budget is exhausted: abandon the fetch and report a
    /// read failure; a later read may retry.
    GiveUp,
}

/// The state of one bounded wait for a transfer to complete.
pub struct FetchPoll {
    pub attempts: u32,
    pub max_attempts: u32,
    pub delay_ms: u64,
}

impl FetchPoll {
    /// The delay stays within its designed band.
    pub open spec fn wf(self) -> bool {
        INITIAL_DELAY_MS <= self.delay_ms <= MAX_DELAY_MS
    }

    /// A fresh poller that will wait at most `max_attempts` times.
    pub fn new(max_attempts: u32) -> (p: FetchPoll)
        ensures
            p.wf(),
            p.attempts == 0,
            p.max_attempts == max_attempts,
            p.delay_ms == INITIAL_DELAY_MS,
    {
        FetchPoll { attempts: 0, max_attempts: max_attempts, delay_ms: INITIAL_DELAY_MS }
    }

    /// Decides after one poll: serve when the transfer has completed, wait
    /// (doubling the delay up to the cap) while the budget lasts, give up
    /// once `max_attempts` waits have been spent.
    pub fn next(&mut self, completed: bool) -> (a: FetchAction)
        requires
            old(self).wf(),
        ensures
            final(self).wf(),
            final(self).max_attempts == old(self).max_attempts,
            completed ==> a == FetchAction::Ready && *final(self) == *old(self),
            !completed && old(self).attempts >= old(self).max_attempts ==> a
                == FetchAction::GiveUp && *final(self) == *old(self),
            !completed && old(self).attempts < old(self).max_attempts ==> {
                &&& a == FetchAction::Wait(old(self).delay_ms)
                &&& final(self).attempts == old(self).attempts + 1
                &&& final(self).delay_ms as int == (if old(self).delay_ms * 2 <= MAX_DELAY_MS {
                    old(self).delay_ms * 2
                } else {
                    old(self).delay_ms as int
                })
            },
    {
        if completed {
            FetchAction::Ready
        } else if self.attempts >= self.max_attempts {
            FetchAction::GiveUp
        } else {
            let wait = self.delay_ms;
            self.attempts = self.attempts + 1;
            if self.delay_ms <= MAX_DELAY_MS / 2 {
                self.delay_ms = self.delay_ms * 2;
            }
            FetchAction::Wait(wait)
        }
    }
}

} // verus!
