use vstd::prelude::*;

use crate::error::DownloadError;

verus! {

/// Attempts that one transfer gets in all.
pub const MAX_ATTEMPTS: u32 = 2;

/// Wait between a failed attempt and the next one, in milliseconds.
pub const RETRY_DELAY_MS: u64 = 40;

/// What to do once an attempt has ended.
#[derive(Debug, PartialEq, Eq)]
pub enum RetryAction {
    /// The attempt succeeded: the transfer is over.
    Done,
    /// The attempt failed: wait this many milliseconds, then try again.
    RetryAfter(u64),
    /// The last permitted attempt failed: report its error. The download is
    /// left in whatever state that attempt left it.
    GiveUp(DownloadError),
}

/// Counts the attempts of one transfer and decides, after each, whether to
/// try again.
pub struct RetryState {
    attempts: u32,
}

impl RetryState {
    /// Attempts made so far.
    pub closed spec fn made(&self) -> nat {
        self.attempts as nat
    }

    pub closed spec fn wf(&self) -> bool {
        self.attempts <= MAX_ATTEMPTS
    }

    /// No attempt made yet.
    pub fn new() -> (r: Self)
        ensures
            r.wf(),
            r.made() == 0,
    {
        RetryState { attempts: 0 }
    }

    /// Attempts made so far.
    pub fn attempts(&self) -> (r: u32)
        ensures
            r == self.made(),
    {
        self.attempts
    }

    /// Whether another attempt may start.
    pub fn may_attempt(&self) -> (r: bool)
        requires
            self.wf(),
        ensures
            r == (self.made() < MAX_ATTEMPTS),
    {
        self.attempts < MAX_ATTEMPTS
    }

    /// Records how an attempt ended. A success ends the transfer; a failure
    /// is retried after [`RETRY_DELAY_MS`] while fewer than [`MAX_ATTEMPTS`]
    /// attempts were made, and is handed back otherwise, so that no attempt
    /// ever follows the last permitted one.
    pub fn record(&mut self, outcome: Result<(), DownloadError>) -> (r: RetryAction)
        requires
            old(self).wf(),
            old(self).made() < MAX_ATTEMPTS,
        ensures
            final(self).wf(),
            final(self).made() == old(self).made() + 1,
            outcome is Ok ==> r == RetryAction::Done,
            outcome is Err ==> if final(self).made() < MAX_ATTEMPTS {
                r == RetryAction::RetryAfter(RETRY_DELAY_MS)
            } else {
                r == RetryAction::GiveUp(outcome->Err_0)
            },
    {
        self.attempts = self.attempts + 1;
        match outcome {
            Ok(()) => RetryAction::Done,
            Err(e) => {
                if self.attempts < MAX_ATTEMPTS {
                    RetryAction::RetryAfter(RETRY_DELAY_MS)
                } else {
                    RetryAction::GiveUp(e)
                }
            },
        }
    }
}

} // verus!
