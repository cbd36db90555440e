//! The retry policy of page fetches: after each attempt, whether to stop,
//! to wait and try again, or to give up. Sending the requests and waiting
//! is left to the caller.
use vstd::prelude::*;

verus! {

/// How many times a page is requested at most.
pub const MAX_FETCH_ATTEMPTS: u32 = 3;

/// The wait before the next attempt grows by this many milliseconds per
/// attempt made.
pub const RETRY_DELAY_STEP_MS: u64 = 450;

/// How one request attempt ended.
#[derive(Debug, Clone, Copy, PartialEq, Eq, Structural)]
pub enum AttemptOutcome {
    /// A success status, with the body read.
    Succeeded,
    /// A status other than success; `retryable` tells whether that status
    /// is worth another try.
    Refused { retryable: bool },
    /// The request did not get a response.
    Failed,
}

/// Whether a response status is worth another attempt: rate limiting
/// (429) and server errors (500 to 599).
pub fn is_retryable_status(status: u16) -> (b: bool)
    ensures
        b == (status == 429 || (500 <= status && status <= 599)),
{
    status == 429 || (500 <= status && status <= 599)
}

/// What to do after an attempt.
#[derive(Debug, Clone, Copy, PartialEq, Eq, Structural)]
pub enum FetchStep {
    /// The page is here.
    Done,
    /// Wait this many milliseconds, then try again.
    RetryAfter(u64),
    /// Report the last error.
    GiveUp,
}

/// The step after attempt number `attempt` (counted from one) ended with
/// `outcome`: done on success; giving up on a status not worth retrying or
/// after the last attempt; else waiting `attempt` times the delay step.
pub open spec fn after_attempt_spec(attempt: u32, outcome: AttemptOutcome) -> FetchStep {
    match outcome {
        AttemptOutcome::Succeeded => FetchStep::Done,
        AttemptOutcome::Refused { retryable } => if !retryable || attempt >= MAX_FETCH_ATTEMPTS {
            FetchStep::GiveUp
        } else {
            FetchStep::RetryAfter((RETRY_DELAY_STEP_MS * attempt) as u64)
        },
        AttemptOutcome::Failed => if attempt >= MAX_FETCH_ATTEMPTS {
            FetchStep::GiveUp
        } else {
            FetchStep::RetryAfter((RETRY_DELAY_STEP_MS * attempt) as u64)
        },
    }
}

/// What to do after attempt number `attempt` ended with `outcome`.
pub fn after_attempt(attempt: u32, outcome: AttemptOutcome) -> (step: FetchStep)
    ensures
        step == after_attempt_spec(attempt, outcome),
        step matches FetchStep::RetryAfter(ms) ==> attempt < MAX_FETCH_ATTEMPTS && ms == RETRY_DELAY_STEP_MS
            * attempt,
{
    let retry = match outcome {
        AttemptOutcome::Succeeded => return FetchStep::Done,
        AttemptOutcome::Refused { retryable } => retryable && attempt < MAX_FETCH_ATTEMPTS,
        AttemptOutcome::Failed => attempt < MAX_FETCH_ATTEMPTS,
    };
    if retry {
        FetchStep::RetryAfter(RETRY_DELAY_STEP_MS * attempt as u64)
    } else {
        FetchStep::GiveUp
    }
}

/// A fetch that follows the policy from its first attempt makes at most
/// `MAX_FETCH_ATTEMPTS` attempts: from the last one on, no outcome leads to
/// another try.
pub proof fn law_fetch_gives_up_after_last_attempt(attempt: u32, outcome: AttemptOutcome)
    requires
        attempt >= MAX_FETCH_ATTEMPTS,
    ensures
        !(after_attempt_spec(attempt, outcome) is RetryAfter),
{
}

} // verus!
