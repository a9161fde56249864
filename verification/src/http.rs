//! The retry policy of a POST request: what to do after each attempt.
//!
//! Sending the request and waiting are left to the caller; this module only
//! decides.

use vstd::prelude::*;

verus! {

/// How many times a failed request is sent again.
pub const N_RETRY: usize = 3;

/// How long to wait before sending a failed request again, in milliseconds.
pub const RETRY_DELAY_MILLIS: u64 = 50;

/// What to do after an attempt.
#[derive(Clone, Copy, Debug, PartialEq, Eq, Structural)]
pub enum PostAction {
    /// Hand the outcome of this attempt to the caller.
    Finish,
    /// Wait this many milliseconds, then send the request again.
    RetryAfter(u64),
}

/// The action that follows attempt number `attempt` (counted from 0).
pub open spec fn action_after(attempt: usize, succeeded: bool) -> PostAction {
    if succeeded || attempt >= N_RETRY {
        PostAction::Finish
    } else {
        PostAction::RetryAfter(RETRY_DELAY_MILLIS)
    }
}

/// Decides what follows attempt number `attempt` (counted from 0): a success
/// ends the exchange, and so does the failure of the last retry; any other
/// failure is followed by a short wait and another attempt.
pub fn next_action(attempt: usize, succeeded: bool) -> (action: PostAction)
    ensures
        action == action_after(attempt, succeeded),
{
    if succeeded || attempt >= N_RETRY {
        PostAction::Finish
    } else {
        PostAction::RetryAfter(RETRY_DELAY_MILLIS)
    }
}

/// A request is sent at most `N_RETRY + 1` times: whatever the attempts
/// bring, the one numbered `N_RETRY` is the last.
pub proof fn lemma_attempts_are_bounded(succeeded: bool)
    ensures
        action_after(N_RETRY, succeeded) == PostAction::Finish,
        forall|attempt: usize| attempt < N_RETRY ==> #[trigger] action_after(attempt, false)
            != PostAction::Finish,
{
}

} // verus!
