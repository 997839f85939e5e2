//! Small helpers: picking the first present value, and the decisions of a
//! retry loop.
use vstd::prelude::*;

use crate::error::McStatusError;

verus! {

/// Returns the first non-None argument.
///
/// Unlike a test on "truthiness", this treats values such as 0 or an empty
/// string as present and only skips `None`.
pub fn or_none<T>(a: Option<T>, b: Option<T>) -> (r: Option<T>)
    ensures
        r == (match a {
            Some(x) => Some(x),
            None => b,
        }),
{
    match a {
        Some(x) => Some(x),
        None => b,
    }
}

/// What a retry loop does after an attempt.
pub enum RetryAction<T> {
    /// Stop and give this result.
    Return(Result<T, McStatusError>),
    /// Wait a little, then make the next attempt.
    Wait,
}

/// The decision after attempt number `attempt` (counted from 0) of `tries`:
/// a success is returned at once; a failure is retried while attempts are
/// left, and the last failure is returned.
pub fn retry_step<T>(tries: usize, attempt: usize, outcome: Result<T, McStatusError>) -> (r:
    RetryAction<T>)
    requires
        attempt < tries,
    ensures
        match outcome {
            Ok(v) => r == RetryAction::Return(Ok::<T, McStatusError>(v)),
            Err(e) => if attempt + 1 < tries {
                r is Wait
            } else {
                r == RetryAction::Return(Err::<T, McStatusError>(e))
            },
        },
{
    match outcome {
        Ok(v) => RetryAction::Return(Ok(v)),
        Err(e) => {
            if attempt + 1 < tries {
                RetryAction::Wait
            } else {
                RetryAction::Return(Err(e))
            }
        },
    }
}

/// The result of a retry loop that made no attempt at all.
pub fn retry_exhausted<T>() -> (r: Result<T, McStatusError>)
    ensures
        r matches Err(McStatusError::Other(m)) && m@ == "Retry exhausted without any attempts"@,
{
    Err(McStatusError::Other("Retry exhausted without any attempts".to_owned()))
}

} // verus!
