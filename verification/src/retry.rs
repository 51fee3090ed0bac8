//! The retry-on-unauthorized policy every authenticated backend call is
//! wrapped in: attempt the call; on an authorization failure refresh the
//! token exactly once and retry exactly once; surface a second
//! authorization failure unmodified; never retry any other failure.

use vstd::prelude::*;

use crate::filesystem::FsError;

verus! {

/// What one backend attempt reported: a result, an authorization failure
/// (the backend rejected the bearer token), or any other failure.
pub enum Attempt<T> {
    Success(T),
    AuthFailure,
    Failure(FsError),
}

/// What the policy does after seeing the first attempt.
pub enum RetryStep<T> {
    /// The call is settled: successes and non-authorization failures are
    /// never retried.
    Done(Result<T, FsError>),
    /// The first attempt hit an authorization failure: refresh the token
    /// once, then retry the call once.
    RefreshAndRetry,
}

/// Decide from the first attempt whether the call is settled or one
/// refresh-and-retry is owed.
pub fn after_first_attempt<T>(first: Attempt<T>) -> (r: RetryStep<T>)
    ensures
        match first {
            Attempt::Success(v) => r == RetryStep::Done(Result::<T, FsError>::Ok(v)),
            Attempt::AuthFailure => r == RetryStep::<T>::RefreshAndRetry,
            Attempt::Failure(e) => r == RetryStep::Done(Result::<T, FsError>::Err(e)),
        },
{
    match first {
        Attempt::Success(v) => RetryStep::Done(Ok(v)),
        Attempt::AuthFailure => RetryStep::RefreshAndRetry,
        Attempt::Failure(e) => RetryStep::Done(Err(e)),
    }
}

/// Settle the call after the single refresh-and-retry: a failed refresh
/// surfaces `AuthRequired` (the caller must re-authorize interactively),
/// and a second authorization failure is surfaced as it came, with no
/// further retry.
pub fn after_retry<T>(refresh_succeeded: bool, second: Attempt<T>) -> (r: Result<T, FsError>)
    ensures
        !refresh_succeeded ==> r == Result::<T, FsError>::Err(FsError::AuthRequired),
        refresh_succeeded ==> match second {
            Attempt::Success(v) => r == Result::<T, FsError>::Ok(v),
            Attempt::AuthFailure => r == Result::<T, FsError>::Err(FsError::AuthExpired),
            Attempt::Failure(e) => r == Result::<T, FsError>::Err(e),
        },
{
    if !refresh_succeeded {
        return Err(FsError::AuthRequired);
    }
    match second {
        Attempt::Success(v) => Ok(v),
        Attempt::AuthFailure => Err(FsError::AuthExpired),
        Attempt::Failure(e) => Err(e),
    }
}

/// Run the whole policy against a scripted backend: `first` is what the
/// first attempt reports, `second` what a retry would report, and
/// `refresh_succeeds` what the token refresh would do. Returns the settled
/// result together with how many refreshes were performed: one exactly
/// when the first attempt was an authorization failure, never more.
pub fn call_with_retry<T>(first: Attempt<T>, refresh_succeeds: bool, second: Attempt<T>) -> (r: (
    Result<T, FsError>,
    u32,
))
    ensures
        match first {
            Attempt::Success(v) => r == (Result::<T, FsError>::Ok(v), 0u32),
            Attempt::Failure(e) => r == (Result::<T, FsError>::Err(e), 0u32),
            Attempt::AuthFailure => r.1 == 1 && (if !refresh_succeeds {
                r.0 == Result::<T, FsError>::Err(FsError::AuthRequired)
            } else {
                match second {
                    Attempt::Success(v) => r.0 == Result::<T, FsError>::Ok(v),
                    Attempt::AuthFailure => r.0 == Result::<T, FsError>::Err(FsError::AuthExpired),
                    Attempt::Failure(e) => r.0 == Result::<T, FsError>::Err(e),
                }
            }),
        },
{
    match after_first_attempt(first) {
        RetryStep::Done(result) => (result, 0),
        RetryStep::RefreshAndRetry => (after_retry(refresh_succeeds, second), 1),
    }
}

} // verus!
