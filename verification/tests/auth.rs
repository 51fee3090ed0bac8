use orbital_files::after_first_attempt;
use orbital_files::after_retry;
use orbital_files::call_with_retry;
use orbital_files::Attempt;
use orbital_files::AuthToken;
use orbital_files::FsError;
use orbital_files::RefreshPlan;
use orbital_files::RetryStep;
use orbital_files::TokenStorage;

fn token(access: &str, refresh: Option<&str>) -> AuthToken {
    AuthToken {
        access_token: access.to_string(),
        refresh_token: refresh.map(|r| r.to_string()),
    }
}

#[test]
fn retry_succeeds_after_one_auth_failure_with_one_refresh() {
    let (result, refreshes) = call_with_retry(Attempt::AuthFailure, true, Attempt::Success(7u32));
    assert_eq!(result, Ok(7));
    assert_eq!(refreshes, 1);
}

#[test]
fn retry_surfaces_second_auth_failure_without_looping() {
    let (result, refreshes) =
        call_with_retry::<u32>(Attempt::AuthFailure, true, Attempt::AuthFailure);
    assert_eq!(result, Err(FsError::AuthExpired));
    assert_eq!(refreshes, 1);
}

#[test]
fn retry_reports_auth_required_when_refresh_fails() {
    let (result, refreshes) =
        call_with_retry::<u32>(Attempt::AuthFailure, false, Attempt::Success(1));
    assert_eq!(result, Err(FsError::AuthRequired));
    assert_eq!(refreshes, 1);
}

#[test]
fn retry_never_refreshes_on_success_or_other_failures() {
    let (result, refreshes) = call_with_retry(Attempt::Success(5u32), true, Attempt::Success(6));
    assert_eq!(result, Ok(5));
    assert_eq!(refreshes, 0);
    let (result, refreshes) = call_with_retry::<u32>(
        Attempt::Failure(FsError::Transport),
        true,
        Attempt::Success(6),
    );
    assert_eq!(result, Err(FsError::Transport));
    assert_eq!(refreshes, 0);
    let (result, refreshes) = call_with_retry::<u32>(
        Attempt::Failure(FsError::NotFound),
        true,
        Attempt::Success(6),
    );
    assert_eq!(result, Err(FsError::NotFound));
    assert_eq!(refreshes, 0);
}

#[test]
fn retry_steps_match_the_policy() {
    assert!(matches!(
        after_first_attempt(Attempt::Success(3u32)),
        RetryStep::Done(Ok(3))
    ));
    assert!(matches!(
        after_first_attempt::<u32>(Attempt::AuthFailure),
        RetryStep::RefreshAndRetry
    ));
    assert!(matches!(
        after_first_attempt::<u32>(Attempt::Failure(FsError::Conflict)),
        RetryStep::Done(Err(FsError::Conflict))
    ));
    assert_eq!(after_retry::<u32>(false, Attempt::Success(1)), Err(FsError::AuthRequired));
    assert_eq!(after_retry(true, Attempt::Success(1u32)), Ok(1));
    assert_eq!(
        after_retry::<u32>(true, Attempt::AuthFailure),
        Err(FsError::AuthExpired)
    );
}

#[test]
fn token_storage_replaces_whole_snapshot() {
    let mut storage = TokenStorage::new(None);
    assert_eq!(storage.get(), None);
    storage.set(Some(token("a1", Some("r1"))));
    assert_eq!(storage.get(), Some(token("a1", Some("r1"))));
    storage.set(Some(token("a2", None)));
    assert_eq!(storage.get(), Some(token("a2", None)));
}

#[test]
fn refresh_plan_uses_refresh_token_only_when_held() {
    let storage = TokenStorage::new(Some(token("a", Some("r"))));
    assert!(matches!(
        storage.refresh_plan(),
        RefreshPlan::UseRefreshToken(rt) if rt == "r"
    ));
    let storage = TokenStorage::new(Some(token("a", None)));
    assert!(matches!(storage.refresh_plan(), RefreshPlan::InteractiveRequired));
    let storage = TokenStorage::new(None);
    assert!(matches!(storage.refresh_plan(), RefreshPlan::InteractiveRequired));
}

#[test]
fn failed_refresh_drops_to_unauthenticated_and_reports_auth_required() {
    let mut storage = TokenStorage::new(Some(token("old", Some("r"))));
    let outcome = storage.apply_refresh(None);
    assert_eq!(outcome, Err(FsError::AuthRequired));
    assert_eq!(storage.get(), None);
    let outcome = storage.apply_refresh(Some(token("new", Some("r2"))));
    assert_eq!(outcome, Ok(()));
    assert_eq!(storage.get(), Some(token("new", Some("r2"))));
}
