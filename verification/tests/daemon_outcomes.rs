use lanspeedd::daemon::{
    abort_reload_after_timer_failure, abort_reload_candidate, abort_startup, collection_outcome,
    install_control_outcome, postcommit_fatal, reconnect_outcome, shutdown_outcome,
};
use lanspeedd::error::DaemonError;

#[test]
fn a_failed_collection_is_rolled_back_and_a_failed_timer_is_fatal() {
    let ok = collection_outcome(Ok(()), Ok(()));
    assert!(!ok.restore);
    assert_eq!(ok.result, Ok(()));
    assert_eq!(ok.fatal, None);
    let failed = collection_outcome(Err(DaemonError::collection("bad map")), Ok(()));
    assert!(failed.restore);
    assert_eq!(failed.result, Err(DaemonError::collection("bad map")));
    assert_eq!(failed.fatal, None);
    let both = collection_outcome(Err(DaemonError::collection("bad map")), Err(DaemonError::transport("no timer")));
    assert!(both.restore);
    let message = "collection: bad map; collection timer failed: transport: no timer";
    assert_eq!(both.result, Err(DaemonError::transport(message)));
    assert_eq!(both.fatal.as_deref(), Some(message));
    let timer_only = collection_outcome(Ok(()), Err(DaemonError::transport("no timer")));
    assert!(!timer_only.restore);
    assert_eq!(timer_only.fatal.as_deref(), Some("collection timer failed: transport: no timer"));
}

#[test]
fn a_reload_candidate_whose_cleanup_fails_is_fatal() {
    let kept = abort_reload_candidate(DaemonError::collection("empty"), Ok(()));
    assert_eq!(kept.error, DaemonError::collection("empty"));
    assert_eq!(kept.fatal, None);
    let fatal = abort_reload_candidate(DaemonError::collection("empty"), Err(DaemonError::platform("stuck")));
    let message = "candidate cleanup: collection: empty; cleanup failed: platform: stuck";
    assert_eq!(fatal.error, DaemonError::reload(message));
    assert_eq!(fatal.fatal.as_deref(), Some(message));
    let startup = abort_startup(DaemonError::collection("empty"), Err(DaemonError::platform("stuck")));
    assert_eq!(startup.fatal.as_deref(), Some("startup cleanup: collection: empty; cleanup failed: platform: stuck"));
}

#[test]
fn a_timer_failure_during_reload_joins_every_failure() {
    let primary = DaemonError::transport("timer");
    let kept = abort_reload_after_timer_failure(primary.clone(), Ok(()), Ok(()));
    assert_eq!(kept.error, primary);
    let all = abort_reload_after_timer_failure(
        primary.clone(),
        Err(DaemonError::transport("old timer")),
        Err(DaemonError::platform("stuck")),
    );
    let message = "transport: timer; candidate cleanup failed: platform: stuck; timer rollback failed: transport: old timer";
    assert_eq!(all.error, DaemonError::reload(message));
    assert_eq!(all.fatal.as_deref(), Some(message));
    let timer = abort_reload_after_timer_failure(primary, Err(DaemonError::transport("old timer")), Ok(()));
    assert_eq!(timer.fatal.as_deref(), Some("transport: timer; timer rollback failed: transport: old timer"));
}

#[test]
fn shutdown_and_install_failures_are_joined() {
    assert_eq!(shutdown_outcome(None, None), Ok(()));
    assert_eq!(shutdown_outcome(Some(DaemonError::platform("a")), None), Err(DaemonError::platform("a")));
    assert_eq!(
        shutdown_outcome(Some(DaemonError::platform("a")), Some(DaemonError::transport("b"))),
        Err(DaemonError::platform("platform: a; transport cleanup failed: transport: b"))
    );
    assert_eq!(
        install_control_outcome(DaemonError::platform("nft"), Err(DaemonError::transport("bus"))),
        DaemonError::platform("platform: nft; startup cleanup failed: transport: bus")
    );
    assert_eq!(install_control_outcome(DaemonError::platform("nft"), Ok(())), DaemonError::platform("nft"));
    let retry = reconnect_outcome(DaemonError::transport("down"), Err(DaemonError::transport("timer")));
    assert_eq!(retry.error, DaemonError::transport("transport: down; reconnect timer failed: transport: timer"));
    assert_eq!(postcommit_fatal(Ok(())), None);
    assert_eq!(
        postcommit_fatal(Err(DaemonError::platform("x"))).as_deref(),
        Some("reload committed; postcommit old runtime cleanup failed: platform: x")
    );
}
