use batch_system::max_ts::{
    should_continue, should_log, success_status, try_mark_synced, update_step, AttemptOutcome,
    UpdateAction,
};

#[test]
fn success_status_sets_the_low_bit() {
    assert_eq!(success_status(0), 1);
    assert_eq!(success_status(2), 3);
    assert_eq!(success_status(3), 3);
    assert_eq!(success_status(8), 9);
}

#[test]
fn continue_only_while_status_holds_and_not_shut_down() {
    assert!(should_continue(4, 4, false));
    assert!(!should_continue(5, 4, false));
    assert!(!should_continue(4, 4, true));
}

#[test]
fn mark_synced_wins_only_against_the_initial_status() {
    assert_eq!(try_mark_synced(6, 6), (7, true));
    assert_eq!(try_mark_synced(8, 6), (8, false));
}

#[test]
fn failure_logging_is_throttled() {
    assert!(!should_log(100, 100, 5));
    assert!(!should_log(100, 105, 5));
    assert!(should_log(100, 106, 5));
    // A clock standing before the last log counts as no time passed.
    assert!(!should_log(100, 50, 5));
    assert!(!should_log(100, 50, 0));
    assert!(should_log(100, 200, 5));
}

#[test]
fn update_step_decides_stop_finish_retry() {
    assert_eq!(update_step(9, 4, false, AttemptOutcome::Renewed), UpdateAction::Stop);
    assert_eq!(update_step(4, 4, true, AttemptOutcome::Renewed), UpdateAction::Stop);
    assert_eq!(update_step(4, 4, false, AttemptOutcome::Renewed), UpdateAction::Finish);
    assert_eq!(update_step(4, 4, false, AttemptOutcome::Failed), UpdateAction::Retry);
}
