use ferrox::sse::{
    orphan_timeout_from_env, send_plan, send_result, SendFailure, SendOutcome, SendPlan, DEFAULT_ORPHAN_TIMEOUT,
};
use std::time::Duration;

#[test]
fn the_default_deadline_applies_when_the_env_var_is_absent() {
    assert_eq!(Duration::from_millis(DEFAULT_ORPHAN_TIMEOUT), Duration::from_secs(30));
    assert_eq!(orphan_timeout_from_env(None), Some(DEFAULT_ORPHAN_TIMEOUT));
}

#[test]
fn zero_disables_the_deadline_and_a_typo_keeps_it() {
    assert_eq!(orphan_timeout_from_env(Some("0")), None);
    assert_eq!(orphan_timeout_from_env(Some(" 1500\n")), Some(1500));
    assert_eq!(orphan_timeout_from_env(Some("soon")), Some(DEFAULT_ORPHAN_TIMEOUT));
    assert_eq!(orphan_timeout_from_env(Some("-1")), Some(DEFAULT_ORPHAN_TIMEOUT));
}

#[test]
fn a_deadline_needs_a_runtime_to_drive_it() {
    assert_eq!(send_plan(Some(5), true), SendPlan::Within { ms: 5 });
    assert_eq!(send_plan(Some(5), false), SendPlan::Block);
    assert_eq!(send_plan(None, true), SendPlan::Block);
}

#[test]
fn the_two_failures_are_kept_apart() {
    assert_eq!(send_result(SendOutcome::Sent), Ok(()));
    assert_eq!(send_result(SendOutcome::Closed), Err(SendFailure::Disconnected));
    assert_eq!(send_result(SendOutcome::TimedOut), Err(SendFailure::Orphaned));
}
