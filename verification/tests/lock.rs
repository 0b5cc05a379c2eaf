use github_actions_local_cache::lock::{lock_step, LockAction, LockEvent, LockPhase, LockState};
use github_actions_local_cache::lock::{
    lock_is_stale, lock_wait_step, locked_result, owns_lock, LockPause, LockRecord,
};
use github_actions_local_cache::CacheError;

fn record(boot: &str, created: u128, nonce: &str) -> LockRecord {
    LockRecord { pid: 1, boot_id: boot.to_owned(), created_at_ms: created, nonce: nonce.to_owned() }
}

#[test]
fn stale_locks_are_recognized() {
    let other_boot = record("different", 1, "old");
    assert!(lock_is_stale(Some(&other_boot), "current", 2, 0));
    let fresh = record("current", 1_000_000, "n");
    assert!(!lock_is_stale(Some(&fresh), "current", 1_000_000 + 1_230_000, 0));
    assert!(lock_is_stale(Some(&fresh), "current", 1_000_000 + 1_230_001, 0));
    assert!(!lock_is_stale(Some(&fresh), "current", 0, 0));
    assert!(!lock_is_stale(None, "current", 0, 30_000_000_000));
    assert!(lock_is_stale(None, "current", 0, 30_000_000_001));
}

#[test]
fn lock_waits_back_off_and_time_out() {
    let pause = lock_wait_step(0, 1_000_000_000, 20_000_000).unwrap();
    assert_eq!(pause, LockPause { sleep_nanos: 20_000_000, next_backoff_nanos: 40_000_000 });
    let capped = lock_wait_step(0, 1_000_000_000, 400_000_000).unwrap();
    assert_eq!(capped.next_backoff_nanos, 500_000_000);
    let cut = lock_wait_step(990_000_000, 1_000_000_000, 20_000_000).unwrap();
    assert_eq!(cut.sleep_nanos, 10_000_000);
    let error = lock_wait_step(20_000_000, 20_000_000, 20_000_000).unwrap_err();
    assert_eq!(error.code, "lock-timeout");
    assert_eq!(error.message, "timed out waiting for cache entry lock");
}

#[test]
fn locked_operations_report_their_own_error_first() {
    let own = record("b", 1, "mine");
    assert!(owns_lock(&record("b", 1, "mine"), &own));
    assert!(!owns_lock(&record("b", 1, "theirs"), &own));
    let first = locked_result::<u8>(Err(CacheError::new("a", "")), Err(CacheError::new("b", "")));
    assert_eq!(first.unwrap_err().code, "a");
    let release = locked_result::<u8>(Ok(1), Err(CacheError::new("lock-release", "")));
    assert_eq!(release.unwrap_err().code, "lock-release");
    assert_eq!(locked_result::<u8>(Ok(1), Ok(())).unwrap(), 1);
}

fn held_by(record: Option<LockRecord>, elapsed_nanos: u128) -> LockEvent {
    LockEvent::Exists { record, now_ms: 1_000, file_age_nanos: 0, elapsed_nanos }
}

#[test]
fn lock_steps_wait_run_once_and_release() {
    let state = LockState::new("boot-a".to_owned(), 100_000_000);
    let (state, action) = lock_step(&state, LockEvent::Begin);
    assert!(matches!(action, LockAction::TryCreate));
    let held = LockRecord {
        pid: 7,
        boot_id: "boot-a".to_owned(),
        created_at_ms: 900,
        nonce: "n".to_owned(),
    };
    let (state, action) = lock_step(&state, held_by(Some(held.clone()), 0));
    assert!(matches!(action, LockAction::Sleep(20_000_000)));
    let (state, action) = lock_step(&state, LockEvent::Waited);
    assert!(matches!(action, LockAction::TryCreate));
    let (state, action) = lock_step(&state, held_by(Some(held.clone()), 90_000_000));
    assert!(matches!(action, LockAction::Sleep(10_000_000)));
    let (timed_out, action) = lock_step(&state, held_by(Some(held.clone()), 100_000_000));
    match action {
        LockAction::Fail(error) => assert_eq!(error.code, "lock-timeout"),
        other => panic!("unexpected {other:?}"),
    }
    let (_, after) = lock_step(&timed_out, LockEvent::Created);
    assert!(matches!(after, LockAction::Finish));
    let mut other_boot = held.clone();
    other_boot.boot_id = "boot-b".to_owned();
    let (state, action) = lock_step(&state, held_by(Some(other_boot), 0));
    assert!(matches!(action, LockAction::RemoveStale));
    let (state, action) = lock_step(&state, LockEvent::StaleRemoved);
    assert!(matches!(action, LockAction::TryCreate));
    let (state, action) = lock_step(&state, LockEvent::Created);
    assert!(matches!(action, LockAction::RunOperation));
    let (state, action) = lock_step(&state, LockEvent::Created);
    assert!(matches!(action, LockAction::Release));
    let (state, action) = lock_step(&state, LockEvent::Released);
    assert!(matches!(action, LockAction::Finish));
    let (_, action) = lock_step(&state, LockEvent::Created);
    assert!(matches!(action, LockAction::Finish));
    let (_, action) = lock_step(&LockState::new("b".to_owned(), 1), LockEvent::OperationFinished);
    assert!(matches!(action, LockAction::Fail(_)));
    let _ = LockPhase::Held;
}
