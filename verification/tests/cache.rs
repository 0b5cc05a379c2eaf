use github_actions_local_cache::cache::{
    fallback_attempts, rank_candidates, restore_match, save_step, FallbackCandidate, SaveStep,
};
use github_actions_local_cache::entry::Validation;
use github_actions_local_cache::materialize::{
    materialize_step, MaterializeAction, MaterializeEvent, MaterializePhase, MaterializeState,
};
use github_actions_local_cache::CacheError;
use github_actions_local_cache::limits::{check_operation_timeout, operation_timed_out};
use github_actions_local_cache::model::EntryMetadata;
use github_actions_local_cache::{RestoreMatch, SaveResult};

fn candidate(digest: &str, created_at: &str, key: &str) -> FallbackCandidate {
    FallbackCandidate {
        digest: digest.to_owned(),
        metadata: EntryMetadata {
            schema: 1,
            archive_policy: 1,
            key: key.to_owned(),
            created_at: created_at.to_owned(),
            payload_bytes: 0,
            payload_sha256: "a".repeat(64),
            os: "linux".to_owned(),
            arch: "x64".to_owned(),
            paths: vec![],
        },
    }
}

#[test]
fn fallback_prefers_newest_then_smallest_address() {
    let candidates = vec![
        candidate("bb", "2026-01-01T00:00:00Z", "deps-linux-old"),
        candidate("cc", "2026-03-01T00:00:00Z", "deps-linux-new"),
        candidate("aa", "2026-01-01T00:00:00Z", "deps-mac"),
    ];
    let ranked = rank_candidates(&candidates);
    assert_eq!(ranked, [1, 2, 0]);
    let keys = vec!["none-".to_owned(), "deps-linux-".to_owned(), "deps-".to_owned()];
    assert_eq!(fallback_attempts(&candidates, &ranked, &keys), [1, 0, 1, 2, 0]);
    assert!(fallback_attempts(&candidates, &ranked, &[]).is_empty());
}

#[test]
fn fallback_considers_at_most_256_candidates() {
    let candidates: Vec<FallbackCandidate> = (0..300)
        .map(|i| candidate(&format!("{i:03}"), &format!("2026-01-01T00:{:02}:{:02}Z", i / 60, i % 60), "k"))
        .collect();
    let ranked = rank_candidates(&candidates);
    assert_eq!(ranked.len(), 256);
    assert_eq!(ranked[0], 299);
    assert_eq!(ranked[255], 44);
}

#[test]
fn outputs_and_timeouts() {
    assert!(RestoreMatch::Exact.cache_hit());
    assert!(!RestoreMatch::Fallback.cache_hit());
    assert!(!RestoreMatch::Miss.cache_hit());
    assert_eq!(RestoreMatch::Fallback.as_str(), "fallback");
    assert_eq!(RestoreMatch::Miss.as_str(), "miss");
    assert_eq!(RestoreMatch::Exact.as_str(), "exact");
    assert_eq!(SaveResult::Saved.as_str(), "saved");
    assert_eq!(SaveResult::Raced.as_str(), "raced");
    assert_eq!(SaveResult::SkippedNoPaths.as_str(), "skipped-no-paths");
    assert!(check_operation_timeout(1_200_000_000_000).is_ok());
    let error = check_operation_timeout(1_200_000_000_001).unwrap_err();
    assert_eq!(error.code, "operation-timeout");
    assert!(operation_timed_out(u128::MAX));
}

#[test]
fn fallback_orders_by_instant_not_by_text() {
    let candidates = vec![
        candidate("aa", "2026-01-01T00:00:01Z", "k-1"),
        candidate("bb", "2026-01-01T00:00:01.5Z", "k-2"),
        candidate("cc", "2026-01-01T01:00:00+02:00", "k-3"),
        candidate("dd", "not a time", "k-4"),
    ];
    // 01:00+02:00 is 23:00 the day before: the oldest valid instant.
    assert_eq!(rank_candidates(&candidates), [1, 0, 2, 3]);
    let same = vec![
        candidate("bb", "2026-01-01T00:00:00Z", "k"),
        candidate("aa", "2026-01-01T02:00:00+02:00", "k"),
    ];
    assert_eq!(rank_candidates(&same), [1, 0]);
}

#[test]
fn save_decisions() {
    let metadata = candidate("aa", "2026-01-01T00:00:00Z", "k").metadata;
    assert!(matches!(save_step(true, None), SaveStep::SkipNoPaths));
    assert!(matches!(
        save_step(true, Some(Validation::Accepted(metadata.clone()))),
        SaveStep::SkipNoPaths
    ));
    assert!(matches!(save_step(false, None), SaveStep::Publish));
    assert!(matches!(save_step(false, Some(Validation::Accepted(metadata))), SaveStep::Raced));
    let invalid = CacheError::new("invalid-entry", "bad");
    assert!(matches!(
        save_step(false, Some(Validation::SetAside(invalid))),
        SaveStep::QuarantineThenPublish
    ));
    let io = CacheError::new("payload-read", "denied");
    match save_step(false, Some(Validation::Failed(io))) {
        SaveStep::Fail(error) => assert_eq!(error.code, "payload-read"),
        other => panic!("unexpected {other:?}"),
    }
}

fn run(count: usize, events: &[MaterializeEvent]) -> Vec<MaterializeAction> {
    let mut state = MaterializeState::new(count);
    let mut actions = Vec::new();
    for event in events {
        let (next, action) = materialize_step(&state, *event);
        state = next;
        actions.push(action);
    }
    actions
}

#[test]
fn materialize_never_overwrites_and_rolls_back() {
    let ok = run(2, &[
        MaterializeEvent::Begin,
        MaterializeEvent::DestinationChecked(false),
        MaterializeEvent::DestinationChecked(false),
        MaterializeEvent::Moved(true),
        MaterializeEvent::Moved(true),
        MaterializeEvent::Synced(true),
        MaterializeEvent::ModesRestored(true),
    ]);
    let shown: Vec<String> = ok.iter().map(|a| format!("{a:?}")).collect();
    assert_eq!(
        shown,
        [
            "CheckDestination(0)",
            "CheckDestination(1)",
            "Move(0)",
            "Move(1)",
            "SyncWorkspace",
            "RestoreModes",
            "Done",
        ]
    );
    let exists = run(2, &[MaterializeEvent::Begin, MaterializeEvent::DestinationChecked(false), MaterializeEvent::DestinationChecked(true)]);
    assert!(matches!(exists[2], MaterializeAction::Fail("destination-exists")));
    let failed = run(3, &[
        MaterializeEvent::Begin,
        MaterializeEvent::DestinationChecked(false),
        MaterializeEvent::DestinationChecked(false),
        MaterializeEvent::DestinationChecked(false),
        MaterializeEvent::Moved(true),
        MaterializeEvent::Moved(true),
        MaterializeEvent::Moved(false),
    ]);
    match &failed[6] {
        MaterializeAction::RollBack(order) => assert_eq!(order, &vec![1, 0]),
        other => panic!("unexpected {other:?}"),
    }
    let unsynced = run(1, &[MaterializeEvent::Begin, MaterializeEvent::DestinationChecked(false), MaterializeEvent::Moved(true), MaterializeEvent::Synced(false)]);
    match &unsynced[3] {
        MaterializeAction::RollBack(order) => assert_eq!(order, &vec![0]),
        other => panic!("unexpected {other:?}"),
    }
    let modes = run(2, &[
        MaterializeEvent::Begin,
        MaterializeEvent::DestinationChecked(false),
        MaterializeEvent::DestinationChecked(false),
        MaterializeEvent::Moved(true),
        MaterializeEvent::Moved(true),
        MaterializeEvent::Synced(true),
        MaterializeEvent::ModesRestored(false),
    ]);
    match &modes[6] {
        MaterializeAction::RollBack(order) => assert_eq!(order, &vec![1, 0]),
        other => panic!("unexpected {other:?}"),
    }
    let empty = run(0, &[MaterializeEvent::Begin, MaterializeEvent::Synced(true), MaterializeEvent::ModesRestored(true)]);
    assert!(matches!(empty[0], MaterializeAction::SyncWorkspace));
    assert!(matches!(empty[2], MaterializeAction::Done));
    let (state, action) = materialize_step(&MaterializeState::new(1), MaterializeEvent::Moved(true));
    assert!(matches!(action, MaterializeAction::Fail("materialize")));
    let (_, after) = materialize_step(&state, MaterializeEvent::Begin);
    assert!(matches!(after, MaterializeAction::Fail("materialize")));
    let _ = MaterializePhase::Finished;
}

#[test]
fn restore_reports_exact_then_fallback_then_miss() {
    assert_eq!(restore_match(true, false), RestoreMatch::Exact);
    assert_eq!(restore_match(true, true), RestoreMatch::Exact);
    assert_eq!(restore_match(false, true), RestoreMatch::Fallback);
    assert_eq!(restore_match(false, false), RestoreMatch::Miss);
}
