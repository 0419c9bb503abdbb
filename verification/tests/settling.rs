use vapor_daemon::clock::{Duration, SystemTime};
use vapor_daemon::continuations::DeletionVerdict;
use vapor_daemon::effects::{Effect, TombstoneOrigin};
use vapor_daemon::paths::FsPath;
use vapor_daemon::planner::{NoopReason, PlanOutcome};
use vapor_daemon::records::{LocalStat, RetryFailureKind, SyncIndexEntry};
use vapor_daemon::routes::GuardAnswer;
use vapor_daemon::settling::{
    after_preservation_queued, guarded_deletion, record_remote_deletion, settle_converged,
    weighed_deletion, DeletionStep,
};

fn row(path: &str) -> SyncIndexEntry {
    SyncIndexEntry {
        path: FsPath::new(path),
        content_hash: "h".to_string(),
        size_bytes: 3,
        local_modified_at: None,
        remote_modified_at: None,
        last_op_id: "op".to_string(),
        updated_at: SystemTime::unix_epoch().plus(Duration::from_secs(1)),
    }
}

fn is_buried(effects: &[Effect], at: &str, from: TombstoneOrigin) -> bool {
    effects.iter().any(|effect| match effect {
        Effect::RecordTombstone { path, origin } => path.to_text() == at && *origin == from,
        _ => false,
    })
}

#[test]
fn a_delete_of_what_is_gone_is_recorded() {
    let path = FsPath::new("/root/a.txt");
    let (outcome, effects) = settle_converged(&path, NoopReason::RemoteAbsent);
    assert_eq!(outcome, PlanOutcome::Noop(NoopReason::RemoteAbsent));
    assert!(is_buried(&effects, "/root/a.txt", TombstoneOrigin::Local));
}

#[test]
fn a_queued_preservation_drops_the_stale_row() {
    let path = FsPath::new("/root/a.txt");
    let (outcome, effects) = after_preservation_queued(&path, Ok(()));
    assert_eq!(outcome, PlanOutcome::Noop(NoopReason::RemoteModified));
    assert_eq!(effects, vec![Effect::RemoveSyncIndex { path: path.clone() }]);
    let (outcome, effects) = after_preservation_queued(&path, Err("disk full".to_string()));
    assert_eq!(
        outcome,
        PlanOutcome::Fail {
            failure: RetryFailureKind::Transient,
            message: "cannot enqueue delete-preservation download: disk full".to_string(),
        }
    );
    assert!(effects.is_empty());
}

#[test]
fn a_weighed_deletion_asks_the_guard_only_for_what_stands() {
    assert_eq!(
        weighed_deletion(DeletionVerdict::Proceed, &LocalStat::Directory),
        DeletionStep::AskGuard
    );
    assert_eq!(
        weighed_deletion(DeletionVerdict::Proceed, &LocalStat::Missing),
        DeletionStep::Remove
    );
    assert_eq!(
        weighed_deletion(
            DeletionVerdict::Preserve(NoopReason::LocallyModified),
            &LocalStat::Directory
        ),
        DeletionStep::Done(PlanOutcome::Noop(NoopReason::LocallyModified))
    );
    assert_eq!(
        weighed_deletion(DeletionVerdict::NeedsHash(row("/root/a")), &LocalStat::Directory),
        DeletionStep::HashFile(row("/root/a"))
    );
    assert_eq!(
        weighed_deletion(DeletionVerdict::Fail("index locked".to_string()), &LocalStat::Missing),
        DeletionStep::Done(PlanOutcome::Fail {
            failure: RetryFailureKind::Transient,
            message: "index locked".to_string(),
        })
    );
}

#[test]
fn a_held_deletion_waits_for_its_decision() {
    assert_eq!(guarded_deletion(Ok(GuardAnswer::Pass)), DeletionStep::Remove);
    assert_eq!(
        guarded_deletion(Ok(GuardAnswer::Held { opened: Some(7) })),
        DeletionStep::Done(PlanOutcome::Held { held: 1, decisions_opened: vec![7] })
    );
    assert_eq!(
        guarded_deletion(Ok(GuardAnswer::Held { opened: None })),
        DeletionStep::Done(PlanOutcome::Held { held: 1, decisions_opened: Vec::new() })
    );
    assert_eq!(
        guarded_deletion(Err("database is locked".to_string())),
        DeletionStep::Done(PlanOutcome::Fail {
            failure: RetryFailureKind::Transient,
            message: "cannot consult the deletion guard: database is locked".to_string(),
        })
    );
}

#[test]
fn only_a_removal_that_was_carried_out_leaves_a_tombstone() {
    let path = FsPath::new("/root/a.txt");
    let effects = record_remote_deletion(&path, &PlanOutcome::AppliedLocally);
    assert!(is_buried(&effects, "/root/a.txt", TombstoneOrigin::Remote));
    let kept = PlanOutcome::Noop(NoopReason::LocallyModified);
    assert!(record_remote_deletion(&path, &kept).is_empty());
}
