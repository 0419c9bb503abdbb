use vapor_daemon::app_state::caps_for;
use vapor_daemon::clock::{Duration, SystemTime};
use vapor_daemon::event_intents::{BoundedEventIntentMaps, EventIntentLimits, PendingIntentKind};
use vapor_daemon::fs_events::{FsEventKind, FsEventRecord};
use vapor_daemon::paths::FsPath;
use vapor_daemon::reconcile::{ReconcileController, ReconcilePauseReason};
use vapor_daemon::scheduler::{CompletionDisposition, KeyedSupersedingScheduler};
use vapor_daemon::storm::StormThresholds;
use vapor_daemon::workgate::{ThrottleState, ThrottleWorkgate, WorkPermitDeniedReason};

#[test]
fn deferred_reconciles_are_released_only_in_idle_drain() {
    let subtree_root = FsPath::new("/tmp/vapor-root/project/sub");
    let mut maps = stormed_maps(&subtree_root);
    let mut scheduler = KeyedSupersedingScheduler::default();
    let mut controller = ReconcileController::default();

    assert_eq!(
        controller.release_ready_deferred_reconciles(
            &mut maps,
            &mut scheduler,
            ThrottleState::Light,
            timestamp(32),
        ),
        0
    );
    assert!(scheduler.claim_next_reconcile().is_none());

    assert_eq!(
        controller.release_ready_deferred_reconciles(
            &mut maps,
            &mut scheduler,
            ThrottleState::IdleDrain,
            timestamp(32),
        ),
        1
    );
    let claimed = scheduler.claim_next_reconcile().expect("reconcile intent");
    assert_eq!(claimed.path, subtree_root);
}

#[test]
fn running_reconcile_yields_after_slice_budget_and_requeues_work() {
    let root = FsPath::new("/tmp/vapor-root/project");
    let mut scheduler = KeyedSupersedingScheduler::default();
    scheduler.upsert_intent(
        root.clone(),
        PendingIntentKind::ReconcileSubtree,
        timestamp(1),
    );
    let mut workgate = idle_reconcile_gate();
    let mut controller = ReconcileController::with_slice_budget(Duration::from_secs(1));

    assert_eq!(
        controller
            .try_start_next(
                &mut scheduler,
                &mut workgate,
                ThrottleState::IdleDrain,
                timestamp(1),
            )
            .expect("start reconcile"),
        Some(root.clone())
    );

    let pause = controller
        .checkpoint(
            &mut scheduler,
            &mut workgate,
            ThrottleState::IdleDrain,
            timestamp(2),
        )
        .expect("reconcile should yield");

    assert_eq!(pause.root, root);
    assert_eq!(pause.reason, ReconcilePauseReason::SliceBudgetExpired);
    assert_eq!(pause.disposition, CompletionDisposition::RequeuedDirty);
    assert!(controller.running_root().is_none());
    assert_eq!(workgate.snapshot().active_reconciles, 0);
    assert_eq!(scheduler.pending_count(), 1);
}

#[test]
fn running_reconcile_interrupts_when_throttle_leaves_idle_drain() {
    let root = FsPath::new("/tmp/vapor-root/project");
    let mut scheduler = KeyedSupersedingScheduler::default();
    scheduler.upsert_intent(
        root.clone(),
        PendingIntentKind::ReconcileSubtree,
        timestamp(1),
    );
    let mut workgate = idle_reconcile_gate();
    let mut controller = ReconcileController::with_slice_budget(Duration::from_secs(10));

    controller
        .try_start_next(
            &mut scheduler,
            &mut workgate,
            ThrottleState::IdleDrain,
            timestamp(1),
        )
        .expect("start reconcile");

    let pause = controller
        .checkpoint(
            &mut scheduler,
            &mut workgate,
            ThrottleState::Light,
            timestamp(2),
        )
        .expect("reconcile should interrupt");

    assert_eq!(pause.reason, ReconcilePauseReason::ThrottleNoLongerIdle);
    assert_eq!(scheduler.pending_count(), 1);
}

#[test]
fn checkpoint_pauses_on_system_clock_rewind_instead_of_running_without_bound() {
    let root = FsPath::new("/tmp/vapor-root/project");
    let mut scheduler = KeyedSupersedingScheduler::default();
    scheduler.upsert_intent(
        root.clone(),
        PendingIntentKind::ReconcileSubtree,
        timestamp(1_000),
    );
    let mut workgate = idle_reconcile_gate();
    let mut controller = ReconcileController::with_slice_budget(Duration::from_secs(1));

    controller
        .try_start_next(
            &mut scheduler,
            &mut workgate,
            ThrottleState::IdleDrain,
            timestamp(1_000),
        )
        .expect("start reconcile");

    let pause = controller
        .checkpoint(
            &mut scheduler,
            &mut workgate,
            ThrottleState::IdleDrain,
            timestamp(500),
        )
        .expect("reconcile should pause after clock rewind");

    assert_eq!(pause.reason, ReconcilePauseReason::SliceBudgetExpired);
}

#[test]
fn successful_reconcile_clears_compaction_boundary_when_quiet() {
    let subtree_root = FsPath::new("/tmp/vapor-root/project/sub");
    let mut maps = stormed_maps(&subtree_root);
    let mut scheduler = KeyedSupersedingScheduler::default();
    let mut controller = ReconcileController::default();
    let mut workgate = idle_reconcile_gate();

    assert_eq!(
        controller.release_ready_deferred_reconciles(
            &mut maps,
            &mut scheduler,
            ThrottleState::IdleDrain,
            timestamp(32),
        ),
        1
    );
    controller
        .try_start_next(
            &mut scheduler,
            &mut workgate,
            ThrottleState::IdleDrain,
            timestamp(32),
        )
        .expect("start reconcile");

    let completion = controller
        .complete_success(&mut maps, &mut scheduler, &mut workgate)
        .expect("complete reconcile");

    assert_eq!(completion.root, subtree_root);
    assert_eq!(completion.disposition, CompletionDisposition::Removed);
    assert!(completion.boundary_cleared);
    assert!(maps.compacted_subtree(&completion.root).is_none());

    maps.record_event(FsEventRecord {
        path: completion.root.join("after.txt"),
        kind: FsEventKind::Modified,
        observed_at: timestamp(40),
    });
    assert_eq!(maps.pending_event_count(), 1);
}

#[test]
fn successful_reconcile_keeps_boundary_when_follow_up_work_exists() {
    let subtree_root = FsPath::new("/tmp/vapor-root/project/sub");
    let mut maps = stormed_maps(&subtree_root);
    let mut scheduler = KeyedSupersedingScheduler::default();
    let mut controller = ReconcileController::default();
    let mut workgate = idle_reconcile_gate();

    controller.release_ready_deferred_reconciles(
        &mut maps,
        &mut scheduler,
        ThrottleState::IdleDrain,
        timestamp(32),
    );
    controller
        .try_start_next(
            &mut scheduler,
            &mut workgate,
            ThrottleState::IdleDrain,
            timestamp(32),
        )
        .expect("start reconcile");

    maps.record_event(FsEventRecord {
        path: subtree_root.join("after.txt"),
        kind: FsEventKind::Modified,
        observed_at: timestamp(33),
    });

    let completion = controller
        .complete_success(&mut maps, &mut scheduler, &mut workgate)
        .expect("complete reconcile");

    assert!(!completion.boundary_cleared);
    assert!(maps.compacted_subtree(&subtree_root).is_some());
    assert!(maps.deferred_reconcile(&subtree_root).is_some());
}

fn idle_reconcile_gate() -> ThrottleWorkgate {
    ThrottleWorkgate::new(
        ThrottleState::IdleDrain,
        caps_for(ThrottleState::IdleDrain),
    )
}

fn stormed_maps(subtree_root: &FsPath) -> BoundedEventIntentMaps {
    let watch_root = FsPath::new("/tmp/vapor-root");
    let mut maps = BoundedEventIntentMaps::with_limits_and_storm_thresholds(
        watch_root,
        EventIntentLimits::new(100, 100),
        StormThresholds {
            window: Duration::from_secs(2),
            directory_unique_paths_threshold: 2,
            directory_event_count_threshold: 99,
            global_pending_event_count_threshold: 99,
            deferred_reconcile_delay: Duration::from_secs(30),
        },
    );

    maps.record_event(FsEventRecord {
        path: subtree_root.join("a.txt"),
        kind: FsEventKind::Modified,
        observed_at: timestamp(1),
    });
    maps.record_event(FsEventRecord {
        path: subtree_root.join("b.txt"),
        kind: FsEventKind::Modified,
        observed_at: timestamp(2),
    });
    maps
}

fn timestamp(seconds: u64) -> SystemTime {
    SystemTime::unix_epoch().plus(Duration::from_secs(seconds))
}

#[test]
fn a_reconcile_without_a_permit_goes_back_to_the_queue() {
    let root = FsPath::new("/tmp/vapor-root/project");
    let mut scheduler = KeyedSupersedingScheduler::default();
    scheduler.upsert_intent(
        root.clone(),
        PendingIntentKind::ReconcileSubtree,
        timestamp(1),
    );
    let mut workgate = ThrottleWorkgate::new(ThrottleState::Light, caps_for(ThrottleState::Light));
    let mut controller = ReconcileController::default();
    let denied = controller
        .try_start_next(
            &mut scheduler,
            &mut workgate,
            ThrottleState::IdleDrain,
            timestamp(2),
        )
        .expect_err("the caps allow no reconcile");
    assert_eq!(denied.reason, WorkPermitDeniedReason::ReconcileDisabled);
    assert_eq!(scheduler.pending_count(), 1);
    assert!(controller.running_root().is_none());
}

#[test]
fn an_aborted_reconcile_is_queued_again_and_gives_its_permit_back() {
    let root = FsPath::new("/tmp/vapor-root/project");
    let mut scheduler = KeyedSupersedingScheduler::default();
    scheduler.upsert_intent(
        root.clone(),
        PendingIntentKind::ReconcileSubtree,
        timestamp(1),
    );
    let mut workgate = idle_reconcile_gate();
    let mut controller = ReconcileController::default();
    controller
        .try_start_next(
            &mut scheduler,
            &mut workgate,
            ThrottleState::IdleDrain,
            timestamp(1),
        )
        .expect("start reconcile");
    assert_eq!(workgate.snapshot().active_reconciles, 1);
    assert_eq!(
        controller.abort_running(&mut scheduler, &mut workgate, timestamp(2)),
        Some(root)
    );
    assert_eq!(workgate.snapshot().active_reconciles, 0);
    assert_eq!(scheduler.pending_count(), 1);
}
