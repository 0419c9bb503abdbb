use vapor_daemon::app_state::{
    caps_for, DaemonApp, RunState, ThrottleCause, ThrottleDecision,
};
use vapor_daemon::build_info;
use vapor_daemon::clock::{Clock, Duration, SystemClock, SystemTime};
use vapor_daemon::event_intents::{BoundedEventIntentMaps, EventIntentLimits};
use vapor_daemon::fs_events::{FsEventKind, FsEventRecord};
use vapor_daemon::ipc_service::DaemonStatusSnapshot;
use vapor_daemon::paths::FsPath;
use vapor_daemon::reconcile::ReconcilePauseReason;
use vapor_daemon::scheduler::KeyedSupersedingScheduler;
use vapor_daemon::storm::StormThresholds;
use vapor_daemon::workgate::{
    ThrottleState, ThrottleWorkgate, WorkClass, WorkPermitDeniedReason,
};

fn now() -> SystemTime {
    SystemClock::new().now_system()
}

fn gate() -> ThrottleWorkgate {
    ThrottleWorkgate::new(ThrottleState::Light, caps_for(ThrottleState::Light))
}

fn user_activity() -> ThrottleDecision {
    ThrottleDecision {
        state: ThrottleState::Throttled,
        cause: ThrottleCause::UserActivity,
        reason: "user activity is active".to_string(),
    }
}

#[test]
fn run_state_updates_reason() {
    let mut app = DaemonApp::default();
    app.set_run_state(RunState::Running, "daemon ready".to_string());
    assert_eq!(app.snapshot().run_state, RunState::Running);
    assert_eq!(app.snapshot().reason, "daemon ready");
}

#[test]
fn applying_throttle_inputs_updates_snapshot_reason_and_caps() {
    let mut app = DaemonApp::default();
    let mut workgate = gate();
    app.apply_throttle_decision(&mut workgate, user_activity(), now());

    assert_eq!(app.snapshot().throttle_state, ThrottleState::Throttled);
    assert_eq!(app.snapshot().reason, "user activity is active");
    assert_eq!(
        app.throttle_decision().unwrap().cause,
        ThrottleCause::UserActivity
    );

    let caps = app.throttle_caps(now());
    assert_eq!(caps.planner_workers, 1);
    assert_eq!(caps.upload_concurrency, 1);
    assert!(!caps.allow_reconcile);
    assert_eq!(workgate.snapshot().caps, caps);
}

#[test]
fn throttled_workgate_limits_new_uploads_to_single_concurrency() {
    let mut app = DaemonApp::default();
    let mut workgate = gate();
    app.apply_throttle_decision(&mut workgate, user_activity(), now());

    let first = app
        .try_acquire_work(&mut workgate, WorkClass::Upload, now())
        .expect("first throttled upload should be allowed");
    let denied = app
        .try_acquire_work(&mut workgate, WorkClass::Upload, now())
        .expect_err("second throttled upload should be blocked");

    assert_eq!(
        denied.reason,
        WorkPermitDeniedReason::UploadConcurrencyExhausted
    );
    assert_eq!(workgate.snapshot().active_uploads, 1);
    assert!(workgate.release(first));
}

#[test]
fn suspended_workgate_blocks_uploads_and_hashing() {
    let mut app = DaemonApp::default();
    let mut workgate = gate();
    app.apply_throttle_decision(
        &mut workgate,
        ThrottleDecision {
            state: ThrottleState::Suspended,
            cause: ThrottleCause::LowPowerMode,
            reason: "low power mode".to_string(),
        },
        now(),
    );

    let upload_denied = app
        .try_acquire_work(&mut workgate, WorkClass::Upload, now())
        .expect_err("uploads should be blocked when suspended");
    let hash_denied = app
        .try_acquire_work(&mut workgate, WorkClass::Hash, now())
        .expect_err("hashing should be blocked when suspended");

    assert_eq!(upload_denied.reason, WorkPermitDeniedReason::UploadsDisabled);
    assert_eq!(hash_denied.reason, WorkPermitDeniedReason::HashingDisabled);
}

#[test]
fn build_info_is_populated() {
    assert!(!build_info::VERSION.is_empty());
    assert!(!build_info::GIT_COMMIT_SHORT.is_empty());
}

#[test]
fn release_versions_have_three_numbers() {
    assert_eq!(build_info::validate_version(build_info::VERSION), Ok(()));
    for version in ["", "1.2", "1.2.x", "v1.2.3"] {
        let error = build_info::validate_version(version).expect_err(version);
        assert!(error.contains(&format!("'{version}'")), "{error}");
    }
}

#[test]
fn rate_limited_retry_clamps_upload_concurrency_until_slowdown_expires() {
    let mut app = DaemonApp::default();
    let mut workgate = gate();
    let now = now();
    let baseline_upload_concurrency = app.throttle_caps(now).upload_concurrency;
    let until = now.plus(Duration::from_secs(30));

    app.schedule_retry(&mut workgate, 1, Some(Some(until)), now)
        .expect("schedule rate-limited retry");

    assert_eq!(app.retry_slowdown_until(), Some(until));
    assert_eq!(app.throttle_caps(now).upload_concurrency, 1);

    let later = until.plus(Duration::from_secs(1));
    app.refresh_workgate_caps(&mut workgate, later);
    assert!(app.retry_slowdown_until().is_none());
    assert_eq!(
        app.throttle_caps(later).upload_concurrency,
        baseline_upload_concurrency
    );
}

#[test]
fn a_retry_without_a_record_is_an_error() {
    let mut app = DaemonApp::default();
    let mut workgate = gate();
    assert_eq!(
        app.schedule_retry(&mut workgate, 41, None, now()),
        Err("retry scheduling for intent 41 produced no retry record".to_string())
    );
    assert_eq!(
        app.schedule_retry(&mut workgate, i64::MIN, None, now()),
        Err(format!("retry scheduling for intent {} produced no retry record", i64::MIN))
    );
}

#[test]
fn retry_slowdown_clamp_survives_a_high_idle_boost_ceiling() {
    let mut app = DaemonApp::default();
    let mut workgate = gate();
    let now = now();
    app.set_throttle_state(
        &mut workgate,
        ThrottleState::IdleDrain,
        "idle".to_string(),
        now,
    );
    app.apply_resource_cpu_ceiling(&mut workgate, 50, now);
    assert!(app.throttle_caps(now).upload_concurrency > 4, "idle boost raises the cap");
    app.schedule_retry(
        &mut workgate,
        1,
        Some(Some(now.plus(Duration::from_secs(30)))),
        now,
    )
    .expect("schedule");
    assert_eq!(app.throttle_caps(now).upload_concurrency, 1);
}

#[test]
fn cpu_ceiling_never_raises_caps_above_the_throttled_tier() {
    let mut app = DaemonApp::default();
    let mut workgate = gate();
    let now = now();
    app.set_throttle_state(
        &mut workgate,
        ThrottleState::Throttled,
        "user active".to_string(),
        now,
    );
    let base = app.throttle_caps(now);
    // A large ceiling must not lift the Throttled tier.
    app.apply_resource_cpu_ceiling(&mut workgate, 100, now);
    let scaled = app.throttle_caps(now);
    assert!(scaled.planner_workers <= base.planner_workers);
    assert!(scaled.hash_workers <= base.hash_workers);
    assert!(scaled.upload_concurrency <= base.upload_concurrency);
    assert!(scaled.download_concurrency <= base.download_concurrency);
}

#[test]
fn ceilings_scale_caps_in_proportion() {
    let mut app = DaemonApp::default();
    let mut workgate = gate();
    let now = now();
    app.set_throttle_state(
        &mut workgate,
        ThrottleState::IdleDrain,
        "idle".to_string(),
        now,
    );
    // 50/15 of 4 is 13.33, of 8 is 26.67.
    app.apply_resource_cpu_ceiling(&mut workgate, 50, now);
    assert_eq!(app.throttle_caps(now).planner_workers, 13);
    assert_eq!(app.throttle_caps(now).read_tokens, 27);
    // 1/15 of 4 rounds to nothing; one worker stays.
    app.apply_resource_cpu_ceiling(&mut workgate, 1, now);
    assert_eq!(app.throttle_caps(now).planner_workers, 1);
    assert_eq!(workgate.snapshot().caps, app.throttle_caps(now));
}

#[test]
fn restored_retry_slowdown_reapplies_upload_clamp_after_reopen() {
    let now = now();
    let mut workgate = gate();
    let mut reopened_app = DaemonApp::default();
    let restored = reopened_app
        .restore_retry_slowdown(
            &mut workgate,
            Some(now.plus(Duration::from_secs(30))),
            now.plus(Duration::from_secs(5)),
        )
        .expect("active slowdown marker");

    assert!(restored > now);
    assert_eq!(
        reopened_app
            .throttle_caps(now.plus(Duration::from_secs(5)))
            .upload_concurrency,
        1
    );
}

#[test]
fn app_reconcile_flow_stays_idle_biased_and_clears_boundary_on_success() {
    let subtree_root = FsPath::new("/tmp/vapor-root/project/sub");
    let mut maps = stormed_maps(&subtree_root);
    let mut scheduler = KeyedSupersedingScheduler::default();
    let mut app = DaemonApp::default();
    let mut workgate = gate();

    app.set_throttle_state(
        &mut workgate,
        ThrottleState::Light,
        "foreground work".to_string(),
        now(),
    );
    assert_eq!(
        app.release_ready_deferred_reconciles(&mut maps, &mut scheduler, timestamp(32)),
        0
    );
    assert!(app
        .try_start_reconcile(&mut scheduler, &mut workgate, timestamp(32))
        .expect("reconcile start should not fail")
        .is_none());

    app.set_throttle_state(
        &mut workgate,
        ThrottleState::IdleDrain,
        "idle drain".to_string(),
        now(),
    );
    assert_eq!(
        app.release_ready_deferred_reconciles(&mut maps, &mut scheduler, timestamp(32)),
        1
    );
    assert_eq!(
        app.try_start_reconcile(&mut scheduler, &mut workgate, timestamp(32))
            .expect("reconcile start should succeed"),
        Some(subtree_root.clone())
    );
    assert_eq!(app.running_reconcile_root(), Some(&subtree_root));

    let completion = app
        .complete_reconcile(&mut maps, &mut scheduler, &mut workgate)
        .expect("complete reconcile");
    assert!(completion.boundary_cleared);
    assert!(maps.compacted_subtree(&subtree_root).is_none());
    assert!(app.running_reconcile_root().is_none());
}

#[test]
fn app_reconcile_checkpoint_interrupts_when_throttle_changes() {
    let subtree_root = FsPath::new("/tmp/vapor-root/project/sub");
    let mut maps = stormed_maps(&subtree_root);
    let mut scheduler = KeyedSupersedingScheduler::default();
    let mut app = DaemonApp::default();
    let mut workgate = gate();

    app.set_throttle_state(
        &mut workgate,
        ThrottleState::IdleDrain,
        "idle drain".to_string(),
        now(),
    );
    app.release_ready_deferred_reconciles(&mut maps, &mut scheduler, timestamp(32));
    app.try_start_reconcile(&mut scheduler, &mut workgate, timestamp(32))
        .expect("start reconcile");
    app.set_throttle_state(
        &mut workgate,
        ThrottleState::Light,
        "load spike".to_string(),
        now(),
    );

    let pause = app
        .checkpoint_reconcile(&mut scheduler, &mut workgate, timestamp(33))
        .expect("reconcile should pause");
    assert_eq!(pause.reason, ReconcilePauseReason::ThrottleNoLongerIdle);
    assert_eq!(scheduler.pending_count(), 1);
}

#[test]
fn a_status_shows_the_last_decision() {
    let mut app = DaemonApp::default();
    let mut workgate = gate();
    let status = DaemonStatusSnapshot::from_app(&app, "filesystem");
    assert_eq!(status.run_state, "Starting");
    assert_eq!(status.throttle_reason, "");
    app.apply_throttle_decision(&mut workgate, user_activity(), now());
    let status = DaemonStatusSnapshot::from_app(&app, "filesystem");
    assert_eq!(status.throttle_state, ThrottleState::Throttled);
    assert_eq!(status.throttle_reason, "user activity is active");
    assert_eq!(status.provider_name, "filesystem");
}

#[test]
fn a_closed_or_full_class_is_denied_with_its_reason() {
    let mut workgate = ThrottleWorkgate::new(
        ThrottleState::Throttled,
        caps_for(ThrottleState::Throttled),
    );
    let permits: Vec<_> = [
        WorkClass::Planner,
        WorkClass::Hash,
        WorkClass::Upload,
        WorkClass::Download,
    ]
    .into_iter()
    .map(|class| workgate.try_acquire(class).expect("first of its class"))
    .collect();
    for (class, reason) in [
        (
            WorkClass::Planner,
            WorkPermitDeniedReason::PlannerWorkersExhausted,
        ),
        (WorkClass::Hash, WorkPermitDeniedReason::HashWorkersExhausted),
        (
            WorkClass::Upload,
            WorkPermitDeniedReason::UploadConcurrencyExhausted,
        ),
        (
            WorkClass::Download,
            WorkPermitDeniedReason::DownloadConcurrencyExhausted,
        ),
        (
            WorkClass::Reconcile,
            WorkPermitDeniedReason::ReconcileDisabled,
        ),
    ] {
        assert_eq!(workgate.try_acquire(class).expect_err("denied").reason, reason);
    }
    for permit in permits {
        assert!(workgate.release(permit));
        assert!(!workgate.release(permit), "a permit is given back once");
    }
    workgate.reconfigure(ThrottleState::Suspended, caps_for(ThrottleState::Suspended));
    assert_eq!(
        workgate
            .try_acquire(WorkClass::Download)
            .expect_err("closed")
            .reason,
        WorkPermitDeniedReason::DownloadsDisabled
    );
    workgate.reconfigure(ThrottleState::IdleDrain, caps_for(ThrottleState::IdleDrain));
    let _running = workgate.try_acquire(WorkClass::Reconcile).expect("idle");
    assert_eq!(
        workgate
            .try_acquire(WorkClass::Reconcile)
            .expect_err("one at a time")
            .reason,
        WorkPermitDeniedReason::ReconcileAlreadyRunning
    );
}

fn stormed_maps(subtree_root: &FsPath) -> BoundedEventIntentMaps {
    let watch_root = FsPath::new("/tmp/vapor-root");
    let mut maps = BoundedEventIntentMaps::with_limits_and_storm_thresholds(
        watch_root,
        EventIntentLimits::new(100, 100),
        StormThresholds {
            window: Duration::from_secs(2),
            directory_unique_paths_threshold: 2,
            directory_event_count_threshold: 99,
            global_pending_event_count_threshold: 99,
            deferred_reconcile_delay: Duration::from_secs(30),
        },
    );

    maps.record_event(FsEventRecord {
        path: subtree_root.join("a.txt"),
        kind: FsEventKind::Modified,
        observed_at: timestamp(1),
    });
    maps.record_event(FsEventRecord {
        path: subtree_root.join("b.txt"),
        kind: FsEventKind::Modified,
        observed_at: timestamp(2),
    });
    maps
}

fn timestamp(seconds: u64) -> SystemTime {
    SystemTime::unix_epoch().plus(Duration::from_secs(seconds))
}
