use vapor_daemon::clock::{Duration, SystemTime};
use vapor_daemon::event_intents::{
    BackpressureReason, BoundedEventIntentMaps, BoundedFsEventRecorder, EventIntentLimits,
    PendingIntentKind,
};
use vapor_daemon::fs_events::{FsEventErrorRecord, FsEventKind, FsEventRecord, FsEventRecording};
use vapor_daemon::paths::FsPath;
use vapor_daemon::storm::{StormReason, StormThresholds};

#[test]
fn event_and_intent_for_same_path_share_one_tracked_path_count() {
    let watch_root = FsPath::new("/tmp/vapor-root");
    let path = watch_root.join("project/file.txt");
    let mut maps =
        BoundedEventIntentMaps::with_limits(watch_root, EventIntentLimits::new(10, 10));

    maps.record_event(fs_event(path.clone(), FsEventKind::Modified, 1));
    maps.upsert_intent(path.clone(), PendingIntentKind::Upload, timestamp(2));

    assert_eq!(maps.pending_event_count(), 1);
    assert_eq!(maps.pending_intent_count(), 1);
    assert_eq!(maps.tracked_path_count(), 1);
}

#[test]
fn event_record_updates_flags_and_burst_count_for_existing_path() {
    let watch_root = FsPath::new("/tmp/vapor-root");
    let path = watch_root.join("project/file.txt");
    let mut maps =
        BoundedEventIntentMaps::with_limits(watch_root, EventIntentLimits::new(10, 10));

    maps.record_event(fs_event(path.clone(), FsEventKind::Created, 1));
    maps.record_event(fs_event(path.clone(), FsEventKind::Modified, 2));
    maps.record_event(fs_event(path.clone(), FsEventKind::Renamed, 3));

    let pending = maps.pending_event(&path).expect("missing pending event");
    assert_eq!(pending.first_observed_at, timestamp(1));
    assert_eq!(pending.last_observed_at, timestamp(3));
    assert_eq!(pending.last_event_kind, FsEventKind::Renamed);
    assert_eq!(pending.burst_count, 3);
    assert!(pending.flags.created);
    assert!(pending.flags.modified);
    assert!(pending.flags.renamed);
}

#[test]
fn subtree_cap_compacts_noisy_subtree_into_reconcile_intent() {
    let watch_root = FsPath::new("/tmp/vapor-root");
    let project_root = watch_root.join("project");
    let outside_path = watch_root.join("other/file.txt");
    let mut maps =
        BoundedEventIntentMaps::with_limits(watch_root, EventIntentLimits::new(10, 2));

    maps.record_event(fs_event(
        project_root.join("a.txt"),
        FsEventKind::Modified,
        1,
    ));
    maps.record_event(fs_event(
        project_root.join("b.txt"),
        FsEventKind::Modified,
        2,
    ));
    maps.record_event(fs_event(outside_path.clone(), FsEventKind::Created, 3));
    maps.record_event(fs_event(
        project_root.join("c.txt"),
        FsEventKind::Modified,
        4,
    ));

    assert!(maps.pending_event(&project_root.join("a.txt")).is_none());
    assert!(maps.pending_event(&project_root.join("b.txt")).is_none());
    assert!(maps.pending_event(&project_root.join("c.txt")).is_none());
    assert!(maps.pending_event(&outside_path).is_some());
    assert_eq!(maps.pending_event_count(), 1);
    assert_eq!(maps.pending_intent_count(), 1);
    assert_eq!(maps.tracked_path_count(), 2);

    let reconcile = maps
        .pending_intent(&project_root)
        .expect("missing reconcile intent");
    assert_eq!(reconcile.kind, PendingIntentKind::ReconcileSubtree);
    assert_eq!(reconcile.observed_at, timestamp(4));

    let compacted = maps
        .compacted_subtree(&project_root)
        .expect("missing compacted subtree record");
    assert_eq!(compacted.reason, BackpressureReason::SubtreeCapExceeded);
    assert_eq!(compacted.suppressed_event_count, 3);
    assert_eq!(compacted.suppressed_intent_count, 0);
    assert_eq!(maps.subtree_pending_count(&project_root), 1);
}

#[test]
fn global_cap_compacts_watch_root_when_unique_paths_exceed_limit() {
    let watch_root = FsPath::new("/tmp/vapor-root");
    let mut maps =
        BoundedEventIntentMaps::with_limits(watch_root.clone(), EventIntentLimits::new(3, 10));

    maps.record_event(fs_event(watch_root.join("a.txt"), FsEventKind::Modified, 1));
    maps.record_event(fs_event(watch_root.join("b.txt"), FsEventKind::Modified, 2));
    maps.record_event(fs_event(watch_root.join("c.txt"), FsEventKind::Modified, 3));
    maps.record_event(fs_event(watch_root.join("d.txt"), FsEventKind::Modified, 4));

    assert_eq!(maps.pending_event_count(), 0);
    assert_eq!(maps.pending_intent_count(), 1);
    assert_eq!(maps.tracked_path_count(), 1);

    let reconcile = maps
        .pending_intent(&watch_root)
        .expect("missing global reconcile intent");
    assert_eq!(reconcile.kind, PendingIntentKind::ReconcileSubtree);

    let compacted = maps
        .compacted_subtree(&watch_root)
        .expect("missing compacted watch root record");
    assert_eq!(compacted.reason, BackpressureReason::GlobalCapExceeded);
    assert_eq!(compacted.suppressed_event_count, 4);
}

#[test]
fn paths_inside_compacted_subtree_are_absorbed_without_direct_growth() {
    let watch_root = FsPath::new("/tmp/vapor-root");
    let project_root = watch_root.join("project");
    let mut maps =
        BoundedEventIntentMaps::with_limits(watch_root, EventIntentLimits::new(10, 1));

    maps.record_event(fs_event(
        project_root.join("a.txt"),
        FsEventKind::Modified,
        1,
    ));
    maps.record_event(fs_event(
        project_root.join("b.txt"),
        FsEventKind::Modified,
        2,
    ));

    maps.record_event(fs_event(
        project_root.join("c.txt"),
        FsEventKind::Removed,
        3,
    ));
    maps.upsert_intent(
        project_root.join("d.txt"),
        PendingIntentKind::Delete,
        timestamp(4),
    );

    assert_eq!(maps.pending_event_count(), 0);
    assert_eq!(maps.pending_intent_count(), 1);
    assert_eq!(maps.tracked_path_count(), 1);

    let compacted = maps
        .compacted_subtree(&project_root)
        .expect("missing compacted subtree record");
    assert_eq!(compacted.suppressed_event_count, 3);
    assert_eq!(compacted.suppressed_intent_count, 1);

    let reconcile = maps
        .pending_intent(&project_root)
        .expect("missing reconcile intent");
    assert_eq!(reconcile.observed_at, timestamp(4));
}

#[test]
fn bounded_recorder_routes_events_and_errors_into_shared_state() {
    let watch_root = FsPath::new("/tmp/vapor-root");
    let mut recorder =
        BoundedFsEventRecorder::with_limits(watch_root.clone(), EventIntentLimits::new(10, 10));

    recorder.record_event(fs_event(
        watch_root.join("project/file.txt"),
        FsEventKind::Created,
        1,
    ));
    recorder.record_error(FsEventErrorRecord {
        description: "callback failed".to_string(),
    });

    assert_eq!(recorder.error_count(), 1);
    recorder.with_state(|maps| {
        assert_eq!(maps.pending_event_count(), 1);
        assert_eq!(maps.tracked_path_count(), 1);
    });
}

#[test]
fn draining_pending_intents_clears_intent_entries_and_tracking() {
    let watch_root = FsPath::new("/tmp/vapor-root");
    let path = watch_root.join("project/file.txt");
    let mut maps =
        BoundedEventIntentMaps::with_limits(watch_root, EventIntentLimits::new(10, 10));

    maps.upsert_intent(path.clone(), PendingIntentKind::Upload, timestamp(1));

    let intents = maps.drain_pending_intents();
    assert_eq!(intents.len(), 1);
    assert_eq!(intents[0].path, path);
    assert_eq!(intents[0].kind, PendingIntentKind::Upload);
    assert_eq!(maps.pending_intent_count(), 0);
    assert_eq!(maps.tracked_path_count(), 0);
}

#[test]
fn unique_path_storm_compacts_subtree_into_deferred_reconcile() {
    let watch_root = FsPath::new("/tmp/vapor-root");
    let subtree_root = watch_root.join("project/sub");
    let mut maps = BoundedEventIntentMaps::with_limits_and_storm_thresholds(
        watch_root,
        EventIntentLimits::new(100, 100),
        StormThresholds {
            window: Duration::from_secs(2),
            directory_unique_paths_threshold: 2,
            directory_event_count_threshold: 99,
            global_pending_event_count_threshold: 99,
            deferred_reconcile_delay: Duration::from_secs(30),
        },
    );

    maps.record_event(fs_event(
        subtree_root.join("a.txt"),
        FsEventKind::Modified,
        1,
    ));
    maps.record_event(fs_event(
        subtree_root.join("b.txt"),
        FsEventKind::Modified,
        2,
    ));

    assert_eq!(maps.pending_event_count(), 0);
    assert_eq!(maps.pending_intent_count(), 0);
    assert_eq!(maps.deferred_reconcile_count(), 1);
    assert_eq!(maps.tracked_path_count(), 1);

    let deferred = maps
        .deferred_reconcile(&subtree_root)
        .expect("missing deferred reconcile");
    assert_eq!(deferred.reason, StormReason::DirectoryUniquePathsThreshold);
    assert_eq!(deferred.available_at, timestamp(32));

    let compacted = maps
        .compacted_subtree(&subtree_root)
        .expect("missing compacted subtree record");
    assert_eq!(
        compacted.reason,
        BackpressureReason::DirectoryUniquePathsStorm
    );
    assert_eq!(compacted.suppressed_event_count, 2);

    assert!(
        maps.take_ready_deferred_reconcile_intents(timestamp(31))
            .is_empty()
    );
    let ready = maps.take_ready_deferred_reconcile_intents(timestamp(32));
    assert_eq!(ready.len(), 1);
    assert_eq!(ready[0].path, subtree_root);
    assert_eq!(ready[0].kind, PendingIntentKind::ReconcileSubtree);
    assert_eq!(maps.deferred_reconcile_count(), 0);
    assert_eq!(maps.pending_intent_count(), 0);
}

#[test]
fn absorbed_events_extend_deferred_reconcile_delay_inside_stormed_subtree() {
    let watch_root = FsPath::new("/tmp/vapor-root");
    let subtree_root = watch_root.join("project/sub");
    let mut maps = BoundedEventIntentMaps::with_limits_and_storm_thresholds(
        watch_root,
        EventIntentLimits::new(100, 100),
        StormThresholds {
            window: Duration::from_secs(2),
            directory_unique_paths_threshold: 2,
            directory_event_count_threshold: 99,
            global_pending_event_count_threshold: 99,
            deferred_reconcile_delay: Duration::from_secs(30),
        },
    );

    maps.record_event(fs_event(
        subtree_root.join("a.txt"),
        FsEventKind::Modified,
        1,
    ));
    maps.record_event(fs_event(
        subtree_root.join("b.txt"),
        FsEventKind::Modified,
        2,
    ));
    maps.record_event(fs_event(
        subtree_root.join("c.txt"),
        FsEventKind::Removed,
        3,
    ));

    let deferred = maps
        .deferred_reconcile(&subtree_root)
        .expect("missing deferred reconcile");
    assert_eq!(deferred.available_at, timestamp(33));
    assert_eq!(deferred.reschedule_count, 1);
    assert_eq!(maps.pending_event_count(), 0);

    let compacted = maps
        .compacted_subtree(&subtree_root)
        .expect("missing compacted subtree record");
    assert_eq!(compacted.suppressed_event_count, 3);
}

#[test]
fn repeated_events_can_trigger_directory_event_count_storm() {
    let watch_root = FsPath::new("/tmp/vapor-root");
    let subtree_root = watch_root.join("project");
    let mut maps = BoundedEventIntentMaps::with_limits_and_storm_thresholds(
        watch_root,
        EventIntentLimits::new(100, 100),
        StormThresholds {
            window: Duration::from_secs(2),
            directory_unique_paths_threshold: 99,
            directory_event_count_threshold: 3,
            global_pending_event_count_threshold: 99,
            deferred_reconcile_delay: Duration::from_secs(10),
        },
    );

    let path = subtree_root.join("file.txt");
    maps.record_event(fs_event(path.clone(), FsEventKind::Modified, 1));
    maps.record_event(fs_event(path.clone(), FsEventKind::Modified, 2));
    maps.record_event(fs_event(path, FsEventKind::Modified, 3));

    let deferred = maps
        .deferred_reconcile(&subtree_root)
        .expect("missing deferred reconcile");
    assert_eq!(deferred.reason, StormReason::DirectoryEventCountThreshold);

    let compacted = maps
        .compacted_subtree(&subtree_root)
        .expect("missing compacted subtree record");
    assert_eq!(
        compacted.reason,
        BackpressureReason::DirectoryEventCountStorm
    );
}

#[test]
fn global_pending_event_threshold_defers_watch_root_reconcile() {
    let watch_root = FsPath::new("/tmp/vapor-root");
    let mut maps = BoundedEventIntentMaps::with_limits_and_storm_thresholds(
        watch_root.clone(),
        EventIntentLimits::new(100, 100),
        StormThresholds {
            window: Duration::from_secs(2),
            directory_unique_paths_threshold: 99,
            directory_event_count_threshold: 99,
            global_pending_event_count_threshold: 2,
            deferred_reconcile_delay: Duration::from_secs(15),
        },
    );

    maps.record_event(fs_event(watch_root.join("a.txt"), FsEventKind::Modified, 1));
    maps.record_event(fs_event(watch_root.join("b.txt"), FsEventKind::Modified, 2));

    assert_eq!(maps.pending_event_count(), 0);
    let deferred = maps
        .deferred_reconcile(&watch_root)
        .expect("missing global deferred reconcile");
    assert_eq!(
        deferred.reason,
        StormReason::GlobalPendingEventCountThreshold
    );

    let compacted = maps
        .compacted_subtree(&watch_root)
        .expect("missing compacted watch root record");
    assert_eq!(
        compacted.reason,
        BackpressureReason::GlobalPendingEventCountStorm
    );
    assert_eq!(compacted.suppressed_event_count, 2);
}

#[test]
fn subtree_cap_stress_keeps_large_single_directory_bounded() {
    let watch_root = FsPath::new("/tmp/vapor-root");
    let subtree_root = watch_root.join("project/stress");
    let mut maps = BoundedEventIntentMaps::with_limits_and_storm_thresholds(
        watch_root,
        EventIntentLimits::new(20_000, 5_000),
        disabled_storm_thresholds(),
    );

    let start = std::time::Instant::now();
    for index in 0..6_000 {
        maps.record_event(fs_event(
            subtree_root.join(&format!("file-{index}.txt")),
            FsEventKind::Modified,
            index as u64,
        ));
    }
    let elapsed = start.elapsed();

    assert_eq!(maps.pending_event_count(), 0);
    assert_eq!(maps.pending_intent_count(), 1);
    assert_eq!(maps.tracked_path_count(), 1);
    let compacted = maps
        .compacted_subtree(&subtree_root)
        .expect("missing compacted subtree record");
    assert_eq!(compacted.reason, BackpressureReason::SubtreeCapExceeded);
    assert_eq!(compacted.suppressed_event_count, 6_000);
    assert!(
        elapsed < std::time::Duration::from_secs(5),
        "subtree cap stress test took {:?}, expected < 5s",
        elapsed
    );
}

#[test]
fn global_cap_stress_keeps_large_root_bounded() {
    let watch_root = FsPath::new("/tmp/vapor-root");
    let mut maps = BoundedEventIntentMaps::with_limits_and_storm_thresholds(
        watch_root.clone(),
        EventIntentLimits::new(20_000, 50_000),
        disabled_storm_thresholds(),
    );

    let start = std::time::Instant::now();
    for index in 0..25_000 {
        maps.record_event(fs_event(
            watch_root.join(&format!("file-{index}.txt")),
            FsEventKind::Modified,
            index as u64,
        ));
    }
    let elapsed = start.elapsed();

    assert_eq!(maps.pending_event_count(), 0);
    assert_eq!(maps.pending_intent_count(), 1);
    assert_eq!(maps.tracked_path_count(), 1);
    let compacted = maps
        .compacted_subtree(&watch_root)
        .expect("missing compacted watch root record");
    assert_eq!(compacted.reason, BackpressureReason::GlobalCapExceeded);
    assert_eq!(compacted.suppressed_event_count, 25_000);
    assert!(
        elapsed < std::time::Duration::from_secs(5),
        "global cap stress test took {:?}, expected < 5s",
        elapsed
    );
}

#[test]
fn multi_subtree_storm_stress_keeps_only_deferred_markers_in_memory() {
    let watch_root = FsPath::new("/tmp/vapor-root");
    let mut maps = BoundedEventIntentMaps::with_limits_and_storm_thresholds(
        watch_root.clone(),
        EventIntentLimits::new(20_000, 5_000),
        StormThresholds {
            global_pending_event_count_threshold: usize::MAX,
            ..StormThresholds::default()
        },
    );

    let start = std::time::Instant::now();
    for subtree_index in 0..40 {
        let subtree_root = watch_root.join(&format!("storm-{subtree_index}"));
        for file_index in 0..250 {
            maps.record_event(fs_event(
                subtree_root.join(&format!("file-{file_index}.txt")),
                FsEventKind::Modified,
                (subtree_index * 10 + file_index / 200) as u64,
            ));
        }
    }
    let elapsed = start.elapsed();

    assert_eq!(maps.pending_event_count(), 0);
    assert_eq!(maps.pending_intent_count(), 0);
    assert_eq!(maps.deferred_reconcile_count(), 40);
    assert_eq!(maps.compacted_subtree_count(), 40);
    assert_eq!(maps.tracked_path_count(), 40);

    for subtree_index in 0..40 {
        let subtree_root = watch_root.join(&format!("storm-{subtree_index}"));
        let deferred = maps
            .deferred_reconcile(&subtree_root)
            .expect("missing deferred reconcile marker");
        assert_eq!(deferred.reason, StormReason::DirectoryUniquePathsThreshold);

        let compacted = maps
            .compacted_subtree(&subtree_root)
            .expect("missing compacted subtree record");
        assert_eq!(compacted.suppressed_event_count, 250);
    }
    assert!(
        elapsed < std::time::Duration::from_secs(5),
        "multi-subtree storm stress test took {:?}, expected < 5s",
        elapsed
    );
}

#[test]
fn tracked_paths_stay_bounded_with_their_markers() {
    let watch_root = FsPath::new("/tmp/vapor-root");
    let mut maps = BoundedEventIntentMaps::with_limits_and_storm_thresholds(
        watch_root.clone(),
        EventIntentLimits::new(3, 1),
        disabled_storm_thresholds(),
    );
    for step in 0..40u64 {
        let path = watch_root.join(&format!("d{}/f{}.txt", step % 7, step));
        if step % 3 == 0 {
            maps.upsert_intent(path, PendingIntentKind::Upload, timestamp(step));
        } else {
            maps.record_event(fs_event(path, FsEventKind::Modified, step));
        }
        assert!(maps.tracked_path_count() <= 3, "at step {step}");
    }
}

#[test]
fn an_early_event_never_brings_a_deferred_reconcile_forward() {
    let watch_root = FsPath::new("/tmp/vapor-root");
    let subtree_root = watch_root.join("sub");
    let mut maps = BoundedEventIntentMaps::with_limits_and_storm_thresholds(
        watch_root,
        EventIntentLimits::new(100, 100),
        StormThresholds { directory_unique_paths_threshold: 2, ..disabled_storm_thresholds() },
    );
    maps.record_event(fs_event(subtree_root.join("a.txt"), FsEventKind::Modified, 50));
    maps.record_event(fs_event(subtree_root.join("b.txt"), FsEventKind::Modified, 51));
    maps.record_event(fs_event(subtree_root.join("c.txt"), FsEventKind::Modified, 7));
    let deferred = maps.deferred_reconcile(&subtree_root).expect("deferred");
    assert_eq!(deferred.available_at, timestamp(81));
    assert_eq!(deferred.reschedule_count, 1);
    assert_eq!(deferred.first_detected_at, timestamp(51));
    assert_eq!(deferred.last_observed_at, timestamp(7));
    assert_eq!(maps.deferred_reconcile_count(), 1);
}

#[test]
fn only_ready_events_are_drained() {
    let watch_root = FsPath::new("/tmp/vapor-root");
    let mut maps = BoundedEventIntentMaps::new(watch_root.clone());
    maps.record_event(fs_event(watch_root.join("a.txt"), FsEventKind::Modified, 1));
    maps.record_event(fs_event(watch_root.join("b.txt"), FsEventKind::Modified, 9));
    let drained = maps.drain_ready_events(|record| record.last_observed_at == timestamp(1));
    assert_eq!(drained.len(), 1);
    assert_eq!(drained[0].path, watch_root.join("a.txt"));
    assert!(maps.pending_event(&watch_root.join("a.txt")).is_none());
    assert!(maps.pending_event(&watch_root.join("b.txt")).is_some());
    assert_eq!(maps.tracked_path_count(), 1);
}

fn disabled_storm_thresholds() -> StormThresholds {
    StormThresholds {
        window: Duration::from_secs(2),
        directory_unique_paths_threshold: usize::MAX,
        directory_event_count_threshold: usize::MAX,
        global_pending_event_count_threshold: usize::MAX,
        deferred_reconcile_delay: Duration::from_secs(30),
    }
}

fn fs_event(path: FsPath, kind: FsEventKind, seconds: u64) -> FsEventRecord {
    FsEventRecord {
        path,
        kind,
        observed_at: timestamp(seconds),
    }
}

fn timestamp(seconds: u64) -> SystemTime {
    SystemTime::unix_epoch().plus(Duration::from_secs(seconds))
}
