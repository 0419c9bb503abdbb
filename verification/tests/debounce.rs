use vapor_daemon::clock::{Clock, Duration, ManualClock, SystemTime};
use vapor_daemon::debounce::{
    DebounceClass, DebounceLoop, DebounceWindows, DOCUMENT_DEBOUNCE_WINDOW_MILLIS,
};
use vapor_daemon::event_intents::{
    BoundedEventIntentMaps, BoundedFsEventRecorder, EventIntentLimits, PendingIntentKind,
};
use vapor_daemon::fs_events::{FsEventErrorRecord, FsEventKind, FsEventRecord, FsEventRecording};
use vapor_daemon::paths::FsPath;
use vapor_daemon::storm::StormThresholds;

#[test]
fn default_loop_uses_250ms_tick_interval() {
    let loop_state = DebounceLoop::default();
    assert_eq!(loop_state.tick_interval(), Duration::from_millis(250));
}

#[test]
fn debounce_windows_clamp_to_safe_bounds() {
    let windows = DebounceWindows::from_millis(8_000, 500, 100, 900, 700, 12_000, 50);

    assert_eq!(
        windows.classify_path(&FsPath::new("/tmp/config.json")),
        (DebounceClass::KeyConfig, Duration::from_millis(500))
    );
    assert_eq!(
        windows.classify_path(&FsPath::new("/tmp/file.swift")),
        (DebounceClass::CodeText, Duration::from_millis(900))
    );
    assert_eq!(
        windows.classify_path(&FsPath::new("/tmp/Cargo.lock")),
        (DebounceClass::Lockfile, Duration::from_millis(8_000))
    );
    assert_eq!(
        windows.classify_path(&FsPath::new("/tmp/video.mov")),
        (DebounceClass::Other, Duration::from_millis(500))
    );
}

#[test]
fn documents_and_images_get_the_shorter_document_window() {
    let windows = DebounceWindows::default();
    let document_window = Duration::from_millis(DOCUMENT_DEBOUNCE_WINDOW_MILLIS);
    for name in [
        "report.docx",
        "sheet.xlsx",
        "slides.pptx",
        "scan.pdf",
        "photo.jpg",
    ] {
        assert_eq!(
            windows.classify_path(&FsPath::new(&format!("/tmp/{name}"))),
            (DebounceClass::Document, document_window),
            "{name} should classify as a document"
        );
    }
    // A genuinely-other binary keeps the conservative default window.
    assert_eq!(
        windows.classify_path(&FsPath::new("/tmp/movie.mov")).0,
        DebounceClass::Other
    );
}

#[test]
fn classify_path_prefers_lockfiles_then_configs_then_code() {
    let windows = DebounceWindows::default();

    assert_eq!(
        windows.classify_path(&FsPath::new("/tmp/Cargo.lock")).0,
        DebounceClass::Lockfile
    );
    assert_eq!(
        windows.classify_path(&FsPath::new("/tmp/package.json")).0,
        DebounceClass::KeyConfig
    );
    assert_eq!(
        windows.classify_path(&FsPath::new("/tmp/lib.rs")).0,
        DebounceClass::CodeText
    );
    assert_eq!(
        windows.classify_path(&FsPath::new("/tmp/archive.mov")).0,
        DebounceClass::Other
    );
}

#[test]
fn tick_waits_until_interval_before_emitting_ready_events() {
    let watch_root = FsPath::new("/tmp/vapor-root");
    let path = watch_root.join("src/lib.rs");
    let mut maps = bounded_maps(&watch_root);
    let mut loop_state =
        DebounceLoop::with_windows_and_clock(DebounceWindows::default(), ManualClock::at_now());

    maps.record_event(fs_event(path.clone(), FsEventKind::Modified, 0));

    // The first tick is always due; the event has not aged enough.
    assert!(loop_state.run_tick(&mut maps, timestamp(1_000)).is_empty());

    // Under the tick interval the next tick is skipped.
    loop_state.clock_mut().advance(Duration::from_millis(200));
    assert!(loop_state.run_tick(&mut maps, timestamp(1_200)).is_empty());

    // Past the interval the tick fires and the event has aged enough.
    loop_state.clock_mut().advance(Duration::from_millis(50));
    let stabilized = loop_state.run_tick(&mut maps, timestamp(1_250));
    assert_eq!(stabilized.len(), 1);
    assert_eq!(stabilized[0].path, path);
    assert_eq!(stabilized[0].debounce_class, DebounceClass::CodeText);
    assert_eq!(stabilized[0].last_event_kind, FsEventKind::Modified);
    assert_eq!(stabilized[0].quiet_window, Duration::from_millis(1_200));
}

#[test]
fn key_configs_stabilize_before_code_text_paths() {
    let watch_root = FsPath::new("/tmp/vapor-root");
    let config_path = watch_root.join("package.json");
    let code_path = watch_root.join("src/main.rs");
    let mut maps = bounded_maps(&watch_root);
    let mut loop_state = DebounceLoop::default();

    maps.record_event(fs_event(config_path.clone(), FsEventKind::Modified, 0));
    maps.record_event(fs_event(code_path.clone(), FsEventKind::Modified, 0));

    let stabilized = loop_state.run_tick(&mut maps, timestamp(1_000));
    assert_eq!(stabilized.len(), 1);
    assert_eq!(stabilized[0].path, config_path);
    assert_eq!(stabilized[0].debounce_class, DebounceClass::KeyConfig);
    assert!(maps.pending_event(&code_path).is_some());
}

#[test]
fn other_paths_wait_for_longer_default_window() {
    let watch_root = FsPath::new("/tmp/vapor-root");
    let path = watch_root.join("capture.mov");
    let mut maps = bounded_maps(&watch_root);
    let mut loop_state =
        DebounceLoop::with_windows_and_clock(DebounceWindows::default(), ManualClock::at_now());

    maps.record_event(fs_event(path.clone(), FsEventKind::Created, 0));

    assert!(loop_state.run_tick(&mut maps, timestamp(3_750)).is_empty());
    loop_state.clock_mut().advance(Duration::from_millis(250));
    let stabilized = loop_state.run_tick(&mut maps, timestamp(4_000));
    assert_eq!(stabilized.len(), 1);
    assert_eq!(stabilized[0].path, path);
    assert_eq!(stabilized[0].debounce_class, DebounceClass::Other);
    assert_eq!(stabilized[0].quiet_window, Duration::from_millis(4_000));
}

#[test]
fn stabilized_events_are_removed_but_existing_intents_remain_tracked() {
    let watch_root = FsPath::new("/tmp/vapor-root");
    let path = watch_root.join("src/main.rs");
    let mut maps = bounded_maps(&watch_root);
    let mut loop_state = DebounceLoop::default();

    maps.record_event(fs_event(path.clone(), FsEventKind::Modified, 0));
    maps.upsert_intent(path.clone(), PendingIntentKind::Upload, timestamp(50));

    let stabilized = loop_state.run_tick(&mut maps, timestamp(1_250));
    assert_eq!(stabilized.len(), 1);
    assert!(maps.pending_event(&path).is_none());
    assert!(maps.pending_intent(&path).is_some());
    assert_eq!(maps.tracked_path_count(), 1);
}

#[test]
fn run_tick_for_recorder_uses_shared_pending_state() {
    let watch_root = FsPath::new("/tmp/vapor-root");
    let mut recorder =
        BoundedFsEventRecorder::with_limits(watch_root.clone(), EventIntentLimits::new(20, 20));
    let mut loop_state = DebounceLoop::default();

    recorder.record_event(fs_event(
        watch_root.join("src/main.rs"),
        FsEventKind::Modified,
        0,
    ));
    recorder.record_error(FsEventErrorRecord {
        description: "callback failed".to_string(),
    });

    let stabilized = loop_state.run_tick_for_recorder(&mut recorder, timestamp(1_250));
    assert_eq!(stabilized.len(), 1);
    assert_eq!(recorder.error_count(), 1);
    recorder.with_state(|maps| {
        assert_eq!(maps.pending_event_count(), 0);
    });
}

#[test]
fn tick_cadence_is_unaffected_by_wall_clock_rewind_under_injected_clock() {
    let watch_root = FsPath::new("/tmp/vapor-root");
    let path = watch_root.join("src/main.rs");
    let mut maps = bounded_maps(&watch_root);
    let mut loop_state =
        DebounceLoop::with_windows_and_clock(DebounceWindows::default(), ManualClock::at_now());

    maps.record_event(fs_event(path.clone(), FsEventKind::Modified, 0));
    // Prime the loop with a first tick.
    loop_state.run_tick(&mut maps, timestamp(10_000));
    let last_tick_inst_after_first = loop_state.last_tick_inst().expect("primed last tick");

    // The wall clock goes back by far; the monotonic axis stays.
    loop_state.clock_mut().advance_system(Duration::from_millis(0));
    loop_state.clock_mut().set_system(timestamp(1_000));
    let after_rewind = loop_state.run_tick(&mut maps, timestamp(1_000));
    assert!(
        after_rewind.is_empty(),
        "wall-clock rewind alone must not force a debounce tick"
    );
    assert_eq!(
        loop_state.last_tick_inst(),
        Some(last_tick_inst_after_first),
        "monotonic clock is untouched, so the last tick should not advance"
    );

    // Crossing the tick interval on the monotonic axis re-enables ticks.
    let interval = loop_state.tick_interval();
    loop_state.clock_mut().advance(interval);
    let after_advance = loop_state.run_tick(&mut maps, timestamp(2_000));
    let _ = after_advance;
    assert!(
        loop_state.last_tick_inst().expect("post-advance tick recorded")
            > last_tick_inst_after_first,
        "monotonic-axis advance should permit the next tick"
    );
    assert_eq!(
        loop_state.last_tick_inst(),
        Some(loop_state.clock_mut().now())
    );
}

#[test]
fn debounce_tick_regression_stays_under_guardrail() {
    let watch_root = FsPath::new("/tmp/vapor-root");
    let mut maps = BoundedEventIntentMaps::with_limits_and_storm_thresholds(
        watch_root.clone(),
        EventIntentLimits::new(10_000, 10_000),
        StormThresholds {
            directory_unique_paths_threshold: usize::MAX,
            directory_event_count_threshold: usize::MAX,
            global_pending_event_count_threshold: usize::MAX,
            ..StormThresholds::default()
        },
    );
    let mut loop_state = DebounceLoop::default();

    for index in 0..5_000 {
        maps.record_event(fs_event(
            watch_root.join(&format!("src/file-{index}.rs")),
            FsEventKind::Modified,
            0,
        ));
    }

    let start = std::time::Instant::now();
    let stabilized = loop_state.run_tick(&mut maps, timestamp(1_250));
    let elapsed = start.elapsed();

    assert_eq!(stabilized.len(), 5_000);
    assert!(
        elapsed < std::time::Duration::from_secs(2),
        "debounce tick took {:?}, expected < 2s",
        elapsed
    );
}

#[test]
fn an_event_seen_after_a_rewind_only_waits_longer() {
    let watch_root = FsPath::new("/tmp/vapor-root");
    let mut maps = bounded_maps(&watch_root);
    let mut loop_state = DebounceLoop::default();
    maps.record_event(fs_event(
        watch_root.join("src/main.rs"),
        FsEventKind::Modified,
        5_000,
    ));
    assert!(loop_state.run_tick(&mut maps, timestamp(1_000)).is_empty());
    assert_eq!(maps.pending_event_count(), 1);
}

fn bounded_maps(watch_root: &FsPath) -> BoundedEventIntentMaps {
    BoundedEventIntentMaps::with_limits(watch_root.clone(), EventIntentLimits::new(20, 20))
}

fn fs_event(path: FsPath, kind: FsEventKind, milliseconds: u64) -> FsEventRecord {
    FsEventRecord {
        path,
        kind,
        observed_at: timestamp(milliseconds),
    }
}

fn timestamp(milliseconds: u64) -> SystemTime {
    SystemTime::unix_epoch().plus(Duration::from_millis(milliseconds))
}

#[test]
fn bounds_come_in_any_order() {
    let first = DebounceWindows::from_millis(200, 5_000, 100, 900, 6_000, 200, 5_000);
    let second = DebounceWindows::from_millis(5_000, 200, 100, 900, 6_000, 200, 5_000);
    assert_eq!(first, second);
    let (class, window) = first.classify_path(&FsPath::new("/r/main.rs"));
    assert_eq!(class, DebounceClass::CodeText);
    assert_eq!(window, Duration::from_millis(900));
}
