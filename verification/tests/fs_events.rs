use vapor_daemon::clock::{Clock, Duration, SystemClock, SystemTime};
use vapor_daemon::fs_events::{
    check_filter_root, filter_watch_event, normalize_absolute_path, normalize_watch_root,
    record_watch_event, FsEventErrorRecord, FsEventKind, FsEventRecord, FsEventRecording,
    FsEventView, LinkState, PathResolver, ResolveStep, RootState, SharedEventPathFilter, WatchEvent,
    WatchEventKind,
};
use vapor_daemon::path_filter::{EventPathFilterOptions, IgnoreFile};
use vapor_daemon::paths::{FsPath, PathStyle};

struct TestRecorder {
    events: Vec<FsEventRecord>,
    errors: usize,
}

impl TestRecorder {
    fn empty() -> TestRecorder {
        TestRecorder { events: Vec::new(), errors: 0 }
    }
}

impl FsEventRecording for TestRecorder {
    fn accepts(&self, _event: FsEventView) -> bool {
        true
    }

    fn takes_in(&self, _event: FsEventView, _after: &Self) -> bool {
        true
    }

    fn record_event(&mut self, event: FsEventRecord) {
        self.events.push(event);
    }

    fn record_error(&mut self, _error: FsEventErrorRecord) {
        self.errors += 1;
    }
}

fn synthetic_watch_root() -> FsPath {
    FsPath::new("/tmp/vapor-root")
}

fn test_path_filter(watch_root: &FsPath) -> SharedEventPathFilter {
    SharedEventPathFilter::new(
        watch_root,
        EventPathFilterOptions::default(),
        &Vec::new(),
        &Vec::new(),
    )
}

fn now() -> SystemTime {
    SystemClock::new().now_system()
}

#[test]
fn normalize_preserves_drive_letter_prefix_on_windows() {
    let path = FsPath::parse(PathStyle::Windows, "C:\\Users\\alex\\Vapor\\file.txt");
    let normalized = normalize_absolute_path(&path).expect("normalized drive-letter path");
    assert_eq!(
        normalized,
        FsPath::parse(PathStyle::Windows, "C:\\Users\\alex\\Vapor\\file.txt")
    );
}

#[test]
fn normalize_resolves_parent_traversal_on_windows() {
    let path = FsPath::parse(PathStyle::Windows, "C:\\a\\b\\..\\c");
    let normalized = normalize_absolute_path(&path).expect("normalized prefix path with parent");
    assert_eq!(normalized, FsPath::parse(PathStyle::Windows, "C:\\a\\c"));
}

#[test]
fn normalize_keeps_unix_root_when_no_prefix_present() {
    let normalized = normalize_absolute_path(&FsPath::new("/tmp/vapor-root/file.txt"))
        .expect("normalized unix path");
    assert_eq!(normalized, FsPath::new("/tmp/vapor-root/file.txt"));
}

#[test]
fn callback_normalizes_relative_paths_and_records_metadata() {
    let watch_root = synthetic_watch_root();
    let mut path_filter = test_path_filter(&watch_root);
    let mut recorder = TestRecorder::empty();

    let event = WatchEvent {
        path: FsPath::new("src/main.rs"),
        kind: WatchEventKind::Created,
        observed_at: now(),
    };

    record_watch_event(&watch_root, &mut path_filter, event, &mut recorder);

    assert_eq!(recorder.events.len(), 1);
    assert_eq!(recorder.events[0].kind, FsEventKind::Created);
    assert_eq!(recorder.events[0].path, watch_root.join("src/main.rs"));
}

#[test]
fn callback_filters_paths_outside_watch_root() {
    let watch_root = synthetic_watch_root();
    let mut path_filter = test_path_filter(&watch_root);
    let mut recorder = TestRecorder::empty();

    let event = WatchEvent {
        path: watch_root
            .parent()
            .expect("synthetic watch root has a parent")
            .join("other-root/file.txt"),
        kind: WatchEventKind::Modified,
        observed_at: now(),
    };

    record_watch_event(&watch_root, &mut path_filter, event, &mut recorder);

    assert!(recorder.events.is_empty());
}

#[test]
fn callback_rejects_relative_traversal_outside_watch_root() {
    let watch_root = synthetic_watch_root();
    let mut path_filter = test_path_filter(&watch_root);
    let mut recorder = TestRecorder::empty();

    let event = WatchEvent {
        path: FsPath::new("../escape.txt"),
        kind: WatchEventKind::Modified,
        observed_at: now(),
    };

    record_watch_event(&watch_root, &mut path_filter, event, &mut recorder);

    assert!(recorder.events.is_empty());
}

/// Resolves a path over a set of links; everything else is a plain entry.
fn resolves_within(watch_root: &FsPath, candidate: &FsPath, links: &[(FsPath, FsPath)]) -> bool {
    let (mut resolver, mut step) = PathResolver::start(watch_root, candidate);
    loop {
        match step {
            ResolveStep::Probe => {
                let probing = resolver.probing().clone();
                let found = match links.iter().find(|(link, _)| *link == probing) {
                    Some((_, target)) => LinkState::Link(target.clone()),
                    None => LinkState::NotLink,
                };
                step = resolver.reply(found);
            }
            ResolveStep::Inside => return true,
            ResolveStep::Outside => return false,
        }
    }
}

#[test]
fn symlink_escape_is_rejected_by_resolve_helper() {
    let watch_root = FsPath::new("/tmp/t/watch");
    let links = [(watch_root.join("escape"), FsPath::new("/tmp/t/outside"))];
    assert!(!resolves_within(
        &watch_root,
        &watch_root.join("escape/file.txt"),
        &links
    ));
}

#[test]
fn nested_symlink_escape_is_rejected_by_resolve_helper() {
    let watch_root = FsPath::new("/tmp/t/watch");
    let links = [
        (watch_root.join("first-hop"), watch_root.join("second-hop")),
        (watch_root.join("second-hop"), FsPath::new("/tmp/t/outside")),
    ];
    assert!(!resolves_within(
        &watch_root,
        &watch_root.join("first-hop/file.txt"),
        &links
    ));
}

#[test]
fn symlink_resolving_inside_watch_root_is_accepted_by_resolve_helper() {
    let watch_root = FsPath::new("/tmp/t/watch");
    let links = [(watch_root.join("alias"), watch_root.join("nested"))];
    assert!(resolves_within(
        &watch_root,
        &watch_root.join("alias/target"),
        &links
    ));
}

#[test]
fn a_link_cycle_is_rejected() {
    let watch_root = FsPath::new("/tmp/t/watch");
    let links = [
        (watch_root.join("a"), watch_root.join("b")),
        (watch_root.join("b"), watch_root.join("a")),
    ];
    assert!(!resolves_within(&watch_root, &watch_root.join("a/x"), &links));
}

#[test]
fn callback_records_lexically_inside_paths_without_blocking_on_filesystem_resolution() {
    let watch_root = FsPath::new("/tmp/t/watch");
    let mut path_filter = test_path_filter(&watch_root);
    let mut recorder = TestRecorder::empty();
    let event = WatchEvent {
        path: FsPath::new("escape/file.txt"),
        kind: WatchEventKind::Modified,
        observed_at: now(),
    };

    record_watch_event(&watch_root, &mut path_filter, event, &mut recorder);

    assert_eq!(recorder.events.len(), 1);
}

#[test]
fn watch_root_is_canonicalized_before_use() {
    let normalized = normalize_watch_root(
        FsPath::new("/tmp/t/watch-root-link"),
        RootState::Directory(Ok(FsPath::new("/tmp/t/real-root"))),
    )
    .expect("normalize watch root");
    assert_eq!(normalized, FsPath::new("/tmp/t/real-root"));
}

#[test]
fn unusable_watch_roots_are_refused() {
    let root = FsPath::new("/tmp/t/missing");
    let error = normalize_watch_root(root.clone(), RootState::Missing).expect_err("missing");
    assert!(error.message().contains("/tmp/t/missing"));
    assert!(normalize_watch_root(root.clone(), RootState::NotDirectory).is_err());
    let filter = test_path_filter(&FsPath::new("/tmp/other"));
    assert!(check_filter_root(&root, &filter).is_err());
    assert!(check_filter_root(&FsPath::new("/tmp/other"), &filter).is_ok());
}

#[test]
fn callback_maps_ambiguous_rename_events_to_renamed() {
    let watch_root = synthetic_watch_root();
    let mut path_filter = test_path_filter(&watch_root);
    let mut recorder = TestRecorder::empty();

    let event = WatchEvent {
        path: watch_root.join("renamed.txt"),
        kind: WatchEventKind::Renamed,
        observed_at: now(),
    };

    record_watch_event(&watch_root, &mut path_filter, event, &mut recorder);

    assert_eq!(recorder.events.len(), 1);
    assert_eq!(recorder.events[0].kind, FsEventKind::Renamed);
}

#[test]
fn observing_an_ignore_file_change_requests_a_filter_reload() {
    let watch_root = FsPath::new("/tmp/t/watch");
    let none: Vec<IgnoreFile> = Vec::new();
    let mut path_filter = SharedEventPathFilter::new(
        &watch_root,
        EventPathFilterOptions {
            pre_user_rules: Vec::new(),
            post_user_rules: Vec::new(),
            ..EventPathFilterOptions::default()
        },
        &none,
        &none,
    );
    let mut recorder = TestRecorder::empty();

    // Before the .gitignore lands, generated/ files flow through.
    assert!(!path_filter.should_ignore(&watch_root.join("generated/app.js")));
    assert!(
        !path_filter.rebuild_if_requested(&none, &none),
        "no reload requested yet"
    );

    // The .gitignore is written and its own fs event arrives.
    let git_files = vec![IgnoreFile {
        path: watch_root.join(".gitignore"),
        contents: "generated/\n".to_string(),
    }];
    let event = WatchEvent {
        path: watch_root.join(".gitignore"),
        kind: WatchEventKind::Created,
        observed_at: now(),
    };
    record_watch_event(&watch_root, &mut path_filter, event, &mut recorder);

    assert!(
        path_filter.rebuild_if_requested(&git_files, &none),
        "ignore-file event must request a reload"
    );
    assert!(
        path_filter.should_ignore(&watch_root.join("generated/app.js")),
        "reloaded filter must apply the new rules"
    );
}

#[test]
fn callback_skips_paths_matching_default_ignore_rules() {
    let watch_root = synthetic_watch_root();
    let mut path_filter = test_path_filter(&watch_root);
    let mut recorder = TestRecorder::empty();

    let event = WatchEvent {
        path: FsPath::new("node_modules/pkg/index.js"),
        kind: WatchEventKind::Modified,
        observed_at: now(),
    };

    record_watch_event(&watch_root, &mut path_filter, event, &mut recorder);

    assert!(recorder.events.is_empty());
}

#[test]
fn callback_burst_regression_stays_under_guardrail() {
    let watch_root = synthetic_watch_root();
    let mut path_filter = test_path_filter(&watch_root);
    let mut recorder = TestRecorder::empty();

    let start = std::time::Instant::now();
    for index in 0..5_000 {
        let event = WatchEvent {
            path: FsPath::new(&format!("src/file-{index}.rs")),
            kind: WatchEventKind::Modified,
            observed_at: now(),
        };
        record_watch_event(&watch_root, &mut path_filter, event, &mut recorder);
    }
    let elapsed = start.elapsed();

    assert_eq!(recorder.events.len(), 5_000);
    assert!(
        elapsed < std::time::Duration::from_secs(2),
        "callback burst took {:?}, expected < 2s",
        elapsed
    );
}

#[test]
fn callback_deep_path_regression_stays_under_guardrail() {
    let watch_root = FsPath::new("/tmp/t/watch");
    let mut path_filter = test_path_filter(&watch_root);
    let mut recorder = TestRecorder::empty();
    let relative_path = FsPath::new(
        "level-0/level-1/level-2/level-3/level-4/level-5/level-6/level-7/level-8/level-9/level-10/level-11/file.txt",
    );

    let start = std::time::Instant::now();
    for _ in 0..2_000 {
        let event = WatchEvent {
            path: relative_path.clone(),
            kind: WatchEventKind::Modified,
            observed_at: now(),
        };
        record_watch_event(&watch_root, &mut path_filter, event, &mut recorder);
    }
    let elapsed = start.elapsed();

    assert_eq!(recorder.events.len(), 2_000);
    assert!(
        elapsed < std::time::Duration::from_secs(2),
        "deep callback burst took {:?}, expected < 2s",
        elapsed
    );
}

#[test]
fn a_kept_event_carries_its_time() {
    let watch_root = synthetic_watch_root();
    let mut path_filter = test_path_filter(&watch_root);
    let observed_at = SystemTime::unix_epoch().plus(Duration::from_secs(9));
    let event = filter_watch_event(
        &watch_root,
        &mut path_filter,
        WatchEvent {
            path: FsPath::new("/tmp/vapor-root/a/./b/../c.txt"),
            kind: WatchEventKind::Removed,
            observed_at,
        },
    )
    .expect("inside the root");
    assert_eq!(event.path, FsPath::new("/tmp/vapor-root/a/c.txt"));
    assert_eq!(event.kind, FsEventKind::Removed);
    assert_eq!(event.observed_at, observed_at);
}

#[test]
fn normalizing_twice_changes_nothing() {
    let once = normalize_absolute_path(&FsPath::new("/a/b/../c/./d")).expect("absolute");
    assert_eq!(once, FsPath::new("/a/c/d"));
    assert_eq!(normalize_absolute_path(&once), Some(FsPath::new("/a/c/d")));
}
