use vapor_daemon::clock::{Duration, SystemTime};
use vapor_daemon::event_intents::PendingIntentKind;
use vapor_daemon::paths::FsPath;
use vapor_daemon::scheduler::{CompletionDisposition, KeyedSupersedingScheduler};
use vapor_daemon::storm::{StormDetector, StormReason, StormThresholds};
use vapor_daemon::timeline::{TimelineBuffer, TimelineRecord};

fn at(milliseconds: u64) -> SystemTime {
    SystemTime::unix_epoch().plus(Duration::from_millis(milliseconds))
}

fn thresholds() -> StormThresholds {
    StormThresholds {
        window: Duration::from_millis(1_000),
        directory_unique_paths_threshold: 3,
        directory_event_count_threshold: 5,
        global_pending_event_count_threshold: 100,
        deferred_reconcile_delay: Duration::from_millis(500),
    }
}

fn detector() -> StormDetector {
    StormDetector::with_thresholds(FsPath::new("/root"), thresholds())
}

#[test]
fn many_paths_of_one_directory_are_a_storm() {
    let mut storms = detector();
    assert!(storms.observe_event(&FsPath::new("/root/d/a"), at(0), 1).is_none());
    assert!(storms.observe_event(&FsPath::new("/root/d/b"), at(10), 2).is_none());
    assert!(storms.observe_event(&FsPath::new("/root/e/c"), at(20), 3).is_none());
    let trigger = storms.observe_event(&FsPath::new("/root/d/c"), at(30), 4).unwrap();
    assert_eq!(trigger.root.to_text(), "/root/d");
    assert_eq!(trigger.reason, StormReason::DirectoryUniquePathsThreshold);
    assert_eq!(trigger.available_at, at(530));
    assert!(storms.observe_event(&FsPath::new("/root/d/a"), at(40), 5).is_none());
}

#[test]
fn events_that_left_the_window_no_longer_count() {
    let mut storms = detector();
    assert!(storms.observe_event(&FsPath::new("/root/d/a"), at(0), 1).is_none());
    assert!(storms.observe_event(&FsPath::new("/root/d/b"), at(10), 2).is_none());
    assert!(storms.observe_event(&FsPath::new("/root/d/c"), at(2_000), 3).is_none());
}

#[test]
fn many_events_on_one_path_are_a_storm() {
    let mut storms = detector();
    for step in 0..4 {
        assert!(storms.observe_event(&FsPath::new("/root/d/a"), at(step), 1).is_none());
    }
    let trigger = storms.observe_event(&FsPath::new("/root/d/a"), at(4), 1).unwrap();
    assert_eq!(trigger.reason, StormReason::DirectoryEventCountThreshold);
    assert_eq!(trigger.root.to_text(), "/root/d");
}

#[test]
fn a_global_backlog_reconciles_the_whole_root() {
    let mut storms = detector();
    let trigger = storms.observe_event(&FsPath::new("/root/d/a"), at(0), 100).unwrap();
    assert_eq!(trigger.reason, StormReason::GlobalPendingEventCountThreshold);
    assert_eq!(trigger.root.to_text(), "/root");
    assert_eq!(storms.deferred_available_at(at(7)), at(507));
}

#[test]
fn an_intent_that_arrives_during_work_runs_again() {
    let mut queue = KeyedSupersedingScheduler::default();
    let root = FsPath::new("/root/d");
    queue.upsert_intent(FsPath::new("/root/f"), PendingIntentKind::Upload, at(0));
    queue.upsert_intent(root.clone(), PendingIntentKind::ReconcileSubtree, at(1));
    queue.upsert_intent(root.clone(), PendingIntentKind::ReconcileSubtree, at(2));
    assert_eq!(queue.pending_count(), 2);
    let claimed = queue.claim_next_reconcile().unwrap();
    assert_eq!(claimed.observed_at, at(2));
    assert!(queue.claim_next_reconcile().is_none());
    queue.upsert_intent(root.clone(), PendingIntentKind::ReconcileSubtree, at(3));
    assert_eq!(queue.pending_count(), 1);
    assert_eq!(queue.complete_running(&root), Some(CompletionDisposition::RequeuedDirty));
    assert_eq!(queue.claim_next_reconcile().unwrap().observed_at, at(3));
    assert_eq!(queue.complete_running(&root), Some(CompletionDisposition::Removed));
    assert_eq!(queue.complete_running(&root), None);
}

#[test]
fn the_timeline_keeps_the_latest_records() {
    let mut timeline = TimelineBuffer::new(2);
    for step in 1..4 {
        timeline.push(TimelineRecord {
            timestamp: at(step),
            kind: "upload".to_string(),
            profile_id: "default".to_string(),
            message: step.to_string(),
        });
    }
    let kept: Vec<&str> = timeline.records().iter().map(|r| r.message.as_str()).collect();
    assert_eq!(kept, vec!["2", "3"]);
    timeline.set_max_entries(1);
    assert_eq!(timeline.records().len(), 1);
    assert_eq!(timeline.records()[0].message, "3");
    timeline.set_max_entries(0);
    assert!(timeline.records().is_empty());
}
