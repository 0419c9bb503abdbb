use vapor_daemon::clock::SystemTime;
use vapor_daemon::event_intents::PendingIntentKind;
use vapor_daemon::paths::FsPath;
use vapor_daemon::records::{DurableIntentRecord, LocalStat};
use vapor_daemon::safeguards::{
    app_has_pending_upload_of_size, guard_is_asked, hold_if_mass_deletion, note_held_path,
    pending_download_could_be_a_move, DeletionDirection, GuardFacts, HoldStep, QueuedPath,
};

fn intent(kind: PendingIntentKind, approved: bool) -> DurableIntentRecord {
    DurableIntentRecord {
        id: 1,
        path: FsPath::new("/r/a.txt"),
        kind,
        attempt_count: 0,
        enqueued_at: SystemTime::unix_epoch(),
        approved,
        remote_path: None,
        last_error: None,
    }
}

fn file(size_bytes: u64) -> LocalStat {
    LocalStat::File { size_bytes, modified_at: None }
}

#[test]
fn an_approved_deletion_is_not_asked_again() {
    assert!(guard_is_asked(&intent(PendingIntentKind::Delete, false), true));
    assert!(!guard_is_asked(&intent(PendingIntentKind::Delete, true), true));
    assert!(!guard_is_asked(&intent(PendingIntentKind::Delete, false), false));
}

#[test]
fn a_burst_counts_what_is_queued_behind_it() {
    let facts = GuardFacts {
        tripped: true,
        in_window: 60,
        queued_behind: 40,
        synced: 500,
        open_decision: None,
    };
    let HoldStep::Open(decision) =
        hold_if_mass_deletion(DeletionDirection::LocalToCloud, Some(facts))
    else {
        panic!("a decision is opened");
    };
    assert_eq!(decision.count, 100);
    assert_eq!(
        decision.question,
        "Vapor is holding a burst of deletions that arrived from this device: 100 of the 500 \
         files it syncs (20%) would be removed on the cloud. Apply them, or discard them and \
         restore the files?"
    );
    let options: Vec<(&str, &str)> =
        decision.options.iter().map(|o| (o.key.as_str(), o.label.as_str())).collect();
    assert_eq!(
        options,
        vec![
            ("apply", "Apply the deletions"),
            ("discard", "Discard them and restore the files from this device"),
        ]
    );
    assert!(decision.paths.is_empty());
    let open = GuardFacts { open_decision: Some(7), ..facts };
    assert_eq!(
        hold_if_mass_deletion(DeletionDirection::CloudToLocal, Some(open)),
        HoldStep::Behind(7)
    );
    let calm = GuardFacts { tripped: false, ..facts };
    assert_eq!(
        hold_if_mass_deletion(DeletionDirection::CloudToLocal, Some(calm)),
        HoldStep::Pass
    );
    assert_eq!(
        hold_if_mass_deletion(DeletionDirection::CloudToLocal, None),
        HoldStep::Pass
    );
    let empty = GuardFacts { synced: 0, ..facts };
    let HoldStep::Open(decision) =
        hold_if_mass_deletion(DeletionDirection::CloudToLocal, Some(empty))
    else {
        panic!("a decision is opened");
    };
    assert!(decision.question.contains("100 of the 0 files it syncs (100%)"));
    assert_eq!(
        DeletionDirection::LocalToCloud.intent_kind(),
        PendingIntentKind::Delete
    );
}

#[test]
fn a_queued_upload_of_the_same_size_may_be_the_other_half_of_a_rename() {
    let queued = vec![
        QueuedPath { path: FsPath::new("/r/b.txt"), local: file(7), indexed: false },
        QueuedPath { path: FsPath::new("/r/c.txt"), local: LocalStat::Missing, indexed: true },
    ];
    assert!(app_has_pending_upload_of_size(&queued, 7, &FsPath::new("/r/a.txt")));
    assert!(!app_has_pending_upload_of_size(&queued, 8, &FsPath::new("/r/a.txt")));
    assert!(!app_has_pending_upload_of_size(&queued, 7, &FsPath::new("/r/b.txt")));
    let _ = pending_download_could_be_a_move(&queued, &FsPath::new("/r/a.txt"));
}

#[test]
fn the_evidence_lists_the_first_held_paths() {
    let mut paths = Vec::new();
    for n in 0..60 {
        note_held_path(&mut paths, FsPath::new(&format!("/r/{n}.txt")));
    }
    assert_eq!(paths.len(), 50);
    assert_eq!(paths[0], FsPath::new("/r/0.txt"));
    assert_eq!(paths[49], FsPath::new("/r/49.txt"));
}
