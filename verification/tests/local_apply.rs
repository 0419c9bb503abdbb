use std::collections::BTreeMap;

use vapor_daemon::clock::{Duration, SystemTime};
use vapor_daemon::continuations::{
    after_expansion_queued, continue_plan_directory_delete, expand_directory_delete, DirectoryStep,
};
use vapor_daemon::effects::Effect;
use vapor_daemon::event_intents::PendingIntentKind;
use vapor_daemon::hashing::hash_hex_of_bytes;
use vapor_daemon::local_apply::{
    after_walk, apply_remote_delete_locally, aside_path, conflict_timestamp, discard_reason,
    discarded_child, first_ancestor, hashed_child, listed_child, verify_within_local_root,
    visit_child, ChildStep, ContainmentStep, DirectoryWalk, DiscardReason, ListingError,
    PayloadApply, PayloadAsk, PayloadNext, RemovalStep, Reply, Resolved, WalkAsk,
};
use vapor_daemon::paths::FsPath;
use vapor_daemon::planner::{NoopReason, PlanOutcome, PlanStep, TransferPlan};
use vapor_daemon::provider_jobs::ProbeResult;
use vapor_daemon::records::{
    HashAlgorithm, LocalStat, ProviderError, ProviderErrorKind, RemoteEntry, RemoteEntryKind,
    RemotePrecondition, RetryFailureKind, SyncIndexEntry, SyncMode,
};

fn at(milliseconds: u64) -> SystemTime {
    SystemTime::unix_epoch().plus(Duration::from_millis(milliseconds))
}

fn hash(bytes: &[u8]) -> String {
    hash_hex_of_bytes(HashAlgorithm::Sha256, bytes)
}

fn row(path: &FsPath, bytes: &[u8], modified: Option<SystemTime>) -> SyncIndexEntry {
    SyncIndexEntry {
        path: path.clone(),
        content_hash: hash(bytes),
        size_bytes: bytes.len() as u64,
        local_modified_at: modified,
        remote_modified_at: None,
        last_op_id: "op".to_string(),
        updated_at: at(0),
    }
}

enum Node {
    Directory,
    File(Vec<u8>),
    Link,
}

/// A directory tree with the index rows of its synced files.
struct Tree {
    nodes: BTreeMap<String, Node>,
    rows: BTreeMap<String, SyncIndexEntry>,
    queued: Vec<String>,
    buried: Vec<String>,
}

impl Tree {
    fn new() -> Tree {
        Tree {
            nodes: BTreeMap::new(),
            rows: BTreeMap::new(),
            queued: Vec::new(),
            buried: Vec::new(),
        }
    }

    fn synced(&mut self, path: &str, bytes: &[u8]) {
        self.nodes.insert(path.to_string(), Node::File(bytes.to_vec()));
        let entry = row(&FsPath::new(path), bytes, Some(at(500)));
        self.rows.insert(path.to_string(), entry);
    }

    fn stat(&self, path: &FsPath) -> LocalStat {
        match self.nodes.get(&path.to_text()) {
            None => LocalStat::Missing,
            Some(Node::Directory) => LocalStat::Directory,
            Some(Node::Link) => LocalStat::Special,
            Some(Node::File(bytes)) => LocalStat::File {
                size_bytes: bytes.len() as u64,
                modified_at: Some(at(500)),
            },
        }
    }

    fn children(&self, path: &FsPath) -> Vec<FsPath> {
        let prefix = format!("{}/", path.to_text());
        self.nodes
            .keys()
            .filter(|name| {
                name.starts_with(&prefix) && !name[prefix.len()..].contains('/')
            })
            .map(|name| FsPath::new(name))
            .collect()
    }

    fn index(&self, path: &FsPath) -> Option<SyncIndexEntry> {
        self.rows.get(&path.to_text()).map(|entry| SyncIndexEntry {
            path: entry.path.clone(),
            content_hash: entry.content_hash.clone(),
            size_bytes: entry.size_bytes,
            local_modified_at: entry.local_modified_at,
            remote_modified_at: entry.remote_modified_at,
            last_op_id: entry.last_op_id.clone(),
            updated_at: entry.updated_at,
        })
    }

    fn record(&mut self, effects: Vec<Effect>) {
        for effect in effects {
            match effect {
                Effect::Enqueue { path, kind } => {
                    assert_eq!(kind, PendingIntentKind::Upload);
                    self.queued.push(path.to_text());
                }
                Effect::RecordTombstone { path, .. } => self.buried.push(path.to_text()),
                _ => {}
            }
        }
    }

    fn remove(&mut self, path: &FsPath) -> Reply {
        match self.nodes.remove(&path.to_text()) {
            Some(_) => Reply::Done,
            None => Reply::Missing,
        }
    }

    fn remove_directory(&mut self, path: &FsPath) -> Reply {
        if self.children(path).is_empty() {
            self.remove(path)
        } else {
            Reply::Failed("directory not empty".to_string())
        }
    }

    fn walk(&mut self, root: &FsPath) -> Result<bool, String> {
        let mut walk = DirectoryWalk::start(root.clone(), self.children(root));
        loop {
            match walk.next() {
                WalkAsk::Finished(all) => return Ok(all),
                WalkAsk::RemoveDirectory(directory) => {
                    let reply = self.remove_directory(&directory);
                    let effects = walk.directory_settled(&directory, &reply);
                    self.record(effects);
                }
                WalkAsk::Visit(child) => {
                    let mut step = visit_child(&child, &self.stat(&child), Ok(self.index(&child)));
                    loop {
                        step = match step {
                            ChildStep::Settled { settled, effects } => {
                                self.record(effects);
                                walk.settle(child, settled);
                                break;
                            }
                            ChildStep::List => listed_child(Ok(self.children(&child))),
                            ChildStep::Discard => {
                                let reply = self.remove(&child);
                                discarded_child(&child, reply)
                            }
                            ChildStep::Hash(entry) => {
                                let found = match &self.nodes[&child.to_text()] {
                                    Node::File(bytes) => Ok(hash(bytes)),
                                    _ => Err("not a file".to_string()),
                                };
                                hashed_child(&child, &entry, found)
                            }
                            ChildStep::Failed(message) => return Err(message),
                        };
                    }
                }
            }
        }
    }

    fn remove_tree(&mut self, root: &FsPath) -> PlanOutcome {
        assert_eq!(
            apply_remote_delete_locally(SyncMode::TwoWay, &self.stat(root)),
            RemovalStep::WalkDirectory
        );
        let walked = self.walk(root);
        let reply = if walked == Ok(true) { self.remove_directory(root) } else { Reply::Missing };
        let (outcome, effects) = after_walk(root, walked, reply);
        self.record(effects);
        outcome
    }
}

#[test]
fn a_synced_directory_goes_with_everything_in_it() {
    let mut tree = Tree::new();
    tree.nodes.insert("/r/d".to_string(), Node::Directory);
    tree.nodes.insert("/r/d/sub".to_string(), Node::Directory);
    tree.synced("/r/d/a.txt", b"a");
    tree.synced("/r/d/sub/b.txt", b"b");
    assert_eq!(tree.remove_tree(&FsPath::new("/r/d")), PlanOutcome::AppliedLocally);
    assert!(tree.nodes.is_empty());
    assert_eq!(tree.buried, vec!["/r/d/a.txt", "/r/d/sub/b.txt", "/r/d/sub"]);
    assert!(tree.queued.is_empty());
}

#[test]
fn two_way_remote_directory_delete_preserves_unsynced_children() {
    let mut tree = Tree::new();
    tree.nodes.insert("/r/d".to_string(), Node::Directory);
    tree.nodes.insert("/r/d/keep".to_string(), Node::Directory);
    tree.nodes.insert("/r/d/gone".to_string(), Node::Directory);
    tree.synced("/r/d/a.txt", b"a");
    tree.synced("/r/d/gone/b.txt", b"b");
    tree.nodes.insert("/r/d/keep/new.txt".to_string(), Node::File(b"unsynced".to_vec()));
    tree.nodes.insert("/r/d/link".to_string(), Node::Link);
    assert_eq!(
        tree.remove_tree(&FsPath::new("/r/d")),
        PlanOutcome::Noop(NoopReason::UnsyncedContentPreserved)
    );
    let left: Vec<&String> = tree.nodes.keys().collect();
    assert_eq!(left, vec!["/r/d", "/r/d/keep", "/r/d/keep/new.txt", "/r/d/link"]);
    assert_eq!(tree.queued, vec!["/r/d/keep/new.txt"], "the kept file is uploaded again");
    assert_eq!(tree.buried, vec!["/r/d/a.txt", "/r/d/gone/b.txt", "/r/d/gone"]);
}

#[test]
fn a_touched_file_goes_only_when_its_content_is_the_synced_one() {
    let child = FsPath::new("/r/d/a.txt");
    let local = LocalStat::File { size_bytes: 3, modified_at: Some(at(900)) };
    let entry = row(&child, b"old", Some(at(500)));
    let ChildStep::Hash(needed) = visit_child(&child, &local, Ok(Some(entry))) else {
        panic!("the time differs");
    };
    assert!(matches!(
        hashed_child(&child, &needed, Ok(hash(b"old"))),
        ChildStep::Discard
    ));
    assert!(matches!(
        hashed_child(&child, &needed, Ok(hash(b"new"))),
        ChildStep::Settled { .. }
    ));
    assert!(matches!(
        hashed_child(&child, &needed, Err("unreadable".to_string())),
        ChildStep::Settled { .. }
    ));
    assert!(matches!(
        visit_child(&child, &local, Err("locked".to_string())),
        ChildStep::Failed(message) if message == "cannot read sync index for /r/d/a.txt: locked"
    ));
    assert!(matches!(
        visit_child(&child, &LocalStat::Unreadable("denied".to_string()), Ok(None)),
        ChildStep::Failed(message) if message == "cannot stat /r/d/a.txt: denied"
    ));
    assert!(matches!(
        discarded_child(&child, Reply::Failed("busy".to_string())),
        ChildStep::Failed(message) if message == "cannot delete /r/d/a.txt: busy"
    ));
    assert!(matches!(
        listed_child(Err(ListingError::Entry("io".to_string()))),
        ChildStep::Failed(message) if message == "cannot read directory entry: io"
    ));
    assert!(matches!(
        listed_child(Err(ListingError::Directory("io".to_string()))),
        ChildStep::Failed(message)
            if message == "cannot read directory for remote-delete apply: io"
    ));
}

#[test]
fn content_that_reappears_keeps_the_directory() {
    let root = FsPath::new("/r/d");
    let (outcome, effects) = after_walk(&root, Ok(true), Reply::Failed("not empty".to_string()));
    assert_eq!(outcome, PlanOutcome::Noop(NoopReason::ContentReappeared));
    assert!(effects.is_empty());
    let (outcome, _) = after_walk(&root, Ok(true), Reply::Missing);
    assert_eq!(outcome, PlanOutcome::Noop(NoopReason::LocalDirectoryGone));
    let (outcome, _) = after_walk(&root, Err("cannot stat x".to_string()), Reply::Missing);
    assert_eq!(
        outcome,
        PlanOutcome::Fail {
            failure: RetryFailureKind::Transient,
            message: "cannot stat x".to_string(),
        }
    );
}

#[test]
fn a_strict_mirror_removes_a_directory_whole() {
    assert_eq!(
        apply_remote_delete_locally(SyncMode::PullOnly, &LocalStat::Directory),
        RemovalStep::Discard { directory: true }
    );
    assert_eq!(discard_reason(SyncMode::PullOnly), DiscardReason::MirrorRemoval);
    assert_eq!(discard_reason(SyncMode::TwoWay), DiscardReason::CloudDeletion);
    assert_eq!(
        apply_remote_delete_locally(SyncMode::TwoWay, &LocalStat::Missing),
        RemovalStep::Done(PlanOutcome::Noop(NoopReason::LocalFileGone))
    );
}

fn contained(
    real: &dyn Fn(&FsPath) -> Resolved,
    real_root: &FsPath,
    local_root: &FsPath,
    target: &FsPath,
) -> Result<(), String> {
    let mut ancestor = first_ancestor(local_root, target);
    loop {
        let resolved = real(&ancestor);
        match verify_within_local_root(real_root, local_root, target, &ancestor, resolved) {
            ContainmentStep::Inside => return Ok(()),
            ContainmentStep::Refused(message) => return Err(message),
            ContainmentStep::Try(next) => ancestor = next,
        }
    }
}

#[test]
fn remote_changes_never_escape_through_a_linked_parent() {
    let root = FsPath::new("/sync");
    let real = |path: &FsPath| match path.to_text().as_str() {
        "/sync" => Resolved::Real(FsPath::new("/sync")),
        "/sync/link" => Resolved::Real(FsPath::new("/elsewhere")),
        "/sync/broken" => Resolved::Failed("denied".to_string()),
        _ => Resolved::Missing,
    };
    assert_eq!(contained(&real, &root, &root, &FsPath::new("/sync/new/deep/x")), Ok(()));
    assert_eq!(
        contained(&real, &root, &root, &FsPath::new("/sync/link/x")),
        Err("refusing remote apply of /sync/link/x: parent resolves outside the sync root (/elsewhere)"
            .to_string())
    );
    assert_eq!(
        contained(&real, &root, &root, &FsPath::new("/sync/broken/x")),
        Err("cannot verify sync-root containment of /sync/broken: denied".to_string())
    );
    let nowhere = |_: &FsPath| Resolved::Missing;
    assert_eq!(
        contained(&nowhere, &root, &root, &FsPath::new("/sync/a/b")),
        Err("refusing remote apply of /sync/a/b: no existing ancestor inside the sync root".to_string())
    );
}

fn plan(path: &str, remote: &str) -> TransferPlan {
    TransferPlan {
        remote_path: remote.to_string(),
        op_id: "dev-op7-a1-t9".to_string(),
        local_path: FsPath::new(path),
        staging_path: None,
        content_hash: None,
        precondition: RemotePrecondition::Unconditional,
        verify_remote_before_upload: false,
        last_synced_hash: None,
        hashed_local_state: None,
        remote_op_id: None,
    }
}

fn entry(path: &str) -> RemoteEntry {
    RemoteEntry {
        path: path.to_string(),
        kind: RemoteEntryKind::File,
        size_bytes: 1,
        modified_at: at(1),
        content_hash: None,
        op_id: None,
    }
}

fn listing(paths: &[&str]) -> ProbeResult {
    ProbeResult {
        stat: None,
        content_hash: None,
        subtree: Some(Ok(paths.iter().map(|path| entry(path)).collect())),
    }
}

#[test]
fn deleting_a_local_directory_expands_into_guarded_deletes_deepest_first() {
    let found = listing(&["d/a", "d/sub", "d/sub/deep", "d/sub/deep/x", "d/kept"]);
    let DirectoryStep::Expand { plan, candidates } =
        continue_plan_directory_delete(plan("/r/d", "d"), &found, Ok(0))
    else {
        panic!("the delete expands");
    };
    let texts: Vec<String> = candidates.iter().map(|path| path.to_text()).collect();
    assert_eq!(
        texts,
        vec!["/r/d/sub/deep/x", "/r/d/sub/deep", "/r/d/a", "/r/d/sub", "/r/d/kept"]
    );
    let present = vec![false, false, false, false, true];
    let batch = expand_directory_delete(&plan.local_path, candidates, &present);
    let texts: Vec<String> = batch.iter().map(|path| path.to_text()).collect();
    assert_eq!(
        texts,
        vec!["/r/d/sub/deep/x", "/r/d/sub/deep", "/r/d/a", "/r/d/sub", "/r/d"]
    );
    assert_eq!(
        after_expansion_queued(batch.len(), Ok(())),
        PlanOutcome::Noop(NoopReason::DirectoryDeleteExpanded)
    );
}

#[test]
fn a_directory_whose_children_exist_locally_is_kept() {
    let directory = FsPath::new("/r/d");
    let batch = expand_directory_delete(&directory, vec![FsPath::new("/r/d/a")], &vec![true]);
    assert!(batch.is_empty());
    assert_eq!(
        after_expansion_queued(0, Ok(())),
        PlanOutcome::Noop(NoopReason::RemoteDirectoryKept)
    );
}

#[test]
fn a_directory_delete_waits_for_what_is_queued_below() {
    let step = continue_plan_directory_delete(plan("/r/d", "d"), &listing(&["d/a"]), Ok(2));
    assert_eq!(
        step,
        DirectoryStep::Plan(PlanStep::Done(PlanOutcome::Fail {
            failure: RetryFailureKind::Transient,
            message: "remote directory still holds 1 entry with 2 queued intent(s) underneath; waiting"
                .to_string(),
        }))
    );
    let step = continue_plan_directory_delete(plan("/r/d", "d"), &listing(&[]), Ok(2));
    assert_eq!(
        step,
        DirectoryStep::Plan(PlanStep::Done(PlanOutcome::RemoteDelete(plan("/r/d", "d"))))
    );
    let gone = ProbeResult {
        stat: None,
        content_hash: None,
        subtree: Some(Err(ProviderError {
            kind: ProviderErrorKind::NotFound,
            message: "gone".to_string(),
            retry: RetryFailureKind::Permanent,
        })),
    };
    assert_eq!(
        continue_plan_directory_delete(plan("/r/d", "d"), &gone, Ok(0)),
        DirectoryStep::Plan(PlanStep::Converged {
            path: FsPath::new("/r/d"),
            reason: NoopReason::RemoteDirectoryAbsent,
        })
    );
}

#[test]
fn a_failed_apply_puts_the_displaced_file_back() {
    let local = LocalStat::File { size_bytes: 3, modified_at: Some(at(1)) };
    let mut plan = plan("/r/doc.txt", "doc.txt");
    plan.staging_path = Some(FsPath::new("/r/.staged"));
    let aside = aside_path(&plan);
    let target = FsPath::new("/r/doc.txt");
    let move_in = || {
        PayloadNext::Ask(PayloadAsk::MoveIn { from: FsPath::new("/r/.staged"), to: target.clone() })
    };
    let free = |_: &FsPath| false;
    let start = |mode: SyncMode, index: Result<Option<SyncIndexEntry>, String>| {
        PayloadApply::start(&plan, "dev", at(42), mode, index, &local)
    };
    let (mut apply, next) = start(SyncMode::TwoWay, Ok(None));
    assert_eq!(
        next,
        PayloadNext::Ask(PayloadAsk::SetAside { from: target.clone(), to: aside.clone() })
    );
    assert_eq!(apply.after_set_aside(Reply::Done), move_in());
    assert_eq!(
        apply.after_move_in(Err("disk full".to_string()), None, free),
        PayloadNext::Failed {
            restore_aside: Some(aside.clone()),
            message: "local apply of downloaded payload failed: disk full".to_string(),
        }
    );
    assert_eq!(
        apply.after_hash(Err("io".to_string()), &"x".to_string(), free),
        PayloadNext::Failed {
            restore_aside: None,
            message: "cannot hash displaced local file: io".to_string(),
        }
    );
    let (_, next) = start(SyncMode::TwoWay, Err("locked".to_string()));
    assert_eq!(
        next,
        PayloadNext::Failed {
            restore_aside: None,
            message: "cannot read sync index: locked".to_string(),
        }
    );
    let (_, next) = start(SyncMode::PullOnly, Err("locked".to_string()));
    assert_eq!(next, move_in());
}

#[test]
fn diverged_content_goes_to_the_first_free_copy_and_is_queued() {
    let local = LocalStat::File { size_bytes: 3, modified_at: Some(at(1)) };
    let mut plan = plan("/r/doc.txt", "doc.txt");
    plan.staging_path = Some(FsPath::new("/r/.staged"));
    let (mut apply, _) = PayloadApply::start(
        &plan,
        "mbp",
        at(1_750_000_000_123),
        SyncMode::TwoWay,
        Ok(None),
        &local,
    );
    apply.after_set_aside(Reply::Done);
    let first = FsPath::new("/r/doc~conflict-mbp-1750000000123.txt");
    let second = FsPath::new("/r/doc~conflict-mbp-1750000000123-2.txt");
    let keep = |to: &FsPath| {
        PayloadNext::Ask(PayloadAsk::KeepCopy { from: aside_path(&plan), to: to.clone() })
    };
    assert_eq!(apply.after_move_in(Ok(()), Some(9), |_: &FsPath| false), keep(&first));
    assert_eq!(apply.after_move_in(Ok(()), Some(9), |c: &FsPath| *c == first), keep(&second));
    assert_eq!(
        apply.after_move_in(Ok(()), Some(3), |_: &FsPath| false),
        PayloadNext::Ask(PayloadAsk::HashAside { path: aside_path(&plan) })
    );
    assert_eq!(
        apply.after_hash(Ok(hash(b"old")), &hash(b"new"), |_: &FsPath| false),
        keep(&first)
    );
    assert_eq!(
        apply.after_hash(Ok(hash(b"new")), &hash(b"new"), |_: &FsPath| false),
        PayloadNext::Applied { drop_aside: Some(aside_path(&plan)) }
    );
    assert_eq!(
        apply.after_keep_copy(&first, Ok(())),
        (
            PayloadNext::Ask(PayloadAsk::QueueCopy {
                path: first.clone(),
                kind: PendingIntentKind::Upload,
            }),
            vec![Effect::RelocateTag { from: aside_path(&plan), to: first.clone() }],
        )
    );
    assert_eq!(apply.after_queue_copy(Ok(())), PayloadNext::KeptBoth);
}

#[test]
fn names_of_set_aside_files_and_copies_derive_from_the_intent() {
    assert_eq!(
        aside_path(&plan("/r/doc.txt", "doc.txt")).to_text(),
        "/r/.vapor-tmp-aside-dev-op7-a1-t9"
    );
    assert_eq!(conflict_timestamp(at(1_700_000_000_123)), 1_700_000_000_123);
    assert_eq!(conflict_timestamp(SystemTime { nanos: -5 }), 0);
}
