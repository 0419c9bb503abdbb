use std::collections::BTreeMap;

use vapor_daemon::app_state::{caps_for, DaemonApp};
use vapor_daemon::clock::{Duration, Instant, SystemTime};
use vapor_daemon::continuations::{
    after_expansion_queued, continue_apply_remote_delete, continue_download_move_check,
    continue_plan_delete, continue_plan_directory_delete, continue_plan_download,
    continue_plan_upload, deletion_loses_to_local_state, deletion_verdict_with_hash,
    expand_directory_delete, local_move_candidate, plan_move, DirectoryStep,
};
use vapor_daemon::effects::{Effect, TombstoneOrigin};
use vapor_daemon::event_intents::PendingIntentKind;
use vapor_daemon::executor::{stage_need, Directive, StageInput, StageNeed, StagedExecutor, StartDecision};
use vapor_daemon::hashing::hash_hex_of_bytes;
use vapor_daemon::local_apply::{
    after_discard, after_walk, apply_remote_delete_locally, aside_path, conflict_step, resolve_upload_conflict,
    discarded_child, first_ancestor, hashed_child, listed_child, verify_within_local_root,
    visit_child, ChildStep, ConflictAsk, ConflictNext, ContainmentStep, DirectoryWalk,
    PayloadApply, PayloadAsk, PayloadNext, RemovalStep, Reply, Resolved, WalkAsk,
};
use vapor_daemon::paths::FsPath;
use vapor_daemon::planner::{
    plan_intent, PendingPlan, PlanEnv, PlanFacts, PlanOutcome, PlanStep, TransferPlan,
    MOVE_SETTLE_DELAY_SECONDS,
};
use vapor_daemon::provider_jobs::{
    CompletedJob, ProbeResult, ProviderJobKind, ProviderJobOutcome, SubtreeListing,
    TransferOutcome, TransferPhase,
};
use vapor_daemon::records::{
    DurableIntentRecord, HashAlgorithm, LocalStat, ProviderError, ProviderErrorKind, RemoteEntry,
    RemoteEntryKind, RemotePrecondition, RetryFailureKind, SyncIndexEntry, SyncMode,
};
use vapor_daemon::routes::{
    complete, ActiveStage, GuardAnswer, HashAdvance, HashOpen, OutcomeFacts, PayloadResult, QueueAction,
    StagedExecutorReport, UploadFacts,
};
use vapor_daemon::settling::{
    after_preservation_queued, apply_local_move, guarded_deletion, record_remote_deletion,
    settle_converged, weighed_deletion, DeletionStep,
};
use vapor_daemon::workgate::{ThrottleState, ThrottleWorkgate};

fn hash(bytes: &[u8]) -> String {
    hash_hex_of_bytes(HashAlgorithm::Sha256, bytes)
}

fn timestamp_ms(milliseconds: u64) -> SystemTime {
    SystemTime::unix_epoch().plus(Duration::from_millis(milliseconds))
}

/// Past the settle window of a move.
fn fixture_now() -> SystemTime {
    timestamp_ms(MOVE_SETTLE_DELAY_SECONDS * 1_000 + 1_000)
}

struct LocalFile {
    bytes: Vec<u8>,
    modified_at: SystemTime,
}

struct CloudFile {
    bytes: Vec<u8>,
    modified_at: SystemTime,
    op_id: Option<String>,
    directory: bool,
}

/// A local root and a cloud root held in memory, with the executor between.
struct Fixture {
    sync_mode: SyncMode,
    local: BTreeMap<String, LocalFile>,
    fifos: Vec<String>,
    cloud: BTreeMap<String, CloudFile>,
    index: Vec<SyncIndexEntry>,
    queue: Vec<(FsPath, PendingIntentKind)>,
    settled: Vec<QueueAction>,
    executor: StagedExecutor,
    app: DaemonApp,
    gate: ThrottleWorkgate,
    vanishing_source: bool,
    next_id: i64,
    stages: Vec<String>,
    tombstones: Vec<(FsPath, TombstoneOrigin)>,
    tags: Vec<(FsPath, String)>,
    echoes: Vec<(FsPath, Option<String>, String)>,
    directories: Vec<String>,
    /// Links below the root and where they lead.
    links: BTreeMap<String, String>,
}

fn root() -> FsPath {
    FsPath::new("/sync")
}

impl Fixture {
    fn new() -> Fixture {
        Fixture {
            sync_mode: SyncMode::TwoWay,
            local: BTreeMap::new(),
            fifos: Vec::new(),
            cloud: BTreeMap::new(),
            index: Vec::new(),
            queue: Vec::new(),
            settled: Vec::new(),
            executor: StagedExecutor::new(),
            app: DaemonApp::new(),
            gate: ThrottleWorkgate::new(ThrottleState::Light, caps_for(ThrottleState::Light)),
            vanishing_source: false,
            next_id: 1,
            stages: Vec::new(),
            tombstones: Vec::new(),
            tags: Vec::new(),
            echoes: Vec::new(),
            directories: Vec::new(),
            links: BTreeMap::new(),
        }
    }

    fn write_local(&mut self, path: &FsPath, bytes: &[u8]) {
        self.local.insert(
            path.to_text(),
            LocalFile { bytes: bytes.to_vec(), modified_at: timestamp_ms(500) },
        );
    }

    fn write_cloud(&mut self, path: &str, bytes: &[u8], op_id: Option<&str>) {
        self.cloud.insert(
            path.to_string(),
            CloudFile {
                bytes: bytes.to_vec(),
                modified_at: timestamp_ms(700),
                op_id: op_id.map(|id| id.to_string()),
                directory: false,
            },
        );
    }

    fn cloud_bytes(&self, path: &str) -> Option<&[u8]> {
        self.cloud.get(path).map(|file| file.bytes.as_slice())
    }

    fn local_bytes(&self, path: &FsPath) -> Option<&[u8]> {
        self.local.get(&path.to_text()).map(|file| file.bytes.as_slice())
    }

    fn seed_index(
        &mut self,
        path: &FsPath,
        bytes: &[u8],
        local_modified_at: Option<SystemTime>,
        remote_modified_at: Option<SystemTime>,
        op_id: &str,
    ) {
        self.index.push(SyncIndexEntry {
            path: path.clone(),
            content_hash: hash(bytes),
            size_bytes: bytes.len() as u64,
            local_modified_at,
            remote_modified_at,
            last_op_id: op_id.to_string(),
            updated_at: timestamp_ms(0),
        });
    }

    fn row(&self, path: &FsPath) -> Option<SyncIndexEntry> {
        self.index.iter().find(|row| row.path == *path).map(|row| SyncIndexEntry {
            path: row.path.clone(),
            content_hash: row.content_hash.clone(),
            size_bytes: row.size_bytes,
            local_modified_at: row.local_modified_at,
            remote_modified_at: row.remote_modified_at,
            last_op_id: row.last_op_id.clone(),
            updated_at: row.updated_at,
        })
    }

    fn intent(&mut self, path: &FsPath, kind: PendingIntentKind) -> DurableIntentRecord {
        let id = self.next_id;
        self.next_id += 1;
        DurableIntentRecord {
            id,
            path: path.clone(),
            kind,
            // A deletion has already waited out its settle window.
            attempt_count: match kind {
                PendingIntentKind::Delete | PendingIntentKind::ApplyRemoteDelete => 1,
                _ => 0,
            },
            enqueued_at: timestamp_ms(0),
            approved: true,
            remote_path: None,
            last_error: None,
        }
    }

    fn stat(&self, path: &FsPath) -> LocalStat {
        let text = path.to_text();
        if self.fifos.contains(&text) {
            return LocalStat::Special;
        }
        if self.directories.contains(&text) {
            return LocalStat::Directory;
        }
        match self.local.get(&text) {
            Some(file) => LocalStat::File {
                size_bytes: file.bytes.len() as u64,
                modified_at: Some(file.modified_at),
            },
            None => LocalStat::Missing,
        }
    }

    fn state(&self, path: &FsPath) -> Option<(u64, Option<SystemTime>)> {
        self.local
            .get(&path.to_text())
            .map(|file| (file.bytes.len() as u64, Some(file.modified_at)))
    }

    fn remote_name(&self, path: &FsPath) -> String {
        path.strip_prefix(&root()).expect("inside the root").to_text()
    }

    fn entry(&self, path: &str) -> Option<RemoteEntry> {
        self.cloud.get(path).map(|file| RemoteEntry {
            path: path.to_string(),
            kind: if file.directory { RemoteEntryKind::Directory } else { RemoteEntryKind::File },
            size_bytes: file.bytes.len() as u64,
            modified_at: file.modified_at,
            content_hash: None,
            op_id: file.op_id.clone(),
        })
    }

    fn apply_effects(&mut self, effects: Vec<Effect>) {
        for effect in effects {
            match effect {
                Effect::RemoveSyncIndex { path } => self.index.retain(|row| row.path != path),
                Effect::SetSyncIndex {
                    path,
                    content_hash,
                    size_bytes,
                    local_modified_at,
                    remote_modified_at,
                    last_op_id,
                } => {
                    self.index.retain(|row| row.path != path);
                    self.index.push(SyncIndexEntry {
                        path,
                        content_hash,
                        size_bytes,
                        local_modified_at,
                        remote_modified_at,
                        last_op_id,
                        updated_at: fixture_now(),
                    });
                }
                Effect::Enqueue { path, kind } => self.queue.push((path, kind)),
                Effect::RecordTombstone { path, origin } => self.tombstones.push((path, origin)),
                Effect::WriteTag { path, op_id } => self.tags.push((path, op_id)),
                Effect::EchoLocalWrite { path, op_id, content_hash, .. } => {
                    self.echoes.push((path, op_id, content_hash))
                }
                Effect::RemoveTag { path } => self.tags.retain(|tag| tag.0 != path),
                Effect::RemoveFile { path } => {
                    self.local.remove(&path.to_text());
                }
                _ => {}
            }
        }
    }

    fn plan_facts(&self, intent: &DurableIntentRecord) -> PlanFacts {
        PlanFacts {
            alias: Ok(None),
            checked_alias: Err("no alias".to_string()),
            mirror: Some(self.remote_name(&intent.path)),
            local: self.stat(&intent.path),
            containment: self.containment(&intent.path),
            index: Ok(self.row(&intent.path)),
            other_half_queued: false,
        }
    }

    /// Where a local path really is.
    fn resolved(&self, path: &FsPath) -> Resolved {
        let text = path.to_text();
        if let Some(target) = self.links.get(&text) {
            return Resolved::Real(FsPath::new(target));
        }
        if path.same(&root()) || self.directories.contains(&text) {
            return Resolved::Real(path.clone());
        }
        Resolved::Missing
    }

    fn containment(&self, target: &FsPath) -> Result<(), String> {
        let mut ancestor = first_ancestor(&root(), target);
        loop {
            let resolved = self.resolved(&ancestor);
            match verify_within_local_root(&root(), &root(), target, &ancestor, resolved) {
                ContainmentStep::Inside => return Ok(()),
                ContainmentStep::Refused(message) => return Err(message),
                ContainmentStep::Try(next) => ancestor = next,
            }
        }
    }

    /// Expands the delete of a directory the cloud still holds.
    fn delete_directory(&mut self, plan: TransferPlan, probe: &ProbeResult) -> PlanOutcome {
        let below = self
            .queue
            .iter()
            .filter(|(path, _)| path.starts_with(&plan.local_path) && *path != plan.local_path)
            .count();
        match continue_plan_directory_delete(plan, probe, Ok(below)) {
            DirectoryStep::Plan(step) => {
                let path = root();
                self.settle_plan(&path, step, None, None)
            }
            DirectoryStep::Expand { plan, candidates } => {
                let present: Vec<bool> =
                    candidates.iter().map(|path| self.stat(path).present()).collect();
                let batch = expand_directory_delete(&plan.local_path, candidates, &present);
                let outcome = after_expansion_queued(batch.len(), Ok(()));
                for path in batch {
                    self.queue.push((path, PendingIntentKind::Delete));
                }
                outcome
            }
        }
    }

    fn children(&self, directory: &FsPath) -> Vec<FsPath> {
        let mut names: Vec<String> = self.local.keys().cloned().collect();
        names.extend(self.directories.iter().cloned());
        names.sort();
        names
            .iter()
            .map(|name| FsPath::new(name))
            .filter(|path| path.parent().as_ref() == Some(directory))
            .collect()
    }

    fn remove_directory(&mut self, directory: &FsPath) -> Reply {
        if !self.children(directory).is_empty() {
            return Reply::Failed("directory not empty".to_string());
        }
        let text = directory.to_text();
        self.directories.retain(|name| *name != text);
        Reply::Done
    }

    fn walk(&mut self, directory: &FsPath) -> PlanOutcome {
        let mut walk = DirectoryWalk::start(directory.clone(), self.children(directory));
        let all = loop {
            match walk.next() {
                WalkAsk::Finished(all) => break all,
                WalkAsk::RemoveDirectory(emptied) => {
                    let reply = self.remove_directory(&emptied);
                    let effects = walk.directory_settled(&emptied, &reply);
                    self.apply_effects(effects);
                }
                WalkAsk::Visit(child) => {
                    let mut step = visit_child(&child, &self.stat(&child), Ok(self.row(&child)));
                    loop {
                        step = match step {
                            ChildStep::Settled { settled, effects } => {
                                self.apply_effects(effects);
                                walk.settle(child, settled);
                                break;
                            }
                            ChildStep::List => listed_child(Ok(self.children(&child))),
                            ChildStep::Discard => {
                                self.local.remove(&child.to_text());
                                discarded_child(&child, Reply::Done)
                            }
                            ChildStep::Hash(row) => {
                                let found = hash(self.local_bytes(&child).expect("present"));
                                hashed_child(&child, &row, Ok(found))
                            }
                            ChildStep::Failed(message) => panic!("{message}"),
                        };
                    }
                }
            }
        };
        let reply = if all { self.remove_directory(directory) } else { Reply::Missing };
        let (outcome, effects) = after_walk(directory, Ok(all), reply);
        self.apply_effects(effects);
        outcome
    }

    fn settle_plan(
        &mut self,
        intent_path: &FsPath,
        step: PlanStep,
        found: Option<RemoteEntry>,
        probe: Option<&ProbeResult>,
    ) -> PlanOutcome {
        match step {
            PlanStep::Done(outcome) => outcome,
            PlanStep::Converged { path, reason } => {
                let (outcome, effects) = settle_converged(&path, reason);
                self.apply_effects(effects);
                outcome
            }
            PlanStep::PreserveRemote(plan) => {
                self.queue.push((plan.local_path.clone(), PendingIntentKind::Download));
                let (outcome, effects) = after_preservation_queued(&plan.local_path, Ok(()));
                self.apply_effects(effects);
                outcome
            }
            PlanStep::SeekMoveSource(plan) => {
                let entry = found.expect("the remote object was found");
                let mut rows = Vec::new();
                for row in &self.index {
                    if row.size_bytes == entry.size_bytes
                        && row.remote_modified_at == Some(entry.modified_at)
                    {
                        rows.push((copy_row(row), self.stat(&row.path)));
                    }
                }
                match local_move_candidate(&plan.local_path, rows) {
                    Some(candidate) => {
                        let step = plan_move(plan, &entry, candidate);
                        self.settle_plan(intent_path, step, None, None)
                    }
                    None => PlanOutcome::Download(plan),
                }
            }
            PlanStep::MoveLocally { plan, source, remote_modified_at } => {
                let renamed = match self.local.remove(&source.path.to_text()) {
                    Some(file) => {
                        self.local.insert(plan.local_path.to_text(), file);
                        true
                    }
                    None => false,
                };
                let current = self.state(&plan.local_path);
                let (outcome, effects) =
                    apply_local_move(plan, &source, remote_modified_at, renamed, current);
                self.apply_effects(effects);
                outcome
            }
            PlanStep::InspectDirectory(plan) => {
                self.delete_directory(plan, probe.expect("the probe is back"))
            }
            PlanStep::RemoveLocally => {
                let outcome = self.remove_locally(intent_path);
                let effects = record_remote_deletion(intent_path, &outcome);
                self.apply_effects(effects);
                outcome
            }
            PlanStep::GuardLocalDeletion => {
                let local = self.stat(intent_path);
                let verdict =
                    deletion_loses_to_local_state(&local, Ok(self.row(intent_path)), fixture_now());
                let mut step = weighed_deletion(verdict, &local);
                loop {
                    step = match step {
                        DeletionStep::Done(outcome) => return outcome,
                        DeletionStep::HashFile(row) => {
                            let bytes = self.local_bytes(intent_path).expect("present").to_vec();
                            weighed_deletion(
                                deletion_verdict_with_hash(&row, Ok(hash(&bytes))),
                                &local,
                            )
                        }
                        DeletionStep::AskGuard => guarded_deletion(Ok(GuardAnswer::Pass)),
                        DeletionStep::Remove => {
                            let outcome = self.remove_locally(intent_path);
                            let effects = record_remote_deletion(intent_path, &outcome);
                            self.apply_effects(effects);
                            return outcome;
                        }
                    }
                }
            }
        }
    }

    fn remove_locally(&mut self, path: &FsPath) -> PlanOutcome {
        match apply_remote_delete_locally(self.sync_mode, &self.stat(path)) {
            RemovalStep::Done(outcome) => outcome,
            RemovalStep::Discard { directory } => {
                self.local.remove(&path.to_text());
                let (outcome, effects) = after_discard(directory, path, Reply::Done);
                self.apply_effects(effects);
                outcome
            }
            RemovalStep::WalkDirectory => self.walk(path),
        }
    }

    fn run_job(&mut self, job: ProviderJobKind) -> ProviderJobOutcome {
        match job {
            ProviderJobKind::Probe(request) => {
                let stat = if request.want_stat {
                    Some(Ok(self.entry(&request.remote_path)))
                } else {
                    None
                };
                let content_hash = if request.wants_hash(&stat) {
                    Some(Ok(hash(self.cloud_bytes(&request.remote_path).unwrap_or(b""))))
                } else {
                    None
                };
                let subtree = if request.wants_listing(&stat) {
                    let mut listing = SubtreeListing::start(request.remote_path.clone());
                    while let Some(directory) = listing.next_directory() {
                        listing.add(self.cloud_children(&directory));
                    }
                    Some(Ok(listing.finish()))
                } else {
                    None
                };
                ProviderJobOutcome::Probe(ProbeResult { stat, content_hash, subtree })
            }
            ProviderJobKind::RemoteDelete { remote_path, .. } => {
                self.cloud.remove(&remote_path);
                ProviderJobOutcome::RemoteDelete(Ok(()))
            }
            ProviderJobKind::Upload(request) => {
                if self.vanishing_source {
                    self.local.remove(&request.local_source.to_text());
                }
                let bytes = match self.local_bytes(&request.local_source) {
                    Some(bytes) => bytes.to_vec(),
                    None => {
                        return ProviderJobOutcome::TransferFailed {
                            error: provider_error(ProviderErrorKind::NotFound),
                            phase: TransferPhase::Begin,
                        }
                    }
                };
                let current = self.cloud_bytes(&request.remote_path).map(hash);
                let allowed = match &request.precondition {
                    RemotePrecondition::Unconditional => true,
                    RemotePrecondition::Absent => current.is_none(),
                    RemotePrecondition::HashEquals(expected) => current.as_ref() == Some(expected),
                };
                if !allowed {
                    return ProviderJobOutcome::TransferFailed {
                        error: provider_error(ProviderErrorKind::PreconditionFailed),
                        phase: TransferPhase::Begin,
                    };
                }
                self.write_cloud(&request.remote_path, &bytes, Some(request.op_id.as_str()));
                ProviderJobOutcome::TransferCompleted(TransferOutcome {
                    content_hash: hash(&bytes),
                    bytes_total: bytes.len() as u64,
                    remote_modified_at: Some(timestamp_ms(700)),
                })
            }
            ProviderJobKind::Download(request) => {
                let file = match self.cloud.get(&request.remote_path) {
                    Some(file) if !file.directory => file,
                    _ => {
                        return ProviderJobOutcome::TransferFailed {
                            error: provider_error(ProviderErrorKind::Transient),
                            phase: TransferPhase::Step,
                        }
                    }
                };
                let bytes = file.bytes.clone();
                let modified_at = file.modified_at;
                self.write_local(&request.destination, &bytes);
                ProviderJobOutcome::TransferCompleted(TransferOutcome {
                    content_hash: hash(&bytes),
                    bytes_total: bytes.len() as u64,
                    remote_modified_at: Some(modified_at),
                })
            }
            other => panic!("unexpected job {other:?}"),
        }
    }

    fn cloud_children(&self, directory: &str) -> Vec<RemoteEntry> {
        let prefix = format!("{directory}/");
        self.cloud
            .keys()
            .filter(|name| name.starts_with(&prefix) && !name[prefix.len()..].contains('/'))
            .filter_map(|name| self.entry(name))
            .collect()
    }

    fn cloud_directory(&mut self, path: &str) {
        self.cloud.insert(
            path.to_string(),
            CloudFile {
                bytes: Vec::new(),
                modified_at: timestamp_ms(700),
                op_id: None,
                directory: true,
            },
        );
    }

    fn keep_both(&mut self, path: &FsPath) -> PlanOutcome {
        let (resolution, mut ask) = {
            let taken = |candidate: &FsPath| self.local.contains_key(&candidate.to_text());
            resolve_upload_conflict(path, "testdev", timestamp_ms(42), taken)
        };
        loop {
            let reply = match &ask {
                ConflictAsk::QueueRestore { path, kind } | ConflictAsk::QueueCopy { path, kind } => {
                    self.queue.push((path.clone(), *kind));
                    Reply::Done
                }
                ConflictAsk::RenameLoser { from, to } => match self.local.remove(&from.to_text()) {
                    Some(file) => {
                        self.local.insert(to.to_text(), file);
                        Reply::Done
                    }
                    None => Reply::Missing,
                },
            };
            match conflict_step(&resolution, ask, reply) {
                ConflictNext::Ask { ask: next, effects } => {
                    self.apply_effects(effects);
                    ask = next;
                }
                ConflictNext::Done(outcome) => return outcome,
            }
        }
    }

    fn apply_payload(&mut self, plan: &TransferPlan, outcome: &TransferOutcome) -> PayloadResult {
        let target = plan.local_path.clone();
        let (mut apply, mut next) = PayloadApply::start(
            plan,
            "testdev",
            timestamp_ms(42),
            self.sync_mode,
            Ok(self.row(&target)),
            &self.stat(&target),
        );
        loop {
            next = match next {
                PayloadNext::Ask(PayloadAsk::SetAside { from, to }) => {
                    assert_eq!(from, target);
                    assert_eq!(to, aside_path(plan));
                    let file = self.local.remove(&from.to_text()).expect("present");
                    self.local.insert(to.to_text(), file);
                    apply.after_set_aside(Reply::Done)
                }
                PayloadNext::Ask(PayloadAsk::MoveIn { from, to }) => {
                    let file = self.local.remove(&from.to_text()).expect("staged");
                    let size = file.bytes.len() as u64;
                    self.local.insert(to.to_text(), file);
                    let taken = |candidate: &FsPath| self.local.contains_key(&candidate.to_text());
                    apply.after_move_in(Ok(()), Some(size), taken)
                }
                PayloadNext::Ask(PayloadAsk::HashAside { path }) => {
                    let bytes = self.local_bytes(&path).expect("aside").to_vec();
                    let taken = |candidate: &FsPath| self.local.contains_key(&candidate.to_text());
                    apply.after_hash(Ok(hash(&bytes)), &outcome.content_hash, taken)
                }
                PayloadNext::Ask(PayloadAsk::KeepCopy { from, to }) => {
                    let file = self.local.remove(&from.to_text()).expect("aside");
                    self.local.insert(to.to_text(), file);
                    let (next, effects) = apply.after_keep_copy(&to, Ok(()));
                    self.apply_effects(effects);
                    next
                }
                PayloadNext::Ask(PayloadAsk::QueueCopy { path, kind }) => {
                    self.queue.push((path, kind));
                    apply.after_queue_copy(Ok(()))
                }
                PayloadNext::Applied { drop_aside } => {
                    if let Some(aside) = drop_aside {
                        self.local.remove(&aside.to_text());
                    }
                    return PayloadResult::Applied { conflict: false, current: self.state(&target) };
                }
                PayloadNext::KeptBoth => {
                    return PayloadResult::Applied { conflict: true, current: self.state(&target) };
                }
                PayloadNext::Failed { message, .. } => return PayloadResult::Failed(message),
            };
        }
    }

    /// What the stage of the execution asks for.
    fn answer(&mut self, id: i64) -> Option<StageInput> {
        let caps = self.gate.caps();
        let (need, path, intent) = {
            let execution = self.executor.execution(id).expect("active");
            self.stages.push(format!("{:?}", execution.stage_name()));
            (
                stage_need(&execution.stage, caps),
                execution.intent.path.clone(),
                copy_intent(&execution.intent),
            )
        };
        Some(match need {
            StageNeed::Plan => {
                let env = PlanEnv {
                    local_root: Some(root()),
                    sync_mode: self.sync_mode,
                    device_id: "testdev".to_string(),
                };
                let step = plan_intent(&env, &intent, self.plan_facts(&intent), fixture_now());
                StageInput::Planned(self.settle_plan(&path, step, None, None))
            }
            StageNeed::Continue => {
                let (step, found, probe) = {
                    let execution = self.executor.execution(id).expect("active");
                    let (pending, probe) = match &execution.stage {
                        ActiveStage::Continuing { pending, probe } => (pending, probe),
                        other => panic!("unexpected stage {other:?}"),
                    };
                    let found = probe.found().map(copy_entry);
                    let step = match pending {
                        PendingPlan::Upload { plan, index } => PlanStep::Done(continue_plan_upload(
                            copy_plan(plan),
                            index.as_ref().map(copy_row),
                            probe,
                        )),
                        PendingPlan::Delete { plan, index } => {
                            continue_plan_delete(copy_plan(plan), index.as_ref().map(copy_row), probe)
                        }
                        PendingPlan::Download { plan } => continue_plan_download(
                            self.sync_mode,
                            copy_plan(plan),
                            probe,
                            &self.stat(&path),
                        ),
                        PendingPlan::DownloadMoveCheck { plan, candidate } => {
                            continue_download_move_check(copy_plan(plan), copy_row(candidate), probe)
                        }
                        PendingPlan::ApplyRemoteDelete => continue_apply_remote_delete(probe),
                    };
                    (step, found, copy_probe(probe))
                };
                StageInput::Continued(self.settle_plan(&path, step, found, Some(&probe)))
            }
            StageNeed::OpenForHash => StageInput::HashOpened(match self.local.contains_key(&path.to_text()) {
                true => HashOpen::Opened(self.state(&path)),
                false => HashOpen::Missing,
            }),
            StageNeed::StepHash => StageInput::HashStepped(match self.local_bytes(&path) {
                Some(bytes) => HashAdvance::Finished(hash(bytes)),
                None => HashAdvance::Missing,
            }),
            StageNeed::AdmitUpload => StageInput::UploadAdmitted(UploadFacts {
                indexed_remote_time: self.row(&path).and_then(|row| row.remote_modified_at),
                current: self.state(&path),
                move_source: None,
                move_from: None,
            }),
            StageNeed::AskGuard => StageInput::GuardAnswered(GuardAnswer::Pass),
            StageNeed::KeepBoth => StageInput::ConflictSettled(self.keep_both(&path)),
            StageNeed::ApplyPayload => {
                let (plan, outcome) = match &self.executor.execution(id).expect("active").stage {
                    ActiveStage::ApplyingDownload { plan, outcome } => (
                        copy_plan(plan),
                        TransferOutcome {
                            content_hash: outcome.content_hash.clone(),
                            bytes_total: outcome.bytes_total,
                            remote_modified_at: outcome.remote_modified_at,
                        },
                    ),
                    other => panic!("unexpected stage {other:?}"),
                };
                StageInput::PayloadApplied(self.apply_payload(&plan, &outcome))
            }
            StageNeed::RemoveMirror => StageInput::MirrorRemoved(self.remove_locally(&path)),
            StageNeed::Tick => StageInput::Tick,
            StageNeed::Nothing => return None,
        })
    }

    fn throttle(&mut self, state: ThrottleState) {
        self.app.set_throttle_state(&mut self.gate, state, String::new(), fixture_now());
    }

    fn start(&mut self, intent: DurableIntentRecord) -> StartDecision {
        let now = Instant { nanos: 0 };
        self.executor.try_start(&mut self.app, &mut self.gate, intent, fixture_now(), now)
    }

    /// Runs one intent until its row is settled or nothing moves any more.
    fn run(&mut self, intent: DurableIntentRecord) -> StagedExecutorReport {
        let id = intent.id;
        let path = intent.path.clone();
        let now = Instant { nanos: 0 };
        assert_eq!(self.start(intent), StartDecision::Started);
        let mut report = StagedExecutorReport::default();
        let mut pending: Option<StageInput> = None;
        for _ in 0..64 {
            let input = match pending.take() {
                Some(input) => input,
                None => match self.answer(id) {
                    Some(input) => input,
                    None => break,
                },
            };
            let directive = self.executor.advance_one(
                &mut self.app,
                &mut self.gate,
                id,
                input,
                self.sync_mode,
                fixture_now(),
                fixture_now(),
                now,
                &mut report,
            );
            match directive {
                Directive::GoOn { .. } => {}
                Directive::Dispatch { job, generation } => {
                    let outcome = self.run_job(job);
                    let (mut harvested, aborted) = self.executor.harvest_jobs(vec![CompletedJob {
                        intent_id: id,
                        outcome,
                        generation,
                    }]);
                    assert!(aborted.is_empty());
                    let done = harvested.pop().expect("harvested");
                    let moved_from = String::new();
                    pending = Some(StageInput::JobDone {
                        outcome: done.outcome,
                        facts: OutcomeFacts {
                            local: self.stat(&path),
                            current: self.state(&path),
                            source_missing: !self.local.contains_key(&path.to_text()),
                            moved_from,
                        },
                    });
                }
                Directive::Settle { action, effects, .. } => {
                    self.apply_effects(effects);
                    if let QueueAction::FollowUp(kind) = &action {
                        self.queue.push((path.clone(), *kind));
                    }
                    if matches!(action, QueueAction::Complete | QueueAction::FollowUp(_)) {
                        complete(&mut report, true);
                    }
                    self.settled.push(action);
                    break;
                }
                Directive::NotActive { .. } => panic!("the execution is active"),
            }
        }
        report
    }

    fn conflict_copies(&self) -> Vec<&String> {
        self.local.keys().filter(|name| name.contains("~conflict-")).collect()
    }
}

fn provider_error(kind: ProviderErrorKind) -> ProviderError {
    ProviderError {
        kind,
        message: "provider says no".to_string(),
        retry: match kind {
            ProviderErrorKind::Transient => RetryFailureKind::Transient,
            _ => RetryFailureKind::Permanent,
        },
    }
}

fn copy_entry(entry: &RemoteEntry) -> RemoteEntry {
    RemoteEntry {
        path: entry.path.clone(),
        kind: entry.kind,
        size_bytes: entry.size_bytes,
        modified_at: entry.modified_at,
        content_hash: entry.content_hash.clone(),
        op_id: entry.op_id.clone(),
    }
}

/// The part of a probe that a directory delete goes by.
fn copy_probe(probe: &ProbeResult) -> ProbeResult {
    ProbeResult {
        stat: None,
        content_hash: None,
        subtree: match &probe.subtree {
            Some(Ok(entries)) => Some(Ok(entries.iter().map(copy_entry).collect())),
            _ => None,
        },
    }
}

fn copy_row(row: &SyncIndexEntry) -> SyncIndexEntry {
    SyncIndexEntry {
        path: row.path.clone(),
        content_hash: row.content_hash.clone(),
        size_bytes: row.size_bytes,
        local_modified_at: row.local_modified_at,
        remote_modified_at: row.remote_modified_at,
        last_op_id: row.last_op_id.clone(),
        updated_at: row.updated_at,
    }
}

fn copy_plan(plan: &TransferPlan) -> TransferPlan {
    TransferPlan {
        remote_path: plan.remote_path.clone(),
        op_id: plan.op_id.clone(),
        local_path: plan.local_path.clone(),
        staging_path: plan.staging_path.clone(),
        content_hash: plan.content_hash.clone(),
        precondition: plan.precondition.clone(),
        verify_remote_before_upload: plan.verify_remote_before_upload,
        last_synced_hash: plan.last_synced_hash.clone(),
        hashed_local_state: plan.hashed_local_state,
        remote_op_id: plan.remote_op_id.clone(),
    }
}

fn copy_intent(intent: &DurableIntentRecord) -> DurableIntentRecord {
    DurableIntentRecord {
        id: intent.id,
        path: intent.path.clone(),
        kind: intent.kind,
        attempt_count: intent.attempt_count,
        enqueued_at: intent.enqueued_at,
        approved: intent.approved,
        remote_path: intent.remote_path.clone(),
        last_error: intent.last_error.clone(),
    }
}

#[test]
fn upload_intent_copies_real_bytes_to_the_provider() {
    let mut fixture = Fixture::new();
    let file = root().join("docs/report.md");
    fixture.write_local(&file, b"real payload");
    let intent = fixture.intent(&file, PendingIntentKind::Upload);
    let report = fixture.run(intent);

    assert_eq!(report.completed, 1);
    assert_eq!(report.failed, 0);
    assert_eq!(
        fixture.cloud_bytes("docs/report.md"),
        Some(b"real payload".as_slice())
    );
    let row = fixture.row(&file).expect("indexed");
    assert_eq!(row.content_hash, hash(b"real payload"));
    assert_eq!(row.local_modified_at, Some(timestamp_ms(500)));
    assert_eq!(fixture.executor.snapshot().active_total, 0);
    assert_eq!(fixture.gate.snapshot().active_uploads, 0);
    assert!(fixture.stages.contains(&"Hash".to_string()));
}

#[test]
fn delete_intent_removes_the_remote_object() {
    let mut fixture = Fixture::new();
    let file = root().join("a.txt");
    fixture.write_cloud("a.txt", b"remote copy", None);
    let intent = fixture.intent(&file, PendingIntentKind::Delete);
    let report = fixture.run(intent);

    assert_eq!(report.completed, 1);
    assert_eq!(fixture.cloud_bytes("a.txt"), None);
}

#[test]
fn delete_of_already_missing_remote_completes_as_convergence() {
    let mut fixture = Fixture::new();
    let file = root().join("never-uploaded.txt");
    let intent = fixture.intent(&file, PendingIntentKind::Delete);
    let report = fixture.run(intent);

    assert_eq!(report.completed, 1);
    assert_eq!(report.failed, 0);
}

#[test]
fn local_delete_refused_when_remote_diverged_and_enqueues_download() {
    let mut fixture = Fixture::new();
    let file = root().join("shared.txt");
    fixture.seed_index(&file, b"v1", None, None, "op-mine");
    fixture.write_cloud("shared.txt", b"v2-from-other-device", None);
    let intent = fixture.intent(&file, PendingIntentKind::Delete);
    let report = fixture.run(intent);

    assert_eq!(report.completed, 1);
    assert_eq!(
        fixture.cloud_bytes("shared.txt"),
        Some(b"v2-from-other-device".as_slice())
    );
    assert_eq!(
        fixture.queue,
        vec![(file, PendingIntentKind::Download)],
        "the newer content is fetched"
    );
}

#[test]
fn download_apply_keeps_both_when_local_diverged() {
    let mut fixture = Fixture::new();
    let file = root().join("doc.txt");
    fixture.write_cloud("doc.txt", b"remote version", None);
    fixture.write_local(&file, b"local edit");
    let intent = fixture.intent(&file, PendingIntentKind::Download);
    let report = fixture.run(intent);

    assert_eq!(report.completed, 1);
    assert_eq!(report.conflicts, 1);
    assert_eq!(fixture.local_bytes(&file), Some(b"remote version".as_slice()));
    let copies = fixture.conflict_copies();
    assert_eq!(copies.len(), 1, "a conflict copy was created");
    assert_eq!(fixture.local[copies[0]].bytes, b"local edit");
}

#[test]
fn download_records_the_remote_objects_op_id_in_the_sync_index() {
    let mut fixture = Fixture::new();
    let file = root().join("new.txt");
    fixture.write_cloud("new.txt", b"from the cloud", Some("op-remote"));
    let intent = fixture.intent(&file, PendingIntentKind::Download);
    let report = fixture.run(intent);

    assert_eq!(report.completed, 1);
    assert_eq!(fixture.local_bytes(&file), Some(b"from the cloud".as_slice()));
    let row = fixture.row(&file).expect("indexed");
    assert_eq!(row.last_op_id, "op-remote");
    assert_eq!(row.content_hash, hash(b"from the cloud"));
    assert_eq!(fixture.local.len(), 1, "no staging file survives");
}

#[test]
fn apply_remote_delete_removes_local_file_and_records_echo() {
    let mut fixture = Fixture::new();
    let file = root().join("gone.txt");
    fixture.write_local(&file, b"stale");
    fixture.seed_index(&file, b"stale", Some(timestamp_ms(500)), None, "op-past");
    let intent = fixture.intent(&file, PendingIntentKind::ApplyRemoteDelete);
    let report = fixture.run(intent);

    assert_eq!(report.completed, 1);
    assert_eq!(fixture.local_bytes(&file), None);
    assert_eq!(fixture.tombstones, vec![(file.clone(), TombstoneOrigin::Remote)]);
    assert_eq!(fixture.row(&file), None);
}

#[test]
fn an_unsynced_local_file_survives_a_remote_deletion() {
    let mut fixture = Fixture::new();
    let file = root().join("mine.txt");
    fixture.write_local(&file, b"never synced");
    let intent = fixture.intent(&file, PendingIntentKind::ApplyRemoteDelete);
    let report = fixture.run(intent);

    assert_eq!(report.completed, 1);
    assert_eq!(fixture.local_bytes(&file), Some(b"never synced".as_slice()));
}

#[test]
fn upload_over_untagged_remote_matching_the_index_overwrites_without_conflict() {
    let mut fixture = Fixture::new();
    let file = root().join("doc.txt");
    fixture.write_local(&file, b"local edit v2");
    fixture.write_cloud("doc.txt", b"external content", None);
    fixture.seed_index(
        &file,
        b"external content",
        Some(timestamp_ms(500)),
        None,
        "op-of-the-download",
    );
    let intent = fixture.intent(&file, PendingIntentKind::Upload);
    let report = fixture.run(intent);

    assert_eq!(report.completed, 1);
    assert_eq!(report.conflicts, 0, "no keep-both copy may be created");
    assert_eq!(fixture.cloud_bytes("doc.txt"), Some(b"local edit v2".as_slice()));
    assert!(fixture.conflict_copies().is_empty());
}

#[test]
fn upload_of_an_untouched_local_over_a_changed_remote_becomes_a_download() {
    let mut fixture = Fixture::new();
    let file = root().join("doc.txt");
    fixture.write_local(&file, b"last synced");
    fixture.write_cloud("doc.txt", b"edited in the cloud", None);
    fixture.seed_index(&file, b"last synced", None, None, "op-old");
    let intent = fixture.intent(&file, PendingIntentKind::Upload);
    let report = fixture.run(intent);

    assert_eq!(report.completed, 1);
    assert_eq!(report.conflicts, 0);
    assert_eq!(
        fixture.cloud_bytes("doc.txt"),
        Some(b"edited in the cloud".as_slice()),
        "the remote edit must survive"
    );
    assert_eq!(fixture.queue, vec![(file, PendingIntentKind::Download)]);
}

#[test]
fn local_delete_is_refused_when_the_remote_was_edited_in_place_keeping_its_tag() {
    let mut fixture = Fixture::new();
    let file = root().join("doc.txt");
    fixture.seed_index(&file, b"last synced", None, Some(timestamp_ms(1_000)), "op-ours");
    fixture.write_cloud("doc.txt", b"cloud  edit", Some("op-ours"));
    let intent = fixture.intent(&file, PendingIntentKind::Delete);
    let report = fixture.run(intent);

    assert_eq!(report.completed, 1);
    assert_eq!(
        fixture.cloud_bytes("doc.txt"),
        Some(b"cloud  edit".as_slice()),
        "the edited remote survives the stale delete"
    );
    assert_eq!(fixture.queue, vec![(file, PendingIntentKind::Download)]);
}

#[test]
fn upload_with_a_tag_preserving_in_place_remote_edit_is_not_a_blind_overwrite() {
    let mut fixture = Fixture::new();
    let file = root().join("doc.txt");
    fixture.write_local(&file, b"last synced");
    fixture.seed_index(&file, b"last synced", None, Some(timestamp_ms(1_000)), "op-ours");
    fixture.write_cloud("doc.txt", b"cloud  edit", Some("op-ours"));
    let intent = fixture.intent(&file, PendingIntentKind::Upload);
    let report = fixture.run(intent);

    assert_eq!(report.completed, 1);
    assert_eq!(report.conflicts, 0);
    assert_eq!(
        fixture.cloud_bytes("doc.txt"),
        Some(b"cloud  edit".as_slice()),
        "the remote edit must survive"
    );
    assert_eq!(fixture.queue, vec![(file, PendingIntentKind::Download)]);
}

#[test]
fn a_lost_upload_race_keeps_both_versions() {
    let mut fixture = Fixture::new();
    let file = root().join("doc.txt");
    fixture.write_local(&file, b"local edit");
    fixture.write_cloud("doc.txt", b"cloud edit", None);
    fixture.seed_index(&file, b"common base", None, None, "op-old");
    let intent = fixture.intent(&file, PendingIntentKind::Upload);
    let report = fixture.run(intent);

    assert_eq!(report.completed, 1);
    assert_eq!(report.conflicts, 1);
    assert_eq!(fixture.cloud_bytes("doc.txt"), Some(b"cloud edit".as_slice()));
    let copies = fixture.conflict_copies();
    assert_eq!(copies.len(), 1);
    assert_eq!(fixture.local[copies[0]].bytes, b"local edit");
    let kinds: Vec<PendingIntentKind> = fixture.queue.iter().map(|(_, kind)| *kind).collect();
    assert_eq!(kinds, vec![PendingIntentKind::Download, PendingIntentKind::Upload]);
}

#[test]
fn upload_of_a_fifo_completes_as_noop_instead_of_wedging() {
    let mut fixture = Fixture::new();
    let fifo = root().join("pipe.fifo");
    fixture.fifos.push(fifo.to_text());
    let intent = fixture.intent(&fifo, PendingIntentKind::Upload);
    let report = fixture.run(intent);

    assert_eq!(report.completed, 1, "the intent must complete, not wedge");
    assert_eq!(report.failed, 0);
    assert!(fixture.cloud.is_empty());
}

#[test]
fn upload_of_vanished_local_file_completes_as_noop() {
    let mut fixture = Fixture::new();
    let file = root().join("ephemeral.txt");
    let intent = fixture.intent(&file, PendingIntentKind::Upload);
    let report = fixture.run(intent);

    assert_eq!(report.completed, 1);
    assert_eq!(report.failed, 0);
    assert_eq!(fixture.cloud_bytes("ephemeral.txt"), None);
}

#[test]
fn upload_whose_source_vanishes_after_planning_completes_as_noop() {
    let mut fixture = Fixture::new();
    fixture.vanishing_source = true;
    let file = root().join("moving.txt");
    fixture.write_local(&file, b"about to be renamed");
    let intent = fixture.intent(&file, PendingIntentKind::Upload);
    let report = fixture.run(intent);

    assert_eq!(report.failed, 0, "a vanished source must not fail the intent");
    assert_eq!(report.completed, 1);
    assert_eq!(fixture.cloud_bytes("moving.txt"), None);
}

#[test]
fn download_failure_is_scheduled_for_retry_with_transient_classification() {
    let mut fixture = Fixture::new();
    let target = root().join("hole");
    fixture.cloud.insert(
        "hole".to_string(),
        CloudFile {
            bytes: Vec::new(),
            modified_at: timestamp_ms(700),
            op_id: None,
            directory: true,
        },
    );
    let intent = fixture.intent(&target, PendingIntentKind::Download);
    let report = fixture.run(intent);

    assert_eq!(report.failed, 0);
    assert_eq!(report.retried, 1);
    assert!(matches!(
        fixture.settled[0],
        QueueAction::Retry { failure: RetryFailureKind::Transient, .. }
    ));
}

#[test]
fn same_path_intents_are_serialized() {
    let mut fixture = Fixture::new();
    let file = root().join("contended.txt");
    let first = fixture.intent(&file, PendingIntentKind::Upload);
    let second = fixture.intent(&file, PendingIntentKind::Delete);
    assert_eq!(fixture.start(first), StartDecision::Started);
    assert_eq!(
        fixture.start(second),
        StartDecision::PathBusy,
        "second intent on the same path must not start concurrently"
    );
}

#[test]
fn staged_executor_respects_workgate_caps() {
    let mut fixture = Fixture::new();
    // Exactly one planner worker is available.
    fixture.throttle(ThrottleState::Throttled);
    let first = fixture.intent(&root().join("file-0.txt"), PendingIntentKind::Upload);
    let second = fixture.intent(&root().join("file-1.txt"), PendingIntentKind::Upload);
    assert_eq!(fixture.start(first), StartDecision::Started);
    assert_eq!(
        fixture.start(second),
        StartDecision::AtCapacity,
        "throttled state must cap planner admission at one"
    );
    assert_eq!(fixture.executor.snapshot().planner_running, 1);
    assert_eq!(fixture.executor.active_intent_ids(), vec![1]);
    fixture.executor.abort_all(&mut fixture.gate);
    assert_eq!(fixture.executor.snapshot().active_total, 0);
    assert_eq!(fixture.gate.snapshot().active_planner_workers, 0);
}

#[test]
fn suspended_throttle_waits_before_the_transfer() {
    let mut fixture = Fixture::new();
    let file = root().join("held.bin");
    fixture.write_local(&file, b"payload");
    let intent = fixture.intent(&file, PendingIntentKind::Upload);
    let id = intent.id;
    let now = Instant { nanos: 0 };
    let mut report = StagedExecutorReport::default();
    assert_eq!(fixture.start(intent), StartDecision::Started);
    fixture.throttle(ThrottleState::Suspended);
    for _ in 0..8 {
        if let Some(input) = fixture.answer(id) {
            let directive = fixture.executor.advance_one(
                &mut fixture.app,
                &mut fixture.gate,
                id,
                input,
                SyncMode::TwoWay,
                fixture_now(),
                fixture_now(),
                now,
                &mut report,
            );
            if let Directive::Dispatch { job, .. } = directive {
                let outcome = fixture.run_job(job);
                fixture.executor.advance_one(
                    &mut fixture.app,
                    &mut fixture.gate,
                    id,
                    StageInput::JobDone {
                        outcome,
                        facts: OutcomeFacts {
                            local: fixture_stat(&file),
                            current: None,
                            source_missing: false,
                            moved_from: String::new(),
                        },
                    },
                    SyncMode::TwoWay,
                    fixture_now(),
                    fixture_now(),
                    now,
                    &mut report,
                );
            }
        }
    }
    assert_eq!(report.completed, 0);
    assert_eq!(report.failed, 0);
    assert_eq!(fixture.executor.snapshot().active_total, 1);
    assert_eq!(fixture.executor.snapshot().waiting_for_hash, 1);
}

fn fixture_stat(_path: &FsPath) -> LocalStat {
    LocalStat::File { size_bytes: 7, modified_at: Some(timestamp_ms(500)) }
}

#[test]
fn a_stale_session_is_aborted() {
    let mut fixture = Fixture::new();
    let mut report = StagedExecutorReport::default();
    let directive = fixture.executor.advance_one(
        &mut fixture.app,
        &mut fixture.gate,
        77,
        StageInput::JobDone {
            outcome: ProviderJobOutcome::TransferHeld { session: 5 },
            facts: OutcomeFacts {
                local: LocalStat::Missing,
                current: None,
                source_missing: true,
                moved_from: String::new(),
            },
        },
        SyncMode::TwoWay,
        fixture_now(),
        fixture_now(),
        Instant { nanos: 0 },
        &mut report,
    );
    assert!(matches!(directive, Directive::NotActive { abort: Some(5) }));
}

#[test]
fn a_fresh_deletion_of_a_synced_file_waits_for_its_other_half() {
    let mut fixture = Fixture::new();
    let file = root().join("renamed.txt");
    fixture.seed_index(&file, b"v1", None, None, "op-mine");
    fixture.write_cloud("renamed.txt", b"v1", Some("op-mine"));
    let mut intent = fixture.intent(&file, PendingIntentKind::Delete);
    intent.attempt_count = 0;
    let report = fixture.run(intent);

    assert_eq!(report.completed, 0);
    assert_eq!(report.retried, 1);
    let settled = &fixture.settled[0];
    assert!(
        matches!(settled, QueueAction::Defer { until, .. }
            if *until == fixture_now().plus(Duration::from_secs(MOVE_SETTLE_DELAY_SECONDS))),
        "{settled:?}"
    );
    assert_eq!(fixture.cloud_bytes("renamed.txt"), Some(b"v1".as_slice()));
}

#[test]
fn a_cloud_side_rename_is_applied_without_a_download() {
    let mut fixture = Fixture::new();
    let old = root().join("old.txt");
    let new = root().join("new.txt");
    fixture.write_local(&old, b"same bytes");
    fixture.seed_index(
        &old,
        b"same bytes",
        Some(timestamp_ms(500)),
        Some(timestamp_ms(700)),
        "op-old",
    );
    fixture.write_cloud("new.txt", b"same bytes", Some("op-remote"));
    let intent = fixture.intent(&new, PendingIntentKind::Download);
    let report = fixture.run(intent);

    assert_eq!(report.completed, 1);
    assert_eq!(report.moves, 1);
    assert_eq!(fixture.local_bytes(&new), Some(b"same bytes".as_slice()));
    assert_eq!(fixture.local_bytes(&old), None);
    let row = fixture.row(&new).expect("indexed under its new name");
    assert_eq!(row.last_op_id, "op-remote");
    assert_eq!(row.remote_modified_at, Some(timestamp_ms(700)));
    assert_eq!(fixture.row(&old), None);
    assert_eq!(fixture.tags, vec![(new, "op-remote".to_string())]);
    assert!(!fixture.stages.contains(&"Download".to_string()));
}

#[test]
fn a_same_sized_object_with_other_content_is_downloaded() {
    let mut fixture = Fixture::new();
    let old = root().join("old.txt");
    let new = root().join("new.txt");
    fixture.write_local(&old, b"same bytes");
    fixture.seed_index(
        &old,
        b"same bytes",
        Some(timestamp_ms(500)),
        Some(timestamp_ms(700)),
        "op-old",
    );
    fixture.write_cloud("new.txt", b"other byte", None);
    let intent = fixture.intent(&new, PendingIntentKind::Download);
    let report = fixture.run(intent);

    assert_eq!(report.completed, 1);
    assert_eq!(report.moves, 0);
    assert_eq!(fixture.local_bytes(&new), Some(b"other byte".as_slice()));
    assert_eq!(fixture.local_bytes(&old), Some(b"same bytes".as_slice()));
}

#[test]
fn a_one_way_download_replaces_the_local_file() {
    let mut fixture = Fixture::new();
    fixture.sync_mode = SyncMode::PullOnly;
    let file = root().join("doc.txt");
    fixture.write_cloud("doc.txt", b"remote version", None);
    fixture.write_local(&file, b"local edit");
    let intent = fixture.intent(&file, PendingIntentKind::Download);
    let report = fixture.run(intent);

    assert_eq!(report.completed, 1);
    assert_eq!(report.conflicts, 0);
    assert_eq!(fixture.local_bytes(&file), Some(b"remote version".as_slice()));
    assert!(fixture.conflict_copies().is_empty());
}

#[test]
fn one_way_modes_drop_intents_of_the_other_direction() {
    let mut fixture = Fixture::new();
    fixture.sync_mode = SyncMode::PullOnly;
    let file = root().join("doc.txt");
    fixture.write_local(&file, b"local edit");
    let intent = fixture.intent(&file, PendingIntentKind::Upload);
    let report = fixture.run(intent);
    assert_eq!(report.completed, 1);
    assert!(fixture.cloud.is_empty());

    fixture.sync_mode = SyncMode::PushOnly;
    fixture.write_cloud("doc.txt", b"remote", None);
    let intent = fixture.intent(&file, PendingIntentKind::Download);
    let report = fixture.run(intent);
    assert_eq!(report.completed, 1);
    assert_eq!(fixture.local_bytes(&file), Some(b"local edit".as_slice()));
}

#[test]
fn two_way_remote_dir_delete_preserves_unsynced_child() {
    let mut fixture = Fixture::new();
    let dir = root().join("project");
    fixture.directories.push(dir.to_text());
    let synced = dir.join("synced.txt");
    let unsynced = dir.join("unsynced.txt");
    fixture.write_local(&synced, b"synced body");
    fixture.write_local(&unsynced, b"brand new local file");
    // Only the synced child has an index entry matching its content.
    fixture.seed_index(&synced, b"synced body", Some(timestamp_ms(500)), None, "op-synced");
    let intent = fixture.intent(&dir, PendingIntentKind::ApplyRemoteDelete);
    let report = fixture.run(intent);

    assert_eq!(report.completed, 1);
    // The synced-and-unchanged child was removed; the unsynced child
    // (and thus the directory) survived.
    assert!(!fixture.stat(&synced).present());
    assert!(fixture.stat(&unsynced).present());
    assert!(fixture.stat(&dir).present());
    // The preserved child has an Upload re-enqueued to restore it.
    assert_eq!(fixture.queue, vec![(unsynced, PendingIntentKind::Upload)]);
}

#[test]
fn local_directory_delete_expands_into_per_entry_deletes_deepest_first() {
    let mut fixture = Fixture::new();
    let dir = root().join("folder");
    fixture.cloud_directory("folder");
    fixture.cloud_directory("folder/sub");
    fixture.write_cloud("folder/a.txt", b"a", None);
    fixture.write_cloud("folder/sub/b.txt", b"b", None);
    // The local directory is gone (the user renamed or removed it).
    assert!(!fixture.stat(&dir).present());

    let intent = fixture.intent(&dir, PendingIntentKind::Delete);
    let report = fixture.run(intent);
    assert_eq!(report.completed, 1, "the directory delete completes as an expansion");

    let queued = &fixture.queue;
    let expected: Vec<(FsPath, PendingIntentKind)> = vec![
        (dir.join("sub/b.txt"), PendingIntentKind::Delete),
        (dir.join("a.txt"), PendingIntentKind::Delete),
        (dir.join("sub"), PendingIntentKind::Delete),
        (dir.clone(), PendingIntentKind::Delete),
    ];
    assert_eq!(queued.len(), expected.len(), "queued: {queued:?}");
    for entry in &expected {
        assert!(queued.contains(entry), "missing {entry:?} in {queued:?}");
    }
    let position = |path: &FsPath| queued.iter().position(|(p, _)| p == path).expect("queued");
    assert!(position(&dir.join("sub/b.txt")) < position(&dir.join("sub")));
    assert!(position(&dir.join("sub")) < position(&dir));
    assert!(position(&dir.join("a.txt")) < position(&dir));
    // Nothing was removed remotely by the expansion itself.
    assert_eq!(fixture.cloud_bytes("folder/a.txt"), Some(b"a".as_slice()));
    assert_eq!(fixture.cloud_bytes("folder/sub/b.txt"), Some(b"b".as_slice()));
}

#[test]
fn directory_delete_removes_an_empty_remote_directory_and_keeps_a_preserved_child() {
    let mut fixture = Fixture::new();
    // Empty remote directory: deleted outright.
    let empty = root().join("empty");
    fixture.cloud_directory("empty");
    let intent = fixture.intent(&empty, PendingIntentKind::Delete);
    let report = fixture.run(intent);
    assert_eq!(report.completed, 1);
    assert!(!fixture.cloud.contains_key("empty"), "empty remote directory removed");

    // A directory whose only child has no queued work left is kept:
    // the child is content the rules preserved.
    let kept = root().join("kept");
    fixture.cloud_directory("kept");
    fixture.write_cloud("kept/child.txt", b"preserved", None);
    // First pass expands (child delete + directory re-enqueued).
    let intent = fixture.intent(&kept, PendingIntentKind::Delete);
    fixture.run(intent);
    assert_eq!(
        fixture.queue,
        vec![
            (kept.join("child.txt"), PendingIntentKind::Delete),
            (kept.clone(), PendingIntentKind::Delete),
        ]
    );
    // The child delete was refused and the child restored locally.
    fixture.queue.clear();
    fixture.directories.push(kept.to_text());
    fixture.write_local(&kept.join("child.txt"), b"preserved");
    // Second pass: the directory delete finds a child that exists
    // locally, has nothing to expand, and keeps the directory.
    let again = fixture.intent(&kept, PendingIntentKind::Delete);
    let report = fixture.run(again);
    assert_eq!(report.completed, 1);
    assert!(fixture.cloud.contains_key("kept/child.txt"));
    assert!(fixture.queue.is_empty());
}

#[test]
fn remote_download_through_symlinked_parent_is_refused() {
    let mut fixture = Fixture::new();
    let link = root().join("link");
    fixture.links.insert(link.to_text(), "/outside".to_string());
    let target = root().join("link/payload.txt");
    fixture.write_cloud("link/payload.txt", b"x", None);
    let intent = fixture.intent(&target, PendingIntentKind::Download);
    let report = fixture.run(intent);

    assert_eq!(report.failed, 1);
    // Nothing was written.
    assert!(fixture.local.is_empty());
}

#[test]
fn download_intent_applies_remote_content_atomically_with_op_id_tag() {
    let mut fixture = Fixture::new();
    fixture.write_cloud("docs/new.txt", b"from the cloud", None);
    let local_target = root().join("docs/new.txt");
    let intent = fixture.intent(&local_target, PendingIntentKind::Download);
    let report = fixture.run(intent);

    assert_eq!(report.completed, 1);
    assert_eq!(fixture.local_bytes(&local_target), Some(b"from the cloud".as_slice()));
    // Op-id tagged for watcher-echo correlation.
    assert_eq!(fixture.tags.len(), 1);
    let (tagged, op_id) = &fixture.tags[0];
    assert_eq!(*tagged, local_target);
    // The echo carries the write (op-id and hash match).
    assert_eq!(
        fixture.echoes,
        vec![(local_target.clone(), Some(op_id.clone()), hash(b"from the cloud"))]
    );
    // No staging temp file survives.
    assert_eq!(fixture.local.len(), 1);
}

#[test]
fn an_intent_with_the_id_of_one_in_flight_takes_its_place() {
    let mut fixture = Fixture::new();
    let start = |fixture: &mut Fixture, name: &str| {
        let mut intent = fixture.intent(&root().join(name), PendingIntentKind::Upload);
        intent.id = 7;
        fixture.start(intent)
    };
    assert_eq!(start(&mut fixture, "a.txt"), StartDecision::Started);
    assert_eq!(start(&mut fixture, "b.txt"), StartDecision::Started);
    assert_eq!(fixture.executor.active_intent_ids(), vec![7]);
    let path = &fixture.executor.execution(7).expect("active").intent.path;
    assert_eq!(*path, root().join("b.txt"));
    assert_eq!(start(&mut fixture, "a.txt"), StartDecision::PathBusy);
    assert_eq!(fixture.gate.snapshot().active_planner_workers, 2);
    fixture.executor.abort_all(&mut fixture.gate);
    assert_eq!(fixture.gate.snapshot().active_planner_workers, 1, "one permit stays out");
    assert_eq!(start(&mut fixture, "a.txt"), StartDecision::Started);
}

#[test]
fn a_permit_is_asked_for_under_the_caps_in_force() {
    let mut fixture = Fixture::new();
    let first = fixture.intent(&root().join("a.txt"), PendingIntentKind::Upload);
    // These caps are not those of the app: the start refreshes them.
    fixture
        .gate
        .reconfigure(ThrottleState::Throttled, caps_for(ThrottleState::Throttled));
    assert_eq!(fixture.start(first), StartDecision::Started);
    assert_eq!(fixture.gate.caps(), caps_for(ThrottleState::Light));
}

#[test]
fn a_slowdown_that_has_ended_no_longer_holds_the_gate() {
    let mut fixture = Fixture::new();
    let until = timestamp_ms(1_000);
    fixture.app.apply_retry_decision(&mut fixture.gate, Some(until), timestamp_ms(0));
    assert_eq!(fixture.gate.caps().upload_concurrency, 1);
    let intent = fixture.intent(&root().join("b.txt"), PendingIntentKind::Upload);
    assert!(fixture_now().nanos > until.nanos);
    assert_eq!(fixture.start(intent), StartDecision::Started);
    assert_eq!(fixture.app.retry_slowdown_until(), None);
    assert_eq!(
        fixture.gate.caps().upload_concurrency,
        caps_for(ThrottleState::Light).upload_concurrency
    );
}
