//! Planning: which route a leased intent takes.
//!
//! Planning never calls the provider. It looks at the intent, the sync mode
//! and facts the caller has read (disk, queue, sync index); when the decision
//! needs remote facts it asks for a probe and goes on once that is back.
use vstd::prelude::*;

use crate::clock::{Duration, SystemTime};
use crate::event_intents::PendingIntentKind;
use crate::paths::{has_parent, path_text, FsPath, Part, Component};
use crate::provider_jobs::{ProbeHash, ProbeRequest};
use crate::records::{DurableIntentRecord, LocalStat, RemotePrecondition, RetryFailureKind,
    SyncIndexEntry, SyncMode};
use crate::text::{chars_of, concat, decimal, decimal_text, is_ascii_alphanumeric_char,
    ascii_alphanumeric};
use vstd::string::StringExecFns;

verus! {

/// Prefix of files the daemon stages; the path filter never lets them in.
pub const TEMP_FILE_PREFIX: &'static str = ".vapor-tmp-";

/// How long a deletion waits for the create it may be the other half of.
pub const MOVE_SETTLE_DELAY_SECONDS: u64 = 3;

/// How often a deletion waits at most.
pub const MOVE_SETTLE_MAX_DEFERRALS: u32 = 5;

pub open spec fn optional_text(text: Option<String>) -> Option<Seq<char>> {
    match text {
        Some(t) => Some(t@),
        None => None,
    }
}

pub open spec fn optional_path(path: Option<FsPath>) -> Option<Seq<Part>> {
    match path {
        Some(p) => Some(p@),
        None => None,
    }
}

/// Why an intent completes without any work.
#[derive(Clone, Copy, Debug, PartialEq, Eq, Structural)]
pub enum NoopReason {
    PushGatedOff,
    PullGatedOff,
    DirectoryUpload,
    SpecialFile,
    VanishedBeforeUpload,
    RemoteAbsent,
    RemoteDirectoryAbsent,
    RemoteModified,
    RemoteDirectoryKept,
    DirectoryDeleteExpanded,
    RemoteRecreated,
    UnknownProvenance,
    DeletionOlderThanSync,
    LocallyModified,
    LocalFileGone,
    LocalDirectoryGone,
    ContentReappeared,
    UnsyncedContentPreserved,
    VanishedDuringConflict,
}

/// The reason in words.
pub open spec fn noop_text(reason: NoopReason) -> Seq<char> {
    match reason {
        NoopReason::PushGatedOff => "local-to-remote propagation is gated off in pull-only mode"@,
        NoopReason::PullGatedOff => "remote-to-local propagation is gated off in push-only mode"@,
        NoopReason::DirectoryUpload => "directories materialize through their children"@,
        NoopReason::SpecialFile => "symlinks and special files are outside the sync contract"@,
        NoopReason::VanishedBeforeUpload => "local file vanished before upload"@,
        NoopReason::RemoteAbsent => "remote already absent; deletion converged"@,
        NoopReason::RemoteDirectoryAbsent => "remote directory already absent; deletion converged"@,
        NoopReason::RemoteModified => "remote changed since last sync; modification wins over deletion"@,
        NoopReason::RemoteDirectoryKept => "remote directory kept: its remaining children exist locally"@,
        NoopReason::DirectoryDeleteExpanded => "directory delete expanded into per-entry deletes"@,
        NoopReason::RemoteRecreated => "remote object exists again; deletion is stale"@,
        NoopReason::UnknownProvenance => "preserving local file of unknown provenance over a remote deletion"@,
        NoopReason::DeletionOlderThanSync => "remote deletion is older than the last sync of this path"@,
        NoopReason::LocallyModified => "local file was modified after the last sync; modification wins over deletion"@,
        NoopReason::LocalFileGone => "local file already gone"@,
        NoopReason::LocalDirectoryGone => "local directory already gone"@,
        NoopReason::ContentReappeared => "preserved local content that reappeared under a deleted directory"@,
        NoopReason::UnsyncedContentPreserved => "preserved unsynced local content under a remotely-deleted directory"@,
        NoopReason::VanishedDuringConflict => "local file vanished during conflict resolution"@,
    }
}

impl NoopReason {
    /// The reason in words.
    pub fn text(self) -> (r: &'static str)
        ensures
            r@ == noop_text(self),
    {
        match self {
            NoopReason::PushGatedOff => "local-to-remote propagation is gated off in pull-only mode",
            NoopReason::PullGatedOff => "remote-to-local propagation is gated off in push-only mode",
            NoopReason::DirectoryUpload => "directories materialize through their children",
            NoopReason::SpecialFile => "symlinks and special files are outside the sync contract",
            NoopReason::VanishedBeforeUpload => "local file vanished before upload",
            NoopReason::RemoteAbsent => "remote already absent; deletion converged",
            NoopReason::RemoteDirectoryAbsent => "remote directory already absent; deletion converged",
            NoopReason::RemoteModified => "remote changed since last sync; modification wins over deletion",
            NoopReason::RemoteDirectoryKept => "remote directory kept: its remaining children exist locally",
            NoopReason::DirectoryDeleteExpanded => "directory delete expanded into per-entry deletes",
            NoopReason::RemoteRecreated => "remote object exists again; deletion is stale",
            NoopReason::UnknownProvenance => "preserving local file of unknown provenance over a remote deletion",
            NoopReason::DeletionOlderThanSync => "remote deletion is older than the last sync of this path",
            NoopReason::LocallyModified => "local file was modified after the last sync; modification wins over deletion",
            NoopReason::LocalFileGone => "local file already gone",
            NoopReason::LocalDirectoryGone => "local directory already gone",
            NoopReason::ContentReappeared => "preserved local content that reappeared under a deleted directory",
            NoopReason::UnsyncedContentPreserved => "preserved unsynced local content under a remotely-deleted directory",
            NoopReason::VanishedDuringConflict => "local file vanished during conflict resolution",
        }
    }
}

/// Why an intent goes back to the queue for a while.
#[derive(Clone, Copy, Debug, PartialEq, Eq, Structural)]
pub enum DeferReason {
    UploadMayBeRename,
    DownloadMayBeRename,
}

/// The reason in words.
pub open spec fn defer_text(reason: DeferReason) -> Seq<char> {
    match reason {
        DeferReason::UploadMayBeRename => "waiting in case a queued upload is this file renamed"@,
        DeferReason::DownloadMayBeRename => "a queued download may be this file renamed in the cloud"@,
    }
}

impl DeferReason {
    /// The reason in words.
    pub fn text(self) -> (r: &'static str)
        ensures
            r@ == defer_text(self),
    {
        match self {
            DeferReason::UploadMayBeRename => "waiting in case a queued upload is this file renamed",
            DeferReason::DownloadMayBeRename => "a queued download may be this file renamed in the cloud",
        }
    }
}

/// Route of work that still needs stages.
#[derive(Debug, PartialEq, Eq)]
pub struct TransferPlan {
    pub remote_path: String,
    pub op_id: String,
    pub local_path: FsPath,
    /// Download staging file beside the target.
    pub staging_path: Option<FsPath>,
    /// Filled by the hash stage for uploads.
    pub content_hash: Option<String>,
    /// Write guard chosen by the planner.
    pub precondition: RemotePrecondition,
    /// The remote may have changed since the last sync: compare contents at
    /// the upload gate.
    pub verify_remote_before_upload: bool,
    /// Content hash of the last transfer, when the path has one.
    pub last_synced_hash: Option<String>,
    /// Size and time of the file when its hash began.
    pub hashed_local_state: Option<(u64, Option<SystemTime>)>,
    /// For a download, the op-id tag of the remote object.
    pub remote_op_id: Option<String>,
}

/// Precondition as a mathematical value.
pub enum GuardView {
    Unconditional,
    Absent,
    HashEquals(Seq<char>),
}

pub open spec fn guard_view(p: RemotePrecondition) -> GuardView {
    match p {
        RemotePrecondition::Unconditional => GuardView::Unconditional,
        RemotePrecondition::Absent => GuardView::Absent,
        RemotePrecondition::HashEquals(hash) => GuardView::HashEquals(hash@),
    }
}

pub struct PlanView {
    pub remote_path: Seq<char>,
    pub op_id: Seq<char>,
    pub local_path: Seq<Part>,
    pub staging_path: Option<Seq<Part>>,
    pub content_hash: Option<Seq<char>>,
    pub precondition: GuardView,
    pub verify_remote_before_upload: bool,
    pub last_synced_hash: Option<Seq<char>>,
    pub hashed_local_state: Option<(u64, Option<SystemTime>)>,
    pub remote_op_id: Option<Seq<char>>,
}

impl View for TransferPlan {
    type V = PlanView;

    open spec fn view(&self) -> PlanView {
        PlanView {
            remote_path: self.remote_path@,
            op_id: self.op_id@,
            local_path: self.local_path@,
            staging_path: optional_path(self.staging_path),
            content_hash: optional_text(self.content_hash),
            precondition: guard_view(self.precondition),
            verify_remote_before_upload: self.verify_remote_before_upload,
            last_synced_hash: optional_text(self.last_synced_hash),
            hashed_local_state: self.hashed_local_state,
            remote_op_id: optional_text(self.remote_op_id),
        }
    }
}

/// A plan with nothing decided but its two paths.
pub open spec fn bare_plan(
    remote_path: Seq<char>,
    op_id: Seq<char>,
    local_path: Seq<Part>,
    staging_path: Option<Seq<Part>>,
) -> PlanView {
    PlanView {
        remote_path,
        op_id,
        local_path,
        staging_path,
        content_hash: None,
        precondition: GuardView::Unconditional,
        verify_remote_before_upload: false,
        last_synced_hash: None,
        hashed_local_state: None,
        remote_op_id: None,
    }
}

fn new_plan(
    remote_path: String,
    op_id: String,
    local_path: FsPath,
    staging_path: Option<FsPath>,
) -> (r: TransferPlan)
    ensures
        r@ == bare_plan(remote_path@, op_id@, local_path@, optional_path(staging_path)),
{
    TransferPlan {
        remote_path,
        op_id,
        local_path,
        staging_path,
        content_hash: None,
        precondition: RemotePrecondition::Unconditional,
        verify_remote_before_upload: false,
        last_synced_hash: None,
        hashed_local_state: None,
        remote_op_id: None,
    }
}

/// Where planning goes on once a probe is back.
#[derive(Debug, PartialEq, Eq)]
pub enum PendingPlan {
    Upload { plan: TransferPlan, index: Option<SyncIndexEntry> },
    Delete { plan: TransferPlan, index: Option<SyncIndexEntry> },
    Download { plan: TransferPlan },
    /// The remote object looks like a synced local file that moved.
    DownloadMoveCheck { plan: TransferPlan, candidate: SyncIndexEntry },
    ApplyRemoteDelete,
}

/// What planning decided.
#[derive(Debug, PartialEq, Eq)]
pub enum PlanOutcome {
    Noop(NoopReason),
    Upload(TransferPlan),
    RemoteDelete(TransferPlan),
    Download(TransferPlan),
    /// A local removal was carried out.
    AppliedLocally,
    /// A cloud-side rename was carried out as a local one.
    MovedLocally,
    /// Back to the queue, not counted as an attempt.
    Defer { delay: Duration, reason: DeferReason },
    /// Parked behind a decision.
    Held { held: usize, decisions_opened: Vec<i64> },
    /// Both versions kept; follow-up intents are queued.
    ConflictResolved,
    /// Remote facts are needed first.
    Probe { request: ProbeRequest, pending: PendingPlan },
    Fail { failure: RetryFailureKind, message: String },
}

/// What a planning step asks of the caller.
#[derive(Debug, PartialEq, Eq)]
pub enum PlanStep {
    Done(PlanOutcome),
    /// Record the deletion of the path, then complete without work.
    Converged { path: FsPath, reason: NoopReason },
    /// Queue a download of the path and drop its index row: the remote
    /// content is newer than the deletion.
    PreserveRemote(TransferPlan),
    /// Look at what the remote directory holds.
    InspectDirectory(TransferPlan),
    /// Look for a synced local file the remote object may be the move of.
    SeekMoveSource(TransferPlan),
    /// Rename the synced file to the plan's path.
    MoveLocally { plan: TransferPlan, source: SyncIndexEntry, remote_modified_at: SystemTime },
    /// Remove what stands at the intent's path.
    RemoveLocally,
    /// Run the local checks of a remote deletion.
    GuardLocalDeletion,
}

/// What a plan needs to know of its surroundings.
#[derive(Debug, PartialEq, Eq)]
pub struct PlanEnv {
    /// The local sync root, when one is configured.
    pub local_root: Option<FsPath>,
    pub sync_mode: SyncMode,
    /// Stable device identifier: prefix of op-ids and part of conflict names.
    pub device_id: String,
}

/// Facts read for one planning.
#[derive(Debug, PartialEq, Eq)]
pub struct PlanFacts {
    /// Remote name the local path stands in for, if any.
    pub alias: Result<Option<String>, String>,
    /// The named remote path, checked.
    pub checked_alias: Result<String, String>,
    /// Remote path that mirrors the local one, when it lies in the root.
    pub mirror: Option<String>,
    pub local: LocalStat,
    /// Whether the target's parent resolves inside the root.
    pub containment: Result<(), String>,
    pub index: Result<Option<SyncIndexEntry>, String>,
    /// A queued intent has the shape of this one's other half.
    pub other_half_queued: bool,
}

/// Op-id of one attempt at one intent.
pub open spec fn op_id_of(device: Seq<char>, id: int, attempts: nat, now_millis: nat) -> Seq<char> {
    device + "-op"@ + signed_decimal(id) + "-a"@ + decimal(attempts) + "-t"@ + decimal(now_millis)
}

pub open spec fn signed_decimal(n: int) -> Seq<char> {
    if n < 0 {
        seq!['-'] + decimal((-n) as nat)
    } else {
        decimal(n as nat)
    }
}

fn signed_decimal_text(n: i64) -> (r: String)
    ensures
        r@ == signed_decimal(n as int),
{
    if n < 0 {
        let mut out = String::new();
        out.push('-');
        out.append(decimal_text((-(n as i128)) as u128).as_str());
        assert(out@ =~= signed_decimal(n as int));
        out
    } else {
        decimal_text(n as u128)
    }
}

/// Allocates the op-id of the current attempt.
pub fn allocate_op_id(env: &PlanEnv, intent: &DurableIntentRecord, now: SystemTime) -> (r: String)
    ensures
        r@ == op_id_of(
            env.device_id@,
            intent.id as int,
            intent.attempt_count as nat,
            crate::clock::millis_since_epoch_spec(now) as nat,
        ),
{
    let mut out = env.device_id.clone();
    out.append("-op");
    out.append(signed_decimal_text(intent.id).as_str());
    out.append("-a");
    out.append(decimal_text(intent.attempt_count as u128).as_str());
    out.append("-t");
    out.append(decimal_text(now.millis_since_epoch()).as_str());
    out
}

/// Characters kept in a staging file's name.
pub open spec fn file_name_char(c: char) -> char {
    if is_ascii_alphanumeric_char(c) || c == '-' || c == '_' {
        c
    } else {
        '-'
    }
}

/// `raw` with everything that is not an ASCII letter, digit, `-` or `_`
/// replaced by `-`.
pub fn sanitize_for_file_name(raw: &str) -> (r: String)
    ensures
        r@ == raw@.map_values(|c: char| file_name_char(c)),
{
    let chars = chars_of(raw);
    let mut out = String::new();
    let mut i: usize = 0;
    while i < chars.len()
        invariant
            chars@ == raw@,
            0 <= i <= chars.len(),
            out@ == raw@.take(i as int).map_values(|c: char| file_name_char(c)),
        decreases chars.len() - i,
    {
        let c = chars[i];
        if ascii_alphanumeric(c) || c == '-' || c == '_' {
            out.push(c);
        } else {
            out.push('-');
        }
        assert(raw@.take(i as int + 1) =~= raw@.take(i as int).push(c));
        assert(out@ =~= raw@.take(i as int + 1).map_values(|c: char| file_name_char(c)));
        i = i + 1;
    }
    assert(raw@.take(i as int) =~= raw@);
    out
}

/// Staging file of a download: beside its target, or in the local root
/// where the target has no parent.
pub open spec fn staging_path_of(
    target: Seq<Part>,
    local_root: Seq<Part>,
    op_id: Seq<char>,
) -> Seq<Part> {
    let name = TEMP_FILE_PREFIX@ + "dl-"@ + op_id.map_values(|c: char| file_name_char(c));
    (if has_parent(target) {
        target.drop_last()
    } else {
        local_root
    }).push(Part::Normal(name))
}

fn staging_path(target: &FsPath, local_root: &FsPath, op_id: &str) -> (r: FsPath)
    ensures
        r@ == staging_path_of(target@, local_root@, op_id@),
{
    let mut name = concat(TEMP_FILE_PREFIX, "dl-");
    name.append(sanitize_for_file_name(op_id).as_str());
    let base = match target.parent() {
        Some(parent) => parent,
        None => local_root.clone(),
    };
    base.pushed(Component::Normal(name))
}

/// Whether an intent of this kind sends local changes to the cloud.
pub open spec fn is_push_kind(kind: PendingIntentKind) -> bool {
    kind == PendingIntentKind::Upload || kind == PendingIntentKind::Rename || kind
        == PendingIntentKind::Delete
}

/// Whether an intent of this kind brings cloud changes to this device.
pub open spec fn is_pull_kind(kind: PendingIntentKind) -> bool {
    kind == PendingIntentKind::Download || kind == PendingIntentKind::ApplyRemoteDelete
}

/// The remote path an intent works on, or why there is none.
pub open spec fn remote_target(
    intent: DurableIntentRecord,
    facts: PlanFacts,
) -> Result<Seq<char>, (RetryFailureKind, Seq<char>)> {
    let named = if intent.remote_path is Some {
        Ok::<bool, Seq<char>>(true)
    } else {
        match facts.alias {
            Ok(Some(_)) => Ok(true),
            Ok(None) => Ok(false),
            Err(error) => Err(error@),
        }
    };
    match named {
        Err(error) => Err(
            (RetryFailureKind::Transient, "cannot read the name aliases: "@ + error),
        ),
        Ok(true) => match facts.checked_alias {
            Ok(path) => Ok(path@),
            Err(error) => Err(
                (
                    RetryFailureKind::Permanent,
                    "intent names an invalid remote path: "@ + error@,
                ),
            ),
        },
        Ok(false) => match facts.mirror {
            Some(path) => Ok(path@),
            None => Err(
                (
                    RetryFailureKind::Permanent,
                    "intent path "@ + path_text(intent.path@)
                        + " is not inside the local sync root"@,
                ),
            ),
        },
    }
}

fn resolve_remote_target(intent: &DurableIntentRecord, facts: &PlanFacts) -> (r: Result<
    String,
    (RetryFailureKind, String),
>)
    ensures
        match (r, remote_target(*intent, *facts)) {
            (Ok(path), Ok(expected)) => path@ == expected,
            (Err((failure, message)), Err((kind, text))) => failure == kind && message@ == text,
            _ => false,
        },
{
    let named = match &intent.remote_path {
        Some(_) => true,
        None => match &facts.alias {
            Ok(Some(_)) => true,
            Ok(None) => false,
            Err(error) => {
                return Err(
                    (
                        RetryFailureKind::Transient,
                        concat("cannot read the name aliases: ", error.as_str()),
                    ),
                );
            },
        },
    };
    if named {
        match &facts.checked_alias {
            Ok(path) => Ok(path.clone()),
            Err(error) => Err(
                (
                    RetryFailureKind::Permanent,
                    concat("intent names an invalid remote path: ", error.as_str()),
                ),
            ),
        }
    } else {
        match &facts.mirror {
            Some(path) => Ok(path.clone()),
            None => {
                let head = concat("intent path ", intent.path.to_text().as_str());
                Err(
                    (
                        RetryFailureKind::Permanent,
                        concat(head.as_str(), " is not inside the local sync root"),
                    ),
                )
            },
        }
    }
}

/// A synced path whose deletion should wait: it may be half of a rename.
pub open spec fn waits_for_other_half(attempts: u32, other_half_queued: bool) -> bool {
    attempts < MOVE_SETTLE_MAX_DEFERRALS && (attempts == 0 || other_half_queued)
}

/// The outcome is the given failure.
pub open spec fn is_failure(r: PlanOutcome, failure: RetryFailureKind, message: Seq<char>) -> bool {
    &&& r matches PlanOutcome::Fail { failure: f, message: m }
    &&& f == failure
    &&& m@ == message
}

/// The outcome defers by the settle delay.
pub open spec fn is_settle_defer(r: PlanOutcome, reason: DeferReason) -> bool {
    &&& r matches PlanOutcome::Defer { delay, reason: why }
    &&& delay.nanos == MOVE_SETTLE_DELAY_SECONDS * 1_000_000_000
    &&& why == reason
}

/// The outcome asks for a probe of `remote_path`.
pub open spec fn is_probe_of(
    r: PlanOutcome,
    remote_path: Seq<char>,
    want_subtree_listing: bool,
) -> bool {
    &&& r matches PlanOutcome::Probe { request, pending }
    &&& request.remote_path@ == remote_path
    &&& request.want_stat
    &&& request.want_subtree_listing == want_subtree_listing
}

/// Hash a guarded plan asks for: only what the index cannot answer.
pub open spec fn guard_hash(index: Option<SyncIndexEntry>, hash: ProbeHash) -> bool {
    match index {
        Some(entry) => hash matches ProbeHash::IfDivergedFrom { index_op_id } && index_op_id
            == entry.last_op_id,
        None => hash is Never,
    }
}

/// What [`plan_upload`] decides.
pub open spec fn upload_planned(
    r: PlanOutcome,
    mode: SyncMode,
    plan: PlanView,
    index: Result<Option<SyncIndexEntry>, String>,
) -> bool {
    if mode != SyncMode::TwoWay {
        r matches PlanOutcome::Upload(p) && p@ == plan
    } else {
        match index {
            Err(error) => is_failure(
                r,
                RetryFailureKind::Transient,
                "cannot read sync index: "@ + error@,
            ),
            Ok(entry) => {
                &&& is_probe_of(r, plan.remote_path, false)
                &&& r matches PlanOutcome::Probe { request, pending }
                &&& guard_hash(entry, request.hash)
                &&& pending matches PendingPlan::Upload { plan: p, index: i }
                &&& p@ == plan
                &&& i == entry
            },
        }
    }
}

fn guard_probe(
    remote_path: &String,
    index: &Option<SyncIndexEntry>,
    want_subtree_listing: bool,
) -> (r: ProbeRequest)
    ensures
        r.remote_path == *remote_path,
        r.want_stat,
        r.want_subtree_listing == want_subtree_listing,
        guard_hash(*index, r.hash),
{
    let hash = match index {
        Some(entry) => ProbeHash::IfDivergedFrom { index_op_id: entry.last_op_id.clone() },
        None => ProbeHash::Never,
    };
    ProbeRequest { remote_path: remote_path.clone(), want_stat: true, hash, want_subtree_listing }
}

/// Plans an upload. Two-way mode probes the remote first; a one-way mirror
/// overwrites by design.
pub fn plan_upload(
    mode: SyncMode,
    plan: TransferPlan,
    index: Result<Option<SyncIndexEntry>, String>,
) -> (r: PlanOutcome)
    ensures
        upload_planned(r, mode, plan@, index),
{
    if !mode.is_two_way() {
        return PlanOutcome::Upload(plan);
    }
    match index {
        Err(error) => PlanOutcome::Fail {
            failure: RetryFailureKind::Transient,
            message: concat("cannot read sync index: ", error.as_str()),
        },
        Ok(index) => PlanOutcome::Probe {
            request: guard_probe(&plan.remote_path, &index, false),
            pending: PendingPlan::Upload { plan, index },
        },
    }
}

/// What [`plan_delete`] decides.
pub open spec fn delete_planned(
    r: PlanOutcome,
    mode: SyncMode,
    plan: PlanView,
    index: Result<Option<SyncIndexEntry>, String>,
    attempts: u32,
    other_half_queued: bool,
) -> bool {
    if mode != SyncMode::TwoWay {
        r matches PlanOutcome::RemoteDelete(p) && p@ == plan
    } else {
        match index {
            Err(error) => is_failure(
                r,
                RetryFailureKind::Transient,
                "cannot read sync index before delete: "@ + error@,
            ),
            Ok(entry) => if entry is Some && waits_for_other_half(attempts, other_half_queued) {
                is_settle_defer(r, DeferReason::UploadMayBeRename)
            } else {
                &&& is_probe_of(r, plan.remote_path, true)
                &&& r matches PlanOutcome::Probe { request, pending }
                &&& guard_hash(entry, request.hash)
                &&& pending matches PendingPlan::Delete { plan: p, index: i }
                &&& p@ == plan
                &&& i == entry
            },
        }
    }
}

fn settle_defer(reason: DeferReason) -> (r: PlanOutcome)
    ensures
        is_settle_defer(r, reason),
{
    PlanOutcome::Defer { delay: Duration::from_secs(MOVE_SETTLE_DELAY_SECONDS), reason }
}

/// Plans a remote delete. Two-way mode first lets a possible rename settle,
/// then probes the remote; a one-way mirror deletes unconditionally.
pub fn plan_delete(
    mode: SyncMode,
    plan: TransferPlan,
    index: Result<Option<SyncIndexEntry>, String>,
    attempts: u32,
    other_half_queued: bool,
) -> (r: PlanOutcome)
    ensures
        delete_planned(r, mode, plan@, index, attempts, other_half_queued),
{
    if !mode.is_two_way() {
        return PlanOutcome::RemoteDelete(plan);
    }
    match index {
        Err(error) => PlanOutcome::Fail {
            failure: RetryFailureKind::Transient,
            message: concat("cannot read sync index before delete: ", error.as_str()),
        },
        Ok(index) => {
            if index.is_some() && attempts < MOVE_SETTLE_MAX_DEFERRALS && (attempts == 0
                || other_half_queued) {
                return settle_defer(DeferReason::UploadMayBeRename);
            }
            PlanOutcome::Probe {
                request: guard_probe(&plan.remote_path, &index, true),
                pending: PendingPlan::Delete { plan, index },
            }
        },
    }
}

/// What planning a download comes to.
pub open spec fn download_planned(
    r: PlanOutcome,
    plan: PlanView,
    containment: Result<(), String>,
) -> bool {
    match containment {
        Err(reason) => is_failure(r, RetryFailureKind::Permanent, reason@),
        Ok(_) => {
            &&& is_probe_of(r, plan.remote_path, false)
            &&& r matches PlanOutcome::Probe { request, pending }
            &&& request.hash is Never
            &&& pending matches PendingPlan::Download { plan: p }
            &&& p@ == plan
        },
    }
}

/// What planning a remote deletion comes to.
pub open spec fn remote_delete_planned(
    r: PlanStep,
    mode: SyncMode,
    remote_path: Seq<char>,
    intent: DurableIntentRecord,
    facts: PlanFacts,
) -> bool {
    match facts.containment {
        Err(reason) => r matches PlanStep::Done(o) && is_failure(
            o,
            RetryFailureKind::Permanent,
            reason@,
        ),
        Ok(_) => if mode != SyncMode::TwoWay {
            r is RemoveLocally
        } else if facts.index matches Ok(Some(_)) && facts.local.is_present()
            && waits_for_other_half(intent.attempt_count, facts.other_half_queued) {
            r matches PlanStep::Done(o) && is_settle_defer(o, DeferReason::DownloadMayBeRename)
        } else {
            &&& r matches PlanStep::Done(o)
            &&& is_probe_of(o, remote_path, false)
            &&& o matches PlanOutcome::Probe { request, pending }
            &&& request.hash is Never
            &&& pending is ApplyRemoteDelete
        },
    }
}

/// Plans one leased intent.
///
/// An intent of a direction the mode gates off completes as a no-op whatever
/// else is true of it, so intents queued before a mode change converge.
pub fn plan_intent(
    env: &PlanEnv,
    intent: &DurableIntentRecord,
    facts: PlanFacts,
    now: SystemTime,
) -> (r: PlanStep)
    ensures
        ({
            let op_id = op_id_of(
                env.device_id@,
                intent.id as int,
                intent.attempt_count as nat,
                crate::clock::millis_since_epoch_spec(now) as nat,
            );
            match env.local_root {
                None => r matches PlanStep::Done(o) && is_failure(
                    o,
                    RetryFailureKind::Permanent,
                    "no local sync directory configured"@,
                ),
                Some(root) => match remote_target(*intent, facts) {
                    Err((failure, message)) => r matches PlanStep::Done(o) && is_failure(
                        o,
                        failure,
                        message,
                    ),
                    Ok(remote) => {
                        let plan = bare_plan(remote, op_id, intent.path@, None);
                        if is_push_kind(intent.kind) && !env.sync_mode.pushes() {
                            r == PlanStep::Done(PlanOutcome::Noop(NoopReason::PushGatedOff))
                        } else if is_pull_kind(intent.kind) && !env.sync_mode.pulls() {
                            r == PlanStep::Done(PlanOutcome::Noop(NoopReason::PullGatedOff))
                        } else {
                            match intent.kind {
                                PendingIntentKind::Upload | PendingIntentKind::Rename => match facts.local {
                                    LocalStat::Directory => r == PlanStep::Done(
                                        PlanOutcome::Noop(NoopReason::DirectoryUpload),
                                    ),
                                    LocalStat::Special => r == PlanStep::Done(
                                        PlanOutcome::Noop(NoopReason::SpecialFile),
                                    ),
                                    LocalStat::Missing => r == PlanStep::Done(
                                        PlanOutcome::Noop(NoopReason::VanishedBeforeUpload),
                                    ),
                                    LocalStat::Unreadable(error) => r matches PlanStep::Done(o)
                                        && is_failure(
                                        o,
                                        RetryFailureKind::Transient,
                                        "cannot stat local file: "@ + error@,
                                    ),
                                    LocalStat::File { .. } => r matches PlanStep::Done(o)
                                        && upload_planned(o, env.sync_mode, plan, facts.index),
                                },
                                PendingIntentKind::Delete => r matches PlanStep::Done(o)
                                    && delete_planned(
                                    o,
                                    env.sync_mode,
                                    plan,
                                    facts.index,
                                    intent.attempt_count,
                                    facts.other_half_queued,
                                ),
                                PendingIntentKind::Download => r matches PlanStep::Done(o)
                                    && download_planned(
                                    o,
                                    bare_plan(
                                        remote,
                                        op_id,
                                        intent.path@,
                                        Some(staging_path_of(intent.path@, root@, op_id)),
                                    ),
                                    facts.containment,
                                ),
                                PendingIntentKind::ApplyRemoteDelete => remote_delete_planned(
                                    r,
                                    env.sync_mode,
                                    remote,
                                    *intent,
                                    facts,
                                ),
                                PendingIntentKind::ReconcileSubtree => r matches PlanStep::Done(o)
                                    && is_failure(
                                    o,
                                    RetryFailureKind::Permanent,
                                    "reconcile intents are routed to the reconcile controller, not the executor"@,
                                ),
                            }
                        }
                    },
                },
            }
        }),
{
    let local_root = match &env.local_root {
        Some(root) => root,
        None => {
            return PlanStep::Done(
                PlanOutcome::Fail {
                    failure: RetryFailureKind::Permanent,
                    message: "no local sync directory configured".to_owned(),
                },
            );
        },
    };
    let remote_path = match resolve_remote_target(intent, &facts) {
        Ok(path) => path,
        Err((failure, message)) => {
            return PlanStep::Done(PlanOutcome::Fail { failure, message });
        },
    };
    let op_id = allocate_op_id(env, intent, now);
    match intent.kind {
        PendingIntentKind::Upload | PendingIntentKind::Rename | PendingIntentKind::Delete => {
            if !env.sync_mode.allows_local_to_remote() {
                return PlanStep::Done(PlanOutcome::Noop(NoopReason::PushGatedOff));
            }
        },
        PendingIntentKind::Download | PendingIntentKind::ApplyRemoteDelete => {
            if !env.sync_mode.allows_remote_to_local() {
                return PlanStep::Done(PlanOutcome::Noop(NoopReason::PullGatedOff));
            }
        },
        PendingIntentKind::ReconcileSubtree => {},
    }
    match intent.kind {
        PendingIntentKind::Upload | PendingIntentKind::Rename => match &facts.local {
            LocalStat::Directory => PlanStep::Done(PlanOutcome::Noop(NoopReason::DirectoryUpload)),
            LocalStat::Special => PlanStep::Done(PlanOutcome::Noop(NoopReason::SpecialFile)),
            LocalStat::Missing => PlanStep::Done(
                PlanOutcome::Noop(NoopReason::VanishedBeforeUpload),
            ),
            LocalStat::Unreadable(error) => PlanStep::Done(
                PlanOutcome::Fail {
                    failure: RetryFailureKind::Transient,
                    message: concat("cannot stat local file: ", error.as_str()),
                },
            ),
            LocalStat::File { .. } => PlanStep::Done(
                plan_upload(
                    env.sync_mode,
                    new_plan(remote_path, op_id, intent.path.clone(), None),
                    facts.index,
                ),
            ),
        },
        PendingIntentKind::Delete => PlanStep::Done(
            plan_delete(
                env.sync_mode,
                new_plan(remote_path, op_id, intent.path.clone(), None),
                facts.index,
                intent.attempt_count,
                facts.other_half_queued,
            ),
        ),
        PendingIntentKind::Download => {
            if let Err(reason) = facts.containment {
                return PlanStep::Done(
                    PlanOutcome::Fail { failure: RetryFailureKind::Permanent, message: reason },
                );
            }
            let staging = staging_path(&intent.path, local_root, op_id.as_str());
            let request = ProbeRequest {
                remote_path: remote_path.clone(),
                want_stat: true,
                hash: ProbeHash::Never,
                want_subtree_listing: false,
            };
            let plan = new_plan(remote_path, op_id, intent.path.clone(), Some(staging));
            PlanStep::Done(
                PlanOutcome::Probe { request, pending: PendingPlan::Download { plan } },
            )
        },
        PendingIntentKind::ApplyRemoteDelete => {
            if let Err(reason) = facts.containment {
                return PlanStep::Done(
                    PlanOutcome::Fail { failure: RetryFailureKind::Permanent, message: reason },
                );
            }
            if !env.sync_mode.is_two_way() {
                return PlanStep::RemoveLocally;
            }
            if matches!(facts.index, Ok(Some(_))) && facts.local.present() && intent.attempt_count
                < MOVE_SETTLE_MAX_DEFERRALS && (intent.attempt_count == 0
                || facts.other_half_queued) {
                return PlanStep::Done(settle_defer(DeferReason::DownloadMayBeRename));
            }
            PlanStep::Done(
                PlanOutcome::Probe {
                    request: ProbeRequest {
                        remote_path,
                        want_stat: true,
                        hash: ProbeHash::Never,
                        want_subtree_listing: false,
                    },
                    pending: PendingPlan::ApplyRemoteDelete,
                },
            )
        },
        PendingIntentKind::ReconcileSubtree => PlanStep::Done(
            PlanOutcome::Fail {
                failure: RetryFailureKind::Permanent,
                message: "reconcile intents are routed to the reconcile controller, not the executor".to_owned(),
            },
        ),
    }
}

// ---------------------------------------------------------------------------
// What planning is for
// ---------------------------------------------------------------------------

/// The sync mode gates the direction: nothing local is sent in pull-only mode
/// and nothing remote is applied in push-only mode, whatever the disk, the
/// index or the queue hold.
pub proof fn law_the_mode_gates_the_direction(
    env: PlanEnv,
    intent: DurableIntentRecord,
    facts: PlanFacts,
    now: SystemTime,
    r: PlanStep,
)
    requires
        call_ensures(plan_intent, (&env, &intent, facts, now), r),
    ensures
        env.sync_mode == SyncMode::PullOnly && (intent.kind == PendingIntentKind::Upload
            || intent.kind == PendingIntentKind::Rename || intent.kind == PendingIntentKind::Delete)
            ==> (r matches PlanStep::Done(outcome) && (outcome is Noop || outcome is Fail)),
        env.sync_mode == SyncMode::PushOnly && (intent.kind == PendingIntentKind::Download
            || intent.kind == PendingIntentKind::ApplyRemoteDelete) ==> (r matches PlanStep::Done(
            outcome,
        ) && (outcome is Noop || outcome is Fail)),
        r == PlanStep::Done(PlanOutcome::Noop(NoopReason::PushGatedOff)) ==> env.sync_mode
            == SyncMode::PullOnly,
        r == PlanStep::Done(PlanOutcome::Noop(NoopReason::PullGatedOff)) ==> env.sync_mode
            == SyncMode::PushOnly,
{
}

/// Only a regular file is uploaded; a two-way upload looks at the remote
/// first, and only a one-way one is sent without looking. The plan works on
/// the intent's own path.
pub proof fn law_only_regular_files_are_uploaded(
    env: PlanEnv,
    intent: DurableIntentRecord,
    facts: PlanFacts,
    now: SystemTime,
    r: PlanStep,
)
    requires
        call_ensures(plan_intent, (&env, &intent, facts, now), r),
    ensures
        r matches PlanStep::Done(PlanOutcome::Upload(plan)) ==> facts.local is File && (intent.kind
            == PendingIntentKind::Upload || intent.kind == PendingIntentKind::Rename)
            && env.sync_mode == SyncMode::PushOnly && plan.local_path@ == intent.path@
            && plan.precondition is Unconditional,
        r matches PlanStep::Done(PlanOutcome::Probe { pending: PendingPlan::Upload { plan, index }, request })
            ==> facts.local is File && (intent.kind == PendingIntentKind::Upload || intent.kind
            == PendingIntentKind::Rename) && env.sync_mode == SyncMode::TwoWay && plan.local_path@
            == intent.path@ && facts.index == Ok::<Option<SyncIndexEntry>, String>(index)
            && request.want_stat && request.remote_path@ == plan.remote_path@,
        (intent.kind == PendingIntentKind::Upload || intent.kind == PendingIntentKind::Rename)
            && facts.local is File && env.local_root is Some && intent.remote_path is None
            && facts.alias == Ok::<Option<String>, String>(None) && facts.mirror is Some
            && env.sync_mode == SyncMode::TwoWay && facts.index is Ok ==> (r matches PlanStep::Done(
            PlanOutcome::Probe { pending: PendingPlan::Upload { plan, .. }, .. },
        ) && plan.remote_path@ == facts.mirror->0@),
        (intent.kind == PendingIntentKind::Upload || intent.kind == PendingIntentKind::Rename)
            && facts.local is File && env.local_root is Some && intent.remote_path is None
            && facts.alias == Ok::<Option<String>, String>(None) && facts.mirror is Some
            && env.sync_mode == SyncMode::PushOnly ==> (r matches PlanStep::Done(
            PlanOutcome::Upload(plan),
        ) && plan.remote_path@ == facts.mirror->0@),
{
}

/// A synced deletion waits once for the create it may be the other half of,
/// and longer, five times at most, only while such a create is queued; each
/// wait is three seconds. A two-way delete then looks at the remote first.
pub proof fn law_a_deletion_waits_for_its_other_half(
    mode: SyncMode,
    plan: TransferPlan,
    index: Option<SyncIndexEntry>,
    attempts: u32,
    other_half_queued: bool,
    r: PlanOutcome,
)
    requires
        call_ensures(plan_delete, (mode, plan, Ok(index), attempts, other_half_queued), r),
    ensures
        r is Defer <==> mode == SyncMode::TwoWay && index is Some && (attempts == 0
            || other_half_queued && attempts < 5),
        r matches PlanOutcome::Defer { delay, .. } ==> delay.nanos == 3_000_000_000,
        r is RemoteDelete <==> mode != SyncMode::TwoWay,
        r matches PlanOutcome::RemoteDelete(p) ==> p.local_path@ == plan.local_path@
            && p.remote_path@ == plan.remote_path@,
        mode == SyncMode::TwoWay && r !is Defer ==> (r matches PlanOutcome::Probe {
            request,
            pending: PendingPlan::Delete { plan: p, index: i },
        } && i == index && p.local_path@ == plan.local_path@ && request.want_stat
            && request.want_subtree_listing && request.remote_path@ == plan.remote_path@),
{
}

/// A remote change is applied only at a place that was found to lie inside the
/// sync root. A two-way deletion from the cloud looks at the remote again
/// before anything is removed; a one-way mirror removes without asking.
pub proof fn law_remote_changes_are_contained(
    env: PlanEnv,
    intent: DurableIntentRecord,
    facts: PlanFacts,
    now: SystemTime,
    r: PlanStep,
)
    requires
        call_ensures(plan_intent, (&env, &intent, facts, now), r),
        intent.kind == PendingIntentKind::Download || intent.kind
            == PendingIntentKind::ApplyRemoteDelete,
    ensures
        facts.containment is Err ==> (r matches PlanStep::Done(outcome) && (outcome is Fail
            || outcome is Noop)),
        r is RemoveLocally ==> env.sync_mode == SyncMode::PullOnly && intent.kind
            == PendingIntentKind::ApplyRemoteDelete && facts.containment is Ok,
        r matches PlanStep::Done(PlanOutcome::Probe { request, pending }) ==> facts.containment is Ok
            && request.want_stat && (pending is Download <==> intent.kind
            == PendingIntentKind::Download) && (pending is ApplyRemoteDelete <==> intent.kind
            == PendingIntentKind::ApplyRemoteDelete),
        r matches PlanStep::Done(PlanOutcome::Probe { pending: PendingPlan::Download { plan }, .. })
            ==> plan.local_path@ == intent.path@ && plan.staging_path is Some,
        r matches PlanStep::Done(PlanOutcome::Defer { delay, .. }) ==> delay.nanos == 3_000_000_000
            && env.sync_mode == SyncMode::TwoWay && intent.kind
            == PendingIntentKind::ApplyRemoteDelete && (facts.local is File || facts.local
            is Directory || facts.local is Special) && (intent.attempt_count == 0
            || facts.other_half_queued && intent.attempt_count < 5),
        !(r matches PlanStep::Done(PlanOutcome::Upload(_))),
        !(r matches PlanStep::Done(PlanOutcome::RemoteDelete(_))),
{
}

proof fn lemma_same_digits(a: Seq<char>, b: Seq<char>, x: Seq<char>, y: Seq<char>)
    requires
        a.push('-') + x == b.push('-') + y,
        a.len() > 0,
        b.len() > 0,
        forall|i: int| 0 < i < a.len() ==> #[trigger] a[i] != '-',
        forall|i: int| 0 < i < b.len() ==> #[trigger] b[i] != '-',
    ensures
        a == b,
        x == y,
{
    let s = a.push('-') + x;
    let t = b.push('-') + y;
    assert(s[a.len() as int] == '-');
    assert(t[b.len() as int] == '-');
    if a.len() < b.len() {
        assert(t[a.len() as int] == b[a.len() as int]);
    }
    if b.len() < a.len() {
        assert(s[b.len() as int] == a[b.len() as int]);
    }
    assert forall|i: int| 0 <= i < a.len() implies a[i] == b[i] by {
        assert(s[i] == a[i] && t[i] == b[i]);
    }
    assert(a =~= b);
    assert(s.skip(a.len() as int + 1) =~= x);
    assert(t.skip(b.len() as int + 1) =~= y);
}

proof fn lemma_signed_has_no_inner_dash(n: int)
    ensures
        signed_decimal(n).len() > 0,
        forall|i: int| 0 < i < signed_decimal(n).len() ==> #[trigger] signed_decimal(n)[i] != '-',
        crate::text::number_of(
            if n < 0 {
                signed_decimal(n).skip(1)
            } else {
                signed_decimal(n)
            },
        ) == if n < 0 {
            -n
        } else {
            n
        },
        n < 0 <==> signed_decimal(n)[0] == '-',
{
    let m = (if n < 0 {
        -n
    } else {
        n
    }) as nat;
    crate::text::lemma_decimal_reads_back(m);
    let d = decimal(m);
    if n < 0 {
        assert(signed_decimal(n).skip(1) =~= d);
        assert forall|i: int| 0 < i < signed_decimal(n).len() implies #[trigger] signed_decimal(
            n,
        )[i] != '-' by {
            assert(signed_decimal(n)[i] == d[i - 1]);
        }
    }
}

/// An operation behind its device: the intent, the attempt and the time, each
/// closed off by a dash.
spec fn op_id_tail(id: int, attempts: nat, millis: nat) -> Seq<char> {
    signed_decimal(id).push('-') + (seq!['a'] + (decimal(attempts).push('-') + (seq!['t']
        + decimal(millis))))
}

proof fn lemma_op_id_shape(device: Seq<char>, id: int, attempts: nat, millis: nat)
    ensures
        op_id_of(device, id, attempts, millis) == (device + "-op"@) + op_id_tail(
            id,
            attempts,
            millis,
        ),
{
    reveal_strlit("-a");
    reveal_strlit("-t");
    let (i, m, p) = (signed_decimal(id), decimal(attempts), decimal(millis));
    let head = device + "-op"@;
    assert("-a"@ =~= seq!['-', 'a']);
    assert("-t"@ =~= seq!['-', 't']);
    assert(m + "-t"@ + p =~= m.push('-') + (seq!['t'] + p));
    assert(head + i + "-a"@ + m + "-t"@ + p =~= head + i + "-a"@ + (m.push('-') + (seq!['t'] + p)));
    assert(i + "-a"@ =~= i.push('-') + seq!['a']);
    assert(op_id_of(device, id, attempts, millis) =~= head + op_id_tail(id, attempts, millis));
}

proof fn lemma_op_id_tails_differ(a: int, b: int, m: nat, n: nat, x: nat, y: nat)
    requires
        op_id_tail(a, m, x) == op_id_tail(b, n, y),
    ensures
        a == b,
        m == n,
{
    let u = decimal(m).push('-') + (seq!['t'] + decimal(x));
    let v = decimal(n).push('-') + (seq!['t'] + decimal(y));
    lemma_signed_has_no_inner_dash(a);
    lemma_signed_has_no_inner_dash(b);
    lemma_same_digits(signed_decimal(a), signed_decimal(b), seq!['a'] + u, seq!['a'] + v);
    assert((seq!['a'] + u).skip(1) =~= u);
    assert((seq!['a'] + v).skip(1) =~= v);
    crate::text::lemma_decimal_reads_back(m);
    crate::text::lemma_decimal_reads_back(n);
    lemma_same_digits(decimal(m), decimal(n), seq!['t'] + decimal(x), seq!['t'] + decimal(y));
}

/// No two attempts share an operation, whichever intents of a device they
/// belong to.
pub proof fn law_no_two_attempts_share_an_operation(
    env: PlanEnv,
    a: DurableIntentRecord,
    b: DurableIntentRecord,
    first: SystemTime,
    second: SystemTime,
    x: String,
    y: String,
)
    requires
        call_ensures(allocate_op_id, (&env, &a, first), x),
        call_ensures(allocate_op_id, (&env, &b, second), y),
        x@ == y@,
    ensures
        a.id == b.id,
        a.attempt_count == b.attempt_count,
{
    let p = crate::clock::millis_since_epoch_spec(first) as nat;
    let q = crate::clock::millis_since_epoch_spec(second) as nat;
    let (m, n) = (a.attempt_count as nat, b.attempt_count as nat);
    let head = env.device_id@ + "-op"@;
    lemma_op_id_shape(env.device_id@, a.id as int, m, p);
    lemma_op_id_shape(env.device_id@, b.id as int, n, q);
    let u = op_id_tail(a.id as int, m, p);
    let v = op_id_tail(b.id as int, n, q);
    assert((head + u).skip(head.len() as int) =~= u);
    assert((head + v).skip(head.len() as int) =~= v);
    lemma_op_id_tails_differ(a.id as int, b.id as int, m, n, p, q);
}

/// In a file name letters, digits, dashes and underscores stay, and everything
/// else becomes a dash.
pub proof fn law_a_file_name_has_plain_characters(raw: &str, r: String)
    requires
        call_ensures(sanitize_for_file_name, (raw,), r),
    ensures
        r@.len() == raw@.len(),
        forall|i: int|
            0 <= i < r@.len() ==> {
                let c = #[trigger] r@[i];
                &&& 'a' <= c <= 'z' || 'A' <= c <= 'Z' || '0' <= c <= '9' || c == '-' || c == '_'
                &&& c == raw@[i] || c == '-'
            },
        forall|i: int|
            0 <= i < r@.len() ==> {
                let c = #[trigger] raw@[i];
                'a' <= c <= 'z' || 'A' <= c <= 'Z' || '0' <= c <= '9' || c == '_' ==> r@[i] == c
            },
{
}

/// A two-way upload looks at the remote first, at the path it will write, and
/// has it hashed only where another writer left it; a mirror uploads at once.
pub proof fn law_a_two_way_upload_looks_first(
    mode: SyncMode,
    plan: TransferPlan,
    index: Result<Option<SyncIndexEntry>, String>,
    r: PlanOutcome,
)
    requires
        call_ensures(plan_upload, (mode, plan, index), r),
    ensures
        !(mode is TwoWay) ==> r is Upload && r->Upload_0@ == plan@,
        mode is TwoWay ==> r is Probe || r is Fail,
        mode is TwoWay && index is Err ==> r is Fail && r->Fail_failure is Transient,
        mode is TwoWay && index is Ok ==> r is Probe && r->request.remote_path@ == plan@.remote_path
            && r->request.want_stat && !r->request.want_subtree_listing,
        mode is TwoWay ==> (index matches Ok(None) ==> r->request.hash is Never),
        mode is TwoWay ==> (index matches Ok(Some(entry)) ==> r->request.hash
            is IfDivergedFrom && r->request.hash->index_op_id == entry.last_op_id),
        mode is TwoWay ==> (index matches Ok(entry) ==> (r->pending matches PendingPlan::Upload {
            plan: p,
            index: i,
        } && p@ == plan@ && i == entry)),
{
}

/// A plan belongs to its intent: it works on the intent's path under an
/// operation of its own, at the remote path that mirrors it. An intent that
/// cannot be planned at all fails for good.
pub proof fn law_a_plan_belongs_to_its_intent(
    env: PlanEnv,
    intent: DurableIntentRecord,
    facts: PlanFacts,
    now: SystemTime,
    op: String,
    r: PlanStep,
)
    requires
        call_ensures(plan_intent, (&env, &intent, facts, now), r),
        call_ensures(allocate_op_id, (&env, &intent, now), op),
        intent.remote_path is None,
        facts.alias == Ok::<Option<String>, String>(None),
    ensures
        env.local_root is None ==> (r matches PlanStep::Done(outcome) && outcome is Fail
            && outcome->Fail_failure is Permanent),
        env.local_root is Some && facts.mirror is None ==> (r matches PlanStep::Done(outcome)
            && outcome is Fail && outcome->Fail_failure is Permanent),
        intent.kind is ReconcileSubtree ==> (r matches PlanStep::Done(outcome) && outcome is Fail
            && outcome->Fail_failure is Permanent),
        r matches PlanStep::Done(PlanOutcome::Upload(plan)) ==> plan@.op_id == op@
            && plan@.remote_path == facts.mirror->0@,
        r matches PlanStep::Done(PlanOutcome::RemoteDelete(plan)) ==> plan@.op_id == op@
            && plan@.remote_path == facts.mirror->0@ && plan@.local_path == intent.path@
            && intent.kind is Delete,
        r matches PlanStep::Done(PlanOutcome::Probe { pending: PendingPlan::Upload { plan, .. }, .. })
            ==> plan@.op_id == op@ && plan@.remote_path == facts.mirror->0@,
        r matches PlanStep::Done(PlanOutcome::Probe { pending: PendingPlan::Delete { plan, .. }, .. })
            ==> plan@.op_id == op@ && plan@.remote_path == facts.mirror->0@ && plan@.local_path
            == intent.path@ && intent.kind is Delete,
        r matches PlanStep::Done(PlanOutcome::Probe { pending: PendingPlan::Download { plan }, .. })
            ==> plan@.op_id == op@ && plan@.remote_path == facts.mirror->0@ && plan@.local_path
            == intent.path@ && intent.kind is Download && plan@.staging_path is Some && (has_parent(
            intent.path@,
        ) ==> plan@.staging_path->0.drop_last() == intent.path@.drop_last()),
{
    let root = env.local_root;
    if root is Some && has_parent(intent.path@) {
        let staged = staging_path_of(intent.path@, root->0@, op@);
        assert(staged.drop_last() =~= intent.path@.drop_last());
    }
}

/// What is not uploaded says why, and a file that cannot be looked at is tried
/// again.
pub proof fn law_a_skipped_upload_says_why(
    env: PlanEnv,
    intent: DurableIntentRecord,
    facts: PlanFacts,
    now: SystemTime,
    r: PlanStep,
)
    requires
        call_ensures(plan_intent, (&env, &intent, facts, now), r),
        intent.kind is Upload || intent.kind is Rename,
        env.local_root is Some,
        env.sync_mode !is PullOnly,
        intent.remote_path is None,
        facts.alias == Ok::<Option<String>, String>(None),
        facts.mirror is Some,
    ensures
        facts.local is Directory <==> r == PlanStep::Done(
            PlanOutcome::Noop(NoopReason::DirectoryUpload),
        ),
        facts.local is Special <==> r == PlanStep::Done(PlanOutcome::Noop(NoopReason::SpecialFile)),
        facts.local is Missing <==> r == PlanStep::Done(
            PlanOutcome::Noop(NoopReason::VanishedBeforeUpload),
        ),
        facts.local is Unreadable ==> (r matches PlanStep::Done(outcome) && outcome is Fail
            && outcome->Fail_failure is Transient),
{
}

/// A remote path given or kept for a name is used as it was checked, before
/// the one that mirrors the local path.
pub proof fn law_a_named_remote_path_goes_first(
    env: PlanEnv,
    intent: DurableIntentRecord,
    facts: PlanFacts,
    now: SystemTime,
    r: PlanStep,
)
    requires
        call_ensures(plan_intent, (&env, &intent, facts, now), r),
        intent.remote_path is Some || (facts.alias matches Ok(Some(_))),
        env.local_root is Some,
    ensures
        facts.checked_alias is Err ==> (r matches PlanStep::Done(outcome) && outcome is Fail
            && outcome->Fail_failure is Permanent),
        r matches PlanStep::Done(PlanOutcome::Upload(plan)) ==> facts.checked_alias is Ok
            && plan@.remote_path == facts.checked_alias->Ok_0@,
        r matches PlanStep::Done(PlanOutcome::RemoteDelete(plan)) ==> facts.checked_alias is Ok
            && plan@.remote_path == facts.checked_alias->Ok_0@,
        r matches PlanStep::Done(PlanOutcome::Probe { request, .. }) ==> facts.checked_alias is Ok
            && request.remote_path@ == facts.checked_alias->Ok_0@,
{
}

/// A deferral says which half of a rename it waits for.
pub proof fn law_a_deferral_names_the_other_half(
    mode: SyncMode,
    plan: TransferPlan,
    index: Result<Option<SyncIndexEntry>, String>,
    attempts: u32,
    other: bool,
    r: PlanOutcome,
)
    requires
        call_ensures(plan_delete, (mode, plan, index, attempts, other), r),
    ensures
        r matches PlanOutcome::Defer { reason, .. } ==> reason == DeferReason::UploadMayBeRename,
        mode is TwoWay && index is Err ==> r is Fail && r->Fail_failure is Transient,
{
}

} // verus!
