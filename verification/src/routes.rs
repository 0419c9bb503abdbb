//! Where an execution goes next: the decisions of every stage, taken on what
//! the caller read or what a provider job brought back.
use vstd::prelude::*;

use crate::clock::SystemTime;
use crate::effects::{effect_views, index_effects, left_behind_effects, observed_time,
    reconcile_local_directory_left_behind, record_delete_tombstone, record_download_index,
    record_remote_move, record_upload_index, recordable_time, remote_move_effects,
    tombstone_effects, download_op_id, Effect, EffectView, FileState, TombstoneOrigin};
use crate::event_intents::PendingIntentKind;
use crate::paths::{FsPath, Part};
use crate::planner::{optional_text, DeferReason, PendingPlan, PlanOutcome, TransferPlan};
use crate::provider_jobs::{open_session, session_to_abort, ProbeHash, ProbeRequest, ProbeResult,
    ProviderJobKind, ProviderJobOutcome, TransferOutcome, TransferPhase, UploadRequest};
use crate::records::{optional_is, same_optional, DurableIntentRecord, LocalStat, ProviderError,
    ProviderErrorKind, RemotePrecondition, RetryFailureKind, SyncIndexEntry, SyncMode};
use crate::text::{concat, decimal, decimal_text, same_text};
use crate::workgate::WorkClass;
use vstd::string::StringExecFns;

verus! {

/// Attempts after which a failure that could be retried is final.
pub const MAX_ATTEMPT_COUNT: u32 = 10;

/// Counters of one advance.
#[derive(Debug, PartialEq, Eq)]
pub struct StagedExecutorReport {
    pub started: usize,
    pub completed: usize,
    pub retried: usize,
    pub failed: usize,
    /// Downloads discarded because their target would alias a
    /// differently-cased local file: target and existing path.
    pub name_collisions: Vec<(FsPath, FsPath)>,
    /// Ids of decisions opened.
    pub decisions_opened: Vec<i64>,
    /// Intents parked behind a decision.
    pub held: usize,
    /// Strict-mirror local removals.
    pub mirror_deletes: usize,
    /// Keep-both conflict copies made.
    pub conflicts: usize,
    /// Renames carried out as moves.
    pub moves: usize,
    /// Provider calls that failed because the cloud sync root is gone.
    pub cloud_root_unavailable: usize,
}

pub struct ReportView {
    pub started: usize,
    pub completed: usize,
    pub retried: usize,
    pub failed: usize,
    pub name_collisions: Seq<(Seq<Part>, Seq<Part>)>,
    pub decisions_opened: Seq<i64>,
    pub held: usize,
    pub mirror_deletes: usize,
    pub conflicts: usize,
    pub moves: usize,
    pub cloud_root_unavailable: usize,
}

pub open spec fn path_pairs(pairs: Seq<(FsPath, FsPath)>) -> Seq<(Seq<Part>, Seq<Part>)> {
    pairs.map_values(|p: (FsPath, FsPath)| (p.0@, p.1@))
}

impl View for StagedExecutorReport {
    type V = ReportView;

    open spec fn view(&self) -> ReportView {
        ReportView {
            started: self.started,
            completed: self.completed,
            retried: self.retried,
            failed: self.failed,
            name_collisions: path_pairs(self.name_collisions@),
            decisions_opened: self.decisions_opened@,
            held: self.held,
            mirror_deletes: self.mirror_deletes,
            conflicts: self.conflicts,
            moves: self.moves,
            cloud_root_unavailable: self.cloud_root_unavailable,
        }
    }
}

/// A counter `by` higher; it stays at its greatest value.
pub open spec fn raised(n: usize, by: nat) -> usize {
    if n + by > usize::MAX {
        usize::MAX
    } else {
        (n + by) as usize
    }
}

fn raise_by(n: usize, by: usize) -> (r: usize)
    ensures
        r == raised(n, by as nat),
{
    if n > usize::MAX - by {
        usize::MAX
    } else {
        n + by
    }
}

impl Default for StagedExecutorReport {
    fn default() -> (r: StagedExecutorReport)
        ensures
            r@ == (ReportView {
                started: 0,
                completed: 0,
                retried: 0,
                failed: 0,
                name_collisions: Seq::empty(),
                decisions_opened: Seq::empty(),
                held: 0,
                mirror_deletes: 0,
                conflicts: 0,
                moves: 0,
                cloud_root_unavailable: 0,
            }),
    {
        let r = StagedExecutorReport {
            started: 0,
            completed: 0,
            retried: 0,
            failed: 0,
            name_collisions: Vec::new(),
            decisions_opened: Vec::new(),
            held: 0,
            mirror_deletes: 0,
            conflicts: 0,
            moves: 0,
            cloud_root_unavailable: 0,
        };
        assert(r@.name_collisions =~= Seq::empty());
        r
    }
}

/// What becomes of the durable row of an execution that ends.
#[derive(Debug, PartialEq, Eq)]
pub enum QueueAction {
    Complete,
    /// Queue an intent of this kind for the path, then complete.
    FollowUp(PendingIntentKind),
    /// Back to the queue until `until`, not counted as an attempt.
    Defer { until: SystemTime, reason: DeferReason },
    /// Already held behind a decision.
    Parked,
    Retry { failure: RetryFailureKind, message: String },
    Fail { failure: RetryFailureKind, message: String },
}

pub enum QueueView {
    Complete,
    FollowUp(PendingIntentKind),
    Defer { until: SystemTime, reason: DeferReason },
    Parked,
    Retry { failure: RetryFailureKind, message: Seq<char> },
    Fail { failure: RetryFailureKind, message: Seq<char> },
}

impl View for QueueAction {
    type V = QueueView;

    open spec fn view(&self) -> QueueView {
        match self {
            QueueAction::Complete => QueueView::Complete,
            QueueAction::FollowUp(kind) => QueueView::FollowUp(*kind),
            QueueAction::Defer { until, reason } => QueueView::Defer {
                until: *until,
                reason: *reason,
            },
            QueueAction::Parked => QueueView::Parked,
            QueueAction::Retry { failure, message } => QueueView::Retry {
                failure: *failure,
                message: message@,
            },
            QueueAction::Fail { failure, message } => QueueView::Fail {
                failure: *failure,
                message: message@,
            },
        }
    }
}

/// Counts a completion, unless the row was no longer leased: then another
/// owner has it, and this execution is dropped without a trace.
pub fn complete(report: &mut StagedExecutorReport, was_leased: bool)
    ensures
        final(report)@ == (ReportView {
            completed: if was_leased {
                raised(old(report)@.completed, 1)
            } else {
                old(report)@.completed
            },
            ..old(report)@
        }),
{
    if was_leased {
        report.completed = raise_by(report.completed, 1);
    }
}

// ---------------------------------------------------------------------------
// Failures
// ---------------------------------------------------------------------------

/// A failure worth another attempt.
pub open spec fn is_retryable(failure: RetryFailureKind) -> bool {
    failure is Transient || failure is RateLimited
}

/// What a failure comes to: another attempt while the budget lasts, else the
/// end. A spent budget makes any failure permanent.
pub open spec fn failure_action(
    attempts: u32,
    failure: RetryFailureKind,
    message: Seq<char>,
) -> QueueView {
    if !is_retryable(failure) {
        QueueView::Fail { failure, message }
    } else if attempts >= MAX_ATTEMPT_COUNT {
        QueueView::Fail {
            failure: RetryFailureKind::Permanent,
            message: message + " (retry budget exhausted after "@ + decimal(attempts as nat)
                + " attempts)"@,
        }
    } else {
        QueueView::Retry { failure, message }
    }
}

pub open spec fn failure_counted(
    attempts: u32,
    failure: RetryFailureKind,
    report: ReportView,
) -> ReportView {
    if is_retryable(failure) && attempts < MAX_ATTEMPT_COUNT {
        ReportView { retried: raised(report.retried, 1), ..report }
    } else {
        ReportView { failed: raised(report.failed, 1), ..report }
    }
}

/// Settles a failed attempt.
pub fn resolve_failure(
    attempts: u32,
    failure: RetryFailureKind,
    message: String,
    report: &mut StagedExecutorReport,
) -> (r: QueueAction)
    ensures
        r@ == failure_action(attempts, failure, message@),
        final(report)@ == failure_counted(attempts, failure, old(report)@),
{
    let retryable = match failure {
        RetryFailureKind::Transient => true,
        RetryFailureKind::RateLimited { .. } => true,
        RetryFailureKind::Authentication => false,
        RetryFailureKind::Permanent => false,
    };
    if !retryable {
        report.failed = raise_by(report.failed, 1);
        return QueueAction::Fail { failure, message };
    }
    if attempts >= MAX_ATTEMPT_COUNT {
        report.failed = raise_by(report.failed, 1);
        let mut exhausted = concat(message.as_str(), " (retry budget exhausted after ");
        exhausted.append(decimal_text(attempts as u128).as_str());
        exhausted.append(" attempts)");
        return QueueAction::Fail { failure: RetryFailureKind::Permanent, message: exhausted };
    }
    report.retried = raise_by(report.retried, 1);
    QueueAction::Retry { failure, message }
}

/// Every failure is either retried or final, and it is retried only while
/// the attempts stay below `MAX_ATTEMPT_COUNT`.
pub proof fn law_retries_are_bounded(
    attempts: u32,
    failure: RetryFailureKind,
    message: Seq<char>,
)
    ensures
        failure_action(attempts, failure, message) is Retry ==> attempts < MAX_ATTEMPT_COUNT,
        failure_action(attempts, failure, message) is Retry || failure_action(
            attempts,
            failure,
            message,
        ) is Fail,
{
}

// ---------------------------------------------------------------------------
// Stages and transitions
// ---------------------------------------------------------------------------

/// What an execution is at.
#[derive(Debug, PartialEq, Eq)]
pub enum ActiveStage {
    Planner,
    /// A remote probe is in flight.
    PlannerProbe { pending: PendingPlan },
    /// The probe is back and planning goes on with it.
    Continuing { pending: PendingPlan, probe: ProbeResult },
    WaitingForHash { plan: TransferPlan },
    /// The file is being hashed; `opened` once it could be opened.
    Hash { plan: TransferPlan, opened: bool },
    WaitingForUpload { plan: TransferPlan },
    /// The upload slot is taken; what to dispatch is being decided.
    UploadAdmission { plan: TransferPlan },
    /// The contents are being compared before the upload.
    UploadPreflight { plan: TransferPlan },
    /// An upload or a remote delete runs on a worker.
    UploadRunning { plan: TransferPlan },
    /// A server-side move stands in for the upload of a renamed file.
    MoveRunning { plan: TransferPlan, source: SyncIndexEntry },
    /// The session was handed back at its checkpoint.
    UploadHeld { plan: TransferPlan, session: u64 },
    WaitingForDownload { plan: TransferPlan },
    DownloadRunning { plan: TransferPlan },
    DownloadHeld { plan: TransferPlan, session: u64 },
    /// The deletion guard is being asked.
    GuardingDeletion { plan: TransferPlan },
    /// Both versions are being kept.
    ResolvingConflict,
    /// The payload is being moved in.
    ApplyingDownload { plan: TransferPlan, outcome: TransferOutcome },
    /// A local file without remote counterpart is being removed.
    RemovingMirror,
}

/// The permit a stage holds.
pub open spec fn permit_class(stage: ActiveStage) -> Option<WorkClass> {
    match stage {
        ActiveStage::Planner | ActiveStage::PlannerProbe { .. } | ActiveStage::Continuing {
            ..
        } => Some(WorkClass::Planner),
        ActiveStage::Hash { .. } => Some(WorkClass::Hash),
        ActiveStage::UploadAdmission { .. } | ActiveStage::UploadPreflight { .. }
        | ActiveStage::UploadRunning { .. } | ActiveStage::MoveRunning { .. }
        | ActiveStage::UploadHeld { .. } => Some(WorkClass::Upload),
        ActiveStage::DownloadRunning { .. } | ActiveStage::DownloadHeld { .. } => Some(
            WorkClass::Download,
        ),
        _ => None,
    }
}

/// Whether a stage holds a permit.
pub fn holds_permit(stage: &ActiveStage) -> (r: bool)
    ensures
        r == permit_class(*stage) is Some,
{
    match stage {
        ActiveStage::Planner | ActiveStage::PlannerProbe { .. } | ActiveStage::Continuing {
            ..
        } => true,
        ActiveStage::Hash { .. } => true,
        ActiveStage::UploadAdmission { .. } | ActiveStage::UploadPreflight { .. }
        | ActiveStage::UploadRunning { .. } | ActiveStage::MoveRunning { .. }
        | ActiveStage::UploadHeld { .. } => true,
        ActiveStage::DownloadRunning { .. } | ActiveStage::DownloadHeld { .. } => true,
        _ => false,
    }
}

/// Where an execution goes.
#[derive(Debug, PartialEq, Eq)]
pub enum Transition {
    /// Nothing changes; a session that came with the input is aborted.
    Stay { stage: ActiveStage, abort: Option<u64> },
    /// To a stage that holds the same permit, or none. The job, if any, is
    /// dispatched; the stage timer restarts or runs on.
    To { stage: ActiveStage, job: Option<ProviderJobKind>, restart: bool },
    /// To the hash slot, as soon as a permit is to be had.
    AwaitHash { plan: TransferPlan },
    AwaitUpload { plan: TransferPlan },
    AwaitDownload { plan: TransferPlan },
    /// The execution ends.
    Leave { action: QueueAction, effects: Vec<Effect>, abort: Option<u64> },
}

/// What a transition out of a stage may be: only to a stage that needs no
/// permit the execution does not hold, and never waiting for a permit of the
/// class it holds.
pub open spec fn fits(from: ActiveStage, t: Transition) -> bool {
    match t {
        Transition::Stay { stage, .. } => stage == from,
        Transition::To { stage, .. } => (permit_class(stage) is None || permit_class(stage)
            == permit_class(from)) && stage !is WaitingForDownload,
        Transition::AwaitHash { .. } => permit_class(from) != Some(WorkClass::Hash),
        Transition::AwaitUpload { .. } => permit_class(from) != Some(WorkClass::Upload),
        Transition::AwaitDownload { plan } => plan.staging_path is Some && permit_class(from)
            != Some(WorkClass::Download),
        Transition::Leave { .. } => true,
    }
}

pub open spec fn leaves(
    t: Transition,
    action: QueueView,
    effects: Seq<EffectView>,
    abort: Option<u64>,
) -> bool {
    &&& t matches Transition::Leave { action: a, effects: e, abort: b }
    &&& a@ == action
    &&& effect_views(e@) == effects
    &&& b == abort
}

pub open spec fn completes(t: Transition, effects: Seq<EffectView>) -> bool {
    leaves(t, QueueView::Complete, effects, None)
}

pub open spec fn moves_to(t: Transition, stage: ActiveStage, restart: bool) -> bool {
    t == (Transition::To { stage, job: None, restart })
}

/// The execution ends with a failure.
pub open spec fn fails(
    t: Transition,
    attempts: u32,
    failure: RetryFailureKind,
    message: Seq<char>,
    abort: Option<u64>,
    before: ReportView,
    after: ReportView,
) -> bool {
    &&& leaves(t, failure_action(attempts, failure, message), Seq::empty(), abort)
    &&& after == failure_counted(attempts, failure, before)
}

/// The execution ends with an error of a provider call.
pub open spec fn provider_fails(
    t: Transition,
    attempts: u32,
    error: ProviderError,
    before: ReportView,
    after: ReportView,
) -> bool {
    fails(
        t,
        attempts,
        error.retry,
        error.message@,
        None,
        if error.kind == ProviderErrorKind::CloudRootUnavailable {
            ReportView { cloud_root_unavailable: raised(before.cloud_root_unavailable, 1), ..before }
        } else {
            before
        },
        after,
    )
}

/// The execution ends with a mismatch of its own making; it is planned anew.
pub open spec fn internal_fails(
    t: Transition,
    attempts: u32,
    message: Seq<char>,
    abort: Option<u64>,
    before: ReportView,
    after: ReportView,
) -> bool {
    fails(
        t,
        attempts,
        RetryFailureKind::Transient,
        "internal error: "@ + message,
        abort,
        before,
        after,
    )
}

/// The execution ends with an outcome its stage cannot apply: a panic in the
/// provider call is final, anything else is a mismatch.
pub open spec fn unexpected(
    t: Transition,
    attempts: u32,
    outcome: ProviderJobOutcome,
    stage: Seq<char>,
    before: ReportView,
    after: ReportView,
) -> bool {
    match outcome {
        ProviderJobOutcome::Panicked(message) => fails(
            t,
            attempts,
            RetryFailureKind::Permanent,
            "provider call panicked during the "@ + stage + " stage: "@ + message@,
            None,
            before,
            after,
        ),
        other => internal_fails(
            t,
            attempts,
            "provider-job outcome did not match the "@ + stage + " stage"@,
            open_session(other),
            before,
            after,
        ),
    }
}

fn leave(action: QueueAction, effects: Vec<Effect>) -> (r: Transition)
    ensures
        leaves(r, action@, effect_views(effects@), None),
{
    Transition::Leave { action, effects, abort: None }
}

fn leave_plainly(action: QueueAction) -> (r: Transition)
    ensures
        leaves(r, action@, Seq::empty(), None),
{
    let effects: Vec<Effect> = Vec::new();
    assert(effect_views(effects@) =~= Seq::empty());
    Transition::Leave { action, effects, abort: None }
}

fn fail(
    attempts: u32,
    failure: RetryFailureKind,
    message: String,
    abort: Option<u64>,
    report: &mut StagedExecutorReport,
) -> (r: Transition)
    ensures
        fails(r, attempts, failure, message@, abort, old(report)@, final(report)@),
{
    let action = resolve_failure(attempts, failure, message, report);
    let effects: Vec<Effect> = Vec::new();
    assert(effect_views(effects@) =~= Seq::empty());
    Transition::Leave { action, effects, abort }
}

/// Ends an execution with an error of a provider call.
pub fn resolve_provider_failure(
    attempts: u32,
    error: ProviderError,
    report: &mut StagedExecutorReport,
) -> (r: Transition)
    ensures
        provider_fails(r, attempts, error, old(report)@, final(report)@),
{
    if matches!(error.kind, ProviderErrorKind::CloudRootUnavailable) {
        report.cloud_root_unavailable = raise_by(report.cloud_root_unavailable, 1);
    }
    fail(attempts, error.retry, error.message, None, report)
}

fn fail_internal(
    attempts: u32,
    message: &str,
    abort: Option<u64>,
    report: &mut StagedExecutorReport,
) -> (r: Transition)
    ensures
        internal_fails(r, attempts, message@, abort, old(report)@, final(report)@),
{
    fail(
        attempts,
        RetryFailureKind::Transient,
        concat("internal error: ", message),
        abort,
        report,
    )
}

fn fail_unexpected_outcome(
    attempts: u32,
    outcome: ProviderJobOutcome,
    stage: &str,
    report: &mut StagedExecutorReport,
) -> (r: Transition)
    ensures
        unexpected(r, attempts, outcome, stage@, old(report)@, final(report)@),
{
    match outcome {
        ProviderJobOutcome::Panicked(message) => {
            let mut text = concat("provider call panicked during the ", stage);
            text.append(" stage: ");
            text.append(message.as_str());
            fail(attempts, RetryFailureKind::Permanent, text, None, report)
        },
        other => {
            let mut text = concat("provider-job outcome did not match the ", stage);
            text.append(" stage");
            fail_internal(attempts, text.as_str(), session_to_abort(&other), report)
        },
    }
}

// ---------------------------------------------------------------------------
// Planner
// ---------------------------------------------------------------------------

/// Where a planner's decision leads.
pub open spec fn plan_routed(
    attempts: u32,
    outcome: PlanOutcome,
    now: SystemTime,
    t: Transition,
    before: ReportView,
    after: ReportView,
) -> bool {
    match outcome {
        PlanOutcome::Noop(_) | PlanOutcome::AppliedLocally => completes(t, Seq::empty()) && after
            == before,
        PlanOutcome::MovedLocally => completes(t, Seq::empty()) && after == (ReportView {
            moves: raised(before.moves, 1),
            ..before
        }),
        PlanOutcome::Defer { delay, reason } => leaves(
            t,
            QueueView::Defer {
                until: SystemTime { nanos: (now.nanos + delay.nanos) as i128 },
                reason,
            },
            Seq::empty(),
            None,
        ) && after == (ReportView { retried: raised(before.retried, 1), ..before }),
        PlanOutcome::Held { held, decisions_opened } => leaves(
            t,
            QueueView::Parked,
            Seq::empty(),
            None,
        ) && after == (ReportView {
            held: raised(before.held, held as nat),
            decisions_opened: before.decisions_opened + decisions_opened@,
            ..before
        }),
        PlanOutcome::ConflictResolved => completes(t, Seq::empty()) && after == (ReportView {
            conflicts: raised(before.conflicts, 1),
            ..before
        }),
        PlanOutcome::Upload(plan) => t == (Transition::AwaitHash { plan }) && after == before,
        PlanOutcome::RemoteDelete(plan) => moves_to(
            t,
            ActiveStage::GuardingDeletion { plan },
            true,
        ) && after == before,
        PlanOutcome::Download(plan) => t == (Transition::AwaitDownload { plan }) && after == before,
        PlanOutcome::Probe { .. } => internal_fails(
            t,
            attempts,
            "probe continuation requested another probe"@,
            None,
            before,
            after,
        ),
        PlanOutcome::Fail { failure, message } => fails(
            t,
            attempts,
            failure,
            message@,
            None,
            before,
            after,
        ),
    }
}

/// Decisions a route can follow: a deferral has to end at a time there is, a
/// download has to have its staging file.
pub open spec fn can_follow(outcome: PlanOutcome, now: SystemTime) -> bool {
    match outcome {
        PlanOutcome::Defer { delay, .. } => now.can_add(delay),
        PlanOutcome::Download(plan) => plan.staging_path is Some,
        _ => true,
    }
}

/// Routes a planner's decision into the pipeline.
pub fn apply_plan_outcome(
    attempts: u32,
    outcome: PlanOutcome,
    now: SystemTime,
    report: &mut StagedExecutorReport,
) -> (r: Transition)
    requires
        can_follow(outcome, now),
    ensures
        plan_routed(attempts, outcome, now, r, old(report)@, final(report)@),
        fits(ActiveStage::Planner, r),
        r !is Stay,
{
    match outcome {
        PlanOutcome::Noop(_) => leave_plainly(QueueAction::Complete),
        PlanOutcome::AppliedLocally => leave_plainly(QueueAction::Complete),
        PlanOutcome::MovedLocally => {
            report.moves = raise_by(report.moves, 1);
            leave_plainly(QueueAction::Complete)
        },
        PlanOutcome::Defer { delay, reason } => {
            report.retried = raise_by(report.retried, 1);
            leave_plainly(QueueAction::Defer { until: now.plus(delay), reason })
        },
        PlanOutcome::Held { held, decisions_opened } => {
            report.held = raise_by(report.held, held);
            let mut opened = decisions_opened;
            report.decisions_opened.append(&mut opened);
            leave_plainly(QueueAction::Parked)
        },
        PlanOutcome::ConflictResolved => {
            report.conflicts = raise_by(report.conflicts, 1);
            leave_plainly(QueueAction::Complete)
        },
        PlanOutcome::Upload(plan) => Transition::AwaitHash { plan },
        PlanOutcome::RemoteDelete(plan) => Transition::To {
            stage: ActiveStage::GuardingDeletion { plan },
            job: None,
            restart: true,
        },
        PlanOutcome::Download(plan) => Transition::AwaitDownload { plan },
        PlanOutcome::Probe { .. } => fail_internal(
            attempts,
            "probe continuation requested another probe",
            None,
            report,
        ),
        PlanOutcome::Fail { failure, message } => fail(attempts, failure, message, None, report),
    }
}

/// A probe that ran into the missing cloud sync root.
pub open spec fn saw_root_unavailable(probe: ProbeResult) -> bool {
    ||| probe.stat matches Some(Err(e)) && e.kind == ProviderErrorKind::CloudRootUnavailable
    ||| probe.content_hash matches Some(Err(e)) && e.kind
        == ProviderErrorKind::CloudRootUnavailable
}

/// Whether a probe found the cloud root gone.
pub fn probe_saw_cloud_root_unavailable(probe: &ProbeResult) -> (r: bool)
    ensures
        r == saw_root_unavailable(*probe),
{
    let in_stat = match &probe.stat {
        Some(Err(error)) => matches!(error.kind, ProviderErrorKind::CloudRootUnavailable),
        _ => false,
    };
    let in_hash = match &probe.content_hash {
        Some(Err(error)) => matches!(error.kind, ProviderErrorKind::CloudRootUnavailable),
        _ => false,
    };
    in_stat || in_hash
}

/// Where the answer to a probe leads: planning goes on with it.
pub open spec fn probe_routed(
    attempts: u32,
    pending: PendingPlan,
    outcome: ProviderJobOutcome,
    t: Transition,
    before: ReportView,
    after: ReportView,
) -> bool {
    match outcome {
        ProviderJobOutcome::Probe(probe) => moves_to(
            t,
            ActiveStage::Continuing { pending, probe },
            false,
        ) && after == if saw_root_unavailable(probe) {
            ReportView { cloud_root_unavailable: raised(before.cloud_root_unavailable, 1), ..before }
        } else {
            before
        },
        other => unexpected(t, attempts, other, "probing"@, before, after),
    }
}

/// Settles a planning probe: what it found goes to the plan that waits for it.
pub fn apply_probe(
    attempts: u32,
    pending: PendingPlan,
    outcome: ProviderJobOutcome,
    report: &mut StagedExecutorReport,
) -> (r: Transition)
    ensures
        probe_routed(attempts, pending, outcome, r, old(report)@, final(report)@),
        r is To || r is Leave,
        r matches Transition::To { stage, .. } ==> stage is Continuing,
{
    match outcome {
        ProviderJobOutcome::Probe(probe) => {
            if probe_saw_cloud_root_unavailable(&probe) {
                report.cloud_root_unavailable = raise_by(report.cloud_root_unavailable, 1);
            }
            Transition::To {
                stage: ActiveStage::Continuing { pending, probe },
                job: None,
                restart: false,
            }
        },
        other => fail_unexpected_outcome(attempts, other, "probing", report),
    }
}

/// Where a decision leads when it may still ask for a probe: the planner may
/// ask for any, a continuation only for the hash that confirms a move.
pub open spec fn decision_routed(
    attempts: u32,
    first: bool,
    outcome: PlanOutcome,
    now: SystemTime,
    t: Transition,
    before: ReportView,
    after: ReportView,
) -> bool {
    match outcome {
        PlanOutcome::Probe { request, pending } if first || pending is DownloadMoveCheck => t
            == (Transition::To {
            stage: ActiveStage::PlannerProbe { pending },
            job: Some(ProviderJobKind::Probe(request)),
            restart: true,
        }) && after == before,
        other => plan_routed(attempts, other, now, t, before, after),
    }
}

/// Routes a planning decision; the first one may ask for a probe.
pub fn apply_decision(
    attempts: u32,
    first: bool,
    outcome: PlanOutcome,
    now: SystemTime,
    report: &mut StagedExecutorReport,
) -> (r: Transition)
    requires
        can_follow(outcome, now),
    ensures
        decision_routed(attempts, first, outcome, now, r, old(report)@, final(report)@),
        fits(ActiveStage::Planner, r),
        r !is Stay,
{
    match outcome {
        PlanOutcome::Probe { request, pending } => {
            let asks = first || matches!(pending, PendingPlan::DownloadMoveCheck { .. });
            if asks {
                Transition::To {
                    stage: ActiveStage::PlannerProbe { pending },
                    job: Some(ProviderJobKind::Probe(request)),
                    restart: true,
                }
            } else {
                apply_plan_outcome(attempts, PlanOutcome::Probe { request, pending }, now, report)
            }
        },
        other => apply_plan_outcome(attempts, other, now, report),
    }
}

// ---------------------------------------------------------------------------
// Hash stage
// ---------------------------------------------------------------------------

/// How opening the file to hash went.
#[derive(Debug, PartialEq, Eq)]
pub enum HashOpen {
    /// Open; size and time of the file as the hash begins.
    Opened(FileState),
    Missing,
    Failed(String),
}

/// How a budgeted hash step went.
#[derive(Debug, PartialEq, Eq)]
pub enum HashAdvance {
    Finished(String),
    More,
    Missing,
    Failed(String),
}

/// Where the opening of the file leads. A file that vanished after planning
/// needs no upload: the pending delete owns it.
pub open spec fn open_routed(
    attempts: u32,
    plan: TransferPlan,
    opened: HashOpen,
    t: Transition,
    before: ReportView,
    after: ReportView,
) -> bool {
    match opened {
        HashOpen::Opened(state) => moves_to(
            t,
            ActiveStage::Hash {
                plan: TransferPlan { hashed_local_state: state, ..plan },
                opened: true,
            },
            true,
        ) && after == before,
        HashOpen::Missing => completes(t, Seq::empty()) && after == before,
        HashOpen::Failed(error) => fails(
            t,
            attempts,
            RetryFailureKind::Transient,
            "cannot open local file for hashing: "@ + error@,
            None,
            before,
            after,
        ),
    }
}

/// Settles the opening of a file to be hashed. A file that vanished leaves
/// nothing to do.
pub fn apply_open(
    attempts: u32,
    plan: TransferPlan,
    opened: HashOpen,
    report: &mut StagedExecutorReport,
) -> (r: Transition)
    ensures
        open_routed(attempts, plan, opened, r, old(report)@, final(report)@),
        r matches Transition::To { stage, .. } ==> stage is Hash,
        r is To || r is Leave,
{
    match opened {
        HashOpen::Opened(state) => {
            let mut plan = plan;
            plan.hashed_local_state = state;
            Transition::To {
                stage: ActiveStage::Hash { plan, opened: true },
                job: None,
                restart: true,
            }
        },
        HashOpen::Missing => leave_plainly(QueueAction::Complete),
        HashOpen::Failed(error) => fail(
            attempts,
            RetryFailureKind::Transient,
            concat("cannot open local file for hashing: ", error.as_str()),
            None,
            report,
        ),
    }
}

/// Where a hash step leads: with the hash complete, to the upload slot.
pub open spec fn hash_routed(
    attempts: u32,
    plan: TransferPlan,
    step: HashAdvance,
    t: Transition,
    before: ReportView,
    after: ReportView,
) -> bool {
    match step {
        HashAdvance::Finished(hash) => t == (Transition::AwaitUpload {
            plan: TransferPlan { content_hash: Some(hash), ..plan },
        }) && after == before,
        HashAdvance::More => t == (Transition::Stay {
            stage: ActiveStage::Hash { plan, opened: true },
            abort: None,
        }) && after == before,
        HashAdvance::Missing => completes(t, Seq::empty()) && after == before,
        HashAdvance::Failed(error) => fails(
            t,
            attempts,
            RetryFailureKind::Transient,
            "hash stage failed: "@ + error@,
            None,
            before,
            after,
        ),
    }
}

/// Settles one budgeted hash step.
pub fn step_hash(
    attempts: u32,
    plan: TransferPlan,
    step: HashAdvance,
    report: &mut StagedExecutorReport,
) -> (r: Transition)
    ensures
        hash_routed(attempts, plan, step, r, old(report)@, final(report)@),
        r matches Transition::Stay { stage, .. } ==> stage == (ActiveStage::Hash {
            plan,
            opened: true,
        }),
        r is Stay || r is AwaitUpload || r is Leave,
{
    match step {
        HashAdvance::Finished(hash) => {
            let mut plan = plan;
            plan.content_hash = Some(hash);
            Transition::AwaitUpload { plan }
        },
        HashAdvance::More => Transition::Stay {
            stage: ActiveStage::Hash { plan, opened: true },
            abort: None,
        },
        HashAdvance::Missing => leave_plainly(QueueAction::Complete),
        HashAdvance::Failed(error) => fail(
            attempts,
            RetryFailureKind::Transient,
            concat("hash stage failed: ", error.as_str()),
            None,
            report,
        ),
    }
}

// ---------------------------------------------------------------------------
// Upload slot
// ---------------------------------------------------------------------------

/// What is read once the upload slot is taken.
#[derive(Debug, PartialEq, Eq)]
pub struct UploadFacts {
    /// Remote time the index holds for the path.
    pub indexed_remote_time: Option<SystemTime>,
    /// Size and time of what stands at the path.
    pub current: FileState,
    /// A synced file whose content this is and which is gone locally.
    pub move_source: Option<SyncIndexEntry>,
    /// Remote path of that file, when it has one.
    pub move_from: Option<String>,
}

pub open spec fn size_of(current: FileState) -> u64 {
    match current {
        Some((size, _)) => size,
        None => 0,
    }
}

fn local_size(current: FileState) -> (r: u64)
    ensures
        r == size_of(current),
{
    match current {
        Some((size, _)) => size,
        None => 0,
    }
}

pub open spec fn upload_job(job: Option<ProviderJobKind>, plan: TransferPlan) -> bool {
    &&& job matches Some(ProviderJobKind::Upload(request))
    &&& request.local_source@ == plan.local_path@
    &&& request.remote_path == plan.remote_path
    &&& request.op_id == plan.op_id
    &&& request.precondition == plan.precondition
}

/// The upload session of the plan starts.
pub open spec fn upload_starts(t: Transition, plan: TransferPlan) -> bool {
    &&& t matches Transition::To { stage, job, restart }
    &&& stage == (ActiveStage::UploadRunning { plan })
    &&& upload_job(job, plan)
    &&& restart
}

/// Starts the upload session of a plan.
pub fn dispatch_upload(plan: TransferPlan) -> (r: Transition)
    ensures
        upload_starts(r, plan),
{
    let request = UploadRequest {
        local_source: plan.local_path.clone(),
        remote_path: plan.remote_path.clone(),
        op_id: plan.op_id.clone(),
        precondition: plan.precondition.clone(),
    };
    Transition::To {
        stage: ActiveStage::UploadRunning { plan },
        job: Some(ProviderJobKind::Upload(request)),
        restart: true,
    }
}

/// The cloud holds exactly the hashed bytes.
pub open spec fn already_uploaded(plan: TransferPlan) -> bool {
    plan.precondition matches RemotePrecondition::HashEquals(expected) && same_optional(
        plan.content_hash,
        expected@,
    )
}

/// What the upload slot is used for: a remote delete, nothing at all when
/// the cloud holds the bytes already, a server-side move, a comparison of
/// contents, or the upload.
pub open spec fn admission_routed(
    kind: PendingIntentKind,
    plan: TransferPlan,
    facts: UploadFacts,
    t: Transition,
) -> bool {
    if kind == PendingIntentKind::Delete {
        t == (Transition::To {
            stage: ActiveStage::UploadRunning { plan },
            job: Some(
                ProviderJobKind::RemoteDelete { remote_path: plan.remote_path, op_id: plan.op_id },
            ),
            restart: true,
        })
    } else if already_uploaded(plan) {
        completes(
            t,
            index_effects(
                plan@.local_path,
                plan.content_hash->0@,
                size_of(facts.current),
                recordable_time(plan@, facts.current),
                facts.indexed_remote_time,
                plan@.op_id,
            ),
        )
    } else if facts.move_source is Some {
        match facts.move_from {
            Some(from) => t == (Transition::To {
                stage: ActiveStage::MoveRunning { plan, source: facts.move_source->0 },
                job: Some(
                    ProviderJobKind::Move { from, to: plan.remote_path, op_id: plan.op_id },
                ),
                restart: true,
            }),
            None => upload_starts(t, plan),
        }
    } else if plan.verify_remote_before_upload {
        t == (Transition::To {
            stage: ActiveStage::UploadPreflight { plan },
            job: Some(
                ProviderJobKind::Probe(
                    ProbeRequest {
                        remote_path: plan.remote_path,
                        want_stat: true,
                        hash: ProbeHash::Always,
                        want_subtree_listing: false,
                    },
                ),
            ),
            restart: true,
        })
    } else {
        upload_starts(t, plan)
    }
}

/// Decides what the upload slot is used for.
pub fn step_waiting_for_upload(
    kind: PendingIntentKind,
    plan: TransferPlan,
    facts: UploadFacts,
) -> (r: Transition)
    ensures
        admission_routed(kind, plan, facts, r),
        r is To || r is Leave,
        r matches Transition::To { stage, .. } ==> permit_class(stage) == Some(WorkClass::Upload),
{
    if matches!(kind, PendingIntentKind::Delete) {
        let job = ProviderJobKind::RemoteDelete {
            remote_path: plan.remote_path.clone(),
            op_id: plan.op_id.clone(),
        };
        return Transition::To {
            stage: ActiveStage::UploadRunning { plan },
            job: Some(job),
            restart: true,
        };
    }
    if let RemotePrecondition::HashEquals(expected) = &plan.precondition {
        if optional_is(&plan.content_hash, expected) {
            let effects = record_upload_index(
                &plan,
                expected,
                local_size(facts.current),
                facts.indexed_remote_time,
                facts.current,
            );
            return leave(QueueAction::Complete, effects);
        }
    }
    if let Some(source) = facts.move_source {
        return match facts.move_from {
            Some(from) => {
                let job = ProviderJobKind::Move {
                    from,
                    to: plan.remote_path.clone(),
                    op_id: plan.op_id.clone(),
                };
                Transition::To {
                    stage: ActiveStage::MoveRunning { plan, source },
                    job: Some(job),
                    restart: true,
                }
            },
            None => dispatch_upload(plan),
        };
    }
    if plan.verify_remote_before_upload {
        let request = ProbeRequest {
            remote_path: plan.remote_path.clone(),
            want_stat: true,
            hash: ProbeHash::Always,
            want_subtree_listing: false,
        };
        return Transition::To {
            stage: ActiveStage::UploadPreflight { plan },
            job: Some(ProviderJobKind::Probe(request)),
            restart: true,
        };
    }
    dispatch_upload(plan)
}

/// What is read beside a job's outcome.
#[derive(Debug, PartialEq, Eq)]
pub struct OutcomeFacts {
    /// What stands at the plan's local path.
    pub local: LocalStat,
    /// Its size and time.
    pub current: FileState,
    /// Nothing readable stands at the intent's path.
    pub source_missing: bool,
    /// Remote path a move came from; empty when there is none.
    pub moved_from: String,
}

pub open spec fn equal_texts(a: Option<String>, b: Option<String>) -> bool {
    optional_text(a) == optional_text(b)
}

fn same_texts(a: &Option<String>, b: &Option<String>) -> (r: bool)
    ensures
        r == equal_texts(*a, *b),
{
    match (a, b) {
        (Some(x), Some(y)) => same_text(x.as_str(), y.as_str()),
        (None, None) => true,
        _ => false,
    }
}

/// Remote time the probe's stat found.
pub open spec fn probed_time(probe: ProbeResult) -> Option<SystemTime> {
    match probe.entry_found() {
        Some(entry) => Some(entry.modified_at),
        None => None,
    }
}

/// Where the comparison of contents leads. Equal contents converge silently.
/// A local copy that is what was last synced makes the change remote-only: it
/// is fetched. A remote copy that is what was last synced makes the change
/// local-only: it is overwritten under guard. Otherwise both are kept. A
/// vanished remote is created anew, under guard.
pub open spec fn preflight_routed(
    attempts: u32,
    plan: TransferPlan,
    outcome: ProviderJobOutcome,
    facts: OutcomeFacts,
    t: Transition,
    before: ReportView,
    after: ReportView,
) -> bool {
    match outcome {
        ProviderJobOutcome::Probe(probe) => match probe.content_hash {
            Some(Ok(hash)) => after == before && if same_optional(plan.content_hash, hash@) {
                completes(
                    t,
                    index_effects(
                        plan@.local_path,
                        hash@,
                        size_of(facts.current),
                        recordable_time(plan@, facts.current),
                        probed_time(probe),
                        plan@.op_id,
                    ),
                )
            } else if plan.last_synced_hash is Some && equal_texts(
                plan.content_hash,
                plan.last_synced_hash,
            ) {
                leaves(
                    t,
                    QueueView::FollowUp(PendingIntentKind::Download),
                    Seq::empty(),
                    None,
                )
            } else if same_optional(plan.last_synced_hash, hash@) {
                upload_starts(
                    t,
                    TransferPlan { precondition: RemotePrecondition::HashEquals(hash), ..plan },
                )
            } else {
                moves_to(t, ActiveStage::ResolvingConflict, false)
            },
            Some(Err(error)) => if error.kind == ProviderErrorKind::NotFound {
                upload_starts(t, TransferPlan { precondition: RemotePrecondition::Absent, ..plan })
                    && after == before
            } else {
                provider_fails(t, attempts, error, before, after)
            },
            None => internal_fails(
                t,
                attempts,
                "upload preflight probe returned no content hash"@,
                None,
                before,
                after,
            ),
        },
        other => unexpected(t, attempts, other, "preflight"@, before, after),
    }
}

/// Settles the comparison of contents before an upload.
pub fn apply_preflight(
    attempts: u32,
    plan: TransferPlan,
    outcome: ProviderJobOutcome,
    facts: OutcomeFacts,
    report: &mut StagedExecutorReport,
) -> (r: Transition)
    ensures
        preflight_routed(attempts, plan, outcome, facts, r, old(report)@, final(report)@),
        r is To || r is Leave,
        r matches Transition::To { stage, .. } ==> stage is UploadRunning
            || stage is ResolvingConflict,
{
    match outcome {
        ProviderJobOutcome::Probe(probe) => {
            let remote_modified_at = match probe.found() {
                Some(entry) => Some(entry.modified_at),
                None => None,
            };
            match probe.content_hash {
                Some(Ok(hash)) => {
                    if optional_is(&plan.content_hash, &hash) {
                        let effects = record_upload_index(
                            &plan,
                            &hash,
                            local_size(facts.current),
                            remote_modified_at,
                            facts.current,
                        );
                        return leave(QueueAction::Complete, effects);
                    }
                    if plan.last_synced_hash.is_some() && same_texts(
                        &plan.content_hash,
                        &plan.last_synced_hash,
                    ) {
                        return leave_plainly(QueueAction::FollowUp(PendingIntentKind::Download));
                    }
                    if optional_is(&plan.last_synced_hash, &hash) {
                        let mut plan = plan;
                        plan.precondition = RemotePrecondition::HashEquals(hash);
                        return dispatch_upload(plan);
                    }
                    Transition::To {
                        stage: ActiveStage::ResolvingConflict,
                        job: None,
                        restart: false,
                    }
                },
                Some(Err(error)) => {
                    if matches!(error.kind, ProviderErrorKind::NotFound) {
                        let mut plan = plan;
                        plan.precondition = RemotePrecondition::Absent;
                        return dispatch_upload(plan);
                    }
                    resolve_provider_failure(attempts, error, report)
                },
                None => fail_internal(
                    attempts,
                    "upload preflight probe returned no content hash",
                    None,
                    report,
                ),
            }
        },
        other => fail_unexpected_outcome(attempts, other, "preflight", report),
    }
}

/// Errors of a move after which the plain upload is right: the source is
/// gone, the destination is taken, or the backend cannot move.
pub open spec fn move_impossible(kind: ProviderErrorKind) -> bool {
    kind == ProviderErrorKind::NotFound || kind == ProviderErrorKind::PreconditionFailed || kind
        == ProviderErrorKind::Permanent
}

pub open spec fn move_routed(
    attempts: u32,
    plan: TransferPlan,
    source: SyncIndexEntry,
    outcome: ProviderJobOutcome,
    facts: OutcomeFacts,
    t: Transition,
    before: ReportView,
    after: ReportView,
) -> bool {
    match outcome {
        ProviderJobOutcome::Move(Ok(_)) => completes(
            t,
            remote_move_effects(plan@, source, facts.moved_from@, facts.current),
        ) && after == (ReportView { moves: raised(before.moves, 1), ..before }),
        ProviderJobOutcome::Move(Err(error)) => if move_impossible(error.kind) {
            upload_starts(t, plan) && after == before
        } else {
            provider_fails(t, attempts, error, before, after)
        },
        other => unexpected(t, attempts, other, "move"@, before, after),
    }
}

/// Settles a server-side move.
pub fn apply_move(
    attempts: u32,
    plan: TransferPlan,
    source: SyncIndexEntry,
    outcome: ProviderJobOutcome,
    facts: OutcomeFacts,
    report: &mut StagedExecutorReport,
) -> (r: Transition)
    ensures
        move_routed(attempts, plan, source, outcome, facts, r, old(report)@, final(report)@),
        r is To || r is Leave,
        r matches Transition::To { stage, .. } ==> stage is UploadRunning,
{
    match outcome {
        ProviderJobOutcome::Move(Ok(_)) => {
            let effects = record_remote_move(&plan, &source, &facts.moved_from, facts.current);
            report.moves = raise_by(report.moves, 1);
            leave(QueueAction::Complete, effects)
        },
        ProviderJobOutcome::Move(Err(error)) => {
            let impossible = matches!(
                error.kind,
                ProviderErrorKind::NotFound | ProviderErrorKind::PreconditionFailed
                    | ProviderErrorKind::Permanent
            );
            if impossible {
                dispatch_upload(plan)
            } else {
                resolve_provider_failure(attempts, error, report)
            }
        },
        other => fail_unexpected_outcome(attempts, other, "move", report),
    }
}

/// Effects of a carried-out remote delete.
pub open spec fn remote_delete_effects(plan: TransferPlan, local: LocalStat) -> Seq<EffectView> {
    seq![EffectView::EchoRemoteDelete { remote_path: plan.remote_path@ }] + tombstone_effects(
        plan.local_path@,
        TombstoneOrigin::Local,
    ) + left_behind_effects(plan.local_path@, local)
}

fn record_remote_delete(plan: &TransferPlan, local: &LocalStat) -> (r: Vec<Effect>)
    ensures
        effect_views(r@) == remote_delete_effects(*plan, *local),
{
    let mut effects: Vec<Effect> = Vec::new();
    effects.push(Effect::EchoRemoteDelete { remote_path: plan.remote_path.clone() });
    let mut tombstone = record_delete_tombstone(&plan.local_path, TombstoneOrigin::Local);
    let mut behind = reconcile_local_directory_left_behind(&plan.local_path, local);
    let ghost first = effects@;
    let ghost second = tombstone@;
    let ghost third = behind@;
    effects.append(&mut tombstone);
    effects.append(&mut behind);
    assert(effect_views(effects@) =~= effect_views(first) + effect_views(second) + effect_views(
        third,
    ));
    assert(effect_views(first) =~= seq![
        EffectView::EchoRemoteDelete { remote_path: plan.remote_path@ },
    ]);
    effects
}

/// Effects of a finished upload.
pub open spec fn uploaded_effects(
    plan: TransferPlan,
    outcome: TransferOutcome,
    current: FileState,
) -> Seq<EffectView> {
    seq![
        EffectView::EchoRemoteWrite {
            remote_path: plan.remote_path@,
            op_id: plan.op_id@,
            content_hash: outcome.content_hash@,
            size_bytes: outcome.bytes_total,
        },
    ] + index_effects(
        plan@.local_path,
        outcome.content_hash@,
        outcome.bytes_total,
        recordable_time(plan@, current),
        outcome.remote_modified_at,
        plan@.op_id,
    )
}

fn record_uploaded(plan: &TransferPlan, outcome: &TransferOutcome, current: FileState) -> (r: Vec<
    Effect,
>)
    ensures
        effect_views(r@) == uploaded_effects(*plan, *outcome, current),
{
    let mut effects: Vec<Effect> = Vec::new();
    effects.push(
        Effect::EchoRemoteWrite {
            remote_path: plan.remote_path.clone(),
            op_id: plan.op_id.clone(),
            content_hash: outcome.content_hash.clone(),
            size_bytes: outcome.bytes_total,
        },
    );
    let mut index = record_upload_index(
        plan,
        &outcome.content_hash,
        outcome.bytes_total,
        outcome.remote_modified_at,
        current,
    );
    let ghost first = effects@;
    let ghost second = index@;
    effects.append(&mut index);
    assert(effect_views(effects@) =~= effect_views(first) + effect_views(second));
    assert(effect_views(effects@) =~= uploaded_effects(*plan, *outcome, current));
    effects
}

/// Where the end of an upload or remote delete leads. Deleting what is gone
/// is success. A guarded upload that lost the race keeps both. An upload
/// whose source vanished has nothing left to carry.
pub open spec fn upload_routed(
    intent: DurableIntentRecord,
    mode: SyncMode,
    plan: TransferPlan,
    outcome: ProviderJobOutcome,
    facts: OutcomeFacts,
    t: Transition,
    before: ReportView,
    after: ReportView,
) -> bool {
    match outcome {
        ProviderJobOutcome::RemoteDelete(result) => match result {
            Ok(_) => completes(t, remote_delete_effects(plan, facts.local)) && after == before,
            Err(error) => if error.kind == ProviderErrorKind::NotFound {
                completes(t, remote_delete_effects(plan, facts.local)) && after == before
            } else {
                provider_fails(t, intent.attempt_count, error, before, after)
            },
        },
        ProviderJobOutcome::TransferCompleted(done) => completes(
            t,
            uploaded_effects(plan, done, facts.current),
        ) && after == before,
        ProviderJobOutcome::TransferHeld { session } => moves_to(
            t,
            ActiveStage::UploadHeld { plan, session },
            false,
        ) && after == before,
        ProviderJobOutcome::TransferFailed { error, phase } => if phase == TransferPhase::Step
            && error.kind == ProviderErrorKind::PreconditionFailed && mode == SyncMode::TwoWay {
            moves_to(t, ActiveStage::ResolvingConflict, false) && after == before
        } else if intent.kind != PendingIntentKind::Delete && error.kind
            == ProviderErrorKind::NotFound && facts.source_missing {
            completes(t, Seq::empty()) && after == before
        } else {
            provider_fails(t, intent.attempt_count, error, before, after)
        },
        other => unexpected(t, intent.attempt_count, other, "upload"@, before, after),
    }
}

/// Settles the end of an upload or a remote delete.
pub fn apply_upload(
    intent: &DurableIntentRecord,
    mode: SyncMode,
    plan: TransferPlan,
    outcome: ProviderJobOutcome,
    facts: OutcomeFacts,
    report: &mut StagedExecutorReport,
) -> (r: Transition)
    ensures
        upload_routed(*intent, mode, plan, outcome, facts, r, old(report)@, final(report)@),
        r is To || r is Leave,
        r matches Transition::To { stage, .. } ==> stage is UploadHeld
            || stage is ResolvingConflict,
{
    let attempts: u32 = intent.attempt_count;
    match outcome {
        ProviderJobOutcome::RemoteDelete(result) => match result {
            Ok(_) => leave(QueueAction::Complete, record_remote_delete(&plan, &facts.local)),
            Err(error) => if matches!(error.kind, ProviderErrorKind::NotFound) {
                leave(QueueAction::Complete, record_remote_delete(&plan, &facts.local))
            } else {
                resolve_provider_failure(attempts, error, report)
            },
        },
        ProviderJobOutcome::TransferCompleted(done) => leave(
            QueueAction::Complete,
            record_uploaded(&plan, &done, facts.current),
        ),
        ProviderJobOutcome::TransferHeld { session } => Transition::To {
            stage: ActiveStage::UploadHeld { plan, session },
            job: None,
            restart: false,
        },
        ProviderJobOutcome::TransferFailed { error, phase } => {
            if matches!(phase, TransferPhase::Step) && matches!(
                error.kind,
                ProviderErrorKind::PreconditionFailed
            ) && mode.is_two_way() {
                return Transition::To {
                    stage: ActiveStage::ResolvingConflict,
                    job: None,
                    restart: false,
                };
            }
            if !matches!(intent.kind, PendingIntentKind::Delete) && matches!(
                error.kind,
                ProviderErrorKind::NotFound
            ) && facts.source_missing {
                return leave_plainly(QueueAction::Complete);
            }
            resolve_provider_failure(attempts, error, report)
        },
        other => fail_unexpected_outcome(attempts, other, "upload", report),
    }
}

// ---------------------------------------------------------------------------
// Download
// ---------------------------------------------------------------------------

/// Where the end of a download leads. A payload is applied. A remote object
/// that vanished leaves nothing to fetch; in a strict mirror the local file
/// is then local-only content and goes.
pub open spec fn download_routed(
    attempts: u32,
    mode: SyncMode,
    plan: TransferPlan,
    outcome: ProviderJobOutcome,
    t: Transition,
    before: ReportView,
    after: ReportView,
) -> bool {
    match outcome {
        ProviderJobOutcome::TransferCompleted(done) => moves_to(
            t,
            ActiveStage::ApplyingDownload { plan, outcome: done },
            false,
        ) && after == before,
        ProviderJobOutcome::TransferHeld { session } => moves_to(
            t,
            ActiveStage::DownloadHeld { plan, session },
            false,
        ) && after == before,
        ProviderJobOutcome::TransferFailed { error, phase } => if error.kind
            != ProviderErrorKind::NotFound {
            provider_fails(t, attempts, error, before, after)
        } else if phase == TransferPhase::Begin && mode == SyncMode::PullOnly {
            moves_to(t, ActiveStage::RemovingMirror, false) && after == before
        } else {
            completes(t, Seq::empty()) && after == before
        },
        other => unexpected(t, attempts, other, "download"@, before, after),
    }
}

/// Settles the end of a download.
pub fn apply_download(
    attempts: u32,
    mode: SyncMode,
    plan: TransferPlan,
    outcome: ProviderJobOutcome,
    report: &mut StagedExecutorReport,
) -> (r: Transition)
    ensures
        download_routed(attempts, mode, plan, outcome, r, old(report)@, final(report)@),
        r is To || r is Leave,
        r matches Transition::To { stage, .. } ==> stage is ApplyingDownload
            || stage is DownloadHeld || stage is RemovingMirror,
{
    match outcome {
        ProviderJobOutcome::TransferCompleted(done) => Transition::To {
            stage: ActiveStage::ApplyingDownload { plan, outcome: done },
            job: None,
            restart: false,
        },
        ProviderJobOutcome::TransferHeld { session } => Transition::To {
            stage: ActiveStage::DownloadHeld { plan, session },
            job: None,
            restart: false,
        },
        ProviderJobOutcome::TransferFailed { error, phase } => {
            if !matches!(error.kind, ProviderErrorKind::NotFound) {
                return resolve_provider_failure(attempts, error, report);
            }
            if matches!(phase, TransferPhase::Begin) && matches!(mode, SyncMode::PullOnly) {
                return Transition::To {
                    stage: ActiveStage::RemovingMirror,
                    job: None,
                    restart: false,
                };
            }
            leave_plainly(QueueAction::Complete)
        },
        other => fail_unexpected_outcome(attempts, other, "download", report),
    }
}

/// How moving a payload in went.
#[derive(Debug, PartialEq, Eq)]
pub enum PayloadResult {
    /// The target would alias this differently-cased local file.
    Collision(FsPath),
    /// Moved in; `conflict` when the displaced content was kept as a copy.
    Applied { conflict: bool, current: FileState },
    Failed(String),
}

pub open spec fn discarded_effects(plan: TransferPlan) -> Seq<EffectView> {
    match plan.staging_path {
        Some(staging) => seq![EffectView::RemoveFile { path: staging@ }],
        None => Seq::empty(),
    }
}

/// Effects of a payload moved in: it is tagged with the operation, so the
/// watcher's echo of it can be told.
pub open spec fn downloaded_effects(
    plan: TransferPlan,
    outcome: TransferOutcome,
    current: FileState,
) -> Seq<EffectView> {
    seq![
        EffectView::WriteTag { path: plan.local_path@, op_id: plan.op_id@ },
        EffectView::EchoLocalWrite {
            path: plan.local_path@,
            op_id: Some(plan.op_id@),
            content_hash: outcome.content_hash@,
            size_bytes: outcome.bytes_total,
        },
    ] + index_effects(
        plan@.local_path,
        outcome.content_hash@,
        outcome.bytes_total,
        observed_time(current),
        outcome.remote_modified_at,
        download_op_id(plan@),
    )
}

/// Where a moved-in payload leads. One that would alias another local file
/// is discarded and reported.
pub open spec fn payload_routed(
    attempts: u32,
    plan: TransferPlan,
    outcome: TransferOutcome,
    result: PayloadResult,
    t: Transition,
    before: ReportView,
    after: ReportView,
) -> bool {
    match result {
        PayloadResult::Collision(existing) => completes(t, discarded_effects(plan)) && after == (
        ReportView {
            name_collisions: before.name_collisions.push((plan.local_path@, existing@)),
            ..before
        }),
        PayloadResult::Applied { conflict, current } => completes(
            t,
            downloaded_effects(plan, outcome, current),
        ) && after == if conflict {
            ReportView { conflicts: raised(before.conflicts, 1), ..before }
        } else {
            before
        },
        PayloadResult::Failed(message) => fails(
            t,
            attempts,
            RetryFailureKind::Transient,
            message@,
            None,
            before,
            after,
        ),
    }
}

/// Settles a payload that was to be moved in.
pub fn apply_payload(
    attempts: u32,
    plan: TransferPlan,
    outcome: TransferOutcome,
    result: PayloadResult,
    report: &mut StagedExecutorReport,
) -> (r: Transition)
    ensures
        payload_routed(attempts, plan, outcome, result, r, old(report)@, final(report)@),
        r is Leave,
{
    match result {
        PayloadResult::Collision(existing) => {
            let mut effects: Vec<Effect> = Vec::new();
            if let Some(staging) = &plan.staging_path {
                effects.push(Effect::RemoveFile { path: staging.clone() });
            }
            assert(effect_views(effects@) =~= discarded_effects(plan));
            let ghost before = report@;
            report.name_collisions.push((plan.local_path, existing));
            assert(report@.name_collisions =~= before.name_collisions.push(
                (plan.local_path@, existing@),
            ));
            leave(QueueAction::Complete, effects)
        },
        PayloadResult::Applied { conflict, current } => {
            if conflict {
                report.conflicts = raise_by(report.conflicts, 1);
            }
            let mut effects: Vec<Effect> = Vec::new();
            effects.push(
                Effect::WriteTag { path: plan.local_path.clone(), op_id: plan.op_id.clone() },
            );
            effects.push(
                Effect::EchoLocalWrite {
                    path: plan.local_path.clone(),
                    op_id: Some(plan.op_id.clone()),
                    content_hash: outcome.content_hash.clone(),
                    size_bytes: outcome.bytes_total,
                },
            );
            let mut index = record_download_index(
                &plan,
                &outcome.content_hash,
                outcome.bytes_total,
                outcome.remote_modified_at,
                current,
            );
            let ghost first = effects@;
            let ghost second = index@;
            effects.append(&mut index);
            assert(effect_views(effects@) =~= effect_views(first) + effect_views(second));
            assert(effect_views(effects@) =~= downloaded_effects(plan, outcome, current));
            leave(QueueAction::Complete, effects)
        },
        PayloadResult::Failed(message) => fail(
            attempts,
            RetryFailureKind::Transient,
            message,
            None,
            report,
        ),
    }
}

// ---------------------------------------------------------------------------
// Guard, conflict and mirror
// ---------------------------------------------------------------------------

/// Answer of the deletion guard.
#[derive(Clone, Copy, Debug, PartialEq, Eq)]
pub enum GuardAnswer {
    Pass,
    /// Held behind a decision, opened for this one or already open.
    Held { opened: Option<i64> },
}

pub open spec fn guard_routed(
    plan: TransferPlan,
    answer: GuardAnswer,
    t: Transition,
    before: ReportView,
    after: ReportView,
) -> bool {
    match answer {
        GuardAnswer::Pass => t == (Transition::AwaitUpload { plan }) && after == before,
        GuardAnswer::Held { opened } => leaves(t, QueueView::Parked, Seq::empty(), None) && after
            == held_counted(opened, before),
    }
}

pub open spec fn held_counted(opened: Option<i64>, report: ReportView) -> ReportView {
    ReportView {
        held: raised(report.held, 1),
        decisions_opened: match opened {
            Some(id) => report.decisions_opened.push(id),
            None => report.decisions_opened,
        },
        ..report
    }
}

/// Counts an intent parked behind a decision.
pub fn count_held(opened: Option<i64>, report: &mut StagedExecutorReport)
    ensures
        final(report)@ == held_counted(opened, old(report)@),
{
    report.held = raise_by(report.held, 1);
    if let Some(id) = opened {
        report.decisions_opened.push(id);
    }
}

/// Settles the deletion guard's answer.
pub fn apply_guard(plan: TransferPlan, answer: GuardAnswer, report: &mut StagedExecutorReport) -> (r:
    Transition)
    ensures
        guard_routed(plan, answer, r, old(report)@, final(report)@),
        r is AwaitUpload || r is Leave,
{
    match answer {
        GuardAnswer::Pass => Transition::AwaitUpload { plan },
        GuardAnswer::Held { opened } => {
            count_held(opened, report);
            leave_plainly(QueueAction::Parked)
        },
    }
}

/// Outcomes a conflict resolution can have.
pub open spec fn settles_conflict(outcome: PlanOutcome) -> bool {
    outcome is ConflictResolved || outcome is Noop || outcome is Fail
}

/// Outcomes a local removal can have.
pub open spec fn settles_removal(outcome: PlanOutcome) -> bool {
    outcome is AppliedLocally || outcome is Noop || outcome is Fail
}

/// Where a conflict resolution leads.
pub open spec fn conflict_routed(
    attempts: u32,
    outcome: PlanOutcome,
    t: Transition,
    before: ReportView,
    after: ReportView,
) -> bool {
    match outcome {
        PlanOutcome::Fail { failure, message } => fails(
            t,
            attempts,
            failure,
            message@,
            None,
            before,
            after,
        ),
        PlanOutcome::ConflictResolved => completes(t, Seq::empty()) && after == (ReportView {
            conflicts: raised(before.conflicts, 1),
            ..before
        }),
        _ => completes(t, Seq::empty()) && after == before,
    }
}

/// Ends an execution whose conflict was settled.
pub fn finish_as_conflict(
    attempts: u32,
    outcome: PlanOutcome,
    report: &mut StagedExecutorReport,
) -> (r: Transition)
    requires
        settles_conflict(outcome),
    ensures
        conflict_routed(attempts, outcome, r, old(report)@, final(report)@),
        r is Leave,
{
    match outcome {
        PlanOutcome::Fail { failure, message } => fail(attempts, failure, message, None, report),
        PlanOutcome::ConflictResolved => {
            report.conflicts = raise_by(report.conflicts, 1);
            leave_plainly(QueueAction::Complete)
        },
        _ => leave_plainly(QueueAction::Complete),
    }
}

/// Where a strict-mirror removal leads.
pub open spec fn mirror_routed(
    attempts: u32,
    outcome: PlanOutcome,
    t: Transition,
    before: ReportView,
    after: ReportView,
) -> bool {
    match outcome {
        PlanOutcome::Fail { failure, message } => fails(
            t,
            attempts,
            failure,
            message@,
            None,
            before,
            after,
        ),
        PlanOutcome::AppliedLocally => completes(t, Seq::empty()) && after == (ReportView {
            mirror_deletes: raised(before.mirror_deletes, 1),
            ..before
        }),
        _ => completes(t, Seq::empty()) && after == before,
    }
}

/// Settles the removal of a file a strict mirror does not hold.
pub fn apply_mirror(attempts: u32, outcome: PlanOutcome, report: &mut StagedExecutorReport) -> (r:
    Transition)
    requires
        settles_removal(outcome),
    ensures
        mirror_routed(attempts, outcome, r, old(report)@, final(report)@),
        r is Leave,
{
    match outcome {
        PlanOutcome::Fail { failure, message } => fail(attempts, failure, message, None, report),
        PlanOutcome::AppliedLocally => {
            report.mirror_deletes = raise_by(report.mirror_deletes, 1);
            leave_plainly(QueueAction::Complete)
        },
        _ => leave_plainly(QueueAction::Complete),
    }
}

// ---------------------------------------------------------------------------
// What the routes are for
// ---------------------------------------------------------------------------

/// The comparison before an upload goes by three hashes alone: the file's, the
/// remote object's and the last synced one. Equal contents converge, whether
/// or not the path was ever synced: the intent completes and that hash is on
/// record. A local file that is the last sync is behind and is fetched. A
/// remote object that is the last sync is overwritten, on condition that it
/// still is. Both versions are kept only when the two differ from each other
/// and from the last sync.
pub proof fn law_three_hashes_decide_an_upload(
    attempts: u32,
    plan: TransferPlan,
    probe: ProbeResult,
    remote: String,
    facts: OutcomeFacts,
    report: &mut StagedExecutorReport,
    r: Transition,
)
    requires
        call_ensures(
            apply_preflight,
            (attempts, plan, ProviderJobOutcome::Probe(probe), facts, report),
            r,
        ),
        probe.content_hash matches Some(Ok(h)) && h@ == remote@,
    ensures
        ({
            let as_remote = plan.content_hash is Some && plan.content_hash->0@ == remote@;
            let as_synced = plan.content_hash is Some && plan.last_synced_hash is Some
                && plan.content_hash->0@ == plan.last_synced_hash->0@;
            let remote_as_synced = plan.last_synced_hash is Some && plan.last_synced_hash->0@
                == remote@;
            &&& as_remote <==> (r matches Transition::Leave { action, effects, abort } && action
                is Complete && abort is None && effect_views(effects@) =~= seq![
                EffectView::SetSyncIndex {
                    path: plan.local_path@,
                    content_hash: remote@,
                    size_bytes: match facts.current {
                        Some((size, _)) => size,
                        None => 0,
                    },
                    local_modified_at: if facts.current is None
                        || plan.hashed_local_state is Some && plan.hashed_local_state
                        != facts.current {
                        None
                    } else {
                        (facts.current->0).1
                    },
                    remote_modified_at: match probe.stat {
                        Some(Ok(Some(entry))) => Some(entry.modified_at),
                        _ => None,
                    },
                    last_op_id: plan.op_id@,
                },
                EffectView::ClearTombstone { path: plan.local_path@ },
            ])
            &&& r is Leave && !as_remote ==> as_synced && (r matches Transition::Leave {
                action,
                effects,
                ..
            } && action == QueueAction::FollowUp(PendingIntentKind::Download) && effects@.len()
                == 0)
            &&& as_synced && !as_remote ==> r is Leave
            &&& (r matches Transition::To { stage, .. } && stage is ResolvingConflict) <==> (
            !as_remote && !as_synced && !remote_as_synced)
            &&& remote_as_synced && !as_remote && !as_synced ==> (r matches Transition::To {
                stage,
                job: Some(ProviderJobKind::Upload(request)),
                ..
            } && stage is UploadRunning && request.precondition is HashEquals
                && request.precondition->HashEquals_0@ == remote@ && request.local_source@ == plan.local_path@
                && request.remote_path@ == plan.remote_path@ && request.op_id@ == plan.op_id@)
        }),
{
    if let Transition::Leave { effects, .. } = r {
        assert(effect_views(effects@).len() == effects@.len());
    }
}

/// A remote object that vanished before the comparison is created anew, on
/// condition that nothing stands there; any other error of the comparison
/// uploads nothing and records nothing.
pub proof fn law_a_failed_comparison_uploads_nothing(
    attempts: u32,
    plan: TransferPlan,
    probe: ProbeResult,
    error: ProviderError,
    facts: OutcomeFacts,
    report: &mut StagedExecutorReport,
    r: Transition,
)
    requires
        call_ensures(
            apply_preflight,
            (attempts, plan, ProviderJobOutcome::Probe(probe), facts, report),
            r,
        ),
        probe.content_hash == Some(Err::<String, ProviderError>(error)),
    ensures
        error.kind == ProviderErrorKind::NotFound ==> (r matches Transition::To {
            stage,
            job: Some(ProviderJobKind::Upload(request)),
            ..
        } && stage is UploadRunning && request.precondition is Absent && request.local_source@
            == plan.local_path@ && request.remote_path@ == plan.remote_path@),
        error.kind != ProviderErrorKind::NotFound ==> (r matches Transition::Leave {
            action,
            effects,
            ..
        } && (action is Retry || action is Fail) && effects@.len() == 0),
{
    if let Transition::Leave { effects, .. } = r {
        assert(effect_views(effects@).len() == effects@.len());
    }
}

/// An attempt is repeated only after a passing failure, and only while fewer
/// than ten attempts were made; every other failure is final. Each failure is
/// counted exactly once.
pub proof fn law_a_failure_is_retried_or_final(
    attempts: u32,
    failure: RetryFailureKind,
    message: String,
    report: &mut StagedExecutorReport,
    r: QueueAction,
)
    requires
        call_ensures(resolve_failure, (attempts, failure, message, report), r),
    ensures
        r is Retry <==> (failure is Transient || failure is RateLimited) && attempts < 10,
        r is Retry || r is Fail,
        r matches QueueAction::Retry { failure: told, message: text } ==> told == failure && text@
            == message@,
        r matches QueueAction::Fail { failure: told, message: text } ==> told is Permanent || told
            is Authentication,
        r is Retry && old(report).retried < usize::MAX ==> final(report).retried == old(report).retried + 1,
{
}

/// The upload slot deletes for a delete and for nothing else. Otherwise, bytes
/// the cloud is known to hold are not sent again, a file that only moved is
/// moved, an object that may have changed is compared first, and only what is
/// left is uploaded, on the condition the plan carries.
pub proof fn law_the_upload_slot_serves_its_intent(
    kind: PendingIntentKind,
    plan: TransferPlan,
    facts: UploadFacts,
    r: Transition,
)
    requires
        call_ensures(step_waiting_for_upload, (kind, plan, facts), r),
    ensures
        ({
            let held = plan.precondition is HashEquals && plan.content_hash is Some
                && plan.content_hash->0@ == plan.precondition->HashEquals_0@;
            let moved = facts.move_source is Some;
            &&& (r matches Transition::To { job: Some(ProviderJobKind::RemoteDelete { .. }), .. })
                <==> kind == PendingIntentKind::Delete
            &&& kind == PendingIntentKind::Delete ==> (r matches Transition::To {
                stage,
                job: Some(ProviderJobKind::RemoteDelete { remote_path, op_id }),
                ..
            } && stage is UploadRunning && remote_path@ == plan.remote_path@ && op_id@
                == plan.op_id@)
            &&& r is Leave <==> kind != PendingIntentKind::Delete && held
            &&& r is Leave ==> (r matches Transition::Leave { action, effects, .. } && action
                is Complete && effect_views(effects@) =~= seq![
                EffectView::SetSyncIndex {
                    path: plan.local_path@,
                    content_hash: plan.content_hash->0@,
                    size_bytes: match facts.current {
                        Some((size, _)) => size,
                        None => 0,
                    },
                    local_modified_at: if facts.current is None
                        || plan.hashed_local_state is Some && plan.hashed_local_state
                        != facts.current {
                        None
                    } else {
                        (facts.current->0).1
                    },
                    remote_modified_at: facts.indexed_remote_time,
                    last_op_id: plan.op_id@,
                },
                EffectView::ClearTombstone { path: plan.local_path@ },
            ])
            &&& (r matches Transition::To { job: Some(ProviderJobKind::Move { .. }), .. }) <==> (
            kind != PendingIntentKind::Delete && !held && moved && facts.move_from is Some)
            &&& r matches Transition::To {
                stage,
                job: Some(ProviderJobKind::Move { from, to, op_id }),
                ..
            } ==> from@ == facts.move_from->0@ && to@ == plan.remote_path@ && op_id@ == plan.op_id@
                && stage is MoveRunning && stage->source == facts.move_source->0
            &&& (r matches Transition::To { job: Some(ProviderJobKind::Probe(_)), .. }) <==> (kind
                != PendingIntentKind::Delete && !held && !moved
                && plan.verify_remote_before_upload)
            &&& r matches Transition::To { stage, job: Some(ProviderJobKind::Probe(asked)), .. }
                ==> stage is UploadPreflight && asked.hash is Always && asked.want_stat
                && asked.remote_path@ == plan.remote_path@
            &&& (r matches Transition::To { job: Some(ProviderJobKind::Upload(_)), .. }) <==> (kind
                != PendingIntentKind::Delete && !held && (moved && facts.move_from is None || !moved
                && !plan.verify_remote_before_upload))
            &&& r matches Transition::To { job: Some(ProviderJobKind::Upload(request)), .. }
                ==> request.local_source@ == plan.local_path@ && request.remote_path@
                == plan.remote_path@ && request.op_id@ == plan.op_id@ && request.precondition
                == plan.precondition
        }),
{
    if let Transition::Leave { effects, .. } = r {
        assert(effect_views(effects@).len() == effects@.len());
    }
}

/// A finished upload is on record with what was sent: the index holds the
/// transferred hash and size for the local path, an earlier deletion is
/// forgotten, and the write is announced so its echo is told from a change of
/// another device.
pub proof fn law_a_finished_upload_is_on_record(
    intent: DurableIntentRecord,
    mode: SyncMode,
    plan: TransferPlan,
    done: TransferOutcome,
    facts: OutcomeFacts,
    report: &mut StagedExecutorReport,
    r: Transition,
)
    requires
        call_ensures(
            apply_upload,
            (&intent, mode, plan, ProviderJobOutcome::TransferCompleted(done), facts, report),
            r,
        ),
    ensures
        r matches Transition::Leave { action, effects, .. } && action is Complete && effect_views(
            effects@,
        ) =~= seq![
            EffectView::EchoRemoteWrite {
                remote_path: plan.remote_path@,
                op_id: plan.op_id@,
                content_hash: done.content_hash@,
                size_bytes: done.bytes_total,
            },
            EffectView::SetSyncIndex {
                path: plan.local_path@,
                content_hash: done.content_hash@,
                size_bytes: done.bytes_total,
                local_modified_at: if facts.current is None || plan.hashed_local_state is Some
                    && plan.hashed_local_state != facts.current {
                    None
                } else {
                    (facts.current->0).1
                },
                remote_modified_at: done.remote_modified_at,
                last_op_id: plan.op_id@,
            },
            EffectView::ClearTombstone { path: plan.local_path@ },
        ],
        final(report)@ == old(report)@,
{
    if let Transition::Leave { effects, .. } = r {
        assert(effect_views(effects@).len() == effects@.len());
    }
}

/// A remote delete that went through, or found nothing left to delete, takes
/// the path off the index and leaves a tombstone of local origin; one that
/// failed takes nothing off. A directory that stands where the deleted object
/// was is looked at again.
pub proof fn law_a_remote_delete_is_on_record(
    intent: DurableIntentRecord,
    mode: SyncMode,
    plan: TransferPlan,
    result: Result<(), ProviderError>,
    facts: OutcomeFacts,
    report: &mut StagedExecutorReport,
    r: Transition,
)
    requires
        call_ensures(
            apply_upload,
            (&intent, mode, plan, ProviderJobOutcome::RemoteDelete(result), facts, report),
            r,
        ),
    ensures
        ({
            let gone = result is Ok || result->Err_0.kind == ProviderErrorKind::NotFound;
            &&& r is Leave
            &&& r matches Transition::Leave { action, effects, .. } ==> (action is Complete <==> gone)
                && (!gone ==> (action is Retry || action is Fail) && effects@.len() == 0) && (gone
                ==> effect_views(effects@) =~= seq![
                EffectView::EchoRemoteDelete { remote_path: plan.remote_path@ },
                EffectView::RemoveSyncIndex { path: plan.local_path@ },
                EffectView::RecordTombstone {
                    path: plan.local_path@,
                    origin: TombstoneOrigin::Local,
                },
                EffectView::ReleaseNameAlias { path: plan.local_path@ },
            ] + (if facts.local is Directory {
                seq![
                    EffectView::Enqueue {
                        path: plan.local_path@,
                        kind: PendingIntentKind::ReconcileSubtree,
                    },
                ]
            } else {
                Seq::<EffectView>::empty()
            }))
        }),
{
    if let Transition::Leave { effects, .. } = r {
        assert(effect_views(effects@).len() == effects@.len());
    }
}

/// An upload whose condition no longer held keeps both versions, in two-way
/// mode; a one-way profile treats it as any other failure. An upload whose
/// file is gone is dropped, since the deletion has an intent of its own. No
/// failed upload records anything.
pub proof fn law_a_failed_upload_loses_nothing(
    intent: DurableIntentRecord,
    mode: SyncMode,
    plan: TransferPlan,
    error: ProviderError,
    phase: TransferPhase,
    facts: OutcomeFacts,
    report: &mut StagedExecutorReport,
    r: Transition,
)
    requires
        call_ensures(
            apply_upload,
            (
                &intent,
                mode,
                plan,
                ProviderJobOutcome::TransferFailed { error, phase },
                facts,
                report,
            ),
            r,
        ),
    ensures
        (r matches Transition::To { stage, .. } && stage is ResolvingConflict) <==> (phase
            == TransferPhase::Step && error.kind == ProviderErrorKind::PreconditionFailed && mode
            == SyncMode::TwoWay),
        r is To || r is Leave,
        r matches Transition::To { stage, .. } ==> stage is ResolvingConflict,
        r matches Transition::Leave { action, effects, .. } ==> effects@.len() == 0 && (action
            is Complete || action is Retry || action is Fail) && (action is Complete <==> (
        intent.kind != PendingIntentKind::Delete && error.kind == ProviderErrorKind::NotFound
            && facts.source_missing)),
{
    if let Transition::Leave { effects, .. } = r {
        assert(effect_views(effects@).len() == effects@.len());
    }
}

/// A server-side move that went through carries the row over: the new path
/// gets the source's hash, size and remote time, the old path loses its row
/// and gets a tombstone. A move that cannot be done becomes the upload.
pub proof fn law_a_move_carries_its_row_over(
    attempts: u32,
    plan: TransferPlan,
    source: SyncIndexEntry,
    result: Result<(), ProviderError>,
    facts: OutcomeFacts,
    report: &mut StagedExecutorReport,
    r: Transition,
)
    requires
        call_ensures(
            apply_move,
            (attempts, plan, source, ProviderJobOutcome::Move(result), facts, report),
            r,
        ),
    ensures
        result is Ok ==> (r matches Transition::Leave { action, effects, .. } && action is Complete
            && effect_views(effects@) =~= seq![
            EffectView::EchoRemoteDelete { remote_path: facts.moved_from@ },
            EffectView::EchoRemoteWrite {
                remote_path: plan.remote_path@,
                op_id: plan.op_id@,
                content_hash: source.content_hash@,
                size_bytes: source.size_bytes,
            },
            EffectView::SetSyncIndex {
                path: plan.local_path@,
                content_hash: source.content_hash@,
                size_bytes: source.size_bytes,
                local_modified_at: match facts.current {
                    Some((_, time)) => time,
                    None => None,
                },
                remote_modified_at: source.remote_modified_at,
                last_op_id: plan.op_id@,
            },
            EffectView::ClearTombstone { path: plan.local_path@ },
            EffectView::RemoveSyncIndex { path: source.path@ },
            EffectView::RecordTombstone { path: source.path@, origin: TombstoneOrigin::Local },
            EffectView::ReleaseNameAlias { path: source.path@ },
        ]),
        result matches Err(error) ==> ((r matches Transition::To {
            stage,
            job: Some(ProviderJobKind::Upload(request)),
            ..
        } && stage is UploadRunning && request.precondition == plan.precondition
            && request.local_source@ == plan.local_path@ && request.remote_path@
            == plan.remote_path@) <==> (error.kind == ProviderErrorKind::NotFound || error.kind
            == ProviderErrorKind::PreconditionFailed || error.kind
            == ProviderErrorKind::Permanent)) && (r is To || (r matches Transition::Leave {
            action,
            effects,
            ..
        } && (action is Retry || action is Fail) && effects@.len() == 0)),
{
    if let Transition::Leave { effects, .. } = r {
        assert(effect_views(effects@).len() == effects@.len());
    }
}

/// A downloaded payload is always applied. A local file is removed for want
/// of a remote one only in a strict mirror, and only when the object was gone
/// before the first byte; in every other mode a vanished object leaves the
/// local file alone.
pub proof fn law_only_a_mirror_removes_for_want_of_a_remote(
    attempts: u32,
    mode: SyncMode,
    plan: TransferPlan,
    outcome: ProviderJobOutcome,
    report: &mut StagedExecutorReport,
    r: Transition,
)
    requires
        call_ensures(apply_download, (attempts, mode, plan, outcome, report), r),
    ensures
        (r matches Transition::To { stage, .. } && stage is RemovingMirror) <==> (
        outcome matches ProviderJobOutcome::TransferFailed { error, phase } && error.kind
            == ProviderErrorKind::NotFound && phase == TransferPhase::Begin && mode
            == SyncMode::PullOnly),
        outcome matches ProviderJobOutcome::TransferCompleted(done) ==> (r matches Transition::To {
            stage: ActiveStage::ApplyingDownload { plan: applied, outcome: payload },
            ..
        } && applied == plan && payload == done),
        outcome matches ProviderJobOutcome::TransferHeld { session } ==> (r matches Transition::To {
            stage: ActiveStage::DownloadHeld { plan: waiting, session: kept },
            ..
        } && waiting == plan && kept == session),
        r matches Transition::Leave { action, effects, .. } ==> effects@.len() == 0 && (action
            is Complete <==> (outcome matches ProviderJobOutcome::TransferFailed { error, .. }
            && error.kind == ProviderErrorKind::NotFound)) && (action is Complete || action is Retry
            || action is Fail),
        r matches Transition::To { stage, .. } ==> stage is RemovingMirror || stage
            is ApplyingDownload || stage is DownloadHeld,
        r is To || r is Leave,
{
    if let Transition::Leave { effects, .. } = r {
        assert(effect_views(effects@).len() == effects@.len());
    }
}

/// A payload that was moved in is on record with what was fetched, and tagged,
/// so the watcher's report of it is no local change. One that would alias
/// another local file leaves nothing but the removal of its staging file, and
/// is reported.
pub proof fn law_an_applied_payload_is_on_record(
    attempts: u32,
    plan: TransferPlan,
    outcome: TransferOutcome,
    result: PayloadResult,
    report: &mut StagedExecutorReport,
    r: Transition,
)
    requires
        call_ensures(apply_payload, (attempts, plan, outcome, result, report), r),
    ensures
        result matches PayloadResult::Applied { conflict, current } ==> (
        r matches Transition::Leave { action, effects, .. } && action is Complete && effect_views(
            effects@,
        ) =~= seq![
            EffectView::WriteTag { path: plan.local_path@, op_id: plan.op_id@ },
            EffectView::EchoLocalWrite {
                path: plan.local_path@,
                op_id: Some(plan.op_id@),
                content_hash: outcome.content_hash@,
                size_bytes: outcome.bytes_total,
            },
            EffectView::SetSyncIndex {
                path: plan.local_path@,
                content_hash: outcome.content_hash@,
                size_bytes: outcome.bytes_total,
                local_modified_at: match current {
                    Some((_, time)) => time,
                    None => None,
                },
                remote_modified_at: outcome.remote_modified_at,
                last_op_id: match plan.remote_op_id {
                    Some(writer) => writer@,
                    None => Seq::empty(),
                },
            },
            EffectView::ClearTombstone { path: plan.local_path@ },
        ]) && (conflict && old(report).conflicts < usize::MAX ==> final(report).conflicts
            == old(report).conflicts + 1) && (!conflict ==> final(report).conflicts
            == old(report).conflicts),
        result matches PayloadResult::Collision(existing) ==> (r matches Transition::Leave {
            action,
            effects,
            ..
        } && action is Complete && effect_views(effects@) == (match plan.staging_path {
            Some(staging) => seq![EffectView::RemoveFile { path: staging@ }],
            None => Seq::empty(),
        })) && final(report)@.name_collisions == old(report)@.name_collisions.push(
            (plan.local_path@, existing@),
        ),
        result is Failed ==> (r matches Transition::Leave { action, effects, .. } && effects@.len()
            == 0 && (action is Retry || action is Fail)),
{
    if let Transition::Leave { effects, .. } = r {
        assert(effect_views(effects@).len() == effects@.len());
    }
}

/// A held deletion is parked and counted; only one the guard lets pass goes on.
pub proof fn law_a_held_deletion_does_not_go_on(
    plan: TransferPlan,
    answer: GuardAnswer,
    report: &mut StagedExecutorReport,
    r: Transition,
)
    requires
        call_ensures(apply_guard, (plan, answer, report), r),
    ensures
        answer is Pass <==> r is AwaitUpload,
        r matches Transition::AwaitUpload { plan: p } ==> p == plan,
        answer matches GuardAnswer::Held { opened } ==> (r matches Transition::Leave {
            action,
            effects,
            ..
        } && action is Parked && effects@.len() == 0) && (old(report).held < usize::MAX ==> final(report).held == old(report).held + 1) && final(report).decisions_opened@ == (match opened {
            Some(id) => old(report).decisions_opened@.push(id),
            None => old(report).decisions_opened@,
        }),
{
    if let Transition::Leave { effects, .. } = r {
        assert(effect_views(effects@).len() == effects@.len());
    }
}

/// A decision of the planner leads where it says: uploads are hashed first,
/// deletions are shown to the guard first, downloads wait for their slot,
/// deferrals end when the delay is over, and everything else ends without
/// recording anything.
pub proof fn law_a_plan_leads_where_it_says(
    attempts: u32,
    outcome: PlanOutcome,
    now: SystemTime,
    report: &mut StagedExecutorReport,
    r: Transition,
)
    requires
        call_ensures(apply_plan_outcome, (attempts, outcome, now, report), r),
        outcome matches PlanOutcome::Defer { delay, .. } ==> now.can_add(delay),
    ensures
        outcome matches PlanOutcome::Upload(plan) ==> r == (Transition::AwaitHash { plan }),
        outcome matches PlanOutcome::Download(plan) ==> r == (Transition::AwaitDownload { plan }),
        outcome matches PlanOutcome::RemoteDelete(plan) ==> (r matches Transition::To {
            stage: ActiveStage::GuardingDeletion { plan: p },
            job,
            ..
        } && p == plan && job is None),
        r is AwaitHash ==> outcome is Upload,
        r is AwaitDownload ==> outcome is Download,
        r is To ==> outcome is RemoteDelete,
        r !is AwaitUpload && r !is Stay,
        r matches Transition::Leave { action, effects, .. } ==> effects@.len() == 0 && (action
            is Complete <==> (outcome is Noop || outcome is AppliedLocally || outcome
            is MovedLocally || outcome is ConflictResolved)) && (action is Parked <==> outcome
            is Held) && (action is Defer <==> outcome is Defer) && (action is Retry || action is Fail
            <==> outcome is Probe || outcome is Fail) && action !is FollowUp && (
        outcome matches PlanOutcome::Defer { delay, .. } ==> action is Defer && (
        action->until).nanos == now.nanos + delay.nanos),
        outcome is ConflictResolved && old(report).conflicts < usize::MAX ==> final(report).conflicts
            == old(report).conflicts + 1,
        outcome is MovedLocally && old(report).moves < usize::MAX ==> final(report).moves == old(report).moves
            + 1,
{
    if let Transition::Leave { effects, .. } = r {
        assert(effect_views(effects@).len() == effects@.len());
    }
}

/// A finished hash goes to the upload slot with the plan; a file that vanished
/// while it was hashed ends the intent, and one that cannot be read ends the
/// attempt.
pub proof fn law_a_finished_hash_is_the_plans(
    attempts: u32,
    plan: TransferPlan,
    step: HashAdvance,
    report: &mut StagedExecutorReport,
    r: Transition,
)
    requires
        call_ensures(step_hash, (attempts, plan, step, report), r),
    ensures
        r is AwaitUpload <==> step is Finished,
        step matches HashAdvance::Finished(hash) ==> r == (Transition::AwaitUpload {
            plan: TransferPlan { content_hash: Some(hash), ..plan },
        }),
        r is Stay <==> step is More,
        r matches Transition::Leave { action, effects, .. } ==> effects@.len() == 0 && (action
            is Complete <==> step is Missing) && (action is Retry || action is Fail <==> step
            is Failed),
{
    if let Transition::Leave { effects, .. } = r {
        assert(effect_views(effects@).len() == effects@.len());
    }
}

/// The hash begins with size and time of the file as it was opened.
pub proof fn law_a_hash_begins_with_the_files_state(
    attempts: u32,
    plan: TransferPlan,
    opened: HashOpen,
    report: &mut StagedExecutorReport,
    r: Transition,
)
    requires
        call_ensures(apply_open, (attempts, plan, opened, report), r),
    ensures
        opened matches HashOpen::Opened(state) ==> (r matches Transition::To {
            stage: ActiveStage::Hash { plan: p, opened: open },
            ..
        } && open && p == (TransferPlan { hashed_local_state: state, ..plan })),
        r matches Transition::Leave { action, effects, .. } ==> effects@.len() == 0 && (action
            is Complete <==> opened is Missing) && (action is Retry || action is Fail <==> opened
            is Failed),
        r is To <==> opened is Opened,
{
    if let Transition::Leave { effects, .. } = r {
        assert(effect_views(effects@).len() == effects@.len());
    }
}

/// What is in the report beside the counts of completed, retried and failed
/// intents is the same.
pub open spec fn only_counts_differ(a: ReportView, b: ReportView) -> bool {
    &&& a.started == b.started
    &&& a.name_collisions == b.name_collisions
    &&& a.decisions_opened == b.decisions_opened
    &&& a.held == b.held
    &&& a.mirror_deletes == b.mirror_deletes
    &&& a.conflicts == b.conflicts
    &&& a.moves == b.moves
}

/// An intent is counted as completed exactly if it was leased, and a count
/// that is full stays so.
pub proof fn law_only_a_leased_intent_completes(report: &mut StagedExecutorReport, was_leased: bool)
    requires
        call_ensures(complete, (report, was_leased), ()),
    ensures
        !was_leased ==> final(report)@ == old(report)@,
        was_leased && old(report).completed < usize::MAX ==> final(report).completed == old(report).completed + 1,
        was_leased ==> final(report).completed >= old(report).completed,
        final(report).retried == old(report).retried,
        final(report).failed == old(report).failed,
        only_counts_differ(final(report)@, old(report)@),
        final(report).cloud_root_unavailable == old(report).cloud_root_unavailable,
{
    let (a, b) = (final(report)@, old(report)@);
    assert(a.completed == final(report).completed && b.completed == old(report).completed);
    assert(a.retried == final(report).retried && b.retried == old(report).retried);
    assert(a.failed == final(report).failed && b.failed == old(report).failed);
    assert(a.cloud_root_unavailable == final(report).cloud_root_unavailable);
}

/// A failed provider call leaves the intent to be retried or failed as the
/// error says, with nothing on record; a cloud root that was not there is
/// counted besides.
pub proof fn law_a_missing_cloud_root_is_noticed(
    attempts: u32,
    error: ProviderError,
    report: &mut StagedExecutorReport,
    r: Transition,
)
    requires
        call_ensures(resolve_provider_failure, (attempts, error, report), r),
    ensures
        r is Leave,
        r->effects@.len() == 0,
        r->Leave_abort is None,
        (error.retry is Transient || error.retry is RateLimited) && attempts < 10 ==> r->action
            is Retry && r->action->Retry_failure == error.retry && r->action->Retry_message@
            == error.message@ && final(report)@.failed == old(report)@.failed,
        !(error.retry is Transient || error.retry is RateLimited) ==> r->action is Fail
            && r->action->Fail_failure == error.retry && final(report)@.retried == old(report)@.retried,
        attempts >= 10 ==> r->action is Fail,
        error.kind is CloudRootUnavailable && old(report)@.cloud_root_unavailable < usize::MAX
            ==> final(report)@.cloud_root_unavailable == old(report)@.cloud_root_unavailable + 1,
        error.kind !is CloudRootUnavailable ==> final(report)@.cloud_root_unavailable == old(report)@.cloud_root_unavailable,
        only_counts_differ(final(report)@, old(report)@),
        final(report)@.completed == old(report)@.completed,
{
    if let Transition::Leave { action, effects, abort } = r {
        assert(effect_views(effects@).len() == effects@.len());
    }
}

/// A probe shows that the cloud root is missing if its stat or its hash failed
/// for that.
pub proof fn law_a_probe_shows_a_missing_root(probe: ProbeResult, r: bool)
    requires
        call_ensures(probe_saw_cloud_root_unavailable, (&probe,), r),
    ensures
        (probe.stat matches Some(Err(e)) && e.kind is CloudRootUnavailable) ==> r,
        (probe.content_hash matches Some(Err(e)) && e.kind is CloudRootUnavailable) ==> r,
        !(probe.stat matches Some(Err(_))) && !(probe.content_hash matches Some(Err(_))) ==> !r,
        r ==> (probe.stat matches Some(Err(e)) && e.kind is CloudRootUnavailable) || (
        probe.content_hash matches Some(Err(e)) && e.kind is CloudRootUnavailable),
{
}

/// A probe that came back goes on with the plan it was made for; anything else
/// ends the intent without a trace, a panic for good.
pub proof fn law_a_probe_continues_its_plan(
    attempts: u32,
    pending: PendingPlan,
    outcome: ProviderJobOutcome,
    report: &mut StagedExecutorReport,
    seen: bool,
    r: Transition,
)
    requires
        call_ensures(apply_probe, (attempts, pending, outcome, report), r),
        outcome is Probe ==> call_ensures(
            probe_saw_cloud_root_unavailable,
            (&outcome->Probe_0,),
            seen,
        ),
    ensures
        outcome matches ProviderJobOutcome::Probe(probe) ==> r == (Transition::To {
            stage: ActiveStage::Continuing { pending, probe },
            job: None,
            restart: false,
        }),
        outcome is Probe && !seen ==> final(report)@ == old(report)@,
        outcome is Probe && seen && old(report)@.cloud_root_unavailable < usize::MAX ==> final(report)@.cloud_root_unavailable == old(report)@.cloud_root_unavailable + 1,
        !(outcome is Probe) ==> r is Leave && r->effects@.len() == 0,
        outcome is Panicked ==> r is Leave && r->action is Fail && r->action->Fail_failure
            is Permanent,
        outcome matches ProviderJobOutcome::TransferHeld { session } ==> r is Leave
            && r->Leave_abort == Some(session),
{
    if let Transition::Leave { action, effects, abort } = r {
        assert(effect_views(effects@).len() == effects@.len());
    }
}

/// The first decision may ask for a probe, and so may a check for a rename;
/// any other probe asked for again is an error, so that no intent probes for
/// ever.
pub proof fn law_an_intent_does_not_probe_for_ever(
    attempts: u32,
    first: bool,
    request: ProbeRequest,
    pending: PendingPlan,
    now: SystemTime,
    report: &mut StagedExecutorReport,
    r: Transition,
)
    requires
        call_ensures(
            apply_decision,
            (attempts, first, PlanOutcome::Probe { request, pending }, now, report),
            r,
        ),
    ensures
        first || pending is DownloadMoveCheck ==> r == (Transition::To {
            stage: ActiveStage::PlannerProbe { pending },
            job: Some(ProviderJobKind::Probe(request)),
            restart: true,
        }) && final(report)@ == old(report)@,
        !first && !(pending is DownloadMoveCheck) ==> r is Leave && (r->action is Retry
            || r->action is Fail) && r->effects@.len() == 0,
{
    if let Transition::Leave { action, effects, abort } = r {
        assert(effect_views(effects@).len() == effects@.len());
    }
}

/// Every other decision leads where its outcome leads without a probe before
/// it.
pub proof fn law_a_decision_is_carried_out_as_planned(
    attempts: u32,
    first: bool,
    outcome: PlanOutcome,
    now: SystemTime,
    report: &mut StagedExecutorReport,
    r: Transition,
)
    requires
        call_ensures(apply_decision, (attempts, first, outcome, now, report), r),
        !(outcome is Probe),
    ensures
        outcome matches PlanOutcome::Upload(plan) ==> r == (Transition::AwaitHash { plan }),
        outcome matches PlanOutcome::Download(plan) ==> r == (Transition::AwaitDownload { plan }),
        outcome matches PlanOutcome::RemoteDelete(plan) ==> r == (Transition::To {
            stage: ActiveStage::GuardingDeletion { plan },
            job: None,
            restart: true,
        }),
        outcome is Noop || outcome is AppliedLocally || outcome is MovedLocally || outcome
            is ConflictResolved ==> r is Leave && r->action is Complete,
        outcome is Noop || outcome is Upload || outcome is Download || outcome is RemoteDelete
            ==> final(report)@ == old(report)@,
        outcome is Held ==> r is Leave && r->action is Parked,
        outcome is Defer ==> r is Leave && r->action is Defer,
        outcome is Fail ==> r is Leave && (r->action is Retry || r->action is Fail),
        outcome is MovedLocally && old(report)@.moves < usize::MAX ==> final(report)@.moves == old(report)@.moves + 1,
        outcome is ConflictResolved && old(report)@.conflicts < usize::MAX ==> final(report)@.conflicts == old(report)@.conflicts + 1,
{
}

/// An upload is dispatched as planned: from the planned file to the planned
/// path, under the plan's operation and guarded by its precondition.
pub proof fn law_an_upload_is_dispatched_as_planned(plan: TransferPlan, r: Transition)
    requires
        call_ensures(dispatch_upload, (plan,), r),
    ensures
        r is To,
        r->To_stage == (ActiveStage::UploadRunning { plan }),
        r->restart,
        r->job is Some,
        r->job->0 is Upload,
        r->job->0->Upload_0.local_source@ == plan.local_path@,
        r->job->0->Upload_0.remote_path == plan.remote_path,
        r->job->0->Upload_0.op_id == plan.op_id,
        r->job->0->Upload_0.precondition == plan.precondition,
{
}

/// A held deletion counts once, and the decision it opened is named.
pub proof fn law_a_held_deletion_is_counted(opened: Option<i64>, report: &mut StagedExecutorReport)
    requires
        call_ensures(count_held, (opened, report), ()),
    ensures
        old(report)@.held < usize::MAX ==> final(report)@.held == old(report)@.held + 1,
        opened matches Some(id) ==> final(report)@.decisions_opened == old(report)@.decisions_opened.push(id),
        opened is None ==> final(report)@.decisions_opened == old(report)@.decisions_opened,
        final(report)@.completed == old(report)@.completed,
        final(report)@.failed == old(report)@.failed,
        final(report)@.retried == old(report)@.retried,
{
}

/// A conflict counts only once it was resolved, a mirrored removal only once
/// it was carried out; what failed is retried or failed, and the intent is
/// done otherwise.
pub proof fn law_only_what_was_done_is_counted(
    attempts: u32,
    outcome: PlanOutcome,
    conflicted: &mut StagedExecutorReport,
    mirrored: &mut StagedExecutorReport,
    c: Transition,
    m: Transition,
)
    requires
        call_ensures(finish_as_conflict, (attempts, outcome, conflicted), c),
        call_ensures(apply_mirror, (attempts, outcome, mirrored), m),
    ensures
        c is Leave && m is Leave,
        outcome is Fail ==> (c->action is Retry || c->action is Fail) && (m->action is Retry
            || m->action is Fail),
        !(outcome is Fail) ==> c->action is Complete && m->action is Complete,
        outcome is ConflictResolved && old(conflicted)@.conflicts < usize::MAX ==> final(conflicted)@.conflicts == old(conflicted)@.conflicts + 1,
        !(outcome is ConflictResolved) ==> final(conflicted)@.conflicts == old(conflicted)@.conflicts,
        outcome is AppliedLocally && old(mirrored)@.mirror_deletes < usize::MAX ==> final(mirrored)@.mirror_deletes == old(mirrored)@.mirror_deletes + 1,
        !(outcome is AppliedLocally) ==> final(mirrored)@.mirror_deletes == old(mirrored)@.mirror_deletes,
        outcome is Noop ==> final(conflicted)@ == old(conflicted)@ && final(mirrored)@ == old(mirrored)@,
        final(mirrored)@.conflicts == old(mirrored)@.conflicts,
        final(conflicted)@.mirror_deletes == old(conflicted)@.mirror_deletes,
{
}

/// Planning, hashing and transferring take a permit; waiting for one, guarding
/// and applying what was fetched take none.
pub proof fn law_waiting_takes_no_permit(stage: ActiveStage, r: bool)
    requires
        call_ensures(holds_permit, (&stage,), r),
    ensures
        stage is Planner || stage is PlannerProbe || stage is Continuing || stage is Hash || stage
            is UploadAdmission || stage is UploadPreflight || stage is UploadRunning || stage
            is UploadHeld || stage is MoveRunning || stage is DownloadRunning || stage
            is DownloadHeld ==> r,
        stage is WaitingForHash || stage is WaitingForUpload || stage is WaitingForDownload
            || stage is GuardingDeletion || stage is ApplyingDownload || stage is RemovingMirror
            || stage is ResolvingConflict ==> !r,
{
}

/// A failure is counted as what it comes to: one more retry or one more
/// failure, never both. A final one keeps its kind and its words, and one that
/// was retried too often is final for good.
pub proof fn law_a_failure_is_counted_as_what_it_comes_to(
    attempts: u32,
    failure: RetryFailureKind,
    message: String,
    report: &mut StagedExecutorReport,
    r: QueueAction,
)
    requires
        call_ensures(resolve_failure, (attempts, failure, message, report), r),
    ensures
        r is Retry && old(report)@.retried < usize::MAX ==> final(report)@.retried == old(report)@.retried + 1,
        r is Retry ==> final(report)@.failed == old(report)@.failed,
        r is Fail && old(report)@.failed < usize::MAX ==> final(report)@.failed == old(report)@.failed + 1,
        r is Fail ==> final(report)@.retried == old(report)@.retried,
        final(report)@.completed == old(report)@.completed,
        final(report)@.cloud_root_unavailable == old(report)@.cloud_root_unavailable,
        only_counts_differ(final(report)@, old(report)@),
        r is Fail && !(failure is Transient || failure is RateLimited) ==> r->Fail_failure
            == failure && r->Fail_message@ == message@,
        r is Fail && (failure is Transient || failure is RateLimited) ==> r->Fail_failure
            is Permanent && r->Fail_message@.len() > message@.len() && r->Fail_message@.take(
            message@.len() as int,
        ) == message@,
{
    if r is Fail && (failure is Transient || failure is RateLimited) {
        reveal_strlit(" (retry budget exhausted after ");
        assert(r->Fail_message@.take(message@.len() as int) =~= message@);
    }
}

/// An outcome that does not belong to a stage is tried again, a panic is not;
/// neither leaves a trace but the count, and a session still open is closed.
pub proof fn law_a_stray_outcome_is_tried_again(
    attempts: u32,
    intent: DurableIntentRecord,
    mode: SyncMode,
    plan: TransferPlan,
    source: SyncIndexEntry,
    outcome: ProviderJobOutcome,
    facts: OutcomeFacts,
    a: &mut StagedExecutorReport,
    b: &mut StagedExecutorReport,
    c: &mut StagedExecutorReport,
    d: &mut StagedExecutorReport,
    preflight: Transition,
    moved: Transition,
    uploaded: Transition,
    downloaded: Transition,
)
    requires
        call_ensures(apply_preflight, (attempts, plan, outcome, facts, a), preflight),
        call_ensures(apply_move, (attempts, plan, source, outcome, facts, b), moved),
        call_ensures(apply_upload, (&intent, mode, plan, outcome, facts, c), uploaded),
        call_ensures(apply_download, (attempts, mode, plan, outcome, d), downloaded),
        intent.attempt_count == attempts,
    ensures
        outcome is Cancelled ==> is_stray(preflight, attempts, None) && is_stray(
            moved,
            attempts,
            None,
        ) && is_stray(uploaded, attempts, None) && is_stray(downloaded, attempts, None),
        outcome is Panicked ==> is_final(preflight) && is_final(moved) && is_final(uploaded)
            && is_final(downloaded),
        outcome matches ProviderJobOutcome::TransferHeld { session } ==> is_stray(
            preflight,
            attempts,
            Some(session),
        ) && is_stray(moved, attempts, Some(session)),
        outcome matches ProviderJobOutcome::TransferHeld { session } ==> uploaded
            == (Transition::To {
            stage: ActiveStage::UploadHeld { plan, session },
            job: None,
            restart: false,
        }) && downloaded == (Transition::To {
            stage: ActiveStage::DownloadHeld { plan, session },
            job: None,
            restart: false,
        }),
        outcome is Move ==> is_stray(preflight, attempts, None) && is_stray(
            uploaded,
            attempts,
            None,
        ) && is_stray(downloaded, attempts, None),
        outcome is Probe ==> is_stray(moved, attempts, None) && is_stray(uploaded, attempts, None)
            && is_stray(downloaded, attempts, None),
        outcome is RemoteDelete ==> is_stray(preflight, attempts, None) && is_stray(
            moved,
            attempts,
            None,
        ) && is_stray(downloaded, attempts, None),
        outcome matches ProviderJobOutcome::Move(Ok(_)) ==> (old(b)@.moves < usize::MAX
            ==> final(b)@.moves == old(b)@.moves + 1),
        !(outcome is Move) ==> final(b)@.moves == old(b)@.moves,
        final(a)@.completed == old(a)@.completed,
        final(d)@.completed == old(d)@.completed,
{
    if let Transition::Leave { effects, .. } = preflight {
        assert(effect_views(effects@).len() == effects@.len());
    }
    if let Transition::Leave { effects, .. } = moved {
        assert(effect_views(effects@).len() == effects@.len());
    }
    if let Transition::Leave { effects, .. } = uploaded {
        assert(effect_views(effects@).len() == effects@.len());
    }
    if let Transition::Leave { effects, .. } = downloaded {
        assert(effect_views(effects@).len() == effects@.len());
    }
}

/// The intent is left to be tried again as long as it may be, with nothing on
/// record and the session closed.
pub open spec fn is_stray(t: Transition, attempts: u32, session: Option<u64>) -> bool {
    &&& t is Leave
    &&& attempts < 10 ==> t->action is Retry && t->action->Retry_failure is Transient
    &&& attempts >= 10 ==> t->action is Fail
    &&& t->effects@.len() == 0
    &&& t->Leave_abort == session
}

/// The intent failed for good, with nothing on record.
pub open spec fn is_final(t: Transition) -> bool {
    &&& t is Leave
    &&& t->action is Fail
    &&& t->action->Fail_failure is Permanent
    &&& t->effects@.len() == 0
}

/// Hashing that is not done goes on where it is.
pub proof fn law_unfinished_hashing_goes_on(
    attempts: u32,
    plan: TransferPlan,
    report: &mut StagedExecutorReport,
    r: Transition,
)
    requires
        call_ensures(step_hash, (attempts, plan, HashAdvance::More, report), r),
    ensures
        r == (Transition::Stay { stage: ActiveStage::Hash { plan, opened: true }, abort: None }),
        final(report)@ == old(report)@,
{
}

} // verus!
