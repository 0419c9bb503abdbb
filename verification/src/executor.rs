//! The staged executor: which executions are in flight, what each is at and
//! which permit it holds.
//!
//! One advance of an execution is one call of [`StagedExecutor::advance_one`]
//! with what its stage was waiting for. The executor decides, takes and gives
//! back permits, and says what to dispatch or how to settle the durable row;
//! the caller does the disk, queue and provider work.
use vstd::prelude::*;

use crate::app_state::DaemonApp;
use crate::clock::{Instant, SystemTime};
use crate::continuations::path_views;
use crate::effects::{effect_views, Effect, EffectView, TombstoneOrigin};
use crate::event_intents::PendingIntentKind;
use crate::paths::{FsPath, Part};
use crate::planner::{PlanOutcome, TransferPlan};
use crate::provider_jobs::{live_jobs, open_session, session_to_abort, stale_sessions,
    CompletedJob, DownloadRequest, ProbeResult, ProviderJobKind, ProviderJobOutcome,
    ProviderJobPool, TransferDirection, TransferOutcome};
use crate::records::{DurableIntentRecord, SyncMode};
use crate::routes::{admission_routed, apply_download, apply_move, apply_payload, apply_preflight,
    apply_upload, can_follow, conflict_routed, decision_routed, download_routed, fits, guard_routed,
    finish_as_conflict, hash_routed, holds_permit, mirror_routed, move_routed, open_routed,
    payload_routed, permit_class, preflight_routed, probe_routed, settles_conflict,
    settles_removal, step_hash, step_waiting_for_upload, upload_routed, apply_decision,
    apply_guard, apply_mirror, apply_open, apply_probe, ActiveStage, GuardAnswer, HashAdvance,
    HashOpen, OutcomeFacts, PayloadResult, QueueAction, ReportView, StagedExecutorReport,
    Transition, UploadFacts};
use crate::workgate::{in_use, denial, GateView, ThrottleCaps, ThrottleWorkgate, WorkClass,
    WorkPermit, WorkgateSnapshot};

verus! {

/// Stage names as diagnostics show them.
#[derive(Clone, Copy, Debug, PartialEq, Eq, Structural)]
pub enum ExecutionStage {
    Planner,
    WaitingForHash,
    Hash,
    WaitingForUpload,
    Upload,
    WaitingForDownload,
    Download,
}

/// What a stage was waiting for.
#[derive(Debug, PartialEq, Eq)]
pub enum StageInput {
    /// Nothing but time: waiting and held stages try again.
    Tick,
    /// The planner's decision.
    Planned(PlanOutcome),
    /// The decision of a continuation.
    Continued(PlanOutcome),
    HashOpened(HashOpen),
    HashStepped(HashAdvance),
    UploadAdmitted(UploadFacts),
    /// A provider job came back.
    JobDone { outcome: ProviderJobOutcome, facts: OutcomeFacts },
    GuardAnswered(GuardAnswer),
    ConflictSettled(PlanOutcome),
    PayloadApplied(PayloadResult),
    MirrorRemoved(PlanOutcome),
}

/// What an advance needs to know of its surroundings.
#[derive(Clone, Copy, Debug, PartialEq, Eq)]
pub struct AdvanceEnv {
    pub sync_mode: SyncMode,
    pub caps: ThrottleCaps,
    pub now: SystemTime,
}

/// Inputs a stage can take: decisions that can be followed, settlements that
/// can come of what was asked for.
pub open spec fn acceptable(env: AdvanceEnv, stage: ActiveStage, input: StageInput) -> bool {
    match (stage, input) {
        (ActiveStage::Planner, StageInput::Planned(outcome)) => can_follow(outcome, env.now),
        (ActiveStage::Continuing { .. }, StageInput::Continued(outcome)) => can_follow(
            outcome,
            env.now,
        ),
        (ActiveStage::ResolvingConflict, StageInput::ConflictSettled(outcome)) => settles_conflict(
            outcome,
        ),
        (ActiveStage::RemovingMirror, StageInput::MirrorRemoved(outcome)) => settles_removal(
            outcome,
        ),
        (ActiveStage::WaitingForDownload { plan }, _) => plan.staging_path is Some,
        _ => true,
    }
}

pub open spec fn resumed(
    stage: ActiveStage,
    session: u64,
    direction: TransferDirection,
) -> Transition {
    Transition::To {
        stage,
        job: Some(ProviderJobKind::ResumeTransfer { session, direction }),
        restart: false,
    }
}

pub open spec fn stays(stage: ActiveStage, abort: Option<u64>) -> Transition {
    Transition::Stay { stage, abort }
}

/// Where an execution goes from `stage` on `input`. Input that does not
/// belong to the stage changes nothing; a session in it is aborted.
pub open spec fn routed(
    env: AdvanceEnv,
    intent: DurableIntentRecord,
    stage: ActiveStage,
    input: StageInput,
    t: Transition,
    before: ReportView,
    after: ReportView,
) -> bool {
    let attempts = intent.attempt_count;
    match (stage, input) {
        (ActiveStage::Planner, StageInput::Planned(outcome)) => decision_routed(
            attempts,
            true,
            outcome,
            env.now,
            t,
            before,
            after,
        ),
        (ActiveStage::Continuing { .. }, StageInput::Continued(outcome)) => decision_routed(
            attempts,
            false,
            outcome,
            env.now,
            t,
            before,
            after,
        ),
        (ActiveStage::PlannerProbe { pending }, StageInput::JobDone { outcome, .. }) => probe_routed(
            attempts,
            pending,
            outcome,
            t,
            before,
            after,
        ),
        (ActiveStage::WaitingForHash { plan }, StageInput::Tick) => t == (Transition::AwaitHash {
            plan,
        }) && after == before,
        (ActiveStage::Hash { plan, opened: false }, StageInput::HashOpened(opened)) => open_routed(
            attempts,
            plan,
            opened,
            t,
            before,
            after,
        ),
        (ActiveStage::Hash { plan, opened: true }, StageInput::HashStepped(step)) => hash_routed(
            attempts,
            plan,
            step,
            t,
            before,
            after,
        ),
        (ActiveStage::WaitingForUpload { plan }, StageInput::Tick) => t == (
        Transition::AwaitUpload { plan }) && after == before,
        (ActiveStage::UploadAdmission { plan }, StageInput::UploadAdmitted(facts)) => admission_routed(
            intent.kind,
            plan,
            facts,
            t,
        ) && after == before,
        (ActiveStage::UploadPreflight { plan }, StageInput::JobDone { outcome, facts }) => preflight_routed(
            attempts,
            plan,
            outcome,
            facts,
            t,
            before,
            after,
        ),
        (ActiveStage::MoveRunning { plan, source }, StageInput::JobDone { outcome, facts }) => move_routed(
            attempts,
            plan,
            source,
            outcome,
            facts,
            t,
            before,
            after,
        ),
        (ActiveStage::UploadRunning { plan }, StageInput::JobDone { outcome, facts }) => upload_routed(
            intent,
            env.sync_mode,
            plan,
            outcome,
            facts,
            t,
            before,
            after,
        ),
        (ActiveStage::UploadHeld { plan, session }, StageInput::Tick) => after == before && t
            == if env.caps.allow_uploads {
            resumed(
                ActiveStage::UploadRunning { plan },
                session,
                TransferDirection::Upload,
            )
        } else {
            stays(stage, None)
        },
        (ActiveStage::WaitingForDownload { plan }, StageInput::Tick) => t == (
        Transition::AwaitDownload { plan }) && after == before,
        (ActiveStage::DownloadRunning { plan }, StageInput::JobDone { outcome, .. }) => download_routed(
            attempts,
            env.sync_mode,
            plan,
            outcome,
            t,
            before,
            after,
        ),
        (ActiveStage::DownloadHeld { plan, session }, StageInput::Tick) => after == before && t
            == if env.caps.allow_downloads {
            resumed(
                ActiveStage::DownloadRunning { plan },
                session,
                TransferDirection::Download,
            )
        } else {
            stays(stage, None)
        },
        (ActiveStage::GuardingDeletion { plan }, StageInput::GuardAnswered(answer)) => guard_routed(
            plan,
            answer,
            t,
            before,
            after,
        ),
        (ActiveStage::ResolvingConflict, StageInput::ConflictSettled(outcome)) => conflict_routed(
            attempts,
            outcome,
            t,
            before,
            after,
        ),
        (
            ActiveStage::ApplyingDownload { plan, outcome },
            StageInput::PayloadApplied(result),
        ) => payload_routed(attempts, plan, outcome, result, t, before, after),
        (ActiveStage::RemovingMirror, StageInput::MirrorRemoved(outcome)) => mirror_routed(
            attempts,
            outcome,
            t,
            before,
            after,
        ),
        (_, StageInput::JobDone { outcome, .. }) => t == stays(stage, open_session(outcome))
            && after == before,
        _ => t == stays(stage, None) && after == before,
    }
}

/// Decides where an execution goes.
pub fn apply_job_outcome(
    env: AdvanceEnv,
    intent: &DurableIntentRecord,
    stage: ActiveStage,
    input: StageInput,
    report: &mut StagedExecutorReport,
) -> (r: Transition)
    requires
        acceptable(env, stage, input),
    ensures
        routed(env, *intent, stage, input, r, old(report)@, final(report)@),
        fits(stage, r),
{
    let attempts: u32 = intent.attempt_count;
    match (stage, input) {
        (ActiveStage::Planner, StageInput::Planned(outcome)) => apply_decision(
            attempts,
            true,
            outcome,
            env.now,
            report,
        ),
        (ActiveStage::Continuing { .. }, StageInput::Continued(outcome)) => apply_decision(
            attempts,
            false,
            outcome,
            env.now,
            report,
        ),
        (ActiveStage::PlannerProbe { pending }, StageInput::JobDone { outcome, .. }) => apply_probe(
            attempts,
            pending,
            outcome,
            report,
        ),
        (ActiveStage::WaitingForHash { plan }, StageInput::Tick) => Transition::AwaitHash { plan },
        (ActiveStage::Hash { plan, opened: false }, StageInput::HashOpened(opened)) => apply_open(
            attempts,
            plan,
            opened,
            report,
        ),
        (ActiveStage::Hash { plan, opened: true }, StageInput::HashStepped(step)) => step_hash(
            attempts,
            plan,
            step,
            report,
        ),
        (ActiveStage::WaitingForUpload { plan }, StageInput::Tick) => Transition::AwaitUpload {
            plan,
        },
        (ActiveStage::UploadAdmission { plan }, StageInput::UploadAdmitted(facts)) => {
            step_waiting_for_upload(intent.kind, plan, facts)
        },
        (ActiveStage::UploadPreflight { plan }, StageInput::JobDone { outcome, facts }) => {
            apply_preflight(attempts, plan, outcome, facts, report)
        },
        (ActiveStage::MoveRunning { plan, source }, StageInput::JobDone { outcome, facts }) => {
            apply_move(attempts, plan, source, outcome, facts, report)
        },
        (ActiveStage::UploadRunning { plan }, StageInput::JobDone { outcome, facts }) => {
            apply_upload(intent, env.sync_mode, plan, outcome, facts, report)
        },
        (ActiveStage::UploadHeld { plan, session }, StageInput::Tick) => {
            if env.caps.allow_uploads {
                Transition::To {
                    stage: ActiveStage::UploadRunning { plan },
                    job: Some(
                        ProviderJobKind::ResumeTransfer {
                            session,
                            direction: TransferDirection::Upload,
                        },
                    ),
                    restart: false,
                }
            } else {
                Transition::Stay { stage: ActiveStage::UploadHeld { plan, session }, abort: None }
            }
        },
        (ActiveStage::WaitingForDownload { plan }, StageInput::Tick) => Transition::AwaitDownload {
            plan,
        },
        (ActiveStage::DownloadRunning { plan }, StageInput::JobDone { outcome, .. }) => {
            apply_download(attempts, env.sync_mode, plan, outcome, report)
        },
        (ActiveStage::DownloadHeld { plan, session }, StageInput::Tick) => {
            if env.caps.allow_downloads {
                Transition::To {
                    stage: ActiveStage::DownloadRunning { plan },
                    job: Some(
                        ProviderJobKind::ResumeTransfer {
                            session,
                            direction: TransferDirection::Download,
                        },
                    ),
                    restart: false,
                }
            } else {
                Transition::Stay { stage: ActiveStage::DownloadHeld { plan, session }, abort: None }
            }
        },
        (ActiveStage::GuardingDeletion { plan }, StageInput::GuardAnswered(answer)) => apply_guard(
            plan,
            answer,
            report,
        ),
        (ActiveStage::ResolvingConflict, StageInput::ConflictSettled(outcome)) => {
            finish_as_conflict(attempts, outcome, report)
        },
        (
            ActiveStage::ApplyingDownload { plan, outcome },
            StageInput::PayloadApplied(result),
        ) => apply_payload(attempts, plan, outcome, result, report),
        (ActiveStage::RemovingMirror, StageInput::MirrorRemoved(outcome)) => apply_mirror(
            attempts,
            outcome,
            report,
        ),
        (stage, StageInput::JobDone { outcome, .. }) => Transition::Stay {
            stage,
            abort: session_to_abort(&outcome),
        },
        (stage, _) => Transition::Stay { stage, abort: None },
    }
}

// ---------------------------------------------------------------------------
// Executions in flight
// ---------------------------------------------------------------------------

/// One intent in flight.
#[derive(Debug)]
pub struct Execution {
    pub intent: DurableIntentRecord,
    pub stage: ActiveStage,
    pub permit: Option<WorkPermit>,
    pub stage_started: Instant,
}

/// The permit held is the one the stage calls for.
pub open spec fn permit_fits(e: Execution) -> bool {
    match e.permit {
        Some(permit) => permit_class(e.stage) == Some(permit.class),
        None => permit_class(e.stage) is None,
    }
}

/// Executions in the order of their ids; no two on one path, no two with one
/// permit, and each with the permit its stage calls for.
pub open spec fn well_run(s: Seq<Execution>) -> bool {
    &&& forall|i: int, j: int|
        0 <= i < j < s.len() ==> (#[trigger] s[i]).intent.id < (#[trigger] s[j]).intent.id
    &&& forall|i: int, j: int|
        0 <= i < j < s.len() ==> (#[trigger] s[i]).intent.path@ != (#[trigger] s[j]).intent.path@
    &&& forall|i: int, j: int|
        0 <= i < j < s.len() && (#[trigger] s[i]).permit is Some ==> s[i].permit != (
        #[trigger] s[j]).permit
    &&& forall|i: int| 0 <= i < s.len() ==> permit_fits(#[trigger] s[i])
    &&& forall|i: int|
        0 <= i < s.len() ==> ((#[trigger] s[i]).stage matches ActiveStage::WaitingForDownload {
            plan,
        } ==> plan.staging_path is Some)
}

/// Every permit in use is one the workgate gave out.
pub open spec fn backed(s: Seq<Execution>, gate: GateView) -> bool {
    forall|i: int|
        0 <= i < s.len() ==> ((#[trigger] s[i]).permit matches Some(permit) ==> gate.held().contains(
            permit,
        ))
}

pub open spec fn holds(s: Seq<Execution>, permit: WorkPermit) -> bool {
    exists|i: int| 0 <= i < s.len() && (#[trigger] s[i]).permit == Some(permit)
}

/// Permits the workgate gave out to others than these executions.
pub open spec fn foreign(s: Seq<Execution>, gate: GateView) -> Set<WorkPermit> {
    gate.held().filter(|permit: WorkPermit| !holds(s, permit))
}

/// Most executions in flight at once.
pub open spec fn in_flight_limit(caps: ThrottleCaps) -> nat {
    (caps.planner_workers + caps.hash_workers + caps.upload_concurrency
        + caps.download_concurrency) as nat
}

/// Most executions in flight at once.
pub fn max_in_flight_items(caps: ThrottleCaps) -> (r: usize)
    requires
        in_flight_limit(caps) <= usize::MAX,
    ensures
        r == in_flight_limit(caps),
{
    caps.planner_workers + caps.hash_workers + caps.upload_concurrency + caps.download_concurrency
}

/// Why an intent was started, or not.
#[derive(Clone, Copy, Debug, PartialEq, Eq, Structural)]
pub enum StartDecision {
    Started,
    /// Another execution is in flight on the path; only this intent waits.
    PathBusy,
    /// Executions or planner permits are exhausted; nothing more can start.
    AtCapacity,
}

pub open spec fn path_busy(s: Seq<Execution>, path: Seq<Part>) -> bool {
    exists|i: int| 0 <= i < s.len() && (#[trigger] s[i]).intent.path@ == path
}

/// What the caller does after an advance.
#[derive(Debug, PartialEq, Eq)]
pub enum Directive {
    /// No such execution; a session that came with the input is aborted.
    NotActive { abort: Option<u64> },
    /// The execution goes on in its stage.
    GoOn { abort: Option<u64> },
    /// Start the job, under this generation.
    Dispatch { job: ProviderJobKind, generation: u64 },
    /// The execution ended: settle its durable row and record the effects.
    Settle { action: QueueAction, effects: Vec<Effect>, abort: Option<u64> },
}

pub open spec fn is_at(s: Seq<Execution>, id: i64, i: int) -> bool {
    0 <= i < s.len() && s[i].intent.id == id
}

pub open spec fn is_active(s: Seq<Execution>, id: i64) -> bool {
    exists|i: int| is_at(s, id, i)
}

/// The workgate once `permit` is given back.
pub open spec fn without(gate: GateView, permit: Option<WorkPermit>) -> Set<WorkPermit> {
    match permit {
        Some(p) => gate.held().remove(p),
        None => gate.held(),
    }
}

/// Stages that wait for a permit.
pub open spec fn waits(stage: ActiveStage) -> bool {
    stage is WaitingForHash || stage is WaitingForUpload || stage is WaitingForDownload
}

/// Transitions that ask the workgate for a permit.
pub open spec fn asks_for_permit(t: Transition) -> bool {
    t is AwaitHash || t is AwaitUpload || t is AwaitDownload
}

/// The execution at `i` goes to the slot of `class` if a permit is to be had
/// under the caps of `tuned`, else it waits; what it held before is given back
/// either way.
pub open spec fn queued_for(
    s: Seq<Execution>,
    i: int,
    class: WorkClass,
    granted: ActiveStage,
    waiting: ActiveStage,
    gate: GateView,
    tuned: GateView,
    now: Instant,
    s2: Seq<Execution>,
    gate2: GateView,
) -> bool {
    if denial(tuned.caps, gate.permits, class) is None {
        &&& s2 == s.update(
            i,
            Execution {
                stage: granted,
                permit: Some(gate.fresh(class)),
                stage_started: now,
                ..s[i]
            },
        )
        &&& gate2.held() == without(gate, s[i].permit).insert(gate.fresh(class))
        &&& gate2.next_id == gate.next_id + 1
    } else {
        &&& s2 == s.update(
            i,
            Execution {
                stage: waiting,
                permit: None,
                stage_started: if waits(s[i].stage) {
                    s[i].stage_started
                } else {
                    now
                },
                ..s[i]
            },
        )
        &&& gate2.held() == without(gate, s[i].permit)
        &&& gate2.next_id == gate.next_id
    }
}

pub open spec fn download_job(d: Directive, plan: TransferPlan, generation: u64) -> bool {
    &&& d matches Directive::Dispatch { job, generation: g }
    &&& g == generation
    &&& job matches ProviderJobKind::Download(request)
    &&& request.remote_path == plan.remote_path
    &&& plan.staging_path is Some
    &&& request.destination@ == plan.staging_path->0@
}

/// What a transition makes of the executions and the workgate, and what the
/// caller is told. A permit is asked for under the caps of `tuned`, which the
/// workgate has from then on.
pub open spec fn landed(
    t: Transition,
    s: Seq<Execution>,
    i: int,
    gate: GateView,
    tuned: GateView,
    generation: u64,
    now: Instant,
    s2: Seq<Execution>,
    gate2: GateView,
    d: Directive,
) -> bool {
    &&& gate2.state == if asks_for_permit(t) {
        tuned.state
    } else {
        gate.state
    }
    &&& gate2.caps == if asks_for_permit(t) {
        tuned.caps
    } else {
        gate.caps
    }
    &&& match t {
        Transition::Stay { abort, .. } => {
            &&& s2 == s
            &&& gate2 == gate
            &&& d == (Directive::GoOn { abort })
        },
        Transition::To { stage, job, restart } => {
            &&& s2 == s.update(
                i,
                Execution {
                    stage,
                    permit: if permit_class(stage) is Some {
                        s[i].permit
                    } else {
                        None
                    },
                    stage_started: if restart {
                        now
                    } else {
                        s[i].stage_started
                    },
                    ..s[i]
                },
            )
            &&& gate2.held() == if permit_class(stage) is Some {
                gate.held()
            } else {
                without(gate, s[i].permit)
            }
            &&& gate2.next_id == gate.next_id
            &&& d == match job {
                Some(job) => Directive::Dispatch { job, generation },
                None => Directive::GoOn { abort: None },
            }
        },
        Transition::AwaitHash { plan } => {
            &&& queued_for(
                s,
                i,
                WorkClass::Hash,
                ActiveStage::Hash { plan, opened: false },
                ActiveStage::WaitingForHash { plan },
                gate,
                tuned,
                now,
                s2,
                gate2,
            )
            &&& d == (Directive::GoOn { abort: None })
        },
        Transition::AwaitUpload { plan } => {
            &&& queued_for(
                s,
                i,
                WorkClass::Upload,
                ActiveStage::UploadAdmission { plan },
                ActiveStage::WaitingForUpload { plan },
                gate,
                tuned,
                now,
                s2,
                gate2,
            )
            &&& d == (Directive::GoOn { abort: None })
        },
        Transition::AwaitDownload { plan } => {
            &&& queued_for(
                s,
                i,
                WorkClass::Download,
                ActiveStage::DownloadRunning { plan },
                ActiveStage::WaitingForDownload { plan },
                gate,
                tuned,
                now,
                s2,
                gate2,
            )
            &&& if denial(tuned.caps, gate.permits, WorkClass::Download) is None {
                download_job(d, plan, generation)
            } else {
                d == (Directive::GoOn { abort: None })
            }
        },
        Transition::Leave { action, effects, abort } => {
            &&& s2 == s.remove(i)
            &&& gate2.held() == without(gate, s[i].permit)
            &&& gate2.next_id == gate.next_id
            &&& d == (Directive::Settle { action, effects, abort })
        },
    }
}

/// Changing one execution to another permit, or none, keeps the rest.
proof fn lemma_exchanged(
    s: Seq<Execution>,
    i: int,
    e: Execution,
    gate: GateView,
    gate2: GateView,
)
    requires
        0 <= i < s.len(),
        well_run(s),
        backed(s, gate),
        e.intent == s[i].intent,
        permit_fits(e),
        e.stage matches ActiveStage::WaitingForDownload { plan } ==> plan.staging_path is Some,
        e.permit == s[i].permit || e.permit is None || !gate.held().contains(e.permit->0),
        gate2.held() == match e.permit {
            Some(p) => if e.permit == s[i].permit {
                gate.held()
            } else {
                without(gate, s[i].permit).insert(p)
            },
            None => without(gate, s[i].permit),
        },
    ensures
        well_run(s.update(i, e)),
        backed(s.update(i, e), gate2),
        foreign(s.update(i, e), gate2) == foreign(s, gate),
{
    let s2 = s.update(i, e);
    assert forall|j: int, k: int|
        0 <= j < k < s2.len() && (#[trigger] s2[j]).permit is Some implies s2[j].permit != (
    #[trigger] s2[k]).permit by {
        if j != i && k != i {
            assert(s[j].permit != s[k].permit);
        } else if j == i {
            assert(s2[k] == s[k]);
            if s[k].permit is Some {
                assert(gate.held().contains(s[k].permit->0));
            }
        } else {
            assert(s2[j] == s[j]);
            assert(gate.held().contains(s[j].permit->0));
        }
    }
    assert forall|j: int|
        0 <= j < s2.len() && (#[trigger] s2[j]).permit is Some implies gate2.held().contains(
        s2[j].permit->0,
    ) by {
        if j != i {
            assert(s2[j] == s[j]);
            assert(gate.held().contains(s[j].permit->0));
            if j < i {
                assert(s[j].permit != s[i].permit);
            } else {
                assert(s[i].permit is Some ==> s[i].permit != s[j].permit);
            }
        }
    }
    assert forall|p: WorkPermit|
        foreign(s2, gate2).contains(p) == foreign(s, gate).contains(p) by {
        if holds(s, p) {
            let j = choose|j: int| 0 <= j < s.len() && (#[trigger] s[j]).permit == Some(p);
            if j != i {
                assert(s2[j].permit == Some(p));
            }
        }
        if holds(s2, p) {
            let j = choose|j: int| 0 <= j < s2.len() && (#[trigger] s2[j]).permit == Some(p);
            if j != i {
                assert(s[j].permit == Some(p));
            } else {
                assert(e.permit == Some(p));
                if e.permit == s[i].permit {
                    assert(s[i].permit == Some(p));
                }
            }
        }
        if s[i].permit == Some(p) {
            assert(holds(s, p));
        }
        if e.permit == Some(p) {
            assert(s2[i].permit == Some(p));
            assert(holds(s2, p));
        }
    }
    assert(foreign(s2, gate2) =~= foreign(s, gate));
}

/// Ending one execution keeps the rest.
proof fn lemma_ended(s: Seq<Execution>, i: int, gate: GateView, gate2: GateView)
    requires
        0 <= i < s.len(),
        well_run(s),
        backed(s, gate),
        gate2.held() == without(gate, s[i].permit),
    ensures
        well_run(s.remove(i)),
        backed(s.remove(i), gate2),
        foreign(s.remove(i), gate2) == foreign(s, gate),
{
    let s2 = s.remove(i);
    assert forall|j: int| 0 <= j < s2.len() implies #[trigger] s2[j] == s[if j < i {
        j
    } else {
        j + 1
    }] by {}
    assert forall|j: int|
        0 <= j < s2.len() && (#[trigger] s2[j]).permit is Some implies gate2.held().contains(
        s2[j].permit->0,
    ) by {
        let k = if j < i {
            j
        } else {
            j + 1
        };
        assert(s2[j] == s[k]);
        assert(gate.held().contains(s[k].permit->0));
        if k < i {
            assert(s[k].permit != s[i].permit);
        } else {
            assert(s[i].permit is Some ==> s[i].permit != s[k].permit);
        }
    }
    assert forall|p: WorkPermit|
        foreign(s2, gate2).contains(p) == foreign(s, gate).contains(p) by {
        if holds(s, p) {
            let k = choose|k: int| 0 <= k < s.len() && (#[trigger] s[k]).permit == Some(p);
            if k < i {
                assert(s2[k] == s[k]);
            } else if k > i {
                assert(s2[k - 1] == s[k]);
            }
        }
        if holds(s2, p) {
            let j = choose|j: int| 0 <= j < s2.len() && (#[trigger] s2[j]).permit == Some(p);
            assert(s[if j < i {
                j
            } else {
                j + 1
            }].permit == Some(p));
        }
        if s[i].permit == Some(p) {
            assert(holds(s, p));
        }
    }
    assert(foreign(s2, gate2) =~= foreign(s, gate));
}

/// No advance leaks or steals a permit: whatever the transition, executions
/// stay one per path and in order, every permit in use is backed by the workgate,
/// and the permits of others stay what they were.
pub proof fn law_advances_conserve_permits(
    t: Transition,
    s: Seq<Execution>,
    i: int,
    gate: GateView,
    tuned: GateView,
    generation: u64,
    now: Instant,
    s2: Seq<Execution>,
    gate2: GateView,
    d: Directive,
)
    requires
        0 <= i < s.len(),
        well_run(s),
        backed(s, gate),
        gate.wf(),
        gate.next_id <= u64::MAX,
        fits(s[i].stage, t),
        landed(t, s, i, gate, tuned, generation, now, s2, gate2, d),
    ensures
        well_run(s2),
        backed(s2, gate2),
        foreign(s2, gate2) == foreign(s, gate),
{
    assert(permit_fits(s[i]));
    assert forall|class: WorkClass| !gate.held().contains(#[trigger] gate.fresh(class)) by {
        if gate.permits.contains(gate.fresh(class)) {
            let k = choose|k: int|
                0 <= k < gate.permits.len() && gate.permits[k] == gate.fresh(class);
            assert(gate.permits[k].id < gate.next_id);
        }
    }
    match t {
        Transition::Stay { .. } => {},
        Transition::Leave { .. } => {
            lemma_ended(s, i, gate, gate2);
        },
        _ => {
            assert(s2[i].permit == s[i].permit || s2[i].permit is None || exists|class: WorkClass|
                s2[i].permit == Some(#[trigger] gate.fresh(class)));
            lemma_exchanged(s, i, s2[i], gate, gate2);
            assert(s2 =~= s.update(i, s2[i]));
        },
    }
}

/// Two executions in flight never work on one path.
pub proof fn law_one_execution_per_path(s: Seq<Execution>, i: int, j: int)
    requires
        well_run(s),
        0 <= i < s.len(),
        0 <= j < s.len(),
        i != j,
    ensures
        s[i].intent.path@ != s[j].intent.path@,
{
    if i < j {
        assert(s[i].intent.path@ != s[j].intent.path@);
    } else {
        assert(s[j].intent.path@ != s[i].intent.path@);
    }
}

/// The executions in flight and the job bookkeeping.
#[derive(Debug)]
pub struct StagedExecutor {
    active: Vec<Execution>,
    /// Paths of executions that another one with their id took the place of.
    abandoned: Vec<FsPath>,
    jobs: ProviderJobPool,
}

impl StagedExecutor {
    pub closed spec fn executions(&self) -> Seq<Execution> {
        self.active@
    }

    pub closed spec fn pool(&self) -> ProviderJobPool {
        self.jobs
    }

    /// Paths that stay busy though nothing is in flight on them.
    pub closed spec fn abandoned(&self) -> Seq<Seq<Part>> {
        path_views(self.abandoned@)
    }

    /// Nothing may start on the path.
    pub open spec fn is_busy(&self, path: Seq<Part>) -> bool {
        path_busy(self.executions(), path) || self.abandoned().contains(path)
    }

    /// An executor with nothing in flight.
    pub fn new() -> (r: StagedExecutor)
        ensures
            r.executions() == Seq::<Execution>::empty(),
            r.abandoned() == Seq::<Seq<Part>>::empty(),
            well_run(r.executions()),
            r.pool().current() == 0,
            r.pool().running() == 0,
    {
        let r = StagedExecutor {
            active: Vec::new(),
            abandoned: Vec::new(),
            jobs: ProviderJobPool::inline(),
        };
        assert(r.abandoned() =~= Seq::<Seq<Part>>::empty());
        r
    }

    fn position(&self, id: i64) -> (r: Option<usize>)
        ensures
            match r {
                Some(i) => is_at(self.executions(), id, i as int),
                None => !is_active(self.executions(), id),
            },
    {
        let mut i: usize = 0;
        while i < self.active.len()
            invariant
                i <= self.active@.len(),
                forall|j: int| 0 <= j < i ==> (#[trigger] self.active@[j]).intent.id != id,
            decreases self.active@.len() - i,
        {
            if self.active[i].intent.id == id {
                return Some(i);
            }
            i = i + 1;
        }
        None
    }

    /// The execution of an intent, if it is in flight.
    pub fn execution(&self, id: i64) -> (r: Option<&Execution>)
        ensures
            match r {
                Some(e) => exists|i: int| is_at(self.executions(), id, i) && *e
                    == self.executions()[i],
                None => !is_active(self.executions(), id),
            },
    {
        match self.position(id) {
            Some(i) => {
                assert(is_at(self.executions(), id, i as int));
                Some(&self.active[i])
            },
            None => None,
        }
    }

    fn is_abandoned(&self, path: &FsPath) -> (r: bool)
        ensures
            r == self.abandoned().contains(path@),
    {
        let ghost all = self.abandoned();
        let mut i: usize = 0;
        while i < self.abandoned.len()
            invariant
                i <= self.abandoned@.len(),
                all == path_views(self.abandoned@),
                all == self.abandoned(),
                forall|j: int| 0 <= j < i ==> #[trigger] all[j] != path@,
            decreases self.abandoned@.len() - i,
        {
            assert(all[i as int] == self.abandoned@[i as int]@);
            if self.abandoned[i].same(path) {
                return true;
            }
            i = i + 1;
        }
        false
    }

    /// Starts an intent, unless too much is in flight, its path is busy, or no
    /// planner permit is to be had under the caps in force at `wall`. An intent
    /// with the id of one in flight takes its place: what that one held stays
    /// out, and its path stays busy until everything is aborted.
    pub fn try_start(
        &mut self,
        app: &mut DaemonApp,
        gate: &mut ThrottleWorkgate,
        intent: DurableIntentRecord,
        wall: SystemTime,
        now: Instant,
    ) -> (r: StartDecision)
        requires
            well_run(old(self).executions()),
            backed(old(self).executions(), old(gate)@),
            old(gate)@.wf(),
            old(gate)@.next_id < u64::MAX,
            in_flight_limit(old(gate)@.caps) <= usize::MAX,
        ensures
            ({
                let tuned = old(app).tuned_gate(old(gate)@, wall);
                if old(self).executions().len() >= in_flight_limit(old(gate)@.caps) {
                    &&& r == StartDecision::AtCapacity
                    &&& *final(app) == *old(app)
                    &&& final(gate)@ == old(gate)@
                } else if old(self).is_busy(intent.path@) {
                    &&& r == StartDecision::PathBusy
                    &&& *final(app) == *old(app)
                    &&& final(gate)@ == old(gate)@
                } else {
                    &&& final(app).only_refreshed(*old(app), wall)
                    &&& if denial(tuned.caps, tuned.permits, WorkClass::Planner) is Some {
                        &&& r == StartDecision::AtCapacity
                        &&& final(gate)@ == tuned
                    } else {
                        &&& r == StartDecision::Started
                        &&& final(gate)@.state == tuned.state
                        &&& final(gate)@.caps == tuned.caps
                        &&& final(gate)@.held() == old(gate)@.held().insert(
                            old(gate)@.fresh(WorkClass::Planner),
                        )
                        &&& final(gate)@.next_id == old(gate)@.next_id + 1
                    }
                }
            }),
            r is Started ==> {
                let started = started_execution(
                    intent,
                    old(gate)@.fresh(WorkClass::Planner),
                    now,
                );
                if is_active(old(self).executions(), intent.id) {
                    exists|k: int|
                        {
                            &&& #[trigger] is_at(old(self).executions(), intent.id, k)
                            &&& final(self).executions() == old(self).executions().update(
                                k,
                                started,
                            )
                            &&& final(self).abandoned() == old(self).abandoned().push(
                                old(self).executions()[k].intent.path@,
                            )
                            &&& foreign(final(self).executions(), final(gate)@)
                                == match old(self).executions()[k].permit {
                                Some(permit) => foreign(
                                    old(self).executions(),
                                    old(gate)@,
                                ).insert(permit),
                                None => foreign(old(self).executions(), old(gate)@),
                            }
                        }
                } else {
                    &&& exists|k: int|
                        0 <= k <= old(self).executions().len() && #[trigger] old(
                            self,
                        ).executions().insert(k, started) == final(self).executions()
                    &&& final(self).abandoned() == old(self).abandoned()
                    &&& foreign(final(self).executions(), final(gate)@) == foreign(
                        old(self).executions(),
                        old(gate)@,
                    )
                }
            },
            r !is Started ==> {
                &&& final(self).executions() == old(self).executions()
                &&& final(self).abandoned() == old(self).abandoned()
            },
            final(self).pool() == old(self).pool(),
            final(gate)@.wf(),
            well_run(final(self).executions()),
            backed(final(self).executions(), final(gate)@),
    {
        if self.active.len() >= max_in_flight_items(gate.caps()) {
            return StartDecision::AtCapacity;
        }
        let mut i: usize = 0;
        let mut at: usize = 0;
        while i < self.active.len()
            invariant
                i <= self.active@.len(),
                at <= i,
                *self == *old(self),
                *app == *old(app),
                self.active@ == old(self).executions(),
                gate@ == old(gate)@,
                gate@.wf(),
                self.active@.len() < in_flight_limit(gate@.caps),
                well_run(self.active@),
                backed(self.active@, gate@),
                forall|j: int|
                    0 <= j < i ==> (#[trigger] self.active@[j]).intent.path@ != intent.path@,
                forall|j: int| 0 <= j < at ==> (#[trigger] self.active@[j]).intent.id < intent.id,
                forall|j: int| at <= j < i ==> (#[trigger] self.active@[j]).intent.id >= intent.id,
            decreases self.active@.len() - i,
        {
            if self.active[i].intent.path.same(&intent.path) {
                assert(path_busy(self.active@, intent.path@));
                return StartDecision::PathBusy;
            }
            if self.active[i].intent.id < intent.id {
                proof {
                    if at < i {
                        assert(self.active@[at as int].intent.id < self.active@[i as int].intent.id);
                    }
                }
                at = i + 1;
            }
            i = i + 1;
        }
        if self.is_abandoned(&intent.path) {
            return StartDecision::PathBusy;
        }
        let permit = match app.try_acquire_work(gate, WorkClass::Planner, wall) {
            Ok(permit) => permit,
            Err(_) => {
                return StartDecision::AtCapacity;
            },
        };
        let ghost before = self.active@;
        let replaces = at < self.active.len() && self.active[at].intent.id == intent.id;
        let execution = Execution {
            intent,
            stage: ActiveStage::Planner,
            permit: Some(permit),
            stage_started: now,
        };
        if replaces {
            let ghost paths = self.abandoned();
            let left = self.active[at].intent.path.clone();
            self.abandoned.push(left);
            self.active.set(at, execution);
            proof {
                assert(self.abandoned() =~= paths.push(before[at as int].intent.path@));
                lemma_replaced(before, at as int, execution, old(gate)@, gate@);
                assert(is_at(before, execution.intent.id, at as int));
            }
        } else {
            self.active.insert(at, execution);
            proof {
                assert forall|j: int| at <= j < before.len() implies (
                #[trigger] before[j]).intent.id > execution.intent.id by {
                    if j > at {
                        assert(before[at as int].intent.id < before[j].intent.id);
                    }
                }
                if is_active(before, execution.intent.id) {
                    let k = choose|k: int| is_at(before, execution.intent.id, k);
                    assert(before[k].intent.id == execution.intent.id);
                }
                lemma_started(before, at as int, execution, old(gate)@, gate@);
                assert(before.insert(at as int, execution) == self.active@);
            }
        }
        StartDecision::Started
    }
}

impl StagedExecutor {
    /// Gives `permit` back to the workgate.
    fn give_back(gate: &mut ThrottleWorkgate, permit: Option<WorkPermit>)
        requires
            old(gate)@.wf(),
            permit matches Some(p) ==> old(gate)@.held().contains(p),
        ensures
            final(gate)@.wf(),
            final(gate)@.held() == without(old(gate)@, permit),
            final(gate)@ == (GateView { permits: final(gate)@.permits, ..old(gate)@ }),
            forall|class: WorkClass|
                (permit matches Some(p) ==> p.class != class) ==> #[trigger] in_use(
                    final(gate)@.permits,
                    class,
                ) == in_use(old(gate)@.permits, class),
    {
        if let Some(p) = permit {
            let _ = gate.release(p);
        }
    }

    /// Gives `permit` back and asks for one of `class` instead, under the caps
    /// in force at `wall`.
    fn exchange(
        app: &mut DaemonApp,
        gate: &mut ThrottleWorkgate,
        permit: Option<WorkPermit>,
        class: WorkClass,
        wall: SystemTime,
    ) -> (r: Option<WorkPermit>)
        requires
            old(gate)@.wf(),
            old(gate)@.next_id < u64::MAX,
            permit matches Some(p) ==> old(gate)@.held().contains(p) && p.class != class,
        ensures
            final(app).only_refreshed(*old(app), wall),
            final(gate)@.wf(),
            ({
                let tuned = old(app).tuned_gate(old(gate)@, wall);
                &&& final(gate)@.state == tuned.state
                &&& final(gate)@.caps == tuned.caps
                &&& if denial(tuned.caps, old(gate)@.permits, class) is None {
                    &&& r == Some(old(gate)@.fresh(class))
                    &&& final(gate)@.held() == without(old(gate)@, permit).insert(
                        old(gate)@.fresh(class),
                    )
                    &&& final(gate)@.next_id == old(gate)@.next_id + 1
                } else {
                    &&& r is None
                    &&& final(gate)@.held() == without(old(gate)@, permit)
                    &&& final(gate)@.next_id == old(gate)@.next_id
                }
            }),
    {
        Self::give_back(gate, permit);
        assert(in_use(gate@.permits, class) == in_use(old(gate)@.permits, class));
        match app.try_acquire_work(gate, class, wall) {
            Ok(granted) => Some(granted),
            Err(_) => None,
        }
    }

    /// Advances one execution by what its stage was waiting for. `now` is the
    /// time of the cycle; permits are asked for under the caps in force at
    /// `wall`.
    pub fn advance_one(
        &mut self,
        app: &mut DaemonApp,
        gate: &mut ThrottleWorkgate,
        id: i64,
        input: StageInput,
        sync_mode: SyncMode,
        now: SystemTime,
        wall: SystemTime,
        now_inst: Instant,
        report: &mut StagedExecutorReport,
    ) -> (r: Directive)
        requires
            well_run(old(self).executions()),
            backed(old(self).executions(), old(gate)@),
            old(gate)@.wf(),
            old(gate)@.next_id < u64::MAX,
            old(self).pool().running() < usize::MAX,
            forall|i: int|
                is_at(old(self).executions(), id, i) ==> acceptable(
                    AdvanceEnv { sync_mode, caps: old(gate)@.caps, now },
                    #[trigger] old(self).executions()[i].stage,
                    input,
                ),
        ensures
            !is_active(old(self).executions(), id) ==> {
                &&& final(self).executions() == old(self).executions()
                &&& final(self).pool() == old(self).pool()
                &&& *final(app) == *old(app)
                &&& final(gate)@ == old(gate)@
                &&& final(report)@ == old(report)@
                &&& r == (Directive::NotActive { abort: session_in(input) })
            },
            is_active(old(self).executions(), id) ==> exists|i: int, t: Transition|
                {
                    &&& #[trigger] is_at(old(self).executions(), id, i)
                    &&& routed(
                        AdvanceEnv { sync_mode, caps: old(gate)@.caps, now },
                        old(self).executions()[i].intent,
                        old(self).executions()[i].stage,
                        input,
                        t,
                        old(report)@,
                        final(report)@,
                    )
                    &&& #[trigger] landed(
                        t,
                        old(self).executions(),
                        i,
                        old(gate)@,
                        old(app).tuned_gate(old(gate)@, wall),
                        old(self).pool().current(),
                        now_inst,
                        final(self).executions(),
                        final(gate)@,
                        r,
                    )
                    &&& if asks_for_permit(t) {
                        final(app).only_refreshed(*old(app), wall)
                    } else {
                        *final(app) == *old(app)
                    }
                },
            final(self).abandoned() == old(self).abandoned(),
            final(self).pool().current() == old(self).pool().current(),
            final(self).pool().running() == old(self).pool().running() + if r is Dispatch {
                1int
            } else {
                0int
            },
            final(gate)@.wf(),
            well_run(final(self).executions()),
            backed(final(self).executions(), final(gate)@),
            foreign(final(self).executions(), final(gate)@) == foreign(
                old(self).executions(),
                old(gate)@,
            ),
    {
        let i: usize = match self.position(id) {
            Some(i) => i,
            None => {
                return Directive::NotActive {
                    abort: match input {
                        StageInput::JobDone { outcome, .. } => session_to_abort(&outcome),
                        _ => None,
                    },
                };
            },
        };
        let env = AdvanceEnv { sync_mode, caps: gate.caps(), now };
        let ghost s = self.active@;
        let ghost gate0 = gate@;
        let ghost generation0 = self.jobs.current();
        assert(is_at(s, id, i as int));
        assert(permit_fits(s[i as int]));
        assert(acceptable(env, old(self).executions()[i as int].stage, input));
        let Execution { intent, stage, permit, stage_started } = self.active.remove(i);
        let waiting = matches!(
            stage,
            ActiveStage::WaitingForHash { .. } | ActiveStage::WaitingForUpload { .. }
                | ActiveStage::WaitingForDownload { .. }
        );
        let since = if waiting {
            stage_started
        } else {
            now_inst
        };
        let t = apply_job_outcome(env, &intent, stage, input, report);
        let ghost transition = t;
        let d = match t {
            Transition::Stay { stage, abort } => {
                self.active.insert(i, Execution { intent, stage, permit, stage_started });
                assert(self.active@ =~= s);
                Directive::GoOn { abort }
            },
            Transition::To { stage, job, restart } => {
                let kept = if holds_permit(&stage) {
                    permit
                } else {
                    Self::give_back(gate, permit);
                    None
                };
                let started = if restart {
                    now_inst
                } else {
                    stage_started
                };
                self.active.insert(
                    i,
                    Execution { intent, stage, permit: kept, stage_started: started },
                );
                match job {
                    Some(job) => {
                        let generation: u64 = self.jobs.dispatch();
                        Directive::Dispatch { job, generation }
                    },
                    None => Directive::GoOn { abort: None },
                }
            },
            Transition::AwaitHash { plan } => {
                let execution = match Self::exchange(app, gate, permit, WorkClass::Hash, wall) {
                    Some(granted) => Execution {
                        intent,
                        stage: ActiveStage::Hash { plan, opened: false },
                        permit: Some(granted),
                        stage_started: now_inst,
                    },
                    None => Execution {
                        intent,
                        stage: ActiveStage::WaitingForHash { plan },
                        permit: None,
                        stage_started: since,
                    },
                };
                self.active.insert(i, execution);
                Directive::GoOn { abort: None }
            },
            Transition::AwaitUpload { plan } => {
                let execution = match Self::exchange(app, gate, permit, WorkClass::Upload, wall) {
                    Some(granted) => Execution {
                        intent,
                        stage: ActiveStage::UploadAdmission { plan },
                        permit: Some(granted),
                        stage_started: now_inst,
                    },
                    None => Execution {
                        intent,
                        stage: ActiveStage::WaitingForUpload { plan },
                        permit: None,
                        stage_started: since,
                    },
                };
                self.active.insert(i, execution);
                Directive::GoOn { abort: None }
            },
            Transition::AwaitDownload { plan } => {
                match Self::exchange(app, gate, permit, WorkClass::Download, wall) {
                    Some(granted) => {
                        let request = match &plan.staging_path {
                            Some(staging) => Some(
                                DownloadRequest {
                                    remote_path: plan.remote_path.clone(),
                                    destination: staging.clone(),
                                },
                            ),
                            None => None,
                        };
                        self.active.insert(
                            i,
                            Execution {
                                intent,
                                stage: ActiveStage::DownloadRunning { plan },
                                permit: Some(granted),
                                stage_started: now_inst,
                            },
                        );
                        match request {
                            Some(request) => {
                                let generation: u64 = self.jobs.dispatch();
                                Directive::Dispatch {
                                    job: ProviderJobKind::Download(request),
                                    generation,
                                }
                            },
                            None => Directive::GoOn { abort: None },
                        }
                    },
                    None => {
                        self.active.insert(
                            i,
                            Execution {
                                intent,
                                stage: ActiveStage::WaitingForDownload { plan },
                                permit: None,
                                stage_started: since,
                            },
                        );
                        Directive::GoOn { abort: None }
                    },
                }
            },
            Transition::Leave { action, effects, abort } => {
                Self::give_back(gate, permit);
                Directive::Settle { action, effects, abort }
            },
        };
        proof {
            if transition !is Leave {
                assert(self.active@ =~= s.update(i as int, self.active@[i as int]));
            }
            law_advances_conserve_permits(
                transition,
                s,
                i as int,
                gate0,
                old(app).tuned_gate(gate0, wall),
                generation0,
                now_inst,
                self.active@,
                gate@,
                d,
            );
            assert(is_at(old(self).executions(), id, i as int));
            assert(routed(
                AdvanceEnv { sync_mode, caps: old(gate)@.caps, now },
                old(self).executions()[i as int].intent,
                old(self).executions()[i as int].stage,
                input,
                transition,
                old(report)@,
                report@,
            ));
            assert(landed(
                transition,
                old(self).executions(),
                i as int,
                old(gate)@,
                old(app).tuned_gate(old(gate)@, wall),
                old(self).pool().current(),
                now_inst,
                self.executions(),
                gate@,
                d,
            ));
        }
        d
    }
}

/// The session an input holds open.
pub open spec fn session_in(input: StageInput) -> Option<u64> {
    match input {
        StageInput::JobDone { outcome, .. } => open_session(outcome),
        _ => None,
    }
}

/// An intent that starts.
pub open spec fn started_execution(
    intent: DurableIntentRecord,
    permit: WorkPermit,
    now: Instant,
) -> Execution {
    Execution { intent, stage: ActiveStage::Planner, permit: Some(permit), stage_started: now }
}

/// Adding an execution with a new permit on a free path keeps the rest.
proof fn lemma_started(
    s: Seq<Execution>,
    at: int,
    e: Execution,
    gate: GateView,
    gate2: GateView,
)
    requires
        0 <= at <= s.len(),
        well_run(s),
        backed(s, gate),
        permit_fits(e),
        e.stage is Planner,
        e.permit is Some,
        !gate.held().contains(e.permit->0),
        gate2.held() == gate.held().insert(e.permit->0),
        !path_busy(s, e.intent.path@),
        forall|j: int| 0 <= j < at ==> (#[trigger] s[j]).intent.id < e.intent.id,
        forall|j: int| at <= j < s.len() ==> (#[trigger] s[j]).intent.id > e.intent.id,
    ensures
        well_run(s.insert(at, e)),
        backed(s.insert(at, e), gate2),
        foreign(s.insert(at, e), gate2) == foreign(s, gate),
{
    let s2 = s.insert(at, e);
    assert forall|j: int| 0 <= j < s2.len() implies #[trigger] s2[j] == if j < at {
        s[j]
    } else if j == at {
        e
    } else {
        s[j - 1]
    } by {}
    assert forall|j: int|
        0 <= j < s.len() && (#[trigger] s[j]).permit is Some implies s[j].permit != e.permit by {
        assert(gate.held().contains(s[j].permit->0));
    }
    assert forall|p: WorkPermit|
        foreign(s2, gate2).contains(p) == foreign(s, gate).contains(p) by {
        if holds(s, p) {
            let j = choose|j: int| 0 <= j < s.len() && (#[trigger] s[j]).permit == Some(p);
            assert(s2[if j < at {
                j
            } else {
                j + 1
            }] == s[j]);
        }
        if holds(s2, p) && Some(p) != e.permit {
            let j = choose|j: int| 0 <= j < s2.len() && (#[trigger] s2[j]).permit == Some(p);
            assert(j != at);
            assert(s[if j < at {
                j
            } else {
                j - 1
            }] == s2[j]);
        }
        if e.permit == Some(p) {
            assert(s2[at].permit == Some(p));
            assert(holds(s2, p));
        }
    }
    assert(foreign(s2, gate2) =~= foreign(s, gate));
}

/// An execution with a new permit on a free path in the place of one with its
/// id: what that one held is out of the executions' hands.
proof fn lemma_replaced(
    s: Seq<Execution>,
    at: int,
    e: Execution,
    gate: GateView,
    gate2: GateView,
)
    requires
        0 <= at < s.len(),
        well_run(s),
        backed(s, gate),
        permit_fits(e),
        e.stage is Planner,
        e.permit is Some,
        !gate.held().contains(e.permit->0),
        gate2.held() == gate.held().insert(e.permit->0),
        !path_busy(s, e.intent.path@),
        s[at].intent.id == e.intent.id,
    ensures
        well_run(s.update(at, e)),
        backed(s.update(at, e), gate2),
        foreign(s.update(at, e), gate2) == match s[at].permit {
            Some(permit) => foreign(s, gate).insert(permit),
            None => foreign(s, gate),
        },
{
    let s2 = s.update(at, e);
    assert forall|j: int| 0 <= j < s2.len() implies #[trigger] s2[j] == if j == at {
        e
    } else {
        s[j]
    } by {}
    assert forall|j: int|
        0 <= j < s.len() && (#[trigger] s[j]).permit is Some implies s[j].permit != e.permit by {
        assert(gate.held().contains(s[j].permit->0));
    }
    let expected = match s[at].permit {
        Some(permit) => foreign(s, gate).insert(permit),
        None => foreign(s, gate),
    };
    assert forall|p: WorkPermit| foreign(s2, gate2).contains(p) == expected.contains(p) by {
        if holds(s, p) {
            let j = choose|j: int| 0 <= j < s.len() && (#[trigger] s[j]).permit == Some(p);
            if j != at {
                assert(s2[j] == s[j]);
                assert(holds(s2, p));
                if s[at].permit == Some(p) {
                    assert(s[at].permit != s[j].permit);
                }
            } else {
                assert(gate.held().contains(p));
                if holds(s2, p) {
                    let k = choose|k: int| 0 <= k < s2.len() && (#[trigger] s2[k]).permit == Some(
                        p,
                    );
                    assert(k != at);
                    assert(s2[k] == s[k]);
                    assert(s[k].permit != s[at].permit);
                }
            }
        } else if holds(s2, p) {
            let j = choose|j: int| 0 <= j < s2.len() && (#[trigger] s2[j]).permit == Some(p);
            if j != at {
                assert(s[j] == s2[j]);
            }
        }
        if e.permit == Some(p) {
            assert(s2[at].permit == Some(p));
            assert(holds(s2, p));
        }
    }
    assert(foreign(s2, gate2) =~= expected);
}

// ---------------------------------------------------------------------------
// Looking at what is in flight
// ---------------------------------------------------------------------------

/// The name diagnostics show for a stage.
pub open spec fn stage_name_of(stage: ActiveStage) -> ExecutionStage {
    match stage {
        ActiveStage::Planner | ActiveStage::PlannerProbe { .. } | ActiveStage::Continuing {
            ..
        } => ExecutionStage::Planner,
        ActiveStage::WaitingForHash { .. } => ExecutionStage::WaitingForHash,
        ActiveStage::Hash { .. } => ExecutionStage::Hash,
        ActiveStage::WaitingForUpload { .. } | ActiveStage::UploadAdmission { .. }
        | ActiveStage::UploadPreflight { .. } | ActiveStage::GuardingDeletion {
            ..
        } => ExecutionStage::WaitingForUpload,
        ActiveStage::UploadRunning { .. } | ActiveStage::MoveRunning { .. }
        | ActiveStage::UploadHeld { .. } | ActiveStage::ResolvingConflict => ExecutionStage::Upload,
        ActiveStage::WaitingForDownload { .. } => ExecutionStage::WaitingForDownload,
        ActiveStage::DownloadRunning { .. } | ActiveStage::DownloadHeld { .. }
        | ActiveStage::ApplyingDownload { .. } | ActiveStage::RemovingMirror => {
            ExecutionStage::Download
        },
    }
}

impl Execution {
    /// The name diagnostics show for the stage.
    pub fn stage_name(&self) -> (r: ExecutionStage)
        ensures
            r == stage_name_of(self.stage),
    {
        match &self.stage {
            ActiveStage::Planner | ActiveStage::PlannerProbe { .. } | ActiveStage::Continuing {
                ..
            } => ExecutionStage::Planner,
            ActiveStage::WaitingForHash { .. } => ExecutionStage::WaitingForHash,
            ActiveStage::Hash { .. } => ExecutionStage::Hash,
            ActiveStage::WaitingForUpload { .. } | ActiveStage::UploadAdmission { .. }
            | ActiveStage::UploadPreflight { .. } | ActiveStage::GuardingDeletion {
                ..
            } => ExecutionStage::WaitingForUpload,
            ActiveStage::UploadRunning { .. } | ActiveStage::MoveRunning { .. }
            | ActiveStage::UploadHeld {
                ..
            } | ActiveStage::ResolvingConflict => ExecutionStage::Upload,
            ActiveStage::WaitingForDownload { .. } => ExecutionStage::WaitingForDownload,
            ActiveStage::DownloadRunning { .. } | ActiveStage::DownloadHeld { .. }
            | ActiveStage::ApplyingDownload {
                ..
            } | ActiveStage::RemovingMirror => ExecutionStage::Download,
        }
    }
}

/// What a stage needs done before it can go on.
#[derive(Clone, Copy, Debug, PartialEq, Eq, Structural)]
pub enum StageNeed {
    /// A planning decision.
    Plan,
    /// A decision on what the probe brought back.
    Continue,
    /// The file opened for hashing.
    OpenForHash,
    /// One budgeted hash step.
    StepHash,
    /// The facts of the upload slot.
    AdmitUpload,
    /// The deletion guard's answer.
    AskGuard,
    /// Both versions kept.
    KeepBoth,
    /// The payload moved in.
    ApplyPayload,
    /// The mirrored file removed.
    RemoveMirror,
    /// Another try at a permit or a gate.
    Tick,
    /// Nothing: a job is in flight, or hashing is suspended.
    Nothing,
}

/// What a stage needs done. A hash already begun stops at its checkpoint
/// while hashing is not allowed.
pub open spec fn need_of(stage: ActiveStage, caps: ThrottleCaps) -> StageNeed {
    match stage {
        ActiveStage::Planner => StageNeed::Plan,
        ActiveStage::Continuing { .. } => StageNeed::Continue,
        ActiveStage::Hash { opened, .. } => if !opened {
            StageNeed::OpenForHash
        } else if caps.allow_hashing {
            StageNeed::StepHash
        } else {
            StageNeed::Nothing
        },
        ActiveStage::UploadAdmission { .. } => StageNeed::AdmitUpload,
        ActiveStage::GuardingDeletion { .. } => StageNeed::AskGuard,
        ActiveStage::ResolvingConflict => StageNeed::KeepBoth,
        ActiveStage::ApplyingDownload { .. } => StageNeed::ApplyPayload,
        ActiveStage::RemovingMirror => StageNeed::RemoveMirror,
        ActiveStage::WaitingForHash { .. } | ActiveStage::WaitingForUpload { .. }
        | ActiveStage::WaitingForDownload { .. } | ActiveStage::UploadHeld { .. }
        | ActiveStage::DownloadHeld { .. } => StageNeed::Tick,
        _ => StageNeed::Nothing,
    }
}

/// What a stage needs done.
pub fn stage_need(stage: &ActiveStage, caps: ThrottleCaps) -> (r: StageNeed)
    ensures
        r == need_of(*stage, caps),
{
    match stage {
        ActiveStage::Planner => StageNeed::Plan,
        ActiveStage::Continuing { .. } => StageNeed::Continue,
        ActiveStage::Hash { opened, .. } => if !*opened {
            StageNeed::OpenForHash
        } else if caps.allow_hashing {
            StageNeed::StepHash
        } else {
            StageNeed::Nothing
        },
        ActiveStage::UploadAdmission { .. } => StageNeed::AdmitUpload,
        ActiveStage::GuardingDeletion { .. } => StageNeed::AskGuard,
        ActiveStage::ResolvingConflict => StageNeed::KeepBoth,
        ActiveStage::ApplyingDownload { .. } => StageNeed::ApplyPayload,
        ActiveStage::RemovingMirror => StageNeed::RemoveMirror,
        ActiveStage::WaitingForHash { .. } | ActiveStage::WaitingForUpload { .. }
        | ActiveStage::WaitingForDownload { .. } | ActiveStage::UploadHeld { .. }
        | ActiveStage::DownloadHeld { .. } => StageNeed::Tick,
        _ => StageNeed::Nothing,
    }
}

/// How many executions are at what.
#[derive(Clone, Copy, Debug, Default, PartialEq, Eq, Structural)]
pub struct StagedExecutorSnapshot {
    pub active_total: usize,
    pub planner_running: usize,
    pub waiting_for_hash: usize,
    pub hash_running: usize,
    pub waiting_for_upload: usize,
    pub upload_running: usize,
    pub waiting_for_download: usize,
    pub download_running: usize,
}

/// Executions shown under `name`.
pub open spec fn count_at(s: Seq<Execution>, name: ExecutionStage) -> nat
    decreases s.len(),
{
    if s.len() == 0 {
        0
    } else {
        count_at(s.drop_last(), name) + if stage_name_of(s.last().stage) == name {
            1nat
        } else {
            0nat
        }
    }
}

/// Sessions handed back and not resumed yet, in the order of the ids.
pub open spec fn held_sessions(s: Seq<Execution>) -> Seq<u64>
    decreases s.len(),
{
    if s.len() == 0 {
        Seq::empty()
    } else {
        let rest = held_sessions(s.drop_last());
        match s.last().stage {
            ActiveStage::UploadHeld { session, .. } => rest.push(session),
            ActiveStage::DownloadHeld { session, .. } => rest.push(session),
            _ => rest,
        }
    }
}

/// One row of the diagnostics: intent id, path, kind, stage, milliseconds in
/// the stage, attempts and last error.
pub type ActiveStageDiagnostic = (
    i64,
    FsPath,
    PendingIntentKind,
    ExecutionStage,
    u64,
    u32,
    String,
);

pub open spec fn millis_in_stage(e: Execution, now: Instant) -> int {
    (if now.nanos >= e.stage_started.nanos {
        (now.nanos - e.stage_started.nanos) / 1_000_000
    } else {
        0
    }) % 0x1_0000_0000_0000_0000
}

pub open spec fn shows(row: ActiveStageDiagnostic, e: Execution, now: Instant) -> bool {
    &&& row.0 == e.intent.id
    &&& row.1@ == e.intent.path@
    &&& row.2 == e.intent.kind
    &&& row.3 == stage_name_of(e.stage)
    &&& row.4 == millis_in_stage(e, now)
    &&& row.5 == e.intent.attempt_count
    &&& row.6@ == match e.intent.last_error {
        Some(error) => error@,
        None => Seq::<char>::empty(),
    }
}

impl StagedExecutor {
    /// How many executions are at what.
    pub fn snapshot(&self) -> (r: StagedExecutorSnapshot)
        ensures
            r.active_total == self.executions().len(),
            r.planner_running == count_at(self.executions(), ExecutionStage::Planner),
            r.waiting_for_hash == count_at(self.executions(), ExecutionStage::WaitingForHash),
            r.hash_running == count_at(self.executions(), ExecutionStage::Hash),
            r.waiting_for_upload == count_at(self.executions(), ExecutionStage::WaitingForUpload),
            r.upload_running == count_at(self.executions(), ExecutionStage::Upload),
            r.waiting_for_download == count_at(
                self.executions(),
                ExecutionStage::WaitingForDownload,
            ),
            r.download_running == count_at(self.executions(), ExecutionStage::Download),
    {
        StagedExecutorSnapshot {
            active_total: self.active.len(),
            planner_running: self.count(ExecutionStage::Planner),
            waiting_for_hash: self.count(ExecutionStage::WaitingForHash),
            hash_running: self.count(ExecutionStage::Hash),
            waiting_for_upload: self.count(ExecutionStage::WaitingForUpload),
            upload_running: self.count(ExecutionStage::Upload),
            waiting_for_download: self.count(ExecutionStage::WaitingForDownload),
            download_running: self.count(ExecutionStage::Download),
        }
    }

    fn count(&self, name: ExecutionStage) -> (r: usize)
        ensures
            r == count_at(self.executions(), name),
    {
        let mut count: usize = 0;
        let mut i: usize = 0;
        assert(self.active@.take(0) =~= Seq::empty());
        while i < self.active.len()
            invariant
                i <= self.active@.len(),
                count == count_at(self.active@.take(i as int), name),
                count <= i,
            decreases self.active@.len() - i,
        {
            assert(self.active@.take(i + 1).drop_last() =~= self.active@.take(i as int));
            if self.active[i].stage_name() == name {
                count = count + 1;
            }
            i = i + 1;
        }
        assert(self.active@.take(i as int) =~= self.active@);
        count
    }

    /// Ids of every execution in flight; their leases are renewed so that a
    /// long transfer is not reclaimed.
    pub fn active_intent_ids(&self) -> (r: Vec<i64>)
        ensures
            r@ == self.executions().map_values(|e: Execution| e.intent.id),
    {
        let mut ids: Vec<i64> = Vec::new();
        let mut i: usize = 0;
        while i < self.active.len()
            invariant
                i <= self.active@.len(),
                ids@.len() == i,
                forall|j: int| 0 <= j < i ==> ids@[j] == (#[trigger] self.active@[j]).intent.id,
            decreases self.active@.len() - i,
        {
            ids.push(self.active[i].intent.id);
            i = i + 1;
        }
        assert(ids@ =~= self.executions().map_values(|e: Execution| e.intent.id));
        ids
    }

    /// A diagnostic row for every execution in flight.
    pub fn active_stages(&self, now: Instant) -> (r: Vec<ActiveStageDiagnostic>)
        ensures
            r@.len() == self.executions().len(),
            forall|i: int|
                0 <= i < r@.len() ==> shows(#[trigger] r@[i], self.executions()[i], now),
    {
        let mut rows: Vec<ActiveStageDiagnostic> = Vec::new();
        let mut i: usize = 0;
        while i < self.active.len()
            invariant
                i <= self.active@.len(),
                rows@.len() == i,
                forall|j: int| 0 <= j < i ==> shows(#[trigger] rows@[j], self.active@[j], now),
            decreases self.active@.len() - i,
        {
            let e = &self.active[i];
            let elapsed = now.saturating_duration_since(e.stage_started);
            let millis: u128 = (elapsed.nanos / 1_000_000) % 0x1_0000_0000_0000_0000;
            let error = match &e.intent.last_error {
                Some(error) => error.clone(),
                None => String::new(),
            };
            rows.push(
                (
                    e.intent.id,
                    e.intent.path.clone(),
                    e.intent.kind,
                    e.stage_name(),
                    millis as u64,
                    e.intent.attempt_count,
                    error,
                ),
            );
            i = i + 1;
        }
        rows
    }

    /// How many more executions could start.
    pub fn admission_capacity(&self, workgate: WorkgateSnapshot) -> (r: usize)
        requires
            in_flight_limit(workgate.caps) <= usize::MAX,
        ensures
            r == if in_flight_limit(workgate.caps) >= self.executions().len() {
                in_flight_limit(workgate.caps) - self.executions().len()
            } else {
                0
            },
    {
        let limit: usize = max_in_flight_items(workgate.caps);
        if limit >= self.active.len() {
            limit - self.active.len()
        } else {
            0
        }
    }

    /// The bookkeeping of the jobs in flight, which workers look at.
    pub fn jobs(&self) -> (r: ProviderJobPool)
        ensures
            r == self.pool(),
    {
        self.jobs
    }

    /// Sets the gates transfers look at between two steps.
    pub fn update_gates(&mut self, caps: ThrottleCaps)
        ensures
            final(self).executions() == old(self).executions(),
            final(self).abandoned() == old(self).abandoned(),
            final(self).pool().gate(TransferDirection::Upload) == caps.allow_uploads,
            final(self).pool().gate(TransferDirection::Download) == caps.allow_downloads,
            final(self).pool().current() == old(self).pool().current(),
            final(self).pool().running() == old(self).pool().running(),
    {
        self.jobs.update_gates(caps.allow_uploads, caps.allow_downloads);
    }

    /// Splits what came back from workers into outcomes to apply and sessions
    /// to abort.
    pub fn harvest_jobs(&mut self, drained: Vec<CompletedJob>) -> (r: (Vec<CompletedJob>, Vec<u64>))
        ensures
            r.0@ == live_jobs(drained@, old(self).pool().current()),
            r.1@ == stale_sessions(drained@, old(self).pool().current()),
            final(self).executions() == old(self).executions(),
            final(self).abandoned() == old(self).abandoned(),
            final(self).pool().current() == old(self).pool().current(),
            final(self).pool().running() == if old(self).pool().running() >= drained@.len() {
                (old(self).pool().running() - drained@.len()) as usize
            } else {
                0
            },
            forall|d: TransferDirection|
                #[trigger] final(self).pool().gate(d) == old(self).pool().gate(d),
    {
        self.jobs.harvest(drained)
    }

    /// Drops everything in flight and gives every permit back; the durable
    /// rows stay leased and are recovered by the stale-lease sweep. Returns
    /// the sessions to abort.
    pub fn abort_all(&mut self, gate: &mut ThrottleWorkgate) -> (r: Vec<u64>)
        requires
            well_run(old(self).executions()),
            backed(old(self).executions(), old(gate)@),
            old(gate)@.wf(),
            old(self).pool().current() < u64::MAX,
        ensures
            r@ == held_sessions(old(self).executions()),
            final(self).executions() == Seq::<Execution>::empty(),
            final(self).abandoned() == Seq::<Seq<Part>>::empty(),
            final(self).pool().current() == old(self).pool().current() + 1,
            final(self).pool().running() == old(self).pool().running(),
            final(gate)@.wf(),
            final(gate)@.held() == foreign(old(self).executions(), old(gate)@),
            final(gate)@ == (GateView { permits: final(gate)@.permits, ..old(gate)@ }),
    {
        self.jobs.abort_in_flight();
        self.abandoned = Vec::new();
        assert(self.abandoned() =~= Seq::<Seq<Part>>::empty());
        let mut sessions: Vec<u64> = Vec::new();
        let mut active: Vec<Execution> = Vec::new();
        std::mem::swap(&mut active, &mut self.active);
        let ghost all = active@;
        let mut i: usize = 0;
        assert(all.take(0) =~= Seq::empty());
        assert(all.skip(0) =~= all);
        while i < active.len()
            invariant
                i <= active@.len(),
                active@ == all,
                well_run(all.skip(i as int)),
                backed(all.skip(i as int), gate@),
                gate@.wf(),
                foreign(all.skip(i as int), gate@) == foreign(all, old(gate)@),
                gate@ == (GateView { permits: gate@.permits, ..old(gate)@ }),
                sessions@ == held_sessions(all.take(i as int)),
            decreases active@.len() - i,
        {
            let ghost rest = all.skip(i as int);
            let ghost before = gate@;
            assert(rest[0] == all[i as int]);
            assert(rest.remove(0) =~= all.skip(i + 1));
            assert(all.take(i + 1).drop_last() =~= all.take(i as int));
            Self::give_back(gate, active[i].permit);
            proof {
                lemma_ended(rest, 0, before, gate@);
            }
            match &active[i].stage {
                ActiveStage::UploadHeld { session, .. } => sessions.push(*session),
                ActiveStage::DownloadHeld { session, .. } => sessions.push(*session),
                _ => {},
            }
            i = i + 1;
        }
        assert(all.take(i as int) =~= all);
        assert(gate@.held() =~= foreign(all.skip(i as int), gate@));
        sessions
    }
}

impl Default for StagedExecutor {
    fn default() -> (r: StagedExecutor)
        ensures
            r.executions() == Seq::<Execution>::empty(),
            r.abandoned() == Seq::<Seq<Part>>::empty(),
            well_run(r.executions()),
    {
        StagedExecutor::new()
    }
}

// ---------------------------------------------------------------------------
// What the executor is for
// ---------------------------------------------------------------------------

/// An intent starts exactly when fewer executions are in flight than the caps
/// add up to, nothing works on its path, and a planner permit is to be had
/// under the caps in force. Whatever the answer, no execution in flight is
/// touched unless the intent has its id.
pub proof fn law_a_busy_path_is_not_started_on(
    executor: &mut StagedExecutor,
    app: &mut DaemonApp,
    gate: &mut ThrottleWorkgate,
    intent: DurableIntentRecord,
    wall: SystemTime,
    now: Instant,
    r: StartDecision,
)
    requires
        call_ensures(StagedExecutor::try_start, (executor, app, gate, intent, wall, now), r),
    ensures
        ({
            let s = old(executor).executions();
            let caps = old(gate)@.caps;
            let full = s.len() >= caps.planner_workers + caps.hash_workers
                + caps.upload_concurrency + caps.download_concurrency;
            &&& full ==> r is AtCapacity
            &&& r is PathBusy ==> !full && (old(executor).abandoned().contains(intent.path@)
                || exists|i: int| 0 <= i < s.len() && (#[trigger] s[i]).intent.path@ == intent.path@)
            &&& r is Started ==> !full && !old(executor).abandoned().contains(intent.path@)
            &&& r is Started ==> forall|i: int|
                0 <= i < s.len() ==> (#[trigger] s[i]).intent.path@ != intent.path@
            &&& forall|i: int|
                0 <= i < s.len() && (#[trigger] s[i]).intent.path@ == intent.path@ && !full ==> r
                    is PathBusy
            &&& r !is Started ==> final(executor).executions() == s && final(gate)@.permits == old(gate)@.permits
            &&& r is Started ==> exists|k: int|
                0 <= k < final(executor).executions().len() && (#[trigger] final(executor).executions()[k]).intent == intent && final(executor).executions()[k].stage
                    is Planner && final(executor).executions()[k].permit is Some && (final(executor).executions()[k].permit->0).class == WorkClass::Planner
        }),
{
    let s = old(executor).executions();
    let t = final(executor).executions();
    if r is Started {
        let started = started_execution(intent, old(gate)@.fresh(WorkClass::Planner), now);
        if is_active(s, intent.id) {
            let k = choose|k: int|
                #[trigger] is_at(s, intent.id, k) && t == s.update(k, started);
            assert(t[k] == started);
        } else {
            let k = choose|k: int| 0 <= k <= s.len() && #[trigger] s.insert(k, started) == t;
            assert(t[k] == started);
        }
        assert forall|i: int| 0 <= i < s.len() implies (#[trigger] s[i]).intent.path@
            != intent.path@ by {
            assert(!path_busy(s, intent.path@));
        }
    }
    assert forall|i: int|
        0 <= i < s.len() && (#[trigger] s[i]).intent.path@ == intent.path@ && s.len() < old(gate)@.caps.planner_workers + old(gate)@.caps.hash_workers + old(gate)@.caps.upload_concurrency
            + old(gate)@.caps.download_concurrency implies r is PathBusy by {
        assert(path_busy(s, intent.path@));
    }
}

/// An advance concerns one execution only: every other one in flight stays
/// exactly as it is. The execution is gone exactly when its row is to be
/// settled, and input for one that is not in flight changes nothing.
pub proof fn law_an_advance_concerns_one_execution(
    executor: &mut StagedExecutor,
    app: &mut DaemonApp,
    gate: &mut ThrottleWorkgate,
    id: i64,
    input: StageInput,
    sync_mode: SyncMode,
    now: SystemTime,
    wall: SystemTime,
    now_inst: Instant,
    report: &mut StagedExecutorReport,
    r: Directive,
)
    requires
        call_ensures(
            StagedExecutor::advance_one,
            (executor, app, gate, id, input, sync_mode, now, wall, now_inst, report),
            r,
        ),
        well_run(old(executor).executions()),
    ensures
        ({
            let s = old(executor).executions();
            let t = final(executor).executions();
            &&& forall|j: int|
                0 <= j < s.len() && (#[trigger] s[j]).intent.id != id ==> t.contains(s[j])
            &&& forall|j: int|
                0 <= j < t.len() && (#[trigger] t[j]).intent.id != id ==> s.contains(t[j])
            &&& r is Settle ==> forall|j: int|
                0 <= j < t.len() ==> (#[trigger] t[j]).intent.id != id
            &&& r is NotActive <==> forall|j: int|
                0 <= j < s.len() ==> (#[trigger] s[j]).intent.id != id
            &&& r is NotActive ==> t == s && final(gate)@ == old(gate)@
            &&& r is Settle ==> t.len() == s.len() - 1
            &&& r !is Settle ==> t.len() == s.len()
        }),
{
    let s = old(executor).executions();
    let t = final(executor).executions();
    if is_active(s, id) {
        let (i, tr) = choose|i: int, tr: Transition|
            {
                &&& #[trigger] is_at(s, id, i)
                &&& routed(
                    AdvanceEnv { sync_mode, caps: old(gate)@.caps, now },
                    s[i].intent,
                    s[i].stage,
                    input,
                    tr,
                    old(report)@,
                    final(report)@,
                )
                &&& #[trigger] landed(
                    tr,
                    s,
                    i,
                    old(gate)@,
                    old(app).tuned_gate(old(gate)@, wall),
                    old(executor).pool().current(),
                    now_inst,
                    t,
                    final(gate)@,
                    r,
                )
            };
        assert forall|j: int| 0 <= j < s.len() && (#[trigger] s[j]).intent.id != id implies t.contains(
            s[j],
        ) by {
            if tr is Leave {
                assert(t[if j < i {
                    j
                } else {
                    j - 1
                }] == s[j]);
            } else {
                assert(t[j] == s[j]);
            }
        }
        assert forall|j: int| 0 <= j < t.len() && (#[trigger] t[j]).intent.id != id implies s.contains(
            t[j],
        ) by {
            if tr is Leave {
                assert(s[if j < i {
                    j
                } else {
                    j + 1
                }] == t[j]);
            } else {
                assert(t[j] == s[j]);
            }
        }
        if tr is Leave {
            assert forall|j: int| 0 <= j < t.len() implies (#[trigger] t[j]).intent.id != id by {
                let k = if j < i {
                    j
                } else {
                    j + 1
                };
                assert(t[j] == s[k]);
                if k < i {
                    assert(s[k].intent.id < s[i].intent.id);
                } else {
                    assert(s[i].intent.id < s[k].intent.id);
                }
            }
        }
        assert(s[i].intent.id == id);
    } else {
        assert forall|j: int| 0 <= j < s.len() implies (#[trigger] s[j]).intent.id != id by {
            if s[j].intent.id == id {
                assert(is_at(s, id, j));
            }
        }
    }
}

/// The stage decides which input moves an execution on: a comparison settles
/// an upload by the contents, a finished transfer is put on record or applied,
/// a held transfer goes on only while its direction is allowed, and input that
/// does not belong to the stage changes nothing.
pub proof fn law_only_fitting_input_moves_an_execution_on(
    env: AdvanceEnv,
    intent: DurableIntentRecord,
    stage: ActiveStage,
    input: StageInput,
    report: &mut StagedExecutorReport,
    r: Transition,
)
    requires
        call_ensures(apply_job_outcome, (env, &intent, stage, input, report), r),
    ensures
        stage is UploadHeld && input is Tick ==> if env.caps.allow_uploads {
            r == (Transition::To {
                stage: ActiveStage::UploadRunning { plan: stage->UploadHeld_plan },
                job: Some(
                    ProviderJobKind::ResumeTransfer {
                        session: stage->UploadHeld_session,
                        direction: TransferDirection::Upload,
                    },
                ),
                restart: false,
            })
        } else {
            r == (Transition::Stay { stage, abort: None })
        },
        stage is DownloadHeld && input is Tick ==> if env.caps.allow_downloads {
            r == (Transition::To {
                stage: ActiveStage::DownloadRunning { plan: stage->DownloadHeld_plan },
                job: Some(
                    ProviderJobKind::ResumeTransfer {
                        session: stage->DownloadHeld_session,
                        direction: TransferDirection::Download,
                    },
                ),
                restart: false,
            })
        } else {
            r == (Transition::Stay { stage, abort: None })
        },
        stage is WaitingForHash && input is Tick ==> r == (Transition::AwaitHash {
            plan: stage->WaitingForHash_plan,
        }),
        stage is WaitingForUpload && input is Tick ==> r == (Transition::AwaitUpload {
            plan: stage->WaitingForUpload_plan,
        }),
        stage is WaitingForDownload && input is Tick ==> r == (Transition::AwaitDownload {
            plan: stage->WaitingForDownload_plan,
        }),
        input is Planned && stage !is Planner || input is Continued && stage !is Continuing || input
            is HashOpened && !(stage is Hash && !stage->opened) || input is HashStepped && !(stage
            is Hash && stage->opened) || input is UploadAdmitted && stage !is UploadAdmission
            || input is GuardAnswered && stage !is GuardingDeletion || input is ConflictSettled
            && stage !is ResolvingConflict || input is PayloadApplied && stage !is ApplyingDownload
            || input is MirrorRemoved && stage !is RemovingMirror ==> r == (Transition::Stay {
            stage,
            abort: None,
        }),
        input is JobDone && stage !is PlannerProbe && stage !is UploadPreflight && stage
            !is MoveRunning && stage !is UploadRunning && stage !is DownloadRunning ==> (
        r matches Transition::Stay { stage: kept, abort } && kept == stage && abort == (
        match input->outcome {
            ProviderJobOutcome::TransferHeld { session } => Some(session),
            _ => None,
        })),
{
}

/// The comparison of an upload reaches the execution as it was decided: equal
/// contents complete it, and both versions are kept only where the file, the
/// remote object and the last sync all differ.
pub proof fn law_a_comparison_settles_the_execution(
    env: AdvanceEnv,
    intent: DurableIntentRecord,
    plan: TransferPlan,
    probe: ProbeResult,
    facts: OutcomeFacts,
    report: &mut StagedExecutorReport,
    r: Transition,
)
    requires
        call_ensures(
            apply_job_outcome,
            (
                env,
                &intent,
                ActiveStage::UploadPreflight { plan },
                StageInput::JobDone { outcome: ProviderJobOutcome::Probe(probe), facts },
                report,
            ),
            r,
        ),
        probe.content_hash is Some,
        probe.content_hash->0 is Ok,
        plan.content_hash is Some,
    ensures
        ({
            let remote = probe.content_hash->0->Ok_0@;
            let local = plan.content_hash->0@;
            &&& (r matches Transition::Leave { action, .. } && action is Complete) <==> local
                == remote
            &&& (r matches Transition::To { stage, .. } && stage is ResolvingConflict) <==> (local
                != remote && !(plan.last_synced_hash is Some && (plan.last_synced_hash->0@ == local
                || plan.last_synced_hash->0@ == remote)))
        }),
{
}

/// A finished transfer is settled by the stage it was for: an upload is put on
/// record, a download is applied, and a deletion that went through leaves its
/// tombstone.
pub proof fn law_a_finished_transfer_is_settled_by_its_stage(
    env: AdvanceEnv,
    intent: DurableIntentRecord,
    plan: TransferPlan,
    done: TransferOutcome,
    facts: OutcomeFacts,
    up_report: &mut StagedExecutorReport,
    down_report: &mut StagedExecutorReport,
    gone_report: &mut StagedExecutorReport,
    uploaded: Transition,
    downloaded: Transition,
    deleted: Transition,
)
    requires
        call_ensures(
            apply_job_outcome,
            (
                env,
                &intent,
                ActiveStage::UploadRunning { plan },
                StageInput::JobDone { outcome: ProviderJobOutcome::TransferCompleted(done), facts },
                up_report,
            ),
            uploaded,
        ),
        call_ensures(
            apply_job_outcome,
            (
                env,
                &intent,
                ActiveStage::DownloadRunning { plan },
                StageInput::JobDone { outcome: ProviderJobOutcome::TransferCompleted(done), facts },
                down_report,
            ),
            downloaded,
        ),
        call_ensures(
            apply_job_outcome,
            (
                env,
                &intent,
                ActiveStage::UploadRunning { plan },
                StageInput::JobDone { outcome: ProviderJobOutcome::RemoteDelete(Ok(())), facts },
                gone_report,
            ),
            deleted,
        ),
    ensures
        uploaded matches Transition::Leave { action, effects, .. } && action is Complete
            && effects@.len() == 3 && effects@[1]@ is SetSyncIndex && effects@[1]@->SetSyncIndex_path
            == plan.local_path@ && effects@[1]@->SetSyncIndex_content_hash == done.content_hash@,
        downloaded == (Transition::To {
            stage: ActiveStage::ApplyingDownload { plan, outcome: done },
            job: None,
            restart: false,
        }),
        deleted matches Transition::Leave { action, effects, .. } && action is Complete
            && effects@.len() >= 3 && effects@[2]@ == (EffectView::RecordTombstone {
            path: plan.local_path@,
            origin: TombstoneOrigin::Local,
        }),
{
    if let Transition::Leave { effects, .. } = uploaded {
        assert(effect_views(effects@).len() == effects@.len());
        assert(effect_views(effects@)[1] == effects@[1]@);
    }
    if let Transition::Leave { effects, .. } = deleted {
        assert(effect_views(effects@).len() == effects@.len());
        assert(effect_views(effects@)[2] == effects@[2]@);
    }
}

proof fn lemma_stages_add_up(s: Seq<Execution>)
    ensures
        count_at(s, ExecutionStage::Planner) + count_at(s, ExecutionStage::WaitingForHash)
            + count_at(s, ExecutionStage::Hash) + count_at(s, ExecutionStage::WaitingForUpload)
            + count_at(s, ExecutionStage::Upload) + count_at(s, ExecutionStage::WaitingForDownload)
            + count_at(s, ExecutionStage::Download) == s.len(),
    decreases s.len(),
{
    if s.len() > 0 {
        lemma_stages_add_up(s.drop_last());
    }
}

/// The counts of the stages add up to the executions in flight.
pub proof fn law_the_stages_add_up(executor: StagedExecutor, r: StagedExecutorSnapshot)
    requires
        call_ensures(StagedExecutor::snapshot, (&executor,), r),
    ensures
        r.active_total == executor.executions().len(),
        r.planner_running + r.waiting_for_hash + r.hash_running + r.waiting_for_upload
            + r.upload_running + r.waiting_for_download + r.download_running == r.active_total,
{
    lemma_stages_add_up(executor.executions());
}

/// As many more intents are let in as the caps leave room for beside what is
/// in flight.
pub proof fn law_room_is_what_the_caps_leave(
    executor: StagedExecutor,
    workgate: WorkgateSnapshot,
    r: usize,
)
    requires
        call_ensures(StagedExecutor::admission_capacity, (&executor, workgate), r),
    ensures
        ({
            let limit = workgate.caps.planner_workers + workgate.caps.hash_workers
                + workgate.caps.upload_concurrency + workgate.caps.download_concurrency;
            let flying = executor.executions().len();
            &&& flying <= limit ==> r + flying == limit
            &&& flying > limit ==> r == 0
        }),
{
}

/// Aborting drops everything in flight and gives every permit of it back; the
/// permits of others stay out, and what is still running on a worker is of an
/// earlier generation from then on.
pub proof fn law_an_abort_leaves_nothing_in_flight(
    executor: &mut StagedExecutor,
    gate: &mut ThrottleWorkgate,
    r: Vec<u64>,
)
    requires
        call_ensures(StagedExecutor::abort_all, (executor, gate), r),
    ensures
        final(executor).executions().len() == 0,
        final(executor).abandoned().len() == 0,
        final(executor).pool().current() == old(executor).pool().current() + 1,
        forall|i: int|
            0 <= i < old(executor).executions().len() && (#[trigger] old(executor).executions()[i]).permit is Some ==> !final(gate)@.permits.contains(
                old(executor).executions()[i].permit->0,
            ),
        forall|p: WorkPermit| #[trigger]
            final(gate)@.permits.contains(p) ==> old(gate)@.permits.contains(p),
{
    let s = old(executor).executions();
    assert forall|i: int| 0 <= i < s.len() && (#[trigger] s[i]).permit is Some implies !final(gate)@.permits.contains(s[i].permit->0) by {
        let p = s[i].permit->0;
        assert(holds(s, p));
        assert(!final(gate)@.held().contains(p));
    }
    assert forall|p: WorkPermit| #[trigger]
        final(gate)@.permits.contains(p) implies old(gate)@.permits.contains(p) by {
        assert(final(gate)@.held().contains(p));
        assert(old(gate)@.held().contains(p));
    }
}

/// A stage asks for exactly the work it stands for: a job in flight for
/// nothing, a waiting one for another try, and hashing goes on only while it
/// is allowed.
pub proof fn law_a_stage_asks_for_its_work(stage: ActiveStage, caps: ThrottleCaps, r: StageNeed)
    requires
        call_ensures(stage_need, (&stage, caps), r),
    ensures
        stage is Planner <==> r is Plan,
        stage is Continuing <==> r is Continue,
        stage is UploadAdmission <==> r is AdmitUpload,
        stage is GuardingDeletion <==> r is AskGuard,
        stage is ResolvingConflict <==> r is KeepBoth,
        stage is ApplyingDownload <==> r is ApplyPayload,
        stage is RemovingMirror <==> r is RemoveMirror,
        stage is WaitingForHash || stage is WaitingForUpload || stage is WaitingForDownload || stage
            is UploadHeld || stage is DownloadHeld <==> r is Tick,
        stage is PlannerProbe || stage is UploadPreflight || stage is UploadRunning || stage
            is MoveRunning || stage is DownloadRunning ==> r is Nothing,
        stage matches ActiveStage::Hash { opened, .. } ==> (r is OpenForHash <==> !opened),
        stage matches ActiveStage::Hash { opened, .. } ==> (r is StepHash <==> opened
            && caps.allow_hashing),
        stage matches ActiveStage::Hash { opened, .. } ==> (opened && !caps.allow_hashing ==> r
            is Nothing),
{
}

/// As many intents may be in flight as all the caps together allow.
pub proof fn law_all_caps_together_limit_the_flight(caps: ThrottleCaps, r: usize)
    requires
        call_ensures(max_in_flight_items, (caps,), r),
    ensures
        r == caps.planner_workers + caps.hash_workers + caps.upload_concurrency
            + caps.download_concurrency,
{
}

/// Jobs of an earlier generation are not handed on to the executions, which
/// stay as they are.
pub proof fn law_late_jobs_reach_no_execution(
    executor: &mut StagedExecutor,
    drained: Vec<CompletedJob>,
    r: (Vec<CompletedJob>, Vec<u64>),
)
    requires
        call_ensures(StagedExecutor::harvest_jobs, (executor, drained), r),
    ensures
        forall|i: int|
            0 <= i < r.0@.len() ==> (#[trigger] r.0@[i]).generation == old(executor).pool().current(),
        final(executor).executions() == old(executor).executions(),
        final(executor).pool().current() == old(executor).pool().current(),
{
    let keep = |job: CompletedJob| job.generation == old(executor).pool().current();
    assert(r.0@ == drained@.filter(keep));
    assert forall|i: int| 0 <= i < r.0@.len() implies (#[trigger] r.0@[i]).generation == old(executor).pool().current() by {
        drained@.lemma_filter_pred(keep, i);
    }
}

} // verus!
