//! Subtree reconciles, run one at a time while the machine is idle and in
//! slices that give way.
use vstd::prelude::*;

use crate::clock::{Duration, SystemTime, NANOS_PER_MILLI};
use crate::event_intents::{intent_paths, is_due, needs_follow_up, not_due, BoundedEventIntentMaps,
    IntentView, MapsView, PendingIntentKind};
use crate::path_map::strictly_ordered;
use crate::paths::{FsPath, Part};
use crate::routes::raised;
use crate::scheduler::{claimed, completed, intent_views, is_first_reconcile, is_running, keyed,
    upserted_all, CompletionDisposition, KeyedSupersedingScheduler, SchedulerView};
use crate::workgate::{denial, given_back, GateView, ThrottleState, ThrottleWorkgate, WorkClass, WorkPermit,
    WorkPermitDenied};

verus! {

/// Time a reconcile runs before it gives way, in milliseconds.
pub const RECONCILE_SLICE_MILLIS: u64 = 250;

/// A reconcile in progress.
#[derive(Debug)]
pub struct RunningReconcile {
    root: FsPath,
    started_at: SystemTime,
    slice_started_at: SystemTime,
    last_checkpoint_at: SystemTime,
    checkpoint_count: usize,
    permit: WorkPermit,
}

pub struct ReconcileView {
    pub root: Seq<Part>,
    pub started_at: SystemTime,
    pub slice_started_at: SystemTime,
    pub last_checkpoint_at: SystemTime,
    pub checkpoint_count: usize,
    pub permit: WorkPermit,
}

impl View for RunningReconcile {
    type V = ReconcileView;

    closed spec fn view(&self) -> ReconcileView {
        ReconcileView {
            root: self.root@,
            started_at: self.started_at,
            slice_started_at: self.slice_started_at,
            last_checkpoint_at: self.last_checkpoint_at,
            checkpoint_count: self.checkpoint_count,
            permit: self.permit,
        }
    }
}

/// Why a reconcile pauses.
#[derive(Clone, Copy, Debug, PartialEq, Eq, Structural)]
pub enum ReconcilePauseReason {
    SliceBudgetExpired,
    ThrottleNoLongerIdle,
}

/// A reconcile that gave way.
#[derive(Debug, PartialEq, Eq)]
pub struct ReconcilePause {
    pub root: FsPath,
    pub reason: ReconcilePauseReason,
    pub disposition: CompletionDisposition,
    pub checkpoint_count: usize,
}

/// A reconcile that is done.
#[derive(Debug, PartialEq, Eq)]
pub struct ReconcileCompletion {
    pub root: FsPath,
    pub disposition: CompletionDisposition,
    pub boundary_cleared: bool,
    pub checkpoint_count: usize,
}

/// Runs one subtree reconcile at a time, in slices.
#[derive(Debug)]
pub struct ReconcileController {
    slice_budget: Duration,
    running: Option<RunningReconcile>,
}

/// The running reconcile is the scheduler's, and its permit one the workgate
/// gave out.
pub open spec fn in_step(
    running: Option<ReconcileView>,
    scheduler: SchedulerView,
    gate: GateView,
) -> bool {
    running matches Some(r) ==> is_running(scheduler, r.root) && gate.held().contains(r.permit)
        && r.permit.class == WorkClass::Reconcile
}

/// The scheduler once the work on `root` is put back as a pending reconcile.
pub open spec fn requeued(
    before: SchedulerView,
    root: Seq<Part>,
    now: SystemTime,
    after: SchedulerView,
) -> bool {
    let intent = IntentView { path: root, kind: PendingIntentKind::ReconcileSubtree, observed_at: now };
    exists|i: int|
        {
            &&& 0 <= i < before.running.len()
            &&& #[trigger] before.running[i].path == root
            &&& after == (SchedulerView {
                pending: before.pending.push(intent),
                running: before.running.remove(i),
            })
        }
}

/// Puts claimed work back as a pending reconcile.
fn requeue_claimed_reconcile(
    scheduler: &mut KeyedSupersedingScheduler,
    root: &FsPath,
    now: SystemTime,
) -> (r: CompletionDisposition)
    requires
        keyed(old(scheduler)@),
        is_running(old(scheduler)@, root@),
    ensures
        keyed(final(scheduler)@),
        requeued(old(scheduler)@, root@, now, final(scheduler)@),
        r == CompletionDisposition::RequeuedDirty,
{
    let ghost before = scheduler@;
    scheduler.upsert_intent(root.clone(), PendingIntentKind::ReconcileSubtree, now);
    let ghost middle = scheduler@;
    proof {
        let i = choose|i: int|
            0 <= i < before.running.len() && (#[trigger] before.running[i]).path == root@;
        assert(middle.running[i].path == root@);
    }
    let disposition = scheduler.complete_running(root);
    proof {
        let i = choose|i: int|
            {
                &&& 0 <= i < middle.running.len()
                &&& #[trigger] middle.running[i].path == root@
                &&& scheduler@ == completed(middle, i)
                &&& disposition == Some(
                    if middle.running[i].dirty is Some {
                        CompletionDisposition::RequeuedDirty
                    } else {
                        CompletionDisposition::Removed
                    },
                )
            };
        assert(before.running[i].path == root@);
        assert(middle.running.remove(i) =~= before.running.remove(i)) by {
            assert forall|j: int| 0 <= j < before.running.remove(i).len() implies #[trigger] middle.running.remove(
                i,
            )[j] == before.running.remove(i)[j] by {
                let k = if j < i {
                    j
                } else {
                    j + 1
                };
                assert(middle.running.remove(i)[j] == middle.running[k]);
                if k < i {
                    assert(before.running[k].path != before.running[i].path);
                } else {
                    assert(before.running[i].path != before.running[k].path);
                }
            }
        }
        assert(requeued(before, root@, now, scheduler@));
    }
    match disposition {
        Some(disposition) => disposition,
        None => CompletionDisposition::Removed,
    }
}

/// Why a running reconcile gives way at `now`, if it does. A clock that was
/// set back ends the slice, so a reconcile never runs without bound.
pub open spec fn pause_reason(
    state: ThrottleState,
    now: SystemTime,
    slice_started_at: SystemTime,
    budget: Duration,
) -> Option<ReconcilePauseReason> {
    if state != ThrottleState::IdleDrain {
        Some(ReconcilePauseReason::ThrottleNoLongerIdle)
    } else if now.nanos < slice_started_at.nanos || now.nanos - slice_started_at.nanos
        >= budget.nanos {
        Some(ReconcilePauseReason::SliceBudgetExpired)
    } else {
        None
    }
}

impl Default for ReconcileController {
    fn default() -> (r: ReconcileController)
        ensures
            r.budget().nanos == RECONCILE_SLICE_MILLIS * NANOS_PER_MILLI,
            r.current() is None,
    {
        ReconcileController::with_slice_budget(Duration::from_millis(RECONCILE_SLICE_MILLIS))
    }
}

impl ReconcileController {
    pub closed spec fn budget(&self) -> Duration {
        self.slice_budget
    }

    pub closed spec fn current(&self) -> Option<ReconcileView> {
        match self.running {
            Some(running) => Some(running@),
            None => None,
        }
    }

    pub fn with_slice_budget(slice_budget: Duration) -> (r: ReconcileController)
        ensures
            r.budget() == slice_budget,
            r.current() is None,
    {
        ReconcileController { slice_budget, running: None }
    }

    /// Root of the running reconcile.
    pub fn running_root(&self) -> (r: Option<&FsPath>)
        ensures
            match r {
                Some(root) => self.current() is Some && root@ == self.current()->0.root,
                None => self.current() is None,
            },
    {
        match &self.running {
            Some(running) => Some(&running.root),
            None => None,
        }
    }

    /// Queues the deferred reconciles that are due, but only while idle.
    pub fn release_ready_deferred_reconciles(
        &mut self,
        maps: &mut BoundedEventIntentMaps,
        scheduler: &mut KeyedSupersedingScheduler,
        throttle_state: ThrottleState,
        now: SystemTime,
    ) -> (r: usize)
        requires
            old(maps).wf(),
            keyed(old(scheduler)@),
        ensures
            final(self).budget() == old(self).budget(),
            final(self).current() == old(self).current(),
            final(maps).wf(),
            keyed(final(scheduler)@),
            deferred_released(
                throttle_state,
                now,
                old(maps)@,
                old(scheduler)@,
                r,
                final(maps)@,
                final(scheduler)@,
            ),
    {
        if !matches!(throttle_state, ThrottleState::IdleDrain) {
            return 0;
        }
        let ready = maps.take_ready_deferred_reconcile_intents(now);
        let ghost views = intent_views(ready@);
        let mut i: usize = 0;
        assert(views.take(0) =~= Seq::empty());
        while i < ready.len()
            invariant
                i <= ready@.len(),
                views == intent_views(ready@),
                keyed(scheduler@),
                scheduler@ == upserted_all(old(scheduler)@, views.take(i as int)),
            decreases ready@.len() - i,
        {
            assert(views.take(i + 1).drop_last() =~= views.take(i as int));
            assert(views.take(i + 1).last() == ready@[i as int]@);
            scheduler.upsert_pending_intent_record(ready[i].clone());
            i = i + 1;
        }
        proof {
            assert(views.take(i as int) =~= views);
            let paths = intent_paths(ready@);
            assert(view_paths(views) =~= paths);
            assert forall|k: int| 0 <= k < views.len() implies (#[trigger] views[k]).kind
                == PendingIntentKind::ReconcileSubtree && views[k].observed_at == old(
                maps,
            )@.deferred[views[k].path].available_at by {
                assert(views[k] == ready@[k]@);
            }
            assert(released(old(maps)@, now, views));
        }
        ready.len()
    }

    /// Starts the next reconcile, but only while idle and one at a time.
    /// Without a permit the work goes back to the queue.
    pub fn try_start_next(
        &mut self,
        scheduler: &mut KeyedSupersedingScheduler,
        workgate: &mut ThrottleWorkgate,
        throttle_state: ThrottleState,
        now: SystemTime,
    ) -> (r: Result<Option<FsPath>, WorkPermitDenied>)
        requires
            keyed(old(scheduler)@),
            old(workgate)@.wf(),
            old(workgate)@.next_id < u64::MAX,
            in_step(old(self).current(), old(scheduler)@, old(workgate)@),
        ensures
            keyed(final(scheduler)@),
            final(workgate)@.wf(),
            final(self).budget() == old(self).budget(),
            in_step(final(self).current(), final(scheduler)@, final(workgate)@),
            next_started(
                throttle_state,
                now,
                old(self).current(),
                old(scheduler)@,
                old(workgate)@,
                r,
                final(self).current(),
                final(scheduler)@,
                final(workgate)@,
            ),
    {
        if self.running.is_some() || !matches!(throttle_state, ThrottleState::IdleDrain) {
            return Ok(None);
        }
        let ghost before = scheduler@;
        let intent = match scheduler.claim_next_reconcile() {
            Some(intent) => intent,
            None => {
                return Ok(None);
            },
        };
        let ghost at = choose|i: int|
            {
                &&& #[trigger] is_first_reconcile(before, i)
                &&& intent@ == before.pending[i]
                &&& scheduler@ == claimed(before, i)
            };
        assert(is_running(scheduler@, intent.path@)) by {
            assert(scheduler@.running[before.running.len() as int].path == intent.path@);
        }
        let permit = match workgate.try_acquire(WorkClass::Reconcile) {
            Ok(permit) => permit,
            Err(denied) => {
                let _ = requeue_claimed_reconcile(scheduler, &intent.path, now);
                assert(is_first_reconcile(before, at));
                return Err(denied);
            },
        };
        let root = intent.path.clone();
        self.running = Some(
            RunningReconcile {
                root: intent.path,
                started_at: now,
                slice_started_at: now,
                last_checkpoint_at: now,
                checkpoint_count: 0,
                permit,
            },
        );
        assert(is_first_reconcile(before, at));
        Ok(Some(root))
    }

    /// A checkpoint of the running reconcile: it gives way when its slice is
    /// over or the machine is no longer idle, and the work is queued again.
    pub fn checkpoint(
        &mut self,
        scheduler: &mut KeyedSupersedingScheduler,
        workgate: &mut ThrottleWorkgate,
        throttle_state: ThrottleState,
        now: SystemTime,
    ) -> (r: Option<ReconcilePause>)
        requires
            keyed(old(scheduler)@),
            old(workgate)@.wf(),
            in_step(old(self).current(), old(scheduler)@, old(workgate)@),
        ensures
            keyed(final(scheduler)@),
            final(workgate)@.wf(),
            final(self).budget() == old(self).budget(),
            in_step(final(self).current(), final(scheduler)@, final(workgate)@),
            slice_checked(
                throttle_state,
                now,
                old(self).budget(),
                old(self).current(),
                old(scheduler)@,
                old(workgate)@,
                r,
                final(self).current(),
                final(scheduler)@,
                final(workgate)@,
            ),
    {
        let mut running = match self.running.take() {
            Some(running) => running,
            None => {
                return None;
            },
        };
        if running.checkpoint_count < usize::MAX {
            running.checkpoint_count = running.checkpoint_count + 1;
        }
        running.last_checkpoint_at = now;
        let expired = match now.duration_since(running.slice_started_at) {
            Some(elapsed) => elapsed.nanos >= self.slice_budget.nanos,
            None => true,
        };
        let reason = if !matches!(throttle_state, ThrottleState::IdleDrain) {
            ReconcilePauseReason::ThrottleNoLongerIdle
        } else if expired {
            ReconcilePauseReason::SliceBudgetExpired
        } else {
            self.running = Some(running);
            return None;
        };
        let _ = workgate.release(running.permit);
        let disposition = requeue_claimed_reconcile(scheduler, &running.root, now);
        Some(
            ReconcilePause {
                root: running.root,
                reason,
                disposition,
                checkpoint_count: running.checkpoint_count,
            },
        )
    }

    /// Ends the running reconcile after a failure; the work is queued again.
    pub fn abort_running(
        &mut self,
        scheduler: &mut KeyedSupersedingScheduler,
        workgate: &mut ThrottleWorkgate,
        now: SystemTime,
    ) -> (r: Option<FsPath>)
        requires
            keyed(old(scheduler)@),
            old(workgate)@.wf(),
            in_step(old(self).current(), old(scheduler)@, old(workgate)@),
        ensures
            keyed(final(scheduler)@),
            final(workgate)@.wf(),
            final(self).budget() == old(self).budget(),
            final(self).current() is None,
            run_aborted(
                now,
                old(self).current(),
                old(scheduler)@,
                old(workgate)@,
                r,
                final(scheduler)@,
                final(workgate)@,
            ),
    {
        let running = match self.running.take() {
            Some(running) => running,
            None => {
                return None;
            },
        };
        let _ = workgate.release(running.permit);
        let _ = requeue_claimed_reconcile(scheduler, &running.root, now);
        Some(running.root)
    }

    /// Ends the running reconcile with success. The subtree's compaction
    /// boundary goes only when nothing arrived for it meanwhile.
    pub fn complete_success(
        &mut self,
        maps: &mut BoundedEventIntentMaps,
        scheduler: &mut KeyedSupersedingScheduler,
        workgate: &mut ThrottleWorkgate,
    ) -> (r: Option<ReconcileCompletion>)
        requires
            old(maps).wf(),
            keyed(old(scheduler)@),
            old(workgate)@.wf(),
        ensures
            final(maps).wf(),
            keyed(final(scheduler)@),
            final(workgate)@.wf(),
            final(self).budget() == old(self).budget(),
            final(self).current() is None,
            run_succeeded(
                old(self).current(),
                old(maps)@,
                old(scheduler)@,
                old(workgate)@,
                r,
                final(maps)@,
                final(scheduler)@,
                final(workgate)@,
            ),
    {
        let running = match self.running.take() {
            Some(running) => running,
            None => {
                return None;
            },
        };
        let _ = workgate.release(running.permit);
        let disposition = match scheduler.complete_running(&running.root) {
            Some(disposition) => disposition,
            None => {
                return None;
            },
        };
        let boundary_cleared = matches!(disposition, CompletionDisposition::Removed)
            && maps.clear_compacted_subtree_boundary(&running.root);
        Some(
            ReconcileCompletion {
                root: running.root,
                disposition,
                boundary_cleared,
                checkpoint_count: running.checkpoint_count,
            },
        )
    }
}

/// While idle the deferred reconciles that are due are queued; otherwise none.
pub open spec fn deferred_released(
    state: ThrottleState,
    now: SystemTime,
    maps: MapsView,
    scheduler: SchedulerView,
    r: usize,
    maps2: MapsView,
    scheduler2: SchedulerView,
) -> bool {
    if state == ThrottleState::IdleDrain {
        &&& maps2 == (MapsView {
            deferred: not_due(maps.deferred, now),
            ..maps
        })
        &&& exists|ready: Seq<IntentView>|
            {
                &&& r == ready.len()
                &&& #[trigger] released(maps, now, ready)
                &&& scheduler2 == upserted_all(scheduler, ready)
            }
    } else {
        &&& r == 0
        &&& maps2 == maps
        &&& scheduler2 == scheduler
    }
}

/// What a start of the next reconcile does: nothing unless the machine is idle
/// and no reconcile runs; without a permit the work goes back to the queue.
pub open spec fn next_started(
    state: ThrottleState,
    now: SystemTime,
    running: Option<ReconcileView>,
    scheduler: SchedulerView,
    gate: GateView,
    r: Result<Option<FsPath>, WorkPermitDenied>,
    running2: Option<ReconcileView>,
    scheduler2: SchedulerView,
    gate2: GateView,
) -> bool {
    if running is Some || state != ThrottleState::IdleDrain {
        &&& r == Ok::<Option<FsPath>, WorkPermitDenied>(None)
        &&& running2 == running
        &&& scheduler2 == scheduler
        &&& gate2 == gate
    } else {
        match r {
            Ok(None) => {
                &&& running2 is None
                &&& scheduler2 == scheduler
                &&& gate2 == gate
                &&& forall|i: int|
                    0 <= i < scheduler.pending.len() ==> (
                    #[trigger] scheduler.pending[i]).kind
                        != PendingIntentKind::ReconcileSubtree
            },
            Ok(Some(root)) => {
                &&& denial(
                    gate.caps,
                    gate.permits,
                    WorkClass::Reconcile,
                ) is None
                &&& exists|i: int|
                    {
                        &&& #[trigger] is_first_reconcile(scheduler, i)
                        &&& root@ == scheduler.pending[i].path
                        &&& scheduler2 == claimed(scheduler, i)
                    }
                &&& running2 == Some(
                    ReconcileView {
                        root: root@,
                        started_at: now,
                        slice_started_at: now,
                        last_checkpoint_at: now,
                        checkpoint_count: 0,
                        permit: gate.fresh(WorkClass::Reconcile),
                    },
                )
                &&& gate2 == (GateView {
                    permits: gate.permits.push(gate.fresh(WorkClass::Reconcile)),
                    next_id: gate.next_id + 1,
                    ..gate
                })
            },
            Err(denied) => {
                &&& denial(
                    gate.caps,
                    gate.permits,
                    WorkClass::Reconcile,
                ) == Some(denied.reason)
                &&& denied.class == WorkClass::Reconcile
                &&& running2 is None
                &&& gate2 == gate
                &&& exists|i: int|
                    {
                        &&& #[trigger] is_first_reconcile(scheduler, i)
                        &&& requeued(
                            claimed(scheduler, i),
                            scheduler.pending[i].path,
                            now,
                            scheduler2,
                        )
                    }
            },
        }
    }
}

/// What a checkpoint does: the reconcile goes on, or gives way and is queued
/// again.
pub open spec fn slice_checked(
    state: ThrottleState,
    now: SystemTime,
    budget: Duration,
    running: Option<ReconcileView>,
    scheduler: SchedulerView,
    gate: GateView,
    r: Option<ReconcilePause>,
    running2: Option<ReconcileView>,
    scheduler2: SchedulerView,
    gate2: GateView,
) -> bool {
    match running {
        None => {
            &&& r is None
            &&& running2 is None
            &&& scheduler2 == scheduler
            &&& gate2 == gate
        },
        Some(run) => match pause_reason(
            state,
            now,
            run.slice_started_at,
            budget,
        ) {
            None => {
                &&& r is None
                &&& running2 == Some(
                    ReconcileView {
                        checkpoint_count: raised(run.checkpoint_count, 1),
                        last_checkpoint_at: now,
                        ..run
                    },
                )
                &&& scheduler2 == scheduler
                &&& gate2 == gate
            },
            Some(reason) => {
                &&& r matches Some(pause)
                &&& pause.root@ == run.root
                &&& pause.reason == reason
                &&& pause.disposition == CompletionDisposition::RequeuedDirty
                &&& pause.checkpoint_count == raised(run.checkpoint_count, 1)
                &&& running2 is None
                &&& requeued(scheduler, run.root, now, scheduler2)
                &&& given_back(gate, run.permit, gate2)
            },
        },
    }
}

/// What ending the running reconcile after a failure does.
pub open spec fn run_aborted(
    now: SystemTime,
    running: Option<ReconcileView>,
    scheduler: SchedulerView,
    gate: GateView,
    r: Option<FsPath>,
    scheduler2: SchedulerView,
    gate2: GateView,
) -> bool {
    match running {
        None => {
            &&& r is None
            &&& scheduler2 == scheduler
            &&& gate2 == gate
        },
        Some(run) => {
            &&& r matches Some(root)
            &&& root@ == run.root
            &&& requeued(scheduler, run.root, now, scheduler2)
            &&& given_back(gate, run.permit, gate2)
        },
    }
}

/// What ending the running reconcile with success does.
pub open spec fn run_succeeded(
    running: Option<ReconcileView>,
    maps: MapsView,
    scheduler: SchedulerView,
    gate: GateView,
    r: Option<ReconcileCompletion>,
    maps2: MapsView,
    scheduler2: SchedulerView,
    gate2: GateView,
) -> bool {
    match running {
        None => {
            &&& r is None
            &&& maps2 == maps
            &&& scheduler2 == scheduler
            &&& gate2 == gate
        },
        Some(run) => {
            &&& given_back(gate, run.permit, gate2)
            &&& if is_running(scheduler, run.root) {
                &&& r matches Some(done)
                &&& finished(
                    run,
                    done,
                    maps,
                    maps2,
                    scheduler,
                    scheduler2,
                )
            } else {
                &&& r is None
                &&& maps2 == maps
                &&& scheduler2 == scheduler
            }
        },
    }
}

pub open spec fn view_paths(intents: Seq<IntentView>) -> Seq<Seq<Part>> {
    intents.map_values(|i: IntentView| i.path)
}

/// `ready` are the reconciles of `maps` that are due, in the order of their
/// paths.
pub open spec fn released(maps: MapsView, now: SystemTime, ready: Seq<IntentView>) -> bool {
    &&& strictly_ordered(view_paths(ready))
    &&& forall|p: Seq<Part>| #[trigger]
        view_paths(ready).contains(p) <==> maps.deferred.contains_key(p) && is_due(
            maps.deferred[p],
            now,
        )
    &&& forall|k: int|
        0 <= k < ready.len() ==> (#[trigger] ready[k]).kind == PendingIntentKind::ReconcileSubtree
            && ready[k].observed_at == maps.deferred[ready[k].path].available_at
}

/// A reconcile that ended with success.
pub open spec fn finished(
    running: ReconcileView,
    done: ReconcileCompletion,
    maps: MapsView,
    maps2: MapsView,
    scheduler: SchedulerView,
    scheduler2: SchedulerView,
) -> bool {
    &&& done.root@ == running.root
    &&& done.checkpoint_count == running.checkpoint_count
    &&& exists|i: int|
        {
            &&& 0 <= i < scheduler.running.len()
            &&& #[trigger] scheduler.running[i].path == running.root
            &&& scheduler2 == completed(scheduler, i)
            &&& done.disposition == if scheduler.running[i].dirty is Some {
                CompletionDisposition::RequeuedDirty
            } else {
                CompletionDisposition::Removed
            }
        }
    &&& done.boundary_cleared == (done.disposition == CompletionDisposition::Removed
        && !needs_follow_up(maps, running.root) && maps.compacted.contains_key(running.root))
    &&& maps2 == if done.boundary_cleared {
        MapsView { compacted: maps.compacted.remove(running.root), ..maps }
    } else {
        maps
    }
}

// ---------------------------------------------------------------------------
// What the controller is for
// ---------------------------------------------------------------------------

/// A reconcile of `root` is pending.
pub open spec fn is_to_be_reconciled(scheduler: SchedulerView, root: Seq<Part>) -> bool {
    exists|i: int|
        0 <= i < scheduler.pending.len() && (#[trigger] scheduler.pending[i]).path == root
            && scheduler.pending[i].kind == PendingIntentKind::ReconcileSubtree
}

proof fn lemma_requeued_is_pending(
    before: SchedulerView,
    root: Seq<Part>,
    now: SystemTime,
    after: SchedulerView,
)
    requires
        requeued(before, root, now, after),
    ensures
        is_to_be_reconciled(after, root),
{
    let n = before.pending.len() as int;
    assert(after.pending[n].path == root);
}

/// A reconcile starts only while the machine is idle and none runs, with a
/// permit of its own, and is one that was pending. A denied one is pending
/// again: no reconcile is ever lost for want of a permit.
pub proof fn law_a_reconcile_starts_only_when_idle(
    controller: &mut ReconcileController,
    scheduler: &mut KeyedSupersedingScheduler,
    gate: &mut ThrottleWorkgate,
    state: ThrottleState,
    now: SystemTime,
    r: Result<Option<FsPath>, WorkPermitDenied>,
)
    requires
        call_ensures(
            ReconcileController::try_start_next,
            (controller, scheduler, gate, state, now),
            r,
        ),
    ensures
        r matches Ok(Some(root)) ==> state == ThrottleState::IdleDrain && old(controller).current()
            is None && is_to_be_reconciled(old(scheduler)@, root@) && final(controller).current()
            is Some && (final(controller).current()->0).root == root@ && (
        final(controller).current()->0).slice_started_at == now && (
        final(controller).current()->0).permit.class == WorkClass::Reconcile
            && final(gate)@.permits == old(gate)@.permits.push(
            (final(controller).current()->0).permit,
        ),
        r == Ok::<Option<FsPath>, WorkPermitDenied>(None) ==> final(scheduler)@ == old(scheduler)@
            && final(gate)@ == old(gate)@ && final(controller).current() == old(controller).current(),
        state != ThrottleState::IdleDrain || old(controller).current() is Some ==> r == Ok::<
            Option<FsPath>,
            WorkPermitDenied,
        >(None),
        r is Err ==> final(controller).current() is None && final(gate)@ == old(gate)@ && exists|
            root: Seq<Part>,
        | #[trigger]
            is_to_be_reconciled(old(scheduler)@, root) && is_to_be_reconciled(
                final(scheduler)@,
                root,
            ),
        r == Ok::<Option<FsPath>, WorkPermitDenied>(None) && state == ThrottleState::IdleDrain
            && old(controller).current() is None ==> forall|root: Seq<Part>|
            !#[trigger] is_to_be_reconciled(old(scheduler)@, root),
{
    let before = old(scheduler)@;
    if state == ThrottleState::IdleDrain && old(controller).current() is None {
        match r {
            Ok(Some(root)) => {
                let i = choose|i: int|
                    {
                        &&& #[trigger] is_first_reconcile(before, i)
                        &&& root@ == before.pending[i].path
                        &&& final(scheduler)@ == claimed(before, i)
                    };
                assert(before.pending[i].path == root@);
            },
            Ok(None) => {
                assert forall|root: Seq<Part>| !#[trigger] is_to_be_reconciled(before, root) by {
                    if is_to_be_reconciled(before, root) {
                        let i = choose|i: int|
                            0 <= i < before.pending.len() && (#[trigger] before.pending[i]).path
                                == root && before.pending[i].kind
                                == PendingIntentKind::ReconcileSubtree;
                        assert(before.pending[i].kind != PendingIntentKind::ReconcileSubtree);
                    }
                }
            },
            Err(_) => {
                let i = choose|i: int|
                    {
                        &&& #[trigger] is_first_reconcile(before, i)
                        &&& requeued(
                            claimed(before, i),
                            before.pending[i].path,
                            now,
                            final(scheduler)@,
                        )
                    };
                let root = before.pending[i].path;
                assert(before.pending[i].path == root);
                assert(is_to_be_reconciled(before, root));
                lemma_requeued_is_pending(claimed(before, i), root, now, final(scheduler)@);
            },
        }
    }
}

/// A running reconcile gives way exactly when the machine is no longer idle,
/// its slice is over, or the clock was set back behind it. It is pending again
/// then and its permit is back; otherwise it goes on.
pub proof fn law_a_reconcile_gives_way_after_its_slice(
    controller: &mut ReconcileController,
    scheduler: &mut KeyedSupersedingScheduler,
    gate: &mut ThrottleWorkgate,
    state: ThrottleState,
    now: SystemTime,
    r: Option<ReconcilePause>,
)
    requires
        call_ensures(
            ReconcileController::checkpoint,
            (controller, scheduler, gate, state, now),
            r,
        ),
        old(controller).current() is Some,
    ensures
        ({
            let run = old(controller).current()->0;
            let over = now.nanos < run.slice_started_at.nanos || now.nanos
                >= run.slice_started_at.nanos + old(controller).budget().nanos;
            &&& r is Some <==> state != ThrottleState::IdleDrain || over
            &&& r matches Some(pause) ==> pause.root@ == run.root && (pause.reason
                == ReconcilePauseReason::ThrottleNoLongerIdle <==> state
                != ThrottleState::IdleDrain) && final(controller).current() is None
                && is_to_be_reconciled(final(scheduler)@, run.root)
                && !final(gate)@.held().contains(run.permit)
            &&& r is None ==> final(controller).current() is Some && (
            final(controller).current()->0).root == run.root && (
            final(controller).current()->0).slice_started_at == run.slice_started_at && (
            final(controller).current()->0).permit == run.permit && (
            final(controller).current()->0).last_checkpoint_at == now && final(scheduler)@ == old(scheduler)@ && final(gate)@ == old(gate)@
        }),
{
    let run = old(controller).current()->0;
    if r is Some {
        lemma_requeued_is_pending(old(scheduler)@, run.root, now, final(scheduler)@);
    }
}

/// A reconcile that failed is pending again, and its permit is back.
pub proof fn law_a_failed_reconcile_is_pending_again(
    controller: &mut ReconcileController,
    scheduler: &mut KeyedSupersedingScheduler,
    gate: &mut ThrottleWorkgate,
    now: SystemTime,
    r: Option<FsPath>,
)
    requires
        call_ensures(
            ReconcileController::abort_running,
            (controller, scheduler, gate, now),
            r,
        ),
    ensures
        final(controller).current() is None,
        r is Some <==> old(controller).current() is Some,
        old(controller).current() matches Some(run) ==> r->0@ == run.root && is_to_be_reconciled(
            final(scheduler)@,
            run.root,
        ) && !final(gate)@.held().contains(run.permit),
        r is None ==> final(scheduler)@ == old(scheduler)@ && final(gate)@ == old(gate)@,
{
    if let Some(run) = old(controller).current() {
        lemma_requeued_is_pending(old(scheduler)@, run.root, now, final(scheduler)@);
    }
}

/// A reconcile that succeeded gives its permit back, and the boundary of its
/// subtree goes only when nothing arrived for it meanwhile and no other
/// reconcile of it is to come.
pub proof fn law_a_boundary_goes_only_when_nothing_is_to_come(
    controller: &mut ReconcileController,
    maps: &mut BoundedEventIntentMaps,
    scheduler: &mut KeyedSupersedingScheduler,
    gate: &mut ThrottleWorkgate,
    r: Option<ReconcileCompletion>,
)
    requires
        call_ensures(
            ReconcileController::complete_success,
            (controller, maps, scheduler, gate),
            r,
        ),
    ensures
        final(controller).current() is None,
        r matches Some(done) ==> old(controller).current() is Some && done.root@ == (
        old(controller).current()->0).root && !final(gate)@.held().contains(
            (old(controller).current()->0).permit,
        ) && (done.boundary_cleared <==> done.disposition == CompletionDisposition::Removed
            && old(maps)@.compacted.contains_key(done.root@)
            && !old(maps)@.deferred.contains_key(done.root@) && !(
        old(maps)@.intents.contains_key(done.root@) && old(maps)@.intents[done.root@].kind
            == PendingIntentKind::ReconcileSubtree)) && (done.boundary_cleared
            ==> !final(maps)@.compacted.contains_key(done.root@)) && (!done.boundary_cleared
            ==> final(maps)@ == old(maps)@),
        r is None ==> final(maps)@ == old(maps)@ && final(scheduler)@ == old(scheduler)@,
{
}

/// Deferred reconciles are queued only while the machine is idle.
pub proof fn law_deferred_reconciles_wait_for_idleness(
    controller: &mut ReconcileController,
    maps: &mut BoundedEventIntentMaps,
    scheduler: &mut KeyedSupersedingScheduler,
    state: ThrottleState,
    now: SystemTime,
    r: usize,
)
    requires
        call_ensures(
            ReconcileController::release_ready_deferred_reconciles,
            (controller, maps, scheduler, state, now),
            r,
        ),
    ensures
        state != ThrottleState::IdleDrain ==> r == 0 && final(maps)@ == old(maps)@
            && final(scheduler)@ == old(scheduler)@,
        state == ThrottleState::IdleDrain ==> forall|p: Seq<Part>| #[trigger]
            old(maps)@.deferred.contains_key(p) ==> (final(maps)@.deferred.contains_key(p)
                <==> old(maps)@.deferred[p].available_at.nanos > now.nanos),
        final(maps)@.events == old(maps)@.events,
        final(maps)@.intents == old(maps)@.intents,
        final(controller).current() == old(controller).current(),
{
}

/// A reconcile of `root` is pending, or noted for when the work on it ends.
pub open spec fn is_noted(scheduler: SchedulerView, root: Seq<Part>) -> bool {
    is_to_be_reconciled(scheduler, root) || exists|i: int|
        0 <= i < scheduler.running.len() && (#[trigger] scheduler.running[i]).path == root && (
        scheduler.running[i].dirty matches Some(intent) && intent.kind
            == PendingIntentKind::ReconcileSubtree)
}

proof fn lemma_upsert_notes(before: SchedulerView, intent: IntentView, root: Seq<Part>)
    requires
        intent.kind == PendingIntentKind::ReconcileSubtree,
        intent.path == root || is_noted(before, root),
    ensures
        is_noted(crate::scheduler::upserted(before, intent), root),
{
    let after = crate::scheduler::upserted(before, intent);
    if intent.path == root {
        if exists|i: int|
            0 <= i < before.running.len() && (#[trigger] before.running[i]).path == root {
            let i = choose|i: int|
                0 <= i < before.running.len() && (#[trigger] before.running[i]).path == root;
            assert(after.running[i].path == root);
        } else {
            assert(!crate::scheduler::is_running(before, root));
            if crate::scheduler::is_pending(before, root) {
                let i = choose|i: int|
                    0 <= i < before.pending.len() && (#[trigger] before.pending[i]).path == root;
                assert(after.pending[i] == intent);
            } else {
                assert(after.pending[before.pending.len() as int] == intent);
            }
        }
    } else if is_to_be_reconciled(before, root) {
        let i = choose|i: int|
            0 <= i < before.pending.len() && (#[trigger] before.pending[i]).path == root
                && before.pending[i].kind == PendingIntentKind::ReconcileSubtree;
        assert(after.pending[i] == before.pending[i]);
    } else {
        let i = choose|i: int|
            0 <= i < before.running.len() && (#[trigger] before.running[i]).path == root && (
            before.running[i].dirty matches Some(intent) && intent.kind
                == PendingIntentKind::ReconcileSubtree);
        assert(after.running[i] == before.running[i]);
    }
}

proof fn lemma_upserts_note(before: SchedulerView, ready: Seq<IntentView>, k: int)
    requires
        0 <= k < ready.len(),
        forall|i: int|
            0 <= i < ready.len() ==> (#[trigger] ready[i]).kind
                == PendingIntentKind::ReconcileSubtree,
    ensures
        is_noted(upserted_all(before, ready), ready[k].path),
    decreases ready.len(),
{
    let front = ready.drop_last();
    assert(ready.last() == ready[ready.len() - 1]);
    if k < front.len() {
        assert forall|i: int| 0 <= i < front.len() implies (#[trigger] front[i]).kind
            == PendingIntentKind::ReconcileSubtree by {
            assert(front[i] == ready[i]);
        }
        lemma_upserts_note(before, front, k);
    }
    lemma_upsert_notes(upserted_all(before, front), ready.last(), ready[k].path);
}

/// While the machine is idle every deferred reconcile that is due gets its
/// turn: none is dropped on the way to the queue.
pub proof fn law_a_due_reconcile_gets_its_turn(
    controller: &mut ReconcileController,
    maps: &mut BoundedEventIntentMaps,
    scheduler: &mut KeyedSupersedingScheduler,
    now: SystemTime,
    root: Seq<Part>,
    r: usize,
)
    requires
        call_ensures(
            ReconcileController::release_ready_deferred_reconciles,
            (controller, maps, scheduler, ThrottleState::IdleDrain, now),
            r,
        ),
        old(maps)@.deferred.contains_key(root),
        old(maps)@.deferred[root].available_at.nanos <= now.nanos,
    ensures
        is_noted(final(scheduler)@, root),
        r > 0,
{
    let ready = choose|ready: Seq<IntentView>|
        {
            &&& r == ready.len()
            &&& #[trigger] released(old(maps)@, now, ready)
            &&& final(scheduler)@ == upserted_all(old(scheduler)@, ready)
        };
    assert(view_paths(ready).contains(root));
    let k = view_paths(ready).index_of(root);
    assert(ready[k].path == root);
    lemma_upserts_note(old(scheduler)@, ready, k);
}

} // verus!
