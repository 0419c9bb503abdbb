//! A queue of intents keyed by path: a newer intent supersedes the pending one
//! of its path, and one that arrives while its path is worked on is kept until
//! that work is done.
use vstd::prelude::*;

use crate::clock::SystemTime;
use crate::event_intents::{IntentView, PendingIntentKind, PendingIntentRecord};
use crate::paths::{FsPath, Part};

verus! {

/// What became of an intent whose work ended.
#[derive(Clone, Copy, Debug, PartialEq, Eq, Structural)]
pub enum CompletionDisposition {
    /// Nothing arrived meanwhile; the path is free.
    Removed,
    /// A newer intent arrived meanwhile and is pending now.
    RequeuedDirty,
}

/// A path being worked on, and the intent that arrived meanwhile.
#[derive(Debug)]
pub struct RunningIntent {
    path: FsPath,
    dirty: Option<PendingIntentRecord>,
}

pub struct RunningView {
    pub path: Seq<Part>,
    pub dirty: Option<IntentView>,
}

impl View for RunningIntent {
    type V = RunningView;

    closed spec fn view(&self) -> RunningView {
        RunningView {
            path: self.path@,
            dirty: match self.dirty {
                Some(intent) => Some(intent@),
                None => None,
            },
        }
    }
}

/// One pending intent per path; a later one supersedes the earlier.
#[derive(Debug)]
pub struct KeyedSupersedingScheduler {
    pending: Vec<PendingIntentRecord>,
    running: Vec<RunningIntent>,
}

/// Intents pending in the order of their arrival, and paths being worked on.
pub struct SchedulerView {
    pub pending: Seq<IntentView>,
    pub running: Seq<RunningView>,
}

pub open spec fn intent_views(intents: Seq<PendingIntentRecord>) -> Seq<IntentView> {
    intents.map_values(|i: PendingIntentRecord| i@)
}

/// The path is being worked on.
pub open spec fn is_running(v: SchedulerView, path: Seq<Part>) -> bool {
    exists|i: int| 0 <= i < v.running.len() && (#[trigger] v.running[i]).path == path
}

pub open spec fn is_pending(v: SchedulerView, path: Seq<Part>) -> bool {
    exists|i: int| 0 <= i < v.pending.len() && (#[trigger] v.pending[i]).path == path
}

/// One entry per path, whether pending or being worked on.
pub open spec fn keyed(v: SchedulerView) -> bool {
    &&& forall|i: int, j: int|
        0 <= i < j < v.pending.len() ==> (#[trigger] v.pending[i]).path != (
        #[trigger] v.pending[j]).path
    &&& forall|i: int, j: int|
        0 <= i < j < v.running.len() ==> (#[trigger] v.running[i]).path != (
        #[trigger] v.running[j]).path
    &&& forall|i: int, j: int|
        0 <= i < v.pending.len() && 0 <= j < v.running.len() ==> (#[trigger] v.pending[i]).path
            != (#[trigger] v.running[j]).path
    &&& forall|i: int|
        0 <= i < v.running.len() ==> ((#[trigger] v.running[i]).dirty matches Some(d) ==> d.path
            == v.running[i].path)
}

/// What a newly arrived intent makes of the queue.
pub open spec fn upserted(v: SchedulerView, intent: IntentView) -> SchedulerView {
    SchedulerView {
        pending: if is_running(v, intent.path) {
            v.pending
        } else if is_pending(v, intent.path) {
            v.pending.map_values(
                |p: IntentView|
                    if p.path == intent.path {
                        intent
                    } else {
                        p
                    },
            )
        } else {
            v.pending.push(intent)
        },
        running: v.running.map_values(
            |r: RunningView|
                if r.path == intent.path {
                    RunningView { dirty: Some(intent), ..r }
                } else {
                    r
                },
        ),
    }
}

/// What several intents make of the queue, one after the other.
pub open spec fn upserted_all(v: SchedulerView, intents: Seq<IntentView>) -> SchedulerView
    decreases intents.len(),
{
    if intents.len() == 0 {
        v
    } else {
        upserted(upserted_all(v, intents.drop_last()), intents.last())
    }
}

/// Place of the first pending reconcile.
pub open spec fn is_first_reconcile(v: SchedulerView, i: int) -> bool {
    &&& 0 <= i < v.pending.len()
    &&& v.pending[i].kind == PendingIntentKind::ReconcileSubtree
    &&& forall|j: int|
        0 <= j < i ==> (#[trigger] v.pending[j]).kind != PendingIntentKind::ReconcileSubtree
}

/// The queue once the pending intent at `i` is being worked on.
pub open spec fn claimed(v: SchedulerView, i: int) -> SchedulerView {
    SchedulerView {
        pending: v.pending.remove(i),
        running: v.running.push(RunningView { path: v.pending[i].path, dirty: None }),
    }
}

/// The queue once the work at `i` is done.
pub open spec fn completed(v: SchedulerView, i: int) -> SchedulerView {
    SchedulerView {
        pending: match v.running[i].dirty {
            Some(intent) => v.pending.push(intent),
            None => v.pending,
        },
        running: v.running.remove(i),
    }
}

impl View for KeyedSupersedingScheduler {
    type V = SchedulerView;

    closed spec fn view(&self) -> SchedulerView {
        SchedulerView {
            pending: intent_views(self.pending@),
            running: self.running@.map_values(|r: RunningIntent| r@),
        }
    }
}

impl Default for KeyedSupersedingScheduler {
    fn default() -> (r: KeyedSupersedingScheduler)
        ensures
            r@.pending == Seq::<IntentView>::empty(),
            r@.running == Seq::<RunningView>::empty(),
            keyed(r@),
    {
        let r = KeyedSupersedingScheduler { pending: Vec::new(), running: Vec::new() };
        assert(r@.pending =~= Seq::<IntentView>::empty());
        assert(r@.running =~= Seq::<RunningView>::empty());
        r
    }
}

/// A new intent keeps one entry per path.
proof fn lemma_upserted_keyed(v: SchedulerView, intent: IntentView)
    requires
        keyed(v),
    ensures
        keyed(upserted(v, intent)),
{
    let w = upserted(v, intent);
    assert forall|i: int| 0 <= i < w.running.len() implies (#[trigger] w.running[i]).path
        == v.running[i].path by {}
    assert forall|i: int| 0 <= i < v.pending.len() implies (#[trigger] w.pending[i]).path
        == v.pending[i].path by {}
    assert forall|i: int, j: int|
        0 <= i < w.pending.len() && 0 <= j < w.running.len() implies (
    #[trigger] w.pending[i]).path != (#[trigger] w.running[j]).path by {
        if i < v.pending.len() {
            assert(v.pending[i].path != v.running[j].path);
        }
    }
}

impl KeyedSupersedingScheduler {
    fn running_at(&self, path: &FsPath) -> (r: Option<usize>)
        ensures
            match r {
                Some(i) => i < self@.running.len() && self@.running[i as int].path == path@ && forall|
                    j: int,
                |
                    0 <= j < i ==> (#[trigger] self@.running[j]).path != path@,
                None => !is_running(self@, path@),
            },
    {
        let mut i: usize = 0;
        while i < self.running.len()
            invariant
                i <= self.running@.len(),
                self@.running.len() == self.running@.len(),
                forall|j: int| 0 <= j < i ==> (#[trigger] self@.running[j]).path != path@,
            decreases self.running@.len() - i,
        {
            assert(self@.running[i as int] == self.running@[i as int]@);
            if self.running[i].path.same(path) {
                return Some(i);
            }
            i = i + 1;
        }
        None
    }

    /// Takes a newly arrived intent.
    pub fn upsert_pending_intent_record(&mut self, intent: PendingIntentRecord)
        requires
            keyed(old(self)@),
        ensures
            final(self)@ == upserted(old(self)@, intent@),
            keyed(final(self)@),
    {
        let ghost before = self@;
        proof {
            lemma_upserted_keyed(before, intent@);
        }
        if let Some(i) = self.running_at(&intent.path) {
            let ghost view = intent@;
            let path = self.running[i].path.clone();
            self.running.set(i, RunningIntent { path, dirty: Some(intent) });
            proof {
                assert(is_running(before, view.path)) by {
                    assert(before.running[i as int].path == view.path);
                }
                assert(self@.pending =~= upserted(before, view).pending);
                assert forall|j: int| 0 <= j < self@.running.len() implies #[trigger] self@.running[j]
                    == upserted(before, view).running[j] by {
                    if j != i as int {
                        if j < i {
                            assert(before.running[j].path != before.running[i as int].path);
                        } else {
                            assert(before.running[i as int].path != before.running[j].path);
                        }
                    }
                }
                assert(self@.running =~= upserted(before, view).running);
            }
            return;
        }
        let ghost view = intent@;
        assert(self@.running =~= upserted(before, view).running) by {
            assert forall|j: int| 0 <= j < before.running.len() implies #[trigger] before.running[j]
                == upserted(before, view).running[j] by {}
        }
        let mut i: usize = 0;
        while i < self.pending.len()
            invariant
                i <= self.pending@.len(),
                self@ == before,
                before == old(self)@,
                keyed(before),
                view == intent@,
                !is_running(before, view.path),
                self@.running == upserted(before, view).running,
                forall|j: int| 0 <= j < i ==> (#[trigger] before.pending[j]).path != view.path,
            decreases self.pending@.len() - i,
        {
            assert(before.pending[i as int] == self.pending@[i as int]@);
            if self.pending[i].path.same(&intent.path) {
                self.pending.set(i, intent);
                proof {
                    assert(is_pending(before, view.path)) by {
                        assert(before.pending[i as int].path == view.path);
                    }
                    assert forall|j: int| 0 <= j < self@.pending.len() implies #[trigger] self@.pending[j]
                        == upserted(before, view).pending[j] by {
                        if j > i {
                            assert(before.pending[i as int].path != before.pending[j].path);
                        }
                    }
                    assert(self@.pending =~= upserted(before, view).pending);
                }
                return;
            }
            i = i + 1;
        }
        assert(!is_pending(before, view.path));
        self.pending.push(intent);
        assert(self@.pending =~= before.pending.push(view));
    }

    /// Takes a newly arrived intent of this kind.
    pub fn upsert_intent(&mut self, path: FsPath, kind: PendingIntentKind, observed_at: SystemTime)
        requires
            keyed(old(self)@),
        ensures
            final(self)@ == upserted(old(self)@, IntentView { path: path@, kind, observed_at }),
            keyed(final(self)@),
    {
        self.upsert_pending_intent_record(PendingIntentRecord { path, kind, observed_at });
    }

    /// Starts the reconcile that has waited longest.
    pub fn claim_next_reconcile(&mut self) -> (r: Option<PendingIntentRecord>)
        requires
            keyed(old(self)@),
        ensures
            keyed(final(self)@),
            match r {
                Some(intent) => exists|i: int|
                    {
                        &&& #[trigger] is_first_reconcile(old(self)@, i)
                        &&& intent@ == old(self)@.pending[i]
                        &&& final(self)@ == claimed(old(self)@, i)
                    },
                None => final(self)@ == old(self)@ && forall|i: int|
                    0 <= i < old(self)@.pending.len() ==> (#[trigger] old(self)@.pending[i]).kind
                        != PendingIntentKind::ReconcileSubtree,
            },
    {
        let ghost before = self@;
        let mut i: usize = 0;
        while i < self.pending.len()
            invariant
                i <= self.pending@.len(),
                self@ == before,
                before == old(self)@,
                keyed(before),
                forall|j: int|
                    0 <= j < i ==> (#[trigger] before.pending[j]).kind
                        != PendingIntentKind::ReconcileSubtree,
            decreases self.pending@.len() - i,
        {
            assert(before.pending[i as int] == self.pending@[i as int]@);
            if matches!(self.pending[i].kind, PendingIntentKind::ReconcileSubtree) {
                let intent = self.pending.remove(i);
                self.running.push(RunningIntent { path: intent.path.clone(), dirty: None });
                proof {
                    let at = i as int;
                    assert(is_first_reconcile(before, at));
                    assert(self@.pending =~= before.pending.remove(at));
                    assert(self@.running =~= claimed(before, at).running);
                    let w = self@;
                    assert forall|j: int| 0 <= j < w.pending.len() implies #[trigger] w.pending[j]
                        == before.pending[if j < at {
                        j
                    } else {
                        j + 1
                    }] by {}
                    assert forall|j: int, k: int|
                        0 <= j < w.pending.len() && 0 <= k < w.running.len() implies (
                    #[trigger] w.pending[j]).path != (#[trigger] w.running[k]).path by {
                        let m = if j < at {
                            j
                        } else {
                            j + 1
                        };
                        if k < before.running.len() {
                            assert(before.pending[m].path != before.running[k].path);
                        } else if m < at {
                            assert(before.pending[m].path != before.pending[at].path);
                        } else {
                            assert(before.pending[at].path != before.pending[m].path);
                        }
                    }
                    assert forall|j: int, k: int| 0 <= j < k < w.running.len() implies (
                    #[trigger] w.running[j]).path != (#[trigger] w.running[k]).path by {
                        if k == before.running.len() {
                            assert(before.pending[at].path != before.running[j].path);
                        }
                    }
                }
                return Some(intent);
            }
            i = i + 1;
        }
        None
    }

    /// Ends the work on a path.
    pub fn complete_running(&mut self, path: &FsPath) -> (r: Option<CompletionDisposition>)
        requires
            keyed(old(self)@),
        ensures
            keyed(final(self)@),
            match r {
                Some(disposition) => exists|i: int|
                    {
                        &&& 0 <= i < old(self)@.running.len()
                        &&& #[trigger] old(self)@.running[i].path == path@
                        &&& final(self)@ == completed(old(self)@, i)
                        &&& disposition == if old(self)@.running[i].dirty is Some {
                            CompletionDisposition::RequeuedDirty
                        } else {
                            CompletionDisposition::Removed
                        }
                    },
                None => !is_running(old(self)@, path@) && final(self)@ == old(self)@,
            },
    {
        let ghost before = self@;
        let i: usize = match self.running_at(path) {
            Some(i) => i,
            None => {
                return None;
            },
        };
        let done = self.running.remove(i);
        assert(before.running[i as int] == done@);
        let disposition = match done.dirty {
            Some(intent) => {
                self.pending.push(intent);
                CompletionDisposition::RequeuedDirty
            },
            None => CompletionDisposition::Removed,
        };
        proof {
            let at = i as int;
            let w = self@;
            assert(w.pending =~= completed(before, at).pending);
            assert(w.running =~= completed(before, at).running);
            assert forall|j: int| 0 <= j < w.running.len() implies #[trigger] w.running[j]
                == before.running[if j < at {
                j
            } else {
                j + 1
            }] by {}
            assert forall|j: int, k: int|
                0 <= j < w.pending.len() && 0 <= k < w.running.len() implies (
            #[trigger] w.pending[j]).path != (#[trigger] w.running[k]).path by {
                let m = if k < at {
                    k
                } else {
                    k + 1
                };
                if j < before.pending.len() {
                    assert(before.pending[j].path != before.running[m].path);
                } else if m < at {
                    assert(before.running[m].path != before.running[at].path);
                } else {
                    assert(before.running[at].path != before.running[m].path);
                }
            }
            assert forall|j: int, k: int| 0 <= j < k < w.pending.len() implies (
            #[trigger] w.pending[j]).path != (#[trigger] w.pending[k]).path by {
                if k == before.pending.len() {
                    assert(before.pending[j].path != before.running[at].path);
                }
            }
            assert(before.running[at].path == path@);
        }
        Some(disposition)
    }

    /// Intents waiting.
    pub fn pending_count(&self) -> (r: usize)
        ensures
            r == self@.pending.len(),
    {
        self.pending.len()
    }
}

// ---------------------------------------------------------------------------
// What the scheduler is for
// ---------------------------------------------------------------------------

/// The latest intent of a path is the one that counts: it is the path's only
/// pending one, or, while the path is worked on, it is kept for when that is
/// done. The intents of other paths stay as they are.
pub proof fn law_the_latest_intent_counts(
    scheduler: &mut KeyedSupersedingScheduler,
    intent: PendingIntentRecord,
)
    requires
        call_ensures(
            KeyedSupersedingScheduler::upsert_pending_intent_record,
            (scheduler, intent),
            (),
        ),
        keyed(old(scheduler)@),
    ensures
        ({
            let (before, after) = (old(scheduler)@, final(scheduler)@);
            let busy = exists|i: int|
                0 <= i < before.running.len() && (#[trigger] before.running[i]).path
                    == intent.path@;
            &&& !busy ==> after.pending.contains(intent@)
            &&& busy ==> after.pending == before.pending && exists|i: int|
                0 <= i < after.running.len() && (#[trigger] after.running[i]).path == intent.path@
                    && after.running[i].dirty == Some(intent@)
            &&& forall|j: int|
                0 <= j < after.pending.len() && (#[trigger] after.pending[j]).path == intent.path@
                    ==> after.pending[j] == intent@
            &&& forall|j: int|
                0 <= j < before.pending.len() && (#[trigger] before.pending[j]).path != intent.path@
                    ==> after.pending.contains(before.pending[j])
            &&& forall|j: int|
                0 <= j < after.pending.len() && (#[trigger] after.pending[j]).path != intent.path@
                    ==> before.pending.contains(after.pending[j])
            &&& after.running.len() == before.running.len()
            &&& forall|j: int|
                0 <= j < before.running.len() && (#[trigger] before.running[j]).path != intent.path@
                    ==> after.running[j] == before.running[j]
        }),
{
    let (before, after) = (old(scheduler)@, final(scheduler)@);
    let busy = exists|i: int|
        0 <= i < before.running.len() && (#[trigger] before.running[i]).path == intent.path@;
    assert(is_running(before, intent.path@) == busy);
    if busy {
        let i = choose|i: int|
            0 <= i < before.running.len() && (#[trigger] before.running[i]).path == intent.path@;
        assert(after.running[i].path == intent.path@);
        assert forall|j: int|
            0 <= j < after.pending.len() implies (#[trigger] after.pending[j]).path
            != intent.path@ by {
            assert(before.pending[j].path != before.running[i].path);
        }
        assert forall|j: int|
            0 <= j < before.pending.len() && (#[trigger] before.pending[j]).path
                != intent.path@ implies after.pending.contains(before.pending[j]) by {
            assert(after.pending[j] == before.pending[j]);
        }
        assert forall|j: int|
            0 <= j < after.pending.len() && (#[trigger] after.pending[j]).path
                != intent.path@ implies before.pending.contains(after.pending[j]) by {
            assert(after.pending[j] == before.pending[j]);
        }
    } else {
        if is_pending(before, intent.path@) {
            let i = choose|i: int|
                0 <= i < before.pending.len() && (#[trigger] before.pending[i]).path
                    == intent.path@;
            assert(after.pending[i] == intent@);
        } else {
            assert(after.pending[before.pending.len() as int] == intent@);
        }
        assert forall|j: int|
            0 <= j < before.pending.len() && (#[trigger] before.pending[j]).path
                != intent.path@ implies after.pending.contains(before.pending[j]) by {
            assert(after.pending[j] == before.pending[j]);
        }
        assert forall|j: int|
            0 <= j < after.pending.len() && (#[trigger] after.pending[j]).path
                != intent.path@ implies before.pending.contains(after.pending[j]) by {
            assert(after.pending[j] == before.pending[j]);
        }
    }
}

/// The reconcile that has waited longest is claimed: it leaves the queue and
/// its path is worked on. Nothing but reconciles is claimed, and none only
/// when none is pending.
pub proof fn law_the_oldest_reconcile_is_claimed(
    scheduler: &mut KeyedSupersedingScheduler,
    r: Option<PendingIntentRecord>,
)
    requires
        call_ensures(KeyedSupersedingScheduler::claim_next_reconcile, (scheduler,), r),
    ensures
        ({
            let (before, after) = (old(scheduler)@, final(scheduler)@);
            &&& r matches Some(intent) ==> intent.kind == PendingIntentKind::ReconcileSubtree
                && exists|i: int|
                0 <= i < before.pending.len() && #[trigger] before.pending[i] == intent@ && (forall|
                    j: int,
                |
                    0 <= j < i ==> (#[trigger] before.pending[j]).kind
                        != PendingIntentKind::ReconcileSubtree) && after.pending
                    == before.pending.remove(i)
            &&& r matches Some(intent) ==> after.running.len() == before.running.len() + 1
                && after.running.last().path == intent.path@ && after.running.last().dirty is None
            &&& r is None ==> after == before
            &&& r is None ==> forall|i: int|
                0 <= i < before.pending.len() ==> (#[trigger] before.pending[i]).kind
                    != PendingIntentKind::ReconcileSubtree
        }),
{
    let before = old(scheduler)@;
    if let Some(intent) = r {
        let i = choose|i: int|
            {
                &&& #[trigger] is_first_reconcile(before, i)
                &&& intent@ == before.pending[i]
                &&& final(scheduler)@ == claimed(before, i)
            };
        assert(before.pending[i] == intent@);
    }
}

/// Work that ends frees its path; what arrived for it meanwhile is pending
/// then, and only then is it said to be.
pub proof fn law_what_arrived_meanwhile_is_pending_again(
    scheduler: &mut KeyedSupersedingScheduler,
    path: FsPath,
    r: Option<CompletionDisposition>,
)
    requires
        call_ensures(KeyedSupersedingScheduler::complete_running, (scheduler, &path), r),
        keyed(old(scheduler)@),
    ensures
        ({
            let (before, after) = (old(scheduler)@, final(scheduler)@);
            &&& forall|i: int|
                0 <= i < before.running.len() && (#[trigger] before.running[i]).path == path@ ==> (
                r == Some(CompletionDisposition::RequeuedDirty) <==> before.running[i].dirty is Some)
                    && (r == Some(CompletionDisposition::Removed) <==> before.running[i].dirty
                    is None) && (before.running[i].dirty matches Some(intent) ==> after.pending
                    == before.pending.push(intent)) && (before.running[i].dirty is None
                    ==> after.pending == before.pending)
            &&& forall|i: int|
                0 <= i < after.running.len() ==> (#[trigger] after.running[i]).path != path@
            &&& r is None ==> after == before
        }),
{
    let (before, after) = (old(scheduler)@, final(scheduler)@);
    if r is Some {
        let k = choose|k: int|
            {
                &&& 0 <= k < before.running.len()
                &&& #[trigger] before.running[k].path == path@
                &&& after == completed(before, k)
                &&& r == Some(
                    if before.running[k].dirty is Some {
                        CompletionDisposition::RequeuedDirty
                    } else {
                        CompletionDisposition::Removed
                    },
                )
            };
        assert forall|i: int|
            0 <= i < before.running.len() && (#[trigger] before.running[i]).path
                == path@ implies i == k by {
            if i < k {
                assert(before.running[i].path != before.running[k].path);
            } else if k < i {
                assert(before.running[k].path != before.running[i].path);
            }
        }
        assert forall|i: int| 0 <= i < after.running.len() implies (
        #[trigger] after.running[i]).path != path@ by {
            let m = if i < k {
                i
            } else {
                i + 1
            };
            assert(after.running[i] == before.running[m]);
        }
    } else {
        assert forall|i: int| 0 <= i < before.running.len() implies (
        #[trigger] before.running[i]).path != path@ by {
            assert(!is_running(before, path@));
        }
    }
}

} // verus!
