//! The daemon-wide limit on concurrent work. Every profile acquires its
//! permits here, so queues cannot add up past the caps of the current
//! throttle state.
use vstd::prelude::*;

verus! {

/// How far the daemon holds back.
#[derive(Clone, Copy, Debug, PartialEq, Eq, Structural)]
pub enum ThrottleState {
    IdleDrain,
    Light,
    Throttled,
    Suspended,
}

/// What a throttle state allows.
#[derive(Clone, Copy, Debug, PartialEq, Eq, Structural)]
pub struct ThrottleCaps {
    pub planner_workers: usize,
    pub hash_workers: usize,
    pub read_tokens: usize,
    pub upload_concurrency: usize,
    pub download_concurrency: usize,
    pub allow_uploads: bool,
    pub allow_downloads: bool,
    pub allow_hashing: bool,
    pub allow_reconcile: bool,
}

/// Kinds of work that are capped.
#[derive(Clone, Copy, Debug, PartialEq, Eq, Structural)]
pub enum WorkClass {
    Planner,
    Hash,
    Upload,
    Download,
    Reconcile,
}

/// The right to one unit of work; given back when the work ends.
#[derive(Clone, Copy, Debug, PartialEq, Eq, Structural)]
pub struct WorkPermit {
    pub class: WorkClass,
    pub id: u64,
}

/// What stands against a permit.
#[derive(Clone, Copy, Debug, PartialEq, Eq, Structural)]
pub enum WorkPermitDeniedReason {
    PlannerWorkersExhausted,
    HashingDisabled,
    HashWorkersExhausted,
    UploadsDisabled,
    UploadConcurrencyExhausted,
    DownloadsDisabled,
    DownloadConcurrencyExhausted,
    ReconcileDisabled,
    ReconcileAlreadyRunning,
}

/// Why a permit was not given.
#[derive(Clone, Copy, Debug, PartialEq, Eq, Structural)]
pub struct WorkPermitDenied {
    pub class: WorkClass,
    pub reason: WorkPermitDeniedReason,
}

/// The workgate at one moment.
#[derive(Clone, Copy, Debug, PartialEq, Eq, Structural)]
pub struct WorkgateSnapshot {
    pub state: ThrottleState,
    pub caps: ThrottleCaps,
    pub active_planner_workers: usize,
    pub active_hash_workers: usize,
    pub active_uploads: usize,
    pub active_downloads: usize,
    pub active_reconciles: usize,
}

/// Most permits of `class` under `caps`; reconciles run one at a time.
pub open spec fn class_cap(caps: ThrottleCaps, class: WorkClass) -> usize {
    match class {
        WorkClass::Planner => caps.planner_workers,
        WorkClass::Hash => caps.hash_workers,
        WorkClass::Upload => caps.upload_concurrency,
        WorkClass::Download => caps.download_concurrency,
        WorkClass::Reconcile => 1,
    }
}

/// Whether `caps` let work of `class` run at all, and if not, why.
pub open spec fn class_closed(caps: ThrottleCaps, class: WorkClass) -> Option<
    WorkPermitDeniedReason,
> {
    match class {
        WorkClass::Planner => None,
        WorkClass::Hash => if caps.allow_hashing {
            None
        } else {
            Some(WorkPermitDeniedReason::HashingDisabled)
        },
        WorkClass::Upload => if caps.allow_uploads {
            None
        } else {
            Some(WorkPermitDeniedReason::UploadsDisabled)
        },
        WorkClass::Download => if caps.allow_downloads {
            None
        } else {
            Some(WorkPermitDeniedReason::DownloadsDisabled)
        },
        WorkClass::Reconcile => if caps.allow_reconcile {
            None
        } else {
            Some(WorkPermitDeniedReason::ReconcileDisabled)
        },
    }
}

pub open spec fn class_full(class: WorkClass) -> WorkPermitDeniedReason {
    match class {
        WorkClass::Planner => WorkPermitDeniedReason::PlannerWorkersExhausted,
        WorkClass::Hash => WorkPermitDeniedReason::HashWorkersExhausted,
        WorkClass::Upload => WorkPermitDeniedReason::UploadConcurrencyExhausted,
        WorkClass::Download => WorkPermitDeniedReason::DownloadConcurrencyExhausted,
        WorkClass::Reconcile => WorkPermitDeniedReason::ReconcileAlreadyRunning,
    }
}

/// Outstanding permits of `class`.
pub open spec fn in_use(permits: Seq<WorkPermit>, class: WorkClass) -> nat
    decreases permits.len(),
{
    if permits.len() == 0 {
        0
    } else {
        in_use(permits.drop_last(), class) + if permits.last().class == class {
            1nat
        } else {
            0nat
        }
    }
}

/// Why a permit of `class` is denied, if it is.
pub open spec fn denial(caps: ThrottleCaps, permits: Seq<WorkPermit>, class: WorkClass) -> Option<
    WorkPermitDeniedReason,
> {
    match class_closed(caps, class) {
        Some(reason) => Some(reason),
        None => if in_use(permits, class) >= class_cap(caps, class) {
            Some(class_full(class))
        } else {
            None
        },
    }
}

/// Permits outstanding, oldest first; ids are never used twice.
#[derive(Debug)]
pub struct ThrottleWorkgate {
    state: ThrottleState,
    caps: ThrottleCaps,
    outstanding: Vec<WorkPermit>,
    next_id: u64,
}

pub struct GateView {
    pub state: ThrottleState,
    pub caps: ThrottleCaps,
    pub permits: Seq<WorkPermit>,
    pub next_id: nat,
}

impl GateView {
    /// Every outstanding permit has an id of its own, given out before.
    pub open spec fn wf(self) -> bool {
        &&& self.permits.no_duplicates()
        &&& forall|i: int|
            0 <= i < self.permits.len() ==> (#[trigger] self.permits[i]).id < self.next_id
        &&& forall|i: int, j: int|
            0 <= i < j < self.permits.len() ==> (#[trigger] self.permits[i]).id != (
            #[trigger] self.permits[j]).id
    }

    pub open spec fn held(self) -> Set<WorkPermit> {
        self.permits.to_set()
    }

    /// The permit given out next.
    pub open spec fn fresh(self, class: WorkClass) -> WorkPermit {
        WorkPermit { class, id: self.next_id as u64 }
    }
}

/// The workgate once `permit` is taken back: nothing else changes.
pub open spec fn given_back(before: GateView, permit: WorkPermit, after: GateView) -> bool {
    after == (GateView { permits: after.permits, ..before }) && after.held()
        == before.held().remove(permit)
}

impl View for ThrottleWorkgate {
    type V = GateView;

    closed spec fn view(&self) -> GateView {
        GateView {
            state: self.state,
            caps: self.caps,
            permits: self.outstanding@,
            next_id: self.next_id as nat,
        }
    }
}

impl ThrottleWorkgate {
    pub fn new(state: ThrottleState, caps: ThrottleCaps) -> (r: ThrottleWorkgate)
        ensures
            r@ == (GateView { state, caps, permits: Seq::empty(), next_id: 0 }),
            r@.wf(),
    {
        let r = ThrottleWorkgate { state, caps, outstanding: Vec::new(), next_id: 0 };
        assert(r@.permits =~= Seq::empty());
        r
    }

    /// Sets the caps new permits are judged by; outstanding ones stay.
    pub fn reconfigure(&mut self, state: ThrottleState, caps: ThrottleCaps)
        ensures
            final(self)@ == (GateView { state, caps, ..old(self)@ }),
            old(self)@.wf() ==> final(self)@.wf(),
    {
        self.state = state;
        self.caps = caps;
    }

    /// The caps in force.
    pub fn caps(&self) -> (r: ThrottleCaps)
        ensures
            r == self@.caps,
    {
        self.caps
    }

    fn count(&self, class: WorkClass) -> (r: usize)
        ensures
            r == in_use(self@.permits, class),
    {
        let mut count: usize = 0;
        let mut i: usize = 0;
        assert(self.outstanding@.take(0) =~= Seq::empty());
        while i < self.outstanding.len()
            invariant
                i <= self.outstanding@.len(),
                count == in_use(self.outstanding@.take(i as int), class),
                count <= i,
            decreases self.outstanding@.len() - i,
        {
            assert(self.outstanding@.take(i + 1).drop_last() =~= self.outstanding@.take(i as int));
            if self.outstanding[i].class == class {
                count = count + 1;
            }
            i = i + 1;
        }
        assert(self.outstanding@.take(i as int) =~= self.outstanding@);
        count
    }

    /// Gives out a permit unless the class is closed or full.
    pub fn try_acquire(&mut self, class: WorkClass) -> (r: Result<WorkPermit, WorkPermitDenied>)
        requires
            old(self)@.wf(),
            old(self)@.next_id < u64::MAX,
        ensures
            final(self)@.wf(),
            match denial(old(self)@.caps, old(self)@.permits, class) {
                Some(reason) => r == Err::<WorkPermit, WorkPermitDenied>(
                    WorkPermitDenied { class, reason },
                ) && final(self)@ == old(self)@,
                None => {
                    &&& r == Ok::<WorkPermit, WorkPermitDenied>(old(self)@.fresh(class))
                    &&& final(self)@ == (GateView {
                        permits: old(self)@.permits.push(old(self)@.fresh(class)),
                        next_id: old(self)@.next_id + 1,
                        ..old(self)@
                    })
                    &&& !old(self)@.held().contains(old(self)@.fresh(class))
                    &&& final(self)@.held() == old(self)@.held().insert(old(self)@.fresh(class))
                    &&& in_use(final(self)@.permits, class) <= class_cap(
                        final(self)@.caps,
                        class,
                    )
                },
            },
    {
        let closed = match class {
            WorkClass::Planner => None,
            WorkClass::Hash => if self.caps.allow_hashing {
                None
            } else {
                Some(WorkPermitDeniedReason::HashingDisabled)
            },
            WorkClass::Upload => if self.caps.allow_uploads {
                None
            } else {
                Some(WorkPermitDeniedReason::UploadsDisabled)
            },
            WorkClass::Download => if self.caps.allow_downloads {
                None
            } else {
                Some(WorkPermitDeniedReason::DownloadsDisabled)
            },
            WorkClass::Reconcile => if self.caps.allow_reconcile {
                None
            } else {
                Some(WorkPermitDeniedReason::ReconcileDisabled)
            },
        };
        if let Some(reason) = closed {
            return Err(WorkPermitDenied { class, reason });
        }
        let (cap, full): (usize, WorkPermitDeniedReason) = match class {
            WorkClass::Planner => (
                self.caps.planner_workers,
                WorkPermitDeniedReason::PlannerWorkersExhausted,
            ),
            WorkClass::Hash => (
                self.caps.hash_workers,
                WorkPermitDeniedReason::HashWorkersExhausted,
            ),
            WorkClass::Upload => (
                self.caps.upload_concurrency,
                WorkPermitDeniedReason::UploadConcurrencyExhausted,
            ),
            WorkClass::Download => (
                self.caps.download_concurrency,
                WorkPermitDeniedReason::DownloadConcurrencyExhausted,
            ),
            WorkClass::Reconcile => (1, WorkPermitDeniedReason::ReconcileAlreadyRunning),
        };
        if self.count(class) >= cap {
            return Err(WorkPermitDenied { class, reason: full });
        }
        let permit = WorkPermit { class, id: self.next_id };
        let ghost before = self@;
        self.outstanding.push(permit);
        self.next_id = self.next_id + 1;
        proof {
            assert(self@.permits.drop_last() =~= before.permits);
            assert(self@.permits =~= before.permits.push(permit));
            assert(!before.permits.contains(permit));
            assert forall|p: WorkPermit| self@.held().contains(p) == before.held().insert(
                permit,
            ).contains(p) by {
                if before.permits.contains(p) {
                    let i = choose|i: int| 0 <= i < before.permits.len() && before.permits[i] == p;
                    assert(self@.permits[i] == p);
                }
                assert(self@.permits[before.permits.len() as int] == permit);
                if self@.permits.contains(p) && p != permit {
                    let i = choose|i: int| 0 <= i < self@.permits.len() && self@.permits[i] == p;
                    assert(before.permits[i] == p);
                }
            }
            assert(self@.held() =~= before.held().insert(permit));
        }
        Ok(permit)
    }

    /// Takes a permit back; `false` if it is not outstanding.
    pub fn release(&mut self, permit: WorkPermit) -> (r: bool)
        requires
            old(self)@.wf(),
        ensures
            final(self)@.wf(),
            r == old(self)@.held().contains(permit),
            final(self)@ == (GateView { permits: final(self)@.permits, ..old(self)@ }),
            final(self)@.held() == old(self)@.held().remove(permit),
            forall|class: WorkClass| #[trigger]
                in_use(final(self)@.permits, class) == in_use(old(self)@.permits, class) - if r
                    && class == permit.class {
                    1int
                } else {
                    0int
                },
    {
        let mut i: usize = 0;
        while i < self.outstanding.len()
            invariant
                self@ == old(self)@,
                old(self)@.wf(),
                i <= self.outstanding@.len(),
                forall|j: int| 0 <= j < i ==> self.outstanding@[j] != permit,
            decreases self.outstanding@.len() - i,
        {
            if self.outstanding[i].id == permit.id && self.outstanding[i].class == permit.class {
                let ghost before = self.outstanding@;
                let _ = self.outstanding.remove(i);
                proof {
                    lemma_remove(before, i as int);
                }
                return true;
            }
            i = i + 1;
        }
        assert(!self@.held().contains(permit));
        assert(self@.held() =~= self@.held().remove(permit));
        false
    }

    /// The caps in force and the permits out.
    pub fn snapshot(&self) -> (r: WorkgateSnapshot)
        ensures
            r.state == self@.state,
            r.caps == self@.caps,
            r.active_planner_workers == in_use(self@.permits, WorkClass::Planner),
            r.active_hash_workers == in_use(self@.permits, WorkClass::Hash),
            r.active_uploads == in_use(self@.permits, WorkClass::Upload),
            r.active_downloads == in_use(self@.permits, WorkClass::Download),
            r.active_reconciles == in_use(self@.permits, WorkClass::Reconcile),
    {
        WorkgateSnapshot {
            state: self.state,
            caps: self.caps,
            active_planner_workers: self.count(WorkClass::Planner),
            active_hash_workers: self.count(WorkClass::Hash),
            active_uploads: self.count(WorkClass::Upload),
            active_downloads: self.count(WorkClass::Download),
            active_reconciles: self.count(WorkClass::Reconcile),
        }
    }
}

proof fn lemma_in_use_remove(s: Seq<WorkPermit>, i: int, class: WorkClass)
    requires
        0 <= i < s.len(),
    ensures
        in_use(s.remove(i), class) == in_use(s, class) - if s[i].class == class {
            1int
        } else {
            0int
        },
    decreases s.len(),
{
    if i == s.len() - 1 {
        assert(s.remove(i) =~= s.drop_last());
    } else {
        lemma_in_use_remove(s.drop_last(), i, class);
        assert(s.remove(i).drop_last() =~= s.drop_last().remove(i));
        assert(s.remove(i).last() == s.last());
    }
}

/// Removing one of distinct permits removes it from the set, and from the
/// count of its class alone.
proof fn lemma_remove(s: Seq<WorkPermit>, i: int)
    requires
        0 <= i < s.len(),
        s.no_duplicates(),
    ensures
        s.remove(i).to_set() == s.to_set().remove(s[i]),
        s.to_set().contains(s[i]),
        s.remove(i).no_duplicates(),
        forall|class: WorkClass| #[trigger]
            in_use(s.remove(i), class) == in_use(s, class) - if s[i].class == class {
                1int
            } else {
                0int
            },
{
    let t = s.remove(i);
    assert forall|p: WorkPermit| t.to_set().contains(p) == s.to_set().remove(s[i]).contains(p) by {
        if t.contains(p) {
            let j = choose|j: int| 0 <= j < t.len() && t[j] == p;
            if j < i {
                assert(s[j] == p);
            } else {
                assert(s[j + 1] == p);
            }
        }
        if s.contains(p) && p != s[i] {
            let j = choose|j: int| 0 <= j < s.len() && s[j] == p;
            if j < i {
                assert(t[j] == p);
            } else {
                assert(t[j - 1] == p);
            }
        }
    }
    assert(t.to_set() =~= s.to_set().remove(s[i]));
    assert forall|class: WorkClass| #[trigger]
        in_use(t, class) == in_use(s, class) - if s[i].class == class {
            1int
        } else {
            0int
        } by {
        lemma_in_use_remove(s, i, class);
    }
}

/// Combined work of a class never grows past its cap: a permit is given out
/// only below the cap, and giving one back only lowers the count.
pub proof fn law_admission_stays_under_the_cap(
    caps: ThrottleCaps,
    permits: Seq<WorkPermit>,
    class: WorkClass,
    permit: WorkPermit,
)
    requires
        denial(caps, permits, class) is None,
        permit.class == class,
    ensures
        in_use(permits.push(permit), class) <= class_cap(caps, class),
        forall|other: WorkClass|
            other != class ==> #[trigger] in_use(permits.push(permit), other) == in_use(
                permits,
                other,
            ),
{
    assert(permits.push(permit).drop_last() =~= permits);
}

// ---------------------------------------------------------------------------
// What the workgate is for
// ---------------------------------------------------------------------------

proof fn lemma_in_use_is_the_number(permits: Seq<WorkPermit>, class: WorkClass)
    ensures
        in_use(permits, class) == permits.filter(|p: WorkPermit| p.class == class).len(),
    decreases permits.len(),
{
    reveal(Seq::filter);
    if permits.len() > 0 {
        lemma_in_use_is_the_number(permits.drop_last(), class);
    }
}

/// A permit is given out exactly when the caps let its class run and fewer
/// permits of the class are out than they allow; reconciles run one at a time.
/// The permit is one that is not out yet, and a refusal changes nothing.
pub proof fn law_a_permit_is_given_out_below_the_cap(
    gate: &mut ThrottleWorkgate,
    class: WorkClass,
    r: Result<WorkPermit, WorkPermitDenied>,
)
    requires
        call_ensures(ThrottleWorkgate::try_acquire, (gate, class), r),
    ensures
        ({
            let out = old(gate)@.permits.filter(|p: WorkPermit| p.class == class).len();
            let caps = old(gate)@.caps;
            &&& r is Ok <==> match class {
                WorkClass::Planner => out < caps.planner_workers,
                WorkClass::Hash => caps.allow_hashing && out < caps.hash_workers,
                WorkClass::Upload => caps.allow_uploads && out < caps.upload_concurrency,
                WorkClass::Download => caps.allow_downloads && out < caps.download_concurrency,
                WorkClass::Reconcile => caps.allow_reconcile && out < 1,
            }
            &&& r matches Ok(permit) ==> permit.class == class && !old(gate)@.permits.contains(
                permit,
            ) && final(gate)@.permits == old(gate)@.permits.push(permit)
            &&& r matches Err(denied) ==> denied.class == class && final(gate)@.permits
                == old(gate)@.permits
            &&& final(gate)@.caps == caps
            &&& final(gate)@.state == old(gate)@.state
        }),
{
    lemma_in_use_is_the_number(old(gate)@.permits, class);
    if r is Ok {
        let permit = old(gate)@.fresh(class);
        assert(!old(gate)@.held().contains(permit));
        assert(old(gate)@.permits.contains(permit) ==> old(gate)@.held().contains(permit));
    }
}

/// Giving a permit back undoes its being given out; one that is not out is not
/// taken.
pub proof fn law_a_permit_given_back_is_free_again(
    gate: &mut ThrottleWorkgate,
    permit: WorkPermit,
    r: bool,
)
    requires
        call_ensures(ThrottleWorkgate::release, (gate, permit), r),
    ensures
        r <==> old(gate)@.permits.contains(permit),
        !final(gate)@.permits.contains(permit),
        forall|p: WorkPermit|
            p != permit ==> (#[trigger] final(gate)@.permits.contains(p) <==> old(
                gate,
            )@.permits.contains(p)),
        final(gate)@.caps == old(gate)@.caps,
        final(gate)@.state == old(gate)@.state,
        final(gate)@.next_id == old(gate)@.next_id,
{
    let (before, after) = (old(gate)@, final(gate)@);
    assert(before.held().contains(permit) <==> before.permits.contains(permit));
    assert forall|p: WorkPermit| p != permit implies (#[trigger] after.permits.contains(p)
        <==> before.permits.contains(p)) by {
        assert(after.held().contains(p) <==> before.held().contains(p));
    }
    assert(!after.held().contains(permit));
}

/// What the workgate shows is what is out.
pub proof fn law_the_snapshot_counts_what_is_out(gate: ThrottleWorkgate, r: WorkgateSnapshot)
    requires
        call_ensures(ThrottleWorkgate::snapshot, (&gate,), r),
    ensures
        r.caps == gate@.caps,
        r.state == gate@.state,
        r.active_planner_workers == gate@.permits.filter(
            |p: WorkPermit| p.class == WorkClass::Planner,
        ).len(),
        r.active_hash_workers == gate@.permits.filter(
            |p: WorkPermit| p.class == WorkClass::Hash,
        ).len(),
        r.active_uploads == gate@.permits.filter(
            |p: WorkPermit| p.class == WorkClass::Upload,
        ).len(),
        r.active_downloads == gate@.permits.filter(
            |p: WorkPermit| p.class == WorkClass::Download,
        ).len(),
        r.active_reconciles == gate@.permits.filter(
            |p: WorkPermit| p.class == WorkClass::Reconcile,
        ).len(),
{
    lemma_in_use_is_the_number(gate@.permits, WorkClass::Planner);
    lemma_in_use_is_the_number(gate@.permits, WorkClass::Hash);
    lemma_in_use_is_the_number(gate@.permits, WorkClass::Upload);
    lemma_in_use_is_the_number(gate@.permits, WorkClass::Download);
    lemma_in_use_is_the_number(gate@.permits, WorkClass::Reconcile);
}

} // verus!
