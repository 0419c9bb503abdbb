//! One daemon for several profiles: which of them tick, what a failure of one
//! does to the others, and the status of all.
use vstd::prelude::*;

use crate::app_state::RunState;
use crate::clock::{Duration, NANOS_PER_MILLI};
use crate::debounce::DEBOUNCE_TICK_MILLIS;
use crate::ipc_service::{run_state_label, run_state_name, DaemonStatusSnapshot, IntentDiagnostic,
    ProfileStatus, ResourceBudgetStatus};
use crate::path_map::PathMap;
use crate::paths::{within, FsPath, Part};
use crate::profiles::{ProfileView, ResolvedProfile};
use crate::records::SyncMode;
use crate::runtime_control::{RequestsView, RuntimeControl};
use crate::text::{concat, decimal, decimal_text, same_text};
use crate::timeline::{latest, TimelineBuffer};
use crate::workgate::ThrottleState;
use vstd::string::StringExecFns;

verus! {

/// Ticks of a profile that may fail in a row before it is suspended.
pub const MAX_CONSECUTIVE_PROFILE_TICK_ERRORS: u32 = 5;

/// Most rows of diagnostics in a status.
pub const DIAGNOSTICS_ROW_CAP: usize = 100;

/// Fewest rows of diagnostics a profile can have.
pub const DIAGNOSTICS_ROW_FLOOR: usize = 10;

/// Time between ticks without work, in milliseconds.
pub const IDLE_TICK_MILLIS: u64 = 2000;

/// A profile the daemon runs.
#[derive(Debug)]
pub struct ProfileSlot {
    profile: ResolvedProfile,
    control: RuntimeControl,
    consecutive_tick_errors: u32,
    failed: Option<String>,
}

pub struct SlotView {
    pub profile: ProfileView,
    pub requests: RequestsView,
    /// Ticks that failed since the last one that did not.
    pub errors: nat,
    /// Why the profile is suspended, if it is.
    pub failed: Option<Seq<char>>,
}

impl View for ProfileSlot {
    type V = SlotView;

    closed spec fn view(&self) -> SlotView {
        SlotView {
            profile: self.profile@,
            requests: self.control@,
            errors: self.consecutive_tick_errors as nat,
            failed: match self.failed {
                Some(reason) => Some(reason@),
                None => None,
            },
        }
    }
}

impl SlotView {
    /// A profile that runs has not used up its failures.
    pub open spec fn wf(self) -> bool {
        self.failed is None ==> self.errors < MAX_CONSECUTIVE_PROFILE_TICK_ERRORS
    }
}

/// A slot as it starts.
pub open spec fn fresh_slot(profile: ProfileView, failed: Option<Seq<char>>) -> SlotView {
    SlotView {
        profile,
        requests: RequestsView { pause: None, flush: false, reconcile: false },
        errors: 0,
        failed,
    }
}

pub open spec fn slot_views(slots: Seq<ProfileSlot>) -> Seq<SlotView> {
    slots.map_values(|s: ProfileSlot| s@)
}

/// How a tick of one profile went.
#[derive(Debug, PartialEq, Eq)]
pub enum TickOutcome {
    Ticked { pending_work: bool },
    Failed(String),
    Panicked(String),
}

pub enum OutcomeView {
    Ticked { pending_work: bool },
    Failed(Seq<char>),
    Panicked(Seq<char>),
}

impl View for TickOutcome {
    type V = OutcomeView;

    open spec fn view(&self) -> OutcomeView {
        match self {
            TickOutcome::Ticked { pending_work } => OutcomeView::Ticked {
                pending_work: *pending_work,
            },
            TickOutcome::Failed(error) => OutcomeView::Failed(error@),
            TickOutcome::Panicked(message) => OutcomeView::Panicked(message@),
        }
    }
}

/// Profiles that ticked and that are suspended, in one cycle.
#[derive(Clone, Copy, Debug, PartialEq, Eq, Structural)]
pub struct MultiTickReport {
    pub ticked_profiles: usize,
    pub failed_profiles: usize,
    pub any_pending_work: bool,
}

impl Default for MultiTickReport {
    fn default() -> (r: MultiTickReport)
        ensures
            r == (MultiTickReport {
                ticked_profiles: 0,
                failed_profiles: 0,
                any_pending_work: false,
            }),
    {
        MultiTickReport { ticked_profiles: 0, failed_profiles: 0, any_pending_work: false }
    }
}

/// Why a tick suspends its profile, if it does.
pub open spec fn suspension(slot: SlotView, outcome: OutcomeView) -> Option<Seq<char>> {
    match outcome {
        OutcomeView::Ticked { .. } => None,
        OutcomeView::Failed(error) => if slot.errors + 1 >= MAX_CONSECUTIVE_PROFILE_TICK_ERRORS {
            Some("repeated tick failures: "@ + error)
        } else {
            None
        },
        OutcomeView::Panicked(message) => Some("panicked: "@ + message),
    }
}

/// What is told of a suspension.
pub open spec fn suspension_note(outcome: OutcomeView) -> Seq<char> {
    match outcome {
        OutcomeView::Panicked(message) => "profile suspended after panic: "@ + message,
        _ => "profile suspended after repeated tick failures"@,
    }
}

/// A running profile after a tick.
pub open spec fn after_tick(slot: SlotView, outcome: OutcomeView) -> SlotView {
    SlotView {
        errors: match outcome {
            OutcomeView::Ticked { .. } => 0,
            OutcomeView::Failed(_) => slot.errors + 1,
            OutcomeView::Panicked(_) => slot.errors,
        },
        failed: suspension(slot, outcome),
        ..slot
    }
}

/// A running profile after ticks, as long as it runs.
pub open spec fn after_ticks(slot: SlotView, outcomes: Seq<OutcomeView>) -> SlotView
    decreases outcomes.len(),
{
    if outcomes.len() == 0 {
        slot
    } else {
        let before = after_ticks(slot, outcomes.drop_last());
        if before.failed is Some {
            before
        } else {
            after_tick(before, outcomes.last())
        }
    }
}

/// Failures at the end of a run of ticks.
pub open spec fn failing_tail(outcomes: Seq<OutcomeView>) -> nat
    decreases outcomes.len(),
{
    if outcomes.len() == 0 {
        0
    } else if outcomes.last() is Failed {
        failing_tail(outcomes.drop_last()) + 1
    } else {
        0
    }
}

/// Failures that do not come often enough in a row never suspend a profile
/// that does not panic.
pub proof fn law_scattered_failures_never_suspend(slot: SlotView, outcomes: Seq<OutcomeView>)
    requires
        slot.failed is None,
        slot.errors == 0,
        forall|i: int| 0 <= i < outcomes.len() ==> !((#[trigger] outcomes[i]) is Panicked),
        forall|i: int|
            0 <= i <= outcomes.len() ==> failing_tail(#[trigger] outcomes.take(i))
                < MAX_CONSECUTIVE_PROFILE_TICK_ERRORS,
    ensures
        after_ticks(slot, outcomes).failed is None,
        after_ticks(slot, outcomes).errors == failing_tail(outcomes),
    decreases outcomes.len(),
{
    assert(outcomes.take(outcomes.len() as int) =~= outcomes);
    if outcomes.len() > 0 {
        let front = outcomes.drop_last();
        assert forall|i: int| 0 <= i <= front.len() implies failing_tail(#[trigger] front.take(i))
            < MAX_CONSECUTIVE_PROFILE_TICK_ERRORS by {
            assert(front.take(i) =~= outcomes.take(i));
        }
        assert forall|i: int| 0 <= i < front.len() implies !((#[trigger] front[i]) is Panicked) by {
            assert(front[i] == outcomes[i]);
        }
        law_scattered_failures_never_suspend(slot, front);
    }
}

/// What the daemon says of a suspension, and the reason kept.
#[derive(Debug, PartialEq, Eq)]
pub struct Suspension {
    pub note: String,
    pub reason: String,
}

/// Facts of one profile's runtime that a status shows.
#[derive(Debug)]
pub struct SlotFacts {
    pub run_state: RunState,
    pub throttle_state: ThrottleState,
    pub throttle_reason: String,
    pub reason: String,
    pub provider_name: String,
    pub queue_depth: u64,
    pub failed_intents: u64,
    pub conflicts: u64,
    pub mirror_reverts: u64,
    pub mirror_deletes: u64,
    pub loop_suppressions: u64,
    pub dropped_incoming_events: u64,
    pub budget: Option<ResourceBudgetStatus>,
    pub slowed_down: bool,
    /// Rows of diagnostics, the most telling first.
    pub rows: Vec<IntentDiagnostic>,
}

/// One profile, for diagnostics.
#[derive(Debug, PartialEq, Eq)]
pub struct ProfileSummary {
    pub id: String,
    pub display_name: String,
    pub provider_kind: String,
    pub sync_mode: SyncMode,
    pub run_state: RunState,
    pub failed_reason: Option<String>,
    pub mirror_reverts: u64,
    pub mirror_deletes: u64,
    pub conflicts: u64,
}

/// A suspended profile is in error, whatever its runtime says.
pub open spec fn effective_state(slot: SlotView, facts: SlotFacts) -> RunState {
    if slot.failed is Some {
        RunState::Error
    } else {
        facts.run_state
    }
}

/// The higher, the more a state matters.
pub open spec fn state_rank(state: RunState) -> int {
    match state {
        RunState::Running => 0,
        RunState::Starting => 1,
        RunState::Paused => 2,
        RunState::Error => 3,
    }
}

/// How much a state matters.
pub fn run_state_rank(state: RunState) -> (r: i32)
    ensures
        r == state_rank(state),
{
    match state {
        RunState::Running => 0,
        RunState::Starting => 1,
        RunState::Paused => 2,
        RunState::Error => 3,
    }
}

/// `w` is the first of the profiles whose state matters most.
pub open spec fn is_worst(slots: Seq<SlotView>, facts: Seq<SlotFacts>, w: int) -> bool {
    &&& 0 <= w < slots.len()
    &&& forall|i: int|
        0 <= i < slots.len() ==> state_rank(effective_state(#[trigger] slots[i], facts[i]))
            <= state_rank(effective_state(slots[w], facts[w]))
    &&& forall|i: int|
        0 <= i < w ==> state_rank(effective_state(#[trigger] slots[i], facts[i])) < state_rank(
            effective_state(slots[w], facts[w]),
        )
}

/// Number of suspended profiles.
pub open spec fn suspended(slots: Seq<SlotView>) -> nat
    decreases slots.len(),
{
    if slots.len() == 0 {
        0
    } else {
        suspended(slots.drop_last()) + if slots.last().failed is Some {
            1nat
        } else {
            0nat
        }
    }
}

proof fn lemma_suspended_bound(slots: Seq<SlotView>)
    ensures
        suspended(slots) <= slots.len(),
    decreases slots.len(),
{
    if slots.len() > 0 {
        lemma_suspended_bound(slots.drop_last());
    }
}

// ---------------------------------------------------------------------------
// Totals
// ---------------------------------------------------------------------------

/// A count that stops at its limit.
pub open spec fn capped(total: int) -> int {
    if total > u64::MAX {
        u64::MAX as int
    } else {
        total
    }
}

fn plus(a: u64, b: u64) -> (r: u64)
    ensures
        r == capped(a + b),
{
    if b > u64::MAX - a {
        u64::MAX
    } else {
        a + b
    }
}

pub open spec fn total(facts: Seq<SlotFacts>, count: spec_fn(SlotFacts) -> u64) -> int
    decreases facts.len(),
{
    if facts.len() == 0 {
        0
    } else {
        total(facts.drop_last(), count) + count(facts.last())
    }
}

proof fn lemma_total(facts: Seq<SlotFacts>, count: spec_fn(SlotFacts) -> u64, i: int)
    requires
        0 <= i < facts.len(),
    ensures
        total(facts.take(i + 1), count) == total(facts.take(i), count) + count(facts[i]),
        total(facts.take(i), count) >= 0,
    decreases i,
{
    assert(facts.take(i + 1).drop_last() =~= facts.take(i));
    if i > 0 {
        lemma_total(facts, count, i - 1);
    } else {
        assert(facts.take(0).len() == 0);
    }
}

// ---------------------------------------------------------------------------
// Diagnostics
// ---------------------------------------------------------------------------

/// Rows one of `profiles` profiles can have.
pub open spec fn share_of(profiles: nat) -> nat {
    let share = DIAGNOSTICS_ROW_CAP as nat / if profiles == 0 {
        1
    } else {
        profiles
    };
    if share < DIAGNOSTICS_ROW_FLOOR {
        DIAGNOSTICS_ROW_FLOOR as nat
    } else {
        share
    }
}

/// Rows the next profile can have once `taken` are there.
pub open spec fn quota(profiles: nat, taken: nat) -> nat {
    if taken >= DIAGNOSTICS_ROW_CAP {
        0
    } else if share_of(profiles) < DIAGNOSTICS_ROW_CAP - taken {
        share_of(profiles)
    } else {
        (DIAGNOSTICS_ROW_CAP - taken) as nat
    }
}

/// Rows to ask the next profile for.
pub fn diagnostics_quota(profiles: usize, taken: usize) -> (r: usize)
    ensures
        r == quota(profiles as nat, taken as nat),
{
    if taken >= DIAGNOSTICS_ROW_CAP {
        return 0;
    }
    let divisor: usize = if profiles == 0 {
        1
    } else {
        profiles
    };
    let share: usize = DIAGNOSTICS_ROW_CAP / divisor;
    let share: usize = if share < DIAGNOSTICS_ROW_FLOOR {
        DIAGNOSTICS_ROW_FLOOR
    } else {
        share
    };
    let left: usize = DIAGNOSTICS_ROW_CAP - taken;
    if share < left {
        share
    } else {
        left
    }
}

/// The rows of the first `k` profiles.
pub open spec fn rows_of(facts: Seq<SlotFacts>, k: nat) -> Seq<IntentDiagnostic>
    decreases k,
{
    if k == 0 {
        Seq::empty()
    } else {
        let before = rows_of(facts, (k - 1) as nat);
        let rows = facts[k - 1].rows@;
        let room = quota(facts.len(), before.len());
        before + if rows.len() <= room {
            rows
        } else {
            rows.take(room as int)
        }
    }
}

/// Profile `k` has more to show than the status holds.
pub open spec fn cut_short(facts: Seq<SlotFacts>, k: nat) -> bool {
    let taken = rows_of(facts, k).len();
    let room = quota(facts.len(), taken);
    taken >= DIAGNOSTICS_ROW_CAP || (facts[k as int].rows@.len() >= room
        && facts[k as int].queue_depth > room)
}

/// A status never holds more rows of diagnostics than the cap.
pub proof fn law_diagnostics_are_bounded(facts: Seq<SlotFacts>, k: nat)
    requires
        k <= facts.len(),
    ensures
        rows_of(facts, k).len() <= DIAGNOSTICS_ROW_CAP,
    decreases k,
{
    if k > 0 {
        law_diagnostics_are_bounded(facts, (k - 1) as nat);
    }
}

// ---------------------------------------------------------------------------
// Status
// ---------------------------------------------------------------------------

/// A profile's line of the status.
pub open spec fn is_line(line: ProfileStatus, slot: SlotView, facts: SlotFacts) -> bool {
    &&& line.id@ == slot.profile.id
    &&& line.display_name@ == slot.profile.display_name
    &&& line.provider_name@ == slot.profile.provider_kind
    &&& line.sync_mode@ == slot.profile.scope.sync_mode.spelling()@
    &&& line.run_state@ == run_state_label(effective_state(slot, facts))@
    &&& line.reason@ == facts.reason@
    &&& line.queue_depth == facts.queue_depth
    &&& line.failed_intents == facts.failed_intents
    &&& line.conflicts == facts.conflicts
    &&& line.mirror_reverts == facts.mirror_reverts
    &&& line.mirror_deletes == facts.mirror_deletes
    &&& match line.suspended_reason {
        Some(reason) => slot.failed == Some(reason@),
        None => slot.failed is None,
    }
}

/// The heading of a status without profiles.
pub open spec fn is_empty_status(status: DaemonStatusSnapshot) -> bool {
    &&& status.run_state@ == run_state_label(RunState::Error)@
    &&& status.throttle_state == ThrottleState::Suspended
    &&& status.provider_name@ == "none"@
    &&& status.throttle_reason@ == "no enabled profiles"@
    &&& status.is_blank()
}

/// The reason in the heading; with several profiles, how many of them run.
pub open spec fn heading_reason(slots: Seq<SlotView>, reason: Seq<char>) -> Seq<char> {
    if slots.len() > 1 {
        decimal((slots.len() - suspended(slots)) as nat) + " of "@ + decimal(slots.len())
            + " profiles active; "@ + reason
    } else {
        reason
    }
}

/// The first budget that any profile reports.
pub open spec fn first_budget(facts: Seq<SlotFacts>) -> Option<ResourceBudgetStatus>
    decreases facts.len(),
{
    if facts.len() == 0 {
        None
    } else {
        match first_budget(facts.drop_last()) {
            Some(budget) => Some(budget),
            None => facts.last().budget,
        }
    }
}

/// Totals over the first `k` profiles.
pub open spec fn totals_upto(status: DaemonStatusSnapshot, facts: Seq<SlotFacts>) -> bool {
    &&& status.queue_depth == capped(total(facts, |f: SlotFacts| f.queue_depth))
    &&& status.failed_intents == capped(total(facts, |f: SlotFacts| f.failed_intents))
    &&& status.conflicts == capped(total(facts, |f: SlotFacts| f.conflicts))
    &&& status.mirror_reverts == capped(total(facts, |f: SlotFacts| f.mirror_reverts))
    &&& status.mirror_deletes == capped(total(facts, |f: SlotFacts| f.mirror_deletes))
    &&& status.loop_prevention_suppressions == capped(
        total(facts, |f: SlotFacts| f.loop_suppressions),
    )
    &&& status.dropped_incoming_events == capped(
        total(facts, |f: SlotFacts| f.dropped_incoming_events),
    )
}

/// The status of all profiles: the state that matters most, totals, a line for
/// each profile and a bounded slice of diagnostics.
pub open spec fn is_status(
    status: DaemonStatusSnapshot,
    slots: Seq<SlotView>,
    facts: Seq<SlotFacts>,
    w: int,
) -> bool {
    &&& is_worst(slots, facts, w)
    &&& status.run_state@ == run_state_label(effective_state(slots[w], facts[w]))@
    &&& status.throttle_state == facts[w].throttle_state
    &&& status.provider_name@ == facts[w].provider_name@
    &&& status.throttle_reason@ == heading_reason(slots, facts[w].throttle_reason@)
    &&& status.resource_budget == first_budget(facts)
    &&& status.config_restart_required is None
    &&& totals_upto(status, facts)
    &&& status.profiles@.len() == slots.len()
    &&& forall|i: int|
        0 <= i < slots.len() ==> is_line(#[trigger] status.profiles@[i], slots[i], facts[i])
    &&& status.intent_diagnostics@ == rows_of(facts, facts.len())
    &&& status.diagnostics_truncated == exists|i: nat|
        i < facts.len() && #[trigger] cut_short(facts, i)
}

fn copy_reason(reason: &Option<String>) -> (r: Option<String>)
    ensures
        match r {
            Some(text) => reason matches Some(original) && original@ == text@,
            None => reason is None,
        },
{
    match reason {
        Some(text) => Some(text.clone()),
        None => None,
    }
}

/// Profiles that run in one daemon.
#[derive(Debug)]
pub struct MultiProfileRuntime {
    slots: Vec<ProfileSlot>,
}

impl View for MultiProfileRuntime {
    type V = Seq<SlotView>;

    closed spec fn view(&self) -> Seq<SlotView> {
        slot_views(self.slots@)
    }
}

pub open spec fn all_wf(slots: Seq<SlotView>) -> bool {
    forall|i: int| 0 <= i < slots.len() ==> (#[trigger] slots[i]).wf()
}

impl MultiProfileRuntime {
    pub open spec fn wf(&self) -> bool {
        all_wf(self@)
    }

    pub fn new() -> (r: MultiProfileRuntime)
        ensures
            r@ == Seq::<SlotView>::empty(),
            r.wf(),
    {
        let r = MultiProfileRuntime { slots: Vec::new() };
        assert(r@ =~= Seq::<SlotView>::empty());
        r
    }

    /// Adds a profile; with a reason it starts suspended.
    pub fn add_profile(&mut self, profile: ResolvedProfile, failed: Option<String>)
        requires
            old(self).wf(),
        ensures
            final(self).wf(),
            final(self)@ == old(self)@.push(
                fresh_slot(
                    profile@,
                    match failed {
                        Some(reason) => Some(reason@),
                        None => None,
                    },
                ),
            ),
    {
        let ghost before = self@;
        let slot = ProfileSlot {
            profile,
            control: RuntimeControl::new(),
            consecutive_tick_errors: 0,
            failed,
        };
        self.slots.push(slot);
        assert(self@ =~= before.push(slot@));
        assert forall|i: int| 0 <= i < self@.len() implies (#[trigger] self@[i]).wf() by {
            if i < before.len() {
                assert(self@[i] == before[i]);
            }
        }
    }

    /// How many profiles the daemon runs.
    pub fn profile_count(&self) -> (r: usize)
        ensures
            r == self@.len(),
    {
        self.slots.len()
    }

    /// How many of them are suspended.
    pub fn failed_profile_count(&self) -> (r: usize)
        ensures
            r == suspended(self@),
    {
        let mut count: usize = 0;
        let mut i: usize = 0;
        assert(self@.take(0) =~= Seq::empty());
        while i < self.slots.len()
            invariant
                i <= self.slots@.len(),
                count <= i,
                count == suspended(self@.take(i as int)),
            decreases self.slots@.len() - i,
        {
            assert(self@.take(i + 1).drop_last() =~= self@.take(i as int));
            assert(self@[i as int] == self.slots@[i as int]@);
            if self.slots[i].failed.is_some() {
                count = count + 1;
            }
            i = i + 1;
        }
        assert(self@.take(i as int) =~= self@);
        count
    }

    /// Profile number `i`.
    pub fn profile(&self, i: usize) -> (r: &ResolvedProfile)
        requires
            i < self@.len(),
        ensures
            r@ == self@[i as int].profile,
    {
        assert(self@[i as int] == self.slots@[i as int]@);
        &self.slots[i].profile
    }

    /// Requests that wait for profile number `i`.
    pub fn control(&mut self, i: usize) -> (r: &mut RuntimeControl)
        requires
            i < old(self)@.len(),
        ensures
            r@ == old(self)@[i as int].requests,
            final(self)@ == old(self)@.update(
                i as int,
                SlotView { requests: final(r)@, ..old(self)@[i as int] },
            ),
    {
        assert(self@[i as int] == self.slots@[i as int]@);
        let r = &mut self.slots[i].control;
        r
    }

    /// Number of the profile with an id.
    pub fn runtime_for(&self, profile_id: &str) -> (r: Option<usize>)
        ensures
            match r {
                Some(i) => is_first_with(self@, profile_id@, i as int),
                None => forall|i: int|
                    0 <= i < self@.len() ==> (#[trigger] self@[i]).profile.id != profile_id@,
            },
    {
        let mut i: usize = 0;
        while i < self.slots.len()
            invariant
                i <= self.slots@.len(),
                forall|j: int|
                    0 <= j < i ==> (#[trigger] self@[j]).profile.id != profile_id@,
            decreases self.slots@.len() - i,
        {
            assert(self@[i as int] == self.slots@[i as int]@);
            if same_text(self.slots[i].profile.id.as_str(), profile_id) {
                return Some(i);
            }
            i = i + 1;
        }
        None
    }

    /// The next profile to tick, from `from` on: suspended ones do not tick.
    pub fn next_live(&self, from: usize) -> (r: Option<usize>)
        ensures
            match r {
                Some(i) => {
                    &&& from <= i < self@.len()
                    &&& self@[i as int].failed is None
                    &&& forall|j: int|
                        from <= j < i ==> (#[trigger] self@[j]).failed is Some
                },
                None => forall|j: int|
                    from <= j < self@.len() ==> (#[trigger] self@[j]).failed is Some,
            },
    {
        let mut i: usize = from;
        while i < self.slots.len()
            invariant
                from <= i,
                forall|j: int| from <= j < i ==> (#[trigger] self@[j]).failed is Some,
            decreases self.slots@.len() - i,
        {
            assert(self@[i as int] == self.slots@[i as int]@);
            if self.slots[i].failed.is_none() {
                return Some(i);
            }
            i = i + 1;
        }
        None
    }

    /// Starts a cycle: the requests of the daemon's control go to every
    /// profile. The report counts the profiles that are suspended.
    pub fn begin_cycle(&mut self, external: &mut RuntimeControl) -> (r: MultiTickReport)
        requires
            old(self).wf(),
        ensures
            final(self).wf(),
            broadcast_to(old(self)@, old(external)@, final(self)@),
            final(external)@ == (RequestsView { pause: None, flush: false, reconcile: false }),
            r == (MultiTickReport {
                ticked_profiles: 0,
                failed_profiles: suspended(old(self)@) as usize,
                any_pending_work: false,
            }),
            suspended(old(self)@) <= usize::MAX,
    {
        let failed: usize = self.failed_profile_count();
        let pause = external.take_pause_request();
        let flush = external.take_flush_request();
        let reconcile = external.take_reconcile_request();
        let ghost requests = old(external)@;
        let ghost before = self@;
        let mut i: usize = 0;
        while i < self.slots.len()
            invariant
                i <= self.slots@.len(),
                self@.len() == before.len(),
                pause == requests.pause,
                flush == requests.flush,
                reconcile == requests.reconcile,
                forall|j: int|
                    0 <= j < i ==> #[trigger] self@[j] == with_requests(before[j], requests),
                forall|j: int| i <= j < self@.len() ==> #[trigger] self@[j] == before[j],
            decreases self.slots@.len() - i,
        {
            let ghost here = self@;
            assert(self@[i as int] == self.slots@[i as int]@);
            let control = &mut self.slots[i].control;
            match pause {
                Some(true) => control.request_pause(),
                Some(false) => control.request_resume(),
                None => {},
            }
            if flush {
                control.request_flush();
            }
            if reconcile {
                control.request_reconcile();
            }
            assert(self@ =~= here.update(i as int, with_requests(before[i as int], requests)));
            i = i + 1;
        }
        assert(broadcast_to(before, requests, self@));
        assert forall|j: int| 0 <= j < self@.len() implies (#[trigger] self@[j]).wf() by {
            assert(before[j].wf());
        }
        MultiTickReport { ticked_profiles: 0, failed_profiles: failed, any_pending_work: false }
    }

    /// Takes note of a tick of profile number `i`. A failure touches no other
    /// profile.
    pub fn record_tick(
        &mut self,
        i: usize,
        outcome: TickOutcome,
        report: &mut MultiTickReport,
    ) -> (r: Option<Suspension>)
        requires
            old(self).wf(),
            i < old(self)@.len(),
            old(self)@[i as int].failed is None,
            old(report).ticked_profiles < usize::MAX,
            old(report).failed_profiles < usize::MAX,
        ensures
            final(self).wf(),
            final(self)@ == old(self)@.update(
                i as int,
                after_tick(old(self)@[i as int], outcome@),
            ),
            match suspension(old(self)@[i as int], outcome@) {
                Some(reason) => r matches Some(told) && told.reason@ == reason && told.note@
                    == suspension_note(outcome@),
                None => r is None,
            },
            *final(report) == (MultiTickReport {
                ticked_profiles: (old(report).ticked_profiles + if outcome is Ticked {
                    1int
                } else {
                    0
                }) as usize,
                failed_profiles: (old(report).failed_profiles + if suspension(
                    old(self)@[i as int],
                    outcome@,
                ) is Some {
                    1int
                } else {
                    0
                }) as usize,
                any_pending_work: old(report).any_pending_work || (outcome matches
                    TickOutcome::Ticked { pending_work } && pending_work),
            }),
    {
        let ghost before = self@;
        assert(self@[i as int] == self.slots@[i as int]@);
        assert(before[i as int].wf());
        let told = match outcome {
            TickOutcome::Ticked { pending_work } => {
                self.slots[i].consecutive_tick_errors = 0;
                report.ticked_profiles = report.ticked_profiles + 1;
                report.any_pending_work = report.any_pending_work || pending_work;
                None
            },
            TickOutcome::Failed(error) => {
                let errors: u32 = self.slots[i].consecutive_tick_errors + 1;
                self.slots[i].consecutive_tick_errors = errors;
                if errors >= MAX_CONSECUTIVE_PROFILE_TICK_ERRORS {
                    let reason = concat("repeated tick failures: ", error.as_str());
                    self.slots[i].failed = Some(reason.clone());
                    report.failed_profiles = report.failed_profiles + 1;
                    Some(
                        Suspension {
                            note: "profile suspended after repeated tick failures".to_owned(),
                            reason,
                        },
                    )
                } else {
                    None
                }
            },
            TickOutcome::Panicked(message) => {
                let reason = concat("panicked: ", message.as_str());
                self.slots[i].failed = Some(reason.clone());
                report.failed_profiles = report.failed_profiles + 1;
                Some(
                    Suspension {
                        note: concat("profile suspended after panic: ", message.as_str()),
                        reason,
                    },
                )
            },
        };
        assert(self@ =~= before.update(i as int, after_tick(before[i as int], outcome@)));
        assert forall|j: int| 0 <= j < self@.len() implies (#[trigger] self@[j]).wf() by {
            if j != i {
                assert(self@[j] == before[j]);
            }
        }
        told
    }

    /// Suspends the profile with an id; every other one keeps running.
    pub fn suspend(&mut self, profile_id: &str, reason: String) -> (r: bool)
        requires
            old(self).wf(),
        ensures
            final(self).wf(),
            if r {
                exists|i: int|
                    #[trigger] is_first_with(old(self)@, profile_id@, i) && final(self)@ == old(
                        self,
                    )@.update(i, SlotView { failed: Some(reason@), ..old(self)@[i] })
            } else {
                &&& final(self)@ == old(self)@
                &&& forall|i: int|
                    0 <= i < old(self)@.len() ==> (#[trigger] old(self)@[i]).profile.id
                        != profile_id@
            },
    {
        let ghost before = self@;
        match self.runtime_for(profile_id) {
            Some(i) => {
                assert(self@[i as int] == self.slots@[i as int]@);
                self.slots[i].failed = Some(reason);
                assert(self@ =~= before.update(
                    i as int,
                    SlotView { failed: Some(reason@), ..before[i as int] },
                ));
                assert forall|j: int| 0 <= j < self@.len() implies (#[trigger] self@[j]).wf() by {
                    if j != i {
                        assert(self@[j] == before[j]);
                    }
                }
                assert(is_first_with(before, profile_id@, i as int));
                true
            },
            None => false,
        }
    }

    /// Whether the daemon ends: it has profiles and every one is suspended.
    pub fn every_profile_failed(&self) -> (r: bool)
        ensures
            r == (self@.len() > 0 && forall|i: int|
                0 <= i < self@.len() ==> (#[trigger] self@[i]).failed is Some),
    {
        if self.slots.len() == 0 {
            return false;
        }
        self.next_live(0).is_none()
    }

    /// What the transfer tuner goes by: whether a running profile is slowed
    /// down, and the work queued for the running profiles.
    pub fn tuning_signal(&self, facts: &Vec<SlotFacts>) -> (r: (bool, u64))
        requires
            facts@.len() == self@.len(),
        ensures
            r.0 == exists|i: int|
                0 <= i < self@.len() && self@[i].failed is None && (
                #[trigger] facts@[i]).slowed_down,
            r.1 == capped(live_depth(self@, facts@)),
    {
        let mut slowed = false;
        let mut depth: u64 = 0;
        let mut i: usize = 0;
        while i < self.slots.len()
            invariant
                facts@.len() == self@.len(),
                i <= self.slots@.len(),
                self@.len() == self.slots@.len(),
                slowed == exists|j: int|
                    0 <= j < i && self@[j].failed is None && (#[trigger] facts@[j]).slowed_down,
                depth == capped(live_depth(self@.take(i as int), facts@.take(i as int))),
                live_depth(self@.take(i as int), facts@.take(i as int)) >= 0,
            decreases self.slots@.len() - i,
        {
            assert(self@[i as int] == self.slots@[i as int]@);
            assert(self@.take(i + 1).drop_last() =~= self@.take(i as int));
            assert(facts@.take(i + 1).drop_last() =~= facts@.take(i as int));
            if self.slots[i].failed.is_none() {
                if facts[i].slowed_down {
                    slowed = true;
                }
                depth = plus(depth, facts[i].queue_depth);
            }
            i = i + 1;
        }
        assert(self@.take(i as int) =~= self@);
        assert(facts@.take(i as int) =~= facts@);
        (slowed, depth)
    }

    /// The profiles, for diagnostics.
    pub fn profile_summaries(&self, facts: &Vec<SlotFacts>) -> (r: Vec<ProfileSummary>)
        requires
            facts@.len() == self@.len(),
        ensures
            r@.len() == self@.len(),
            forall|i: int|
                0 <= i < self@.len() ==> is_summary(#[trigger] r@[i], self@[i], facts@[i]),
    {
        let mut summaries: Vec<ProfileSummary> = Vec::new();
        let mut i: usize = 0;
        while i < self.slots.len()
            invariant
                facts@.len() == self@.len(),
                self@.len() == self.slots@.len(),
                i <= self.slots@.len(),
                summaries@.len() == i,
                forall|j: int|
                    0 <= j < i ==> is_summary(#[trigger] summaries@[j], self@[j], facts@[j]),
            decreases self.slots@.len() - i,
        {
            assert(self@[i as int] == self.slots@[i as int]@);
            let slot = &self.slots[i];
            summaries.push(
                ProfileSummary {
                    id: slot.profile.id.clone(),
                    display_name: slot.profile.display_name.clone(),
                    provider_kind: slot.profile.provider_kind.clone(),
                    sync_mode: slot.profile.scope.sync_mode,
                    run_state: facts[i].run_state,
                    failed_reason: copy_reason(&slot.failed),
                    mirror_reverts: facts[i].mirror_reverts,
                    mirror_deletes: facts[i].mirror_deletes,
                    conflicts: facts[i].conflicts,
                },
            );
            i = i + 1;
        }
        summaries
    }

    fn slot_state(&self, facts: &Vec<SlotFacts>, i: usize) -> (r: RunState)
        requires
            facts@.len() == self@.len(),
            i < self@.len(),
        ensures
            r == effective_state(self@[i as int], facts@[i as int]),
    {
        assert(self@[i as int] == self.slots@[i as int]@);
        if self.slots[i].failed.is_some() {
            RunState::Error
        } else {
            facts[i].run_state
        }
    }

    fn worst(&self, facts: &Vec<SlotFacts>) -> (r: usize)
        requires
            facts@.len() == self@.len(),
            self@.len() > 0,
        ensures
            is_worst(self@, facts@, r as int),
    {
        let mut worst: usize = 0;
        let mut i: usize = 1;
        while i < self.slots.len()
            invariant
                facts@.len() == self@.len(),
                self@.len() == self.slots@.len(),
                worst < i <= self@.len(),
                is_worst(self@.take(i as int), facts@, worst as int),
            decreases self.slots@.len() - i,
        {
            let ghost front = self@.take(i as int);
            let ghost next = self@.take(i + 1);
            assert forall|j: int| 0 <= j < i implies #[trigger] next[j] == front[j] by {}
            let candidate: i32 = run_state_rank(self.slot_state(facts, i));
            let current: i32 = run_state_rank(self.slot_state(facts, worst));
            assert(front[worst as int] == self@[worst as int]);
            assert(next[i as int] == self@[i as int]);
            assert forall|j: int| 0 <= j < i implies state_rank(
                effective_state(#[trigger] next[j], facts@[j]),
            ) <= current by {
                assert(next[j] == front[j]);
            }
            assert forall|j: int| 0 <= j < worst implies state_rank(
                effective_state(#[trigger] next[j], facts@[j]),
            ) < current by {
                assert(next[j] == front[j]);
            }
            if candidate > current {
                worst = i;
            }
            i = i + 1;
        }
        assert(self@.take(self@.len() as int) =~= self@);
        worst
    }

    fn heading(&self, facts: &Vec<SlotFacts>, worst: usize) -> (r: DaemonStatusSnapshot)
        requires
            facts@.len() == self@.len(),
            worst < self@.len(),
        ensures
            r.run_state@ == run_state_label(
                effective_state(self@[worst as int], facts@[worst as int]),
            )@,
            r.throttle_state == facts@[worst as int].throttle_state,
            r.provider_name@ == facts@[worst as int].provider_name@,
            r.throttle_reason@ == heading_reason(self@, facts@[worst as int].throttle_reason@),
            r.is_blank(),
    {
        let reason = if self.slots.len() > 1 {
            proof {
                lemma_suspended_bound(self@);
            }
            let live: usize = self.slots.len() - self.failed_profile_count();
            let live_text = decimal_text(live as u128);
            let all_text = decimal_text(self.slots.len() as u128);
            let mut reason = concat(live_text.as_str(), " of ");
            reason.append(all_text.as_str());
            reason.append(" profiles active; ");
            reason.append(facts[worst].throttle_reason.as_str());
            reason
        } else {
            facts[worst].throttle_reason.clone()
        };
        DaemonStatusSnapshot::headed(
            run_state_name(self.slot_state(facts, worst)).to_owned(),
            facts[worst].throttle_state,
            facts[worst].provider_name.clone(),
            reason,
        )
    }

    fn line(&self, facts: &Vec<SlotFacts>, i: usize) -> (r: ProfileStatus)
        requires
            facts@.len() == self@.len(),
            i < self@.len(),
        ensures
            is_line(r, self@[i as int], facts@[i as int]),
    {
        assert(self@[i as int] == self.slots@[i as int]@);
        let slot = &self.slots[i];
        ProfileStatus {
            id: slot.profile.id.clone(),
            display_name: slot.profile.display_name.clone(),
            provider_name: slot.profile.provider_kind.clone(),
            sync_mode: slot.profile.scope.sync_mode.as_config_value().to_owned(),
            run_state: run_state_name(self.slot_state(facts, i)).to_owned(),
            reason: facts[i].reason.clone(),
            queue_depth: facts[i].queue_depth,
            failed_intents: facts[i].failed_intents,
            conflicts: facts[i].conflicts,
            mirror_reverts: facts[i].mirror_reverts,
            mirror_deletes: facts[i].mirror_deletes,
            suspended_reason: copy_reason(&slot.failed),
        }
    }
}

fn add_counts(status: &mut DaemonStatusSnapshot, facts: &Vec<SlotFacts>, i: usize)
    requires
        i < facts@.len(),
        totals_upto(*old(status), facts@.take(i as int)),
    ensures
        totals_upto(*final(status), facts@.take(i + 1)),
        final(status).run_state == old(status).run_state,
        final(status).throttle_state == old(status).throttle_state,
        final(status).provider_name == old(status).provider_name,
        final(status).throttle_reason == old(status).throttle_reason,
        final(status).profiles == old(status).profiles,
        final(status).intent_diagnostics == old(status).intent_diagnostics,
        final(status).diagnostics_truncated == old(status).diagnostics_truncated,
        final(status).resource_budget == old(status).resource_budget,
        final(status).config_restart_required == old(status).config_restart_required,
{
    proof {
        lemma_total(facts@, |f: SlotFacts| f.queue_depth, i as int);
        lemma_total(facts@, |f: SlotFacts| f.failed_intents, i as int);
        lemma_total(facts@, |f: SlotFacts| f.conflicts, i as int);
        lemma_total(facts@, |f: SlotFacts| f.mirror_reverts, i as int);
        lemma_total(facts@, |f: SlotFacts| f.mirror_deletes, i as int);
        lemma_total(facts@, |f: SlotFacts| f.loop_suppressions, i as int);
        lemma_total(facts@, |f: SlotFacts| f.dropped_incoming_events, i as int);
    }
    let fact = &facts[i];
    status.queue_depth = plus(status.queue_depth, fact.queue_depth);
    status.failed_intents = plus(status.failed_intents, fact.failed_intents);
    status.conflicts = plus(status.conflicts, fact.conflicts);
    status.mirror_reverts = plus(status.mirror_reverts, fact.mirror_reverts);
    status.mirror_deletes = plus(status.mirror_deletes, fact.mirror_deletes);
    status.loop_prevention_suppressions = plus(
        status.loop_prevention_suppressions,
        fact.loop_suppressions,
    );
    status.dropped_incoming_events = plus(
        status.dropped_incoming_events,
        fact.dropped_incoming_events,
    );
}

/// Adds the rows of profile number `i`, as far as there is room. `true` when
/// it has more to show.
fn add_rows(rows: &mut Vec<IntentDiagnostic>, facts: &Vec<SlotFacts>, i: usize) -> (r: bool)
    requires
        i < facts@.len(),
        old(rows)@ == rows_of(facts@, i as nat),
    ensures
        final(rows)@ == rows_of(facts@, (i + 1) as nat),
        r == cut_short(facts@, i as nat),
{
    let taken: usize = rows.len();
    let room: usize = diagnostics_quota(facts.len(), taken);
    let fact = &facts[i];
    let ghost before = rows@;
    let mut k: usize = 0;
    while k < fact.rows.len() && k < room
        invariant
            k <= fact.rows@.len(),
            k <= room,
            rows@ == before + fact.rows@.take(k as int),
        decreases fact.rows@.len() - k,
    {
        rows.push(fact.rows[k].clone());
        k = k + 1;
        assert(rows@ =~= before + fact.rows@.take(k as int));
    }
    assert(fact.rows@.take(fact.rows@.len() as int) =~= fact.rows@);
    assert(rows@ == rows_of(facts@, (i + 1) as nat));
    taken >= DIAGNOSTICS_ROW_CAP || (fact.rows.len() >= room && fact.queue_depth > room as u64)
}

impl MultiProfileRuntime {
    /// One status for the whole daemon.
    pub fn aggregate_status(&self, facts: &Vec<SlotFacts>) -> (r: DaemonStatusSnapshot)
        requires
            facts@.len() == self@.len(),
        ensures
            if self@.len() == 0 {
                is_empty_status(r)
            } else {
                exists|w: int| #[trigger] is_status(r, self@, facts@, w)
            },
    {
        if self.slots.len() == 0 {
            return DaemonStatusSnapshot::headed(
                run_state_name(RunState::Error).to_owned(),
                ThrottleState::Suspended,
                "none".to_owned(),
                "no enabled profiles".to_owned(),
            );
        }
        let worst: usize = self.worst(facts);
        let mut status = self.heading(facts, worst);
        let ghost head = status;
        let mut lines: Vec<ProfileStatus> = Vec::new();
        let mut rows: Vec<IntentDiagnostic> = Vec::new();
        let mut truncated = false;
        let mut budget: Option<ResourceBudgetStatus> = None;
        let mut i: usize = 0;
        assert(facts@.take(0) =~= Seq::empty());
        while i < self.slots.len()
            invariant
                facts@.len() == self@.len(),
                self@.len() == self.slots@.len(),
                i <= self@.len(),
                status.run_state == head.run_state,
                status.throttle_state == head.throttle_state,
                status.provider_name == head.provider_name,
                status.throttle_reason == head.throttle_reason,
                status.config_restart_required is None,
                totals_upto(status, facts@.take(i as int)),
                lines@.len() == i,
                forall|j: int|
                    0 <= j < i ==> is_line(#[trigger] lines@[j], self@[j], facts@[j]),
                rows@ == rows_of(facts@, i as nat),
                truncated == exists|j: nat| j < i && #[trigger] cut_short(facts@, j),
                budget == first_budget(facts@.take(i as int)),
            decreases self.slots@.len() - i,
        {
            assert(facts@.take(i + 1).drop_last() =~= facts@.take(i as int));
            lines.push(self.line(facts, i));
            add_counts(&mut status, facts, i);
            let cut = add_rows(&mut rows, facts, i);
            assert(cut == cut_short(facts@, i as nat));
            truncated = truncated || cut;
            if budget.is_none() {
                budget = facts[i].budget;
            }
            i = i + 1;
        }
        assert(facts@.take(i as int) =~= facts@);
        status.profiles = lines;
        status.intent_diagnostics = rows;
        status.diagnostics_truncated = truncated;
        status.resource_budget = budget;
        assert(is_status(status, self@, facts@, worst as int));
        status
    }
}

/// The slot with requests passed on.
pub open spec fn with_requests(slot: SlotView, asked: RequestsView) -> SlotView {
    SlotView {
        requests: RequestsView {
            pause: if asked.pause is Some {
                asked.pause
            } else {
                slot.requests.pause
            },
            flush: slot.requests.flush || asked.flush,
            reconcile: slot.requests.reconcile || asked.reconcile,
        },
        ..slot
    }
}

/// Every profile has the requests.
pub open spec fn broadcast_to(
    before: Seq<SlotView>,
    asked: RequestsView,
    after: Seq<SlotView>,
) -> bool {
    after.len() == before.len() && forall|i: int|
        0 <= i < before.len() ==> #[trigger] after[i] == with_requests(before[i], asked)
}

/// `i` is the first profile with an id.
pub open spec fn is_first_with(slots: Seq<SlotView>, id: Seq<char>, i: int) -> bool {
    &&& 0 <= i < slots.len()
    &&& slots[i].profile.id == id
    &&& forall|j: int| 0 <= j < i ==> (#[trigger] slots[j]).profile.id != id
}

/// Work queued for the profiles that run.
pub open spec fn live_depth(slots: Seq<SlotView>, facts: Seq<SlotFacts>) -> int
    decreases slots.len(),
{
    if slots.len() == 0 {
        0
    } else {
        live_depth(slots.drop_last(), facts.drop_last()) + if slots.last().failed is None {
            facts.last().queue_depth as int
        } else {
            0
        }
    }
}

pub open spec fn is_summary(summary: ProfileSummary, slot: SlotView, facts: SlotFacts) -> bool {
    &&& summary.id@ == slot.profile.id
    &&& summary.display_name@ == slot.profile.display_name
    &&& summary.provider_kind@ == slot.profile.provider_kind
    &&& summary.sync_mode == slot.profile.scope.sync_mode
    &&& summary.run_state == facts.run_state
    &&& match summary.failed_reason {
        Some(reason) => slot.failed == Some(reason@),
        None => slot.failed is None,
    }
    &&& summary.mirror_reverts == facts.mirror_reverts
    &&& summary.mirror_deletes == facts.mirror_deletes
    &&& summary.conflicts == facts.conflicts
}


/// A status reports an error as soon as one profile is suspended.
pub proof fn law_a_suspended_profile_shows(
    status: DaemonStatusSnapshot,
    slots: Seq<SlotView>,
    facts: Seq<SlotFacts>,
    w: int,
    i: int,
)
    requires
        is_status(status, slots, facts, w),
        0 <= i < slots.len(),
        slots[i].failed is Some,
    ensures
        status.run_state@ == run_state_label(RunState::Error)@,
        status.profiles@[i].suspended_reason is Some,
{
    assert(state_rank(effective_state(slots[i], facts[i])) == 3);
    assert(is_line(status.profiles@[i], slots[i], facts[i]));
}

// ---------------------------------------------------------------------------
// Start and pace
// ---------------------------------------------------------------------------

/// How starting one profile went; a step that was not taken left no error.
#[derive(Debug, PartialEq, Eq)]
pub struct StartFacts {
    /// Its durable state could not be opened.
    pub state_error: Option<String>,
    /// Its provider does not exist.
    pub provider_error: Option<String>,
    /// Its runtime could not be put together.
    pub compose_error: Option<String>,
    /// Its first reconcile could not be scheduled.
    pub schedule_error: Option<String>,
}

/// Why a profile starts suspended, if it does.
pub open spec fn start_failure(provider_kind: Seq<char>, facts: StartFacts) -> Option<Seq<char>> {
    match (facts.provider_error, facts.schedule_error) {
        (Some(error), _) => Some("invalid provider '"@ + provider_kind + "': "@ + error@),
        (None, Some(error)) => Some("could not schedule startup reconcile: "@ + error@),
        (None, None) => None,
    }
}

/// Whether the profile's first reconcile is to be scheduled: it is enabled,
/// its state could be opened, its runtime put together and its provider found.
pub open spec fn reconciles_at_start(profile: ResolvedProfile, facts: StartFacts) -> bool {
    &&& profile.enabled
    &&& facts.state_error is None
    &&& facts.compose_error is None
    &&& facts.provider_error is None
}

/// Whether the profile's first reconcile is to be scheduled. One that starts
/// suspended does no sync work.
pub fn wants_startup_reconcile(profile: &ResolvedProfile, facts: &StartFacts) -> (r: bool)
    ensures
        r == reconciles_at_start(*profile, *facts),
{
    profile.enabled && facts.state_error.is_none() && facts.compose_error.is_none()
        && facts.provider_error.is_none()
}

/// A profile without a provider starts suspended, and its first reconcile is
/// not scheduled: an empty cloud in the provider's stead would have the local
/// files deleted.
pub proof fn law_without_a_provider_nothing_is_reconciled(
    profile: ResolvedProfile,
    facts: StartFacts,
)
    requires
        facts.provider_error is Some,
    ensures
        start_failure(profile@.provider_kind, facts) is Some,
        !reconciles_at_start(profile, facts),
        started(seq![profile], seq![facts]).len() > 0 ==> started(
            seq![profile],
            seq![facts],
        )[0].failed is Some,
{
    let one = seq![profile];
    assert(one.drop_last() =~= Seq::empty());
    assert(started(one.drop_last(), seq![facts]).len() == 0);
    assert(one.last() == profile);
}

/// The slots the profiles get. A disabled profile has none, and neither has
/// one whose state cannot be opened or whose runtime cannot be put together:
/// it is left out, and the others start.
pub open spec fn started(profiles: Seq<ResolvedProfile>, facts: Seq<StartFacts>) -> Seq<SlotView>
    decreases profiles.len(),
{
    if profiles.len() == 0 {
        Seq::empty()
    } else {
        let rest = started(profiles.drop_last(), facts);
        let profile = profiles.last();
        let found = facts[profiles.len() - 1];
        if profile.enabled && found.state_error is None && found.compose_error is None {
            rest.push(fresh_slot(profile@, start_failure(profile@.provider_kind, found)))
        } else {
            rest
        }
    }
}

/// Why a profile starts suspended, if it does: a provider that does not exist
/// must not be replaced by one that shows an empty cloud.
fn startup_failure(provider_kind: &str, facts: &StartFacts) -> (r: Option<String>)
    ensures
        match start_failure(provider_kind@, *facts) {
            Some(expected) => r matches Some(reason) && reason@ == expected,
            None => r is None,
        },
{
    match (&facts.provider_error, &facts.schedule_error) {
        (Some(error), _) => {
            let mut reason = concat("invalid provider '", provider_kind);
            reason.append("': ");
            reason.append(error.as_str());
            Some(reason)
        },
        (None, Some(error)) => Some(
            concat("could not schedule startup reconcile: ", error.as_str()),
        ),
        (None, None) => None,
    }
}

impl MultiProfileRuntime {
    /// The slots of the profiles that start.
    pub fn start_with_state_root(profiles: Vec<ResolvedProfile>, facts: &Vec<StartFacts>) -> (r:
        MultiProfileRuntime)
        requires
            facts@.len() == profiles@.len(),
        ensures
            r.wf(),
            r@ == started(profiles@, facts@),
    {
        let ghost all = profiles@;
        let mut rest = profiles;
        let mut runtime = MultiProfileRuntime::new();
        let n: usize = facts.len();
        let mut i: usize = 0;
        assert(all.take(0) =~= Seq::empty());
        assert(all.skip(0) =~= all);
        while i < n
            invariant
                n == facts@.len(),
                n == all.len(),
                i <= n,
                rest@ == all.skip(i as int),
                runtime.wf(),
                runtime@ == started(all.take(i as int), facts@),
            decreases n - i,
        {
            assert(all.take(i + 1).drop_last() =~= all.take(i as int));
            let profile = rest.remove(0);
            assert(rest@ =~= all.skip(i + 1));
            let found = &facts[i];
            if profile.enabled && found.state_error.is_none() && found.compose_error.is_none() {
                let failed = startup_failure(profile.provider_kind.as_str(), found);
                runtime.add_profile(profile, failed);
            }
            i = i + 1;
        }
        assert(all.take(i as int) =~= all);
        runtime
    }
}

/// Time to the next cycle: short while there is work.
pub fn next_wait(report: &MultiTickReport) -> (r: Duration)
    ensures
        r.nanos == if report.any_pending_work {
            DEBOUNCE_TICK_MILLIS * NANOS_PER_MILLI
        } else {
            IDLE_TICK_MILLIS * NANOS_PER_MILLI
        },
{
    if report.any_pending_work {
        Duration::from_millis(DEBOUNCE_TICK_MILLIS)
    } else {
        Duration::from_millis(IDLE_TICK_MILLIS)
    }
}

/// Applies a configured bound of the timeline; one that is no positive size
/// is passed over.
pub fn set_timeline_limit(timeline: &mut TimelineBuffer, limit: i64)
    requires
        old(timeline).wf(),
    ensures
        final(timeline).wf(),
        if 0 < limit <= usize::MAX {
            &&& final(timeline)@ == latest(old(timeline)@, limit as nat)
            &&& final(timeline).limit() == limit
        } else {
            &&& final(timeline)@ == old(timeline)@
            &&& final(timeline).limit() == old(timeline).limit()
        },
{
    if limit > 0 && limit as u64 <= usize::MAX as u64 {
        timeline.set_max_entries(limit as usize);
    }
}

// ---------------------------------------------------------------------------
// Watches
// ---------------------------------------------------------------------------

/// Numbers of profiles.
#[derive(Debug)]
pub struct Members {
    pub profiles: Vec<usize>,
}

impl View for Members {
    type V = Seq<usize>;

    open spec fn view(&self) -> Seq<usize> {
        self.profiles@
    }
}

/// A profile and the root it watches.
#[derive(Debug)]
pub struct WatchTarget {
    pub profile: usize,
    pub root: FsPath,
}

/// The profiles of each root, in order.
pub open spec fn grouped(targets: Seq<WatchTarget>) -> Map<Seq<Part>, Seq<usize>>
    decreases targets.len(),
{
    if targets.len() == 0 {
        Map::empty()
    } else {
        let rest = grouped(targets.drop_last());
        let next = targets.last();
        rest.insert(
            next.root@,
            if rest.contains_key(next.root@) {
                rest[next.root@].push(next.profile)
            } else {
                seq![next.profile]
            },
        )
    }
}

/// What a profile has to watch.
#[derive(Debug, PartialEq, Eq)]
pub enum WatchRoot {
    /// The profile has no local root.
    Unwatched,
    /// Its root, resolved.
    At(FsPath),
    /// Its root cannot be watched, and why.
    Unavailable(String),
}

/// A profile to suspend, and why.
#[derive(Debug, PartialEq, Eq)]
pub struct ProfileSuspension {
    pub profile_id: String,
    pub reason: String,
}

impl View for ProfileSuspension {
    type V = (Seq<char>, Seq<char>);

    open spec fn view(&self) -> (Seq<char>, Seq<char>) {
        (self.profile_id@, self.reason@)
    }
}

pub open spec fn suspension_views(orders: Seq<ProfileSuspension>) -> Seq<(Seq<char>, Seq<char>)> {
    orders.map_values(|o: ProfileSuspension| o@)
}

pub open spec fn target_views(targets: Seq<WatchTarget>) -> Seq<(usize, Seq<Part>)> {
    targets.map_values(|t: WatchTarget| (t.profile, t.root@))
}

/// The running profiles with a root that can be watched, in order.
pub open spec fn watchable(slots: Seq<SlotView>, roots: Seq<WatchRoot>) -> Seq<(usize, Seq<Part>)>
    decreases slots.len(),
{
    if slots.len() == 0 {
        Seq::empty()
    } else {
        let rest = watchable(slots.drop_last(), roots);
        let i = slots.len() - 1;
        match roots[i] {
            WatchRoot::At(root) if slots[i].failed is None => rest.push((i as usize, root@)),
            _ => rest,
        }
    }
}

/// The running profiles whose root cannot be watched, in order.
pub open spec fn unwatchable(slots: Seq<SlotView>, roots: Seq<WatchRoot>) -> Seq<
    (Seq<char>, Seq<char>),
>
    decreases slots.len(),
{
    if slots.len() == 0 {
        Seq::empty()
    } else {
        let rest = unwatchable(slots.drop_last(), roots);
        let i = slots.len() - 1;
        match roots[i] {
            WatchRoot::Unavailable(error) if slots[i].failed is None => rest.push(
                (slots[i].profile.id, "watch root unavailable: "@ + error@),
            ),
            _ => rest,
        }
    }
}

impl MultiProfileRuntime {
    /// The watches to start, and the profiles to suspend because their root
    /// cannot be watched.
    pub fn start_deduplicated_watchers(&self, roots: &Vec<WatchRoot>) -> (r: (
        Vec<WatchTarget>,
        Vec<ProfileSuspension>,
    ))
        requires
            roots@.len() == self@.len(),
        ensures
            target_views(r.0@) == watchable(self@, roots@),
            suspension_views(r.1@) == unwatchable(self@, roots@),
    {
        let mut targets: Vec<WatchTarget> = Vec::new();
        let mut orders: Vec<ProfileSuspension> = Vec::new();
        let mut i: usize = 0;
        assert(self@.take(0) =~= Seq::empty());
        assert(target_views(targets@) =~= Seq::empty());
        assert(suspension_views(orders@) =~= Seq::empty());
        while i < self.slots.len()
            invariant
                i <= self.slots@.len(),
                roots@.len() == self@.len(),
                self@.len() == self.slots@.len(),
                target_views(targets@) == watchable(self@.take(i as int), roots@),
                suspension_views(orders@) == unwatchable(self@.take(i as int), roots@),
            decreases self.slots@.len() - i,
        {
            assert(self@.take(i + 1).drop_last() =~= self@.take(i as int));
            assert(self@[i as int] == self.slots@[i as int]@);
            let ghost known = target_views(targets@);
            let ghost ordered = suspension_views(orders@);
            if self.slots[i].failed.is_none() {
                match &roots[i] {
                    WatchRoot::Unwatched => {},
                    WatchRoot::At(root) => {
                        targets.push(WatchTarget { profile: i, root: root.clone() });
                        assert(target_views(targets@) =~= known.push((i, root@)));
                    },
                    WatchRoot::Unavailable(error) => {
                        let order = ProfileSuspension {
                            profile_id: self.slots[i].profile.id.clone(),
                            reason: concat("watch root unavailable: ", error.as_str()),
                        };
                        orders.push(order);
                        assert(suspension_views(orders@) =~= ordered.push(order@));
                    },
                }
            }
            i = i + 1;
        }
        assert(self@.take(i as int) =~= self@);
        (targets, orders)
    }

    /// The profiles to suspend because the watch that serves them did not
    /// start.
    pub fn unserved(&self, members: &Members, error: &str) -> (r: Vec<ProfileSuspension>)
        requires
            forall|k: int| 0 <= k < members@.len() ==> (#[trigger] members@[k]) < self@.len(),
        ensures
            r@.len() == members@.len(),
            forall|k: int|
                0 <= k < r@.len() ==> (#[trigger] r@[k])@ == (
                    self@[members@[k] as int].profile.id,
                    "fs watcher failed to start: "@ + error@,
                ),
    {
        let mut orders: Vec<ProfileSuspension> = Vec::new();
        let mut k: usize = 0;
        while k < members.profiles.len()
            invariant
                k <= members@.len(),
                forall|k: int| 0 <= k < members@.len() ==> (#[trigger] members@[k]) < self@.len(),
                self@.len() == self.slots@.len(),
                orders@.len() == k,
                forall|j: int|
                    0 <= j < k ==> (#[trigger] orders@[j])@ == (
                        self@[members@[j] as int].profile.id,
                        "fs watcher failed to start: "@ + error@,
                    ),
            decreases members@.len() - k,
        {
            let i: usize = members.profiles[k];
            assert(members@[k as int] < self@.len());
            assert(self@[i as int] == self.slots@[i as int]@);
            orders.push(
                ProfileSuspension {
                    profile_id: self.slots[i].profile.id.clone(),
                    reason: concat("fs watcher failed to start: ", error),
                },
            );
            k = k + 1;
        }
        orders
    }
}

/// Groups profiles by the root they watch: one watch serves them all.
pub fn group_by_root(targets: &Vec<WatchTarget>) -> (r: PathMap<Members>)
    ensures
        r@ == grouped(targets@),
{
    let mut groups: PathMap<Members> = PathMap::new();
    let mut i: usize = 0;
    assert(targets@.take(0) =~= Seq::empty());
    while i < targets.len()
        invariant
            i <= targets@.len(),
            groups@ == grouped(targets@.take(i as int)),
        decreases targets@.len() - i,
    {
        assert(targets@.take(i + 1).drop_last() =~= targets@.take(i as int));
        let ghost before = groups@;
        let target = &targets[i];
        let mut members = match groups.remove(&target.root) {
            Some(members) => members,
            None => Members { profiles: Vec::new() },
        };
        members.profiles.push(target.profile);
        assert(members@ =~= if before.contains_key(target.root@) {
            before[target.root@].push(target.profile)
        } else {
            seq![target.profile]
        });
        groups.insert(target.root.clone(), members);
        assert(groups@ =~= grouped(targets@.take(i + 1)));
        i = i + 1;
    }
    assert(targets@.take(i as int) =~= targets@);
    groups
}

/// Every profile is served by the watch of its own root, and by that alone.
pub proof fn law_each_profile_has_its_watch(targets: Seq<WatchTarget>, root: Seq<Part>, n: usize)
    ensures
        (grouped(targets).contains_key(root) && grouped(targets)[root].contains(n)) <==> exists|
            i: int,
        |
            0 <= i < targets.len() && (#[trigger] targets[i]).root@ == root && targets[i].profile
                == n,
    decreases targets.len(),
{
    if targets.len() > 0 {
        let front = targets.drop_last();
        let next = targets.last();
        law_each_profile_has_its_watch(front, root, n);
        let rest = grouped(front);
        if next.root@ == root {
            let members = grouped(targets)[root];
            if next.profile == n {
                assert(members.last() == n);
                assert(members.contains(n));
                assert(targets[targets.len() - 1].root@ == root);
            } else if members.contains(n) {
                let k = members.index_of(n);
                assert(members[k] == n);
                assert(rest.contains_key(root));
                assert(rest[root][k] == n);
                assert(rest[root].contains(n));
                let i = choose|i: int|
                    0 <= i < front.len() && (#[trigger] front[i]).root@ == root && front[i].profile
                        == n;
                assert(targets[i].root@ == root);
            } else {
                if exists|i: int|
                    0 <= i < targets.len() && (#[trigger] targets[i]).root@ == root
                        && targets[i].profile == n {
                    let i = choose|i: int|
                        0 <= i < targets.len() && (#[trigger] targets[i]).root@ == root
                            && targets[i].profile == n;
                    assert(front[i].root@ == root);
                    let k = rest[root].index_of(n);
                    assert(rest[root].contains(n));
                    assert(members[k] == n);
                }
            }
        } else {
            if exists|i: int|
                0 <= i < targets.len() && (#[trigger] targets[i]).root@ == root
                    && targets[i].profile == n {
                let i = choose|i: int|
                    0 <= i < targets.len() && (#[trigger] targets[i]).root@ == root
                        && targets[i].profile == n;
                assert(front[i].root@ == root);
            }
            if exists|i: int|
                0 <= i < front.len() && (#[trigger] front[i]).root@ == root && front[i].profile
                    == n {
                let i = choose|i: int|
                    0 <= i < front.len() && (#[trigger] front[i]).root@ == root && front[i].profile
                        == n;
                assert(targets[i].root@ == root);
            }
        }
    }
}

/// The targets a path belongs to, in order.
pub open spec fn reached(targets: Seq<WatchTarget>, path: Seq<Part>) -> Seq<usize>
    decreases targets.len(),
{
    if targets.len() == 0 {
        Seq::empty()
    } else {
        let rest = reached(targets.drop_last(), path);
        if within(path, targets.last().root@) {
            rest.push(targets.last().profile)
        } else {
            rest
        }
    }
}

/// The profiles an event on `path` goes to: those whose root holds it.
pub fn fan_out(targets: &Vec<WatchTarget>, path: &FsPath) -> (r: Vec<usize>)
    ensures
        r@ == reached(targets@, path@),
{
    let mut profiles: Vec<usize> = Vec::new();
    let mut i: usize = 0;
    assert(targets@.take(0) =~= Seq::empty());
    while i < targets.len()
        invariant
            i <= targets@.len(),
            profiles@ == reached(targets@.take(i as int), path@),
        decreases targets@.len() - i,
    {
        assert(targets@.take(i + 1).drop_last() =~= targets@.take(i as int));
        if path.starts_with(&targets[i].root) {
            profiles.push(targets[i].profile);
        }
        i = i + 1;
    }
    assert(targets@.take(i as int) =~= targets@);
    profiles
}

// ---------------------------------------------------------------------------
// What the runtime is for
// ---------------------------------------------------------------------------

/// A profile is suspended by a panic, and by the fifth failed tick in a row;
/// a tick that went well starts the count anew. No other profile is touched.
pub proof fn law_the_fifth_failure_suspends(
    runtime: &mut MultiProfileRuntime,
    i: usize,
    outcome: TickOutcome,
    report: &mut MultiTickReport,
    r: Option<Suspension>,
)
    requires
        call_ensures(MultiProfileRuntime::record_tick, (runtime, i, outcome, report), r),
        i < old(runtime)@.len(),
        old(runtime)@[i as int].failed is None,
        old(report).ticked_profiles < usize::MAX,
        old(report).failed_profiles < usize::MAX,
    ensures
        ({
            let before = old(runtime)@[i as int];
            let after = final(runtime)@[i as int];
            &&& final(runtime)@.len() == old(runtime)@.len()
            &&& forall|j: int|
                0 <= j < old(runtime)@.len() && j != i ==> #[trigger] final(runtime)@[j] == old(runtime)@[j]
            &&& after.profile == before.profile
            &&& after.requests == before.requests
            &&& outcome is Ticked ==> after.failed is None && after.errors == 0 && r is None
            &&& outcome is Failed ==> after.errors == before.errors + 1 && (after.failed is Some
                <==> before.errors >= 4)
            &&& outcome matches TickOutcome::Failed(error) ==> (before.errors >= 4 ==> after.failed
                == Some("repeated tick failures: "@ + error@))
            &&& outcome matches TickOutcome::Panicked(message) ==> after.failed == Some(
                "panicked: "@ + message@,
            )
            &&& r is Some <==> after.failed is Some
            &&& r matches Some(told) ==> after.failed == Some(told.reason@)
            &&& final(report).ticked_profiles == old(report).ticked_profiles + if outcome
                is Ticked {
                1int
            } else {
                0
            }
            &&& final(report).failed_profiles == old(report).failed_profiles + if after.failed
                is Some {
                1int
            } else {
                0
            }
            &&& final(report).any_pending_work <==> old(report).any_pending_work || outcome
                == TickOutcome::Ticked { pending_work: true }
        }),
{
}

/// Every request reaches every profile, suspended or not, and none is taken
/// back by a cycle that asks for nothing.
pub proof fn law_a_request_reaches_every_profile(
    runtime: &mut MultiProfileRuntime,
    external: &mut RuntimeControl,
    r: MultiTickReport,
)
    requires
        call_ensures(MultiProfileRuntime::begin_cycle, (runtime, external), r),
    ensures
        final(runtime)@.len() == old(runtime)@.len(),
        forall|i: int|
            0 <= i < old(runtime)@.len() ==> {
                let before = old(runtime)@[i];
                let after = #[trigger] final(runtime)@[i];
                let asked = old(external)@;
                &&& after.requests.flush <==> before.requests.flush || asked.flush
                &&& after.requests.reconcile <==> before.requests.reconcile || asked.reconcile
                &&& asked.pause is Some ==> after.requests.pause == asked.pause
                &&& asked.pause is None ==> after.requests.pause == before.requests.pause
                &&& after.failed == before.failed
                &&& after.errors == before.errors
                &&& after.profile == before.profile
            },
        final(external)@.pause is None,
        !final(external)@.flush,
        !final(external)@.reconcile,
        r.ticked_profiles == 0,
        !r.any_pending_work,
{
}

/// A profile suspended by name is the first of that name; it keeps its
/// requests, and the others go on.
pub proof fn law_the_named_profile_is_suspended(
    runtime: &mut MultiProfileRuntime,
    id: &str,
    reason: String,
    r: bool,
)
    requires
        call_ensures(MultiProfileRuntime::suspend, (runtime, id, reason), r),
    ensures
        r <==> exists|i: int|
            0 <= i < old(runtime)@.len() && (#[trigger] old(runtime)@[i]).profile.id == id@,
        r ==> exists|i: int|
            {
                &&& 0 <= i < old(runtime)@.len()
                &&& (#[trigger] old(runtime)@[i]).profile.id == id@
                &&& final(runtime)@[i].failed == Some(reason@)
                &&& final(runtime)@[i].profile == old(runtime)@[i].profile
                &&& final(runtime)@[i].requests == old(runtime)@[i].requests
                &&& forall|j: int|
                    0 <= j < i ==> (#[trigger] old(runtime)@[j]).profile.id != id@
                &&& forall|j: int|
                    0 <= j < old(runtime)@.len() && j != i ==> #[trigger] final(runtime)@[j]
                        == old(runtime)@[j]
            },
        !r ==> final(runtime)@ == old(runtime)@,
{
    if r {
        let i = choose|i: int|
            #[trigger] is_first_with(old(runtime)@, id@, i) && final(runtime)@ == old(runtime)@.update(i, SlotView { failed: Some(reason@), ..old(runtime)@[i] });
        assert(old(runtime)@[i].profile.id == id@);
    }
}

/// The status is as bad as the worst profile: an error as soon as one profile
/// is suspended or failed, and running only while all run. Each profile has
/// its line, in order, and a suspended one gives its reason there.
pub proof fn law_the_status_is_that_of_the_worst_profile(
    runtime: MultiProfileRuntime,
    facts: Vec<SlotFacts>,
    r: DaemonStatusSnapshot,
)
    requires
        call_ensures(MultiProfileRuntime::aggregate_status, (&runtime, &facts), r),
        facts@.len() == runtime@.len(),
        runtime@.len() > 0,
    ensures
        r.profiles@.len() == runtime@.len(),
        forall|i: int|
            0 <= i < runtime@.len() ==> {
                let line = #[trigger] r.profiles@[i];
                &&& line.id@ == runtime@[i].profile.id
                &&& line.queue_depth == facts@[i].queue_depth
                &&& line.suspended_reason is Some <==> runtime@[i].failed is Some
                &&& line.suspended_reason matches Some(reason) ==> runtime@[i].failed == Some(
                    reason@,
                )
            },
        (exists|i: int|
            0 <= i < runtime@.len() && ((#[trigger] runtime@[i]).failed is Some || facts@[i].run_state
                == RunState::Error)) ==> r.run_state@ == run_state_label(RunState::Error)@,
        (forall|i: int|
            0 <= i < runtime@.len() ==> (#[trigger] runtime@[i]).failed is None
                && facts@[i].run_state == RunState::Running) ==> r.run_state@ == run_state_label(
            RunState::Running,
        )@,
        ((exists|i: int|
            0 <= i < runtime@.len() && (#[trigger] facts@[i]).run_state == RunState::Paused)
            && forall|i: int|
            0 <= i < runtime@.len() ==> (#[trigger] runtime@[i]).failed is None
                && facts@[i].run_state != RunState::Error) ==> r.run_state@ == run_state_label(
            RunState::Paused,
        )@,
        r.intent_diagnostics@.len() <= 100,
        r.config_restart_required is None,
{
    let slots = runtime@;
    let w = choose|w: int| #[trigger] is_status(r, slots, facts@, w);
    assert(is_status(r, slots, facts@, w));
    law_diagnostics_are_bounded(facts@, facts@.len());
    if exists|i: int|
        0 <= i < slots.len() && ((#[trigger] slots[i]).failed is Some || facts@[i].run_state
            == RunState::Error) {
        let i = choose|i: int|
            0 <= i < slots.len() && ((#[trigger] slots[i]).failed is Some || facts@[i].run_state
                == RunState::Error);
        assert(state_rank(effective_state(slots[i], facts@[i])) == 3);
    }
    if exists|i: int| 0 <= i < slots.len() && (#[trigger] facts@[i]).run_state == RunState::Paused {
        let i = choose|i: int|
            0 <= i < slots.len() && (#[trigger] facts@[i]).run_state == RunState::Paused;
        assert(slots[i].failed is Some || state_rank(effective_state(slots[i], facts@[i])) == 2);
        assert(slots[w].failed is Some || facts@[w].run_state == RunState::Error || state_rank(
            effective_state(slots[w], facts@[w]),
        ) <= 2);
    }
}

/// One more profile adds its counts to those of the status, up to what a count
/// can hold; without profiles all counts are zero.
pub proof fn law_counts_add_up_over_profiles(
    fewer: MultiProfileRuntime,
    more: MultiProfileRuntime,
    some_facts: Vec<SlotFacts>,
    all_facts: Vec<SlotFacts>,
    a: DaemonStatusSnapshot,
    b: DaemonStatusSnapshot,
)
    requires
        call_ensures(MultiProfileRuntime::aggregate_status, (&fewer, &some_facts), a),
        call_ensures(MultiProfileRuntime::aggregate_status, (&more, &all_facts), b),
        some_facts@.len() == fewer@.len(),
        all_facts@.len() == fewer@.len() + 1,
        more@.len() == fewer@.len() + 1,
        some_facts@ == all_facts@.drop_last(),
    ensures
        ({
            let last = all_facts@.last();
            &&& is_sum(b.queue_depth, a.queue_depth, last.queue_depth)
            &&& is_sum(b.failed_intents, a.failed_intents, last.failed_intents)
            &&& is_sum(b.conflicts, a.conflicts, last.conflicts)
            &&& is_sum(b.mirror_reverts, a.mirror_reverts, last.mirror_reverts)
            &&& is_sum(b.mirror_deletes, a.mirror_deletes, last.mirror_deletes)
            &&& is_sum(
                b.loop_prevention_suppressions,
                a.loop_prevention_suppressions,
                last.loop_suppressions,
            )
            &&& is_sum(
                b.dropped_incoming_events,
                a.dropped_incoming_events,
                last.dropped_incoming_events,
            )
        }),
        fewer@.len() == 0 ==> a.queue_depth == 0 && a.failed_intents == 0 && a.conflicts == 0
            && a.mirror_reverts == 0 && a.mirror_deletes == 0,
{
    reveal_with_fuel(total, 2);
    let w = choose|w: int| #[trigger] is_status(b, more@, all_facts@, w);
    assert(is_status(b, more@, all_facts@, w));
    if fewer@.len() > 0 {
        let v = choose|v: int| #[trigger] is_status(a, fewer@, some_facts@, v);
        assert(is_status(a, fewer@, some_facts@, v));
    }
}

/// `sum` is `a` and `b` together, as far as a count can hold it.
pub open spec fn is_sum(sum: u64, a: u64, b: u64) -> bool {
    if a + b <= 0xffff_ffff_ffff_ffff {
        sum == a + b
    } else {
        sum == 0xffff_ffff_ffff_ffff
    }
}

/// Only profiles that are not suspended slow the daemon down or have work
/// waiting.
pub proof fn law_suspended_profiles_do_not_tune(
    runtime: MultiProfileRuntime,
    facts: Vec<SlotFacts>,
    r: (bool, u64),
)
    requires
        call_ensures(MultiProfileRuntime::tuning_signal, (&runtime, &facts), r),
        facts@.len() == runtime@.len(),
    ensures
        (forall|i: int| 0 <= i < runtime@.len() ==> (#[trigger] runtime@[i]).failed is Some)
            ==> !r.0 && r.1 == 0,
        forall|i: int|
            0 <= i < runtime@.len() && (#[trigger] runtime@[i]).failed is None ==> (
            facts@[i].slowed_down ==> r.0) && r.1 >= facts@[i].queue_depth,
        (forall|i: int| 0 <= i < runtime@.len() ==> !(#[trigger] facts@[i]).slowed_down) ==> !r.0,
{
    lemma_live_depth_bounds(runtime@, facts@);
}

proof fn lemma_live_depth_bounds(slots: Seq<SlotView>, facts: Seq<SlotFacts>)
    requires
        facts.len() == slots.len(),
    ensures
        live_depth(slots, facts) >= 0,
        (forall|i: int| 0 <= i < slots.len() ==> (#[trigger] slots[i]).failed is Some)
            ==> live_depth(slots, facts) == 0,
        forall|i: int|
            0 <= i < slots.len() && (#[trigger] slots[i]).failed is None ==> live_depth(
                slots,
                facts,
            ) >= facts[i].queue_depth,
    decreases slots.len(),
{
    if slots.len() > 0 {
        let front = slots.drop_last();
        lemma_live_depth_bounds(front, facts.drop_last());
        assert forall|i: int| 0 <= i < front.len() implies #[trigger] front[i] == slots[i] by {}
        assert forall|i: int|
            0 <= i < slots.len() && (#[trigger] slots[i]).failed is None implies live_depth(
            slots,
            facts,
        ) >= facts[i].queue_depth by {
            if i < front.len() {
                assert(front[i].failed is None);
                assert(facts.drop_last()[i] == facts[i]);
            }
        }
    }
}

/// A profile gets its slot exactly if it is enabled, its state could be opened
/// and its runtime put together. It starts suspended exactly if its provider
/// does not exist or its first reconcile could not be scheduled, and that
/// reconcile is scheduled only where there is a provider to compare with.
pub proof fn law_a_profile_starts_as_its_parts_do(
    profiles: Vec<ResolvedProfile>,
    facts: Vec<StartFacts>,
    r: MultiProfileRuntime,
)
    requires
        call_ensures(MultiProfileRuntime::start_with_state_root, (profiles, &facts), r),
        facts@.len() == profiles@.len(),
    ensures
        forall|i: int|
            0 <= i < profiles@.len() && #[trigger] profiles@[i].enabled && facts@[i].state_error
                is None && facts@[i].compose_error is None ==> exists|k: int|
                0 <= k < r@.len() && is_slot_of(#[trigger] r@[k], profiles@[i], facts@[i]),
        forall|k: int|
            0 <= k < r@.len() ==> is_slot_of_one(#[trigger] r@[k], profiles@, facts@),
{
    lemma_started(profiles@, facts@);
}

/// The slot a profile starts with.
pub open spec fn is_slot_of(slot: SlotView, profile: ResolvedProfile, facts: StartFacts) -> bool {
    &&& slot.profile == profile@
    &&& slot.errors == 0
    &&& slot.failed is Some <==> facts.provider_error is Some || facts.schedule_error is Some
    &&& slot.requests.pause is None
    &&& !slot.requests.flush
    &&& !slot.requests.reconcile
}

/// The slot of one of the profiles that can start.
pub open spec fn is_slot_of_one(
    slot: SlotView,
    profiles: Seq<ResolvedProfile>,
    facts: Seq<StartFacts>,
) -> bool {
    exists|i: int|
        0 <= i < profiles.len() && is_slot_of(slot, #[trigger] profiles[i], facts[i])
            && profiles[i].enabled && facts[i].state_error is None && facts[i].compose_error is None
}

proof fn lemma_started(profiles: Seq<ResolvedProfile>, facts: Seq<StartFacts>)
    requires
        profiles.len() <= facts.len(),
    ensures
        forall|i: int|
            0 <= i < profiles.len() && #[trigger] profiles[i].enabled && facts[i].state_error
                is None && facts[i].compose_error is None ==> exists|k: int|
                0 <= k < started(profiles, facts).len() && is_slot_of(
                    #[trigger] started(profiles, facts)[k],
                    profiles[i],
                    facts[i],
                ),
        forall|k: int|
            0 <= k < started(profiles, facts).len() ==> is_slot_of_one(
                #[trigger] started(profiles, facts)[k],
                profiles,
                facts,
            ),
    decreases profiles.len(),
{
    if profiles.len() > 0 {
        let front = profiles.drop_last();
        lemma_started(front, facts);
        let rest = started(front, facts);
        let all = started(profiles, facts);
        let n = profiles.len() - 1;
        assert forall|i: int|
            0 <= i < profiles.len() && #[trigger] profiles[i].enabled && facts[i].state_error
                is None && facts[i].compose_error is None implies exists|k: int|
            0 <= k < all.len() && is_slot_of(#[trigger] all[k], profiles[i], facts[i]) by {
            if i == n {
                assert(is_slot_of(all[all.len() - 1], profiles[i], facts[i]));
            } else {
                assert(front[i] == profiles[i]);
                let k = choose|k: int|
                    0 <= k < rest.len() && is_slot_of(#[trigger] rest[k], front[i], facts[i]);
                assert(all[k] == rest[k]);
            }
        }
        assert forall|k: int| 0 <= k < all.len() implies is_slot_of_one(
            #[trigger] all[k],
            profiles,
            facts,
        ) by {
            if k < rest.len() {
                assert(all[k] == rest[k]);
                let i = choose|i: int|
                    0 <= i < front.len() && is_slot_of(
                        rest[k],
                        #[trigger] front[i],
                        facts[i],
                    ) && front[i].enabled && facts[i].state_error is None && facts[i].compose_error
                        is None;
                assert(profiles[i] == front[i]);
            } else {
                assert(is_slot_of(all[k], profiles[n], facts[n]));
            }
        }
    }
}

/// A first reconcile is wanted only where the profile runs at all and has a
/// provider: comparing with none would have every local file deleted.
pub proof fn law_only_a_running_profile_reconciles_at_start(
    profile: ResolvedProfile,
    facts: StartFacts,
    r: bool,
)
    requires
        call_ensures(wants_startup_reconcile, (&profile, &facts), r),
    ensures
        r ==> profile.enabled && facts.provider_error is None && facts.state_error is None
            && facts.compose_error is None,
        profile.enabled && facts.provider_error is None && facts.state_error is None
            && facts.compose_error is None ==> r,
{
}

/// With work waiting the daemon looks again after a quarter of a second, without
/// after two seconds.
pub proof fn law_the_pace_follows_the_work(report: MultiTickReport, r: Duration)
    requires
        call_ensures(next_wait, (&report,), r),
    ensures
        report.any_pending_work ==> r.nanos == 250_000_000,
        !report.any_pending_work ==> r.nanos == 2_000_000_000,
{
}

/// A profile is watched exactly if it runs and has a root to watch, and each
/// one whose root cannot be had is to be suspended, with the reason.
pub proof fn law_each_running_profile_is_watched(
    runtime: MultiProfileRuntime,
    roots: Vec<WatchRoot>,
    r: (Vec<WatchTarget>, Vec<ProfileSuspension>),
)
    requires
        call_ensures(MultiProfileRuntime::start_deduplicated_watchers, (&runtime, &roots), r),
        roots@.len() == runtime@.len(),
        runtime@.len() <= usize::MAX,
    ensures
        forall|i: usize, root: Seq<Part>|
            i < runtime@.len() ==> (#[trigger] target_views(r.0@).contains((i, root)) <==> (
            runtime@[i as int].failed is None && roots@[i as int] is At && roots@[i as int]->At_0@
                == root)),
        forall|i: int|
            0 <= i < runtime@.len() && (#[trigger] runtime@[i]).failed is None && roots@[i]
                is Unavailable ==> suspension_views(r.1@).contains(
                (
                    runtime@[i].profile.id,
                    "watch root unavailable: "@ + roots@[i]->Unavailable_0@,
                ),
            ),
        (forall|i: int| 0 <= i < runtime@.len() ==> !((#[trigger] roots@[i]) is Unavailable))
            ==> r.1@.len() == 0,
{
    lemma_watchable(runtime@, roots@);
    lemma_unwatchable(runtime@, roots@);
    assert(suspension_views(r.1@).len() == r.1@.len());
}

proof fn lemma_watchable(slots: Seq<SlotView>, roots: Seq<WatchRoot>)
    requires
        slots.len() <= roots.len(),
        slots.len() <= usize::MAX,
    ensures
        forall|i: usize, root: Seq<Part>|
            i < slots.len() ==> (#[trigger] watchable(slots, roots).contains((i, root)) <==> (
            slots[i as int].failed is None && roots[i as int] is At && roots[i as int]->At_0@
                == root)),
        forall|k: int|
            0 <= k < watchable(slots, roots).len() ==> (#[trigger] watchable(slots, roots)[k]).0
                < slots.len(),
    decreases slots.len(),
{
    if slots.len() > 0 {
        let front = slots.drop_last();
        lemma_watchable(front, roots);
        let rest = watchable(front, roots);
        let all = watchable(slots, roots);
        let n = slots.len() - 1;
        assert forall|i: usize, root: Seq<Part>| i < slots.len() implies (#[trigger] all.contains(
            (i, root),
        ) <==> (slots[i as int].failed is None && roots[i as int] is At && roots[i as int]->At_0@
            == root)) by {
            let x = (i, root);
            if i < n {
                assert(front[i as int] == slots[i as int]);
                assert(rest.contains((i, root)) <==> (front[i as int].failed is None
                    && roots[i as int] is At && roots[i as int]->At_0@ == root));
                assert(rest.contains(x) <==> all.contains(x)) by {
                    if rest.contains(x) {
                        let k = rest.index_of(x);
                        assert(all[k] == x);
                    }
                    if all.contains(x) {
                        let k = all.index_of(x);
                        assert(all[k] == x);
                        assert(k < rest.len());
                        assert(rest[k] == x);
                    }
                }
            } else {
                assert(!rest.contains(x)) by {
                    if rest.contains(x) {
                        let k = rest.index_of(x);
                        assert(rest[k].0 < n);
                    }
                }
                if all.len() > rest.len() {
                    assert(all[all.len() - 1] == all.last());
                    if all.contains(x) {
                        let k = all.index_of(x);
                        if k < rest.len() {
                            assert(rest[k] == x);
                        }
                    }
                } else {
                    assert(all == rest);
                }
            }
        }
        assert forall|k: int| 0 <= k < all.len() implies (#[trigger] all[k]).0 < slots.len() by {
            if k < rest.len() {
                assert(all[k] == rest[k]);
            }
        }
    }
}

proof fn lemma_unwatchable(slots: Seq<SlotView>, roots: Seq<WatchRoot>)
    requires
        slots.len() <= roots.len(),
    ensures
        forall|i: int|
            0 <= i < slots.len() && (#[trigger] slots[i]).failed is None && roots[i] is Unavailable
                ==> unwatchable(slots, roots).contains(
                (slots[i].profile.id, "watch root unavailable: "@ + roots[i]->Unavailable_0@),
            ),
        (forall|i: int| 0 <= i < slots.len() ==> !((#[trigger] roots[i]) is Unavailable))
            ==> unwatchable(slots, roots).len() == 0,
    decreases slots.len(),
{
    if slots.len() > 0 {
        let front = slots.drop_last();
        lemma_unwatchable(front, roots);
        let rest = unwatchable(front, roots);
        let all = unwatchable(slots, roots);
        let n = slots.len() - 1;
        assert forall|i: int|
            0 <= i < slots.len() && (#[trigger] slots[i]).failed is None && roots[i]
                is Unavailable implies all.contains(
            (slots[i].profile.id, "watch root unavailable: "@ + roots[i]->Unavailable_0@),
        ) by {
            let x = (slots[i].profile.id, "watch root unavailable: "@ + roots[i]->Unavailable_0@);
            if i < n {
                assert(front[i].failed is None);
                let k = rest.index_of(x);
                assert(all[k] == x);
            } else {
                assert(all[all.len() - 1] == x);
            }
        }
    }
}

/// An event goes to exactly the profiles whose root holds its path.
pub proof fn law_an_event_goes_where_its_path_lies(
    targets: Vec<WatchTarget>,
    path: FsPath,
    r: Vec<usize>,
)
    requires
        call_ensures(fan_out, (&targets, &path), r),
    ensures
        forall|n: usize|
            #[trigger] r@.contains(n) <==> exists|i: int|
                0 <= i < targets@.len() && (#[trigger] targets@[i]).profile == n
                    && targets@[i].root@.len() <= path@.len() && path@.take(
                    targets@[i].root@.len() as int,
                ) =~= targets@[i].root@,
{
    lemma_reached(targets@, path@);
}

proof fn lemma_reached(targets: Seq<WatchTarget>, path: Seq<Part>)
    ensures
        forall|n: usize|
            #[trigger] reached(targets, path).contains(n) <==> exists|i: int|
                0 <= i < targets.len() && (#[trigger] targets[i]).profile == n
                    && targets[i].root@.len() <= path.len() && path.take(
                    targets[i].root@.len() as int,
                ) =~= targets[i].root@,
    decreases targets.len(),
{
    let all = reached(targets, path);
    if targets.len() > 0 {
        let front = targets.drop_last();
        let rest = reached(front, path);
        lemma_reached(front, path);
        assert forall|n: usize| #[trigger] all.contains(n) <==> exists|i: int|
            0 <= i < targets.len() && (#[trigger] targets[i]).profile == n
                && targets[i].root@.len() <= path.len() && path.take(
                targets[i].root@.len() as int,
            ) =~= targets[i].root@ by {
            if all.contains(n) {
                let k = all.index_of(n);
                assert(all[k] == n);
                if k < rest.len() {
                    assert(rest[k] == n);
                    assert(rest.contains(n));
                    let i = choose|i: int|
                        0 <= i < front.len() && (#[trigger] front[i]).profile == n
                            && front[i].root@.len() <= path.len() && path.take(
                            front[i].root@.len() as int,
                        ) =~= front[i].root@;
                    assert(targets[i] == front[i]);
                } else {
                    assert(targets[targets.len() - 1].profile == n);
                }
            }
            if exists|i: int|
                0 <= i < targets.len() && (#[trigger] targets[i]).profile == n
                    && targets[i].root@.len() <= path.len() && path.take(
                    targets[i].root@.len() as int,
                ) =~= targets[i].root@ {
                let i = choose|i: int|
                    0 <= i < targets.len() && (#[trigger] targets[i]).profile == n
                        && targets[i].root@.len() <= path.len() && path.take(
                        targets[i].root@.len() as int,
                    ) =~= targets[i].root@;
                if i < front.len() {
                    assert(front[i] == targets[i]);
                    assert(rest.contains(n));
                    let k = rest.index_of(n);
                    assert(all[k] == n);
                } else {
                    assert(all[all.len() - 1] == n);
                }
            }
        }
    }
}

/// Roots that several profiles share are watched once, for all of them.
pub proof fn law_a_shared_root_is_watched_once(
    targets: Vec<WatchTarget>,
    r: PathMap<Members>,
    root: Seq<Part>,
    n: usize,
)
    requires
        call_ensures(group_by_root, (&targets,), r),
    ensures
        (r@.contains_key(root) && r@[root].contains(n)) <==> exists|i: int|
            0 <= i < targets@.len() && (#[trigger] targets@[i]).root@ == root
                && targets@[i].profile == n,
{
    law_each_profile_has_its_watch(targets@, root, n);
}

/// Every profile may show its share of a hundred rows, but never less than ten
/// while there is room, and never more than what is left.
pub proof fn law_profiles_share_the_rows(profiles: usize, taken: usize, r: usize)
    requires
        call_ensures(diagnostics_quota, (profiles, taken), r),
    ensures
        taken >= 100 ==> r == 0,
        taken < 100 ==> r + taken <= 100,
        taken <= 90 ==> r >= 10,
        taken == 0 && profiles <= 1 ==> r == 100,
        profiles > 10 && taken <= 90 ==> r == 10,
        0 < profiles <= 10 && r + taken < 100 ==> r * profiles <= 100 < (r + 1) * profiles,
{
    if 0 < profiles <= 10 {
        let n = profiles as int;
        let q = 100int / n;
        assert(q * n <= 100 < (q + 1) * n) by (nonlinear_arith)
            requires
                q == 100int / n,
                0 < n <= 10,
        ;
        assert(q >= 10) by (nonlinear_arith)
            requires
                q == 100int / n,
                0 < n <= 10,
        ;
        if r + taken < 100 {
            assert(r == q);
        }
    }
    if profiles <= 1 {
        assert(100nat / 1nat == 100nat);
        assert(share_of(profiles as nat) == 100);
    }
    if profiles > 10 {
        let n = profiles as int;
        assert(100int / n < 10) by (nonlinear_arith)
            requires
                n > 10,
        ;
    }
}

/// A profile is added behind the others, fresh, suspended exactly if a reason
/// is given.
pub proof fn law_a_profile_is_added_fresh(
    runtime: &mut MultiProfileRuntime,
    profile: ResolvedProfile,
    failed: Option<String>,
)
    requires
        call_ensures(MultiProfileRuntime::add_profile, (runtime, profile, failed), ()),
    ensures
        final(runtime)@.len() == old(runtime)@.len() + 1,
        final(runtime)@.drop_last() == old(runtime)@,
        final(runtime)@.last().profile == profile@,
        final(runtime)@.last().errors == 0,
        final(runtime)@.last().failed is Some <==> failed is Some,
        failed matches Some(reason) ==> final(runtime)@.last().failed == Some(reason@),
        final(runtime)@.last().requests.pause is None,
{
    assert(final(runtime)@.drop_last() =~= old(runtime)@);
}

} // verus!
