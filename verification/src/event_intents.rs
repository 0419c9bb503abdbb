//! Bounded in-memory storage of pending filesystem events and intents.
//!
//! Events and intents are kept per path. When a directory or the whole watch
//! root holds too many pending paths, or an event storm is detected, the
//! subtree is *compacted*: everything pending inside it is dropped and one
//! reconcile marker for the subtree takes its place. What happens inside a
//! compacted subtree afterwards is absorbed into its record.
use vstd::prelude::*;

use crate::clock::{later_time, SystemTime};
use crate::fs_events::{FsEventErrorRecord, FsEventKind, FsEventRecord, FsEventRecording,
    FsEventView};
use crate::path_map::{strictly_ordered, PathMap};
use crate::paths::{has_parent, is_ancestor, is_removable, lemma_within_reflexive,
    lemma_within_transitive, path_less, within, FsPath, Part};
use crate::storm::{observed, time_plus, usual_thresholds, DeferredReconcileRecord, DeferredView, StormDetector,
    StormReason, StormThresholds, StormView};
use crate::tracker::{count_below, refs_tracked, refs_untracked, PathTracker};

verus! {

/// Most pending paths kept in memory before the watch root is compacted.
pub const MAX_IN_MEMORY_PENDING_PATHS: usize = 20_000;

/// Most pending paths kept below one directory before it is compacted.
pub const MAX_IN_MEMORY_PENDING_PATHS_PER_SUBTREE: usize = 5_000;

/// How many pending paths are kept before compaction.
#[derive(Clone, Copy, Debug, PartialEq, Eq, Structural)]
pub struct EventIntentLimits {
    pub max_pending_paths: usize,
    pub max_pending_paths_per_subtree: usize,
}

impl EventIntentLimits {
    pub fn new(max_pending_paths: usize, max_pending_paths_per_subtree: usize) -> (r:
        EventIntentLimits)
        ensures
            r.max_pending_paths == max_pending_paths,
            r.max_pending_paths_per_subtree == max_pending_paths_per_subtree,
    {
        EventIntentLimits { max_pending_paths, max_pending_paths_per_subtree }
    }
}

/// The limits where nothing else is configured.
pub open spec fn usual_limits() -> EventIntentLimits {
    EventIntentLimits {
        max_pending_paths: MAX_IN_MEMORY_PENDING_PATHS,
        max_pending_paths_per_subtree: MAX_IN_MEMORY_PENDING_PATHS_PER_SUBTREE,
    }
}

impl Default for EventIntentLimits {
    fn default() -> (r: EventIntentLimits)
        ensures
            r == usual_limits(),
    {
        EventIntentLimits::new(MAX_IN_MEMORY_PENDING_PATHS, MAX_IN_MEMORY_PENDING_PATHS_PER_SUBTREE)
    }
}

/// Which kinds of events a pending path has seen.
#[derive(Clone, Copy, Debug, PartialEq, Eq, Structural)]
pub struct PendingEventFlags {
    pub created: bool,
    pub modified: bool,
    pub removed: bool,
    pub renamed: bool,
    pub other: bool,
}

impl Default for PendingEventFlags {
    fn default() -> (r: PendingEventFlags)
        ensures
            r == no_flags(),
    {
        PendingEventFlags {
            created: false,
            modified: false,
            removed: false,
            renamed: false,
            other: false,
        }
    }
}

pub open spec fn no_flags() -> PendingEventFlags {
    PendingEventFlags {
        created: false,
        modified: false,
        removed: false,
        renamed: false,
        other: false,
    }
}

/// `flags` with the one of `kind` raised.
pub open spec fn flags_with(flags: PendingEventFlags, kind: FsEventKind) -> PendingEventFlags {
    PendingEventFlags {
        created: flags.created || kind == FsEventKind::Created,
        modified: flags.modified || kind == FsEventKind::Modified,
        removed: flags.removed || kind == FsEventKind::Removed,
        renamed: flags.renamed || kind == FsEventKind::Renamed,
        other: flags.other || kind == FsEventKind::Other,
    }
}

impl PendingEventFlags {
    /// Notes an event of this kind.
    pub fn raise(&mut self, kind: FsEventKind)
        ensures
            *final(self) == flags_with(*old(self), kind),
    {
        match kind {
            FsEventKind::Created => {
                self.created = true;
            },
            FsEventKind::Modified => {
                self.modified = true;
            },
            FsEventKind::Removed => {
                self.removed = true;
            },
            FsEventKind::Renamed => {
                self.renamed = true;
            },
            FsEventKind::Other => {
                self.other = true;
            },
        }
    }
}

/// Events of one path that have not stabilised yet.
#[derive(Debug, PartialEq, Eq)]
pub struct PendingEventRecord {
    pub path: FsPath,
    pub first_observed_at: SystemTime,
    pub last_observed_at: SystemTime,
    pub last_event_kind: FsEventKind,
    pub flags: PendingEventFlags,
    pub burst_count: usize,
}

pub struct EventView {
    pub path: Seq<Part>,
    pub first_observed_at: SystemTime,
    pub last_observed_at: SystemTime,
    pub last_event_kind: FsEventKind,
    pub flags: PendingEventFlags,
    pub burst_count: usize,
}

impl View for PendingEventRecord {
    type V = EventView;

    open spec fn view(&self) -> EventView {
        EventView {
            path: self.path@,
            first_observed_at: self.first_observed_at,
            last_observed_at: self.last_observed_at,
            last_event_kind: self.last_event_kind,
            flags: self.flags,
            burst_count: self.burst_count,
        }
    }
}

/// What is to be done with a path.
#[derive(Clone, Copy, Debug, PartialEq, Eq, Structural)]
pub enum PendingIntentKind {
    Upload,
    Delete,
    Rename,
    ReconcileSubtree,
    Download,
    ApplyRemoteDelete,
}

/// A pending intent of one path.
#[derive(Debug, PartialEq, Eq)]
pub struct PendingIntentRecord {
    pub path: FsPath,
    pub kind: PendingIntentKind,
    pub observed_at: SystemTime,
}

pub struct IntentView {
    pub path: Seq<Part>,
    pub kind: PendingIntentKind,
    pub observed_at: SystemTime,
}

impl View for PendingIntentRecord {
    type V = IntentView;

    open spec fn view(&self) -> IntentView {
        IntentView { path: self.path@, kind: self.kind, observed_at: self.observed_at }
    }
}

impl Clone for PendingIntentRecord {
    fn clone(&self) -> (r: PendingIntentRecord)
        ensures
            r@ == self@,
    {
        PendingIntentRecord {
            path: self.path.clone(),
            kind: self.kind,
            observed_at: self.observed_at,
        }
    }
}

/// Why a subtree was compacted.
#[derive(Clone, Copy, Debug, PartialEq, Eq, Structural)]
pub enum BackpressureReason {
    SubtreeCapExceeded,
    GlobalCapExceeded,
    DirectoryUniquePathsStorm,
    DirectoryEventCountStorm,
    GlobalPendingEventCountStorm,
}

/// The storm behind a compaction, if one was.
pub open spec fn storm_reason_of(reason: BackpressureReason) -> Option<StormReason> {
    match reason {
        BackpressureReason::DirectoryUniquePathsStorm => Some(
            StormReason::DirectoryUniquePathsThreshold,
        ),
        BackpressureReason::DirectoryEventCountStorm => Some(
            StormReason::DirectoryEventCountThreshold,
        ),
        BackpressureReason::GlobalPendingEventCountStorm => Some(
            StormReason::GlobalPendingEventCountThreshold,
        ),
        _ => None,
    }
}

/// The compaction reason a storm stands for.
pub open spec fn backpressure_of(reason: StormReason) -> BackpressureReason {
    match reason {
        StormReason::DirectoryUniquePathsThreshold => BackpressureReason::DirectoryUniquePathsStorm,
        StormReason::DirectoryEventCountThreshold => BackpressureReason::DirectoryEventCountStorm,
        StormReason::GlobalPendingEventCountThreshold => BackpressureReason::GlobalPendingEventCountStorm,
    }
}

impl BackpressureReason {
    /// The storm behind a backpressure, if one is.
    pub fn storm_reason(self) -> (r: Option<StormReason>)
        ensures
            r == storm_reason_of(self),
    {
        match self {
            BackpressureReason::DirectoryUniquePathsStorm => Some(
                StormReason::DirectoryUniquePathsThreshold,
            ),
            BackpressureReason::DirectoryEventCountStorm => Some(
                StormReason::DirectoryEventCountThreshold,
            ),
            BackpressureReason::GlobalPendingEventCountStorm => Some(
                StormReason::GlobalPendingEventCountThreshold,
            ),
            BackpressureReason::SubtreeCapExceeded | BackpressureReason::GlobalCapExceeded => None,
        }
    }

    /// The backpressure a storm causes.
    pub fn from_storm(reason: StormReason) -> (r: BackpressureReason)
        ensures
            r == backpressure_of(reason),
            storm_reason_of(r) == Some(reason),
    {
        match reason {
            StormReason::DirectoryUniquePathsThreshold => BackpressureReason::DirectoryUniquePathsStorm,
            StormReason::DirectoryEventCountThreshold => BackpressureReason::DirectoryEventCountStorm,
            StormReason::GlobalPendingEventCountThreshold => BackpressureReason::GlobalPendingEventCountStorm,
        }
    }
}

/// Record of a compacted subtree.
#[derive(Debug, PartialEq, Eq)]
pub struct CompactedSubtreeRecord {
    pub root: FsPath,
    pub reason: BackpressureReason,
    pub first_compacted_at: SystemTime,
    pub last_observed_at: SystemTime,
    pub suppressed_event_count: usize,
    pub suppressed_intent_count: usize,
    pub compaction_count: usize,
}

pub struct CompactedView {
    pub root: Seq<Part>,
    pub reason: BackpressureReason,
    pub first_compacted_at: SystemTime,
    pub last_observed_at: SystemTime,
    pub suppressed_event_count: usize,
    pub suppressed_intent_count: usize,
    pub compaction_count: usize,
}

impl View for CompactedSubtreeRecord {
    type V = CompactedView;

    open spec fn view(&self) -> CompactedView {
        CompactedView {
            root: self.root@,
            reason: self.reason,
            first_compacted_at: self.first_compacted_at,
            last_observed_at: self.last_observed_at,
            suppressed_event_count: self.suppressed_event_count,
            suppressed_intent_count: self.suppressed_intent_count,
            compaction_count: self.compaction_count,
        }
    }
}

/// `n`, held at the largest `usize`.
pub open spec fn saturated(n: nat) -> usize {
    if n <= usize::MAX {
        n as usize
    } else {
        usize::MAX
    }
}

fn saturating_sum(a: usize, b: usize) -> (r: usize)
    ensures
        r == saturated((a + b) as nat),
{
    if a <= usize::MAX - b {
        a + b
    } else {
        usize::MAX
    }
}

impl CompactedSubtreeRecord {
    /// Counts an event that the subtree absorbed.
    pub fn note_event(&mut self, observed_at: SystemTime)
        ensures
            final(self)@ == noted_event(old(self)@, observed_at),
    {
        self.last_observed_at = observed_at;
        self.suppressed_event_count = saturating_sum(self.suppressed_event_count, 1);
    }

    /// Counts an intent that the subtree absorbed.
    pub fn note_intent(&mut self, observed_at: SystemTime)
        ensures
            final(self)@ == noted_intent(old(self)@, observed_at),
    {
        self.last_observed_at = observed_at;
        self.suppressed_intent_count = saturating_sum(self.suppressed_intent_count, 1);
    }
}

pub open spec fn noted_event(record: CompactedView, at: SystemTime) -> CompactedView {
    CompactedView {
        last_observed_at: at,
        suppressed_event_count: saturated((record.suppressed_event_count + 1) as nat),
        ..record
    }
}

pub open spec fn noted_intent(record: CompactedView, at: SystemTime) -> CompactedView {
    CompactedView {
        last_observed_at: at,
        suppressed_intent_count: saturated((record.suppressed_intent_count + 1) as nat),
        ..record
    }
}

// ---------------------------------------------------------------------------
// The model
// ---------------------------------------------------------------------------

/// Everything the storage holds, as mathematical values.
#[verifier::ext_equal]
pub struct MapsView {
    pub watch_root: Seq<Part>,
    pub limits: EventIntentLimits,
    pub events: Map<Seq<Part>, EventView>,
    pub intents: Map<Seq<Part>, IntentView>,
    pub compacted: Map<Seq<Part>, CompactedView>,
    pub deferred: Map<Seq<Part>, DeferredView>,
    pub storm: StormView,
}

/// A storage nothing is pending in.
pub open spec fn nothing_pending(
    watch_root: Seq<Part>,
    limits: EventIntentLimits,
    thresholds: StormThresholds,
) -> MapsView {
    MapsView {
        watch_root,
        limits,
        events: Map::empty(),
        intents: Map::empty(),
        compacted: Map::empty(),
        deferred: Map::empty(),
        storm: StormView { watch_root, thresholds, directories: Map::empty() },
    }
}

/// Paths something is pending for.
pub open spec fn pending_paths(v: MapsView) -> Set<Seq<Part>> {
    v.events.dom().union(v.intents.dom()).union(v.deferred.dom())
}

/// How many of the three maps hold `path`.
pub open spec fn uses(v: MapsView, path: Seq<Part>) -> int {
    (if v.events.contains_key(path) {
        1int
    } else {
        0
    }) + (if v.intents.contains_key(path) {
        1int
    } else {
        0
    }) + (if v.deferred.contains_key(path) {
        1int
    } else {
        0
    })
}

/// Reference counts that belong to `v`.
pub open spec fn refs_of(v: MapsView) -> Map<Seq<Part>, usize> {
    Map::new(|p: Seq<Part>| pending_paths(v).contains(p), |p: Seq<Part>| uses(v, p) as usize)
}

/// Number of pending paths at or below `directory`.
pub open spec fn pending_below(v: MapsView, directory: Seq<Part>) -> nat {
    count_below(pending_paths(v), v.watch_root, directory)
}

/// Entries at or below `root`.
pub open spec fn inside<V>(m: Map<Seq<Part>, V>, root: Seq<Part>) -> Map<Seq<Part>, V> {
    Map::new(|p: Seq<Part>| m.contains_key(p) && within(p, root), |p: Seq<Part>| m[p])
}

/// Entries neither at nor below `root`.
pub open spec fn outside<V>(m: Map<Seq<Part>, V>, root: Seq<Part>) -> Map<Seq<Part>, V> {
    Map::new(|p: Seq<Part>| m.contains_key(p) && !within(p, root), |p: Seq<Part>| m[p])
}

/// The deepest compacted directory among the first `n` components of `path`.
pub open spec fn governing_from<V>(
    compacted: Map<Seq<Part>, V>,
    path: Seq<Part>,
    n: nat,
) -> Option<Seq<Part>>
    decreases n,
{
    if compacted.contains_key(path.take(n as int)) {
        Some(path.take(n as int))
    } else if n == 0 {
        None
    } else {
        governing_from(compacted, path, (n - 1) as nat)
    }
}

/// The deepest compacted directory that holds `path`.
pub open spec fn governing<V>(compacted: Map<Seq<Part>, V>, path: Seq<Part>) -> Option<Seq<Part>> {
    governing_from(compacted, path, path.len())
}

pub proof fn lemma_governing_from<V>(compacted: Map<Seq<Part>, V>, path: Seq<Part>, n: nat)
    requires
        n <= path.len(),
    ensures
        match governing_from(compacted, path, n) {
            Some(r) => {
                &&& compacted.contains_key(r)
                &&& within(path, r)
                &&& r.len() <= n
                &&& forall|q: Seq<Part>| #[trigger]
                    compacted.contains_key(q) && within(path, q) && q.len() <= n ==> q.len()
                        <= r.len()
            },
            None => forall|q: Seq<Part>|
                #[trigger] compacted.contains_key(q) && within(path, q) ==> q.len() > n,
        },
    decreases n,
{
    if compacted.contains_key(path.take(n as int)) {
    } else {
        if n > 0 {
            lemma_governing_from(compacted, path, (n - 1) as nat);
        }
        assert forall|q: Seq<Part>| #[trigger]
            compacted.contains_key(q) && within(path, q) && q.len() <= n implies q.len() < n by {
            if q.len() == n {
                assert(q == path.take(n as int));
            }
        }
    }
}

/// The governing directory is the deepest compacted one above `path`.
pub proof fn lemma_governing<V>(compacted: Map<Seq<Part>, V>, path: Seq<Part>)
    ensures
        match governing(compacted, path) {
            Some(r) => {
                &&& compacted.contains_key(r)
                &&& within(path, r)
                &&& forall|q: Seq<Part>| #[trigger]
                    compacted.contains_key(q) && within(path, q) ==> q.len() <= r.len()
            },
            None => forall|q: Seq<Part>| #[trigger] compacted.contains_key(q) ==> !within(path, q),
        },
{
    lemma_governing_from(compacted, path, path.len());
}

/// The deepest directory among the first `n` components of `path`, below
/// the watch root, that is full.
pub open spec fn full_subtree_from(v: MapsView, path: Seq<Part>, n: nat) -> Option<Seq<Part>>
    decreases n,
{
    let here = path.take(n as int);
    if !within(here, v.watch_root) {
        None
    } else if here != v.watch_root && pending_below(v, here)
        >= v.limits.max_pending_paths_per_subtree {
        Some(here)
    } else if n > 0 && has_parent(here) {
        full_subtree_from(v, path, (n - 1) as nat)
    } else {
        None
    }
}

pub open spec fn full_subtree(v: MapsView, path: Seq<Part>) -> Option<Seq<Part>> {
    full_subtree_from(v, path, path.len())
}

/// Which count of a compacted record is summed.
pub enum Tally {
    Events,
    Intents,
    Compactions,
}

pub open spec fn tally(which: Tally, record: CompactedView) -> nat {
    match which {
        Tally::Events => record.suppressed_event_count as nat,
        Tally::Intents => record.suppressed_intent_count as nat,
        Tally::Compactions => record.compaction_count as nat,
    }
}

/// Sum of one count over all records.
pub open spec fn total(m: Map<Seq<Part>, CompactedView>, which: Tally) -> nat
    decreases m.dom().len(),
    when m.dom().finite()
{
    if m.dom().len() == 0 {
        0
    } else {
        let k = m.dom().choose();
        tally(which, m[k]) + total(m.remove(k), which)
    }
}

proof fn lemma_total_remove(m: Map<Seq<Part>, CompactedView>, which: Tally, k: Seq<Part>)
    requires
        m.dom().finite(),
        m.contains_key(k),
    ensures
        total(m, which) == tally(which, m[k]) + total(m.remove(k), which),
    decreases m.dom().len(),
{
    let c = m.dom().choose();
    assert(m.dom().contains(c));
    assert(m.remove(c).dom() =~= m.dom().remove(c));
    assert(m.remove(k).dom() =~= m.dom().remove(k));
    if c != k {
        lemma_total_remove(m.remove(c), which, k);
        lemma_total_remove(m.remove(k), which, c);
        assert(m.remove(c).remove(k) =~= m.remove(k).remove(c));
    }
}

proof fn lemma_total_empty(m: Map<Seq<Part>, CompactedView>, which: Tally)
    requires
        m.dom() =~= Set::<Seq<Part>>::empty(),
    ensures
        total(m, which) == 0,
{
}

/// The record a compaction of `root` leaves.
pub open spec fn compaction_record(
    v: MapsView,
    root: Seq<Part>,
    reason: BackpressureReason,
    at: SystemTime,
) -> CompactedView {
    let merged = inside(v.compacted, root);
    CompactedView {
        root,
        reason,
        first_compacted_at: if v.compacted.contains_key(root) {
            v.compacted[root].first_compacted_at
        } else {
            at
        },
        last_observed_at: at,
        suppressed_event_count: saturated(
            inside(v.events, root).dom().len() + total(merged, Tally::Events),
        ),
        suppressed_intent_count: saturated(
            inside(v.intents, root).dom().len() + total(merged, Tally::Intents),
        ),
        compaction_count: saturated(1 + total(merged, Tally::Compactions)),
    }
}

/// Everything at or below `root` dropped.
pub open spec fn swept(v: MapsView, root: Seq<Part>) -> MapsView {
    MapsView {
        events: outside(v.events, root),
        intents: outside(v.intents, root),
        deferred: outside(v.deferred, root),
        compacted: outside(v.compacted, root),
        ..v
    }
}

/// A reconcile intent for `root` set at `at`.
pub open spec fn with_reconcile_intent(v: MapsView, root: Seq<Part>, at: SystemTime) -> MapsView {
    MapsView {
        intents: v.intents.insert(
            root,
            IntentView {
                path: if v.intents.contains_key(root) {
                    v.intents[root].path
                } else {
                    root
                },
                kind: PendingIntentKind::ReconcileSubtree,
                observed_at: at,
            },
        ),
        ..v
    }
}

/// A deferred reconcile for `root` set, or put off further.
pub open spec fn with_deferred(
    v: MapsView,
    root: Seq<Part>,
    reason: StormReason,
    at: SystemTime,
    available_at: SystemTime,
) -> MapsView {
    MapsView {
        deferred: v.deferred.insert(
            root,
            if v.deferred.contains_key(root) {
                let existing = v.deferred[root];
                DeferredView {
                    reason,
                    last_observed_at: at,
                    available_at: later_time(existing.available_at, available_at),
                    reschedule_count: saturated((existing.reschedule_count + 1) as nat),
                    ..existing
                }
            } else {
                DeferredView {
                    root,
                    reason,
                    first_detected_at: at,
                    last_observed_at: at,
                    available_at,
                    reschedule_count: 0,
                }
            },
        ),
        ..v
    }
}

/// The subtree at `root` compacted: one marker stands for all it held.
pub open spec fn compacted_at(
    v: MapsView,
    root: Seq<Part>,
    reason: BackpressureReason,
    at: SystemTime,
    deferred_at: Option<SystemTime>,
) -> MapsView {
    let clean = swept(v, root);
    let noted = MapsView {
        compacted: clean.compacted.insert(root, compaction_record(v, root, reason, at)),
        ..clean
    };
    match (deferred_at, storm_reason_of(reason)) {
        (Some(available_at), Some(storm)) => with_deferred(noted, root, storm, at, available_at),
        _ => with_reconcile_intent(noted, root, at),
    }
}

/// The marker of the compacted subtree at `root` renewed.
pub open spec fn refreshed(v: MapsView, root: Seq<Part>, at: SystemTime) -> MapsView {
    let storm = if v.compacted.contains_key(root) {
        storm_reason_of(v.compacted[root].reason)
    } else {
        None
    };
    match storm {
        Some(reason) => with_deferred(
            v,
            root,
            reason,
            at,
            time_plus(at, v.storm.thresholds.deferred_reconcile_delay),
        ),
        None => with_reconcile_intent(v, root, at),
    }
}

/// An event absorbed by the compacted subtree at `root`.
pub open spec fn absorbed_event(v: MapsView, root: Seq<Part>, at: SystemTime) -> MapsView {
    refreshed(
        MapsView {
            compacted: if v.compacted.contains_key(root) {
                v.compacted.insert(root, noted_event(v.compacted[root], at))
            } else {
                v.compacted
            },
            ..v
        },
        root,
        at,
    )
}

/// An intent absorbed by the compacted subtree at `root`.
pub open spec fn absorbed_intent(v: MapsView, root: Seq<Part>, at: SystemTime) -> MapsView {
    refreshed(
        MapsView {
            compacted: if v.compacted.contains_key(root) {
                v.compacted.insert(root, noted_intent(v.compacted[root], at))
            } else {
                v.compacted
            },
            ..v
        },
        root,
        at,
    )
}

/// Room made for the new pending path `path`: its deepest full directory
/// compacted, or else the watch root once the storage is full.
pub open spec fn prepared(v: MapsView, path: Seq<Part>, at: SystemTime) -> MapsView {
    match full_subtree(v, path) {
        Some(root) => compacted_at(v, root, BackpressureReason::SubtreeCapExceeded, at, None),
        None => if pending_paths(v).len() >= v.limits.max_pending_paths {
            compacted_at(v, v.watch_root, BackpressureReason::GlobalCapExceeded, at, None)
        } else {
            v
        },
    }
}

/// A pending event after one more event of its path.
pub open spec fn bumped(record: EventView, event: FsEventView) -> EventView {
    EventView {
        last_observed_at: event.observed_at,
        last_event_kind: event.kind,
        flags: flags_with(record.flags, event.kind),
        burst_count: saturated((record.burst_count + 1) as nat),
        ..record
    }
}

/// The pending event a first event of a path makes.
pub open spec fn first_event(event: FsEventView) -> EventView {
    EventView {
        path: event.path,
        first_observed_at: event.observed_at,
        last_observed_at: event.observed_at,
        last_event_kind: event.kind,
        flags: flags_with(no_flags(), event.kind),
        burst_count: 1,
    }
}

/// The storm detector told of `event`, and a storm it finds compacted.
pub open spec fn storm_checked(v: MapsView, event: FsEventView) -> MapsView {
    let (storm, trigger) = observed(v.storm, event.path, event.observed_at, v.events.dom().len());
    let seen = MapsView { storm, ..v };
    match trigger {
        None => seen,
        Some(t) => compacted_at(
            seen,
            t.root,
            backpressure_of(t.reason),
            event.observed_at,
            Some(t.available_at),
        ),
    }
}

/// The storage after an event.
pub open spec fn event_recorded(v: MapsView, event: FsEventView) -> MapsView {
    if !within(event.path, v.watch_root) {
        v
    } else {
        match governing(v.compacted, event.path) {
            Some(root) => absorbed_event(v, root, event.observed_at),
            None => if v.events.contains_key(event.path) {
                storm_checked(
                    MapsView {
                        events: v.events.insert(
                            event.path,
                            bumped(v.events[event.path], event),
                        ),
                        ..v
                    },
                    event,
                )
            } else {
                let ready = if pending_paths(v).contains(event.path) {
                    v
                } else {
                    prepared(v, event.path, event.observed_at)
                };
                match governing(ready.compacted, event.path) {
                    Some(root) => absorbed_event(ready, root, event.observed_at),
                    None => storm_checked(
                        MapsView {
                            events: ready.events.insert(event.path, first_event(event)),
                            ..ready
                        },
                        event,
                    ),
                }
            },
        }
    }
}

/// The storage after an intent for `path`.
pub open spec fn intent_upserted(
    v: MapsView,
    path: Seq<Part>,
    kind: PendingIntentKind,
    at: SystemTime,
) -> MapsView {
    if !within(path, v.watch_root) {
        v
    } else {
        match governing(v.compacted, path) {
            Some(root) => absorbed_intent(v, root, at),
            None => {
                let ready = if pending_paths(v).contains(path) {
                    v
                } else {
                    prepared(v, path, at)
                };
                match governing(ready.compacted, path) {
                    Some(root) => absorbed_intent(ready, root, at),
                    None => MapsView {
                        intents: ready.intents.insert(
                            path,
                            IntentView {
                                path: if ready.intents.contains_key(path) {
                                    ready.intents[path].path
                                } else {
                                    path
                                },
                                kind,
                                observed_at: at,
                            },
                        ),
                        ..ready
                    },
                }
            },
        }
    }
}

/// A reconcile of the subtree at `root` is still to come.
pub open spec fn needs_follow_up(v: MapsView, root: Seq<Part>) -> bool {
    v.deferred.contains_key(root) || (v.intents.contains_key(root) && v.intents[root].kind
        == PendingIntentKind::ReconcileSubtree)
}


/// Every key lies at or below the watch root.
pub open spec fn keys_in_scope(v: MapsView) -> bool {
    &&& forall|p: Seq<Part>| #[trigger] v.events.contains_key(p) ==> within(p, v.watch_root)
    &&& forall|p: Seq<Part>| #[trigger] v.intents.contains_key(p) ==> within(p, v.watch_root)
    &&& forall|p: Seq<Part>| #[trigger] v.deferred.contains_key(p) ==> within(p, v.watch_root)
    &&& forall|p: Seq<Part>| #[trigger] v.compacted.contains_key(p) ==> within(p, v.watch_root)
}

proof fn lemma_refs_without_event(v: MapsView, path: Seq<Part>)
    requires
        v.events.contains_key(path),
    ensures
        refs_of(MapsView { events: v.events.remove(path), ..v }) == refs_untracked(refs_of(v), path),
{
    let after = MapsView { events: v.events.remove(path), ..v };
    assert(refs_of(after) =~= refs_untracked(refs_of(v), path));
}

proof fn lemma_refs_with_event(v: MapsView, path: Seq<Part>, record: EventView)
    ensures
        refs_of(MapsView { events: v.events.insert(path, record), ..v }) == if v.events.contains_key(
            path,
        ) {
            refs_of(v)
        } else {
            refs_tracked(refs_of(v), path)
        },
{
    let after = MapsView { events: v.events.insert(path, record), ..v };
    if v.events.contains_key(path) {
        assert(refs_of(after) =~= refs_of(v));
    } else {
        assert(refs_of(after) =~= refs_tracked(refs_of(v), path));
    }
}

proof fn lemma_refs_without_intent(v: MapsView, path: Seq<Part>)
    requires
        v.intents.contains_key(path),
    ensures
        refs_of(MapsView { intents: v.intents.remove(path), ..v }) == refs_untracked(refs_of(v), path),
{
    let after = MapsView { intents: v.intents.remove(path), ..v };
    assert(refs_of(after) =~= refs_untracked(refs_of(v), path));
}

proof fn lemma_refs_with_intent(v: MapsView, path: Seq<Part>, record: IntentView)
    ensures
        refs_of(MapsView { intents: v.intents.insert(path, record), ..v }) == if v.intents.contains_key(
            path,
        ) {
            refs_of(v)
        } else {
            refs_tracked(refs_of(v), path)
        },
{
    let after = MapsView { intents: v.intents.insert(path, record), ..v };
    if v.intents.contains_key(path) {
        assert(refs_of(after) =~= refs_of(v));
    } else {
        assert(refs_of(after) =~= refs_tracked(refs_of(v), path));
    }
}

proof fn lemma_refs_without_deferral(v: MapsView, path: Seq<Part>)
    requires
        v.deferred.contains_key(path),
    ensures
        refs_of(MapsView { deferred: v.deferred.remove(path), ..v }) == refs_untracked(refs_of(v), path),
{
    let after = MapsView { deferred: v.deferred.remove(path), ..v };
    assert(refs_of(after) =~= refs_untracked(refs_of(v), path));
}

proof fn lemma_refs_with_deferral(v: MapsView, path: Seq<Part>, record: DeferredView)
    ensures
        refs_of(MapsView { deferred: v.deferred.insert(path, record), ..v }) == if v.deferred.contains_key(
            path,
        ) {
            refs_of(v)
        } else {
            refs_tracked(refs_of(v), path)
        },
{
    let after = MapsView { deferred: v.deferred.insert(path, record), ..v };
    if v.deferred.contains_key(path) {
        assert(refs_of(after) =~= refs_of(v));
    } else {
        assert(refs_of(after) =~= refs_tracked(refs_of(v), path));
    }
}

/// Bounded storage of pending events and intents below one watch root.
#[derive(Debug)]
pub struct BoundedEventIntentMaps {
    watch_root: FsPath,
    limits: EventIntentLimits,
    event_map: PathMap<PendingEventRecord>,
    intent_map: PathMap<PendingIntentRecord>,
    compacted_subtrees: PathMap<CompactedSubtreeRecord>,
    deferred_reconciles: PathMap<DeferredReconcileRecord>,
    tracker: PathTracker,
    storm_detector: StormDetector,
}

impl View for BoundedEventIntentMaps {
    type V = MapsView;

    closed spec fn view(&self) -> MapsView {
        MapsView {
            watch_root: self.watch_root@,
            limits: self.limits,
            events: self.event_map@,
            intents: self.intent_map@,
            compacted: self.compacted_subtrees@,
            deferred: self.deferred_reconciles@,
            storm: self.storm_detector@,
        }
    }
}

impl BoundedEventIntentMaps {
    /// The derived counts agree with the maps.
    spec fn rep(&self) -> bool {
        &&& self.tracker.wf()
        &&& self.tracker.root() == self.watch_root@
        &&& self.storm_detector@.watch_root == self.watch_root@
        &&& self.tracker.refs() == refs_of(self@)
        &&& keys_in_scope(self@)
    }

    /// Drops entry number `i` of the pending events.
    fn take_event_at(&mut self, i: usize) -> (r: PendingEventRecord)
        requires
            old(self).rep(),
            i < old(self).event_map.keys().len(),
        ensures
            final(self).rep(),
            old(self)@.events.contains_key(old(self).event_map.keys()[i as int]),
            final(self)@ == (MapsView {
                events: old(self)@.events.remove(old(self).event_map.keys()[i as int]),
                ..old(self)@
            }),
            r@ == old(self)@.events[old(self).event_map.keys()[i as int]],
            r == old(self).event_map.nth(i as int),
            final(self).event_map.keys() == old(self).event_map.keys().remove(i as int),
    {
        let ghost before = self@;
        let (key, record) = self.event_map.remove_at(i);
        self.tracker.untrack(&key);
        proof {
            lemma_refs_without_event(before, key@);
            assert(self@ =~= (MapsView { events: before.events.remove(key@), ..before }));
        }
        record
    }

    /// Drops the pending events at or below `root` and counts them.
    fn sweep_events(&mut self, root: &FsPath) -> (dropped: usize)
        requires
            old(self).rep(),
        ensures
            final(self).rep(),
            final(self)@ == (MapsView { events: outside(old(self)@.events, root@), ..old(self)@ }),
            dropped as nat == inside(old(self)@.events, root@).dom().len(),
    {
        let ghost before = self@;
        let mut dropped: usize = 0;
        let size: usize = self.event_map.len();
        let mut i: usize = size;
        proof {
            assert(inside(before.events, root@).dom().subset_of(before.events.dom()));
            vstd::set_lib::lemma_len_subset(
                inside(before.events, root@).dom(),
                before.events.dom(),
            );
        }
        while i > 0
            invariant
                self.rep(),
                i <= self.event_map.keys().len(),
                self@ == (MapsView { events: self@.events, ..before }),
                before.events.dom().finite(),
                size as nat == before.events.dom().len(),
                inside(before.events, root@).dom().len() <= size,
                forall|p: Seq<Part>| #[trigger]
                    self@.events.contains_key(p) ==> before.events.contains_key(p)
                        && self@.events[p] == before.events[p],
                forall|p: Seq<Part>|
                    before.events.contains_key(p) && !within(p, root@)
                        ==> #[trigger] self@.events.contains_key(p),
                dropped + inside(self@.events, root@).dom().len() == inside(
                    before.events,
                    root@,
                ).dom().len(),
                forall|j: int|
                    i <= j < self.event_map.keys().len() ==> !within(
                        #[trigger] self.event_map.keys()[j],
                        root@,
                    ),
            decreases i,
        {
            i = i - 1;
            let hit = self.event_map.key_at(i).starts_with(root);
            if hit {
                let ghost prior = self@;
                let ghost keys = self.event_map.keys();
                let ghost k = keys[i as int];
                proof {
                    use_type_invariant(&self.event_map);
                    self.event_map.lemma_entries();
                }
                let _gone = self.take_event_at(i);
                proof {
                    assert(inside(self@.events, root@).dom() =~= inside(prior.events, root@).dom().remove(
                        k,
                    ));
                    assert(inside(prior.events, root@).dom().contains(k));
                    assert(inside(prior.events, root@).dom().subset_of(prior.events.dom()));
                    assert(prior.events.dom().finite());
                    assert(inside(prior.events, root@).dom().finite()) by {
                        vstd::set_lib::lemma_len_subset(
                            inside(prior.events, root@).dom(),
                            prior.events.dom(),
                        );
                    }
                    assert forall|j: int| i <= j < self.event_map.keys().len() implies !within(
                        #[trigger] self.event_map.keys()[j],
                        root@,
                    ) by {
                        assert(self.event_map.keys()[j] == keys[j + 1]);
                    }
                }
                dropped = dropped + 1;
            }
        }
        proof {
            use_type_invariant(&self.event_map);
            self.event_map.lemma_entries();
            assert forall|p: Seq<Part>| #[trigger] self@.events.contains_key(p) implies !within(
                p,
                root@,
            ) by {
                assert(self.event_map.keys().contains(p));
                let j = self.event_map.keys().index_of(p);
                assert(self.event_map.keys()[j] == p);
            }
            assert(inside(self@.events, root@).dom() =~= Set::empty());
            assert(self@.events =~= outside(before.events, root@));
        }
        dropped
    }

    /// Drops entry number `i` of the pending intents.
    fn take_intent_at(&mut self, i: usize) -> (r: PendingIntentRecord)
        requires
            old(self).rep(),
            i < old(self).intent_map.keys().len(),
        ensures
            final(self).rep(),
            old(self)@.intents.contains_key(old(self).intent_map.keys()[i as int]),
            final(self)@ == (MapsView {
                intents: old(self)@.intents.remove(old(self).intent_map.keys()[i as int]),
                ..old(self)@
            }),
            r@ == old(self)@.intents[old(self).intent_map.keys()[i as int]],
            r == old(self).intent_map.nth(i as int),
            final(self).intent_map.keys() == old(self).intent_map.keys().remove(i as int),
    {
        let ghost before = self@;
        let (key, record) = self.intent_map.remove_at(i);
        self.tracker.untrack(&key);
        proof {
            lemma_refs_without_intent(before, key@);
            assert(self@ =~= (MapsView { intents: before.intents.remove(key@), ..before }));
        }
        record
    }

    /// Drops the pending intents at or below `root` and counts them.
    fn sweep_intents(&mut self, root: &FsPath) -> (dropped: usize)
        requires
            old(self).rep(),
        ensures
            final(self).rep(),
            final(self)@ == (MapsView { intents: outside(old(self)@.intents, root@), ..old(self)@ }),
            dropped as nat == inside(old(self)@.intents, root@).dom().len(),
    {
        let ghost before = self@;
        let mut dropped: usize = 0;
        let size: usize = self.intent_map.len();
        let mut i: usize = size;
        proof {
            assert(inside(before.intents, root@).dom().subset_of(before.intents.dom()));
            vstd::set_lib::lemma_len_subset(
                inside(before.intents, root@).dom(),
                before.intents.dom(),
            );
        }
        while i > 0
            invariant
                self.rep(),
                i <= self.intent_map.keys().len(),
                self@ == (MapsView { intents: self@.intents, ..before }),
                before.intents.dom().finite(),
                size as nat == before.intents.dom().len(),
                inside(before.intents, root@).dom().len() <= size,
                forall|p: Seq<Part>| #[trigger]
                    self@.intents.contains_key(p) ==> before.intents.contains_key(p)
                        && self@.intents[p] == before.intents[p],
                forall|p: Seq<Part>|
                    before.intents.contains_key(p) && !within(p, root@)
                        ==> #[trigger] self@.intents.contains_key(p),
                dropped + inside(self@.intents, root@).dom().len() == inside(
                    before.intents,
                    root@,
                ).dom().len(),
                forall|j: int|
                    i <= j < self.intent_map.keys().len() ==> !within(
                        #[trigger] self.intent_map.keys()[j],
                        root@,
                    ),
            decreases i,
        {
            i = i - 1;
            let hit = self.intent_map.key_at(i).starts_with(root);
            if hit {
                let ghost prior = self@;
                let ghost keys = self.intent_map.keys();
                let ghost k = keys[i as int];
                proof {
                    use_type_invariant(&self.intent_map);
                    self.intent_map.lemma_entries();
                }
                let _gone = self.take_intent_at(i);
                proof {
                    assert(inside(self@.intents, root@).dom() =~= inside(prior.intents, root@).dom().remove(
                        k,
                    ));
                    assert(inside(prior.intents, root@).dom().contains(k));
                    assert(inside(prior.intents, root@).dom().subset_of(prior.intents.dom()));
                    assert(prior.intents.dom().finite());
                    assert(inside(prior.intents, root@).dom().finite()) by {
                        vstd::set_lib::lemma_len_subset(
                            inside(prior.intents, root@).dom(),
                            prior.intents.dom(),
                        );
                    }
                    assert forall|j: int| i <= j < self.intent_map.keys().len() implies !within(
                        #[trigger] self.intent_map.keys()[j],
                        root@,
                    ) by {
                        assert(self.intent_map.keys()[j] == keys[j + 1]);
                    }
                }
                dropped = dropped + 1;
            }
        }
        proof {
            use_type_invariant(&self.intent_map);
            self.intent_map.lemma_entries();
            assert forall|p: Seq<Part>| #[trigger] self@.intents.contains_key(p) implies !within(
                p,
                root@,
            ) by {
                assert(self.intent_map.keys().contains(p));
                let j = self.intent_map.keys().index_of(p);
                assert(self.intent_map.keys()[j] == p);
            }
            assert(inside(self@.intents, root@).dom() =~= Set::empty());
            assert(self@.intents =~= outside(before.intents, root@));
        }
        dropped
    }

    /// Drops entry number `i` of the pending deferrals.
    fn take_deferral_at(&mut self, i: usize) -> (r: DeferredReconcileRecord)
        requires
            old(self).rep(),
            i < old(self).deferred_reconciles.keys().len(),
        ensures
            final(self).rep(),
            old(self)@.deferred.contains_key(old(self).deferred_reconciles.keys()[i as int]),
            final(self)@ == (MapsView {
                deferred: old(self)@.deferred.remove(old(self).deferred_reconciles.keys()[i as int]),
                ..old(self)@
            }),
            r@ == old(self)@.deferred[old(self).deferred_reconciles.keys()[i as int]],
            r == old(self).deferred_reconciles.nth(i as int),
            final(self).deferred_reconciles.keys() == old(self).deferred_reconciles.keys().remove(i as int),
    {
        let ghost before = self@;
        let (key, record) = self.deferred_reconciles.remove_at(i);
        self.tracker.untrack(&key);
        proof {
            lemma_refs_without_deferral(before, key@);
            assert(self@ =~= (MapsView { deferred: before.deferred.remove(key@), ..before }));
        }
        record
    }

    /// Drops the pending deferrals at or below `root` and counts them.
    fn sweep_deferrals(&mut self, root: &FsPath) -> (dropped: usize)
        requires
            old(self).rep(),
        ensures
            final(self).rep(),
            final(self)@ == (MapsView { deferred: outside(old(self)@.deferred, root@), ..old(self)@ }),
            dropped as nat == inside(old(self)@.deferred, root@).dom().len(),
    {
        let ghost before = self@;
        let mut dropped: usize = 0;
        let size: usize = self.deferred_reconciles.len();
        let mut i: usize = size;
        proof {
            assert(inside(before.deferred, root@).dom().subset_of(before.deferred.dom()));
            vstd::set_lib::lemma_len_subset(
                inside(before.deferred, root@).dom(),
                before.deferred.dom(),
            );
        }
        while i > 0
            invariant
                self.rep(),
                i <= self.deferred_reconciles.keys().len(),
                self@ == (MapsView { deferred: self@.deferred, ..before }),
                before.deferred.dom().finite(),
                size as nat == before.deferred.dom().len(),
                inside(before.deferred, root@).dom().len() <= size,
                forall|p: Seq<Part>| #[trigger]
                    self@.deferred.contains_key(p) ==> before.deferred.contains_key(p)
                        && self@.deferred[p] == before.deferred[p],
                forall|p: Seq<Part>|
                    before.deferred.contains_key(p) && !within(p, root@)
                        ==> #[trigger] self@.deferred.contains_key(p),
                dropped + inside(self@.deferred, root@).dom().len() == inside(
                    before.deferred,
                    root@,
                ).dom().len(),
                forall|j: int|
                    i <= j < self.deferred_reconciles.keys().len() ==> !within(
                        #[trigger] self.deferred_reconciles.keys()[j],
                        root@,
                    ),
            decreases i,
        {
            i = i - 1;
            let hit = self.deferred_reconciles.key_at(i).starts_with(root);
            if hit {
                let ghost prior = self@;
                let ghost keys = self.deferred_reconciles.keys();
                let ghost k = keys[i as int];
                proof {
                    use_type_invariant(&self.deferred_reconciles);
                    self.deferred_reconciles.lemma_entries();
                }
                let _gone = self.take_deferral_at(i);
                proof {
                    assert(inside(self@.deferred, root@).dom() =~= inside(prior.deferred, root@).dom().remove(
                        k,
                    ));
                    assert(inside(prior.deferred, root@).dom().contains(k));
                    assert(inside(prior.deferred, root@).dom().subset_of(prior.deferred.dom()));
                    assert(prior.deferred.dom().finite());
                    assert(inside(prior.deferred, root@).dom().finite()) by {
                        vstd::set_lib::lemma_len_subset(
                            inside(prior.deferred, root@).dom(),
                            prior.deferred.dom(),
                        );
                    }
                    assert forall|j: int| i <= j < self.deferred_reconciles.keys().len() implies !within(
                        #[trigger] self.deferred_reconciles.keys()[j],
                        root@,
                    ) by {
                        assert(self.deferred_reconciles.keys()[j] == keys[j + 1]);
                    }
                }
                dropped = dropped + 1;
            }
        }
        proof {
            use_type_invariant(&self.deferred_reconciles);
            self.deferred_reconciles.lemma_entries();
            assert forall|p: Seq<Part>| #[trigger] self@.deferred.contains_key(p) implies !within(
                p,
                root@,
            ) by {
                assert(self.deferred_reconciles.keys().contains(p));
                let j = self.deferred_reconciles.keys().index_of(p);
                assert(self.deferred_reconciles.keys()[j] == p);
            }
            assert(inside(self@.deferred, root@).dom() =~= Set::empty());
            assert(self@.deferred =~= outside(before.deferred, root@));
        }
        dropped
    }

    /// Takes out the compacted records at or below `root` and adds their
    /// counts to the given ones.
    fn merge_compacted(&mut self, root: &FsPath, events: usize, intents: usize) -> (r: (
        usize,
        usize,
        usize,
        Option<SystemTime>,
    ))
        requires
            old(self).rep(),
        ensures
            final(self).rep(),
            final(self)@ == (MapsView {
                compacted: outside(old(self)@.compacted, root@),
                ..old(self)@
            }),
            ({
                let merged = inside(old(self)@.compacted, root@);
                &&& r.0 == saturated(events as nat + total(merged, Tally::Events))
                &&& r.1 == saturated(intents as nat + total(merged, Tally::Intents))
                &&& r.2 == saturated(1 + total(merged, Tally::Compactions))
            }),
            match r.3 {
                Some(first) => old(self)@.compacted.contains_key(root@)
                    && old(self)@.compacted[root@].first_compacted_at == first,
                None => !old(self)@.compacted.contains_key(root@),
            },
    {
        let ghost before = self@;
        let ghost all = inside(before.compacted, root@);
        let ghost mut e: nat = events as nat;
        let ghost mut n: nat = intents as nat;
        let ghost mut c: nat = 1;
        let mut event_sum: usize = events;
        let mut intent_sum: usize = intents;
        let mut compactions: usize = 1;
        let mut first: Option<SystemTime> = None;
        let mut i: usize = self.compacted_subtrees.len();
        proof {
            assert(all.dom().subset_of(before.compacted.dom()));
            vstd::set_lib::lemma_len_subset(all.dom(), before.compacted.dom());
            lemma_within_reflexive(root@);
        }
        while i > 0
            invariant
                self.rep(),
                within(root@, root@),
                i <= self.compacted_subtrees.keys().len(),
                self@ == (MapsView { compacted: self@.compacted, ..before }),
                all == inside(before.compacted, root@),
                forall|p: Seq<Part>| #[trigger]
                    self@.compacted.contains_key(p) ==> before.compacted.contains_key(p)
                        && self@.compacted[p] == before.compacted[p],
                forall|p: Seq<Part>|
                    before.compacted.contains_key(p) && !within(p, root@)
                        ==> #[trigger] self@.compacted.contains_key(p),
                event_sum == saturated(e),
                intent_sum == saturated(n),
                compactions == saturated(c),
                inside(self@.compacted, root@).dom().finite(),
                e + total(inside(self@.compacted, root@), Tally::Events) == events + total(
                    all,
                    Tally::Events,
                ),
                n + total(inside(self@.compacted, root@), Tally::Intents) == intents + total(
                    all,
                    Tally::Intents,
                ),
                c + total(inside(self@.compacted, root@), Tally::Compactions) == 1 + total(
                    all,
                    Tally::Compactions,
                ),
                forall|j: int|
                    i <= j < self.compacted_subtrees.keys().len() ==> !within(
                        #[trigger] self.compacted_subtrees.keys()[j],
                        root@,
                    ),
                match first {
                    Some(at) => before.compacted.contains_key(root@)
                        && before.compacted[root@].first_compacted_at == at,
                    None => before.compacted.contains_key(root@) ==> self@.compacted.contains_key(
                        root@,
                    ),
                },
            decreases i,
        {
            i = i - 1;
            let hit = self.compacted_subtrees.key_at(i).starts_with(root);
            if hit {
                let ghost prior = self@;
                let ghost keys = self.compacted_subtrees.keys();
                let (key, record) = self.compacted_subtrees.remove_at(i);
                if key.same(root) {
                    first = Some(record.first_compacted_at);
                }
                proof {
                    let k = key@;
                    let left = inside(prior.compacted, root@);
                    assert(inside(self@.compacted, root@) =~= left.remove(k));
                    assert(left.contains_key(k));
                    lemma_total_remove(left, Tally::Events, k);
                    lemma_total_remove(left, Tally::Intents, k);
                    lemma_total_remove(left, Tally::Compactions, k);
                    e = e + record.suppressed_event_count as nat;
                    n = n + record.suppressed_intent_count as nat;
                    c = c + record.compaction_count as nat;
                    assert(self@ =~= (MapsView { compacted: prior.compacted.remove(k), ..prior }));
                    assert(refs_of(self@) =~= refs_of(prior));
                    assert forall|j: int| i <= j < self.compacted_subtrees.keys().len() implies !within(
                        #[trigger] self.compacted_subtrees.keys()[j],
                        root@,
                    ) by {
                        assert(self.compacted_subtrees.keys()[j] == keys[j + 1]);
                    }
                }
                event_sum = saturating_sum(event_sum, record.suppressed_event_count);
                intent_sum = saturating_sum(intent_sum, record.suppressed_intent_count);
                compactions = saturating_sum(compactions, record.compaction_count);
            }
        }
        proof {
            use_type_invariant(&self.compacted_subtrees);
            self.compacted_subtrees.lemma_entries();
            assert forall|p: Seq<Part>| #[trigger] self@.compacted.contains_key(p) implies !within(
                p,
                root@,
            ) by {
                assert(self.compacted_subtrees.keys().contains(p));
                let j = self.compacted_subtrees.keys().index_of(p);
                assert(self.compacted_subtrees.keys()[j] == p);
            }
            lemma_total_empty(inside(self@.compacted, root@), Tally::Events);
            lemma_total_empty(inside(self@.compacted, root@), Tally::Intents);
            lemma_total_empty(inside(self@.compacted, root@), Tally::Compactions);
            assert(self@.compacted =~= outside(before.compacted, root@));
        }
        (event_sum, intent_sum, compactions, first)
    }

    fn upsert_reconcile_intent(&mut self, root: &FsPath, observed_at: SystemTime)
        requires
            old(self).rep(),
            within(root@, old(self)@.watch_root),
        ensures
            final(self).rep(),
            final(self)@ == with_reconcile_intent(old(self)@, root@, observed_at),
    {
        let ghost before = self@;
        let path = match self.intent_map.get(root) {
            Some(existing) => existing.path.clone(),
            None => {
                self.tracker.track(root);
                root.clone()
            },
        };
        let record = PendingIntentRecord {
            path,
            kind: PendingIntentKind::ReconcileSubtree,
            observed_at,
        };
        proof {
            lemma_refs_with_intent(before, root@, record@);
        }
        self.intent_map.insert(root.clone(), record);
        assert(self@ =~= with_reconcile_intent(before, root@, observed_at));
    }

    fn schedule_deferred_reconcile(
        &mut self,
        root: &FsPath,
        reason: StormReason,
        observed_at: SystemTime,
        available_at: SystemTime,
    )
        requires
            old(self).rep(),
            within(root@, old(self)@.watch_root),
        ensures
            final(self).rep(),
            final(self)@ == with_deferred(old(self)@, root@, reason, observed_at, available_at),
    {
        let ghost before = self@;
        let record = match self.deferred_reconciles.get(root) {
            Some(existing) => DeferredReconcileRecord {
                root: existing.root.clone(),
                reason,
                first_detected_at: existing.first_detected_at,
                last_observed_at: observed_at,
                available_at: existing.available_at.later(available_at),
                reschedule_count: saturating_sum(existing.reschedule_count, 1),
            },
            None => {
                self.tracker.track(root);
                DeferredReconcileRecord {
                    root: root.clone(),
                    reason,
                    first_detected_at: observed_at,
                    last_observed_at: observed_at,
                    available_at,
                    reschedule_count: 0,
                }
            },
        };
        proof {
            lemma_refs_with_deferral(before, root@, record@);
        }
        self.deferred_reconciles.insert(root.clone(), record);
        assert(self@ =~= with_deferred(before, root@, reason, observed_at, available_at));
    }

    /// Replaces everything pending at or below `root` by one marker.
    fn compact_subtree(
        &mut self,
        root: &FsPath,
        reason: BackpressureReason,
        observed_at: SystemTime,
        deferred_available_at: Option<SystemTime>,
    )
        requires
            old(self).rep(),
            within(root@, old(self)@.watch_root),
        ensures
            final(self).rep(),
            final(self)@ == compacted_at(
                old(self)@,
                root@,
                reason,
                observed_at,
                deferred_available_at,
            ),
    {
        let ghost before = self@;
        let events: usize = self.sweep_events(root);
        let intents: usize = self.sweep_intents(root);
        let _deferrals: usize = self.sweep_deferrals(root);
        let (event_sum, intent_sum, compactions, first) = self.merge_compacted(
            root,
            events,
            intents,
        );
        assert(self@ =~= swept(before, root@));
        let record = CompactedSubtreeRecord {
            root: root.clone(),
            reason,
            first_compacted_at: match first {
                Some(at) => at,
                None => observed_at,
            },
            last_observed_at: observed_at,
            suppressed_event_count: event_sum,
            suppressed_intent_count: intent_sum,
            compaction_count: compactions,
        };
        assert(record@ == compaction_record(before, root@, reason, observed_at));
        let ghost clean = self@;
        self.compacted_subtrees.insert(root.clone(), record);
        proof {
            assert(self@ =~= (MapsView {
                compacted: clean.compacted.insert(root@, record@),
                ..clean
            }));
            assert(refs_of(self@) =~= refs_of(clean));
        }
        match (deferred_available_at, reason.storm_reason()) {
            (Some(available_at), Some(storm)) => {
                self.schedule_deferred_reconcile(root, storm, observed_at, available_at);
            },
            _ => {
                self.upsert_reconcile_intent(root, observed_at);
            },
        }
    }

    fn refresh_compacted_subtree_reconcile(&mut self, root: &FsPath, observed_at: SystemTime)
        requires
            old(self).rep(),
            within(root@, old(self)@.watch_root),
            observed_at.can_add(old(self)@.storm.thresholds.deferred_reconcile_delay),
        ensures
            final(self).rep(),
            final(self)@ == refreshed(old(self)@, root@, observed_at),
    {
        match self.compacted_storm_reason(root) {
            Some(reason) => {
                let available_at = self.storm_detector.deferred_available_at(observed_at);
                self.schedule_deferred_reconcile(root, reason, observed_at, available_at);
            },
            None => {
                self.upsert_reconcile_intent(root, observed_at);
            },
        }
    }

    fn compacted_storm_reason(&self, root: &FsPath) -> (r: Option<StormReason>)
        ensures
            r == if self@.compacted.contains_key(root@) {
                storm_reason_of(self@.compacted[root@].reason)
            } else {
                None
            },
    {
        match self.compacted_subtrees.get(root) {
            Some(record) => record.reason.storm_reason(),
            None => None,
        }
    }

    fn note_absorbed_event(&mut self, root: &FsPath, observed_at: SystemTime)
        requires
            old(self).rep(),
            within(root@, old(self)@.watch_root),
            observed_at.can_add(old(self)@.storm.thresholds.deferred_reconcile_delay),
        ensures
            final(self).rep(),
            final(self)@ == absorbed_event(old(self)@, root@, observed_at),
    {
        let ghost before = self@;
        if let Some(record) = self.compacted_subtrees.remove(root) {
            let mut record = record;
            record.note_event(observed_at);
            self.compacted_subtrees.insert(root.clone(), record);
            assert(self@.compacted =~= before.compacted.insert(root@, record@));
        } else {
            assert(self@.compacted =~= before.compacted);
        }
        proof {
            assert(refs_of(self@) =~= refs_of(before));
        }
        self.refresh_compacted_subtree_reconcile(root, observed_at);
    }

    fn note_absorbed_intent(&mut self, root: &FsPath, observed_at: SystemTime)
        requires
            old(self).rep(),
            within(root@, old(self)@.watch_root),
            observed_at.can_add(old(self)@.storm.thresholds.deferred_reconcile_delay),
        ensures
            final(self).rep(),
            final(self)@ == absorbed_intent(old(self)@, root@, observed_at),
    {
        let ghost before = self@;
        if let Some(record) = self.compacted_subtrees.remove(root) {
            let mut record = record;
            record.note_intent(observed_at);
            self.compacted_subtrees.insert(root.clone(), record);
            assert(self@.compacted =~= before.compacted.insert(root@, record@));
        } else {
            assert(self@.compacted =~= before.compacted);
        }
        proof {
            assert(refs_of(self@) =~= refs_of(before));
        }
        self.refresh_compacted_subtree_reconcile(root, observed_at);
    }

    /// The deepest compacted directory that holds `path`.
    fn compacted_subtree_root_for(&self, path: &FsPath) -> (r: Option<FsPath>)
        ensures
            match r {
                Some(root) => governing(self@.compacted, path@) == Some(root@),
                None => governing(self@.compacted, path@) is None,
            },
    {
        let mut n: usize = path.len();
        loop
            invariant
                n <= path@.len(),
                governing(self@.compacted, path@) == governing_from(
                    self@.compacted,
                    path@,
                    n as nat,
                ),
            decreases n,
        {
            let candidate = path.prefix(n);
            if self.compacted_subtrees.contains(&candidate) {
                return Some(candidate);
            }
            if n == 0 {
                return None;
            }
            n = n - 1;
        }
    }

    /// The deepest full directory above `path`, short of the watch root.
    fn deepest_full_subtree_for_path(&self, path: &FsPath) -> (r: Option<FsPath>)
        requires
            self.rep(),
        ensures
            match r {
                Some(root) => full_subtree(self@, path@) == Some(root@),
                None => full_subtree(self@, path@) is None,
            },
    {
        let mut n: usize = path.len();
        assert(refs_of(self@).dom() =~= pending_paths(self@));
        loop
            invariant
                self.rep(),
                refs_of(self@).dom() == pending_paths(self@),
                n <= path@.len(),
                full_subtree(self@, path@) == full_subtree_from(self@, path@, n as nat),
            decreases n,
        {
            let candidate = path.prefix(n);
            if !candidate.starts_with(&self.watch_root) {
                return None;
            }
            if !candidate.same(&self.watch_root) && self.tracker.pending_below(&candidate)
                >= self.limits.max_pending_paths_per_subtree {
                return Some(candidate);
            }
            if n == 0 || candidate.parent().is_none() {
                return None;
            }
            n = n - 1;
        }
    }

    /// Makes room for a new pending path; gives the compacted directory that
    /// takes it in, if one does.
    fn prepare_capacity_for_new_path(&mut self, path: &FsPath, observed_at: SystemTime) -> (r:
        Option<FsPath>)
        requires
            old(self).rep(),
            within(path@, old(self)@.watch_root),
            governing(old(self)@.compacted, path@) is None,
        ensures
            final(self).rep(),
            final(self)@ == prepared(old(self)@, path@, observed_at),
            match r {
                Some(root) => governing(final(self)@.compacted, path@) == Some(root@),
                None => governing(final(self)@.compacted, path@) is None,
            },
    {
        let ghost before = self@;
        assert(refs_of(self@).dom() =~= pending_paths(self@));
        match self.deepest_full_subtree_for_path(path) {
            Some(root) => {
                proof {
                    lemma_full_subtree(before, path@, path@.len());
                }
                self.compact_subtree(
                    &root,
                    BackpressureReason::SubtreeCapExceeded,
                    observed_at,
                    None,
                );
            },
            None => {
                if self.tracker.path_count() >= self.limits.max_pending_paths {
                    let root = self.watch_root.clone();
                    proof {
                        lemma_within_reflexive(root@);
                    }
                    self.compact_subtree(
                        &root,
                        BackpressureReason::GlobalCapExceeded,
                        observed_at,
                        None,
                    );
                }
            },
        }
        self.compacted_subtree_root_for(path)
    }
}

proof fn lemma_full_subtree(v: MapsView, path: Seq<Part>, n: nat)
    requires
        n <= path.len(),
        forall|i: int| n <= i < path.len() ==> is_removable(#[trigger] path[i]),
    ensures
        match full_subtree_from(v, path, n) {
            Some(root) => {
                &&& within(root, v.watch_root)
                &&& root != v.watch_root
                &&& is_ancestor(root, path)
            },
            None => forall|d: Seq<Part>|
                #![trigger is_ancestor(d, path)]
                is_ancestor(d, path) && within(d, v.watch_root) && d != v.watch_root && d.len() <= n
                    ==> pending_below(v, d) < v.limits.max_pending_paths_per_subtree,
        },
    decreases n,
{
    let here = path.take(n as int);
    assert(here.len() == n);
    assert(path.take(here.len() as int) == here);
    if within(here, v.watch_root) {
        if here != v.watch_root && pending_below(v, here)
            >= v.limits.max_pending_paths_per_subtree {
        } else {
            if n > 0 && has_parent(here) {
                assert(here.last() == path[n - 1]);
                lemma_full_subtree(v, path, (n - 1) as nat);
            }
            if full_subtree_from(v, path, n) is None {
                assert forall|d: Seq<Part>|
                    #![trigger is_ancestor(d, path)]
                    is_ancestor(d, path) && within(d, v.watch_root) && d != v.watch_root && d.len()
                        <= n implies pending_below(v, d)
                    < v.limits.max_pending_paths_per_subtree by {
                    if d.len() == n {
                        assert(d == here);
                    } else {
                        assert(is_removable(path[n - 1]));
                        assert(here.last() == path[n - 1]);
                    }
                }
            }
        }
    } else {
        assert forall|d: Seq<Part>|
            #![trigger is_ancestor(d, path)]
            is_ancestor(d, path) && within(d, v.watch_root) && d.len() <= n implies false by {
            lemma_within_transitive(path, d, v.watch_root);
            assert(here.take(v.watch_root.len() as int) =~= path.take(v.watch_root.len() as int));
        }
    }
}


// ---------------------------------------------------------------------------
// What every operation keeps
// ---------------------------------------------------------------------------

/// Pending paths that are not markers of compacted subtrees.
pub open spec fn plain_paths(v: MapsView) -> Set<Seq<Part>> {
    pending_paths(v).difference(v.compacted.dom())
}

/// Every record stands under its own path.
pub open spec fn keyed_by_path(v: MapsView) -> bool {
    &&& forall|p: Seq<Part>| #[trigger] v.events.contains_key(p) ==> v.events[p].path == p
    &&& forall|p: Seq<Part>| #[trigger] v.intents.contains_key(p) ==> v.intents[p].path == p
    &&& forall|p: Seq<Part>| #[trigger] v.deferred.contains_key(p) ==> v.deferred[p].root == p
    &&& forall|p: Seq<Part>| #[trigger] v.compacted.contains_key(p) ==> v.compacted[p].root == p
}

/// Inside a compacted subtree nothing is pending but its own marker, no
/// compacted subtree lies in another, and only compacted subtrees have a
/// deferred reconcile.
pub open spec fn absorbed_inside(v: MapsView) -> bool {
    &&& forall|c: Seq<Part>, p: Seq<Part>|
        #![trigger v.compacted.contains_key(c), v.events.contains_key(p)]
        v.compacted.contains_key(c) && v.events.contains_key(p) ==> !within(p, c)
    &&& forall|c: Seq<Part>, p: Seq<Part>|
        #![trigger v.compacted.contains_key(c), v.intents.contains_key(p)]
        v.compacted.contains_key(c) && v.intents.contains_key(p) && within(p, c) ==> p == c
            && v.intents[p].kind == PendingIntentKind::ReconcileSubtree
    &&& forall|c: Seq<Part>, p: Seq<Part>|
        #![trigger v.compacted.contains_key(c), v.deferred.contains_key(p)]
        v.compacted.contains_key(c) && v.deferred.contains_key(p) && within(p, c) ==> p == c
    &&& forall|c: Seq<Part>, p: Seq<Part>|
        #![trigger v.compacted.contains_key(c), v.compacted.contains_key(p)]
        v.compacted.contains_key(c) && v.compacted.contains_key(p) && within(p, c) ==> p == c
    &&& forall|p: Seq<Part>| #[trigger] v.deferred.contains_key(p) ==> v.compacted.contains_key(p)
}

/// A reconcile is deferred only for a subtree that a storm compacted, and for
/// the storm's reason.
pub open spec fn deferred_for_storms(v: MapsView) -> bool {
    forall|p: Seq<Part>| #[trigger]
        v.deferred.contains_key(p) ==> v.compacted.contains_key(p) && storm_reason_of(
            v.compacted[p].reason,
        ) == Some(v.deferred[p].reason)
}

/// Apart from markers, no more paths are pending than the limits allow, in
/// all and below any directory.
pub open spec fn within_limits(v: MapsView) -> bool {
    &&& plain_paths(v).len() <= v.limits.max_pending_paths
    &&& forall|d: Seq<Part>|
        d != v.watch_root ==> #[trigger] count_below(plain_paths(v), v.watch_root, d)
            <= v.limits.max_pending_paths_per_subtree
}

pub open spec fn finite_maps(v: MapsView) -> bool {
    &&& v.events.dom().finite()
    &&& v.intents.dom().finite()
    &&& v.deferred.dom().finite()
    &&& v.compacted.dom().finite()
}

/// The properties every operation keeps.
pub open spec fn settled(v: MapsView) -> bool {
    &&& finite_maps(v)
    &&& keys_in_scope(v)
    &&& keyed_by_path(v)
    &&& absorbed_inside(v)
    &&& deferred_for_storms(v)
    &&& within_limits(v)
    &&& v.storm.watch_root == v.watch_root
}

proof fn lemma_count_below_subset(
    small: Set<Seq<Part>>,
    large: Set<Seq<Part>>,
    root: Seq<Part>,
    d: Seq<Part>,
)
    requires
        small.subset_of(large),
        large.finite(),
    ensures
        count_below(small, root, d) <= count_below(large, root, d),
{
    let f = |p: Seq<Part>| is_ancestor(d, p);
    assert(small.filter(f).subset_of(large.filter(f)));
    vstd::set_lib::lemma_len_subset(small.filter(f), large.filter(f));
}

proof fn lemma_limits_subset(before: MapsView, after: MapsView)
    requires
        finite_maps(before),
        within_limits(before),
        plain_paths(after).subset_of(plain_paths(before)),
        after.limits == before.limits,
        after.watch_root == before.watch_root,
    ensures
        within_limits(after),
{
    assert(plain_paths(before).finite());
    vstd::set_lib::lemma_len_subset(plain_paths(after), plain_paths(before));
    assert forall|d: Seq<Part>| d != after.watch_root implies #[trigger] count_below(
        plain_paths(after),
        after.watch_root,
        d,
    ) <= after.limits.max_pending_paths_per_subtree by {
        lemma_count_below_subset(plain_paths(after), plain_paths(before), before.watch_root, d);
        assert(count_below(plain_paths(before), before.watch_root, d)
            <= before.limits.max_pending_paths_per_subtree);
    }
}

proof fn lemma_outside_finite<V>(m: Map<Seq<Part>, V>, root: Seq<Part>)
    requires
        m.dom().finite(),
    ensures
        outside(m, root).dom().finite(),
{
    assert(outside(m, root).dom().subset_of(m.dom()));
    vstd::set_lib::lemma_len_subset(outside(m, root).dom(), m.dom());
}

/// Compacting a subtree that no compacted one holds keeps the properties.
proof fn lemma_compacted_settled(
    v: MapsView,
    root: Seq<Part>,
    reason: BackpressureReason,
    at: SystemTime,
    deferred_at: Option<SystemTime>,
)
    requires
        settled(v),
        within(root, v.watch_root),
        forall|c: Seq<Part>| #[trigger] v.compacted.contains_key(c) ==> !within(root, c),
    ensures
        settled(compacted_at(v, root, reason, at, deferred_at)),
        compacted_at(v, root, reason, at, deferred_at).compacted.contains_key(root),
        compacted_at(v, root, reason, at, deferred_at).limits == v.limits,
        compacted_at(v, root, reason, at, deferred_at).watch_root == v.watch_root,
        compacted_at(v, root, reason, at, deferred_at).storm == v.storm,
{
    let after = compacted_at(v, root, reason, at, deferred_at);
    lemma_outside_finite(v.events, root);
    lemma_outside_finite(v.intents, root);
    lemma_outside_finite(v.deferred, root);
    lemma_outside_finite(v.compacted, root);
    lemma_within_reflexive(root);
    assert(plain_paths(after).subset_of(plain_paths(v))) by {
        assert forall|p: Seq<Part>| plain_paths(after).contains(p) implies plain_paths(
            v,
        ).contains(p) by {
            if v.compacted.contains_key(p) {
                assert(!within(p, root));
                assert(after.compacted.contains_key(p));
            }
        }
    }
    lemma_limits_subset(v, after);
    assert forall|c: Seq<Part>, p: Seq<Part>|
        #![trigger after.compacted.contains_key(c), after.events.contains_key(p)]
        after.compacted.contains_key(c) && after.events.contains_key(p) implies !within(p, c) by {
        if c != root {
            assert(v.compacted.contains_key(c) && v.events.contains_key(p));
        }
    }
    assert forall|c: Seq<Part>, p: Seq<Part>|
        #![trigger after.compacted.contains_key(c), after.intents.contains_key(p)]
        after.compacted.contains_key(c) && after.intents.contains_key(p) && within(p, c) implies p
        == c && after.intents[p].kind == PendingIntentKind::ReconcileSubtree by {
        if c != root {
            assert(v.compacted.contains_key(c));
            if p != root {
                assert(v.intents.contains_key(p));
            }
        }
    }
    assert forall|c: Seq<Part>, p: Seq<Part>|
        #![trigger after.compacted.contains_key(c), after.deferred.contains_key(p)]
        after.compacted.contains_key(c) && after.deferred.contains_key(p) && within(p, c) implies p
        == c by {
        if c != root {
            assert(v.compacted.contains_key(c));
            if p != root {
                assert(v.deferred.contains_key(p));
            }
        }
    }
    assert forall|c: Seq<Part>, p: Seq<Part>|
        #![trigger after.compacted.contains_key(c), after.compacted.contains_key(p)]
        after.compacted.contains_key(c) && after.compacted.contains_key(p) && within(
            p,
            c,
        ) implies p == c by {
        if c != root {
            assert(v.compacted.contains_key(c));
            if p != root {
                assert(v.compacted.contains_key(p));
            }
        }
    }
    assert forall|p: Seq<Part>| #[trigger]
        after.deferred.contains_key(p) implies after.compacted.contains_key(p) by {
        if p != root {
            assert(v.deferred.contains_key(p));
        }
    }
}

/// Renewing the marker of a compacted subtree keeps the properties.
proof fn lemma_refreshed_settled(v: MapsView, root: Seq<Part>, at: SystemTime)
    requires
        settled(v),
        v.compacted.contains_key(root),
    ensures
        settled(refreshed(v, root, at)),
{
    let after = refreshed(v, root, at);
    lemma_within_reflexive(root);
    assert(plain_paths(after).subset_of(plain_paths(v)));
    lemma_limits_subset(v, after);
    assert forall|c: Seq<Part>, p: Seq<Part>|
        #![trigger after.compacted.contains_key(c), after.intents.contains_key(p)]
        after.compacted.contains_key(c) && after.intents.contains_key(p) && within(p, c) implies p
        == c && after.intents[p].kind == PendingIntentKind::ReconcileSubtree by {
        if p == root {
            assert(v.compacted.contains_key(c) && v.compacted.contains_key(p));
        } else {
            assert(v.intents.contains_key(p));
        }
    }
    assert forall|c: Seq<Part>, p: Seq<Part>|
        #![trigger after.compacted.contains_key(c), after.deferred.contains_key(p)]
        after.compacted.contains_key(c) && after.deferred.contains_key(p) && within(p, c) implies p
        == c by {
        if p == root {
            assert(v.compacted.contains_key(c) && v.compacted.contains_key(p));
        } else {
            assert(v.deferred.contains_key(p));
        }
    }
}

proof fn lemma_record_swapped_settled(v: MapsView, root: Seq<Part>, record: CompactedView)
    requires
        settled(v),
        v.compacted.contains_key(root),
        record.root == root,
        record.reason == v.compacted[root].reason,
    ensures
        settled(MapsView { compacted: v.compacted.insert(root, record), ..v }),
{
    let after = MapsView { compacted: v.compacted.insert(root, record), ..v };
    assert(after.compacted.dom() =~= v.compacted.dom());
    assert(plain_paths(after) =~= plain_paths(v));
    lemma_limits_subset(v, after);
    assert forall|p: Seq<Part>| #[trigger]
        after.compacted.contains_key(p) == v.compacted.contains_key(p) by {}
}

proof fn lemma_absorbed_event_settled(v: MapsView, root: Seq<Part>, at: SystemTime)
    requires
        settled(v),
        v.compacted.contains_key(root),
    ensures
        settled(absorbed_event(v, root, at)),
{
    let record = noted_event(v.compacted[root], at);
    lemma_record_swapped_settled(v, root, record);
    lemma_refreshed_settled(
        MapsView { compacted: v.compacted.insert(root, record), ..v },
        root,
        at,
    );
}

proof fn lemma_absorbed_intent_settled(v: MapsView, root: Seq<Part>, at: SystemTime)
    requires
        settled(v),
        v.compacted.contains_key(root),
    ensures
        settled(absorbed_intent(v, root, at)),
{
    let record = noted_intent(v.compacted[root], at);
    lemma_record_swapped_settled(v, root, record);
    lemma_refreshed_settled(
        MapsView { compacted: v.compacted.insert(root, record), ..v },
        root,
        at,
    );
}

/// Making room either leaves everything as it is, with room for the path,
/// or compacts a directory that takes the path in.
proof fn lemma_prepared_settled(v: MapsView, path: Seq<Part>, at: SystemTime)
    requires
        settled(v),
        within(path, v.watch_root),
        governing(v.compacted, path) is None,
    ensures
        settled(prepared(v, path, at)),
        prepared(v, path, at).watch_root == v.watch_root,
        prepared(v, path, at).limits == v.limits,
        prepared(v, path, at).storm == v.storm,
        governing(prepared(v, path, at).compacted, path) is None ==> {
            &&& prepared(v, path, at) == v
            &&& pending_paths(v).len() < v.limits.max_pending_paths
            &&& forall|d: Seq<Part>|
                #![trigger is_ancestor(d, path)]
                is_ancestor(d, path) && within(d, v.watch_root) && d != v.watch_root
                    ==> pending_below(v, d) < v.limits.max_pending_paths_per_subtree
        },
{
    let after = prepared(v, path, at);
    lemma_governing(v.compacted, path);
    lemma_governing(after.compacted, path);
    lemma_full_subtree(v, path, path.len());
    lemma_within_reflexive(v.watch_root);
    match full_subtree(v, path) {
        Some(root) => {
            assert forall|c: Seq<Part>| #[trigger] v.compacted.contains_key(c) implies !within(
                root,
                c,
            ) by {
                if within(root, c) {
                    lemma_within_transitive(path, root, c);
                }
            }
            lemma_compacted_settled(v, root, BackpressureReason::SubtreeCapExceeded, at, None);
        },
        None => {
            if pending_paths(v).len() >= v.limits.max_pending_paths {
                assert forall|c: Seq<Part>| #[trigger] v.compacted.contains_key(c) implies !within(
                    v.watch_root,
                    c,
                ) by {
                    if within(v.watch_root, c) {
                        lemma_within_transitive(path, v.watch_root, c);
                    }
                }
                lemma_compacted_settled(
                    v,
                    v.watch_root,
                    BackpressureReason::GlobalCapExceeded,
                    at,
                    None,
                );
            }
        },
    }
}

proof fn lemma_limits_grown(before: MapsView, after: MapsView, path: Seq<Part>)
    requires
        finite_maps(before),
        within_limits(before),
        after.limits == before.limits,
        after.watch_root == before.watch_root,
        plain_paths(after).subset_of(plain_paths(before).insert(path)),
        !pending_paths(before).contains(path) ==> {
            &&& pending_paths(before).len() < before.limits.max_pending_paths
            &&& forall|d: Seq<Part>|
                #![trigger is_ancestor(d, path)]
                is_ancestor(d, path) && within(d, before.watch_root) && d != before.watch_root
                    ==> pending_below(before, d) < before.limits.max_pending_paths_per_subtree
        },
        pending_paths(before).contains(path) ==> plain_paths(before).contains(path),
    ensures
        within_limits(after),
{
    if pending_paths(before).contains(path) {
        assert(plain_paths(before).insert(path) =~= plain_paths(before));
        lemma_limits_subset(before, after);
    } else {
        let all = pending_paths(before);
        assert(all.finite());
        assert(plain_paths(before).subset_of(all));
        assert(plain_paths(after).subset_of(all.insert(path)));
        vstd::set_lib::lemma_len_subset(plain_paths(after), all.insert(path));
        assert forall|d: Seq<Part>| d != after.watch_root implies #[trigger] count_below(
            plain_paths(after),
            after.watch_root,
            d,
        ) <= after.limits.max_pending_paths_per_subtree by {
            if is_ancestor(d, path) && within(d, before.watch_root) {
                lemma_count_below_subset(
                    plain_paths(after),
                    all.insert(path),
                    before.watch_root,
                    d,
                );
                crate::tracker::lemma_count_below_insert(all, before.watch_root, path, d);
            } else {
                let f = |p: Seq<Part>| is_ancestor(d, p);
                if within(d, before.watch_root) {
                    assert(plain_paths(after).filter(f).subset_of(plain_paths(before).filter(f)));
                    assert(plain_paths(before).finite());
                    vstd::set_lib::lemma_len_subset(
                        plain_paths(after).filter(f),
                        plain_paths(before).filter(f),
                    );
                }
                assert(count_below(plain_paths(before), before.watch_root, d)
                    <= before.limits.max_pending_paths_per_subtree);
            }
        }
    }
}

/// A settled storage stays settled when an event is stored for a path that
/// no compacted subtree holds and for which there is room.
proof fn lemma_event_stored_settled(v: MapsView, path: Seq<Part>, record: EventView)
    requires
        settled(v),
        within(path, v.watch_root),
        governing(v.compacted, path) is None,
        record.path == path,
        !pending_paths(v).contains(path) ==> {
            &&& pending_paths(v).len() < v.limits.max_pending_paths
            &&& forall|d: Seq<Part>|
                #![trigger is_ancestor(d, path)]
                is_ancestor(d, path) && within(d, v.watch_root) && d != v.watch_root
                    ==> pending_below(v, d) < v.limits.max_pending_paths_per_subtree
        },
    ensures
        settled(MapsView { events: v.events.insert(path, record), ..v }),
{
    let after = MapsView { events: v.events.insert(path, record), ..v };
    lemma_governing(v.compacted, path);
    lemma_within_reflexive(path);
    assert(pending_paths(after) =~= pending_paths(v).insert(path));
    assert(plain_paths(after) =~= plain_paths(v).insert(path));
    lemma_limits_grown(v, after, path);
    assert forall|c: Seq<Part>, p: Seq<Part>|
        #![trigger after.compacted.contains_key(c), after.events.contains_key(p)]
        after.compacted.contains_key(c) && after.events.contains_key(p) implies !within(p, c) by {
        if p != path {
            assert(v.events.contains_key(p) && v.compacted.contains_key(c));
        }
    }
}

proof fn lemma_intent_stored_settled(v: MapsView, path: Seq<Part>, record: IntentView)
    requires
        settled(v),
        within(path, v.watch_root),
        governing(v.compacted, path) is None,
        record.path == path,
        !pending_paths(v).contains(path) ==> {
            &&& pending_paths(v).len() < v.limits.max_pending_paths
            &&& forall|d: Seq<Part>|
                #![trigger is_ancestor(d, path)]
                is_ancestor(d, path) && within(d, v.watch_root) && d != v.watch_root
                    ==> pending_below(v, d) < v.limits.max_pending_paths_per_subtree
        },
    ensures
        settled(MapsView { intents: v.intents.insert(path, record), ..v }),
{
    let after = MapsView { intents: v.intents.insert(path, record), ..v };
    lemma_governing(v.compacted, path);
    lemma_within_reflexive(path);
    assert(pending_paths(after) =~= pending_paths(v).insert(path));
    assert(plain_paths(after) =~= plain_paths(v).insert(path));
    lemma_limits_grown(v, after, path);
    assert forall|c: Seq<Part>, p: Seq<Part>|
        #![trigger after.compacted.contains_key(c), after.intents.contains_key(p)]
        after.compacted.contains_key(c) && after.intents.contains_key(p) && within(p, c) implies p
        == c && after.intents[p].kind == PendingIntentKind::ReconcileSubtree by {
        if p != path {
            assert(v.intents.contains_key(p) && v.compacted.contains_key(c));
        }
    }
}

proof fn lemma_storm_checked_settled(v: MapsView, event: FsEventView)
    requires
        settled(v),
        within(event.path, v.watch_root),
        governing(v.compacted, event.path) is None,
    ensures
        settled(storm_checked(v, event)),
{
    let (storm, trigger) = observed(v.storm, event.path, event.observed_at, v.events.dom().len());
    let seen = MapsView { storm, ..v };
    assert(plain_paths(seen) =~= plain_paths(v));
    lemma_limits_subset(v, seen);
    assert(settled(seen));
    if let Some(t) = trigger {
        lemma_governing(v.compacted, event.path);
        lemma_within_reflexive(v.watch_root);
        assert(within(event.path, t.root) && within(t.root, v.watch_root)) by {
            let p = event.path;
            if t.root != v.watch_root {
                assert(p.take(p.len() - 1) =~= p.drop_last());
            }
        }
        assert forall|c: Seq<Part>| #[trigger] seen.compacted.contains_key(c) implies !within(
            t.root,
            c,
        ) by {
            if within(t.root, c) {
                lemma_within_transitive(event.path, t.root, c);
            }
        }
        lemma_compacted_settled(
            seen,
            t.root,
            backpressure_of(t.reason),
            event.observed_at,
            Some(t.available_at),
        );
    }
}

/// Recording an event keeps the storage settled.
pub proof fn law_event_keeps_settled(v: MapsView, event: FsEventView)
    requires
        settled(v),
    ensures
        settled(event_recorded(v, event)),
{
    let path = event.path;
    let at = event.observed_at;
    if within(path, v.watch_root) {
        lemma_governing(v.compacted, path);
        match governing(v.compacted, path) {
            Some(root) => {
                lemma_absorbed_event_settled(v, root, at);
            },
            None => {
                if v.events.contains_key(path) {
                    let record = bumped(v.events[path], event);
                    lemma_event_stored_settled(v, path, record);
                    lemma_storm_checked_settled(
                        MapsView { events: v.events.insert(path, record), ..v },
                        event,
                    );
                } else {
                    lemma_prepared_settled(v, path, at);
                    let ready = if pending_paths(v).contains(path) {
                        v
                    } else {
                        prepared(v, path, at)
                    };
                    lemma_governing(ready.compacted, path);
                    match governing(ready.compacted, path) {
                        Some(root) => {
                            lemma_absorbed_event_settled(ready, root, at);
                        },
                        None => {
                            lemma_event_stored_settled(ready, path, first_event(event));
                            lemma_storm_checked_settled(
                                MapsView {
                                    events: ready.events.insert(path, first_event(event)),
                                    ..ready
                                },
                                event,
                            );
                        },
                    }
                }
            },
        }
    }
}

/// Setting an intent keeps the storage settled.
pub proof fn law_intent_keeps_settled(
    v: MapsView,
    path: Seq<Part>,
    kind: PendingIntentKind,
    at: SystemTime,
)
    requires
        settled(v),
    ensures
        settled(intent_upserted(v, path, kind, at)),
{
    if within(path, v.watch_root) {
        lemma_governing(v.compacted, path);
        match governing(v.compacted, path) {
            Some(root) => {
                lemma_absorbed_intent_settled(v, root, at);
            },
            None => {
                lemma_prepared_settled(v, path, at);
                let ready = if pending_paths(v).contains(path) {
                    v
                } else {
                    prepared(v, path, at)
                };
                lemma_governing(ready.compacted, path);
                match governing(ready.compacted, path) {
                    Some(root) => {
                        lemma_absorbed_intent_settled(ready, root, at);
                    },
                    None => {
                        let record = IntentView {
                            path: if ready.intents.contains_key(path) {
                                ready.intents[path].path
                            } else {
                                path
                            },
                            kind,
                            observed_at: at,
                        };
                        lemma_intent_stored_settled(ready, path, record);
                    },
                }
            },
        }
    }
}


/// Every compacted subtree has its marker pending.
pub open spec fn marked(v: MapsView) -> bool {
    forall|c: Seq<Part>| #[trigger] v.compacted.contains_key(c) ==> pending_paths(v).contains(c)
}

/// No more paths are pending than the limit allows, markers among them.
pub open spec fn bounded(v: MapsView) -> bool {
    marked(v) && pending_paths(v).len() <= v.limits.max_pending_paths
}

/// Both limits leave room for a path.
pub open spec fn roomy(limits: EventIntentLimits) -> bool {
    limits.max_pending_paths >= 1 && limits.max_pending_paths_per_subtree >= 1
}

/// One marker takes the place of all that a subtree held: where that was
/// anything, no more is pending than before.
proof fn lemma_compacted_bounded(
    v: MapsView,
    root: Seq<Part>,
    reason: BackpressureReason,
    at: SystemTime,
    deferred_at: Option<SystemTime>,
    held: Seq<Part>,
)
    requires
        finite_maps(v),
        marked(v),
        pending_paths(v).contains(held),
        within(held, root),
    ensures
        marked(compacted_at(v, root, reason, at, deferred_at)),
        pending_paths(compacted_at(v, root, reason, at, deferred_at)).len() <= pending_paths(
            v,
        ).len(),
{
    let after = compacted_at(v, root, reason, at, deferred_at);
    let all = pending_paths(v);
    assert(all.finite());
    assert(pending_paths(after).subset_of(all.remove(held).insert(root))) by {
        assert forall|p: Seq<Part>| pending_paths(after).contains(p) implies all.remove(
            held,
        ).insert(root).contains(p) by {
            if p != root {
                assert(!within(p, root));
            }
        }
    }
    vstd::set_lib::lemma_len_subset(pending_paths(after), all.remove(held).insert(root));
    assert forall|c: Seq<Part>| #[trigger] after.compacted.contains_key(c) implies pending_paths(
        after,
    ).contains(c) by {
        if c != root {
            assert(v.compacted.contains_key(c));
            assert(!within(c, root));
        }
    }
}

proof fn lemma_refreshed_bounded(v: MapsView, root: Seq<Part>, at: SystemTime)
    requires
        bounded(v),
        v.compacted.contains_key(root),
    ensures
        bounded(refreshed(v, root, at)),
{
    assert(pending_paths(refreshed(v, root, at)) =~= pending_paths(v));
}

proof fn lemma_absorbed_event_bounded(v: MapsView, root: Seq<Part>, at: SystemTime)
    requires
        bounded(v),
        v.compacted.contains_key(root),
    ensures
        bounded(absorbed_event(v, root, at)),
{
    let noted = MapsView {
        compacted: v.compacted.insert(root, noted_event(v.compacted[root], at)),
        ..v
    };
    assert(pending_paths(noted) =~= pending_paths(v));
    assert(bounded(noted));
    lemma_refreshed_bounded(noted, root, at);
}

proof fn lemma_absorbed_intent_bounded(v: MapsView, root: Seq<Part>, at: SystemTime)
    requires
        bounded(v),
        v.compacted.contains_key(root),
    ensures
        bounded(absorbed_intent(v, root, at)),
{
    let noted = MapsView {
        compacted: v.compacted.insert(root, noted_intent(v.compacted[root], at)),
        ..v
    };
    assert(pending_paths(noted) =~= pending_paths(v));
    assert(bounded(noted));
    lemma_refreshed_bounded(noted, root, at);
}

proof fn lemma_prepared_bounded(v: MapsView, path: Seq<Part>, at: SystemTime)
    requires
        settled(v),
        bounded(v),
        roomy(v.limits),
        within(path, v.watch_root),
    ensures
        bounded(prepared(v, path, at)),
{
    lemma_full_subtree(v, path, path.len());
    match full_subtree(v, path) {
        Some(root) => {
            lemma_full_subtree_is_full(v, path, path.len());
            let below = pending_paths(v).filter(|p: Seq<Part>| is_ancestor(root, p));
            assert(below.len() >= 1);
            let held = below.choose();
            assert(below.contains(held)) by {
                if below =~= Set::empty() {
                    assert(below.len() == 0);
                }
            }
            lemma_compacted_bounded(
                v,
                root,
                BackpressureReason::SubtreeCapExceeded,
                at,
                None,
                held,
            );
        },
        None => {
            if pending_paths(v).len() >= v.limits.max_pending_paths {
                let held = pending_paths(v).choose();
                assert(pending_paths(v).contains(held)) by {
                    if pending_paths(v) =~= Set::empty() {
                        assert(pending_paths(v).len() == 0);
                    }
                }
                assert(within(held, v.watch_root));
                lemma_compacted_bounded(
                    v,
                    v.watch_root,
                    BackpressureReason::GlobalCapExceeded,
                    at,
                    None,
                    held,
                );
            }
        },
    }
}

proof fn lemma_full_subtree_is_full(v: MapsView, path: Seq<Part>, n: nat)
    ensures
        full_subtree_from(v, path, n) matches Some(root) ==> within(root, v.watch_root)
            && pending_below(v, root) >= v.limits.max_pending_paths_per_subtree,
    decreases n,
{
    if n > 0 {
        lemma_full_subtree_is_full(v, path, (n - 1) as nat);
    }
}

proof fn lemma_storm_checked_bounded(v: MapsView, event: FsEventView)
    requires
        settled(v),
        bounded(v),
        within(event.path, v.watch_root),
        v.events.contains_key(event.path),
    ensures
        bounded(storm_checked(v, event)),
{
    let (storm, trigger) = observed(v.storm, event.path, event.observed_at, v.events.dom().len());
    let seen = MapsView { storm, ..v };
    assert(pending_paths(seen) =~= pending_paths(v));
    assert(bounded(seen));
    if let Some(t) = trigger {
        assert(within(event.path, t.root)) by {
            let p = event.path;
            if t.root != v.watch_root {
                assert(p.take(p.len() - 1) =~= p.drop_last());
            }
        }
        assert(pending_paths(seen).contains(event.path));
        lemma_compacted_bounded(
            seen,
            t.root,
            backpressure_of(t.reason),
            event.observed_at,
            Some(t.available_at),
            event.path,
        );
    }
}

/// Storing an entry for a path there is room for keeps the bound.
proof fn lemma_stored_bounded(before: MapsView, after: MapsView, path: Seq<Part>)
    requires
        finite_maps(before),
        bounded(before),
        after.limits == before.limits,
        after.compacted == before.compacted,
        pending_paths(after) == pending_paths(before).insert(path),
        pending_paths(before).contains(path) || pending_paths(before).len()
            < before.limits.max_pending_paths,
    ensures
        bounded(after),
{
    assert(pending_paths(before).finite());
    if pending_paths(before).contains(path) {
        assert(pending_paths(after) =~= pending_paths(before));
    }
}

/// Recording an event keeps the bound on the paths that are pending.
pub proof fn law_event_keeps_the_bound(v: MapsView, event: FsEventView)
    requires
        settled(v),
        bounded(v),
        roomy(v.limits),
    ensures
        bounded(event_recorded(v, event)),
{
    let path = event.path;
    let at = event.observed_at;
    if within(path, v.watch_root) {
        lemma_governing(v.compacted, path);
        match governing(v.compacted, path) {
            Some(root) => {
                lemma_absorbed_event_bounded(v, root, at);
            },
            None => {
                if v.events.contains_key(path) {
                    let record = bumped(v.events[path], event);
                    let stored = MapsView { events: v.events.insert(path, record), ..v };
                    assert(pending_paths(stored) =~= pending_paths(v).insert(path));
                    lemma_stored_bounded(v, stored, path);
                    lemma_event_stored_settled(v, path, record);
                    lemma_storm_checked_bounded(stored, event);
                } else {
                    lemma_prepared_settled(v, path, at);
                    lemma_prepared_bounded(v, path, at);
                    let ready = if pending_paths(v).contains(path) {
                        v
                    } else {
                        prepared(v, path, at)
                    };
                    lemma_governing(ready.compacted, path);
                    match governing(ready.compacted, path) {
                        Some(root) => {
                            lemma_absorbed_event_bounded(ready, root, at);
                        },
                        None => {
                            let stored = MapsView {
                                events: ready.events.insert(path, first_event(event)),
                                ..ready
                            };
                            assert(pending_paths(stored) =~= pending_paths(ready).insert(path));
                            lemma_stored_bounded(ready, stored, path);
                            lemma_event_stored_settled(ready, path, first_event(event));
                            lemma_storm_checked_bounded(stored, event);
                        },
                    }
                }
            },
        }
    }
}

/// Setting an intent keeps the bound on the paths that are pending.
pub proof fn law_intent_keeps_the_bound(
    v: MapsView,
    path: Seq<Part>,
    kind: PendingIntentKind,
    at: SystemTime,
)
    requires
        settled(v),
        bounded(v),
        roomy(v.limits),
    ensures
        bounded(intent_upserted(v, path, kind, at)),
{
    if within(path, v.watch_root) {
        lemma_governing(v.compacted, path);
        match governing(v.compacted, path) {
            Some(root) => {
                lemma_absorbed_intent_bounded(v, root, at);
            },
            None => {
                lemma_prepared_settled(v, path, at);
                lemma_prepared_bounded(v, path, at);
                let ready = if pending_paths(v).contains(path) {
                    v
                } else {
                    prepared(v, path, at)
                };
                lemma_governing(ready.compacted, path);
                match governing(ready.compacted, path) {
                    Some(root) => {
                        lemma_absorbed_intent_bounded(ready, root, at);
                    },
                    None => {
                        let stored = intent_upserted(v, path, kind, at);
                        assert(pending_paths(stored) =~= pending_paths(ready).insert(path));
                        lemma_stored_bounded(ready, stored, path);
                    },
                }
            },
        }
    }
}

/// Something that comes in.
pub enum Arrival {
    Event(FsEventView),
    Intent { path: Seq<Part>, kind: PendingIntentKind, at: SystemTime },
}

/// The storage once things came in, one after the other.
pub open spec fn taken_in(v: MapsView, arrivals: Seq<Arrival>) -> MapsView
    decreases arrivals.len(),
{
    if arrivals.len() == 0 {
        v
    } else {
        let before = taken_in(v, arrivals.drop_last());
        match arrivals.last() {
            Arrival::Event(event) => event_recorded(before, event),
            Arrival::Intent { path, kind, at } => intent_upserted(before, path, kind, at),
        }
    }
}

proof fn lemma_limits_stay(v: MapsView, arrivals: Seq<Arrival>)
    ensures
        taken_in(v, arrivals).limits == v.limits,
    decreases arrivals.len(),
{
    if arrivals.len() > 0 {
        lemma_limits_stay(v, arrivals.drop_last());
    }
}

/// A storage that takes in events and intents never tracks more paths than its
/// limit, markers among them, and nothing is pending below a compacted subtree.
pub proof fn law_tracked_paths_are_bounded(
    watch_root: Seq<Part>,
    limits: EventIntentLimits,
    thresholds: StormThresholds,
    arrivals: Seq<Arrival>,
)
    requires
        roomy(limits),
    ensures
        ({
            let v = taken_in(nothing_pending(watch_root, limits, thresholds), arrivals);
            &&& pending_paths(v).len() <= limits.max_pending_paths
            &&& forall|p: Seq<Part>, r: Seq<Part>|
                v.events.contains_key(p) && v.compacted.contains_key(r) ==> !(#[trigger] within(
                    p,
                    r,
                ))
            &&& settled(v)
            &&& bounded(v)
        }),
    decreases arrivals.len(),
{
    let start = nothing_pending(watch_root, limits, thresholds);
    let v = taken_in(start, arrivals);
    if arrivals.len() == 0 {
        assert(pending_paths(start) =~= Set::empty());
        assert(plain_paths(start) =~= Set::empty());
        assert forall|d: Seq<Part>| #[trigger] count_below(
            plain_paths(start),
            start.watch_root,
            d,
        ) == 0 by {
            assert(plain_paths(start).filter(|p: Seq<Part>| is_ancestor(d, p)) =~= Set::empty());
        }
    } else {
        let before = taken_in(start, arrivals.drop_last());
        law_tracked_paths_are_bounded(watch_root, limits, thresholds, arrivals.drop_last());
        lemma_limits_stay(start, arrivals.drop_last());
        match arrivals.last() {
            Arrival::Event(event) => {
                law_event_keeps_settled(before, event);
                law_event_keeps_the_bound(before, event);
            },
            Arrival::Intent { path, kind, at } => {
                law_intent_keeps_settled(before, path, kind, at);
                law_intent_keeps_the_bound(before, path, kind, at);
            },
        }
    }
    lemma_limits_stay(start, arrivals);
}

/// An event below a subtree whose reconcile is deferred puts that reconcile
/// off, never brings it forward, and defers no other.
pub proof fn law_an_event_puts_a_deferred_reconcile_off(
    v: MapsView,
    root: Seq<Part>,
    event: FsEventView,
)
    requires
        settled(v),
        v.deferred.contains_key(root),
        within(event.path, root),
    ensures
        ({
            let before = v.deferred[root];
            let after = event_recorded(v, event);
            &&& after.deferred.dom() == v.deferred.dom()
            &&& after.deferred[root] == (DeferredView {
                available_at: later_time(
                    before.available_at,
                    time_plus(event.observed_at, v.storm.thresholds.deferred_reconcile_delay),
                ),
                last_observed_at: event.observed_at,
                reschedule_count: saturated((before.reschedule_count + 1) as nat),
                ..before
            })
            &&& after.deferred[root].available_at.nanos >= before.available_at.nanos
            &&& forall|p: Seq<Part>|
                p != root && #[trigger] v.deferred.contains_key(p) ==> after.deferred[p]
                    == v.deferred[p]
        }),
{
    let path = event.path;
    lemma_within_transitive(path, root, v.watch_root);
    lemma_governing(v.compacted, path);
    assert(v.compacted.contains_key(root));
    assert(governing(v.compacted, path) == Some(root)) by {
        let found = governing(v.compacted, path)->0;
        assert(found.len() >= root.len());
        assert(within(found, root)) by {
            assert(found.take(root.len() as int) =~= path.take(root.len() as int));
        }
        assert(v.compacted.contains_key(found));
    }
    let after = event_recorded(v, event);
    assert(after.deferred.dom() =~= v.deferred.dom());
}

/// Taking pending entries out keeps the storage settled.
proof fn lemma_removed_settled(before: MapsView, after: MapsView)
    requires
        settled(before),
        after.watch_root == before.watch_root,
        after.limits == before.limits,
        after.compacted == before.compacted,
        after.storm == before.storm,
        after.events.submap_of(before.events),
        after.intents.submap_of(before.intents),
        after.deferred.submap_of(before.deferred),
    ensures
        settled(after),
{
    assert(after.events.dom().subset_of(before.events.dom()));
    assert(after.intents.dom().subset_of(before.intents.dom()));
    assert(after.deferred.dom().subset_of(before.deferred.dom()));
    vstd::set_lib::lemma_len_subset(after.events.dom(), before.events.dom());
    vstd::set_lib::lemma_len_subset(after.intents.dom(), before.intents.dom());
    vstd::set_lib::lemma_len_subset(after.deferred.dom(), before.deferred.dom());
    assert(plain_paths(after).subset_of(plain_paths(before)));
    lemma_limits_subset(before, after);
    assert forall|p: Seq<Part>| #[trigger] after.events.contains_key(p) implies before.events.contains_key(
        p,
    ) && after.events[p] == before.events[p] by {
        assert(after.events.dom().contains(p));
    }
    assert forall|p: Seq<Part>| #[trigger] after.intents.contains_key(p) implies before.intents.contains_key(
        p,
    ) && after.intents[p] == before.intents[p] by {
        assert(after.intents.dom().contains(p));
    }
    assert forall|p: Seq<Part>| #[trigger] after.deferred.contains_key(p) implies before.deferred.contains_key(
        p,
    ) && after.deferred[p] == before.deferred[p] by {
        assert(after.deferred.dom().contains(p));
    }
}

/// Paths of drained events, in the order in which they came out.
pub open spec fn drained_paths<T>(drained: Seq<(PendingEventRecord, T)>) -> Seq<Seq<Part>> {
    drained.map_values(|d: (PendingEventRecord, T)| d.0.path@)
}

/// Paths of event records, in order.
pub open spec fn event_paths(records: Seq<PendingEventRecord>) -> Seq<Seq<Part>> {
    records.map_values(|d: PendingEventRecord| d.path@)
}

/// Paths of intents, in order.
pub open spec fn intent_paths(records: Seq<PendingIntentRecord>) -> Seq<Seq<Part>> {
    records.map_values(|d: PendingIntentRecord| d.path@)
}

/// Whether `ask` may be called on `record`.
pub open spec fn can_ask<F: Fn(&PendingEventRecord) -> bool>(
    ask: &F,
    record: &PendingEventRecord,
) -> bool {
    call_requires(*ask, (record,))
}

/// Whether `ask` may answer `answer` for `record`.
pub open spec fn can_answer<F: Fn(&PendingEventRecord) -> bool>(
    ask: &F,
    record: &PendingEventRecord,
    answer: bool,
) -> bool {
    call_ensures(*ask, (record,), answer)
}

impl BoundedEventIntentMaps {
    /// A storage whose counts agree with its maps and whose properties hold.
    pub closed spec fn wf(&self) -> bool {
        self.rep() && settled(self@)
    }

    /// Whatever was recorded and drained, the model's properties hold.
    pub proof fn law_storage_is_settled(&self)
        requires
            self.wf(),
        ensures
            settled(self@),
    {
    }

    pub fn new(watch_root: FsPath) -> (r: BoundedEventIntentMaps)
        ensures
            r.wf(),
            r@ == nothing_pending(watch_root@, usual_limits(), usual_thresholds()),
    {
        BoundedEventIntentMaps::with_limits(watch_root, EventIntentLimits::default())
    }

    pub fn with_limits(watch_root: FsPath, limits: EventIntentLimits) -> (r: BoundedEventIntentMaps)
        ensures
            r.wf(),
            r@ == nothing_pending(watch_root@, limits, usual_thresholds()),
    {
        BoundedEventIntentMaps::with_limits_and_storm_thresholds(
            watch_root,
            limits,
            StormThresholds::default(),
        )
    }

    pub fn with_limits_and_storm_thresholds(
        watch_root: FsPath,
        limits: EventIntentLimits,
        storm_thresholds: StormThresholds,
    ) -> (r: BoundedEventIntentMaps)
        ensures
            r.wf(),
            r@ == nothing_pending(watch_root@, limits, storm_thresholds),
    {
        let r = BoundedEventIntentMaps {
            watch_root: watch_root.clone(),
            limits,
            event_map: PathMap::new(),
            intent_map: PathMap::new(),
            compacted_subtrees: PathMap::new(),
            deferred_reconciles: PathMap::new(),
            tracker: PathTracker::new(watch_root.clone()),
            storm_detector: StormDetector::with_thresholds(watch_root, storm_thresholds),
        };
        proof {
            assert(refs_of(r@) =~= Map::<Seq<Part>, usize>::empty());
            assert(plain_paths(r@) =~= Set::<Seq<Part>>::empty());
            assert forall|d: Seq<Part>| #[trigger] count_below(
                plain_paths(r@),
                r@.watch_root,
                d,
            ) == 0 by {
                assert(plain_paths(r@).filter(|p: Seq<Part>| is_ancestor(d, p)) =~= Set::empty());
            }
        }
        r
    }

    pub fn watch_root(&self) -> (r: &FsPath)
        ensures
            r@ == self@.watch_root,
    {
        &self.watch_root
    }

    pub fn limits(&self) -> (r: &EventIntentLimits)
        ensures
            *r == self@.limits,
    {
        &self.limits
    }

    pub fn pending_event_count(&self) -> (r: usize)
        ensures
            r as nat == self@.events.dom().len(),
    {
        self.event_map.len()
    }

    pub fn pending_intent_count(&self) -> (r: usize)
        ensures
            r as nat == self@.intents.dom().len(),
    {
        self.intent_map.len()
    }

    /// Number of distinct paths something is pending for.
    pub fn tracked_path_count(&self) -> (r: usize)
        requires
            self.wf(),
        ensures
            r as nat == pending_paths(self@).len(),
    {
        assert(refs_of(self@).dom() =~= pending_paths(self@));
        self.tracker.path_count()
    }

    pub fn compacted_subtree_count(&self) -> (r: usize)
        ensures
            r as nat == self@.compacted.dom().len(),
    {
        self.compacted_subtrees.len()
    }

    pub fn deferred_reconcile_count(&self) -> (r: usize)
        ensures
            r as nat == self@.deferred.dom().len(),
    {
        self.deferred_reconciles.len()
    }

    pub fn pending_event(&self, path: &FsPath) -> (r: Option<&PendingEventRecord>)
        ensures
            match r {
                Some(record) => self@.events.contains_key(path@) && record@ == self@.events[path@],
                None => !self@.events.contains_key(path@),
            },
    {
        self.event_map.get(path)
    }

    pub fn pending_intent(&self, path: &FsPath) -> (r: Option<&PendingIntentRecord>)
        ensures
            match r {
                Some(record) => self@.intents.contains_key(path@) && record@
                    == self@.intents[path@],
                None => !self@.intents.contains_key(path@),
            },
    {
        self.intent_map.get(path)
    }

    pub fn compacted_subtree(&self, root: &FsPath) -> (r: Option<&CompactedSubtreeRecord>)
        ensures
            match r {
                Some(record) => self@.compacted.contains_key(root@) && record@
                    == self@.compacted[root@],
                None => !self@.compacted.contains_key(root@),
            },
    {
        self.compacted_subtrees.get(root)
    }

    pub fn deferred_reconcile(&self, root: &FsPath) -> (r: Option<&DeferredReconcileRecord>)
        ensures
            match r {
                Some(record) => self@.deferred.contains_key(root@) && record@
                    == self@.deferred[root@],
                None => !self@.deferred.contains_key(root@),
            },
    {
        self.deferred_reconciles.get(root)
    }

    /// Whether a reconcile of the subtree at `root` is still to come.
    pub fn compacted_subtree_requires_follow_up_reconcile(&self, root: &FsPath) -> (r: bool)
        ensures
            r == needs_follow_up(self@, root@),
    {
        if self.deferred_reconciles.contains(root) {
            return true;
        }
        match self.intent_map.get(root) {
            Some(record) => matches!(record.kind, PendingIntentKind::ReconcileSubtree),
            None => false,
        }
    }

    /// Number of pending paths at or below `root`.
    pub fn subtree_pending_count(&self, root: &FsPath) -> (r: usize)
        requires
            self.wf(),
        ensures
            r as nat == pending_below(self@, root@),
    {
        assert(refs_of(self@).dom() =~= pending_paths(self@));
        self.tracker.pending_below(root)
    }

    /// Takes out the pending events that are ready, in path order.
    pub fn drain_ready_events<F: Fn(&PendingEventRecord) -> bool>(&mut self, is_ready: F) -> (r:
        Vec<PendingEventRecord>)
        requires
            old(self).wf(),
            forall|record: PendingEventRecord| call_requires(is_ready, (&record,)),
        ensures
            final(self).wf(),
            final(self)@ == (MapsView { events: final(self)@.events, ..old(self)@ }),
            strictly_ordered(event_paths(r@)),
            forall|i: int|
                #![trigger r@[i]]
                0 <= i < r@.len() ==> {
                    &&& old(self)@.events.contains_key(r@[i].path@)
                    &&& r@[i]@ == old(self)@.events[r@[i].path@]
                    &&& call_ensures(is_ready, (&r@[i],), true)
                },
            forall|p: Seq<Part>| #[trigger]
                final(self)@.events.contains_key(p) <==> old(self)@.events.contains_key(p)
                    && !event_paths(r@).contains(p),
            forall|p: Seq<Part>| #[trigger]
                final(self)@.events.contains_key(p) ==> final(self)@.events[p]
                    == old(self)@.events[p] && exists|record: PendingEventRecord|
                    record@ == old(self)@.events[p] && call_ensures(is_ready, (&record,), false),
    {
        let select = |record: &PendingEventRecord| -> (o: Option<()>)
            requires
                can_ask(&is_ready, record),
            ensures
                match o {
                    Some(_) => can_answer(&is_ready, record, true),
                    None => can_answer(&is_ready, record, false),
                },
            {
                if is_ready(record) {
                    Some(())
                } else {
                    None
                }
            };
        let ghost before = self@;
        let drained = self.drain_ready_events_with(select);
        let ghost all = drained@;
        let mut records: Vec<PendingEventRecord> = Vec::new();
        let mut rest = drained;
        // Move the records over, keeping their order.
        let mut i: usize = rest.len();
        let mut reversed: Vec<PendingEventRecord> = Vec::new();
        while i > 0
            invariant
                i == rest.len(),
                i <= all.len(),
                rest@ == all.take(i as int),
                reversed@.len() == all.len() - i,
                forall|j: int|
                    0 <= j < reversed@.len() ==> #[trigger] reversed@[j] == all[all.len() - 1 - j].0,
            decreases i,
        {
            let last = rest.pop();
            assert(all.take(i as int).drop_last() =~= all.take(i - 1));
            match last {
                Some((record, _)) => {
                    reversed.push(record);
                },
                None => {},
            }
            i = i - 1;
        }
        let mut k: usize = reversed.len();
        while k > 0
            invariant
                k == reversed.len(),
                k <= all.len(),
                reversed@.len() == k,
                records@.len() == all.len() - k,
                forall|j: int|
                    0 <= j < reversed@.len() ==> #[trigger] reversed@[j] == all[all.len() - 1 - j].0,
                forall|j: int| 0 <= j < records@.len() ==> #[trigger] records@[j] == all[j].0,
            decreases k,
        {
            match reversed.pop() {
                Some(record) => {
                    records.push(record);
                },
                None => {},
            }
            k = k - 1;
        }
        proof {
            assert(event_paths(records@) =~= drained_paths(all));
            assert forall|i: int| #![trigger records@[i]] 0 <= i < records@.len() implies {
                &&& before.events.contains_key(records@[i].path@)
                &&& records@[i]@ == before.events[records@[i].path@]
                &&& call_ensures(is_ready, (&records@[i],), true)
            } by {
                assert(records@[i] == all[i].0);
                assert(call_ensures(select, (&all[i].0,), Some(all[i].1)));
            }
            assert forall|p: Seq<Part>| #[trigger] self@.events.contains_key(p) implies self@.events[p]
                == before.events[p] && exists|record: PendingEventRecord|
                record@ == before.events[p] && call_ensures(is_ready, (&record,), false) by {
                let record = choose|record: PendingEventRecord|
                    record@ == before.events[p] && call_ensures(select, (&record,), None);
                assert(call_ensures(is_ready, (&record,), false));
            }
        }
        records
    }

    /// Takes out, in path order, the pending events `select` has an answer
    /// for, each with that answer.
    pub fn drain_ready_events_with<T, F: Fn(&PendingEventRecord) -> Option<T>>(
        &mut self,
        select: F,
    ) -> (r: Vec<(PendingEventRecord, T)>)
        requires
            old(self).wf(),
            forall|record: PendingEventRecord| call_requires(select, (&record,)),
        ensures
            final(self).wf(),
            final(self)@ == (MapsView { events: final(self)@.events, ..old(self)@ }),
            strictly_ordered(drained_paths(r@)),
            forall|i: int|
                #![trigger r@[i]]
                0 <= i < r@.len() ==> {
                    &&& old(self)@.events.contains_key(r@[i].0.path@)
                    &&& r@[i].0@ == old(self)@.events[r@[i].0.path@]
                    &&& call_ensures(select, (&r@[i].0,), Some(r@[i].1))
                },
            forall|p: Seq<Part>| #[trigger]
                final(self)@.events.contains_key(p) <==> old(self)@.events.contains_key(p)
                    && !drained_paths(r@).contains(p),
            forall|p: Seq<Part>| #[trigger]
                final(self)@.events.contains_key(p) ==> final(self)@.events[p]
                    == old(self)@.events[p] && exists|record: PendingEventRecord|
                    record@ == old(self)@.events[p] && call_ensures(select, (&record,), None),
    {
        let ghost before = self@;
        let mut drained: Vec<(PendingEventRecord, T)> = Vec::new();
        let mut i: usize = 0;
        while i < self.event_map.len()
            invariant
                self.rep(),
                settled(before),
                i <= self.event_map.keys().len(),
                forall|record: PendingEventRecord| call_requires(select, (&record,)),
                self@ == (MapsView { events: self@.events, ..before }),
                strictly_ordered(drained_paths(drained@)),
                forall|k: int, j: int|
                    #![trigger drained@[k], self.event_map.keys()[j]]
                    0 <= k < drained@.len() && i <= j < self.event_map.keys().len() ==> path_less(
                        drained@[k].0.path@,
                        self.event_map.keys()[j],
                    ),
                forall|k: int|
                    #![trigger drained@[k]]
                    0 <= k < drained@.len() ==> {
                        &&& before.events.contains_key(drained@[k].0.path@)
                        &&& drained@[k].0@ == before.events[drained@[k].0.path@]
                        &&& call_ensures(select, (&drained@[k].0,), Some(drained@[k].1))
                    },
                forall|p: Seq<Part>| #[trigger]
                    self@.events.contains_key(p) <==> before.events.contains_key(p)
                        && !drained_paths(drained@).contains(p),
                forall|p: Seq<Part>| #[trigger]
                    self@.events.contains_key(p) ==> self@.events[p] == before.events[p],
                forall|j: int|
                    #![trigger self.event_map.keys()[j]]
                    0 <= j < i ==> exists|record: PendingEventRecord|
                        record@ == before.events[self.event_map.keys()[j]] && call_ensures(
                            select,
                            (&record,),
                            None,
                        ),
            decreases self.event_map.keys().len() - i,
        {
            let ghost prior = self@;
            let ghost keys = self.event_map.keys();
            let ghost k = keys[i as int];
            proof {
                use_type_invariant(&self.event_map);
                self.event_map.lemma_entries();
                assert(self.event_map@.contains_key(k)) by {
                    assert(keys.contains(k));
                }
            }
            let choice = select(self.event_map.value_at(i));
            match choice {
                None => {
                    let ghost record = self.event_map.nth(i as int);
                    assert(record@ == before.events[k] && call_ensures(select, (&record,), None));
                    i = i + 1;
                },
                Some(answer) => {
                    let ghost done = drained@;
                    let record = self.take_event_at(i);
                    assert(record.path@ == k);
                    drained.push((record, answer));
                    proof {
                        assert(drained_paths(drained@) =~= drained_paths(done).push(k));
                        assert forall|a: int, b: int|
                            0 <= a < b < drained_paths(drained@).len() implies path_less(
                            #[trigger] drained_paths(drained@)[a],
                            #[trigger] drained_paths(drained@)[b],
                        ) by {
                            if b == done.len() {
                                assert(done[a] == drained@[a]);
                                assert(path_less(done[a].0.path@, keys[i as int]));
                            } else {
                                assert(path_less(drained_paths(done)[a], drained_paths(done)[b]));
                            }
                        }
                        assert forall|a: int, j: int|
                            #![trigger drained@[a], self.event_map.keys()[j]]
                            0 <= a < drained@.len() && i <= j < self.event_map.keys().len() implies path_less(
                            drained@[a].0.path@,
                            self.event_map.keys()[j],
                        ) by {
                            assert(self.event_map.keys()[j] == keys[j + 1]);
                            if a < done.len() {
                                assert(done[a] == drained@[a]);
                            } else {
                                assert(path_less(keys[i as int], keys[j + 1]));
                            }
                        }
                        assert forall|p: Seq<Part>|
                            drained_paths(drained@).contains(p) <==> (drained_paths(done).contains(
                                p,
                            ) || p == k) by {
                            if drained_paths(done).contains(p) {
                                let x = drained_paths(done).index_of(p);
                                assert(drained_paths(drained@)[x] == p);
                            }
                            assert(drained_paths(drained@)[done.len() as int] == k);
                        }
                        assert forall|j: int|
                            #![trigger self.event_map.keys()[j]]
                            0 <= j < i implies exists|record: PendingEventRecord|
                            record@ == before.events[self.event_map.keys()[j]] && call_ensures(
                                select,
                                (&record,),
                                None,
                            ) by {
                            assert(self.event_map.keys()[j] == keys[j]);
                        }
                    }
                },
            }
        }
        proof {
            use_type_invariant(&self.event_map);
            self.event_map.lemma_entries();
            assert forall|p: Seq<Part>| #[trigger] self@.events.contains_key(p) implies self@.events[p]
                == before.events[p] && exists|record: PendingEventRecord|
                record@ == before.events[p] && call_ensures(select, (&record,), None) by {
                assert(self.event_map.keys().contains(p));
                let j = self.event_map.keys().index_of(p);
                assert(self.event_map.keys()[j] == p);
            }
            assert(self@.events.submap_of(before.events));
            lemma_removed_settled(before, self@);
        }
        drained
    }

    /// Takes out all pending intents, in path order.
    pub fn drain_pending_intents(&mut self) -> (r: Vec<PendingIntentRecord>)
        requires
            old(self).wf(),
        ensures
            final(self).wf(),
            final(self)@ == (MapsView { intents: Map::empty(), ..old(self)@ }),
            strictly_ordered(intent_paths(r@)),
            intent_paths(r@).to_set() == old(self)@.intents.dom(),
            forall|i: int|
                #![trigger r@[i]]
                0 <= i < r@.len() ==> r@[i]@ == old(self)@.intents[r@[i].path@],
    {
        let ghost before = self@;
        let mut drained: Vec<PendingIntentRecord> = Vec::new();
        let ghost all = self.intent_map.keys();
        proof {
            use_type_invariant(&self.intent_map);
            self.intent_map.lemma_entries();
            assert(all.skip(0) =~= all);
            assert(intent_paths(drained@) =~= all.take(0));
        }
        while self.intent_map.len() > 0
            invariant
                self.rep(),
                settled(before),
                self@ == (MapsView { intents: self@.intents, ..before }),
                drained@.len() <= all.len(),
                strictly_ordered(all),
                all.no_duplicates(),
                before.intents.dom() == all.to_set(),
                self.intent_map.keys() == all.skip(drained@.len() as int),
                intent_paths(drained@) == all.take(drained@.len() as int),
                forall|i: int|
                    #![trigger drained@[i]]
                    0 <= i < drained@.len() ==> drained@[i]@ == before.intents[drained@[i].path@],
                forall|p: Seq<Part>| #[trigger]
                    self@.intents.contains_key(p) ==> before.intents.contains_key(p)
                        && self@.intents[p] == before.intents[p],
            decreases self.intent_map.keys().len(),
        {
            let ghost keys = self.intent_map.keys();
            let ghost done = drained@;
            let ghost k = keys[0];
            proof {
                use_type_invariant(&self.intent_map);
                self.intent_map.lemma_entries();
                assert(keys.contains(k));
                assert(self@.intents.contains_key(k));
            }
            let record = self.take_intent_at(0);
            assert(record.path@ == k);
            drained.push(record);
            proof {
                assert(keys.remove(0) =~= all.skip(done.len() as int + 1));
                assert(intent_paths(drained@) =~= all.take(done.len() as int + 1));
            }
        }
        proof {
            use_type_invariant(&self.intent_map);
            self.intent_map.lemma_entries();
            assert(self.intent_map.keys() =~= Seq::empty());
            assert(self@.intents.dom() =~= Set::empty());
            assert(self@.intents =~= Map::empty());
            assert(all.take(drained@.len() as int) =~= all) by {
                assert(all.skip(drained@.len() as int).len() == 0);
            }
            assert(self@.intents.submap_of(before.intents));
            lemma_removed_settled(before, self@);
        }
        drained
    }

    /// Takes out the deferred reconciles that are due, as reconcile intents
    /// in path order.
    pub fn take_ready_deferred_reconcile_intents(&mut self, now: SystemTime) -> (r: Vec<
        PendingIntentRecord,
    >)
        requires
            old(self).wf(),
        ensures
            final(self).wf(),
            final(self)@ == (MapsView {
                deferred: not_due(old(self)@.deferred, now),
                ..old(self)@
            }),
            strictly_ordered(intent_paths(r@)),
            forall|p: Seq<Part>| #[trigger]
                intent_paths(r@).contains(p) <==> old(self)@.deferred.contains_key(p) && is_due(
                    old(self)@.deferred[p],
                    now,
                ),
            forall|i: int|
                #![trigger r@[i]]
                0 <= i < r@.len() ==> r@[i].kind == PendingIntentKind::ReconcileSubtree
                    && r@[i].observed_at == old(self)@.deferred[r@[i].path@].available_at,
    {
        let ghost before = self@;
        let mut ready: Vec<PendingIntentRecord> = Vec::new();
        let mut i: usize = 0;
        while i < self.deferred_reconciles.len()
            invariant
                self.rep(),
                settled(before),
                i <= self.deferred_reconciles.keys().len(),
                self@ == (MapsView { deferred: self@.deferred, ..before }),
                strictly_ordered(intent_paths(ready@)),
                forall|k: int, j: int|
                    #![trigger ready@[k], self.deferred_reconciles.keys()[j]]
                    0 <= k < ready@.len() && i <= j < self.deferred_reconciles.keys().len()
                        ==> path_less(ready@[k].path@, self.deferred_reconciles.keys()[j]),
                forall|k: int|
                    #![trigger ready@[k]]
                    0 <= k < ready@.len() ==> {
                        &&& before.deferred.contains_key(ready@[k].path@)
                        &&& is_due(before.deferred[ready@[k].path@], now)
                        &&& ready@[k].kind == PendingIntentKind::ReconcileSubtree
                        &&& ready@[k].observed_at == before.deferred[ready@[k].path@].available_at
                    },
                forall|p: Seq<Part>| #[trigger]
                    self@.deferred.contains_key(p) <==> before.deferred.contains_key(p)
                        && !intent_paths(ready@).contains(p),
                forall|p: Seq<Part>| #[trigger]
                    self@.deferred.contains_key(p) ==> self@.deferred[p] == before.deferred[p],
                forall|j: int|
                    #![trigger self.deferred_reconciles.keys()[j]]
                    0 <= j < i ==> !is_due(
                        before.deferred[self.deferred_reconciles.keys()[j]],
                        now,
                    ),
            decreases self.deferred_reconciles.keys().len() - i,
        {
            let ghost keys = self.deferred_reconciles.keys();
            let ghost k = keys[i as int];
            proof {
                use_type_invariant(&self.deferred_reconciles);
                self.deferred_reconciles.lemma_entries();
                assert(self.deferred_reconciles@.contains_key(k)) by {
                    assert(keys.contains(k));
                }
            }
            let available_at = self.deferred_reconciles.value_at(i).available_at;
            if available_at.nanos <= now.nanos {
                let ghost done = ready@;
                let record = self.take_deferral_at(i);
                let intent = PendingIntentRecord {
                    path: record.root,
                    kind: PendingIntentKind::ReconcileSubtree,
                    observed_at: available_at,
                };
                ready.push(intent);
                proof {
                    assert(intent.path@ == k);
                    assert(intent_paths(ready@) =~= intent_paths(done).push(k));
                    assert forall|a: int, b: int|
                        0 <= a < b < intent_paths(ready@).len() implies path_less(
                        #[trigger] intent_paths(ready@)[a],
                        #[trigger] intent_paths(ready@)[b],
                    ) by {
                        if b == done.len() {
                            assert(done[a] == ready@[a]);
                            assert(path_less(done[a].path@, keys[i as int]));
                        } else {
                            assert(path_less(intent_paths(done)[a], intent_paths(done)[b]));
                        }
                    }
                    assert forall|a: int, j: int|
                        #![trigger ready@[a], self.deferred_reconciles.keys()[j]]
                        0 <= a < ready@.len() && i <= j < self.deferred_reconciles.keys().len() implies path_less(
                        ready@[a].path@,
                        self.deferred_reconciles.keys()[j],
                    ) by {
                        assert(self.deferred_reconciles.keys()[j] == keys[j + 1]);
                        if a < done.len() {
                            assert(done[a] == ready@[a]);
                        } else {
                            assert(path_less(keys[i as int], keys[j + 1]));
                        }
                    }
                    assert forall|p: Seq<Part>|
                        intent_paths(ready@).contains(p) <==> (intent_paths(done).contains(p) || p
                            == k) by {
                        if intent_paths(done).contains(p) {
                            let x = intent_paths(done).index_of(p);
                            assert(intent_paths(ready@)[x] == p);
                        }
                        assert(intent_paths(ready@)[done.len() as int] == k);
                    }
                    assert forall|j: int|
                        #![trigger self.deferred_reconciles.keys()[j]]
                        0 <= j < i implies !is_due(
                        before.deferred[self.deferred_reconciles.keys()[j]],
                        now,
                    ) by {
                        assert(self.deferred_reconciles.keys()[j] == keys[j]);
                    }
                }
            } else {
                i = i + 1;
            }
        }
        proof {
            use_type_invariant(&self.deferred_reconciles);
            self.deferred_reconciles.lemma_entries();
            assert forall|p: Seq<Part>| #[trigger] self@.deferred.contains_key(p) implies !is_due(
                before.deferred[p],
                now,
            ) by {
                assert(self.deferred_reconciles.keys().contains(p));
                let j = self.deferred_reconciles.keys().index_of(p);
                assert(self.deferred_reconciles.keys()[j] == p);
            }
            assert forall|p: Seq<Part>| #[trigger] intent_paths(ready@).contains(p) implies before.deferred.contains_key(p) && is_due(
                before.deferred[p],
                now,
            ) by {
                let x = intent_paths(ready@).index_of(p);
                assert(ready@[x].path@ == p);
            }
            assert forall|p: Seq<Part>|
                before.deferred.contains_key(p) && is_due(before.deferred[p], now) implies #[trigger] intent_paths(
                ready@,
            ).contains(p) by {
                assert(!self@.deferred.contains_key(p));
            }
            assert(self@.deferred =~= not_due(before.deferred, now));
            assert(self@.deferred.submap_of(before.deferred));
            lemma_removed_settled(before, self@);
        }
        ready
    }

    /// Forgets that the subtree at `root` was compacted, unless a reconcile
    /// of it is still to come.
    pub fn clear_compacted_subtree_boundary(&mut self, root: &FsPath) -> (r: bool)
        requires
            old(self).wf(),
        ensures
            final(self).wf(),
            r == (!needs_follow_up(old(self)@, root@) && old(self)@.compacted.contains_key(root@)),
            final(self)@ == if r {
                MapsView { compacted: old(self)@.compacted.remove(root@), ..old(self)@ }
            } else {
                old(self)@
            },
    {
        if self.compacted_subtree_requires_follow_up_reconcile(root) {
            return false;
        }
        let ghost before = self@;
        let removed = self.compacted_subtrees.remove(root).is_some();
        proof {
            assert(refs_of(self@) =~= refs_of(before));
            if removed {
                lemma_within_reflexive(root@);
                assert(self@ =~= (MapsView {
                    compacted: before.compacted.remove(root@),
                    ..before
                }));
                lemma_boundary_cleared_settled(before, root@);
            } else {
                assert(self@ =~= before);
            }
        }
        removed
    }

    fn path_is_in_scope(&self, path: &FsPath) -> (r: bool)
        ensures
            r == within(path@, self@.watch_root),
    {
        path.starts_with(&self.watch_root)
    }

    fn path_is_tracked(&self, path: &FsPath) -> (r: bool)
        requires
            self.rep(),
        ensures
            r == pending_paths(self@).contains(path@),
    {
        assert(refs_of(self@).dom() =~= pending_paths(self@));
        self.tracker.is_tracked(path)
    }

    /// Records a filesystem event.
    pub fn record_event(&mut self, event: FsEventRecord)
        requires
            old(self).wf(),
            event.observed_at.can_add(old(self)@.storm.thresholds.deferred_reconcile_delay),
        ensures
            final(self).wf(),
            final(self)@ == event_recorded(old(self)@, event@),
    {
        let ghost before = self@;
        let ghost told = event@;
        proof {
            law_event_keeps_settled(before, told);
        }
        if !self.path_is_in_scope(&event.path) {
            return;
        }
        if let Some(root) = self.compacted_subtree_root_for(&event.path) {
            proof {
                lemma_governing(before.compacted, told.path);
            }
            self.note_absorbed_event(&root, event.observed_at);
            return;
        }
        let record = match self.event_map.get(&event.path) {
            Some(existing) => {
                let mut flags = existing.flags;
                flags.raise(event.kind);
                PendingEventRecord {
                    path: existing.path.clone(),
                    first_observed_at: existing.first_observed_at,
                    last_observed_at: event.observed_at,
                    last_event_kind: event.kind,
                    flags,
                    burst_count: saturating_sum(existing.burst_count, 1),
                }
            },
            None => {
                if !self.path_is_tracked(&event.path) {
                    let absorbing = self.prepare_capacity_for_new_path(
                        &event.path,
                        event.observed_at,
                    );
                    if let Some(root) = absorbing {
                        proof {
                            lemma_governing(self@.compacted, told.path);
                            lemma_prepared_settled(before, told.path, told.observed_at);
                        }
                        self.note_absorbed_event(&root, event.observed_at);
                        return;
                    }
                    proof {
                        lemma_prepared_settled(before, told.path, told.observed_at);
                    }
                }
                self.tracker.track(&event.path);
                let mut flags = PendingEventFlags::default();
                flags.raise(event.kind);
                PendingEventRecord {
                    path: event.path.clone(),
                    first_observed_at: event.observed_at,
                    last_observed_at: event.observed_at,
                    last_event_kind: event.kind,
                    flags,
                    burst_count: 1,
                }
            },
        };
        proof {
            lemma_refs_with_event(before, told.path, record@);
        }
        self.event_map.insert(event.path.clone(), record);
        let ghost stored = self@;
        assert(stored =~= (MapsView {
            events: before.events.insert(told.path, record@),
            ..before
        }));
        let pending: usize = self.pending_event_count();
        let trigger = self.storm_detector.observe_event(&event.path, event.observed_at, pending);
        proof {
            assert(refs_of(self@) =~= refs_of(stored));
            assert(self@ =~= (MapsView { storm: self@.storm, ..stored }));
        }
        if let Some(storm) = trigger {
            proof {
                let p = told.path;
                lemma_within_reflexive(before.watch_root);
            }
            self.compact_subtree(
                &storm.root,
                BackpressureReason::from_storm(storm.reason),
                event.observed_at,
                Some(storm.available_at),
            );
        }
    }

    /// Sets the intent of a path.
    pub fn upsert_intent(&mut self, path: FsPath, kind: PendingIntentKind, observed_at: SystemTime)
        requires
            old(self).wf(),
            observed_at.can_add(old(self)@.storm.thresholds.deferred_reconcile_delay),
        ensures
            final(self).wf(),
            final(self)@ == intent_upserted(old(self)@, path@, kind, observed_at),
    {
        let ghost before = self@;
        proof {
            law_intent_keeps_settled(before, path@, kind, observed_at);
        }
        if !self.path_is_in_scope(&path) {
            return;
        }
        if let Some(root) = self.compacted_subtree_root_for(&path) {
            proof {
                lemma_governing(before.compacted, path@);
            }
            self.note_absorbed_intent(&root, observed_at);
            return;
        }
        let record = match self.intent_map.get(&path) {
            Some(existing) => PendingIntentRecord {
                path: existing.path.clone(),
                kind,
                observed_at,
            },
            None => {
                if !self.path_is_tracked(&path) {
                    let absorbing = self.prepare_capacity_for_new_path(&path, observed_at);
                    if let Some(root) = absorbing {
                        proof {
                            lemma_governing(self@.compacted, path@);
                            lemma_prepared_settled(before, path@, observed_at);
                        }
                        self.note_absorbed_intent(&root, observed_at);
                        return;
                    }
                    proof {
                        lemma_prepared_settled(before, path@, observed_at);
                    }
                }
                self.tracker.track(&path);
                PendingIntentRecord { path: path.clone(), kind, observed_at }
            },
        };
        proof {
            lemma_refs_with_intent(before, path@, record@);
        }
        self.intent_map.insert(path.clone(), record);
        assert(self@ =~= (MapsView {
            intents: before.intents.insert(path@, record@),
            ..before
        }));
    }
}

proof fn lemma_boundary_cleared_settled(v: MapsView, root: Seq<Part>)
    requires
        settled(v),
        v.compacted.contains_key(root),
        !needs_follow_up(v, root),
    ensures
        settled(MapsView { compacted: v.compacted.remove(root), ..v }),
{
    let after = MapsView { compacted: v.compacted.remove(root), ..v };
    lemma_within_reflexive(root);
    assert(!v.events.contains_key(root));
    assert(!v.intents.contains_key(root));
    assert(plain_paths(after) =~= plain_paths(v));
    lemma_limits_subset(v, after);
    assert forall|p: Seq<Part>| #[trigger] after.compacted.contains_key(p) implies v.compacted.contains_key(
        p,
    ) by {}
}

/// Whether a deferred reconcile may run at `now`.
pub open spec fn is_due(record: DeferredView, now: SystemTime) -> bool {
    record.available_at.nanos <= now.nanos
}

/// The deferred reconciles that may not run yet at `now`.
pub open spec fn not_due(m: Map<Seq<Part>, DeferredView>, now: SystemTime) -> Map<
    Seq<Part>,
    DeferredView,
> {
    Map::new(|p: Seq<Part>| m.contains_key(p) && !is_due(m[p], now), |p: Seq<Part>| m[p])
}


/// Recorder that stores what the watcher reports in a bounded storage.
#[derive(Debug)]
pub struct BoundedFsEventRecorder {
    maps: BoundedEventIntentMaps,
    error_count: usize,
}

impl BoundedFsEventRecorder {
    /// The storage behind the recorder.
    pub closed spec fn state(&self) -> BoundedEventIntentMaps {
        self.maps
    }

    /// Errors recorded so far.
    pub closed spec fn errors(&self) -> usize {
        self.error_count
    }

    pub fn new(watch_root: FsPath) -> (r: BoundedFsEventRecorder)
        ensures
            r.state().wf(),
            r.state()@ == nothing_pending(watch_root@, usual_limits(), usual_thresholds()),
            r.errors() == 0,
    {
        BoundedFsEventRecorder::with_limits(watch_root, EventIntentLimits::default())
    }

    pub fn with_limits(watch_root: FsPath, limits: EventIntentLimits) -> (r: BoundedFsEventRecorder)
        ensures
            r.state().wf(),
            r.state()@ == nothing_pending(watch_root@, limits, usual_thresholds()),
            r.errors() == 0,
    {
        BoundedFsEventRecorder {
            maps: BoundedEventIntentMaps::with_limits(watch_root, limits),
            error_count: 0,
        }
    }

    pub fn error_count(&self) -> (r: usize)
        ensures
            r == self.errors(),
    {
        self.error_count
    }

    /// Lets `reader` look at the storage.
    pub fn with_state<R, F: FnOnce(&BoundedEventIntentMaps) -> R>(&self, reader: F) -> (r: R)
        requires
            call_requires(reader, (&self.state(),)),
        ensures
            call_ensures(reader, (&self.state(),), r),
    {
        reader(&self.maps)
    }

    /// Lends the storage for changes.
    pub fn with_mut_state(&mut self) -> (r: &mut BoundedEventIntentMaps)
        ensures
            *r == old(self).state(),
            *final(r) == final(self).state(),
            final(self).errors() == old(self).errors(),
    {
        &mut self.maps
    }
}

impl FsEventRecording for BoundedFsEventRecorder {
    open spec fn accepts(&self, event: FsEventView) -> bool {
        &&& self.state().wf()
        &&& event.observed_at.can_add(
            self.state()@.storm.thresholds.deferred_reconcile_delay,
        )
    }

    open spec fn takes_in(&self, event: FsEventView, after: &Self) -> bool {
        &&& after.state().wf()
        &&& after.state()@ == event_recorded(self.state()@, event)
        &&& after.errors() == self.errors()
    }

    fn record_event(&mut self, event: FsEventRecord) {
        self.maps.record_event(event);
    }

    fn record_error(&mut self, error: FsEventErrorRecord)
        ensures
            final(self).state() == old(self).state(),
            final(self).errors() == saturated((old(self).errors() + 1) as nat),
    {
        self.error_count = saturating_sum(self.error_count, 1);
    }
}

// ---------------------------------------------------------------------------
// What the storage is for
// ---------------------------------------------------------------------------

/// A compacted directory stands above `path`, and a reconcile of it is to
/// come: as a pending intent, or put off until it is quiet.
pub open spec fn awaits_reconcile(v: MapsView, path: Seq<Part>) -> bool {
    exists|root: Seq<Part>| #[trigger]
        v.compacted.contains_key(root) && root.len() <= path.len() && path.take(root.len() as int)
            == root && (v.deferred.contains_key(root) || v.intents.contains_key(root)
            && v.intents[root].kind == PendingIntentKind::ReconcileSubtree)
}

proof fn lemma_compaction_covers(
    v: MapsView,
    root: Seq<Part>,
    reason: BackpressureReason,
    at: SystemTime,
    deferred_at: Option<SystemTime>,
    q: Seq<Part>,
)
    ensures
        ({
            let w = compacted_at(v, root, reason, at, deferred_at);
            &&& within(q, root) ==> awaits_reconcile(w, q)
            &&& !within(q, root) && v.events.contains_key(q) ==> w.events.contains_key(q)
                && w.events[q] == v.events[q]
            &&& !within(q, root) && v.intents.contains_key(q) ==> w.intents.contains_key(q)
                && w.intents[q] == v.intents[q]
            &&& awaits_reconcile(v, q) ==> awaits_reconcile(w, q)
        }),
{
    let w = compacted_at(v, root, reason, at, deferred_at);
    assert(w.compacted.contains_key(root));
    if within(q, root) {
        assert(awaits_reconcile(w, q));
    } else {
        lemma_within_reflexive(root);
        if awaits_reconcile(v, q) {
            let r = choose|r: Seq<Part>| #[trigger]
                v.compacted.contains_key(r) && r.len() <= q.len() && q.take(r.len() as int) == r
                    && (v.deferred.contains_key(r) || v.intents.contains_key(r)
                    && v.intents[r].kind == PendingIntentKind::ReconcileSubtree);
            assert(within(q, r));
            if within(r, root) {
                lemma_within_transitive(q, r, root);
            }
            assert(w.compacted.contains_key(r));
        }
    }
}

proof fn lemma_absorption_covers(v: MapsView, root: Seq<Part>, at: SystemTime, q: Seq<Part>)
    requires
        v.compacted.contains_key(root),
    ensures
        within(q, root) ==> awaits_reconcile(absorbed_event(v, root, at), q) && awaits_reconcile(
            absorbed_intent(v, root, at),
            q,
        ),
        absorbed_event(v, root, at).events == v.events,
        absorbed_intent(v, root, at).events == v.events,
        awaits_reconcile(v, q) ==> awaits_reconcile(absorbed_event(v, root, at), q)
            && awaits_reconcile(absorbed_intent(v, root, at), q),
{
    let a = absorbed_event(v, root, at);
    let b = absorbed_intent(v, root, at);
    assert(a.compacted.contains_key(root));
    assert(b.compacted.contains_key(root));
    if awaits_reconcile(v, q) {
        let r = choose|r: Seq<Part>| #[trigger]
            v.compacted.contains_key(r) && r.len() <= q.len() && q.take(r.len() as int) == r && (
            v.deferred.contains_key(r) || v.intents.contains_key(r) && v.intents[r].kind
                == PendingIntentKind::ReconcileSubtree);
        assert(a.compacted.contains_key(r));
        assert(b.compacted.contains_key(r));
    }
}

proof fn lemma_prepared_covers(v: MapsView, path: Seq<Part>, at: SystemTime, q: Seq<Part>)
    ensures
        v.events.contains_key(q) ==> prepared(v, path, at).events.contains_key(q) && prepared(
            v,
            path,
            at,
        ).events[q] == v.events[q] || awaits_reconcile(prepared(v, path, at), q),
        v.intents.contains_key(q) ==> prepared(v, path, at).intents.contains_key(q) && prepared(
            v,
            path,
            at,
        ).intents[q] == v.intents[q] || awaits_reconcile(prepared(v, path, at), q),
        awaits_reconcile(v, q) ==> awaits_reconcile(prepared(v, path, at), q),
{
    match full_subtree(v, path) {
        Some(root) => {
            lemma_compaction_covers(v, root, BackpressureReason::SubtreeCapExceeded, at, None, q);
        },
        None => {
            lemma_compaction_covers(
                v,
                v.watch_root,
                BackpressureReason::GlobalCapExceeded,
                at,
                None,
                q,
            );
        },
    }
}

proof fn lemma_storm_covers(v: MapsView, event: FsEventView, q: Seq<Part>)
    ensures
        v.events.contains_key(q) ==> storm_checked(v, event).events.contains_key(q)
            && storm_checked(v, event).events[q] == v.events[q] || awaits_reconcile(
            storm_checked(v, event),
            q,
        ),
        awaits_reconcile(v, q) ==> awaits_reconcile(storm_checked(v, event), q),
{
    let (storm, trigger) = observed(v.storm, event.path, event.observed_at, v.events.dom().len());
    let seen = MapsView { storm, ..v };
    if awaits_reconcile(v, q) {
        let r = choose|r: Seq<Part>| #[trigger]
            v.compacted.contains_key(r) && r.len() <= q.len() && q.take(r.len() as int) == r && (
            v.deferred.contains_key(r) || v.intents.contains_key(r) && v.intents[r].kind
                == PendingIntentKind::ReconcileSubtree);
        assert(seen.compacted.contains_key(r));
        assert(awaits_reconcile(seen, q));
    }
    if let Some(t) = trigger {
        lemma_compaction_covers(
            seen,
            t.root,
            backpressure_of(t.reason),
            event.observed_at,
            Some(t.available_at),
            q,
        );
    }
}

/// No event below the watch root is lost: it is pending for its path, with
/// its own time and kind, or a reconcile is to come for a directory above it.
/// An event elsewhere changes nothing.
pub proof fn law_no_event_is_lost(maps: &mut BoundedEventIntentMaps, event: FsEventRecord)
    requires
        call_ensures(BoundedEventIntentMaps::record_event, (maps, event), ()),
    ensures
        ({
            let root = old(maps)@.watch_root;
            let path = event.path@;
            let v = final(maps)@;
            if root.len() <= path.len() && path.take(root.len() as int) == root {
                v.events.contains_key(path) && v.events[path].last_observed_at == event.observed_at
                    && v.events[path].last_event_kind == event.kind && v.events[path].path == (
                if old(maps)@.events.contains_key(path) {
                    old(maps)@.events[path].path
                } else {
                    path
                }) || awaits_reconcile(v, path)
            } else {
                v == old(maps)@
            }
        }),
{
    let v = old(maps)@;
    let told = event@;
    let path = event.path@;
    let at = event.observed_at;
    if within(path, v.watch_root) {
        lemma_governing(v.compacted, path);
        match governing(v.compacted, path) {
            Some(root) => {
                lemma_absorption_covers(v, root, at, path);
            },
            None => {
                if v.events.contains_key(path) {
                    lemma_storm_covers(
                        MapsView {
                            events: v.events.insert(path, bumped(v.events[path], told)),
                            ..v
                        },
                        told,
                        path,
                    );
                } else {
                    let ready = if pending_paths(v).contains(path) {
                        v
                    } else {
                        prepared(v, path, at)
                    };
                    lemma_governing(ready.compacted, path);
                    match governing(ready.compacted, path) {
                        Some(root) => {
                            lemma_absorption_covers(ready, root, at, path);
                        },
                        None => {
                            lemma_storm_covers(
                                MapsView {
                                    events: ready.events.insert(path, first_event(told)),
                                    ..ready
                                },
                                told,
                                path,
                            );
                        },
                    }
                }
            },
        }
    }
}

/// One more event on a pending path keeps what is known of it: the first event
/// stays the first, the new one is the last, each kind seen stays seen, and
/// the burst counts one more.
pub proof fn law_a_burst_keeps_its_history(maps: &mut BoundedEventIntentMaps, event: FsEventRecord)
    requires
        call_ensures(BoundedEventIntentMaps::record_event, (maps, event), ()),
    ensures
        ({
            let path = event.path@;
            let (before, after) = (old(maps)@.events, final(maps)@.events);
            let root = old(maps)@.watch_root;
            before.contains_key(path) && after.contains_key(path) && root.len() <= path.len()
                && path.take(root.len() as int) == root && !awaits_reconcile(final(maps)@, path)
                ==> {
                &&& after[path].first_observed_at == before[path].first_observed_at
                &&& after[path].last_observed_at == event.observed_at
                &&& after[path].last_event_kind == event.kind
                &&& before[path].burst_count < usize::MAX ==> after[path].burst_count
                    == before[path].burst_count + 1
                &&& before[path].flags.removed ==> after[path].flags.removed
                &&& before[path].flags.created ==> after[path].flags.created
                &&& before[path].flags.renamed ==> after[path].flags.renamed
                &&& before[path].flags.modified ==> after[path].flags.modified
                &&& event.kind == FsEventKind::Removed ==> after[path].flags.removed
                &&& event.kind == FsEventKind::Created ==> after[path].flags.created
                &&& event.kind == FsEventKind::Renamed ==> after[path].flags.renamed
                &&& event.kind == FsEventKind::Modified ==> after[path].flags.modified
            }
        }),
        ({
            let path = event.path@;
            let (before, after) = (old(maps)@.events, final(maps)@.events);
            !before.contains_key(path) && after.contains_key(path) ==> after[path].first_observed_at
                == event.observed_at && after[path].last_observed_at == event.observed_at
                && after[path].burst_count == 1 && after[path].last_event_kind == event.kind
        }),
{
    let v = old(maps)@;
    let told = event@;
    let path = event.path@;
    let at = event.observed_at;
    if within(path, v.watch_root) {
        lemma_governing(v.compacted, path);
        match governing(v.compacted, path) {
            Some(root) => {
                lemma_absorption_covers(v, root, at, path);
            },
            None => {
                if v.events.contains_key(path) {
                    lemma_storm_covers(
                        MapsView {
                            events: v.events.insert(path, bumped(v.events[path], told)),
                            ..v
                        },
                        told,
                        path,
                    );
                } else {
                    let ready = if pending_paths(v).contains(path) {
                        v
                    } else {
                        prepared(v, path, at)
                    };
                    lemma_governing(ready.compacted, path);
                    match governing(ready.compacted, path) {
                        Some(root) => {
                            lemma_absorption_covers(ready, root, at, path);
                        },
                        None => {
                            lemma_storm_covers(
                                MapsView {
                                    events: ready.events.insert(path, first_event(told)),
                                    ..ready
                                },
                                told,
                                path,
                            );
                        },
                    }
                }
            },
        }
    }
}

/// An event never makes the storage forget another path: what was pending for
/// it is pending unchanged, or a reconcile is to come for a directory above it.
pub proof fn law_other_paths_are_not_forgotten(
    maps: &mut BoundedEventIntentMaps,
    event: FsEventRecord,
    q: Seq<Part>,
)
    requires
        call_ensures(BoundedEventIntentMaps::record_event, (maps, event), ()),
        q != event.path@,
        old(maps)@.events.contains_key(q),
    ensures
        final(maps)@.events.contains_key(q) && final(maps)@.events[q] == old(maps)@.events[q]
            || awaits_reconcile(final(maps)@, q),
{
    let v = old(maps)@;
    let told = event@;
    let path = event.path@;
    let at = event.observed_at;
    if within(path, v.watch_root) {
        lemma_governing(v.compacted, path);
        match governing(v.compacted, path) {
            Some(root) => {
                lemma_absorption_covers(v, root, at, q);
            },
            None => {
                if v.events.contains_key(path) {
                    lemma_storm_covers(
                        MapsView {
                            events: v.events.insert(path, bumped(v.events[path], told)),
                            ..v
                        },
                        told,
                        q,
                    );
                } else {
                    lemma_prepared_covers(v, path, at, q);
                    let ready = if pending_paths(v).contains(path) {
                        v
                    } else {
                        prepared(v, path, at)
                    };
                    lemma_governing(ready.compacted, path);
                    match governing(ready.compacted, path) {
                        Some(root) => {
                            lemma_absorption_covers(ready, root, at, q);
                        },
                        None => {
                            let stored = MapsView {
                                events: ready.events.insert(path, first_event(told)),
                                ..ready
                            };
                            if awaits_reconcile(ready, q) {
                                let r = choose|r: Seq<Part>| #[trigger]
                                    ready.compacted.contains_key(r) && r.len() <= q.len() && q.take(
                                        r.len() as int,
                                    ) == r && (ready.deferred.contains_key(r)
                                        || ready.intents.contains_key(r) && ready.intents[r].kind
                                        == PendingIntentKind::ReconcileSubtree);
                                assert(stored.compacted.contains_key(r));
                                assert(awaits_reconcile(stored, q));
                            }
                            lemma_storm_covers(stored, told, q);
                        },
                    }
                }
            },
        }
    }
}

/// No intent below the watch root is lost: it is pending for its path, with
/// its own kind and time, or a reconcile is to come for a directory above it.
pub proof fn law_no_intent_is_lost(
    maps: &mut BoundedEventIntentMaps,
    path: FsPath,
    kind: PendingIntentKind,
    at: SystemTime,
)
    requires
        call_ensures(BoundedEventIntentMaps::upsert_intent, (maps, path, kind, at), ()),
    ensures
        ({
            let root = old(maps)@.watch_root;
            let v = final(maps)@;
            if root.len() <= path@.len() && path@.take(root.len() as int) == root {
                v.intents.contains_key(path@) && v.intents[path@].kind == kind
                    && v.intents[path@].observed_at == at || awaits_reconcile(v, path@)
            } else {
                v == old(maps)@
            }
        }),
{
    let v = old(maps)@;
    let p = path@;
    if within(p, v.watch_root) {
        lemma_governing(v.compacted, p);
        match governing(v.compacted, p) {
            Some(root) => {
                lemma_absorption_covers(v, root, at, p);
            },
            None => {
                let ready = if pending_paths(v).contains(p) {
                    v
                } else {
                    prepared(v, p, at)
                };
                lemma_governing(ready.compacted, p);
                if let Some(root) = governing(ready.compacted, p) {
                    lemma_absorption_covers(ready, root, at, p);
                }
            },
        }
    }
}

/// Draining the intents hands every one of them out exactly once, as it was
/// set, and leaves none; nothing else changes.
pub proof fn law_drained_intents_are_all_handed_out(
    maps: &mut BoundedEventIntentMaps,
    r: Vec<PendingIntentRecord>,
)
    requires
        call_ensures(BoundedEventIntentMaps::drain_pending_intents, (maps,), r),
    ensures
        final(maps)@.intents.dom().len() == 0,
        final(maps)@.events == old(maps)@.events,
        final(maps)@.compacted == old(maps)@.compacted,
        final(maps)@.deferred == old(maps)@.deferred,
        forall|i: int|
            0 <= i < r@.len() ==> old(maps)@.intents.contains_key((#[trigger] r@[i]).path@)
                && r@[i].kind == old(maps)@.intents[r@[i].path@].kind && r@[i].observed_at
                == old(maps)@.intents[r@[i].path@].observed_at,
        forall|p: Seq<Part>| #[trigger]
            old(maps)@.intents.contains_key(p) ==> exists|i: int|
                0 <= i < r@.len() && (#[trigger] r@[i]).path@ == p,
{
    let all = old(maps)@.intents;
    assert(final(maps)@.intents.dom() =~= Set::empty());
    assert forall|i: int| 0 <= i < r@.len() implies all.contains_key((#[trigger] r@[i]).path@)
        && r@[i].kind == all[r@[i].path@].kind && r@[i].observed_at
        == all[r@[i].path@].observed_at by {
        assert(intent_paths(r@)[i] == r@[i].path@);
        assert(intent_paths(r@).contains(r@[i].path@));
        assert(intent_paths(r@).to_set().contains(r@[i].path@));
        assert(r@[i]@ == all[r@[i].path@]);
    }
    assert forall|p: Seq<Part>| #[trigger] all.contains_key(p) implies exists|i: int|
        0 <= i < r@.len() && (#[trigger] r@[i]).path@ == p by {
        assert(intent_paths(r@).to_set().contains(p));
        let i = intent_paths(r@).index_of(p);
        assert(r@[i].path@ == p);
    }
}

/// A deferred reconcile is handed out exactly when its time has come, as a
/// reconcile of its own root; the others stay put off, unchanged.
pub proof fn law_deferred_reconciles_come_when_due(
    maps: &mut BoundedEventIntentMaps,
    now: SystemTime,
    r: Vec<PendingIntentRecord>,
)
    requires
        call_ensures(
            BoundedEventIntentMaps::take_ready_deferred_reconcile_intents,
            (maps, now),
            r,
        ),
    ensures
        forall|i: int|
            0 <= i < r@.len() ==> old(maps)@.deferred.contains_key((#[trigger] r@[i]).path@)
                && old(maps)@.deferred[r@[i].path@].available_at.nanos <= now.nanos && r@[i].kind
                == PendingIntentKind::ReconcileSubtree,
        forall|p: Seq<Part>| #[trigger]
            old(maps)@.deferred.contains_key(p) ==> if old(maps)@.deferred[p].available_at.nanos
                <= now.nanos {
                !final(maps)@.deferred.contains_key(p) && exists|i: int|
                    0 <= i < r@.len() && (#[trigger] r@[i]).path@ == p
            } else {
                final(maps)@.deferred.contains_key(p) && final(maps)@.deferred[p]
                    == old(maps)@.deferred[p]
            },
        final(maps)@.events == old(maps)@.events,
        final(maps)@.intents == old(maps)@.intents,
        final(maps)@.compacted == old(maps)@.compacted,
{
    let all = old(maps)@.deferred;
    assert forall|i: int| 0 <= i < r@.len() implies all.contains_key((#[trigger] r@[i]).path@)
        && all[r@[i].path@].available_at.nanos <= now.nanos && r@[i].kind
        == PendingIntentKind::ReconcileSubtree by {
        assert(intent_paths(r@)[i] == r@[i].path@);
        assert(intent_paths(r@).contains(r@[i].path@));
    }
    assert forall|p: Seq<Part>| #[trigger] all.contains_key(p) implies if all[p].available_at.nanos
        <= now.nanos {
        !final(maps)@.deferred.contains_key(p) && exists|i: int|
            0 <= i < r@.len() && (#[trigger] r@[i]).path@ == p
    } else {
        final(maps)@.deferred.contains_key(p) && final(maps)@.deferred[p] == all[p]
    } by {
        if all[p].available_at.nanos <= now.nanos {
            assert(intent_paths(r@).contains(p));
            let i = intent_paths(r@).index_of(p);
            assert(r@[i].path@ == p);
        }
    }
}

/// A compacted directory is forgotten only when no reconcile of it is to come;
/// nothing else changes.
pub proof fn law_a_compacted_directory_waits_for_its_reconcile(
    maps: &mut BoundedEventIntentMaps,
    root: FsPath,
    r: bool,
)
    requires
        call_ensures(BoundedEventIntentMaps::clear_compacted_subtree_boundary, (maps, &root), r),
    ensures
        r <==> old(maps)@.compacted.contains_key(root@) && !old(maps)@.deferred.contains_key(root@)
            && !(old(maps)@.intents.contains_key(root@) && old(maps)@.intents[root@].kind
            == PendingIntentKind::ReconcileSubtree),
        final(maps)@.compacted.contains_key(root@) <==> old(maps)@.compacted.contains_key(root@)
            && !r,
        forall|p: Seq<Part>|
            p != root@ ==> (#[trigger] final(maps)@.compacted.contains_key(p) <==> old(maps)@.compacted.contains_key(p)),
        final(maps)@.events == old(maps)@.events,
        final(maps)@.intents == old(maps)@.intents,
        final(maps)@.deferred == old(maps)@.deferred,
{
}

/// A kind once seen stays seen, and raising one raises no other.
pub proof fn law_a_kind_once_seen_stays_seen(flags: &mut PendingEventFlags, kind: FsEventKind)
    requires
        call_ensures(PendingEventFlags::raise, (flags, kind), ()),
    ensures
        final(flags).created <==> old(flags).created || kind is Created,
        final(flags).modified <==> old(flags).modified || kind is Modified,
        final(flags).removed <==> old(flags).removed || kind is Removed,
        final(flags).renamed <==> old(flags).renamed || kind is Renamed,
        final(flags).other <==> old(flags).other || kind is Other,
{
}

/// What a compacted subtree swallows is counted, each as what it is, and the
/// last time it saw something is kept.
pub proof fn law_what_is_swallowed_is_counted(
    by_event: &mut CompactedSubtreeRecord,
    by_intent: &mut CompactedSubtreeRecord,
    at: SystemTime,
)
    requires
        call_ensures(CompactedSubtreeRecord::note_event, (by_event, at), ()),
        call_ensures(CompactedSubtreeRecord::note_intent, (by_intent, at), ()),
    ensures
        old(by_event)@.suppressed_event_count < usize::MAX ==> final(by_event)@.suppressed_event_count == old(by_event)@.suppressed_event_count + 1,
        final(by_event)@.suppressed_intent_count == old(by_event)@.suppressed_intent_count,
        final(by_event)@.last_observed_at == at,
        final(by_event)@.root == old(by_event)@.root,
        final(by_event)@.reason == old(by_event)@.reason,
        old(by_intent)@.suppressed_intent_count < usize::MAX ==> final(by_intent)@.suppressed_intent_count == old(by_intent)@.suppressed_intent_count + 1,
        final(by_intent)@.suppressed_event_count == old(by_intent)@.suppressed_event_count,
        final(by_intent)@.root == old(by_intent)@.root,
        final(by_intent)@.last_observed_at == at,
{
}

/// Draining takes out exactly the events that are ready, each as it was, and
/// leaves everything else.
pub proof fn law_only_ready_events_are_drained<F: Fn(&PendingEventRecord) -> bool>(
    maps: &mut BoundedEventIntentMaps,
    is_ready: F,
    r: Vec<PendingEventRecord>,
)
    requires
        call_ensures(BoundedEventIntentMaps::drain_ready_events::<F>, (maps, is_ready), r),
    ensures
        final(maps)@.intents == old(maps)@.intents,
        final(maps)@.compacted == old(maps)@.compacted,
        final(maps)@.deferred == old(maps)@.deferred,
        forall|i: int|
            0 <= i < r@.len() ==> call_ensures(is_ready, (&(#[trigger] r@[i]),), true) && old(maps)@.events.contains_key(r@[i].path@) && !final(maps)@.events.contains_key(r@[i].path@),
        forall|p: Seq<Part>|
            #[trigger] final(maps)@.events.contains_key(p) ==> old(maps)@.events.contains_key(p)
                && final(maps)@.events[p] == old(maps)@.events[p],
{
    assert forall|i: int| 0 <= i < r@.len() implies call_ensures(
        is_ready,
        (&(#[trigger] r@[i]),),
        true,
    ) && old(maps)@.events.contains_key(r@[i].path@) && !final(maps)@.events.contains_key(
        r@[i].path@,
    ) by {
        assert(event_paths(r@)[i] == r@[i].path@);
        assert(event_paths(r@).contains(r@[i].path@));
    }
}

} // verus!
