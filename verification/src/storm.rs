//! Storm detection: bursts of filesystem events that are cheaper to settle
//! with one deferred subtree reconcile than path by path.
//!
//! Events are counted per directory inside a sliding window. A directory
//! storms when the window holds too many distinct paths or too many events;
//! the whole watch root storms when too many events are pending at once.
use vstd::prelude::*;

use crate::clock::{Duration, SystemTime};
use crate::path_map::PathMap;
use crate::paths::{has_parent, within, FsPath, Part};

verus! {

/// When a burst of events counts as a storm.
#[derive(Clone, Copy, Debug, PartialEq, Eq, Structural)]
pub struct StormThresholds {
    pub window: Duration,
    pub directory_unique_paths_threshold: usize,
    pub directory_event_count_threshold: usize,
    pub global_pending_event_count_threshold: usize,
    pub deferred_reconcile_delay: Duration,
}

/// The thresholds where nothing else is configured.
pub open spec fn usual_thresholds() -> StormThresholds {
    StormThresholds {
        window: Duration { nanos: 2_000_000_000 },
        directory_unique_paths_threshold: 200,
        directory_event_count_threshold: 1_000,
        global_pending_event_count_threshold: 10_000,
        deferred_reconcile_delay: Duration { nanos: 30_000_000_000 },
    }
}

impl Default for StormThresholds {
    fn default() -> (r: StormThresholds)
        ensures
            r == usual_thresholds(),
    {
        StormThresholds {
            window: Duration { nanos: 2_000_000_000 },
            directory_unique_paths_threshold: 200,
            directory_event_count_threshold: 1_000,
            global_pending_event_count_threshold: 10_000,
            deferred_reconcile_delay: Duration { nanos: 30_000_000_000 },
        }
    }
}

/// Which threshold a storm crossed.
#[derive(Clone, Copy, Debug, PartialEq, Eq, Structural)]
pub enum StormReason {
    DirectoryUniquePathsThreshold,
    DirectoryEventCountThreshold,
    GlobalPendingEventCountThreshold,
}

/// A storm: the subtree to reconcile and when.
#[derive(Debug)]
pub struct StormTrigger {
    pub root: FsPath,
    pub reason: StormReason,
    pub available_at: SystemTime,
}

pub struct StormTriggerView {
    pub root: Seq<Part>,
    pub reason: StormReason,
    pub available_at: SystemTime,
}

impl View for StormTrigger {
    type V = StormTriggerView;

    open spec fn view(&self) -> StormTriggerView {
        StormTriggerView {
            root: self.root@,
            reason: self.reason,
            available_at: self.available_at,
        }
    }
}

/// A reconcile put off until its subtree has been quiet for a while.
#[derive(Debug, PartialEq, Eq)]
pub struct DeferredReconcileRecord {
    pub root: FsPath,
    pub reason: StormReason,
    pub first_detected_at: SystemTime,
    pub last_observed_at: SystemTime,
    pub available_at: SystemTime,
    pub reschedule_count: usize,
}

pub struct DeferredView {
    pub root: Seq<Part>,
    pub reason: StormReason,
    pub first_detected_at: SystemTime,
    pub last_observed_at: SystemTime,
    pub available_at: SystemTime,
    pub reschedule_count: usize,
}

impl View for DeferredReconcileRecord {
    type V = DeferredView;

    open spec fn view(&self) -> DeferredView {
        DeferredView {
            root: self.root@,
            reason: self.reason,
            first_detected_at: self.first_detected_at,
            last_observed_at: self.last_observed_at,
            available_at: self.available_at,
            reschedule_count: self.reschedule_count,
        }
    }
}

/// Recent activity of one directory.
#[derive(Debug)]
pub struct DirectoryWindow {
    /// Times of the events in the window, oldest record first.
    times: Vec<SystemTime>,
    /// Last event time of each distinct path in the window.
    seen: PathMap<SystemTime>,
}

#[verifier::ext_equal]
pub struct DirectoryView {
    pub times: Seq<SystemTime>,
    pub seen: Map<Seq<Part>, SystemTime>,
}

impl View for SystemTime {
    type V = SystemTime;

    open spec fn view(&self) -> SystemTime {
        *self
    }
}

impl View for DirectoryWindow {
    type V = DirectoryView;

    closed spec fn view(&self) -> DirectoryView {
        DirectoryView { times: self.times@, seen: self.seen@ }
    }
}

/// Whether an event at `then` still counts at `now`. The far end of the
/// window is inside it, and so is anything later than `now`.
pub open spec fn is_recent(then: SystemTime, now: SystemTime, window: Duration) -> bool {
    now.nanos - then.nanos <= window.nanos
}

fn recent(then: SystemTime, now: SystemTime, window: Duration) -> (r: bool)
    ensures
        r == is_recent(then, now, window),
{
    match now.duration_since(then) {
        Some(age) => age.nanos <= window.nanos,
        None => true,
    }
}

/// The window of a directory after one more event.
pub open spec fn window_after(
    before: DirectoryView,
    path: Seq<Part>,
    now: SystemTime,
    window: Duration,
) -> DirectoryView {
    DirectoryView {
        times: before.times.filter(|t: SystemTime| is_recent(t, now, window)).push(now),
        seen: recent_paths(before.seen, now, window).insert(path, now),
    }
}

pub open spec fn recent_paths(
    seen: Map<Seq<Part>, SystemTime>,
    now: SystemTime,
    window: Duration,
) -> Map<Seq<Part>, SystemTime> {
    Map::new(
        |p: Seq<Part>| seen.contains_key(p) && is_recent(seen[p], now, window),
        |p: Seq<Part>| seen[p],
    )
}

pub open spec fn empty_directory() -> DirectoryView {
    DirectoryView { times: Seq::empty(), seen: Map::empty() }
}

impl DirectoryWindow {
    fn new() -> (r: DirectoryWindow)
        ensures
            r@ == empty_directory(),
    {
        DirectoryWindow { times: Vec::new(), seen: PathMap::new() }
    }

    /// Drops what left the window, then counts the event.
    fn note(&mut self, path: &FsPath, now: SystemTime, window: Duration)
        ensures
            final(self)@ == window_after(old(self)@, path@, now, window),
    {
        let ghost before = *self;
        let ghost keep = |t: SystemTime| is_recent(t, now, window);
        let mut times: Vec<SystemTime> = Vec::new();
        let mut i: usize = 0;
        assert(before.times@.take(0) =~= Seq::<SystemTime>::empty());
        while i < self.times.len()
            invariant
                *self == before,
                keep == (|t: SystemTime| is_recent(t, now, window)),
                0 <= i <= self.times.len(),
                times@ == before.times@.take(i as int).filter(keep),
            decreases self.times.len() - i,
        {
            let t = self.times[i];
            let ghost next = before.times@.take(i as int + 1);
            assert(next.drop_last() =~= before.times@.take(i as int));
            assert(next.last() == t);
            reveal(Seq::filter);
            if recent(t, now, window) {
                times.push(t);
            }
            assert(times@ =~= next.filter(keep));
            i = i + 1;
        }
        assert(before.times@.take(i as int) =~= before.times@);
        times.push(now);
        self.times = times;

        let mut k: usize = self.seen.len();
        let ghost wanted = recent_paths(before.seen@, now, window);
        proof {
            use_type_invariant(&self.seen);
            self.seen.lemma_entries();
        }
        while k > 0
            invariant
                0 <= k <= self.seen.keys().len(),
                wanted == recent_paths(before.seen@, now, window),
                forall|p: Seq<Part>| #[trigger]
                    self.seen@.contains_key(p) ==> before.seen@.contains_key(p) && self.seen@[p]
                        == before.seen@[p],
                forall|p: Seq<Part>|
                    wanted.contains_key(p) ==> #[trigger] self.seen@.contains_key(p),
                forall|j: int|
                    k <= j < self.seen.keys().len() ==> wanted.contains_key(
                        #[trigger] self.seen.keys()[j],
                    ),
                self.times == times,
            decreases k,
        {
            k = k - 1;
            let ghost here = self.seen.keys()[k as int];
            let t = *self.seen.value_at(k);
            proof {
                use_type_invariant(&self.seen);
                self.seen.lemma_entries();
                assert(self.seen@.contains_key(here));
                assert(wanted.contains_key(here) <==> is_recent(t, now, window));
            }
            if !recent(t, now, window) {
                let ghost prior = self.seen;
                let _gone = self.seen.remove_at(k);
                assert forall|j: int| k <= j < self.seen.keys().len() implies wanted.contains_key(
                    #[trigger] self.seen.keys()[j],
                ) by {
                    assert(self.seen.keys()[j] == prior.keys()[j + 1]);
                }
            }
        }
        proof {
            use_type_invariant(&self.seen);
            self.seen.lemma_entries();
            assert forall|p: Seq<Part>| self.seen@.contains_key(p) implies wanted.contains_key(
                p,
            ) by {
                let j = self.seen.keys().index_of(p);
                assert(self.seen.keys().contains(p));
                assert(self.seen.keys()[j] == p);
            }
            assert(self.seen@ =~= wanted);
        }
        self.seen.insert(path.clone(), now);
        assert(self@ =~= window_after(before@, path@, now, window));
    }

    fn unique_paths(&self) -> (r: usize)
        ensures
            r as nat == self@.seen.dom().len(),
    {
        self.seen.len()
    }

    fn event_count(&self) -> (r: usize)
        ensures
            r as nat == self@.times.len(),
    {
        self.times.len()
    }
}

/// Watches the event stream for storms.
#[derive(Debug)]
pub struct StormDetector {
    watch_root: FsPath,
    thresholds: StormThresholds,
    directories: PathMap<DirectoryWindow>,
}

/// State of a detector.
#[verifier::ext_equal]
pub struct StormView {
    pub watch_root: Seq<Part>,
    pub thresholds: StormThresholds,
    pub directories: Map<Seq<Part>, DirectoryView>,
}

impl View for StormDetector {
    type V = StormView;

    closed spec fn view(&self) -> StormView {
        StormView {
            watch_root: self.watch_root@,
            thresholds: self.thresholds,
            directories: self.directories@,
        }
    }
}

/// The directory an event is counted in: the parent of its path, or the
/// watch root where that lies outside.
pub open spec fn storm_directory(watch_root: Seq<Part>, path: Seq<Part>) -> Seq<Part> {
    if has_parent(path) && within(path.drop_last(), watch_root) {
        path.drop_last()
    } else {
        watch_root
    }
}

/// Why the event that led to `window` and `pending` events is a storm.
pub open spec fn storm_reason_for(
    thresholds: StormThresholds,
    window: DirectoryView,
    pending: nat,
) -> Option<StormReason> {
    if window.seen.dom().len() >= thresholds.directory_unique_paths_threshold {
        Some(StormReason::DirectoryUniquePathsThreshold)
    } else if window.times.len() >= thresholds.directory_event_count_threshold {
        Some(StormReason::DirectoryEventCountThreshold)
    } else if pending >= thresholds.global_pending_event_count_threshold {
        Some(StormReason::GlobalPendingEventCountThreshold)
    } else {
        None
    }
}

/// Time `at` moved forward by `delta`.
pub open spec fn time_plus(at: SystemTime, delta: Duration) -> SystemTime {
    SystemTime { nanos: (at.nanos + delta.nanos) as i128 }
}

/// Detector state and trigger after one event.
pub open spec fn observed(
    before: StormView,
    path: Seq<Part>,
    at: SystemTime,
    pending: nat,
) -> (StormView, Option<StormTriggerView>) {
    let directory = storm_directory(before.watch_root, path);
    let window = window_after(
        if before.directories.contains_key(directory) {
            before.directories[directory]
        } else {
            empty_directory()
        },
        path,
        at,
        before.thresholds.window,
    );
    match storm_reason_for(before.thresholds, window, pending) {
        None => (
            StormView { directories: before.directories.insert(directory, window), ..before },
            None,
        ),
        Some(reason) => {
            let root = if reason == StormReason::GlobalPendingEventCountThreshold {
                before.watch_root
            } else {
                directory
            };
            (
                StormView {
                    directories: before.directories.remove(directory),
                    ..before
                },
                Some(
                    StormTriggerView {
                        root,
                        reason,
                        available_at: time_plus(at, before.thresholds.deferred_reconcile_delay),
                    },
                ),
            )
        },
    }
}

impl StormDetector {
    pub fn with_thresholds(watch_root: FsPath, thresholds: StormThresholds) -> (r: StormDetector)
        ensures
            r@ == (StormView {
                watch_root: watch_root@,
                thresholds,
                directories: Map::empty(),
            }),
    {
        StormDetector { watch_root, thresholds, directories: PathMap::new() }
    }

    /// When a reconcile of a subtree last touched at `observed_at` is due.
    pub fn deferred_available_at(&self, observed_at: SystemTime) -> (r: SystemTime)
        requires
            observed_at.can_add(self@.thresholds.deferred_reconcile_delay),
        ensures
            r == time_plus(observed_at, self@.thresholds.deferred_reconcile_delay),
    {
        observed_at.plus(self.thresholds.deferred_reconcile_delay)
    }

    fn directory_of(&self, path: &FsPath) -> (r: FsPath)
        ensures
            r@ == storm_directory(self@.watch_root, path@),
    {
        match path.parent() {
            Some(parent) => if parent.starts_with(&self.watch_root) {
                parent
            } else {
                self.watch_root.clone()
            },
            None => self.watch_root.clone(),
        }
    }

    /// Counts one event and tells whether it makes a storm.
    pub fn observe_event(
        &mut self,
        path: &FsPath,
        observed_at: SystemTime,
        pending_event_count: usize,
    ) -> (r: Option<StormTrigger>)
        requires
            observed_at.can_add(old(self)@.thresholds.deferred_reconcile_delay),
        ensures
            ({
                let (after, trigger) = observed(
                    old(self)@,
                    path@,
                    observed_at,
                    pending_event_count as nat,
                );
                &&& final(self)@ == after
                &&& match r {
                    Some(t) => trigger == Some(t@),
                    None => trigger is None,
                }
            }),
    {
        let ghost before = *self;
        let directory = self.directory_of(path);
        let mut window = match self.directories.remove(&directory) {
            Some(window) => window,
            None => DirectoryWindow::new(),
        };
        assert(self.directories@ =~= before.directories@.remove(directory@));
        window.note(path, observed_at, self.thresholds.window);
        let unique: usize = window.unique_paths();
        let events: usize = window.event_count();
        let reason = if unique >= self.thresholds.directory_unique_paths_threshold {
            StormReason::DirectoryUniquePathsThreshold
        } else if events >= self.thresholds.directory_event_count_threshold {
            StormReason::DirectoryEventCountThreshold
        } else if pending_event_count >= self.thresholds.global_pending_event_count_threshold {
            StormReason::GlobalPendingEventCountThreshold
        } else {
            self.directories.insert(directory.clone(), window);
            assert(self.directories@ =~= before.directories@.insert(directory@, window@));
            return None;
        };
        let available_at = self.deferred_available_at(observed_at);
        let root = if matches!(reason, StormReason::GlobalPendingEventCountThreshold) {
            self.watch_root.clone()
        } else {
            directory
        };
        Some(StormTrigger { root, reason, available_at })
    }
}

// ---------------------------------------------------------------------------
// What the detector is for
// ---------------------------------------------------------------------------

/// An event makes a storm as soon as its directory has seen as many distinct
/// paths, or as many events, within the window as the thresholds say, or as
/// many events are pending altogether; otherwise the directory's window holds
/// it and stays below both. A storm concerns the directory of the event, or
/// the whole root where everything is flooded, and its reconcile is put off by
/// the delay.
pub proof fn law_a_storm_is_a_flooded_window(
    detector: &mut StormDetector,
    path: FsPath,
    at: SystemTime,
    pending: usize,
    r: Option<StormTrigger>,
)
    requires
        call_ensures(StormDetector::observe_event, (detector, &path, at, pending), r),
        at.can_add(old(detector)@.thresholds.deferred_reconcile_delay),
    ensures
        ({
            let limits = old(detector)@.thresholds;
            let root = old(detector)@.watch_root;
            let parent = path@.drop_last();
            let inside = path@.len() > 0 && root.len() <= parent.len() && parent.take(
                root.len() as int,
            ) == root;
            &&& r matches Some(t) ==> t.available_at.nanos == at.nanos
                + limits.deferred_reconcile_delay.nanos && (t.root@ == root || inside && t.root@
                == parent) && (t.reason == StormReason::GlobalPendingEventCountThreshold
                ==> pending >= limits.global_pending_event_count_threshold && t.root@ == root)
            &&& r is None ==> pending < limits.global_pending_event_count_threshold && exists|
                d: Seq<Part>,
            |
                (d == root || inside && d == parent) && #[trigger]
                    final(detector)@.directories.contains_key(d) && ({
                    let w = final(detector)@.directories[d];
                    &&& w.times.len() > 0 && w.times.last() == at
                    &&& w.times.len() < limits.directory_event_count_threshold
                    &&& w.seen.contains_key(path@) && w.seen[path@] == at
                    &&& w.seen.dom().len() < limits.directory_unique_paths_threshold
                })
            &&& final(detector)@.thresholds == limits
            &&& final(detector)@.watch_root == root
        }),
{
    let d = storm_directory(old(detector)@.watch_root, path@);
    if r is None {
        assert(final(detector)@.directories.contains_key(d));
    }
}

} // verus!
