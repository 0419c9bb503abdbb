//! Filesystem events as the watcher callback hands them on.
use vstd::prelude::*;

use crate::clock::SystemTime;
use crate::path_filter::{ignored, assembled, EventPathFilter, EventPathFilterOptions, IgnoreFile,
    GIT_IGNORE_FILE_NAME, VAPOR_IGNORE_FILE_NAME};
use crate::paths::{file_name_of, has_parent, is_absolute_path, joined, path_text, within, Component,
    FsPath, Part};
use crate::text::{concat, same_text};
use vstd::string::StringExecFns;

verus! {

/// What happened to a path.
#[derive(Clone, Copy, Debug, PartialEq, Eq, Structural)]
pub enum FsEventKind {
    Created,
    Modified,
    Removed,
    Renamed,
    Other,
}

/// One observed event.
#[derive(Debug, PartialEq, Eq)]
pub struct FsEventRecord {
    pub path: FsPath,
    pub kind: FsEventKind,
    pub observed_at: SystemTime,
}

pub struct FsEventView {
    pub path: Seq<Part>,
    pub kind: FsEventKind,
    pub observed_at: SystemTime,
}

impl View for FsEventRecord {
    type V = FsEventView;

    open spec fn view(&self) -> FsEventView {
        FsEventView { path: self.path@, kind: self.kind, observed_at: self.observed_at }
    }
}

/// An error the watcher reported.
#[derive(Clone, Debug, PartialEq, Eq)]
pub struct FsEventErrorRecord {
    pub description: String,
}

/// Takes what the watcher callback reports.
pub trait FsEventRecording {
    /// Whether the recorder is ready for `event`.
    spec fn accepts(&self, event: FsEventView) -> bool;

    /// Whether `after` is what becomes of the recorder when it takes `event`
    /// in.
    spec fn takes_in(&self, event: FsEventView, after: &Self) -> bool;

    fn record_event(&mut self, event: FsEventRecord)
        requires
            old(self).accepts(event@),
        ensures
            old(self).takes_in(event@, final(self)),
    ;

    fn record_error(&mut self, error: FsEventErrorRecord);
}

/// What the platform watcher reports of a path.
#[derive(Clone, Copy, Debug, PartialEq, Eq, Structural)]
pub enum WatchEventKind {
    Created,
    Modified,
    Removed,
    Renamed,
    Other,
}

/// One report of the platform watcher.
#[derive(Debug, PartialEq, Eq)]
pub struct WatchEvent {
    pub path: FsPath,
    pub kind: WatchEventKind,
    pub observed_at: SystemTime,
}

pub open spec fn kind_of(kind: WatchEventKind) -> FsEventKind {
    match kind {
        WatchEventKind::Created => FsEventKind::Created,
        WatchEventKind::Modified => FsEventKind::Modified,
        WatchEventKind::Removed => FsEventKind::Removed,
        WatchEventKind::Renamed => FsEventKind::Renamed,
        WatchEventKind::Other => FsEventKind::Other,
    }
}

/// The daemon's name for what the platform reports, one for one.
pub fn fs_event_kind(kind: WatchEventKind) -> (r: FsEventKind)
    ensures
        r == kind_of(kind),
{
    match kind {
        WatchEventKind::Created => FsEventKind::Created,
        WatchEventKind::Modified => FsEventKind::Modified,
        WatchEventKind::Removed => FsEventKind::Removed,
        WatchEventKind::Renamed => FsEventKind::Renamed,
        WatchEventKind::Other => FsEventKind::Other,
    }
}

// ---------------------------------------------------------------------------
// Lexical normalization
// ---------------------------------------------------------------------------

/// The components with `.` dropped and `..` taken back; `None` when a `..`
/// has nothing to take back.
pub open spec fn collapsed(parts: Seq<Part>) -> Option<Seq<Part>>
    decreases parts.len(),
{
    if parts.len() == 0 {
        Some(Seq::empty())
    } else {
        match collapsed(parts.drop_last()) {
            None => None,
            Some(front) => match parts.last() {
                Part::Current => Some(front),
                Part::Parent => if has_parent(front) {
                    Some(front.drop_last())
                } else {
                    None
                },
                part => Some(front.push(part)),
            },
        }
    }
}

/// The absolute path without `.` and `..`.
pub open spec fn normalized(path: Seq<Part>) -> Option<Seq<Part>> {
    if is_absolute_path(path) {
        collapsed(path)
    } else {
        None
    }
}

/// Normalizes an absolute path; a relative one, and one that climbs above its
/// root, has no normal form.
pub fn normalize_absolute_path(path: &FsPath) -> (r: Option<FsPath>)
    ensures
        match r {
            Some(p) => normalized(path@) == Some(p@),
            None => normalized(path@) is None,
        },
{
    if !path.is_absolute() {
        return None;
    }
    let mut out = FsPath::empty();
    let mut i: usize = 0;
    assert(path@.take(0) =~= Seq::empty());
    while i < path.len()
        invariant
            i <= path@.len(),
            is_absolute_path(path@),
            collapsed(path@.take(i as int)) == Some(out@),
        decreases path@.len() - i,
    {
        let ghost next = path@.take(i + 1);
        assert(next.drop_last() =~= path@.take(i as int));
        assert(next.last() == path@[i as int]);
        match path.component(i) {
            Component::CurDir => {},
            Component::ParentDir => {
                match out.parent() {
                    Some(parent) => {
                        out = parent;
                    },
                    None => {
                        proof {
                            lemma_stuck(path@, i + 1);
                        }
                        return None;
                    },
                }
            },
            part => {
                out = out.pushed(part.clone());
            },
        }
        i = i + 1;
    }
    assert(path@.take(i as int) =~= path@);
    Some(out)
}

/// Once a front part has no normal form, the path has none.
proof fn lemma_stuck(parts: Seq<Part>, n: int)
    requires
        0 <= n <= parts.len(),
        collapsed(parts.take(n)) is None,
    ensures
        collapsed(parts) is None,
    decreases parts.len() - n,
{
    if n == parts.len() {
        assert(parts.take(n) =~= parts);
    } else {
        assert(parts.take(n + 1).drop_last() =~= parts.take(n));
        lemma_stuck(parts, n + 1);
    }
}

/// A normal form holds neither `.` nor `..`.
pub proof fn law_normal_forms_are_plain(parts: Seq<Part>)
    requires
        collapsed(parts) is Some,
    ensures
        forall|i: int|
            0 <= i < collapsed(parts)->0.len() ==> {
                let part = #[trigger] collapsed(parts)->0[i];
                part !is Current && part !is Parent
            },
    decreases parts.len(),
{
    if parts.len() > 0 {
        law_normal_forms_are_plain(parts.drop_last());
    }
}

/// Normalizing twice is normalizing once.
pub proof fn law_normalization_is_idempotent(path: Seq<Part>)
    requires
        normalized(path) is Some,
        is_absolute_path(normalized(path)->0),
    ensures
        normalized(normalized(path)->0) == normalized(path),
{
    let plain = collapsed(path)->0;
    law_normal_forms_are_plain(path);
    lemma_plain_is_normal(plain);
}

proof fn lemma_plain_is_normal(parts: Seq<Part>)
    requires
        forall|i: int|
            0 <= i < parts.len() ==> (#[trigger] parts[i]) !is Current && parts[i] !is Parent,
    ensures
        collapsed(parts) == Some(parts),
    decreases parts.len(),
{
    if parts.len() > 0 {
        let front = parts.drop_last();
        assert forall|i: int| 0 <= i < front.len() implies (#[trigger] front[i]) !is Current
            && front[i] !is Parent by {
            assert(front[i] == parts[i]);
        }
        lemma_plain_is_normal(front);
        assert(front.push(parts.last()) =~= parts);
    } else {
        assert(parts =~= Seq::empty());
    }
}

/// The path an event names, when it lies below the watch root.
pub open spec fn event_path(watch_root: Seq<Part>, path: Seq<Part>) -> Option<Seq<Part>> {
    let candidate = if is_absolute_path(path) {
        path
    } else {
        joined(watch_root, path)
    };
    match normalized(candidate) {
        Some(plain) => if within(plain, watch_root) {
            Some(plain)
        } else {
            None
        },
        None => None,
    }
}

/// Normalizes an event's path; one outside the watch root is dropped.
pub fn normalize_event_path(watch_root: &FsPath, path: &FsPath) -> (r: Option<FsPath>)
    ensures
        match r {
            Some(p) => event_path(watch_root@, path@) == Some(p@),
            None => event_path(watch_root@, path@) is None,
        },
{
    let candidate = if path.is_absolute() {
        path.clone()
    } else {
        watch_root.join_path(path)
    };
    match normalize_absolute_path(&candidate) {
        Some(plain) => if plain.starts_with(watch_root) {
            Some(plain)
        } else {
            None
        },
        None => None,
    }
}

// ---------------------------------------------------------------------------
// The live filter
// ---------------------------------------------------------------------------

/// The path filter in force, and whether an ignore file changed since it was
/// built. The rebuild reads the tree, so it is left to a quiet moment.
#[derive(Debug)]
pub struct SharedEventPathFilter {
    watch_root: FsPath,
    options: EventPathFilterOptions,
    filter: EventPathFilter,
    reload_requested: bool,
}

/// The path names an ignore file of a kind that is switched on.
pub open spec fn is_live_ignore_file(options: EventPathFilterOptions, path: Seq<Part>) -> bool {
    file_name_of(path) matches Some(name) && ((options.use_gitignore && name
        == GIT_IGNORE_FILE_NAME@) || (options.use_vaporignore && name == VAPOR_IGNORE_FILE_NAME@))
}

impl SharedEventPathFilter {
    pub closed spec fn root(&self) -> Seq<Part> {
        self.watch_root@
    }

    pub closed spec fn settings(&self) -> EventPathFilterOptions {
        self.options
    }

    pub closed spec fn in_force(&self) -> EventPathFilter {
        self.filter
    }

    pub closed spec fn stale(&self) -> bool {
        self.reload_requested
    }

    /// Builds the filter from the ignore files read.
    pub fn new(
        watch_root: &FsPath,
        options: EventPathFilterOptions,
        git_files: &Vec<IgnoreFile>,
        vapor_files: &Vec<IgnoreFile>,
    ) -> (r: SharedEventPathFilter)
        ensures
            r.root() == watch_root@,
            r.settings() == options,
            r.in_force().root() == watch_root@,
            r.in_force().listed().rules() == assembled(
                r.in_force().backslash(),
                watch_root@,
                options,
                git_files@,
                vapor_files@,
            ),
            r.in_force().rules() == r.in_force().listed().rules() || r.in_force().rules().len()
                == 0,
            !r.stale(),
    {
        let filter = EventPathFilter::for_watch_root(watch_root, &options, git_files, vapor_files);
        SharedEventPathFilter {
            watch_root: watch_root.clone(),
            options,
            filter,
            reload_requested: false,
        }
    }

    /// Whether the sync never sees the path.
    pub fn should_ignore(&self, path: &FsPath) -> (r: bool)
        ensures
            r == ignored(
                self.in_force().backslash(),
                self.in_force().rules(),
                self.in_force().root(),
                path@,
            ),
    {
        assert(self.in_force() == self.filter);
        self.filter.should_ignore(path)
    }

    pub fn watch_root(&self) -> (r: &FsPath)
        ensures
            r@ == self.root(),
    {
        &self.watch_root
    }

    /// Whether a rebuild is due.
    pub fn reload_requested(&self) -> (r: bool)
        ensures
            r == self.stale(),
    {
        self.reload_requested
    }

    /// An ignore file changed.
    pub fn request_reload(&mut self)
        ensures
            final(self).stale(),
            final(self).root() == old(self).root(),
            final(self).settings() == old(self).settings(),
            final(self).in_force() == old(self).in_force(),
    {
        self.reload_requested = true;
    }

    /// A path was observed: one that names an ignore file asks for a rebuild.
    pub fn note_observed_path(&mut self, path: &FsPath)
        ensures
            final(self).stale() == (old(self).stale() || is_live_ignore_file(
                old(self).settings(),
                path@,
            )),
            final(self).root() == old(self).root(),
            final(self).settings() == old(self).settings(),
            final(self).in_force() == old(self).in_force(),
    {
        if let Some(name) = path.file_name() {
            let git = self.options.use_gitignore && same_text(name.as_str(), GIT_IGNORE_FILE_NAME);
            let vapor = self.options.use_vaporignore && same_text(
                name.as_str(),
                VAPOR_IGNORE_FILE_NAME,
            );
            if git || vapor {
                self.request_reload();
            }
        }
    }

    /// Rebuilds the filter from the ignore files read, if a rebuild is due.
    pub fn rebuild_if_requested(
        &mut self,
        git_files: &Vec<IgnoreFile>,
        vapor_files: &Vec<IgnoreFile>,
    ) -> (r: bool)
        ensures
            r == old(self).stale(),
            !final(self).stale(),
            final(self).root() == old(self).root(),
            final(self).settings() == old(self).settings(),
            if r {
                &&& final(self).in_force().root() == old(self).root()
                &&& final(self).in_force().listed().rules() == assembled(
                    final(self).in_force().backslash(),
                    old(self).root(),
                    old(self).settings(),
                    git_files@,
                    vapor_files@,
                )
                &&& final(self).in_force().rules() == final(self).in_force().listed().rules()
                    || final(self).in_force().rules().len() == 0
            } else {
                final(self).in_force() == old(self).in_force()
            },
    {
        if !self.reload_requested {
            return false;
        }
        self.reload_requested = false;
        self.filter = EventPathFilter::for_watch_root(
            &self.watch_root,
            &self.options,
            git_files,
            vapor_files,
        );
        true
    }
}

/// Hands an event on, normalized; `None` when its path lies outside the root
/// or is ignored. An ignore file that is itself ignored asks for no rebuild:
/// a rebuild would not read it.
pub fn filter_watch_event(
    watch_root: &FsPath,
    path_filter: &mut SharedEventPathFilter,
    event: WatchEvent,
) -> (r: Option<FsEventRecord>)
    ensures
        final(path_filter).root() == old(path_filter).root(),
        final(path_filter).settings() == old(path_filter).settings(),
        final(path_filter).in_force() == old(path_filter).in_force(),
        match event_path(watch_root@, event.path@) {
            None => r is None && final(path_filter).stale() == old(path_filter).stale(),
            Some(path) => if ignored(
                old(path_filter).in_force().backslash(),
                old(path_filter).in_force().rules(),
                old(path_filter).in_force().root(),
                path,
            ) {
                r is None && final(path_filter).stale() == old(path_filter).stale()
            } else {
                &&& r matches Some(record)
                &&& record@ == (FsEventView {
                    path,
                    kind: kind_of(event.kind),
                    observed_at: event.observed_at,
                })
                &&& final(path_filter).stale() == (old(path_filter).stale()
                    || is_live_ignore_file(old(path_filter).settings(), path))
            },
        },
{
    let path = match normalize_event_path(watch_root, &event.path) {
        Some(path) => path,
        None => {
            return None;
        },
    };
    if path_filter.should_ignore(&path) {
        return None;
    }
    path_filter.note_observed_path(&path);
    Some(FsEventRecord { path, kind: fs_event_kind(event.kind), observed_at: event.observed_at })
}

/// Hands an event on to the recorder, unless it is dropped.
pub fn record_watch_event<R: FsEventRecording>(
    watch_root: &FsPath,
    path_filter: &mut SharedEventPathFilter,
    event: WatchEvent,
    recorder: &mut R,
)
    requires
        event_path(watch_root@, event.path@) matches Some(path) ==> old(recorder).accepts(
            FsEventView { path, kind: kind_of(event.kind), observed_at: event.observed_at },
        ),
    ensures
        final(path_filter).root() == old(path_filter).root(),
        final(path_filter).settings() == old(path_filter).settings(),
        final(path_filter).in_force() == old(path_filter).in_force(),
        match event_path(watch_root@, event.path@) {
            None => *final(recorder) == *old(recorder) && final(path_filter).stale() == old(
                path_filter,
            ).stale(),
            Some(path) => if ignored(
                old(path_filter).in_force().backslash(),
                old(path_filter).in_force().rules(),
                old(path_filter).in_force().root(),
                path,
            ) {
                *final(recorder) == *old(recorder) && final(path_filter).stale() == old(
                    path_filter,
                ).stale()
            } else {
                &&& old(recorder).takes_in(
                    FsEventView {
                        path,
                        kind: kind_of(event.kind),
                        observed_at: event.observed_at,
                    },
                    final(recorder),
                )
                &&& final(path_filter).stale() == (old(path_filter).stale()
                    || is_live_ignore_file(old(path_filter).settings(), path))
            },
        },
{
    if let Some(record) = filter_watch_event(watch_root, path_filter, event) {
        recorder.record_event(record);
    }
}

// ---------------------------------------------------------------------------
// Symlink resolution
// ---------------------------------------------------------------------------

/// Links followed for one component at most.
pub const MAX_LINK_HOPS: u32 = 32;

/// What stands at a probed path.
#[derive(Debug, PartialEq, Eq)]
pub enum LinkState {
    /// A symlink with this target.
    Link(FsPath),
    /// Something else.
    NotLink,
    Missing,
    Failed,
}

/// What a resolution asks for, or its verdict.
#[derive(Clone, Copy, Debug, PartialEq, Eq, Structural)]
pub enum ResolveStep {
    /// Look at the path being probed.
    Probe,
    /// The path stays below the watch root.
    Inside,
    /// It does not, or that could not be found out.
    Outside,
}

/// Follows a path below the watch root, component by component.
#[derive(Debug)]
pub struct PathResolver {
    watch_root: FsPath,
    relative: FsPath,
    taken: usize,
    probing: FsPath,
    hops: u32,
}

pub struct ResolverView {
    pub root: Seq<Part>,
    /// Components not taken yet.
    pub rest: Seq<Part>,
    /// The path being probed.
    pub at: Seq<Part>,
    /// Links followed for the current component.
    pub hops: nat,
}

impl View for PathResolver {
    type V = ResolverView;

    closed spec fn view(&self) -> ResolverView {
        ResolverView {
            root: self.watch_root@,
            rest: self.relative@.skip(self.taken as int),
            at: self.probing@,
            hops: self.hops as nat,
        }
    }
}

/// The step from a resolved path on to the next component.
pub open spec fn taken_up(v: ResolverView, resolved: Seq<Part>) -> (ResolverView, ResolveStep) {
    if v.rest.len() == 0 {
        (v, ResolveStep::Inside)
    } else if v.rest[0] is Normal {
        (
            ResolverView {
                rest: v.rest.drop_first(),
                at: resolved.push(v.rest[0]),
                hops: 0,
                ..v
            },
            ResolveStep::Probe,
        )
    } else {
        (v, ResolveStep::Outside)
    }
}

/// Where a link leads: its target, from the link's directory.
pub open spec fn link_target(v: ResolverView, target: Seq<Part>) -> Option<Seq<Part>> {
    normalized(
        if is_absolute_path(target) {
            target
        } else {
            joined(
                if has_parent(v.at) {
                    v.at.drop_last()
                } else {
                    v.root
                },
                target,
            )
        },
    )
}

/// What a reply leads to.
pub open spec fn replied(v: ResolverView, found: LinkState) -> (ResolverView, ResolveStep) {
    match found {
        LinkState::Link(target) => match link_target(v, target@) {
            Some(path) => if within(path, v.root) && v.hops + 1 < MAX_LINK_HOPS {
                (ResolverView { at: path, hops: v.hops + 1, ..v }, ResolveStep::Probe)
            } else {
                (v, ResolveStep::Outside)
            },
            None => (v, ResolveStep::Outside),
        },
        LinkState::NotLink | LinkState::Missing => taken_up(v, v.at),
        LinkState::Failed => (v, ResolveStep::Outside),
    }
}

impl PathResolver {
    pub closed spec fn wf(&self) -> bool {
        self.taken <= self.relative@.len() && self.hops < MAX_LINK_HOPS
    }

    fn take_up(&mut self, resolved: FsPath) -> (r: ResolveStep)
        requires
            old(self).wf(),
        ensures
            final(self).wf(),
            (final(self)@, r) == taken_up(old(self)@, resolved@),
    {
        if self.taken == self.relative.len() {
            return ResolveStep::Inside;
        }
        let ghost before = self@;
        assert(before.rest[0] == self.relative@[self.taken as int]);
        match self.relative.component(self.taken) {
            Component::Normal(name) => {
                self.probing = resolved.pushed(Component::Normal(name.clone()));
                self.taken = self.taken + 1;
                self.hops = 0;
                assert(self@.rest =~= before.rest.drop_first());
                ResolveStep::Probe
            },
            _ => ResolveStep::Outside,
        }
    }

    /// Starts at the watch root. A path that is not lexically below it is
    /// outside.
    pub fn start(watch_root: &FsPath, candidate: &FsPath) -> (r: (PathResolver, ResolveStep))
        ensures
            r.0.wf(),
            if within(candidate@, watch_root@) {
                (r.0@, r.1) == taken_up(
                    ResolverView {
                        root: watch_root@,
                        rest: candidate@.skip(watch_root@.len() as int),
                        at: watch_root@,
                        hops: 0,
                    },
                    watch_root@,
                )
            } else {
                r.1 == ResolveStep::Outside
            },
    {
        match candidate.strip_prefix(watch_root) {
            Some(relative) => {
                let mut resolver = PathResolver {
                    watch_root: watch_root.clone(),
                    relative,
                    taken: 0,
                    probing: watch_root.clone(),
                    hops: 0,
                };
                assert(relative@.skip(0) =~= relative@);
                let step = resolver.take_up(watch_root.clone());
                (resolver, step)
            },
            None => (
                PathResolver {
                    watch_root: watch_root.clone(),
                    relative: FsPath::empty(),
                    taken: 0,
                    probing: watch_root.clone(),
                    hops: 0,
                },
                ResolveStep::Outside,
            ),
        }
    }

    /// The path to look at.
    pub fn probing(&self) -> (r: &FsPath)
        ensures
            r@ == self@.at,
    {
        &self.probing
    }

    /// Takes what stands at the probed path.
    pub fn reply(&mut self, found: LinkState) -> (r: ResolveStep)
        requires
            old(self).wf(),
        ensures
            final(self).wf(),
            (final(self)@, r) == replied(old(self)@, found),
    {
        match found {
            LinkState::Link(target) => {
                let full = if target.is_absolute() {
                    target
                } else {
                    let base = match self.probing.parent() {
                        Some(parent) => parent,
                        None => self.watch_root.clone(),
                    };
                    base.join_path(&target)
                };
                match normalize_absolute_path(&full) {
                    Some(path) => {
                        if path.starts_with(&self.watch_root) && self.hops + 1 < MAX_LINK_HOPS {
                            self.probing = path;
                            self.hops = self.hops + 1;
                            ResolveStep::Probe
                        } else {
                            ResolveStep::Outside
                        }
                    },
                    None => ResolveStep::Outside,
                }
            },
            LinkState::NotLink | LinkState::Missing => {
                let resolved = self.probing.clone();
                self.take_up(resolved)
            },
            LinkState::Failed => ResolveStep::Outside,
        }
    }
}

/// Nothing outside the watch root is ever looked at: from a path inside it,
/// whatever stands there, the next path to probe is inside it too.
pub proof fn law_resolution_stays_inside(v: ResolverView, found: LinkState)
    requires
        within(v.at, v.root),
        replied(v, found).1 is Probe,
    ensures
        within(replied(v, found).0.at, v.root),
        replied(v, found).0.root == v.root,
{
    let next = replied(v, found).0;
    if !(found is Link) {
        assert(next.at.take(v.root.len() as int) =~= v.at.take(v.root.len() as int));
    }
}

// ---------------------------------------------------------------------------
// Watch roots
// ---------------------------------------------------------------------------

/// Why a watcher could not start.
#[derive(Debug, PartialEq, Eq)]
pub enum FsEventsWatcherError {
    EmptyWatchRoot,
    WatchRootMissing(FsPath),
    WatchRootNotDirectory(FsPath),
    WatchRootCanonicalizeFailed(FsPath, String),
    /// The filter was built for another root; it would match nothing.
    FilterRootMismatch { watch_root: FsPath, filter_root: FsPath },
    Platform(String),
    BridgeSpawn(String),
}

pub open spec fn watcher_message(error: FsEventsWatcherError) -> Seq<char> {
    match error {
        FsEventsWatcherError::EmptyWatchRoot => "watch root must not be empty"@,
        FsEventsWatcherError::WatchRootMissing(path) => "watch root does not exist: "@ + path_text(
            path@,
        ),
        FsEventsWatcherError::WatchRootNotDirectory(path) => "watch root is not a directory: "@
            + path_text(path@),
        FsEventsWatcherError::WatchRootCanonicalizeFailed(path, error) => "failed to canonicalize watch root "@
            + path_text(path@) + ": "@ + error@,
        FsEventsWatcherError::FilterRootMismatch { watch_root, filter_root } => "path filter root "@
            + path_text(filter_root@) + " does not match watch root "@ + path_text(watch_root@),
        FsEventsWatcherError::Platform(error) => "platform fs-watch error: "@ + error@,
        FsEventsWatcherError::BridgeSpawn(error) => "cannot spawn fs-watch bridge thread: "@
            + error@,
    }
}

impl FsEventsWatcherError {
    /// The error in words.
    pub fn message(&self) -> (r: String)
        ensures
            r@ == watcher_message(*self),
    {
        match self {
            FsEventsWatcherError::EmptyWatchRoot => "watch root must not be empty".to_owned(),
            FsEventsWatcherError::WatchRootMissing(path) => concat(
                "watch root does not exist: ",
                path.to_text().as_str(),
            ),
            FsEventsWatcherError::WatchRootNotDirectory(path) => concat(
                "watch root is not a directory: ",
                path.to_text().as_str(),
            ),
            FsEventsWatcherError::WatchRootCanonicalizeFailed(path, error) => {
                let mut text = concat(
                    "failed to canonicalize watch root ",
                    path.to_text().as_str(),
                );
                text.append(": ");
                text.append(error.as_str());
                text
            },
            FsEventsWatcherError::FilterRootMismatch { watch_root, filter_root } => {
                let mut text = concat("path filter root ", filter_root.to_text().as_str());
                text.append(" does not match watch root ");
                text.append(watch_root.to_text().as_str());
                text
            },
            FsEventsWatcherError::Platform(error) => concat(
                "platform fs-watch error: ",
                error.as_str(),
            ),
            FsEventsWatcherError::BridgeSpawn(error) => concat(
                "cannot spawn fs-watch bridge thread: ",
                error.as_str(),
            ),
        }
    }
}

/// What stands at a configured watch root.
#[derive(Debug, PartialEq, Eq)]
pub enum RootState {
    Missing,
    NotDirectory,
    /// A directory; its canonical path, if that could be found out.
    Directory(Result<FsPath, String>),
}

/// The root to watch, canonical.
pub fn normalize_watch_root(watch_root: FsPath, state: RootState) -> (r: Result<
    FsPath,
    FsEventsWatcherError,
>)
    ensures
        r == if watch_root@.len() == 0 {
            Err::<FsPath, FsEventsWatcherError>(FsEventsWatcherError::EmptyWatchRoot)
        } else {
            match state {
                RootState::Missing => Err(FsEventsWatcherError::WatchRootMissing(watch_root)),
                RootState::NotDirectory => Err(
                    FsEventsWatcherError::WatchRootNotDirectory(watch_root),
                ),
                RootState::Directory(Ok(path)) => Ok(path),
                RootState::Directory(Err(error)) => Err(
                    FsEventsWatcherError::WatchRootCanonicalizeFailed(watch_root, error),
                ),
            }
        },
{
    if watch_root.len() == 0 {
        return Err(FsEventsWatcherError::EmptyWatchRoot);
    }
    match state {
        RootState::Missing => Err(FsEventsWatcherError::WatchRootMissing(watch_root)),
        RootState::NotDirectory => Err(FsEventsWatcherError::WatchRootNotDirectory(watch_root)),
        RootState::Directory(Ok(path)) => Ok(path),
        RootState::Directory(Err(error)) => Err(
            FsEventsWatcherError::WatchRootCanonicalizeFailed(watch_root, error),
        ),
    }
}

/// Whether a filter may serve a watcher: it has to be anchored at the same
/// root.
pub fn check_filter_root(watch_root: &FsPath, path_filter: &SharedEventPathFilter) -> (r: Result<
    (),
    FsEventsWatcherError,
>)
    ensures
        match r {
            Ok(_) => path_filter.root() == watch_root@,
            Err(error) => path_filter.root() != watch_root@ && (error matches FsEventsWatcherError::FilterRootMismatch {
                watch_root: w,
                filter_root: f,
            } && w@ == watch_root@ && f@ == path_filter.root()),
        },
{
    if path_filter.watch_root().same(watch_root) {
        Ok(())
    } else {
        Err(
            FsEventsWatcherError::FilterRootMismatch {
                watch_root: watch_root.clone(),
                filter_root: path_filter.watch_root().clone(),
            },
        )
    }
}

// ---------------------------------------------------------------------------
// What the watch is for
// ---------------------------------------------------------------------------

/// A normal form grows name by name; a dot adds nothing, and two dots take
/// back the name before them. It holds neither.
pub proof fn law_dots_are_taken_out(
    path: FsPath,
    named: FsPath,
    dotted: FsPath,
    returned: FsPath,
    name: Seq<char>,
    r: Option<FsPath>,
    n: Option<FsPath>,
    d: Option<FsPath>,
    b: Option<FsPath>,
)
    requires
        call_ensures(normalize_absolute_path, (&path,), r),
        call_ensures(normalize_absolute_path, (&named,), n),
        call_ensures(normalize_absolute_path, (&dotted,), d),
        call_ensures(normalize_absolute_path, (&returned,), b),
        path@.len() > 0,
        named@ == path@.push(Part::Normal(name)),
        dotted@ == path@.push(Part::Current),
        returned@ == path@.push(Part::Normal(name)).push(Part::Parent),
    ensures
        r is Some ==> is_absolute_path(path@),
        r matches Some(plain) ==> n is Some && n->0@ == plain@.push(Part::Normal(name)) && d is Some
            && d->0@ == plain@ && b is Some && b->0@ == plain@,
        r is None ==> n is None && d is None && b is None,
        r matches Some(plain) ==> forall|i: int|
            0 <= i < plain@.len() ==> (#[trigger] plain@[i]) !is Current && plain@[i] !is Parent,
{
    let p = path@;
    reveal_with_fuel(collapsed, 3);
    assert(named@.drop_last() =~= p);
    assert(dotted@.drop_last() =~= p);
    assert(returned@.drop_last() =~= named@);
    assert(named@[0] == p[0] && dotted@[0] == p[0] && returned@[0] == p[0]);
    if let Some(plain) = r {
        law_normal_forms_are_plain(p);
        assert(plain@.push(Part::Normal(name)).drop_last() =~= plain@);
    }
}

/// An event is only ever taken for a path below the root, in normal form; one
/// that already is such a path is taken as it is.
pub proof fn law_events_stay_below_the_root(root: FsPath, path: FsPath, r: Option<FsPath>)
    requires
        call_ensures(normalize_event_path, (&root, &path), r),
    ensures
        r matches Some(plain) ==> root@.len() <= plain@.len() && plain@.take(root@.len() as int)
            == root@ && forall|i: int|
            0 <= i < plain@.len() ==> (#[trigger] plain@[i]) !is Current && plain@[i] !is Parent,
        is_absolute_path(path@) && root@.len() <= path@.len() && path@.take(root@.len() as int)
            == root@ && (forall|i: int|
            0 <= i < path@.len() ==> (#[trigger] path@[i]) !is Current && path@[i] !is Parent)
            ==> r is Some && r->0@ == path@,
        is_absolute_path(path@) && (forall|i: int|
            0 <= i < path@.len() ==> (#[trigger] path@[i]) !is Current && path@[i] !is Parent) && !(
        root@.len() <= path@.len() && path@.take(root@.len() as int) == root@) ==> r is None,
{
    if let Some(plain) = r {
        let candidate = if is_absolute_path(path@) {
            path@
        } else {
            joined(root@, path@)
        };
        law_normal_forms_are_plain(candidate);
    }
    if forall|i: int|
        0 <= i < path@.len() ==> (#[trigger] path@[i]) !is Current && path@[i] !is Parent {
        lemma_plain_is_normal(path@);
    }
}

/// An event is handed on exactly if its path lies below the root and is not
/// ignored, with its kind and its time as they were. A change of a live ignore
/// file has the rules read again.
pub proof fn law_events_are_handed_on_unless_ignored(
    root: FsPath,
    filter: &mut SharedEventPathFilter,
    event: WatchEvent,
    path: Option<FsPath>,
    skip: bool,
    r: Option<FsEventRecord>,
)
    requires
        call_ensures(filter_watch_event, (&root, filter, event), r),
        call_ensures(normalize_event_path, (&root, &event.path), path),
        path is Some ==> call_ensures(
            SharedEventPathFilter::should_ignore,
            (&*old(filter), &path->0),
            skip,
        ),
    ensures
        r is Some <==> path is Some && !skip,
        r matches Some(record) ==> record.path@ == path->0@ && record.observed_at
            == event.observed_at,
        r matches Some(record) ==> (record.kind is Created <==> event.kind is Created) && (
        record.kind is Modified <==> event.kind is Modified) && (record.kind is Removed
            <==> event.kind is Removed) && (record.kind is Renamed <==> event.kind is Renamed),
        r is None ==> final(filter).stale() == old(filter).stale(),
        r is Some ==> (final(filter).stale() <==> old(filter).stale() || (old(filter).settings().use_gitignore && file_name_of(path->0@) == Some(".gitignore"@)) || (old(filter).settings().use_vaporignore && file_name_of(path->0@) == Some(".vaporignore"@))),
        final(filter).in_force() == old(filter).in_force(),
        final(filter).settings() == old(filter).settings(),
{
}

/// The rules are read again exactly once for every request.
pub proof fn law_a_reload_happens_once(
    filter: &mut SharedEventPathFilter,
    git: Vec<IgnoreFile>,
    vapor: Vec<IgnoreFile>,
    r: bool,
)
    requires
        call_ensures(SharedEventPathFilter::rebuild_if_requested, (filter, &git, &vapor), r),
    ensures
        r <==> old(filter).stale(),
        !final(filter).stale(),
        !r ==> final(filter).in_force() == old(filter).in_force(),
        final(filter).settings() == old(filter).settings(),
        final(filter).root() == old(filter).root(),
{
}

/// A path is taken to lie inside the root only when every name of it was
/// looked at: what cannot be read, a link that leads outside and the
/// thirty-second link in a row all stop it. Nothing outside is looked at.
pub proof fn law_links_do_not_lead_outside(
    resolver: &mut PathResolver,
    found: LinkState,
    r: ResolveStep,
)
    requires
        call_ensures(PathResolver::reply, (resolver, found), r),
        old(resolver)@.root.len() <= old(resolver)@.at.len(),
        old(resolver)@.at.take(old(resolver)@.root.len() as int) == old(resolver)@.root,
    ensures
        ({
            let (before, after) = (old(resolver)@, final(resolver)@);
            &&& after.root == before.root
            &&& found is Failed ==> r is Outside
            &&& r is Inside ==> before.rest.len() == 0 && (found is NotLink || found is Missing)
            &&& (found is NotLink || found is Missing) && before.rest.len() == 0 ==> r is Inside
            &&& (found is NotLink || found is Missing) && before.rest.len() > 0
                && before.rest[0] is Normal ==> r is Probe && after.at == before.at.push(
                before.rest[0],
            ) && after.rest == before.rest.skip(1) && after.hops == 0
            &&& (found is NotLink || found is Missing) && before.rest.len() > 0
                && before.rest[0] !is Normal ==> r is Outside
            &&& found is Link && before.hops >= 31 ==> r is Outside
            &&& r is Probe ==> before.root.len() <= after.at.len() && after.at.take(
                before.root.len() as int,
            ) == before.root
            &&& found is Link && r is Probe ==> after.rest == before.rest && after.hops
                == before.hops + 1
        }),
{
    let before = old(resolver)@;
    if r is Probe {
        law_resolution_stays_inside(before, found);
    }
    if before.rest.len() > 0 {
        assert(before.rest.drop_first() =~= before.rest.skip(1));
    }
}

/// Resolving begins at the root, with the path's first name below it; a path
/// that is not below the root is outside at once.
pub proof fn law_resolving_begins_at_the_root(
    root: FsPath,
    path: FsPath,
    r: (PathResolver, ResolveStep),
)
    requires
        call_ensures(PathResolver::start, (&root, &path), r),
    ensures
        ({
            let n = root@.len() as int;
            let below = n <= path@.len() && path@.take(n) == root@;
            &&& !below ==> r.1 is Outside
            &&& below && path@.len() == n ==> r.1 is Inside
            &&& below && path@.len() > n && path@[n] is Normal ==> r.1 is Probe && r.0@.root
                == root@ && r.0@.at == path@.take(n + 1) && r.0@.rest == path@.skip(n + 1)
            &&& below && path@.len() > n && path@[n] !is Normal ==> r.1 is Outside
        }),
{
    let n = root@.len() as int;
    if n <= path@.len() && path@.take(n) == root@ {
        let rest = path@.skip(n);
        if rest.len() > 0 {
            assert(rest[0] == path@[n]);
            assert(rest.drop_first() =~= path@.skip(n + 1));
            assert(root@.push(path@[n]) =~= path@.take(n + 1));
        }
    }
}

/// A root is watched only if it is a directory that can be found, under the
/// name found; everything else is refused with its reason.
pub proof fn law_only_a_directory_is_watched(
    root: FsPath,
    state: RootState,
    r: Result<FsPath, FsEventsWatcherError>,
)
    requires
        call_ensures(normalize_watch_root, (root, state), r),
    ensures
        r is Ok <==> root@.len() > 0 && (state matches RootState::Directory(found) && found is Ok),
        root@.len() == 0 ==> r == Err::<FsPath, FsEventsWatcherError>(
            FsEventsWatcherError::EmptyWatchRoot,
        ),
        root@.len() > 0 ==> (state matches RootState::Directory(Ok(path)) ==> r == Ok::<
            FsPath,
            FsEventsWatcherError,
        >(path)),
        root@.len() > 0 && state is Missing ==> r is Err && r->Err_0 is WatchRootMissing,
        root@.len() > 0 && state is NotDirectory ==> r is Err && r->Err_0 is WatchRootNotDirectory,
{
}

/// A filter serves only the root it was built for.
pub proof fn law_a_filter_serves_its_own_root(
    root: FsPath,
    filter: SharedEventPathFilter,
    r: Result<(), FsEventsWatcherError>,
)
    requires
        call_ensures(check_filter_root, (&root, &filter), r),
    ensures
        r is Ok <==> filter.root() == root@,
        r is Err ==> r->Err_0 is FilterRootMismatch,
{
}

/// A live ignore file that is seen has the rules read again, and a request
/// stands until it is served.
pub proof fn law_a_seen_ignore_file_asks_for_a_reload(
    noted: &mut SharedEventPathFilter,
    asked: &mut SharedEventPathFilter,
    path: FsPath,
)
    requires
        call_ensures(SharedEventPathFilter::note_observed_path, (noted, &path), ()),
        call_ensures(SharedEventPathFilter::request_reload, (asked,), ()),
    ensures
        final(asked).stale(),
        old(noted).stale() ==> final(noted).stale(),
        old(noted).settings().use_gitignore && file_name_of(path@) == Some(".gitignore"@)
            ==> final(noted).stale(),
        old(noted).settings().use_vaporignore && file_name_of(path@) == Some(".vaporignore"@)
            ==> final(noted).stale(),
        file_name_of(path@) is None ==> final(noted).stale() == old(noted).stale(),
        final(noted).in_force() == old(noted).in_force(),
{
}

} // verus!
