//! Plain records the sync logic works on: queue rows, sync-index rows, what
//! a provider answers and what the local disk shows.
use vstd::prelude::*;

use crate::clock::{Duration, SystemTime};
use crate::event_intents::PendingIntentKind;
use crate::paths::FsPath;
use crate::text::same_text;

verus! {

/// Which way a scope syncs.
#[derive(Clone, Copy, Debug, PartialEq, Eq, Structural)]
pub enum SyncMode {
    TwoWay,
    PushOnly,
    PullOnly,
}

impl SyncMode {
    pub open spec fn pushes(self) -> bool {
        self != SyncMode::PullOnly
    }

    pub open spec fn pulls(self) -> bool {
        self != SyncMode::PushOnly
    }

    /// Whether local changes go to the cloud.
    pub fn allows_local_to_remote(&self) -> (r: bool)
        ensures
            r == self.pushes(),
    {
        !matches!(self, SyncMode::PullOnly)
    }

    /// Whether cloud changes come to this device.
    pub fn allows_remote_to_local(&self) -> (r: bool)
        ensures
            r == self.pulls(),
    {
        !matches!(self, SyncMode::PushOnly)
    }

    pub open spec fn spelling(self) -> &'static str {
        match self {
            SyncMode::TwoWay => "two-way",
            SyncMode::PushOnly => "push-only",
            SyncMode::PullOnly => "pull-only",
        }
    }

    /// How a configuration spells the mode.
    pub fn as_config_value(&self) -> (r: &'static str)
        ensures
            r == self.spelling(),
    {
        match self {
            SyncMode::TwoWay => "two-way",
            SyncMode::PushOnly => "push-only",
            SyncMode::PullOnly => "pull-only",
        }
    }

    /// Whether changes go both ways.
    pub fn is_two_way(&self) -> (r: bool)
        ensures
            r == (*self == SyncMode::TwoWay),
    {
        matches!(self, SyncMode::TwoWay)
    }
}

/// How a failed attempt is to be treated.
#[derive(Clone, Copy, Debug, PartialEq, Eq)]
pub enum RetryFailureKind {
    Transient,
    RateLimited { retry_after: Option<Duration> },
    Authentication,
    Permanent,
}

/// What went wrong in a provider call.
#[derive(Clone, Copy, Debug, PartialEq, Eq, Structural)]
pub enum ProviderErrorKind {
    NotFound,
    PreconditionFailed,
    Permanent,
    Authentication,
    RateLimited,
    CloudRootUnavailable,
    Transient,
}

/// An error of a provider call.
#[derive(Debug, PartialEq, Eq)]
pub struct ProviderError {
    pub kind: ProviderErrorKind,
    pub message: String,
    /// How the provider layer classifies the error for retries.
    pub retry: RetryFailureKind,
}

/// Content hash a provider reports.
#[derive(Clone, Copy, Debug, PartialEq, Eq, Structural)]
pub enum HashAlgorithm {
    Sha256,
    Md5,
}

#[derive(Clone, Copy, Debug, PartialEq, Eq, Structural)]
pub enum RemoteEntryKind {
    File,
    Directory,
}

/// One object or directory at the provider.
#[derive(Debug, PartialEq, Eq)]
pub struct RemoteEntry {
    pub path: String,
    pub kind: RemoteEntryKind,
    pub size_bytes: u64,
    pub modified_at: SystemTime,
    pub content_hash: Option<String>,
    pub op_id: Option<String>,
}

/// What a write demands of the remote object.
#[derive(Debug, PartialEq, Eq)]
pub enum RemotePrecondition {
    Unconditional,
    Absent,
    HashEquals(String),
}

impl Clone for RemotePrecondition {
    fn clone(&self) -> (r: RemotePrecondition)
        ensures
            r == *self,
    {
        match self {
            RemotePrecondition::Unconditional => RemotePrecondition::Unconditional,
            RemotePrecondition::Absent => RemotePrecondition::Absent,
            RemotePrecondition::HashEquals(hash) => RemotePrecondition::HashEquals(hash.clone()),
        }
    }
}

/// What was last synced for a path.
#[derive(Debug, PartialEq, Eq)]
pub struct SyncIndexEntry {
    pub path: FsPath,
    pub content_hash: String,
    pub size_bytes: u64,
    pub local_modified_at: Option<SystemTime>,
    pub remote_modified_at: Option<SystemTime>,
    pub last_op_id: String,
    pub updated_at: SystemTime,
}

/// A recorded size and time that are known to be the observed ones.
pub open spec fn same_state(
    recorded_size: u64,
    recorded_time: Option<SystemTime>,
    size: u64,
    time: Option<SystemTime>,
) -> bool {
    recorded_size == size && recorded_time is Some && recorded_time == time
}

fn same_state_exec(
    recorded_size: u64,
    recorded_time: Option<SystemTime>,
    size: u64,
    time: Option<SystemTime>,
) -> (r: bool)
    ensures
        r == same_state(recorded_size, recorded_time, size, time),
{
    recorded_size == size && match (recorded_time, time) {
        (Some(a), Some(b)) => a.nanos == b.nanos,
        _ => false,
    }
}

impl SyncIndexEntry {
    /// The local file has the size and time recorded at the last sync.
    pub open spec fn local_unchanged(&self, size: u64, time: Option<SystemTime>) -> bool {
        same_state(self.size_bytes, self.local_modified_at, size, time)
    }

    /// The remote object has the size and time recorded at the last sync.
    pub open spec fn remote_unchanged(&self, size: u64, time: SystemTime) -> bool {
        same_state(self.size_bytes, self.remote_modified_at, size, Some(time))
    }

    /// Whether the local file has the recorded size and time.
    pub fn matches_local(&self, size: u64, time: Option<SystemTime>) -> (r: bool)
        ensures
            r == self.local_unchanged(size, time),
    {
        same_state_exec(self.size_bytes, self.local_modified_at, size, time)
    }

    /// Whether the remote object has the recorded size and time.
    pub fn matches_remote(&self, size: u64, time: SystemTime) -> (r: bool)
        ensures
            r == self.remote_unchanged(size, time),
    {
        same_state_exec(self.size_bytes, self.remote_modified_at, size, Some(time))
    }
}

/// A leased row of the durable queue.
#[derive(Debug, PartialEq, Eq)]
pub struct DurableIntentRecord {
    pub id: i64,
    pub path: FsPath,
    pub kind: PendingIntentKind,
    pub attempt_count: u32,
    pub enqueued_at: SystemTime,
    pub approved: bool,
    pub remote_path: Option<String>,
    pub last_error: Option<String>,
}

/// What stands at a local path, without following links.
#[derive(Debug, PartialEq, Eq)]
pub enum LocalStat {
    Missing,
    Directory,
    File { size_bytes: u64, modified_at: Option<SystemTime> },
    /// Symlinks, FIFOs, sockets and device nodes.
    Special,
    Unreadable(String),
}

impl LocalStat {
    /// Something readable stands there.
    pub open spec fn is_present(&self) -> bool {
        self is Directory || self is File || self is Special
    }

    /// Whether something stands there.
    pub fn present(&self) -> (r: bool)
        ensures
            r == self.is_present(),
    {
        matches!(self, LocalStat::Directory | LocalStat::File { .. } | LocalStat::Special)
    }
}

/// Equality of optional texts, by their characters.
pub open spec fn same_optional(a: Option<String>, b: Seq<char>) -> bool {
    a is Some && a->0@ == b
}

/// Whether `a` holds exactly `b`.
pub fn optional_is(a: &Option<String>, b: &String) -> (r: bool)
    ensures
        r == same_optional(*a, b@),
{
    match a {
        Some(text) => same_text(text.as_str(), b.as_str()),
        None => false,
    }
}

/// The copy of an optional text.
pub fn clone_optional(a: &Option<String>) -> (r: Option<String>)
    ensures
        r == *a,
{
    match a {
        Some(text) => Some(text.clone()),
        None => None,
    }
}

/// A mode syncs in the directions its name says, and both only if it is
/// two-way.
pub proof fn law_a_mode_syncs_as_it_is_named(mode: SyncMode, up: bool, down: bool, both: bool)
    requires
        call_ensures(SyncMode::allows_local_to_remote, (&mode,), up),
        call_ensures(SyncMode::allows_remote_to_local, (&mode,), down),
        call_ensures(SyncMode::is_two_way, (&mode,), both),
    ensures
        mode is TwoWay ==> up && down && both,
        mode is PushOnly ==> up && !down && !both,
        mode is PullOnly ==> !up && down && !both,
{
}

/// A file is the one that was synced only if its size is and its time is known
/// and the same; a time that was never recorded matches none.
pub proof fn law_an_unknown_time_matches_nothing(
    entry: SyncIndexEntry,
    size: u64,
    time: Option<SystemTime>,
    remote: SystemTime,
    here: bool,
    there: bool,
)
    requires
        call_ensures(SyncIndexEntry::matches_local, (&entry, size, time), here),
        call_ensures(SyncIndexEntry::matches_remote, (&entry, size, remote), there),
    ensures
        here <==> entry.size_bytes == size && time is Some && entry.local_modified_at == time,
        there <==> entry.size_bytes == size && entry.remote_modified_at == Some(remote),
{
}

/// Something is there unless it is missing or cannot be looked at.
pub proof fn law_a_path_is_taken_by_what_stands_there(stat: LocalStat, r: bool)
    requires
        call_ensures(LocalStat::present, (&stat,), r),
    ensures
        stat is File || stat is Directory || stat is Special ==> r,
        stat is Missing || stat is Unreadable ==> !r,
{
}

} // verus!
