//! Provider work done off the tick thread: what a job asks for, what comes
//! back, and the decisions taken between two provider calls.
//!
//! Workers loop over transfer steps. Between two steps they look at the shared
//! gates and the bandwidth grant; when a gate is closed or the grant is empty
//! the session is handed back at its checkpoint and dispatched again later.
use vstd::prelude::*;
use vstd::std_specs::iter::IteratorSpec;

use crate::clock::SystemTime;
use crate::records::{same_optional, optional_is, ProviderError, ProviderErrorKind, RemoteEntry,
    RemoteEntryKind, RemotePrecondition, RetryFailureKind};
use crate::paths::FsPath;
use crate::text::{concat, decimal, decimal_text};

verus! {

/// Most entries one subtree probe collects. A larger directory delete is
/// expanded in slices, each planned anew once the one before has drained.
pub const SUBTREE_LISTING_CAP: usize = 10_000;

/// Steps in a row without a byte moved after which a transfer fails.
pub const MAX_ZERO_PROGRESS_TRANSFER_STEPS: u32 = 16;

#[derive(Clone, Copy, Debug, PartialEq, Eq, Structural)]
pub enum TransferDirection {
    Upload,
    Download,
}

/// Which phase of a transfer an error came from.
#[derive(Clone, Copy, Debug, PartialEq, Eq, Structural)]
pub enum TransferPhase {
    Begin,
    Step,
}

/// When a probe also fetches the remote content hash.
#[derive(Debug, PartialEq, Eq)]
pub enum ProbeHash {
    Never,
    Always,
    /// Only when the stat found an entry whose op-id differs from this one
    /// and which carries no hash of its own.
    IfDivergedFrom { index_op_id: String },
}

/// Remote facts a plan needs.
#[derive(Debug, PartialEq, Eq)]
pub struct ProbeRequest {
    pub remote_path: String,
    pub want_stat: bool,
    pub hash: ProbeHash,
    /// List the whole subtree when the stat reports a directory.
    pub want_subtree_listing: bool,
}

/// Remote facts a probe brought back.
#[derive(Debug, PartialEq, Eq)]
pub struct ProbeResult {
    /// `None` when no stat was asked for.
    pub stat: Option<Result<Option<RemoteEntry>, ProviderError>>,
    /// `Some` only when a hash fetch was tried.
    pub content_hash: Option<Result<String, ProviderError>>,
    /// `Some` only when a listing was asked for and the stat reported a
    /// directory; parents come before children.
    pub subtree: Option<Result<Vec<RemoteEntry>, ProviderError>>,
}

impl ProbeResult {
    /// The fetched hash, if the fetch worked.
    pub open spec fn hash_found(&self) -> Option<String> {
        match self.content_hash {
            Some(Ok(hash)) => Some(hash),
            _ => None,
        }
    }

    /// The entry the stat found.
    pub open spec fn entry_found(&self) -> Option<RemoteEntry> {
        match self.stat {
            Some(Ok(Some(entry))) => Some(entry),
            _ => None,
        }
    }

    /// The fetched hash; a failed fetch counts as none.
    pub fn content_hash_ok(&self) -> (r: Option<String>)
        ensures
            r == self.hash_found(),
    {
        match &self.content_hash {
            Some(Ok(hash)) => Some(hash.clone()),
            _ => None,
        }
    }

    /// The entry the stat found.
    pub fn found(&self) -> (r: Option<&RemoteEntry>)
        ensures
            match r {
                Some(entry) => self.entry_found() == Some(*entry),
                None => self.entry_found() is None,
            },
    {
        match &self.stat {
            Some(Ok(Some(entry))) => Some(entry),
            _ => None,
        }
    }
}

/// Whether the probe has to fetch the content hash, given the stat.
pub open spec fn hash_wanted(
    hash: ProbeHash,
    stat: Option<Result<Option<RemoteEntry>, ProviderError>>,
) -> bool {
    match hash {
        ProbeHash::Never => false,
        ProbeHash::Always => true,
        ProbeHash::IfDivergedFrom { index_op_id } => match stat {
            Some(Ok(Some(entry))) => !same_optional(entry.op_id, index_op_id@)
                && entry.content_hash is None,
            _ => false,
        },
    }
}

/// Whether the probe has to list the subtree, given the stat.
pub open spec fn listing_wanted(
    request: ProbeRequest,
    stat: Option<Result<Option<RemoteEntry>, ProviderError>>,
) -> bool {
    request.want_subtree_listing && match stat {
        Some(Ok(Some(entry))) => entry.kind == RemoteEntryKind::Directory,
        _ => false,
    }
}

impl ProbeRequest {
    /// Whether the content hash is fetched, given the stat.
    pub fn wants_hash(&self, stat: &Option<Result<Option<RemoteEntry>, ProviderError>>) -> (r: bool)
        ensures
            r == hash_wanted(self.hash, *stat),
    {
        match &self.hash {
            ProbeHash::Never => false,
            ProbeHash::Always => true,
            ProbeHash::IfDivergedFrom { index_op_id } => match stat {
                Some(Ok(Some(entry))) => !optional_is(&entry.op_id, index_op_id)
                    && entry.content_hash.is_none(),
                _ => false,
            },
        }
    }

    /// Whether the subtree is listed, given the stat.
    pub fn wants_listing(&self, stat: &Option<Result<Option<RemoteEntry>, ProviderError>>) -> (r:
        bool)
        ensures
            r == listing_wanted(*self, *stat),
    {
        self.want_subtree_listing && match stat {
            Some(Ok(Some(entry))) => matches!(entry.kind, RemoteEntryKind::Directory),
            _ => false,
        }
    }
}

#[derive(Debug, PartialEq, Eq)]
pub struct UploadRequest {
    pub local_source: FsPath,
    pub remote_path: String,
    pub op_id: String,
    pub precondition: RemotePrecondition,
}

#[derive(Debug, PartialEq, Eq)]
pub struct DownloadRequest {
    pub remote_path: String,
    pub destination: FsPath,
}

/// A job for a provider worker. A session is named by a handle.
#[derive(Debug, PartialEq, Eq)]
pub enum ProviderJobKind {
    Probe(ProbeRequest),
    RemoteDelete { remote_path: String, op_id: String },
    /// A server-side move: the detected rename of a synced file.
    Move { from: String, to: String, op_id: String },
    Upload(UploadRequest),
    Download(DownloadRequest),
    /// A held session dispatched again.
    ResumeTransfer { session: u64, direction: TransferDirection },
}

/// What a finished transfer reports.
#[derive(Debug, PartialEq, Eq)]
pub struct TransferOutcome {
    pub content_hash: String,
    pub bytes_total: u64,
    pub remote_modified_at: Option<SystemTime>,
}

/// How a job ended.
#[derive(Debug, PartialEq, Eq)]
pub enum ProviderJobOutcome {
    Probe(ProbeResult),
    RemoteDelete(Result<(), ProviderError>),
    Move(Result<(), ProviderError>),
    /// Held at its checkpoint: a gate closed or the bandwidth ran dry.
    TransferHeld { session: u64 },
    TransferCompleted(TransferOutcome),
    TransferFailed { error: ProviderError, phase: TransferPhase },
    /// Dispatched before the last abort; its session is already aborted.
    Cancelled,
    /// The provider call panicked on the worker.
    Panicked(String),
}

/// The session an outcome still holds open.
pub open spec fn open_session(outcome: ProviderJobOutcome) -> Option<u64> {
    match outcome {
        ProviderJobOutcome::TransferHeld { session } => Some(session),
        _ => None,
    }
}

/// The session to abort when `outcome` is not going to be applied.
pub fn session_to_abort(outcome: &ProviderJobOutcome) -> (r: Option<u64>)
    ensures
        r == open_session(*outcome),
{
    match outcome {
        ProviderJobOutcome::TransferHeld { session } => Some(*session),
        _ => None,
    }
}

/// A job that has run.
#[derive(Debug, PartialEq, Eq)]
pub struct CompletedJob {
    pub intent_id: i64,
    pub outcome: ProviderJobOutcome,
    /// Generation the job was dispatched under.
    pub generation: u64,
}

/// The outcomes of the current generation, in order.
pub open spec fn live_jobs(jobs: Seq<CompletedJob>, generation: u64) -> Seq<CompletedJob> {
    jobs.filter(|job: CompletedJob| job.generation == generation)
}

/// Sessions held open by outcomes of earlier generations, in order.
pub open spec fn stale_sessions(jobs: Seq<CompletedJob>, generation: u64) -> Seq<u64>
    decreases jobs.len(),
{
    if jobs.len() == 0 {
        Seq::empty()
    } else {
        let rest = stale_sessions(jobs.drop_last(), generation);
        let job = jobs.last();
        if job.generation != generation {
            match open_session(job.outcome) {
                Some(session) => rest.push(session),
                None => rest,
            }
        } else {
            rest
        }
    }
}

/// Bookkeeping of dispatched jobs. An abort starts a new generation; what
/// was dispatched before it never reaches the executor again, so an intent
/// leased anew cannot receive a stale result.
#[derive(Debug, Clone, Copy, PartialEq, Eq)]
pub struct ProviderJobPool {
    generation: u64,
    in_flight: usize,
    allow_uploads: bool,
    allow_downloads: bool,
}

impl ProviderJobPool {
    pub closed spec fn current(&self) -> u64 {
        self.generation
    }

    pub closed spec fn running(&self) -> usize {
        self.in_flight
    }

    pub closed spec fn gate(&self, direction: TransferDirection) -> bool {
        match direction {
            TransferDirection::Upload => self.allow_uploads,
            TransferDirection::Download => self.allow_downloads,
        }
    }

    /// A pool with nothing in flight and both gates open.
    pub fn inline() -> (r: ProviderJobPool)
        ensures
            r.current() == 0,
            r.running() == 0,
            r.gate(TransferDirection::Upload),
            r.gate(TransferDirection::Download),
    {
        ProviderJobPool { generation: 0, in_flight: 0, allow_uploads: true, allow_downloads: true }
    }

    /// Sets the gates the workers look at between two steps.
    pub fn update_gates(&mut self, allow_uploads: bool, allow_downloads: bool)
        ensures
            final(self).gate(TransferDirection::Upload) == allow_uploads,
            final(self).gate(TransferDirection::Download) == allow_downloads,
            final(self).current() == old(self).current(),
            final(self).running() == old(self).running(),
    {
        self.allow_uploads = allow_uploads;
        self.allow_downloads = allow_downloads;
    }

    /// Invalidates everything dispatched and not harvested yet.
    pub fn abort_in_flight(&mut self)
        requires
            old(self).current() < u64::MAX,
        ensures
            final(self).current() == old(self).current() + 1,
            final(self).running() == old(self).running(),
            forall|d: TransferDirection| final(self).gate(d) == old(self).gate(d),
    {
        self.generation = self.generation + 1;
    }

    /// Jobs dispatched and not harvested yet.
    pub fn in_flight(&self) -> (r: usize)
        ensures
            r == self.running(),
    {
        self.in_flight
    }

    /// Notes a dispatched job and gives the generation it runs under.
    pub fn dispatch(&mut self) -> (r: u64)
        requires
            old(self).running() < usize::MAX,
        ensures
            r == old(self).current(),
            final(self).current() == old(self).current(),
            final(self).running() == old(self).running() + 1,
            forall|d: TransferDirection| final(self).gate(d) == old(self).gate(d),
    {
        self.in_flight = self.in_flight + 1;
        self.generation
    }

    /// Whether a queued job of `generation` must not start any more.
    pub fn is_cancelled(&self, generation: u64) -> (r: bool)
        ensures
            r == (generation != self.current()),
    {
        self.generation != generation
    }

    /// Whether one more worker is started for the jobs in flight. There is
    /// always room for one.
    pub fn needs_worker(&self, workers: usize, max_workers: usize) -> (r: bool)
        ensures
            r == (self.running() > workers && (workers < max_workers || workers == 0)),
    {
        self.in_flight > workers && (workers < max_workers || workers == 0)
    }

    /// A worker takes up a queued job. One that was dispatched before the last
    /// abort does not run: it comes back as cancelled, and the session it was
    /// to resume is aborted.
    pub fn take_up(&self, intent_id: i64, generation: u64, kind: &ProviderJobKind) -> (r: Option<
        (CompletedJob, Option<u64>),
    >)
        ensures
            r == if generation == self.current() {
                None
            } else {
                Some(
                    (
                        CompletedJob {
                            intent_id,
                            outcome: ProviderJobOutcome::Cancelled,
                            generation,
                        },
                        match *kind {
                            ProviderJobKind::ResumeTransfer { session, .. } => Some(session),
                            _ => None,
                        },
                    ),
                )
            },
    {
        if !self.is_cancelled(generation) {
            return None;
        }
        let session = match kind {
            ProviderJobKind::ResumeTransfer { session, .. } => Some(*session),
            _ => None,
        };
        Some((CompletedJob { intent_id, outcome: ProviderJobOutcome::Cancelled, generation }, session))
    }

    /// Splits what came back into outcomes to apply and sessions to abort.
    pub fn harvest(&mut self, drained: Vec<CompletedJob>) -> (r: (Vec<CompletedJob>, Vec<u64>))
        ensures
            r.0@ == live_jobs(drained@, old(self).current()),
            r.1@ == stale_sessions(drained@, old(self).current()),
            final(self).current() == old(self).current(),
            final(self).running() == if old(self).running() >= drained@.len() {
                (old(self).running() - drained@.len()) as usize
            } else {
                0
            },
            forall|d: TransferDirection| final(self).gate(d) == old(self).gate(d),
    {
        let count: usize = drained.len();
        let generation: u64 = self.generation;
        let mut live: Vec<CompletedJob> = Vec::new();
        let mut aborted: Vec<u64> = Vec::new();
        let ghost all = drained@;
        let ghost keep = |job: CompletedJob| job.generation == generation;
        assert(all.take(0) =~= Seq::<CompletedJob>::empty());
        for job in jobs: drained
            invariant
                jobs.seq() == all,
                keep == (|job: CompletedJob| job.generation == generation),
                live@ == all.take(jobs.index()).filter(keep),
                aborted@ == stale_sessions(all.take(jobs.index()), generation),
        {
            let ghost i = jobs.index();
            let ghost next = all.take(i + 1);
            assert(next.drop_last() =~= all.take(i));
            assert(next.last() == job);
            reveal(Seq::filter);
            if job.generation == generation {
                live.push(job);
            } else if let Some(session) = session_to_abort(&job.outcome) {
                aborted.push(session);
            }
            assert(live@ =~= next.filter(keep));
        }
        assert(all.take(all.len() as int) =~= all);
        self.in_flight = if self.in_flight >= count {
            self.in_flight - count
        } else {
            0
        };
        (live, aborted)
    }
}

/// No outcome of an earlier generation is ever handed out: after an abort,
/// jobs dispatched before it are not among the live ones.
pub proof fn law_aborted_jobs_never_surface(
    jobs: Seq<CompletedJob>,
    dispatched: u64,
    current: u64,
)
    requires
        dispatched < current,
        forall|i: int| 0 <= i < jobs.len() ==> (#[trigger] jobs[i]).generation <= dispatched,
    ensures
        live_jobs(jobs, current).len() == 0,
    decreases jobs.len(),
{
    reveal(Seq::filter);
    if jobs.len() > 0 {
        assert(jobs.last() == jobs[jobs.len() - 1]);
        assert forall|i: int| 0 <= i < jobs.drop_last().len() implies (#[trigger] jobs.drop_last()[i]).generation
            <= dispatched by {
            assert(jobs.drop_last()[i] == jobs[i]);
        }
        law_aborted_jobs_never_surface(jobs.drop_last(), dispatched, current);
    }
}

/// Subtree listing in progress, parents before children.
#[derive(Debug)]
pub struct SubtreeListing {
    collected: Vec<RemoteEntry>,
    pending: Vec<String>,
}

/// Directories among `entries`, in order.
pub open spec fn directories_of(entries: Seq<RemoteEntry>) -> Seq<String>
    decreases entries.len(),
{
    if entries.len() == 0 {
        Seq::empty()
    } else {
        let rest = directories_of(entries.drop_last());
        if entries.last().kind == RemoteEntryKind::Directory {
            rest.push(entries.last().path)
        } else {
            rest
        }
    }
}

/// How many of `more` entries still fit behind `have`.
pub open spec fn entries_taken(have: nat, more: nat) -> nat {
    if have + more < SUBTREE_LISTING_CAP {
        more
    } else if have >= SUBTREE_LISTING_CAP {
        0
    } else {
        (SUBTREE_LISTING_CAP - have) as nat
    }
}

impl SubtreeListing {
    /// Entries collected so far.
    pub closed spec fn entries(&self) -> Seq<RemoteEntry> {
        self.collected@
    }

    /// Directories still to be enumerated, first one first.
    pub closed spec fn queue(&self) -> Seq<String> {
        self.pending@
    }

    /// Starts at `root`.
    pub fn start(root: String) -> (r: SubtreeListing)
        ensures
            r.entries() == Seq::<RemoteEntry>::empty(),
            r.queue() == seq![root],
    {
        let mut pending: Vec<String> = Vec::new();
        pending.push(root);
        let r = SubtreeListing { collected: Vec::new(), pending };
        assert(r.queue() =~= seq![root]);
        r
    }

    /// The next directory to enumerate; `None` when the listing is complete
    /// or full.
    pub fn next_directory(&mut self) -> (r: Option<String>)
        ensures
            final(self).entries() == old(self).entries(),
            match r {
                Some(directory) => {
                    &&& old(self).entries().len() < SUBTREE_LISTING_CAP
                    &&& old(self).queue().len() > 0
                    &&& directory == old(self).queue()[0]
                    &&& final(self).queue() == old(self).queue().skip(1)
                },
                None => {
                    &&& old(self).entries().len() >= SUBTREE_LISTING_CAP || old(self).queue().len()
                        == 0
                    &&& final(self).queue() == old(self).queue()
                },
            },
    {
        if self.collected.len() >= SUBTREE_LISTING_CAP || self.pending.len() == 0 {
            return None;
        }
        let ghost before = self.pending@;
        let directory = self.pending.remove(0);
        assert(self.pending@ =~= before.skip(1));
        Some(directory)
    }

    /// Takes in the entries of one directory, as many as fit.
    pub fn add(&mut self, entries: Vec<RemoteEntry>)
        requires
            old(self).entries().len() < SUBTREE_LISTING_CAP,
        ensures
            ({
                let n = entries_taken(old(self).entries().len(), entries@.len());
                &&& final(self).entries() == old(self).entries() + entries@.take(n as int)
                &&& final(self).queue() == old(self).queue() + directories_of(
                    entries@.take(n as int),
                )
            }),
            final(self).entries().len() <= SUBTREE_LISTING_CAP,
    {
        let ghost all = entries@;
        let ghost have = self.collected@;
        let ghost queue = self.pending@;
        let mut room: usize = SUBTREE_LISTING_CAP - self.collected.len();
        let ghost total_room = room;
        assert(all.take(0) =~= Seq::<RemoteEntry>::empty());
        assert(self.collected@ =~= have + all.take(0));
        assert(self.pending@ =~= queue + directories_of(all.take(0)));
        let ghost mut taken: int = 0;
        for entry in items: entries
            invariant
                items.seq() == all,
                have.len() + total_room == SUBTREE_LISTING_CAP,
                0 <= taken <= all.len(),
                room + taken == total_room,
                taken == if items.index() <= total_room {
                    items.index()
                } else {
                    total_room as int
                },
                self.collected@ == have + all.take(taken),
                self.pending@ == queue + directories_of(all.take(taken)),
        {
            if room > 0 {
                let ghost next = all.take(taken + 1);
                proof {
                    assert(next.drop_last() =~= all.take(taken));
                    assert(next.last() == entry);
                }
                let is_directory = matches!(entry.kind, RemoteEntryKind::Directory);
                if is_directory {
                    self.pending.push(entry.path.clone());
                }
                self.collected.push(entry);
                room = room - 1;
                proof {
                    assert(self.collected@ =~= have + next);
                    assert(self.pending@ =~= queue + directories_of(next));
                    taken = taken + 1;
                }
            }
        }
    }

    /// The finished listing.
    pub fn finish(self) -> (r: Vec<RemoteEntry>)
        ensures
            r@ == self.entries(),
    {
        self.collected
    }
}

/// What a worker does before the next step of a transfer.
#[derive(Clone, Copy, Debug, PartialEq, Eq, Structural)]
pub enum BeforeStep {
    /// The job was aborted: abort the session.
    Cancel,
    /// Hand the session back at its checkpoint.
    Hold,
    /// Ask for a byte grant and step.
    Step,
}

/// What one provider step reported.
#[derive(Debug, PartialEq, Eq)]
pub enum TransferStepResult {
    Progressed { bytes_transferred: u64 },
    Completed(TransferOutcome),
    Failed(ProviderError),
}

/// What follows a step: bytes to give back to the bandwidth shaper, whether
/// the session is aborted, and the job's outcome if it ends here.
#[derive(Debug, PartialEq, Eq)]
pub struct AfterStep {
    pub refund: u64,
    pub abort_session: bool,
    pub outcome: Option<ProviderJobOutcome>,
}

/// Counts steps of a transfer that moved nothing.
#[derive(Clone, Copy, Debug, PartialEq, Eq, Structural)]
pub struct TransferLoop {
    pub zero_progress_steps: u32,
}

/// Text of the failure after `steps` steps without progress.
pub open spec fn no_progress_message(steps: nat) -> Seq<char> {
    "transfer made no progress for "@ + decimal(steps) + " consecutive steps"@
}

impl TransferLoop {
    pub fn start() -> (r: TransferLoop)
        ensures
            r.zero_progress_steps == 0,
    {
        TransferLoop { zero_progress_steps: 0 }
    }

    /// An aborted job stops at once, a closed gate holds it.
    pub fn before_step(
        &self,
        pool: &ProviderJobPool,
        generation: u64,
        direction: TransferDirection,
    ) -> (r: BeforeStep)
        ensures
            r == if generation != pool.current() {
                BeforeStep::Cancel
            } else if !pool.gate(direction) {
                BeforeStep::Hold
            } else {
                BeforeStep::Step
            },
    {
        if pool.is_cancelled(generation) {
            return BeforeStep::Cancel;
        }
        let allowed = match direction {
            TransferDirection::Upload => pool.allow_uploads,
            TransferDirection::Download => pool.allow_downloads,
        };
        if allowed {
            BeforeStep::Step
        } else {
            BeforeStep::Hold
        }
    }

    /// An empty grant holds the session until tokens refill.
    pub fn holds_on_grant(&self, grant: u64) -> (r: bool)
        ensures
            r == (grant == 0),
    {
        grant == 0
    }

    /// Settles a step that was granted `grant` bytes. Unused bytes go back,
    /// all of them after a failure, and a transfer that keeps moving nothing
    /// fails transiently.
    pub fn after_step(&mut self, grant: u64, result: TransferStepResult) -> (r: AfterStep)
        requires
            old(self).zero_progress_steps < MAX_ZERO_PROGRESS_TRANSFER_STEPS,
        ensures
            match result {
                TransferStepResult::Progressed { bytes_transferred } => {
                    &&& r.refund == if grant >= bytes_transferred {
                        (grant - bytes_transferred) as u64
                    } else {
                        0
                    }
                    &&& final(self).zero_progress_steps == if bytes_transferred == 0 {
                        (old(self).zero_progress_steps + 1) as u32
                    } else {
                        0
                    }
                    &&& if bytes_transferred == 0 && old(self).zero_progress_steps + 1
                        >= MAX_ZERO_PROGRESS_TRANSFER_STEPS {
                        &&& r.abort_session
                        &&& r.outcome matches Some(
                            ProviderJobOutcome::TransferFailed { error, phase },
                        )
                        &&& phase == TransferPhase::Step
                        &&& error.kind == ProviderErrorKind::Transient
                        &&& error.retry == RetryFailureKind::Transient
                        &&& error.message@ == no_progress_message(
                            (old(self).zero_progress_steps + 1) as nat,
                        )
                    } else {
                        !r.abort_session && r.outcome is None
                    }
                },
                TransferStepResult::Completed(outcome) => {
                    &&& r.refund == 0
                    &&& !r.abort_session
                    &&& r.outcome == Some(ProviderJobOutcome::TransferCompleted(outcome))
                },
                TransferStepResult::Failed(error) => {
                    &&& r.refund == grant
                    &&& r.abort_session
                    &&& r.outcome == Some(
                        ProviderJobOutcome::TransferFailed { error, phase: TransferPhase::Step },
                    )
                },
            },
            !(result is Progressed) ==> *final(self) == *old(self),
            r.outcome is None ==> final(self).zero_progress_steps
                < MAX_ZERO_PROGRESS_TRANSFER_STEPS,
    {
        match result {
            TransferStepResult::Progressed { bytes_transferred } => {
                let refund: u64 = if grant >= bytes_transferred {
                    grant - bytes_transferred
                } else {
                    0
                };
                if bytes_transferred > 0 {
                    self.zero_progress_steps = 0;
                    return AfterStep { refund, abort_session: false, outcome: None };
                }
                self.zero_progress_steps = self.zero_progress_steps + 1;
                if self.zero_progress_steps < MAX_ZERO_PROGRESS_TRANSFER_STEPS {
                    return AfterStep { refund, abort_session: false, outcome: None };
                }
                let head = concat(
                    "transfer made no progress for ",
                    decimal_text(self.zero_progress_steps as u128).as_str(),
                );
                let message = concat(head.as_str(), " consecutive steps");
                AfterStep {
                    refund,
                    abort_session: true,
                    outcome: Some(
                        ProviderJobOutcome::TransferFailed {
                            error: ProviderError {
                                kind: ProviderErrorKind::Transient,
                                message,
                                retry: RetryFailureKind::Transient,
                            },
                            phase: TransferPhase::Step,
                        },
                    ),
                }
            },
            TransferStepResult::Completed(outcome) => AfterStep {
                refund: 0,
                abort_session: false,
                outcome: Some(ProviderJobOutcome::TransferCompleted(outcome)),
            },
            TransferStepResult::Failed(error) => AfterStep {
                refund: grant,
                abort_session: true,
                outcome: Some(
                    ProviderJobOutcome::TransferFailed { error, phase: TransferPhase::Step },
                ),
            },
        }
    }
}

/// What polling a running call gave.
#[derive(Debug, PartialEq, Eq)]
pub enum CallPoll<T> {
    Finished(Result<T, String>),
    Running,
    /// The thread went away without an answer.
    Disconnected,
}

/// One provider call polled by the tick loop until its result is in.
#[derive(Debug, PartialEq, Eq)]
pub enum ProviderCall<T> {
    /// Finished; the result is handed out once.
    Ready(Option<Result<T, String>>),
    Pending,
}

/// What asking a call for its result gives, and what the call is after that.
pub open spec fn taken_from<T>(
    call: ProviderCall<T>,
    poll: CallPoll<T>,
    r: Option<Result<T, String>>,
    after: ProviderCall<T>,
) -> bool {
    match call {
        ProviderCall::Ready(slot) => r == slot && after == ProviderCall::<T>::Ready(None),
        ProviderCall::Pending => match poll {
            CallPoll::Finished(result) => r == Some(result) && after == ProviderCall::<T>::Ready(
                None,
            ),
            CallPoll::Running => r is None && after == ProviderCall::<T>::Pending,
            CallPoll::Disconnected => {
                &&& r matches Some(Err(message))
                &&& message@ == "provider call thread exited without a result"@
                &&& after == ProviderCall::<T>::Ready(None)
            },
        },
    }
}

impl<T> ProviderCall<T> {
    /// `Some` once the call has finished, exactly once. `poll` is looked at
    /// only while the call runs.
    pub fn take(&mut self, poll: CallPoll<T>) -> (r: Option<Result<T, String>>)
        ensures
            taken_from(*old(self), poll, r, *final(self)),
    {
        let mut current = ProviderCall::Ready(None);
        std::mem::swap(&mut current, self);
        match current {
            ProviderCall::Ready(slot) => slot,
            ProviderCall::Pending => match poll {
                CallPoll::Finished(result) => Some(result),
                CallPoll::Running => {
                    *self = ProviderCall::Pending;
                    None
                },
                CallPoll::Disconnected => Some(
                    Err("provider call thread exited without a result".to_owned()),
                ),
            },
        }
    }
}

/// A call hands its result out once: after it has, it never does again.
pub proof fn law_result_is_handed_out_once<T>(
    call: ProviderCall<T>,
    first: CallPoll<T>,
    taken: Option<Result<T, String>>,
    after: ProviderCall<T>,
    second: CallPoll<T>,
    again: Option<Result<T, String>>,
)
    requires
        taken_from(call, first, taken, after),
        taken is Some,
        exists|last: ProviderCall<T>| taken_from(after, second, again, last),
    ensures
        again is None,
{
}

// ---------------------------------------------------------------------------
// What the jobs are for
// ---------------------------------------------------------------------------

/// Content is hashed on the remote side only where the answer matters: always
/// on demand, never unasked, and otherwise for an entry that another writer
/// left and that brings no hash of its own.
pub proof fn law_remote_content_is_hashed_where_it_matters(
    request: ProbeRequest,
    stat: Option<Result<Option<RemoteEntry>, ProviderError>>,
    r: bool,
)
    requires
        call_ensures(ProbeRequest::wants_hash, (&request, &stat), r),
    ensures
        request.hash is Never ==> !r,
        request.hash is Always ==> r,
        request.hash matches ProbeHash::IfDivergedFrom { index_op_id } ==> (r ==> (stat
            matches Some(Ok(Some(entry))) && entry.content_hash is None && (entry.op_id is None
            || entry.op_id->0@ != index_op_id@))),
        request.hash matches ProbeHash::IfDivergedFrom { index_op_id } ==> (stat matches Some(
            Ok(Some(entry)),
        ) ==> (entry.content_hash is None && (entry.op_id is None || entry.op_id->0@
            != index_op_id@) ==> r)),
{
}

/// Only a directory that is there is listed, and only on demand.
pub proof fn law_only_a_directory_is_listed(
    request: ProbeRequest,
    stat: Option<Result<Option<RemoteEntry>, ProviderError>>,
    r: bool,
)
    requires
        call_ensures(ProbeRequest::wants_listing, (&request, &stat), r),
    ensures
        r ==> request.want_subtree_listing && (stat matches Some(Ok(Some(entry)))
            && entry.kind is Directory),
        request.want_subtree_listing ==> (stat matches Some(Ok(Some(entry))) ==> (entry.kind
            is Directory ==> r)),
{
}

/// What finished after an abort is not handed out, and the sessions it still
/// holds are closed; everything else is handed out, in order, and no job
/// counts as running once it was drained.
pub proof fn law_an_abort_keeps_late_outcomes_away(
    pool: &mut ProviderJobPool,
    drained: Vec<CompletedJob>,
    r: (Vec<CompletedJob>, Vec<u64>),
)
    requires
        call_ensures(ProviderJobPool::harvest, (pool, drained), r),
    ensures
        forall|i: int|
            0 <= i < r.0@.len() ==> (#[trigger] r.0@[i]).generation == old(pool).current()
                && drained@.contains(r.0@[i]),
        forall|i: int|
            0 <= i < drained@.len() && (#[trigger] drained@[i]).generation == old(pool).current()
                ==> r.0@.contains(drained@[i]),
        forall|i: int|
            0 <= i < drained@.len() && (#[trigger] drained@[i]).generation != old(pool).current()
                ==> (drained@[i].outcome matches ProviderJobOutcome::TransferHeld { session }
                ==> r.1@.contains(session)),
        (forall|i: int|
            0 <= i < drained@.len() ==> (#[trigger] drained@[i]).generation == old(pool).current())
            ==> r.1@.len() == 0,
        old(pool).running() >= drained@.len() ==> final(pool).running() == old(pool).running()
            - drained@.len(),
        final(pool).current() == old(pool).current(),
{
    let keep = |job: CompletedJob| job.generation == old(pool).current();
    let all = drained@;
    assert(r.0@ == all.filter(keep));
    assert forall|i: int| 0 <= i < r.0@.len() implies (#[trigger] r.0@[i]).generation == old(pool).current() && all.contains(r.0@[i]) by {
        all.lemma_filter_pred(keep, i);
        assert(all.filter(keep).contains(all.filter(keep)[i]));
        all.lemma_filter_contains_rev(keep, r.0@[i]);
    }
    assert forall|i: int|
        0 <= i < all.len() && (#[trigger] all[i]).generation == old(pool).current() implies r.0@.contains(all[i]) by {
        all.lemma_filter_contains(keep, i);
    }
    lemma_stale_sessions(all, old(pool).current());
}

proof fn lemma_stale_sessions(jobs: Seq<CompletedJob>, generation: u64)
    ensures
        forall|i: int|
            0 <= i < jobs.len() && (#[trigger] jobs[i]).generation != generation ==> (
            jobs[i].outcome matches ProviderJobOutcome::TransferHeld { session } ==> stale_sessions(
                jobs,
                generation,
            ).contains(session)),
        (forall|i: int| 0 <= i < jobs.len() ==> (#[trigger] jobs[i]).generation == generation)
            ==> stale_sessions(jobs, generation).len() == 0,
    decreases jobs.len(),
{
    if jobs.len() > 0 {
        let front = jobs.drop_last();
        let rest = stale_sessions(front, generation);
        let all = stale_sessions(jobs, generation);
        lemma_stale_sessions(front, generation);
        assert forall|i: int| 0 <= i < front.len() implies #[trigger] front[i] == jobs[i] by {}
        assert forall|i: int|
            0 <= i < jobs.len() && (#[trigger] jobs[i]).generation != generation implies (
        jobs[i].outcome matches ProviderJobOutcome::TransferHeld { session } ==> all.contains(
            session,
        )) by {
            if let ProviderJobOutcome::TransferHeld { session } = jobs[i].outcome {
                if i < front.len() {
                    assert(front[i] == jobs[i]);
                    assert(rest.contains(session));
                    let k = rest.index_of(session);
                    assert(all[k] == session);
                } else {
                    assert(all[all.len() - 1] == session);
                }
            }
        }
        if forall|i: int| 0 <= i < jobs.len() ==> (#[trigger] jobs[i]).generation == generation {
            assert(jobs[jobs.len() - 1].generation == generation);
        }
    }
}

/// A job of an earlier generation is not begun: it counts as cancelled, and
/// the session it was to go on with is closed.
pub proof fn law_an_aborted_job_is_not_begun(
    pool: ProviderJobPool,
    id: i64,
    generation: u64,
    kind: ProviderJobKind,
    r: Option<(CompletedJob, Option<u64>)>,
)
    requires
        call_ensures(ProviderJobPool::take_up, (&pool, id, generation, &kind), r),
    ensures
        r is None <==> generation == pool.current(),
        r matches Some(done) ==> done.0.intent_id == id && done.0.outcome is Cancelled
            && done.0.generation == generation,
        r matches Some(done) ==> (kind matches ProviderJobKind::ResumeTransfer { session, .. }
            ==> done.1 == Some(session)),
        r matches Some(done) ==> (!(kind is ResumeTransfer) ==> done.1 is None),
{
}

/// Between two steps a transfer is cancelled by an abort and held by a closed
/// gate of its own direction; an abort is never taken for a closed gate.
pub proof fn law_a_closed_gate_holds_a_transfer(
    transfer: TransferLoop,
    pool: ProviderJobPool,
    generation: u64,
    direction: TransferDirection,
    r: BeforeStep,
)
    requires
        call_ensures(TransferLoop::before_step, (&transfer, &pool, generation, direction), r),
    ensures
        r is Cancel <==> generation != pool.current(),
        r is Hold <==> generation == pool.current() && !pool.gate(direction),
        r is Step <==> generation == pool.current() && pool.gate(direction),
{
}

/// What a step did not use of its grant is given back. A transfer fails when
/// its provider fails and when sixteen steps in a row moved nothing, and is
/// done when the provider says so; every other step leads to the next one.
pub proof fn law_an_unused_grant_is_given_back(
    transfer: &mut TransferLoop,
    grant: u64,
    result: TransferStepResult,
    r: AfterStep,
)
    requires
        call_ensures(TransferLoop::after_step, (transfer, grant, result), r),
        old(transfer).zero_progress_steps < 16,
    ensures
        result matches TransferStepResult::Progressed { bytes_transferred } ==> (
        bytes_transferred <= grant ==> r.refund + bytes_transferred == grant),
        result matches TransferStepResult::Progressed { bytes_transferred } ==> (bytes_transferred
            > grant ==> r.refund == 0),
        result matches TransferStepResult::Progressed { bytes_transferred } ==> (r.abort_session
            <==> bytes_transferred == 0 && old(transfer).zero_progress_steps == 15),
        result matches TransferStepResult::Progressed { bytes_transferred } ==> (bytes_transferred
            > 0 ==> final(transfer).zero_progress_steps == 0) && (bytes_transferred == 0
            ==> final(transfer).zero_progress_steps == old(transfer).zero_progress_steps + 1),
        result is Progressed ==> (r.outcome is Some <==> r.abort_session),
        result is Completed ==> r.outcome is Some && r.outcome->0 is TransferCompleted
            && !r.abort_session && r.refund == 0,
        result matches TransferStepResult::Completed(done) ==> r.outcome == Some(
            ProviderJobOutcome::TransferCompleted(done),
        ),
        result is Failed ==> r.refund == grant && r.abort_session && r.outcome is Some
            && r.outcome->0 is TransferFailed,
        r.abort_session ==> r.outcome is Some && r.outcome->0 is TransferFailed,
{
}

/// A result is handed out once: while a call runs there is none, and after it
/// was taken there is none again.
pub proof fn law_a_calls_result_is_taken_once<T>(
    call: &mut ProviderCall<T>,
    poll: CallPoll<T>,
    r: Option<Result<T, String>>,
)
    requires
        call_ensures(ProviderCall::<T>::take, (call, poll), r),
    ensures
        *old(call) is Pending && poll is Running ==> r is None && *final(call) is Pending,
        *old(call) is Pending && !(poll is Running) ==> r is Some && *final(call)
            == ProviderCall::<T>::Ready(None),
        *old(call) is Pending ==> (poll matches CallPoll::Finished(result) ==> r == Some(result)),
        *old(call) is Pending && poll is Disconnected ==> r is Some && r->0 is Err,
        *old(call) matches ProviderCall::Ready(slot) ==> r == slot && *final(call)
            == ProviderCall::<T>::Ready(None),
{
}

/// A listing goes on with the directory found first, takes entries up to ten
/// thousand and looks into every directory among those it took.
pub proof fn law_a_listing_goes_through_its_directories(
    listing: &mut SubtreeListing,
    entries: Vec<RemoteEntry>,
)
    requires
        call_ensures(SubtreeListing::add, (listing, entries), ()),
        old(listing).entries().len() < 10_000,
    ensures
        final(listing).entries().len() == if old(listing).entries().len() + entries@.len()
            <= 10_000 {
            old(listing).entries().len() + entries@.len()
        } else {
            10_000
        },
        final(listing).entries().take(old(listing).entries().len() as int) == old(listing).entries(),
        forall|i: int|
            old(listing).entries().len() <= i < final(listing).entries().len() ==> #[trigger] final(listing).entries()[i] == entries@[i - old(listing).entries().len()],
        forall|i: int|
            0 <= i < entries@.len() && old(listing).entries().len() + i < 10_000 && (
            #[trigger] entries@[i]).kind is Directory ==> final(listing).queue().contains(
                entries@[i].path,
            ),
        (forall|i: int| 0 <= i < entries@.len() ==> (#[trigger] entries@[i]).kind !is Directory)
            ==> final(listing).queue() == old(listing).queue(),
{
    let have = old(listing).entries();
    let n = entries_taken(have.len(), entries@.len());
    let taken = entries@.take(n as int);
    assert(final(listing).entries().take(have.len() as int) =~= have);
    lemma_directories_of(taken);
    let found = directories_of(taken);
    let queue = old(listing).queue();
    assert(final(listing).queue() == queue + found);
    assert forall|i: int|
        0 <= i < entries@.len() && have.len() + i < 10_000 && (#[trigger] entries@[i]).kind
            is Directory implies final(listing).queue().contains(entries@[i].path) by {
        assert(taken[i] == entries@[i]);
        let k = found.index_of(entries@[i].path);
        assert(found[k] == entries@[i].path);
        assert((queue + found)[queue.len() + k] == entries@[i].path);
    }
    if forall|i: int| 0 <= i < entries@.len() ==> (#[trigger] entries@[i]).kind !is Directory {
        assert forall|i: int| 0 <= i < taken.len() implies (#[trigger] taken[i]).kind
            !is Directory by {
            assert(taken[i] == entries@[i]);
        }
        assert(queue + found =~= queue);
    }
}

proof fn lemma_directories_of(entries: Seq<RemoteEntry>)
    ensures
        forall|i: int|
            0 <= i < entries.len() && (#[trigger] entries[i]).kind is Directory ==> directories_of(
                entries,
            ).contains(entries[i].path),
        (forall|i: int| 0 <= i < entries.len() ==> (#[trigger] entries[i]).kind !is Directory)
            ==> directories_of(entries).len() == 0,
    decreases entries.len(),
{
    if entries.len() > 0 {
        let front = entries.drop_last();
        let rest = directories_of(front);
        let all = directories_of(entries);
        lemma_directories_of(front);
        assert forall|i: int| 0 <= i < front.len() implies #[trigger] front[i] == entries[i] by {}
        assert forall|i: int|
            0 <= i < entries.len() && (#[trigger] entries[i]).kind
                is Directory implies all.contains(entries[i].path) by {
            if i < front.len() {
                assert(front[i] == entries[i]);
                let k = rest.index_of(entries[i].path);
                assert(all[k] == entries[i].path);
            } else {
                assert(all[all.len() - 1] == entries[i].path);
            }
        }
        if forall|i: int| 0 <= i < entries.len() ==> (#[trigger] entries[i]).kind !is Directory {
            assert(entries[entries.len() - 1].kind !is Directory);
        }
    }
}

/// A job belongs to the generation it was dispatched in, and an abort ends
/// that generation for all of them at once.
pub proof fn law_an_abort_ends_a_generation(
    pool: &mut ProviderJobPool,
    aborted: &mut ProviderJobPool,
    generation: u64,
    cancelled: bool,
)
    requires
        call_ensures(ProviderJobPool::dispatch, (pool,), generation),
        call_ensures(ProviderJobPool::abort_in_flight, (aborted,), ()),
        old(aborted).current() == final(pool).current(),
        call_ensures(ProviderJobPool::is_cancelled, (&*final(aborted), generation), cancelled),
    ensures
        generation == final(pool).current(),
        final(pool).running() == old(pool).running() + 1,
        cancelled,
        final(aborted).running() == old(aborted).running(),
{
}

/// A worker is started only for work that has none, within the limit; the
/// first one always.
pub proof fn law_workers_follow_the_work(
    pool: ProviderJobPool,
    workers: usize,
    max: usize,
    r: bool,
)
    requires
        call_ensures(ProviderJobPool::needs_worker, (&pool, workers, max), r),
    ensures
        r ==> pool.running() > workers,
        workers >= max && workers > 0 ==> !r,
        workers == 0 && pool.running() > 0 ==> r,
        workers < max && pool.running() > workers ==> r,
{
}

/// Both gates are set as told, and a listing goes on with the directory it
/// found first until it is full.
pub proof fn law_gates_and_listings_keep_their_order(
    pool: &mut ProviderJobPool,
    up: bool,
    down: bool,
    listing: &mut SubtreeListing,
    next: Option<String>,
)
    requires
        call_ensures(ProviderJobPool::update_gates, (pool, up, down), ()),
        call_ensures(SubtreeListing::next_directory, (listing,), next),
    ensures
        final(pool).gate(TransferDirection::Upload) == up,
        final(pool).gate(TransferDirection::Download) == down,
        final(pool).current() == old(pool).current(),
        next is Some <==> old(listing).entries().len() < 10_000 && old(listing).queue().len() > 0,
        next matches Some(directory) ==> directory == old(listing).queue()[0] && final(listing).queue() == old(listing).queue().skip(1),
        final(listing).entries() == old(listing).entries(),
{
}

} // verus!
