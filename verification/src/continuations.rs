//! Planning goes on once a remote probe is back.
//!
//! The sync index tells "the remote is what we last synced" from "another
//! writer changed it". A deletion only ever removes what was last synced; a
//! modification on either side wins over a deletion on the other.
use vstd::prelude::*;

use crate::clock::SystemTime;
use crate::paths::{joined, path_parts, FsPath, Part, PathStyle};
use crate::planner::{is_failure, optional_text, GuardView, NoopReason, PendingPlan, PlanOutcome,
    PlanStep, PlanView, TransferPlan};
use crate::provider_jobs::{ProbeHash, ProbeRequest, ProbeResult};
use crate::records::{clone_optional, optional_is, same_optional, LocalStat, ProviderErrorKind,
    ProviderError, RemoteEntry, RemoteEntryKind, RemotePrecondition, RetryFailureKind, SyncIndexEntry,
    SyncMode};
use crate::text::{chars_of, concat, decimal, decimal_text, same_text, string_of};
use vstd::string::StringExecFns;

verus! {

/// The remote object has the recorded size and time, or no time was ever
/// recorded and the op-id has to carry the decision alone.
pub open spec fn quick_check(index: SyncIndexEntry, entry: RemoteEntry) -> bool {
    index.remote_modified_at is None || index.remote_unchanged(entry.size_bytes, entry.modified_at)
}

/// The content hash known of the remote object: its own, else the fetched.
pub open spec fn remote_hash(entry: RemoteEntry, probe: ProbeResult) -> Option<Seq<char>> {
    if entry.content_hash is Some {
        optional_text(entry.content_hash)
    } else {
        optional_text(probe.hash_found())
    }
}

/// The remote object is exactly what was last synced. The op-id tag alone is
/// no proof, because an edit in place keeps it; the quick check has to agree,
/// or the content hash has to be the recorded one.
pub open spec fn is_last_synced(
    index: SyncIndexEntry,
    entry: RemoteEntry,
    probe: ProbeResult,
) -> bool {
    ||| same_optional(entry.op_id, index.last_op_id@) && quick_check(index, entry)
    ||| remote_hash(entry, probe) == Some(index.content_hash@)
}

fn last_synced(index: &SyncIndexEntry, entry: &RemoteEntry, probe: &ProbeResult) -> (r: bool)
    ensures
        r == is_last_synced(*index, *entry, *probe),
{
    if optional_is(&entry.op_id, &index.last_op_id) && (index.remote_modified_at.is_none()
        || index.matches_remote(entry.size_bytes, entry.modified_at)) {
        return true;
    }
    match &entry.content_hash {
        Some(hash) => same_text(hash.as_str(), index.content_hash.as_str()),
        None => match probe.content_hash_ok() {
            Some(hash) => same_text(hash.as_str(), index.content_hash.as_str()),
            None => false,
        },
    }
}

/// What [`continue_plan_upload`] decides.
pub open spec fn upload_continued(
    r: PlanOutcome,
    plan: PlanView,
    index: Option<SyncIndexEntry>,
    probe: ProbeResult,
) -> bool {
    match probe.stat {
        None => is_failure(
            r,
            RetryFailureKind::Transient,
            "internal error: upload probe carried no remote stat"@,
        ),
        Some(Err(error)) => is_failure(
            r,
            error.retry,
            "cannot stat remote before upload: "@ + error.message@,
        ),
        Some(Ok(None)) => r matches PlanOutcome::Upload(p) && p@ == (PlanView {
            precondition: GuardView::Absent,
            ..plan
        }),
        Some(Ok(Some(entry))) => r matches PlanOutcome::Upload(p) && p@ == match index {
            Some(i) => if is_last_synced(i, entry, probe) {
                PlanView { precondition: GuardView::HashEquals(i.content_hash@), ..plan }
            } else {
                PlanView {
                    verify_remote_before_upload: true,
                    last_synced_hash: Some(i.content_hash@),
                    ..plan
                }
            },
            None => PlanView { verify_remote_before_upload: true, ..plan },
        },
    }
}

/// Goes on with an upload. A remote that is gone is created anew under guard,
/// one that is still the last sync is overwritten under guard, and anything
/// else is settled at the upload gate, where the local hash is known.
pub fn continue_plan_upload(
    plan: TransferPlan,
    index: Option<SyncIndexEntry>,
    probe: &ProbeResult,
) -> (r: PlanOutcome)
    ensures
        upload_continued(r, plan@, index, *probe),
{
    let mut plan = plan;
    match &probe.stat {
        None => PlanOutcome::Fail {
            failure: RetryFailureKind::Transient,
            message: "internal error: upload probe carried no remote stat".to_owned(),
        },
        Some(Err(error)) => PlanOutcome::Fail {
            failure: error.retry,
            message: concat("cannot stat remote before upload: ", error.message.as_str()),
        },
        Some(Ok(None)) => {
            plan.precondition = RemotePrecondition::Absent;
            PlanOutcome::Upload(plan)
        },
        Some(Ok(Some(entry))) => {
            match index {
                Some(index) => {
                    if last_synced(&index, entry, probe) {
                        plan.precondition = RemotePrecondition::HashEquals(index.content_hash);
                    } else {
                        plan.verify_remote_before_upload = true;
                        plan.last_synced_hash = Some(index.content_hash);
                    }
                },
                None => {
                    plan.verify_remote_before_upload = true;
                },
            }
            PlanOutcome::Upload(plan)
        },
    }
}

/// In two-way mode an upload never overwrites blindly: whatever the probe
/// said, the plan carries a write guard or is verified at the upload gate.
pub proof fn law_two_way_upload_is_guarded(
    r: PlanOutcome,
    plan: PlanView,
    index: Option<SyncIndexEntry>,
    probe: ProbeResult,
)
    requires
        upload_continued(r, plan, index, probe),
    ensures
        r matches PlanOutcome::Upload(p) ==> p@.verify_remote_before_upload
            || p@.precondition != GuardView::Unconditional,
{
}

/// What [`continue_plan_delete`] decides.
pub open spec fn delete_continued(
    r: PlanStep,
    plan: TransferPlan,
    index: Option<SyncIndexEntry>,
    probe: ProbeResult,
) -> bool {
    match probe.stat {
        None => r matches PlanStep::Done(o) && is_failure(
            o,
            RetryFailureKind::Transient,
            "internal error: delete probe carried no remote stat"@,
        ),
        Some(Err(error)) => r matches PlanStep::Done(o) && is_failure(
            o,
            error.retry,
            "cannot stat remote before delete: "@ + error.message@,
        ),
        Some(Ok(None)) => r matches PlanStep::Converged { path, reason } && path == plan.local_path
            && reason == NoopReason::RemoteAbsent,
        Some(Ok(Some(entry))) => if entry.kind == RemoteEntryKind::Directory {
            r == PlanStep::InspectDirectory(plan)
        } else if index matches Some(i) ==> is_last_synced(i, entry, probe) {
            r == PlanStep::Done(PlanOutcome::RemoteDelete(plan))
        } else {
            r == PlanStep::PreserveRemote(plan)
        },
    }
}

/// Goes on with a remote delete. It is carried out only while the remote is
/// what was last synced, or nothing was ever synced to compare with.
pub fn continue_plan_delete(
    plan: TransferPlan,
    index: Option<SyncIndexEntry>,
    probe: &ProbeResult,
) -> (r: PlanStep)
    ensures
        delete_continued(r, plan, index, *probe),
{
    match &probe.stat {
        None => PlanStep::Done(
            PlanOutcome::Fail {
                failure: RetryFailureKind::Transient,
                message: "internal error: delete probe carried no remote stat".to_owned(),
            },
        ),
        Some(Err(error)) => PlanStep::Done(
            PlanOutcome::Fail {
                failure: error.retry,
                message: concat("cannot stat remote before delete: ", error.message.as_str()),
            },
        ),
        Some(Ok(None)) => PlanStep::Converged {
            path: plan.local_path,
            reason: NoopReason::RemoteAbsent,
        },
        Some(Ok(Some(entry))) => {
            if matches!(entry.kind, RemoteEntryKind::Directory) {
                return PlanStep::InspectDirectory(plan);
            }
            let unchanged = match &index {
                Some(index) => last_synced(index, entry, probe),
                None => true,
            };
            if unchanged {
                PlanStep::Done(PlanOutcome::RemoteDelete(plan))
            } else {
                PlanStep::PreserveRemote(plan)
            }
        },
    }
}

/// A synced remote file is deleted only when it is exactly what was last
/// synced: if another writer changed it, the deletion is refused.
pub proof fn law_modification_wins_over_deletion(
    r: PlanStep,
    plan: TransferPlan,
    index: SyncIndexEntry,
    entry: RemoteEntry,
    probe: ProbeResult,
)
    requires
        delete_continued(r, plan, Some(index), probe),
        probe.entry_found() == Some(entry),
        entry.kind == RemoteEntryKind::File,
        !is_last_synced(index, entry, probe),
    ensures
        r == PlanStep::PreserveRemote(plan),
{
}

// ---------------------------------------------------------------------------
// Directory deletes
// ---------------------------------------------------------------------------

/// Number of `/` in a remote path.
pub open spec fn slashes(path: Seq<char>) -> nat
    decreases path.len(),
{
    if path.len() == 0 {
        0
    } else {
        slashes(path.drop_last()) + if path.last() == '/' {
            1nat
        } else {
            0nat
        }
    }
}

fn count_slashes(path: &str) -> (r: usize)
    ensures
        r as nat == slashes(path@),
{
    let chars = chars_of(path);
    let mut n: usize = 0;
    let mut i: usize = 0;
    assert(path@.take(0) =~= Seq::<char>::empty());
    while i < chars.len()
        invariant
            chars@ == path@,
            0 <= i <= chars.len(),
            n <= i,
            n as nat == slashes(path@.take(i as int)),
        decreases chars.len() - i,
    {
        assert(path@.take(i as int + 1).drop_last() =~= path@.take(i as int));
        if chars[i] == '/' {
            n = n + 1;
        }
        i = i + 1;
    }
    assert(path@.take(i as int) =~= path@);
    n
}

pub open spec fn depth(entry: RemoteEntry) -> nat {
    slashes(entry.path@)
}

pub open spec fn at_depth(entries: Seq<RemoteEntry>, d: nat) -> Seq<RemoteEntry> {
    entries.filter(|e: RemoteEntry| depth(e) == d)
}

/// Entries at depth `d` or less, deepest first; entries of one depth keep
/// their order.
pub open spec fn deepest_first(entries: Seq<RemoteEntry>, d: nat) -> Seq<RemoteEntry>
    decreases d,
{
    if d == 0 {
        at_depth(entries, 0)
    } else {
        at_depth(entries, d) + deepest_first(entries, (d - 1) as nat)
    }
}

/// Greatest depth among the entries.
pub open spec fn max_depth(entries: Seq<RemoteEntry>) -> nat
    decreases entries.len(),
{
    if entries.len() == 0 {
        0
    } else {
        let rest = max_depth(entries.drop_last());
        if depth(entries.last()) > rest {
            depth(entries.last())
        } else {
            rest
        }
    }
}

/// `s` without the slashes it starts with.
pub open spec fn without_leading_slashes(s: Seq<char>) -> Seq<char>
    decreases s.len(),
{
    if s.len() > 0 && s[0] == '/' {
        without_leading_slashes(s.skip(1))
    } else {
        s
    }
}

/// Local path of a remote entry below the directory `remote`, mirrored below
/// `local`.
pub open spec fn counterpart(
    remote: Seq<char>,
    local: Seq<Part>,
    entry: Seq<char>,
) -> Option<Seq<Part>> {
    if remote.len() <= entry.len() && entry.take(remote.len() as int) == remote {
        let rest = without_leading_slashes(entry.skip(remote.len() as int));
        if rest.len() == 0 {
            None
        } else {
            Some(joined(local, path_parts(PathStyle::Unix, rest)))
        }
    } else {
        None
    }
}

/// Local paths of the entries that have one, in order.
pub open spec fn counterparts(
    remote: Seq<char>,
    local: Seq<Part>,
    entries: Seq<RemoteEntry>,
) -> Seq<Seq<Part>>
    decreases entries.len(),
{
    if entries.len() == 0 {
        Seq::empty()
    } else {
        let rest = counterparts(remote, local, entries.drop_last());
        match counterpart(remote, local, entries.last().path@) {
            Some(path) => rest.push(path),
            None => rest,
        }
    }
}

pub open spec fn path_views(paths: Seq<FsPath>) -> Seq<Seq<Part>> {
    paths.map_values(|p: FsPath| p@)
}

fn local_counterpart(remote: &str, local: &FsPath, entry: &str) -> (r: Option<FsPath>)
    ensures
        match r {
            Some(path) => counterpart(remote@, local@, entry@) == Some(path@),
            None => counterpart(remote@, local@, entry@) is None,
        },
{
    let base = chars_of(remote);
    let chars = chars_of(entry);
    if base.len() > chars.len() {
        return None;
    }
    let mut i: usize = 0;
    while i < base.len()
        invariant
            base@ == remote@,
            chars@ == entry@,
            base.len() <= chars.len(),
            0 <= i <= base.len(),
            forall|j: int| 0 <= j < i ==> base@[j] == chars@[j],
        decreases base.len() - i,
    {
        if base[i] != chars[i] {
            assert(entry@.take(remote@.len() as int)[i as int] != remote@[i as int]);
            return None;
        }
        i = i + 1;
    }
    assert(entry@.take(remote@.len() as int) =~= remote@);
    let ghost tail = entry@.skip(remote@.len() as int);
    let mut k: usize = base.len();
    assert(entry@.skip(k as int) =~= tail);
    while k < chars.len() && chars[k] == '/'
        invariant
            chars@ == entry@,
            base@ == remote@,
            base.len() <= k <= chars.len(),
            tail == entry@.skip(remote@.len() as int),
            without_leading_slashes(tail) == without_leading_slashes(entry@.skip(k as int)),
        decreases chars.len() - k,
    {
        assert(entry@.skip(k as int)[0] == '/');
        assert(entry@.skip(k as int).skip(1) =~= entry@.skip(k as int + 1));
        k = k + 1;
    }
    if k == chars.len() {
        return None;
    }
    assert(entry@.skip(k as int)[0] == chars@[k as int]);
    let rest = string_of(&chars, k, chars.len());
    assert(rest@ =~= entry@.skip(k as int));
    Some(local.join(rest.as_str()))
}

/// Local paths a directory delete has to look at, deepest entry first.
pub fn local_counterparts(remote: &str, local: &FsPath, entries: &Vec<RemoteEntry>) -> (r: Vec<
    FsPath,
>)
    ensures
        path_views(r@) == counterparts(
            remote@,
            local@,
            deepest_first(entries@, max_depth(entries@)),
        ),
{
    let mut deepest: usize = 0;
    let mut i: usize = 0;
    assert(entries@.take(0) =~= Seq::<RemoteEntry>::empty());
    while i < entries.len()
        invariant
            0 <= i <= entries.len(),
            deepest as nat == max_depth(entries@.take(i as int)),
        decreases entries.len() - i,
    {
        assert(entries@.take(i as int + 1).drop_last() =~= entries@.take(i as int));
        let d: usize = count_slashes(entries[i].path.as_str());
        if d > deepest {
            deepest = d;
        }
        i = i + 1;
    }
    assert(entries@.take(i as int) =~= entries@);
    let ghost all = deepest_first(entries@, deepest as nat);
    let mut paths: Vec<FsPath> = Vec::new();
    let mut d: usize = deepest;
    let ghost mut done: Seq<RemoteEntry> = Seq::empty();
    assert(path_views(paths@) =~= counterparts(remote@, local@, done));
    assert(done + deepest_first(entries@, d as nat) =~= all);
    loop
        invariant_except_break
            done + deepest_first(entries@, d as nat) == all,
        invariant
            path_views(paths@) == counterparts(remote@, local@, done),
        ensures
            done == all,
        decreases d,
    {
        let ghost layer = at_depth(entries@, d as nat);
        let ghost keep = |e: RemoteEntry| depth(e) == d as nat;
        let mut k: usize = 0;
        assert(entries@.take(0) =~= Seq::<RemoteEntry>::empty());
        assert(done + entries@.take(0).filter(keep) =~= done);
        while k < entries.len()
            invariant
                0 <= k <= entries.len(),
                keep == (|e: RemoteEntry| depth(e) == d as nat),
                path_views(paths@) == counterparts(
                    remote@,
                    local@,
                    done + entries@.take(k as int).filter(keep),
                ),
            decreases entries.len() - k,
        {
            let ghost seen = entries@.take(k as int);
            let ghost next = entries@.take(k as int + 1);
            assert(next.drop_last() =~= seen);
            assert(next.last() == entries@[k as int]);
            reveal(Seq::filter);
            if count_slashes(entries[k].path.as_str()) == d {
                let ghost before = paths@;
                assert(next.filter(keep) =~= seen.filter(keep).push(entries@[k as int]));
                assert((done + next.filter(keep)).drop_last() =~= done + seen.filter(keep));
                assert((done + next.filter(keep)).last() == entries@[k as int]);
                if let Some(path) = local_counterpart(remote, local, entries[k].path.as_str()) {
                    paths.push(path);
                    assert(path_views(paths@) =~= path_views(before).push(path@));
                }
            } else {
                assert(next.filter(keep) =~= seen.filter(keep));
            }
            k = k + 1;
        }
        assert(entries@.take(k as int) =~= entries@);
        assert(entries@.filter(keep) == layer);
        proof {
            if d > 0 {
                assert((done + layer) + deepest_first(entries@, (d - 1) as nat) =~= done + (layer
                    + deepest_first(entries@, (d - 1) as nat)));
            }
            done = done + layer;
        }
        if d == 0 {
            break;
        }
        d = d - 1;
    }
    paths
}

/// What [`continue_plan_directory_delete`] decides.
#[derive(Debug, PartialEq, Eq)]
pub enum DirectoryStep {
    Plan(PlanStep),
    /// Look at these local paths, then expand.
    Expand { plan: TransferPlan, candidates: Vec<FsPath> },
}

/// Why a directory delete waits for what is queued below it.
pub open spec fn waiting_message(entries: nat, queued: nat) -> Seq<char> {
    "remote directory still holds "@ + decimal(entries) + " entr"@ + (if entries == 1 {
        "y"@
    } else {
        "ies"@
    }) + " with "@ + decimal(queued) + " queued intent(s) underneath; waiting"@
}

/// The directory step is the given failure.
pub open spec fn directory_failure(
    r: DirectoryStep,
    failure: RetryFailureKind,
    message: Seq<char>,
) -> bool {
    r matches DirectoryStep::Plan(PlanStep::Done(o)) && is_failure(o, failure, message)
}

/// Goes on with the delete of a remote directory. The provider never deletes
/// a directory recursively; the delete expands into one guarded delete per
/// entry, and waits while anything below is still queued.
pub fn continue_plan_directory_delete(
    plan: TransferPlan,
    probe: &ProbeResult,
    queued_below: Result<usize, String>,
) -> (r: DirectoryStep)
    ensures
        match probe.subtree {
            None => directory_failure(
                r,
                RetryFailureKind::Transient,
                "internal error: directory delete probe carried no listing"@,
            ),
            Some(Err(error)) => if error.kind == ProviderErrorKind::NotFound {
                r == DirectoryStep::Plan(
                    PlanStep::Converged {
                        path: plan.local_path,
                        reason: NoopReason::RemoteDirectoryAbsent,
                    },
                )
            } else {
                directory_failure(
                    r,
                    error.retry,
                    "cannot list remote directory before delete: "@ + error.message@,
                )
            },
            Some(Ok(entries)) => if entries@.len() == 0 {
                r == DirectoryStep::Plan(PlanStep::Done(PlanOutcome::RemoteDelete(plan)))
            } else {
                match queued_below {
                    Err(error) => directory_failure(
                        r,
                        RetryFailureKind::Transient,
                        "cannot inspect queued work under a deleted directory: "@ + error@,
                    ),
                    Ok(queued) => if queued > 0 {
                        directory_failure(
                            r,
                            RetryFailureKind::Transient,
                            waiting_message(entries@.len(), queued as nat),
                        )
                    } else {
                        &&& r matches DirectoryStep::Expand { plan: p, candidates }
                        &&& p == plan
                        &&& path_views(candidates@) == counterparts(
                            plan.remote_path@,
                            plan.local_path@,
                            deepest_first(entries@, max_depth(entries@)),
                        )
                    },
                }
            },
        },
{
    match &probe.subtree {
        None => DirectoryStep::Plan(
            PlanStep::Done(
                PlanOutcome::Fail {
                    failure: RetryFailureKind::Transient,
                    message: "internal error: directory delete probe carried no listing".to_owned(),
                },
            ),
        ),
        Some(Err(error)) => {
            if matches!(error.kind, ProviderErrorKind::NotFound) {
                return DirectoryStep::Plan(
                    PlanStep::Converged {
                        path: plan.local_path,
                        reason: NoopReason::RemoteDirectoryAbsent,
                    },
                );
            }
            DirectoryStep::Plan(
                PlanStep::Done(
                    PlanOutcome::Fail {
                        failure: error.retry,
                        message: concat(
                            "cannot list remote directory before delete: ",
                            error.message.as_str(),
                        ),
                    },
                ),
            )
        },
        Some(Ok(entries)) => {
            if entries.len() == 0 {
                return DirectoryStep::Plan(PlanStep::Done(PlanOutcome::RemoteDelete(plan)));
            }
            let queued: usize = match queued_below {
                Ok(queued) => queued,
                Err(error) => {
                    return DirectoryStep::Plan(
                        PlanStep::Done(
                            PlanOutcome::Fail {
                                failure: RetryFailureKind::Transient,
                                message: concat(
                                    "cannot inspect queued work under a deleted directory: ",
                                    error.as_str(),
                                ),
                            },
                        ),
                    );
                },
            };
            if queued > 0 {
                let mut message = concat(
                    "remote directory still holds ",
                    decimal_text(entries.len() as u128).as_str(),
                );
                message.append(" entr");
                if entries.len() == 1 {
                    message.append("y");
                } else {
                    message.append("ies");
                }
                message.append(" with ");
                message.append(decimal_text(queued as u128).as_str());
                message.append(" queued intent(s) underneath; waiting");
                return DirectoryStep::Plan(
                    PlanStep::Done(
                        PlanOutcome::Fail { failure: RetryFailureKind::Transient, message },
                    ),
                );
            }
            let candidates = local_counterparts(
                plan.remote_path.as_str(),
                &plan.local_path,
                entries,
            );
            DirectoryStep::Expand { plan, candidates }
        },
    }
}

/// The candidates that are gone locally, in order.
pub open spec fn gone_locally(candidates: Seq<Seq<Part>>, present: Seq<bool>) -> Seq<Seq<Part>>
    decreases candidates.len(),
{
    if candidates.len() == 0 {
        Seq::empty()
    } else {
        let rest = gone_locally(candidates.drop_last(), present.drop_last());
        if present.last() {
            rest
        } else {
            rest.push(candidates.last())
        }
    }
}

/// Paths to queue deletes for: the candidates that are gone locally, then the
/// directory itself. Empty when everything left exists locally, in which
/// case the directory is kept.
pub fn expand_directory_delete(
    directory: &FsPath,
    candidates: Vec<FsPath>,
    present: &Vec<bool>,
) -> (r: Vec<FsPath>)
    requires
        candidates@.len() == present@.len(),
        candidates@.len() < usize::MAX,
    ensures
        ({
            let gone = gone_locally(path_views(candidates@), present@);
            path_views(r@) == if gone.len() == 0 {
                gone
            } else {
                gone.push(directory@)
            }
        }),
{
    let mut batch: Vec<FsPath> = Vec::new();
    let mut i: usize = 0;
    let ghost all = path_views(candidates@);
    assert(all.take(0) =~= Seq::<Seq<Part>>::empty());
    assert(present@.take(0) =~= Seq::<bool>::empty());
    assert(path_views(batch@) =~= gone_locally(all.take(0), present@.take(0)));
    while i < candidates.len()
        invariant
            0 <= i <= candidates.len(),
            candidates@.len() == present@.len(),
            all == path_views(candidates@),
            path_views(batch@) == gone_locally(all.take(i as int), present@.take(i as int)),
        decreases candidates.len() - i,
    {
        assert(all.take(i as int + 1).drop_last() =~= all.take(i as int));
        assert(present@.take(i as int + 1).drop_last() =~= present@.take(i as int));
        if !present[i] {
            let ghost before = batch@;
            let path = candidates[i].clone();
            assert(path@ == all[i as int]);
            batch.push(path);
            assert(path_views(batch@) =~= path_views(before).push(all[i as int]));
        }
        i = i + 1;
    }
    assert(all.take(i as int) =~= all);
    assert(present@.take(i as int) =~= present@);
    if batch.len() > 0 {
        let ghost before = batch@;
        batch.push(directory.clone());
        assert(path_views(batch@) =~= path_views(before).push(directory@));
    }
    batch
}

/// What an expanded directory delete comes to.
pub fn after_expansion_queued(batch_len: usize, queued: Result<(), String>) -> (r: PlanOutcome)
    ensures
        if batch_len == 0 {
            r == PlanOutcome::Noop(NoopReason::RemoteDirectoryKept)
        } else {
            match queued {
                Ok(_) => r == PlanOutcome::Noop(NoopReason::DirectoryDeleteExpanded),
                Err(error) => is_failure(
                    r,
                    RetryFailureKind::Transient,
                    "cannot expand a directory delete: "@ + error@,
                ),
            }
        },
{
    if batch_len == 0 {
        return PlanOutcome::Noop(NoopReason::RemoteDirectoryKept);
    }
    match queued {
        Ok(_) => PlanOutcome::Noop(NoopReason::DirectoryDeleteExpanded),
        Err(error) => PlanOutcome::Fail {
            failure: RetryFailureKind::Transient,
            message: concat("cannot expand a directory delete: ", error.as_str()),
        },
    }
}

proof fn lemma_filter_depth(entries: Seq<RemoteEntry>, d: nat)
    ensures
        forall|i: int| 0 <= i < at_depth(entries, d).len() ==> depth(#[trigger] at_depth(entries, d)[i])
            == d,
    decreases entries.len(),
{
    reveal(Seq::filter);
    if entries.len() > 0 {
        lemma_filter_depth(entries.drop_last(), d);
        assert forall|i: int| 0 <= i < at_depth(entries, d).len() implies depth(
            #[trigger] at_depth(entries, d)[i],
        ) == d by {
            let rest = at_depth(entries.drop_last(), d);
            if i < rest.len() {
                assert(at_depth(entries, d)[i] == rest[i]);
            }
        }
    }
}

/// A directory delete reaches deeper entries before shallower ones, so files
/// go before their directories and inner directories before outer ones.
pub proof fn law_deepest_entries_first(entries: Seq<RemoteEntry>, d: nat)
    ensures
        forall|i: int, j: int|
            0 <= i < j < deepest_first(entries, d).len() ==> depth(
                #[trigger] deepest_first(entries, d)[i],
            ) >= depth(#[trigger] deepest_first(entries, d)[j]),
        forall|i: int|
            0 <= i < deepest_first(entries, d).len() ==> depth(
                #[trigger] deepest_first(entries, d)[i],
            ) <= d,
    decreases d,
{
    lemma_filter_depth(entries, d);
    if d > 0 {
        law_deepest_entries_first(entries, (d - 1) as nat);
        let head = at_depth(entries, d);
        let tail = deepest_first(entries, (d - 1) as nat);
        let all = deepest_first(entries, d);
        assert forall|i: int| 0 <= i < all.len() implies depth(#[trigger] all[i]) <= d by {
            if i >= head.len() {
                assert(all[i] == tail[i - head.len()]);
            }
        }
        assert forall|i: int, j: int| 0 <= i < j < all.len() implies depth(#[trigger] all[i])
            >= depth(#[trigger] all[j]) by {
            if i < head.len() {
                assert(depth(all[i]) == d);
            } else {
                assert(all[i] == tail[i - head.len()]);
                assert(all[j] == tail[j - head.len()]);
            }
        }
    }
}

// ---------------------------------------------------------------------------
// Downloads that may be cloud-side renames
// ---------------------------------------------------------------------------

/// Goes on with a download: notes the remote writer's op-id and, where the
/// target does not exist yet, looks for a local file the object may be the
/// move of.
pub fn continue_plan_download(
    mode: SyncMode,
    plan: TransferPlan,
    probe: &ProbeResult,
    local: &LocalStat,
) -> (r: PlanStep)
    ensures
        ({
            let noted = PlanView {
                remote_op_id: match probe.entry_found() {
                    Some(entry) => optional_text(entry.op_id),
                    None => None,
                },
                ..plan@
            };
            if probe.entry_found() is Some && mode == SyncMode::TwoWay && !local.is_present() {
                r matches PlanStep::SeekMoveSource(p) && p@ == noted
            } else {
                r matches PlanStep::Done(PlanOutcome::Download(p)) && p@ == noted
            }
        }),
{
    let mut plan = plan;
    let found = probe.found();
    plan.remote_op_id = match found {
        Some(entry) => clone_optional(&entry.op_id),
        None => None,
    };
    if found.is_some() && mode.is_two_way() && !local.present() {
        PlanStep::SeekMoveSource(plan)
    } else {
        PlanStep::Done(PlanOutcome::Download(plan))
    }
}

/// Whether a synced file can be what the remote object was before it moved:
/// another path whose file is still exactly what was last synced.
pub open spec fn can_be_move_source(
    entry: SyncIndexEntry,
    local: LocalStat,
    target: Seq<Part>,
) -> bool {
    entry.path@ != target && match local {
        LocalStat::File { size_bytes, modified_at } => entry.local_unchanged(
            size_bytes,
            modified_at,
        ),
        _ => false,
    }
}

/// Row `i` is the first that can be the source of the move.
pub open spec fn is_first_source(
    rows: Seq<(SyncIndexEntry, LocalStat)>,
    target: Seq<Part>,
    i: int,
) -> bool {
    &&& 0 <= i < rows.len()
    &&& can_be_move_source(rows[i].0, rows[i].1, target)
    &&& forall|j: int|
        0 <= j < i ==> !can_be_move_source((#[trigger] rows[j]).0, rows[j].1, target)
}

/// The first index row that can be the source of the move, out of those with
/// the remote object's size and time.
pub fn local_move_candidate(
    target: &FsPath,
    rows: Vec<(SyncIndexEntry, LocalStat)>,
) -> (r: Option<SyncIndexEntry>)
    ensures
        match r {
            Some(entry) => exists|i: int|
                #[trigger] is_first_source(rows@, target@, i) && rows@[i].0 == entry,
            None => forall|j: int|
                0 <= j < rows@.len() ==> !can_be_move_source(
                    (#[trigger] rows@[j]).0,
                    rows@[j].1,
                    target@,
                ),
        },
{
    let ghost all = rows@;
    let mut left = rows;
    let ghost mut k: int = 0;
    assert(all.skip(0) =~= all);
    while left.len() > 0
        invariant
            0 <= k <= all.len(),
            all == rows@,
            left@ == all.skip(k),
            forall|j: int|
                0 <= j < k ==> !can_be_move_source((#[trigger] all[j]).0, all[j].1, target@),
        decreases left.len(),
    {
        let ghost before = left@;
        let (entry, local) = left.remove(0);
        assert(before[0] == all[k]);
        assert(left@ =~= all.skip(k + 1));
        let fits = match &local {
            LocalStat::File { size_bytes, modified_at } => entry.matches_local(
                *size_bytes,
                *modified_at,
            ),
            _ => false,
        };
        if fits && !entry.path.same(target) {
            assert(is_first_source(all, target@, k));
            return Some(entry);
        }
        assert(!can_be_move_source(all[k].0, all[k].1, target@));
        proof {
            k = k + 1;
        }
    }
    None
}

/// The remote content is the candidate's.
pub open spec fn confirms_move(hash: Option<Seq<char>>, candidate: SyncIndexEntry) -> bool {
    hash == Some(candidate.content_hash@)
}

/// Settles a download with a possible move source: the rename is done when
/// the reported hash confirms it, else the hash is fetched first.
pub fn plan_move(plan: TransferPlan, entry: &RemoteEntry, candidate: SyncIndexEntry) -> (r: PlanStep)
    ensures
        if confirms_move(optional_text(entry.content_hash), candidate) {
            r == (PlanStep::MoveLocally {
                plan,
                source: candidate,
                remote_modified_at: entry.modified_at,
            })
        } else {
            &&& r matches PlanStep::Done(PlanOutcome::Probe { request, pending })
            &&& request.remote_path == plan.remote_path
            &&& request.want_stat
            &&& request.hash is Always
            &&& !request.want_subtree_listing
            &&& pending == PendingPlan::DownloadMoveCheck { plan, candidate }
        },
{
    if optional_is(&entry.content_hash, &candidate.content_hash) {
        return PlanStep::MoveLocally {
            plan,
            source: candidate,
            remote_modified_at: entry.modified_at,
        };
    }
    PlanStep::Done(
        PlanOutcome::Probe {
            request: ProbeRequest {
                remote_path: plan.remote_path.clone(),
                want_stat: true,
                hash: ProbeHash::Always,
                want_subtree_listing: false,
            },
            pending: PendingPlan::DownloadMoveCheck { plan, candidate },
        },
    )
}

/// Settles a download once the remote hash is known: a rename when it is the
/// candidate's content, a download otherwise.
pub fn continue_download_move_check(
    plan: TransferPlan,
    candidate: SyncIndexEntry,
    probe: &ProbeResult,
) -> (r: PlanStep)
    ensures
        match probe.entry_found() {
            None => r == PlanStep::Done(PlanOutcome::Download(plan)),
            Some(entry) => {
                let noted = PlanView { remote_op_id: optional_text(entry.op_id), ..plan@ };
                if confirms_move(optional_text(probe.hash_found()), candidate) {
                    &&& r matches PlanStep::MoveLocally { plan: p, source, remote_modified_at }
                    &&& p@ == noted
                    &&& source == candidate
                    &&& remote_modified_at == entry.modified_at
                } else {
                    r matches PlanStep::Done(PlanOutcome::Download(p)) && p@ == noted
                }
            },
        },
{
    let mut plan = plan;
    match probe.found() {
        None => PlanStep::Done(PlanOutcome::Download(plan)),
        Some(entry) => {
            plan.remote_op_id = clone_optional(&entry.op_id);
            let hash = probe.content_hash_ok();
            if optional_is(&hash, &candidate.content_hash) {
                PlanStep::MoveLocally {
                    plan,
                    source: candidate,
                    remote_modified_at: entry.modified_at,
                }
            } else {
                PlanStep::Done(PlanOutcome::Download(plan))
            }
        },
    }
}

// ---------------------------------------------------------------------------
// Remote deletions
// ---------------------------------------------------------------------------

/// Goes on with a remote deletion: a remote that exists again makes it stale.
pub fn continue_apply_remote_delete(probe: &ProbeResult) -> (r: PlanStep)
    ensures
        r == if probe.entry_found() is Some {
            PlanStep::Done(PlanOutcome::Noop(NoopReason::RemoteRecreated))
        } else {
            PlanStep::GuardLocalDeletion
        },
{
    match probe.found() {
        Some(_) => PlanStep::Done(PlanOutcome::Noop(NoopReason::RemoteRecreated)),
        None => PlanStep::GuardLocalDeletion,
    }
}

/// What the local state says of a remote deletion.
#[derive(Debug, PartialEq, Eq)]
pub enum DeletionVerdict {
    /// Nothing speaks against it.
    Proceed,
    /// The local file stays.
    Preserve(NoopReason),
    /// Only the file's content hash can tell.
    NeedsHash(SyncIndexEntry),
    Fail(String),
}

/// Weighs a remote deletion against the local file. A file of unknown origin,
/// one synced after the deletion was seen, and one changed since the last
/// sync all stay.
pub fn deletion_loses_to_local_state(
    local: &LocalStat,
    index: Result<Option<SyncIndexEntry>, String>,
    enqueued_at: SystemTime,
) -> (r: DeletionVerdict)
    ensures
        match *local {
            LocalStat::File { size_bytes, modified_at } => match index {
                Err(error) => r matches DeletionVerdict::Fail(message) && message@
                    == "cannot read sync index: "@ + error@,
                Ok(None) => r == DeletionVerdict::Preserve(NoopReason::UnknownProvenance),
                Ok(Some(entry)) => if entry.updated_at.nanos > enqueued_at.nanos {
                    r == DeletionVerdict::Preserve(NoopReason::DeletionOlderThanSync)
                } else if size_bytes != entry.size_bytes {
                    r == DeletionVerdict::Preserve(NoopReason::LocallyModified)
                } else if entry.local_unchanged(size_bytes, modified_at) {
                    r == DeletionVerdict::Proceed
                } else {
                    r == DeletionVerdict::NeedsHash(entry)
                },
            },
            _ => r == DeletionVerdict::Proceed,
        },
{
    match local {
        LocalStat::File { size_bytes, modified_at } => match index {
            Err(error) => DeletionVerdict::Fail(
                concat("cannot read sync index: ", error.as_str()),
            ),
            Ok(None) => DeletionVerdict::Preserve(NoopReason::UnknownProvenance),
            Ok(Some(entry)) => {
                if entry.updated_at.nanos > enqueued_at.nanos {
                    DeletionVerdict::Preserve(NoopReason::DeletionOlderThanSync)
                } else if *size_bytes != entry.size_bytes {
                    DeletionVerdict::Preserve(NoopReason::LocallyModified)
                } else if entry.matches_local(*size_bytes, *modified_at) {
                    DeletionVerdict::Proceed
                } else {
                    DeletionVerdict::NeedsHash(entry)
                }
            },
        },
        _ => DeletionVerdict::Proceed,
    }
}

/// Settles a deletion that only the content hash could decide.
pub fn deletion_verdict_with_hash(index: &SyncIndexEntry, hash: Result<String, String>) -> (r:
    DeletionVerdict)
    ensures
        match hash {
            Err(error) => r matches DeletionVerdict::Fail(message) && message@
                == "cannot hash local file for conflict check: "@ + error@,
            Ok(found) => r == if found@ == index.content_hash@ {
                DeletionVerdict::Proceed
            } else {
                DeletionVerdict::Preserve(NoopReason::LocallyModified)
            },
        },
{
    match hash {
        Err(error) => DeletionVerdict::Fail(
            concat("cannot hash local file for conflict check: ", error.as_str()),
        ),
        Ok(found) => if same_text(found.as_str(), index.content_hash.as_str()) {
            DeletionVerdict::Proceed
        } else {
            DeletionVerdict::Preserve(NoopReason::LocallyModified)
        },
    }
}

/// A remote deletion goes through only for what is exactly the last sync: a
/// local file whose size and time are not the recorded ones is never removed
/// without its content hash having been compared.
pub proof fn law_unsynced_local_file_survives_remote_deletion(
    local: LocalStat,
    index: Option<SyncIndexEntry>,
    size_bytes: u64,
    modified_at: Option<SystemTime>,
    enqueued_at: SystemTime,
    r: DeletionVerdict,
)
    requires
        local == (LocalStat::File { size_bytes, modified_at }),
        call_ensures(deletion_loses_to_local_state, (&local, Ok(index), enqueued_at), r),
        r is Proceed,
    ensures
        index matches Some(entry) && entry.local_unchanged(size_bytes, modified_at)
            && entry.updated_at.nanos <= enqueued_at.nanos,
{
}

/// Whether a file under a remotely deleted directory may go.
#[derive(Debug, PartialEq, Eq)]
pub enum ChildVerdict {
    Safe,
    Keep,
    /// Only the file's content hash can tell.
    NeedsHash(SyncIndexEntry),
}

/// What the index says of a file under a remotely deleted directory.
pub open spec fn child_verdict(
    size_bytes: u64,
    modified_at: Option<SystemTime>,
    index: Option<SyncIndexEntry>,
) -> ChildVerdict {
    match index {
        None => ChildVerdict::Keep,
        Some(entry) => if size_bytes != entry.size_bytes {
            ChildVerdict::Keep
        } else if entry.local_unchanged(size_bytes, modified_at) {
            ChildVerdict::Safe
        } else {
            ChildVerdict::NeedsHash(entry)
        },
    }
}

/// Weighs a file under a remotely deleted directory: it goes only when the
/// index proves it is exactly what was last synced.
pub fn child_delete_is_safe(
    size_bytes: u64,
    modified_at: Option<SystemTime>,
    index: Option<SyncIndexEntry>,
) -> (r: ChildVerdict)
    ensures
        r == child_verdict(size_bytes, modified_at, index),
{
    match index {
        None => ChildVerdict::Keep,
        Some(entry) => {
            if size_bytes != entry.size_bytes {
                ChildVerdict::Keep
            } else if entry.matches_local(size_bytes, modified_at) {
                ChildVerdict::Safe
            } else {
                ChildVerdict::NeedsHash(entry)
            }
        },
    }
}

/// Settles a child only the content hash could decide; a failed hash keeps it.
pub fn child_is_safe_with_hash(index: &SyncIndexEntry, hash: Result<String, String>) -> (r: bool)
    ensures
        r == (hash matches Ok(found) && found@ == index.content_hash@),
{
    match hash {
        Ok(found) => same_text(found.as_str(), index.content_hash.as_str()),
        Err(_) => false,
    }
}

// ---------------------------------------------------------------------------
// What the continuations are for
// ---------------------------------------------------------------------------

/// A synced remote file is deleted exactly when it is what was last synced:
/// either it carries the op-id on record and still has the size and time on
/// record (where a time is), or its hash, its own if it has one, else the
/// fetched one, is the one on record. Anything else was changed by another
/// writer and is preserved: no deletion ever goes over it.
pub proof fn law_a_delete_needs_the_last_sync(
    plan: TransferPlan,
    index: SyncIndexEntry,
    entry: RemoteEntry,
    probe: ProbeResult,
    r: PlanStep,
)
    requires
        call_ensures(continue_plan_delete, (plan, Some(index), &probe), r),
        probe.stat == Some(Ok::<Option<RemoteEntry>, ProviderError>(Some(entry))),
        entry.kind == RemoteEntryKind::File,
    ensures
        ({
            let same_tag = entry.op_id is Some && entry.op_id->0@ == index.last_op_id@;
            let same_state = index.remote_modified_at is None || entry.size_bytes
                == index.size_bytes && index.remote_modified_at == Some(entry.modified_at);
            let same_content = if entry.content_hash is Some {
                entry.content_hash->0@ == index.content_hash@
            } else {
                probe.content_hash is Some && probe.content_hash->0 is Ok
                    && probe.content_hash->0->Ok_0@ == index.content_hash@
            };
            &&& r == PlanStep::Done(PlanOutcome::RemoteDelete(plan)) <==> same_tag && same_state
                || same_content
            &&& r == PlanStep::PreserveRemote(plan) <==> !(same_tag && same_state) && !same_content
        }),
{
}

/// Of two changes to one remote file, the one whose hash is not on record
/// decides alone: with another tag and another hash the file is preserved,
/// whatever its size and time are.
pub proof fn law_another_writers_file_is_preserved(
    plan: TransferPlan,
    index: SyncIndexEntry,
    entry: RemoteEntry,
    probe: ProbeResult,
    r: PlanStep,
)
    requires
        call_ensures(continue_plan_delete, (plan, Some(index), &probe), r),
        probe.stat == Some(Ok::<Option<RemoteEntry>, ProviderError>(Some(entry))),
        entry.kind == RemoteEntryKind::File,
        entry.op_id is None || entry.op_id->0@ != index.last_op_id@,
        entry.content_hash is Some,
        entry.content_hash->0@ != index.content_hash@,
    ensures
        r == PlanStep::PreserveRemote(plan),
{
}

/// The other answers to a delete's probe: a remote that is gone is converged
/// on, a directory is looked into, a file that was never synced has nothing to
/// be compared with and is deleted, and an unanswered probe deletes nothing.
pub proof fn law_a_delete_follows_its_probe(
    plan: TransferPlan,
    index: Option<SyncIndexEntry>,
    probe: ProbeResult,
    r: PlanStep,
)
    requires
        call_ensures(continue_plan_delete, (plan, index, &probe), r),
    ensures
        probe.stat is None || probe.stat->0 is Err <==> (r matches PlanStep::Done(outcome) && outcome
            is Fail),
        probe.stat == Some(Ok::<Option<RemoteEntry>, ProviderError>(None)) <==> r is Converged,
        r matches PlanStep::Converged { path, .. } ==> path == plan.local_path,
        (probe.stat matches Some(Ok(Some(entry))) && entry.kind == RemoteEntryKind::Directory)
            <==> r is InspectDirectory,
        r matches PlanStep::InspectDirectory(p) ==> p == plan,
        r matches PlanStep::Done(outcome) ==> outcome is Fail || outcome
            == PlanOutcome::RemoteDelete(plan),
        (probe.stat matches Some(Ok(Some(entry))) && entry.kind == RemoteEntryKind::File && index
            is None) ==> r == PlanStep::Done(PlanOutcome::RemoteDelete(plan)),
{
}

/// An upload that found its remote is guarded by the last sync where the
/// remote is the last sync, and is compared once more where it is not or
/// nothing was ever synced. A remote that is gone is created only while it
/// stays gone.
pub proof fn law_an_upload_is_guarded_by_what_was_found(
    plan: TransferPlan,
    index: Option<SyncIndexEntry>,
    probe: ProbeResult,
    r: PlanOutcome,
)
    requires
        call_ensures(continue_plan_upload, (plan, index, &probe), r),
    ensures
        r is Upload <==> probe.stat is Some && probe.stat->0 is Ok,
        r is Upload || r is Fail,
        r matches PlanOutcome::Upload(p) ==> p.local_path@ == plan.local_path@ && p.remote_path@
            == plan.remote_path@ && p.op_id@ == plan.op_id@,
        probe.stat == Some(Ok::<Option<RemoteEntry>, ProviderError>(None)) ==> (
        r matches PlanOutcome::Upload(p) && p.precondition is Absent
            && p.verify_remote_before_upload == plan.verify_remote_before_upload),
        probe.stat matches Some(Ok(Some(entry))) ==> ({
            let same_tag = index is Some && entry.op_id is Some && entry.op_id->0@ == (
            index->0).last_op_id@;
            let same_state = index is Some && ((index->0).remote_modified_at is None
                || entry.size_bytes == (index->0).size_bytes && (index->0).remote_modified_at
                == Some(entry.modified_at));
            let same_content = index is Some && if entry.content_hash is Some {
                entry.content_hash->0@ == (index->0).content_hash@
            } else {
                probe.content_hash is Some && probe.content_hash->0 is Ok
                    && probe.content_hash->0->Ok_0@ == (index->0).content_hash@
            };
            if same_tag && same_state || same_content {
                r matches PlanOutcome::Upload(p) && p.precondition is HashEquals
                    && p.precondition->HashEquals_0@ == (index->0).content_hash@
                    && p.verify_remote_before_upload == plan.verify_remote_before_upload
            } else {
                r matches PlanOutcome::Upload(p) && p.verify_remote_before_upload && (index is Some
                    ==> p.last_synced_hash is Some && p.last_synced_hash->0@ == (
                index->0).content_hash@)
            }
        }),
{
}

proof fn lemma_gone(candidates: Seq<Seq<Part>>, present: Seq<bool>)
    requires
        candidates.len() == present.len(),
    ensures
        forall|p: Seq<Part>|
            #![trigger gone_locally(candidates, present).contains(p)]
            gone_locally(candidates, present).contains(p) <==> exists|i: int|
                0 <= i < candidates.len() && #[trigger] candidates[i] == p && !present[i],
        gone_locally(candidates, present).len() <= candidates.len(),
    decreases candidates.len(),
{
    if candidates.len() > 0 {
        let c = candidates.drop_last();
        let b = present.drop_last();
        lemma_gone(c, b);
        let rest = gone_locally(c, b);
        let all = gone_locally(candidates, present);
        let n = candidates.len() - 1;
        assert forall|p: Seq<Part>| #[trigger] all.contains(p) <==> exists|i: int|
            0 <= i < candidates.len() && #[trigger] candidates[i] == p && !present[i] by {
            if all.contains(p) {
                let k = choose|k: int| 0 <= k < all.len() && all[k] == p;
                if k < rest.len() {
                    assert(rest[k] == p);
                    assert(rest.contains(p));
                    let i = choose|i: int|
                        0 <= i < c.len() && #[trigger] c[i] == p && !b[i];
                    assert(candidates[i] == p && !present[i]);
                } else {
                    assert(candidates[n] == p && !present[n]);
                }
            }
            if exists|i: int| 0 <= i < candidates.len() && #[trigger] candidates[i] == p
                && !present[i] {
                let i = choose|i: int|
                    0 <= i < candidates.len() && #[trigger] candidates[i] == p && !present[i];
                if i < n {
                    assert(c[i] == p && !b[i]);
                    assert(rest.contains(p));
                    let k = choose|k: int| 0 <= k < rest.len() && rest[k] == p;
                    assert(all[k] == p);
                } else {
                    assert(all[all.len() - 1] == p);
                }
            }
        }
    }
}

/// A directory delete queues a delete for every entry that is gone locally and
/// for no entry that still stands; the directory itself comes last, and only
/// when something below it goes.
pub proof fn law_a_directory_delete_spares_what_stands(
    directory: FsPath,
    candidates: Vec<FsPath>,
    present: Vec<bool>,
    r: Vec<FsPath>,
)
    requires
        call_ensures(expand_directory_delete, (&directory, candidates, &present), r),
        candidates@.len() == present@.len(),
    ensures
        r@.len() == 0 <==> forall|i: int| 0 <= i < present@.len() ==> #[trigger] present@[i],
        r@.len() > 0 ==> r@[r@.len() - 1]@ == directory@,
        forall|k: int|
            0 <= k < r@.len() - 1 ==> exists|i: int|
                0 <= i < candidates@.len() && #[trigger] candidates@[i]@ == (#[trigger] r@[k])@
                    && !present@[i],
        forall|i: int|
            0 <= i < candidates@.len() && !present@[i] ==> exists|k: int|
                0 <= k < r@.len() - 1 && (#[trigger] r@[k])@ == (#[trigger] candidates@[i])@,
{
    let all = path_views(candidates@);
    lemma_gone(all, present@);
    let gone = gone_locally(all, present@);
    assert(path_views(r@).len() == r@.len());
    assert(all.len() == candidates@.len());
    assert forall|i: int| 0 <= i < candidates@.len() && !present@[i] implies exists|k: int|
        0 <= k < r@.len() - 1 && (#[trigger] r@[k])@ == (#[trigger] candidates@[i])@ by {
        assert(all[i] == candidates@[i]@);
        assert(gone.contains(candidates@[i]@));
        let k = choose|k: int| 0 <= k < gone.len() && gone[k] == candidates@[i]@;
        assert(path_views(r@)[k] == gone[k]);
        assert(r@[k]@ == candidates@[i]@);
    }
    assert forall|k: int| 0 <= k < r@.len() - 1 implies exists|i: int|
        0 <= i < candidates@.len() && #[trigger] candidates@[i]@ == (#[trigger] r@[k])@
            && !present@[i] by {
        assert(path_views(r@)[k] == gone[k]);
        assert(gone.contains(gone[k]));
        let i = choose|i: int| 0 <= i < all.len() && #[trigger] all[i] == gone[k] && !present@[i];
        assert(candidates@[i]@ == r@[k]@);
    }
    if r@.len() > 0 {
        assert(path_views(r@)[r@.len() - 1] == r@[r@.len() - 1]@);
        if forall|i: int| 0 <= i < present@.len() ==> #[trigger] present@[i] {
            assert(gone.contains(gone[0]));
            let i = choose|i: int|
                0 <= i < all.len() && #[trigger] all[i] == gone[0] && !present@[i];
            assert(present@[i]);
        }
    } else {
        assert forall|i: int| 0 <= i < present@.len() implies #[trigger] present@[i] by {
            if !present@[i] {
                assert(all[i] == candidates@[i]@);
                assert(gone.contains(all[i]));
            }
        }
    }
}

/// A remote directory is deleted only when a listing showed it empty; while
/// anything below it is still queued, nothing is decided, and it is expanded
/// only when nothing is.
pub proof fn law_only_an_empty_directory_is_deleted(
    plan: TransferPlan,
    probe: ProbeResult,
    queued_below: Result<usize, String>,
    r: DirectoryStep,
)
    requires
        call_ensures(continue_plan_directory_delete, (plan, &probe, queued_below), r),
    ensures
        r == DirectoryStep::Plan(PlanStep::Done(PlanOutcome::RemoteDelete(plan))) <==> (
        probe.subtree matches Some(Ok(entries)) && entries@.len() == 0),
        r is Expand <==> (probe.subtree matches Some(Ok(entries)) && entries@.len() > 0
            && queued_below == Ok::<usize, String>(0)),
        r matches DirectoryStep::Expand { plan: p, .. } ==> p == plan,
        (probe.subtree matches Some(Err(error)) && error.kind == ProviderErrorKind::NotFound)
            <==> (r matches DirectoryStep::Plan(step) && step is Converged),
        r matches DirectoryStep::Plan(PlanStep::Converged { path, .. }) ==> path == plan.local_path,
        (probe.subtree matches Some(Ok(entries)) && entries@.len() > 0 && queued_below
            != Ok::<usize, String>(0)) ==> (r matches DirectoryStep::Plan(
            PlanStep::Done(PlanOutcome::Fail { failure, .. }),
        ) && failure is Transient),
{
}

/// A synced local file is renamed for a cloud-side rename only when it stands
/// at another path and still has the size and time of the last sync; the first
/// such row is taken, and none only when there is none.
pub proof fn law_only_an_unchanged_file_moves_along(
    target: FsPath,
    rows: Vec<(SyncIndexEntry, LocalStat)>,
    r: Option<SyncIndexEntry>,
)
    requires
        call_ensures(local_move_candidate, (&target, rows), r),
    ensures
        r matches Some(row) ==> exists|i: int|
            0 <= i < rows@.len() && (#[trigger] rows@[i]).0 == row && row.path@ != target@
                && rows@[i].1 is File && rows@[i].1->size_bytes == row.size_bytes
                && row.local_modified_at is Some && rows@[i].1->modified_at
                == row.local_modified_at,
        r is None ==> forall|i: int|
            0 <= i < rows@.len() && (#[trigger] rows@[i]).0.path@ != target@ && rows@[i].1 is File
                ==> rows@[i].1->size_bytes != rows@[i].0.size_bytes
                || rows@[i].0.local_modified_at is None || rows@[i].1->modified_at
                != rows@[i].0.local_modified_at,
{
    if let Some(row) = r {
        let i = choose|i: int| #[trigger] is_first_source(rows@, target@, i) && rows@[i].0 == row;
        assert(rows@[i].0 == row);
    } else {
        assert forall|i: int|
            0 <= i < rows@.len() && (#[trigger] rows@[i]).0.path@ != target@ && rows@[i].1
                is File implies rows@[i].1->size_bytes != rows@[i].0.size_bytes
            || rows@[i].0.local_modified_at is None || rows@[i].1->modified_at
            != rows@[i].0.local_modified_at by {
            assert(!can_be_move_source(rows@[i].0, rows@[i].1, target@));
        }
    }
}

/// A download becomes a local rename only when the remote content is the
/// candidate's, by the hash the entry reports or, failing that, by the hash
/// that was fetched to tell; otherwise the content is fetched.
pub proof fn law_a_rename_is_confirmed_by_content(
    plan: TransferPlan,
    entry: RemoteEntry,
    candidate: SyncIndexEntry,
    probe: ProbeResult,
    first: PlanStep,
    second: PlanStep,
)
    requires
        call_ensures(plan_move, (plan, &entry, candidate), first),
        call_ensures(continue_download_move_check, (plan, candidate, &probe), second),
    ensures
        first is MoveLocally <==> entry.content_hash is Some && entry.content_hash->0@
            == candidate.content_hash@,
        first matches PlanStep::MoveLocally { plan: p, source, remote_modified_at } ==> p == plan
            && source == candidate && remote_modified_at == entry.modified_at,
        first !is MoveLocally ==> (first matches PlanStep::Done(
            PlanOutcome::Probe { request, pending },
        ) && request.hash is Always && request.remote_path@ == plan.remote_path@ && pending
            == (PendingPlan::DownloadMoveCheck { plan, candidate })),
        second is MoveLocally <==> probe.stat is Some && probe.stat->0 is Ok
            && probe.stat->0->Ok_0 is Some && probe.content_hash is Some && probe.content_hash->0
            is Ok && probe.content_hash->0->Ok_0@ == candidate.content_hash@,
        second matches PlanStep::MoveLocally { source, .. } ==> source == candidate,
        second !is MoveLocally ==> (second matches PlanStep::Done(PlanOutcome::Download(p))
            && p.local_path@ == plan.local_path@ && p.remote_path@ == plan.remote_path@),
{
}

/// A download looks for a rename only in two-way mode, where the object was
/// found and nothing stands at the target; it always notes the writer.
pub proof fn law_a_rename_is_sought_only_for_a_new_file(
    mode: SyncMode,
    plan: TransferPlan,
    probe: ProbeResult,
    local: LocalStat,
    r: PlanStep,
)
    requires
        call_ensures(continue_plan_download, (mode, plan, &probe, &local), r),
    ensures
        r is SeekMoveSource <==> mode == SyncMode::TwoWay && (probe.stat matches Some(Ok(Some(_))))
            && (local is Missing || local is Unreadable),
        r is SeekMoveSource || (r matches PlanStep::Done(PlanOutcome::Download(_))),
        r matches PlanStep::Done(PlanOutcome::Download(p)) ==> p.local_path@ == plan.local_path@
            && p.remote_path@ == plan.remote_path@ && (probe.stat matches Some(Ok(Some(entry)))
            ==> (p.remote_op_id is Some <==> entry.op_id is Some) && (entry.op_id is Some
            ==> p.remote_op_id->0@ == entry.op_id->0@)),
{
}

/// A remote deletion is stale as soon as the object is found again; otherwise
/// the local file is weighed first.
pub proof fn law_a_recreated_object_is_not_deleted(probe: ProbeResult, r: PlanStep)
    requires
        call_ensures(continue_apply_remote_delete, (&probe,), r),
    ensures
        (probe.stat matches Some(Ok(Some(_)))) <==> r == PlanStep::Done(
            PlanOutcome::Noop(NoopReason::RemoteRecreated),
        ),
        r is GuardLocalDeletion || r is Done,
{
}

/// A remote deletion removes a local file unseen only when the file was synced
/// before the deletion was seen and has kept size and time since; a file that
/// was never synced, was synced later, or has another size stays; one of the
/// same size is hashed.
pub proof fn law_a_remote_deletion_spares_local_changes(
    local: LocalStat,
    index: Option<SyncIndexEntry>,
    enqueued_at: SystemTime,
    r: DeletionVerdict,
)
    requires
        call_ensures(deletion_loses_to_local_state, (&local, Ok(index), enqueued_at), r),
    ensures
        local is File ==> (r is Proceed <==> index is Some && (index->0).updated_at.nanos
            <= enqueued_at.nanos && (index->0).size_bytes == local->size_bytes && (
        index->0).local_modified_at is Some && (index->0).local_modified_at == local->modified_at),
        local is File ==> (r is Preserve <==> index is None || (index->0).updated_at.nanos
            > enqueued_at.nanos || (index->0).size_bytes != local->size_bytes),
        r matches DeletionVerdict::NeedsHash(row) ==> index == Some(row),
        r !is Fail,
        local !is File ==> r is Proceed,
{
}

/// A file that had to be hashed goes exactly when its hash is the last synced
/// one; a hash that could not be had removes nothing.
pub proof fn law_a_hashed_file_goes_only_as_synced(
    index: SyncIndexEntry,
    hash: Result<String, String>,
    file: DeletionVerdict,
    child: bool,
)
    requires
        call_ensures(deletion_verdict_with_hash, (&index, hash), file),
        call_ensures(child_is_safe_with_hash, (&index, hash), child),
    ensures
        file is Proceed <==> hash is Ok && hash->Ok_0@ == index.content_hash@,
        file is Preserve <==> hash is Ok && hash->Ok_0@ != index.content_hash@,
        file is Fail <==> hash is Err,
        child <==> hash is Ok && hash->Ok_0@ == index.content_hash@,
{
}

proof fn lemma_max_depth(entries: Seq<RemoteEntry>, i: int)
    requires
        0 <= i < entries.len(),
    ensures
        depth(entries[i]) <= max_depth(entries),
    decreases entries.len(),
{
    if i < entries.len() - 1 {
        assert(entries.drop_last()[i] == entries[i]);
        lemma_max_depth(entries.drop_last(), i);
    }
}

proof fn lemma_deepest_first(entries: Seq<RemoteEntry>, d: nat)
    ensures
        forall|e: RemoteEntry|
            #[trigger] deepest_first(entries, d).contains(e) <==> entries.contains(e) && depth(e)
                <= d,
        forall|i: int, j: int|
            0 <= i < j < deepest_first(entries, d).len() ==> depth(
                #[trigger] deepest_first(entries, d)[i],
            ) >= depth(#[trigger] deepest_first(entries, d)[j]),
        forall|i: int|
            0 <= i < deepest_first(entries, d).len() ==> depth(
                #[trigger] deepest_first(entries, d)[i],
            ) <= d,
    decreases d,
{
    let here = at_depth(entries, d);
    let keep = |e: RemoteEntry| depth(e) == d;
    assert(here == entries.filter(keep));
    assert forall|e: RemoteEntry| #[trigger] here.contains(e) <==> entries.contains(e) && depth(e)
        == d by {
        if here.contains(e) {
            let k = here.index_of(e);
            entries.lemma_filter_pred(keep, k);
            entries.lemma_filter_contains_rev(keep, e);
        }
        if entries.contains(e) && depth(e) == d {
            let k = entries.index_of(e);
            entries.lemma_filter_contains(keep, k);
        }
    }
    assert forall|k: int| 0 <= k < here.len() implies depth(#[trigger] here[k]) == d by {
        assert(here.contains(here[k]));
    }
    let all = deepest_first(entries, d);
    if d > 0 {
        let rest = deepest_first(entries, (d - 1) as nat);
        lemma_deepest_first(entries, (d - 1) as nat);
        assert(all == here + rest);
        assert forall|e: RemoteEntry| #[trigger] all.contains(e) <==> entries.contains(e)
            && depth(e) <= d by {
            if all.contains(e) {
                let k = all.index_of(e);
                if k < here.len() {
                    assert(here[k] == e);
                    assert(here.contains(e));
                } else {
                    assert(rest[k - here.len()] == e);
                    assert(rest.contains(e));
                }
            }
            if entries.contains(e) && depth(e) <= d {
                if depth(e) == d {
                    assert(here.contains(e));
                    let k = here.index_of(e);
                    assert(all[k] == e);
                } else {
                    assert(rest.contains(e));
                    let k = rest.index_of(e);
                    assert(all[k + here.len()] == e);
                }
            }
        }
        assert forall|i: int| 0 <= i < all.len() implies depth(#[trigger] all[i]) <= d by {
            if i < here.len() {
                assert(all[i] == here[i]);
            } else {
                assert(all[i] == rest[i - here.len()]);
            }
        }
        assert forall|i: int, j: int| 0 <= i < j < all.len() implies depth(#[trigger] all[i])
            >= depth(#[trigger] all[j]) by {
            if i >= here.len() {
                assert(all[i] == rest[i - here.len()]);
                assert(all[j] == rest[j - here.len()]);
            } else {
                assert(all[i] == here[i]);
            }
        }
    }
}

proof fn lemma_counterparts(remote: Seq<char>, local: Seq<Part>, entries: Seq<RemoteEntry>)
    ensures
        forall|i: int|
            0 <= i < entries.len() && counterpart(remote, local, (#[trigger] entries[i]).path@)
                is Some ==> counterparts(remote, local, entries).contains(
                counterpart(remote, local, entries[i].path@)->0,
            ),
        forall|k: int|
            0 <= k < counterparts(remote, local, entries).len() ==> is_counterpart_of_one(
                remote,
                local,
                entries,
                #[trigger] counterparts(remote, local, entries)[k],
            ),
    decreases entries.len(),
{
    if entries.len() > 0 {
        let front = entries.drop_last();
        lemma_counterparts(remote, local, front);
        let rest = counterparts(remote, local, front);
        let all = counterparts(remote, local, entries);
        assert forall|i: int|
            0 <= i < entries.len() && counterpart(remote, local, (#[trigger] entries[i]).path@)
                is Some implies all.contains(counterpart(remote, local, entries[i].path@)->0) by {
            let x = counterpart(remote, local, entries[i].path@)->0;
            if i < front.len() {
                assert(front[i] == entries[i]);
                let k = rest.index_of(x);
                assert(all[k] == x);
            } else {
                assert(all[all.len() - 1] == x);
            }
        }
        assert forall|k: int| 0 <= k < all.len() implies is_counterpart_of_one(
            remote,
            local,
            entries,
            #[trigger] all[k],
        ) by {
            if k < rest.len() {
                assert(all[k] == rest[k]);
                assert(is_counterpart_of_one(remote, local, front, rest[k]));
                let i = choose|i: int|
                    0 <= i < front.len() && counterpart(remote, local, (#[trigger] front[i]).path@)
                        == Some(rest[k]);
                assert(entries[i] == front[i]);
            } else {
                assert(counterpart(remote, local, entries[entries.len() - 1].path@) == Some(
                    all[k],
                ));
            }
        }
    }
}

/// A local path that one of the entries stands for.
pub open spec fn is_counterpart_of_one(
    remote: Seq<char>,
    local: Seq<Part>,
    entries: Seq<RemoteEntry>,
    path: Seq<Part>,
) -> bool {
    exists|i: int|
        0 <= i < entries.len() && counterpart(remote, local, (#[trigger] entries[i]).path@) == Some(
            path,
        )
}

/// Every entry below a remote directory has its place below the local one, at
/// the same relative path, and nothing else is looked at: neither the
/// directory itself nor what does not begin with its path.
pub proof fn law_a_listing_is_mirrored_below_its_directory(
    remote: &str,
    local: FsPath,
    entries: Vec<RemoteEntry>,
    r: Vec<FsPath>,
)
    requires
        call_ensures(local_counterparts, (remote, &local, &entries), r),
    ensures
        forall|i: int, rest: Seq<char>|
            0 <= i < entries@.len() && (#[trigger] entries@[i]).path@ == (#[trigger] below(
                remote@,
                rest,
            )) && rest.len() > 0 && rest[0] != '/' ==> path_views(r@).contains(
                joined(local@, path_parts(PathStyle::Unix, rest)),
            ),
        r@.len() > 0 ==> exists|i: int|
            0 <= i < entries@.len() && (#[trigger] entries@[i]).path@.len() > remote@.len()
                && entries@[i].path@.take(remote@.len() as int) == remote@,
        forall|k: int|
            0 <= k < r@.len() ==> is_counterpart_of_one(
                remote@,
                local@,
                entries@,
                (#[trigger] r@[k])@,
            ),
        exists|order: Seq<RemoteEntry>|
            {
                &&& path_views(r@) == #[trigger] counterparts(remote@, local@, order)
                &&& forall|i: int, j: int|
                    0 <= i < j < order.len() ==> slashes((#[trigger] order[i]).path@) >= slashes(
                        (#[trigger] order[j]).path@,
                    )
                &&& forall|e: RemoteEntry|
                    #[trigger] order.contains(e) <==> entries@.contains(e)
            },
{
    let d = max_depth(entries@);
    let order = deepest_first(entries@, d);
    lemma_deepest_first(entries@, d);
    lemma_counterparts(remote@, local@, order);
    assert forall|e: RemoteEntry| #[trigger] order.contains(e) <==> entries@.contains(e) by {
        if entries@.contains(e) {
            let i = entries@.index_of(e);
            lemma_max_depth(entries@, i);
        }
    }
    assert(path_views(r@) == counterparts(remote@, local@, order));
    assert(path_views(r@).len() == r@.len());
    assert forall|i: int, rest: Seq<char>|
        0 <= i < entries@.len() && (#[trigger] entries@[i]).path@ == (#[trigger] below(
            remote@,
            rest,
        )) && rest.len() > 0 && rest[0] != '/' implies path_views(r@).contains(
        joined(local@, path_parts(PathStyle::Unix, rest)),
    ) by {
        let e = entries@[i];
        assert(order.contains(e));
        let k = order.index_of(e);
        assert(order[k] == e);
        assert(e.path@.take(remote@.len() as int) =~= remote@);
        let tail = e.path@.skip(remote@.len() as int);
        assert(tail[0] == '/');
        assert(tail.skip(1) =~= rest);
        reveal_with_fuel(without_leading_slashes, 2);
        assert(without_leading_slashes(tail) == rest);
        assert(counterpart(remote@, local@, order[k].path@) is Some);
    }
    assert forall|k: int| 0 <= k < r@.len() implies is_counterpart_of_one(
        remote@,
        local@,
        entries@,
        (#[trigger] r@[k])@,
    ) by {
        assert(path_views(r@)[k] == r@[k]@);
        assert(is_counterpart_of_one(remote@, local@, order, counterparts(remote@, local@, order)[k]));
        let i = choose|i: int|
            0 <= i < order.len() && counterpart(remote@, local@, (#[trigger] order[i]).path@)
                == Some(r@[k]@);
        assert(order.contains(order[i]));
        let n = entries@.index_of(order[i]);
        assert(entries@[n] == order[i]);
    }
    if r@.len() > 0 {
        assert(is_counterpart_of_one(remote@, local@, entries@, r@[0]@));
        let i = choose|i: int|
            0 <= i < entries@.len() && counterpart(remote@, local@, (#[trigger] entries@[i]).path@)
                == Some(r@[0]@);
        let tail = entries@[i].path@.skip(remote@.len() as int);
        if tail.len() == 0 {
            assert(without_leading_slashes(tail).len() == 0);
        }
        assert(entries@[i].path@.len() > remote@.len());
    }
}

/// A remote path `rest` below the directory `remote`.
pub open spec fn below(remote: Seq<char>, rest: Seq<char>) -> Seq<char> {
    remote.push('/') + rest
}

/// A directory whose deletion came to nothing is kept; one whose parts are
/// deleted instead is done with once they are queued, and not before.
pub proof fn law_an_expansion_counts_once_queued(
    batch: usize,
    queued: Result<(), String>,
    r: PlanOutcome,
)
    requires
        call_ensures(after_expansion_queued, (batch, queued), r),
    ensures
        batch == 0 ==> r == PlanOutcome::Noop(NoopReason::RemoteDirectoryKept),
        batch > 0 && queued is Ok ==> r == PlanOutcome::Noop(NoopReason::DirectoryDeleteExpanded),
        batch > 0 && queued is Err ==> r is Fail && r->Fail_failure is Transient,
{
}

/// A child may go without a look inside only if it is the file that was
/// synced, by its size and its time; one of another size or never synced
/// stays.
pub proof fn law_only_an_untouched_child_goes_unread(
    size: u64,
    time: Option<SystemTime>,
    index: Option<SyncIndexEntry>,
    r: ChildVerdict,
)
    requires
        call_ensures(child_delete_is_safe, (size, time, index), r),
    ensures
        r is Safe <==> index is Some && index->0.size_bytes == size && time is Some
            && index->0.local_modified_at == time,
        index is None || index->0.size_bytes != size ==> r is Keep,
        r is Keep ==> index is None || index->0.size_bytes != size,
        r matches ChildVerdict::NeedsHash(entry) ==> index == Some(entry),
{
}

/// A deletion that has nothing left to delete is recorded as such, and one
/// that could not be looked at is tried again or given up as the error says.
pub proof fn law_an_absent_remote_converges(
    plan: TransferPlan,
    index: Option<SyncIndexEntry>,
    probe: ProbeResult,
    queued: Result<usize, String>,
    r: PlanStep,
    d: DirectoryStep,
)
    requires
        call_ensures(continue_plan_delete, (plan, index, &probe), r),
        call_ensures(continue_plan_directory_delete, (plan, &probe, queued), d),
    ensures
        probe.stat matches Some(Ok(None)) ==> r == (PlanStep::Converged {
            path: plan.local_path,
            reason: NoopReason::RemoteAbsent,
        }),
        probe.stat matches Some(Err(error)) ==> (r matches PlanStep::Done(outcome) && outcome is Fail
            && outcome->Fail_failure == error.retry),
        probe.stat is None ==> (r matches PlanStep::Done(outcome) && outcome is Fail
            && outcome->Fail_failure is Transient),
        probe.subtree matches Some(Err(error)) ==> (error.kind is NotFound ==> d
            == DirectoryStep::Plan(
            PlanStep::Converged {
                path: plan.local_path,
                reason: NoopReason::RemoteDirectoryAbsent,
            },
        )),
        probe.subtree matches Some(Err(error)) ==> (error.kind !is NotFound ==> (d
            matches DirectoryStep::Plan(PlanStep::Done(outcome)) && outcome is Fail
            && outcome->Fail_failure == error.retry)),
        probe.subtree is None ==> (d matches DirectoryStep::Plan(PlanStep::Done(outcome)) && outcome
            is Fail && outcome->Fail_failure is Transient),
        probe.subtree matches Some(Ok(entries)) ==> (entries@.len() == 0 ==> d
            == DirectoryStep::Plan(PlanStep::Done(PlanOutcome::RemoteDelete(plan)))),
        probe.subtree matches Some(Ok(entries)) ==> (entries@.len() > 0 && !(queued matches Ok(n)
            && n == 0) ==> (d matches DirectoryStep::Plan(PlanStep::Done(outcome)) && outcome is Fail
            && outcome->Fail_failure is Transient)),
        probe.subtree matches Some(Ok(entries)) ==> (entries@.len() > 0 && (queued matches Ok(n)
            && n == 0) ==> d is Expand && d->Expand_plan == plan),
{
}

/// A local file that stays says why: it was never synced, it was synced again
/// after the deletion, or it was changed.
pub proof fn law_a_spared_file_says_why(
    size: u64,
    time: Option<SystemTime>,
    entry: SyncIndexEntry,
    queued: SystemTime,
    hash: String,
    unknown: DeletionVerdict,
    r: DeletionVerdict,
    h: DeletionVerdict,
)
    requires
        call_ensures(
            deletion_loses_to_local_state,
            (&LocalStat::File { size_bytes: size, modified_at: time }, Ok(None), queued),
            unknown,
        ),
        call_ensures(
            deletion_loses_to_local_state,
            (&LocalStat::File { size_bytes: size, modified_at: time }, Ok(Some(entry)), queued),
            r,
        ),
        call_ensures(deletion_verdict_with_hash, (&entry, Ok(hash)), h),
    ensures
        unknown == DeletionVerdict::Preserve(NoopReason::UnknownProvenance),
        entry.updated_at.nanos > queued.nanos <==> r == DeletionVerdict::Preserve(
            NoopReason::DeletionOlderThanSync,
        ),
        entry.updated_at.nanos <= queued.nanos ==> (entry.size_bytes != size <==> r
            == DeletionVerdict::Preserve(NoopReason::LocallyModified)),
        hash@ == entry.content_hash@ <==> h is Proceed,
        hash@ != entry.content_hash@ ==> h == DeletionVerdict::Preserve(
            NoopReason::LocallyModified,
        ),
{
}

/// Of several local files a download may be the move of, the first one listed
/// is taken, and none only if none is unchanged at another path.
pub proof fn law_the_first_unchanged_file_is_the_source(
    target: FsPath,
    rows: Vec<(SyncIndexEntry, LocalStat)>,
    i: int,
    r: Option<SyncIndexEntry>,
)
    requires
        call_ensures(local_move_candidate, (&target, rows), r),
        0 <= i < rows@.len(),
        rows@[i].0.path@ != target@,
        rows@[i].1 is File,
        rows@[i].1->size_bytes == rows@[i].0.size_bytes,
        rows@[i].0.local_modified_at is Some,
        rows@[i].1->modified_at == rows@[i].0.local_modified_at,
    ensures
        r is Some,
        r->0.path@ != target@,
        i == 0 ==> r == Some(rows@[0].0),
        exists|k: int| 0 <= k <= i && (#[trigger] rows@[k]).0 == r->0,
{
    assert(can_be_move_source(rows@[i].0, rows@[i].1, target@));
    if let Some(entry) = r {
        let k = choose|k: int|
            #[trigger] is_first_source(rows@, target@, k) && rows@[k].0 == entry;
        if k > i {
            assert(!can_be_move_source(rows@[i].0, rows@[i].1, target@));
        }
        assert(rows@[k].0 == entry);
    }
}

} // verus!
