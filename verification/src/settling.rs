//! From a planning step to its outcome: what the work a step asked for comes
//! to once it was done.
use vstd::prelude::*;

use crate::continuations::DeletionVerdict;
use crate::effects::{effect_views, local_move_effects, record_delete_tombstone, record_local_move,
    tombstone_effects, Effect, EffectView, FileState, TombstoneOrigin};
use crate::clock::SystemTime;
use crate::paths::FsPath;
use crate::planner::{is_failure, NoopReason, PlanOutcome, TransferPlan};
use crate::records::{LocalStat, RetryFailureKind, SyncIndexEntry};
use crate::routes::GuardAnswer;
use crate::text::concat;

verus! {

/// A deletion that found nothing left to delete: recorded all the same.
pub fn settle_converged(path: &FsPath, reason: NoopReason) -> (r: (PlanOutcome, Vec<Effect>))
    ensures
        r.0 == PlanOutcome::Noop(reason),
        effect_views(r.1@) == tombstone_effects(path@, TombstoneOrigin::Local),
{
    (PlanOutcome::Noop(reason), record_delete_tombstone(path, TombstoneOrigin::Local))
}

/// What a refused delete comes to once the download of the newer remote
/// content is queued: the stale index row goes.
pub fn after_preservation_queued(path: &FsPath, queued: Result<(), String>) -> (r: (
    PlanOutcome,
    Vec<Effect>,
))
    ensures
        match queued {
            Ok(_) => r.0 == PlanOutcome::Noop(NoopReason::RemoteModified) && effect_views(r.1@)
                == seq![EffectView::RemoveSyncIndex { path: path@ }],
            Err(error) => is_failure(
                r.0,
                RetryFailureKind::Transient,
                "cannot enqueue delete-preservation download: "@ + error@,
            ) && r.1@.len() == 0,
        },
{
    match queued {
        Ok(_) => {
            let mut effects: Vec<Effect> = Vec::new();
            effects.push(Effect::RemoveSyncIndex { path: path.clone() });
            assert(effect_views(effects@) =~= seq![EffectView::RemoveSyncIndex { path: path@ }]);
            (PlanOutcome::Noop(NoopReason::RemoteModified), effects)
        },
        Err(error) => (
            PlanOutcome::Fail {
                failure: RetryFailureKind::Transient,
                message: concat("cannot enqueue delete-preservation download: ", error.as_str()),
            },
            Vec::new(),
        ),
    }
}

/// What renaming the synced file into the download's place comes to; a rename
/// that failed falls back to the download. `current` is what stands at the
/// target afterwards.
pub fn apply_local_move(
    plan: TransferPlan,
    source: &SyncIndexEntry,
    remote_modified_at: SystemTime,
    renamed: bool,
    current: FileState,
) -> (r: (PlanOutcome, Vec<Effect>))
    ensures
        if renamed {
            r.0 == PlanOutcome::MovedLocally && effect_views(r.1@) == local_move_effects(
                plan@,
                *source,
                remote_modified_at,
                current,
            )
        } else {
            r.0 == PlanOutcome::Download(plan) && r.1@.len() == 0
        },
{
    if renamed {
        let effects = record_local_move(&plan, source, remote_modified_at, current);
        (PlanOutcome::MovedLocally, effects)
    } else {
        (PlanOutcome::Download(plan), Vec::new())
    }
}

// ---------------------------------------------------------------------------
// Remote deletions
// ---------------------------------------------------------------------------

/// Where a weighed remote deletion goes on.
#[derive(Debug, PartialEq, Eq)]
pub enum DeletionStep {
    Done(PlanOutcome),
    /// Hash the local file and weigh again.
    HashFile(SyncIndexEntry),
    /// Ask the deletion guard.
    AskGuard,
    /// Remove what stands at the path.
    Remove,
}

/// Goes on with a remote deletion that was weighed against the local state.
/// Where nothing stands there is nothing for the guard to count.
pub fn weighed_deletion(verdict: DeletionVerdict, local: &LocalStat) -> (r: DeletionStep)
    ensures
        match verdict {
            DeletionVerdict::Preserve(reason) => r == DeletionStep::Done(PlanOutcome::Noop(reason)),
            DeletionVerdict::Fail(message) => r matches DeletionStep::Done(o) && is_failure(
                o,
                RetryFailureKind::Transient,
                message@,
            ),
            DeletionVerdict::NeedsHash(index) => r == DeletionStep::HashFile(index),
            DeletionVerdict::Proceed => r == if local.is_present() {
                DeletionStep::AskGuard
            } else {
                DeletionStep::Remove
            },
        },
{
    match verdict {
        DeletionVerdict::Preserve(reason) => DeletionStep::Done(PlanOutcome::Noop(reason)),
        DeletionVerdict::Fail(message) => DeletionStep::Done(
            PlanOutcome::Fail { failure: RetryFailureKind::Transient, message },
        ),
        DeletionVerdict::NeedsHash(index) => DeletionStep::HashFile(index),
        DeletionVerdict::Proceed => if local.present() {
            DeletionStep::AskGuard
        } else {
            DeletionStep::Remove
        },
    }
}

/// Goes on with a remote deletion the guard was asked about.
pub fn guarded_deletion(answer: Result<GuardAnswer, String>) -> (r: DeletionStep)
    ensures
        match answer {
            Ok(GuardAnswer::Pass) => r == DeletionStep::Remove,
            Ok(GuardAnswer::Held { opened }) => {
                &&& r matches DeletionStep::Done(PlanOutcome::Held { held, decisions_opened })
                &&& held == 1
                &&& decisions_opened@ == match opened {
                    Some(id) => seq![id],
                    None => Seq::<i64>::empty(),
                }
            },
            Err(error) => r matches DeletionStep::Done(o) && is_failure(
                o,
                RetryFailureKind::Transient,
                "cannot consult the deletion guard: "@ + error@,
            ),
        },
{
    match answer {
        Ok(GuardAnswer::Pass) => DeletionStep::Remove,
        Ok(GuardAnswer::Held { opened }) => {
            let mut decisions_opened: Vec<i64> = Vec::new();
            if let Some(id) = opened {
                decisions_opened.push(id);
            }
            assert(decisions_opened@ =~= match opened {
                Some(id) => seq![id],
                None => Seq::<i64>::empty(),
            });
            DeletionStep::Done(PlanOutcome::Held { held: 1, decisions_opened })
        },
        Err(error) => DeletionStep::Done(
            PlanOutcome::Fail {
                failure: RetryFailureKind::Transient,
                message: concat("cannot consult the deletion guard: ", error.as_str()),
            },
        ),
    }
}

/// What a remote deletion leaves on record: a removal that was carried out.
pub fn record_remote_deletion(path: &FsPath, outcome: &PlanOutcome) -> (r: Vec<Effect>)
    ensures
        if *outcome is AppliedLocally {
            effect_views(r@) == tombstone_effects(path@, TombstoneOrigin::Remote)
        } else {
            r@.len() == 0
        },
{
    if matches!(outcome, PlanOutcome::AppliedLocally) {
        record_delete_tombstone(path, TombstoneOrigin::Remote)
    } else {
        Vec::new()
    }
}

/// A local file goes because its remote counterpart went only if nothing kept
/// it, its content was compared where it had to be, and the guard let it pass.
pub proof fn law_a_file_goes_only_past_the_guard(
    verdict: DeletionVerdict,
    local: LocalStat,
    answer: Result<GuardAnswer, String>,
    first: DeletionStep,
    second: DeletionStep,
)
    requires
        call_ensures(weighed_deletion, (verdict, &local), first),
        call_ensures(guarded_deletion, (answer,), second),
    ensures
        verdict is Preserve ==> first is Done && first->Done_0 is Noop,
        verdict is Fail ==> first is Done && first->Done_0 is Fail,
        verdict is NeedsHash ==> first is HashFile,
        verdict matches DeletionVerdict::NeedsHash(index) ==> first == DeletionStep::HashFile(
            index,
        ),
        verdict is Proceed && local.is_present() ==> first is AskGuard,
        first is Remove ==> verdict is Proceed && !local.is_present(),
        second is Remove <==> answer is Ok && answer->Ok_0 is Pass,
        answer is Err ==> second is Done && second->Done_0 is Fail,
        answer matches Ok(GuardAnswer::Held { opened }) ==> second is Done && second->Done_0
            is Held,
        !(second is AskGuard) && !(second is HashFile),
{
}

/// A tombstone is left exactly for what was removed, so that nothing that
/// stayed counts as gone.
pub proof fn law_only_a_removal_leaves_a_tombstone(
    path: FsPath,
    outcome: PlanOutcome,
    r: Vec<Effect>,
)
    requires
        call_ensures(record_remote_deletion, (&path, &outcome), r),
    ensures
        outcome is AppliedLocally ==> effect_views(r@).contains(
            EffectView::RecordTombstone { path: path@, origin: TombstoneOrigin::Remote },
        ) && effect_views(r@).contains(EffectView::RemoveSyncIndex { path: path@ }),
        !(outcome is AppliedLocally) ==> r@.len() == 0,
{
    if outcome is AppliedLocally {
        let e = effect_views(r@);
        assert(e[0] == EffectView::RemoveSyncIndex { path: path@ });
        assert(e[1] == (EffectView::RecordTombstone {
            path: path@,
            origin: TombstoneOrigin::Remote,
        }));
    }
}

/// What was deleted on both sides is on record as deleted here; what another
/// writer changed meanwhile is fetched again, and forgotten only once that is
/// certain.
pub proof fn law_a_deletion_is_recorded_or_taken_back(
    path: FsPath,
    reason: NoopReason,
    queued: Result<(), String>,
    settled: (PlanOutcome, Vec<Effect>),
    kept: (PlanOutcome, Vec<Effect>),
)
    requires
        call_ensures(settle_converged, (&path, reason), settled),
        call_ensures(after_preservation_queued, (&path, queued), kept),
    ensures
        settled.0 == PlanOutcome::Noop(reason),
        effect_views(settled.1@).contains(
            EffectView::RecordTombstone { path: path@, origin: TombstoneOrigin::Local },
        ),
        effect_views(settled.1@).contains(EffectView::RemoveSyncIndex { path: path@ }),
        queued is Ok ==> kept.0 is Noop && effect_views(kept.1@) =~= seq![
            EffectView::RemoveSyncIndex { path: path@ },
        ],
        queued is Err ==> kept.0 is Fail && kept.1@.len() == 0,
{
    let e = effect_views(settled.1@);
    assert(e[0] == EffectView::RemoveSyncIndex { path: path@ });
    assert(e[1] == (EffectView::RecordTombstone { path: path@, origin: TombstoneOrigin::Local }));
}

/// A rename stands in for the download only when it was carried out: the old
/// place is on record as deleted then, and the new one has the content of the
/// old. Otherwise the download goes ahead, with nothing on record.
pub proof fn law_a_rename_stands_in_only_when_done(
    plan: TransferPlan,
    source: SyncIndexEntry,
    modified: SystemTime,
    renamed: bool,
    current: FileState,
    r: (PlanOutcome, Vec<Effect>),
)
    requires
        call_ensures(apply_local_move, (plan, &source, modified, renamed, current), r),
    ensures
        !renamed ==> r.0 == PlanOutcome::Download(plan) && r.1@.len() == 0,
        renamed ==> r.0 is MovedLocally,
        renamed ==> effect_views(r.1@).contains(
            EffectView::RecordTombstone { path: source.path@, origin: TombstoneOrigin::Remote },
        ),
        renamed ==> exists|i: int|
            0 <= i < effect_views(r.1@).len() && (#[trigger] effect_views(r.1@)[i] matches
                EffectView::SetSyncIndex { path, content_hash, size_bytes, .. } && path
                == plan@.local_path && content_hash == source.content_hash@ && size_bytes
                == source.size_bytes),
{
    if renamed {
        let e = effect_views(r.1@);
        let n = e.len() as int;
        assert(e[n - 2] == (EffectView::RecordTombstone {
            path: source.path@,
            origin: TombstoneOrigin::Remote,
        }));
        assert(e[4] is SetSyncIndex);
    }
}

} // verus!
