//! Safeguards of destructive or wasteful work: the question asked when a
//! burst of deletions is held, and the search for the other half of a rename.
use vstd::prelude::*;

use crate::event_intents::PendingIntentKind;
use crate::paths::{FsPath, Part};
use crate::planner::TransferPlan;
use crate::records::{DurableIntentRecord, LocalStat, RemotePrecondition, SyncIndexEntry};
use crate::text::{concat, decimal, decimal_text};
use vstd::string::StringExecFns;

verus! {

/// Kind under which a held burst of deletions is decided.
pub const MASS_DELETION_DECISION_KIND: &'static str = "mass-deletion";

/// Paths listed as evidence of a held burst.
pub const MASS_DELETION_EVIDENCE_PATHS: usize = 50;

/// Key of the choice to apply a held burst.
pub const APPLY_OPTION_KEY: &'static str = "apply";

/// Key of the choice to discard a held burst.
pub const DISCARD_OPTION_KEY: &'static str = "discard";

/// Which way a deletion travels.
#[derive(Clone, Copy, Debug, PartialEq, Eq, Structural)]
pub enum DeletionDirection {
    LocalToCloud,
    CloudToLocal,
}

pub open spec fn direction_label(direction: DeletionDirection) -> Seq<char> {
    match direction {
        DeletionDirection::LocalToCloud => "local-to-cloud"@,
        DeletionDirection::CloudToLocal => "cloud-to-local"@,
    }
}

pub open spec fn direction_origin(direction: DeletionDirection) -> Seq<char> {
    match direction {
        DeletionDirection::LocalToCloud => "this device"@,
        DeletionDirection::CloudToLocal => "the cloud"@,
    }
}

pub open spec fn direction_target(direction: DeletionDirection) -> Seq<char> {
    match direction {
        DeletionDirection::LocalToCloud => "the cloud"@,
        DeletionDirection::CloudToLocal => "this device"@,
    }
}

impl DeletionDirection {
    /// The direction in a word.
    pub fn label(self) -> (r: &'static str)
        ensures
            r@ == direction_label(self),
    {
        match self {
            DeletionDirection::LocalToCloud => "local-to-cloud",
            DeletionDirection::CloudToLocal => "cloud-to-local",
        }
    }

    /// Where the deletions came from.
    pub fn origin(self) -> (r: &'static str)
        ensures
            r@ == direction_origin(self),
    {
        match self {
            DeletionDirection::LocalToCloud => "this device",
            DeletionDirection::CloudToLocal => "the cloud",
        }
    }

    /// Where the files would go.
    pub fn target(self) -> (r: &'static str)
        ensures
            r@ == direction_target(self),
    {
        match self {
            DeletionDirection::LocalToCloud => "the cloud",
            DeletionDirection::CloudToLocal => "this device",
        }
    }

    /// Queue kind that carries a deletion this way.
    pub fn intent_kind(self) -> (r: PendingIntentKind)
        ensures
            r == match self {
                DeletionDirection::LocalToCloud => PendingIntentKind::Delete,
                DeletionDirection::CloudToLocal => PendingIntentKind::ApplyRemoteDelete,
            },
    {
        match self {
            DeletionDirection::LocalToCloud => PendingIntentKind::Delete,
            DeletionDirection::CloudToLocal => PendingIntentKind::ApplyRemoteDelete,
        }
    }
}

/// Whether a deletion is shown to the guard: not when the user approved it,
/// nor when the guard is switched off.
pub fn guard_is_asked(intent: &DurableIntentRecord, guard_enabled: bool) -> (r: bool)
    ensures
        r == (guard_enabled && !intent.approved),
{
    guard_enabled && !intent.approved
}

/// Size of a held burst: what landed in the window and what is queued behind.
pub open spec fn burst_size(in_window: usize, queued_behind: usize) -> usize {
    if in_window + queued_behind > usize::MAX {
        usize::MAX
    } else {
        (in_window + queued_behind) as usize
    }
}

/// Share of the synced files a burst would remove, in percent.
pub open spec fn burst_share(count: usize, synced: usize) -> nat {
    if synced == 0 || count * 100 / (synced as int) > 100 {
        100
    } else {
        (count * 100 / (synced as int)) as nat
    }
}

pub open spec fn burst_question(
    direction: DeletionDirection,
    count: usize,
    synced: usize,
) -> Seq<char> {
    "Vapor is holding a burst of deletions that arrived from "@ + direction_origin(direction)
        + ": "@ + decimal(count as nat) + " of the "@ + decimal(synced as nat)
        + " files it syncs ("@ + decimal(burst_share(count, synced)) + "%) would be removed on "@
        + direction_target(direction)
        + ". Apply them, or discard them and restore the files?"@
}

/// A choice put before the user.
#[derive(Debug, PartialEq, Eq)]
pub struct DecisionOption {
    pub key: String,
    pub label: String,
}

/// A decision to be opened on a held burst.
#[derive(Debug, PartialEq, Eq)]
pub struct BurstDecision {
    pub direction: DeletionDirection,
    /// Deletions in the burst.
    pub count: usize,
    /// Files in the sync index.
    pub synced: usize,
    pub question: String,
    /// The choices, in the order they are shown.
    pub options: Vec<DecisionOption>,
    /// Held paths listed as evidence.
    pub paths: Vec<FsPath>,
}

pub open spec fn is_option(option: DecisionOption, key: Seq<char>, label: Seq<char>) -> bool {
    option.key@ == key && option.label@ == label
}

/// The decision puts the burst before the user.
pub open spec fn is_burst_decision(
    decision: BurstDecision,
    direction: DeletionDirection,
    facts: GuardFacts,
) -> bool {
    &&& decision.direction == direction
    &&& decision.count == burst_size(facts.in_window, facts.queued_behind)
    &&& decision.synced == facts.synced
    &&& decision.question@ == burst_question(direction, decision.count, facts.synced)
    &&& decision.options@.len() == 2
    &&& is_option(decision.options@[0], APPLY_OPTION_KEY@, "Apply the deletions"@)
    &&& is_option(
        decision.options@[1],
        DISCARD_OPTION_KEY@,
        "Discard them and restore the files from "@ + direction_origin(direction),
    )
    &&& decision.paths@.len() == 0
}

fn mass_deletion_decision(direction: DeletionDirection, facts: GuardFacts) -> (r: BurstDecision)
    ensures
        is_burst_decision(r, direction, facts),
{
    let in_window: usize = facts.in_window;
    let queued_behind: usize = facts.queued_behind;
    let synced: usize = facts.synced;
    let count: usize = if in_window > usize::MAX - queued_behind {
        usize::MAX
    } else {
        in_window + queued_behind
    };
    let share: u128 = if synced == 0 {
        100
    } else {
        let part: u128 = (count as u128) * 100 / (synced as u128);
        if part > 100 {
            100
        } else {
            part
        }
    };
    let mut question = concat(
        "Vapor is holding a burst of deletions that arrived from ",
        direction.origin(),
    );
    question.append(": ");
    question.append(decimal_text(count as u128).as_str());
    question.append(" of the ");
    question.append(decimal_text(synced as u128).as_str());
    question.append(" files it syncs (");
    question.append(decimal_text(share).as_str());
    question.append("%) would be removed on ");
    question.append(direction.target());
    question.append(". Apply them, or discard them and restore the files?");
    let mut options: Vec<DecisionOption> = Vec::new();
    options.push(
        DecisionOption {
            key: APPLY_OPTION_KEY.to_owned(),
            label: "Apply the deletions".to_owned(),
        },
    );
    options.push(
        DecisionOption {
            key: DISCARD_OPTION_KEY.to_owned(),
            label: concat("Discard them and restore the files from ", direction.origin()),
        },
    );
    BurstDecision { direction, count, synced, question, options, paths: Vec::new() }
}

/// Lists a held path as evidence, as long as there is room.
pub fn note_held_path(paths: &mut Vec<FsPath>, path: FsPath)
    ensures
        final(paths)@ == if old(paths)@.len() < MASS_DELETION_EVIDENCE_PATHS {
            old(paths)@.push(path)
        } else {
            old(paths)@
        },
        old(paths)@.len() <= MASS_DELETION_EVIDENCE_PATHS ==> final(paths)@.len()
            <= MASS_DELETION_EVIDENCE_PATHS,
{
    if paths.len() < MASS_DELETION_EVIDENCE_PATHS {
        paths.push(path);
    }
}

/// What the guard knows of a deletion it was shown.
#[derive(Clone, Copy, Debug, PartialEq, Eq)]
pub struct GuardFacts {
    /// The guard holds the deletion.
    pub tripped: bool,
    /// Deletions that landed in the window.
    pub in_window: usize,
    /// Deletions of this direction queued behind this one.
    pub queued_behind: usize,
    /// Files in the sync index.
    pub synced: usize,
    /// The decision that is already open, if one is.
    pub open_decision: Option<i64>,
}

/// Whether a deletion is held.
#[derive(Debug, PartialEq, Eq)]
pub enum HoldStep {
    Pass,
    /// Park it behind this decision.
    Behind(i64),
    /// Open this decision and park it behind that.
    Open(BurstDecision),
}

/// Holds a deletion the guard tripped on: behind the decision that is open, or
/// behind one opened for it. `facts` are there when the guard was asked.
pub fn hold_if_mass_deletion(direction: DeletionDirection, facts: Option<GuardFacts>) -> (r: HoldStep)
    ensures
        match facts {
            Some(found) if found.tripped => match found.open_decision {
                Some(id) => r == HoldStep::Behind(id),
                None => r matches HoldStep::Open(decision) && is_burst_decision(
                    decision,
                    direction,
                    found,
                ),
            },
            _ => r == HoldStep::Pass,
        },
{
    match facts {
        Some(found) => {
            if !found.tripped {
                return HoldStep::Pass;
            }
            match found.open_decision {
                Some(id) => HoldStep::Behind(id),
                None => HoldStep::Open(
                    mass_deletion_decision(direction, found),
                ),
            }
        },
        None => HoldStep::Pass,
    }
}

// ---------------------------------------------------------------------------
// The other half of a rename
// ---------------------------------------------------------------------------

/// A queued path and what is known of it.
#[derive(Debug, PartialEq, Eq)]
pub struct QueuedPath {
    pub path: FsPath,
    pub local: LocalStat,
    /// The path has a row in the sync index.
    pub indexed: bool,
}

/// A queued download that could be a file renamed in the cloud: another path
/// that neither stands locally nor was ever synced.
pub open spec fn could_be_moved_in(q: QueuedPath, except: Seq<Part>) -> bool {
    q.path@ != except && !q.local.is_present() && !q.indexed
}

pub open spec fn some_could_be_moved_in(queued: Seq<QueuedPath>, except: Seq<Part>) -> bool {
    exists|i: int| 0 <= i < queued.len() && could_be_moved_in(#[trigger] queued[i], except)
}

/// Whether a queued download could be the other half of a rename.
pub fn pending_download_could_be_a_move(queued: &Vec<QueuedPath>, except: &FsPath) -> (r: bool)
    ensures
        r == some_could_be_moved_in(queued@, except@),
{
    let mut i: usize = 0;
    while i < queued.len()
        invariant
            i <= queued@.len(),
            forall|j: int| 0 <= j < i ==> !could_be_moved_in(#[trigger] queued@[j], except@),
        decreases queued@.len() - i,
    {
        let q = &queued[i];
        if !q.path.same(except) && !q.local.present() && !q.indexed {
            assert(could_be_moved_in(queued@[i as int], except@));
            return true;
        }
        i = i + 1;
    }
    false
}

/// A queued upload that could be a file renamed locally: another path with a
/// file of exactly this size that was never synced.
pub open spec fn could_be_renamed_to(q: QueuedPath, size: u64, except: Seq<Part>) -> bool {
    q.path@ != except && (q.local matches LocalStat::File { size_bytes, .. } && size_bytes == size)
        && !q.indexed
}

pub open spec fn some_could_be_renamed_to(
    queued: Seq<QueuedPath>,
    size: u64,
    except: Seq<Part>,
) -> bool {
    exists|i: int| 0 <= i < queued.len() && could_be_renamed_to(#[trigger] queued[i], size, except)
}

/// Whether a queued upload has the shape of a rename's other half.
pub fn app_has_pending_upload_of_size(queued: &Vec<QueuedPath>, size: u64, except: &FsPath) -> (r:
    bool)
    ensures
        r == some_could_be_renamed_to(queued@, size, except@),
{
    let mut i: usize = 0;
    while i < queued.len()
        invariant
            i <= queued@.len(),
            forall|j: int|
                0 <= j < i ==> !could_be_renamed_to(#[trigger] queued@[j], size, except@),
        decreases queued@.len() - i,
    {
        let q = &queued[i];
        let fits = match &q.local {
            LocalStat::File { size_bytes, .. } => *size_bytes == size,
            _ => false,
        };
        if fits && !q.path.same(except) && !q.indexed {
            assert(could_be_renamed_to(queued@[i as int], size, except@));
            return true;
        }
        i = i + 1;
    }
    false
}

/// Whether an upload may be served by a server-side move: a file that is new
/// on both sides, hashed, at a provider that can move.
pub open spec fn may_be_moved(
    intent: DurableIntentRecord,
    plan: TransferPlan,
    provider_moves: bool,
    indexed: bool,
) -> bool {
    &&& intent.kind == PendingIntentKind::Upload || intent.kind == PendingIntentKind::Rename
    &&& plan.precondition is Absent
    &&& provider_moves
    &&& plan.content_hash is Some
    &&& plan.hashed_local_state is Some
    &&& !indexed
}

/// A synced file that is gone locally, at another path.
pub open spec fn left_its_place(row: (SyncIndexEntry, LocalStat), path: Seq<Part>) -> bool {
    row.0.path@ != path && !row.1.is_present()
}

pub open spec fn is_first_left(
    rows: Seq<(SyncIndexEntry, LocalStat)>,
    path: Seq<Part>,
    i: int,
) -> bool {
    &&& 0 <= i < rows.len()
    &&& left_its_place(rows[i], path)
    &&& forall|j: int| 0 <= j < i ==> !left_its_place(#[trigger] rows[j], path)
}

/// The synced file an upload is the rename of. `rows` are the index rows with
/// the plan's hash and size, `indexed` whether the intent's path has a row.
pub fn move_source_for(
    intent: &DurableIntentRecord,
    plan: &TransferPlan,
    provider_moves: bool,
    indexed: bool,
    rows: Vec<(SyncIndexEntry, LocalStat)>,
) -> (r: Option<SyncIndexEntry>)
    ensures
        match r {
            Some(entry) => may_be_moved(*intent, *plan, provider_moves, indexed) && exists|i: int|
                #[trigger] is_first_left(rows@, intent.path@, i) && rows@[i].0 == entry,
            None => !may_be_moved(*intent, *plan, provider_moves, indexed) || forall|j: int|
                0 <= j < rows@.len() ==> !left_its_place(#[trigger] rows@[j], intent.path@),
        },
{
    let uploads = matches!(intent.kind, PendingIntentKind::Upload | PendingIntentKind::Rename);
    let fresh = matches!(plan.precondition, RemotePrecondition::Absent);
    if !uploads || !fresh || !provider_moves || indexed || plan.content_hash.is_none()
        || plan.hashed_local_state.is_none() {
        return None;
    }
    let ghost all = rows@;
    let mut left = rows;
    let ghost mut k: int = 0;
    assert(all.skip(0) =~= all);
    while left.len() > 0
        invariant
            0 <= k <= all.len(),
            all == rows@,
            left@ == all.skip(k),
            may_be_moved(*intent, *plan, provider_moves, indexed),
            forall|j: int| 0 <= j < k ==> !left_its_place(#[trigger] all[j], intent.path@),
        decreases left.len(),
    {
        let ghost before = left@;
        let (entry, local) = left.remove(0);
        assert(before[0] == all[k]);
        assert(left@ =~= all.skip(k + 1));
        if !entry.path.same(&intent.path) && !local.present() {
            assert(is_first_left(all, intent.path@, k));
            return Some(entry);
        }
        assert(!left_its_place(all[k], intent.path@));
        proof {
            k = k + 1;
        }
    }
    None
}

// ---------------------------------------------------------------------------
// What the safeguards are for
// ---------------------------------------------------------------------------

/// A server-side move is only ever taken from a synced file that no longer
/// stands at its own path: neither a file nor a directory nor a special node
/// is there, and the path is not the upload's. A copy of a file that still
/// stands is never taken for its move.
pub proof fn law_a_standing_file_is_never_moved_away(
    intent: DurableIntentRecord,
    plan: TransferPlan,
    provider_moves: bool,
    indexed: bool,
    rows: Vec<(SyncIndexEntry, LocalStat)>,
    r: Option<SyncIndexEntry>,
)
    requires
        call_ensures(move_source_for, (&intent, &plan, provider_moves, indexed, rows), r),
    ensures
        r matches Some(source) ==> source.path@ != intent.path@ && provider_moves && !indexed
            && plan.precondition is Absent && plan.content_hash is Some && plan.hashed_local_state
            is Some && (intent.kind == PendingIntentKind::Upload || intent.kind
            == PendingIntentKind::Rename) && exists|i: int|
            0 <= i < rows@.len() && (#[trigger] rows@[i]).0 == source && (rows@[i].1 is Missing
                || rows@[i].1 is Unreadable),
{
    if let Some(source) = r {
        let i = choose|i: int|
            #[trigger] is_first_left(rows@, intent.path@, i) && rows@[i].0 == source;
        assert(rows@[i].0 == source);
    }
}

/// A renamed file is served by a move: when the upload is of a new file whose
/// hash is known, the provider can move, and some synced file with that
/// content is missing from another path, a source is found.
pub proof fn law_a_renamed_file_is_moved(
    intent: DurableIntentRecord,
    plan: TransferPlan,
    rows: Vec<(SyncIndexEntry, LocalStat)>,
    i: int,
    r: Option<SyncIndexEntry>,
)
    requires
        call_ensures(move_source_for, (&intent, &plan, true, false, rows), r),
        intent.kind == PendingIntentKind::Upload || intent.kind == PendingIntentKind::Rename,
        plan.precondition is Absent,
        plan.content_hash is Some,
        plan.hashed_local_state is Some,
        0 <= i < rows@.len(),
        rows@[i].0.path@ != intent.path@,
        rows@[i].1 is Missing,
    ensures
        r is Some,
{
    if r is None {
        assert(!left_its_place(rows@[i], intent.path@));
    }
}

/// A deletion waits for the other half of a rename only while one can be
/// queued: an upload of a file of that very size, or a download to a place
/// where nothing stands, at another path that was never synced.
pub proof fn law_only_a_new_path_is_another_half(
    queued: Vec<QueuedPath>,
    size: u64,
    except: FsPath,
    upload: bool,
    download: bool,
)
    requires
        call_ensures(app_has_pending_upload_of_size, (&queued, size, &except), upload),
        call_ensures(pending_download_could_be_a_move, (&queued, &except), download),
    ensures
        upload ==> exists|i: int|
            0 <= i < queued@.len() && (#[trigger] queued@[i]).path@ != except@
                && !queued@[i].indexed && queued@[i].local is File && queued@[i].local->size_bytes
                == size,
        !upload ==> forall|i: int|
            0 <= i < queued@.len() && (#[trigger] queued@[i]).path@ != except@
                && !queued@[i].indexed && queued@[i].local is File ==> queued@[i].local->size_bytes
                != size,
        download ==> exists|i: int|
            0 <= i < queued@.len() && (#[trigger] queued@[i]).path@ != except@
                && !queued@[i].indexed && (queued@[i].local is Missing || queued@[i].local
                is Unreadable),
        !download ==> forall|i: int|
            0 <= i < queued@.len() && (#[trigger] queued@[i]).path@ != except@
                && !queued@[i].indexed ==> queued@[i].local is File || queued@[i].local is Directory
                || queued@[i].local is Special,
{
    if upload {
        let i = choose|i: int|
            0 <= i < queued@.len() && could_be_renamed_to(#[trigger] queued@[i], size, except@);
        assert(queued@[i].path@ != except@);
    } else {
        assert forall|i: int|
            0 <= i < queued@.len() && (#[trigger] queued@[i]).path@ != except@
                && !queued@[i].indexed && queued@[i].local
                is File implies queued@[i].local->size_bytes != size by {
            assert(!could_be_renamed_to(queued@[i], size, except@));
        }
    }
    if download {
        let i = choose|i: int|
            0 <= i < queued@.len() && could_be_moved_in(#[trigger] queued@[i], except@);
        assert(queued@[i].path@ != except@);
    } else {
        assert forall|i: int|
            0 <= i < queued@.len() && (#[trigger] queued@[i]).path@ != except@
                && !queued@[i].indexed implies queued@[i].local is File || queued@[i].local
            is Directory || queued@[i].local is Special by {
            assert(!could_be_moved_in(queued@[i], except@));
        }
    }
}

/// A deletion the guard tripped on never passes: it waits behind the decision
/// that is open, or behind a new one that counts the whole burst, in the
/// window and behind, against all synced files. Every other deletion passes.
pub proof fn law_a_tripped_guard_holds(
    direction: DeletionDirection,
    facts: Option<GuardFacts>,
    r: HoldStep,
)
    requires
        call_ensures(hold_if_mass_deletion, (direction, facts), r),
    ensures
        r is Pass <==> facts is None || !(facts->0).tripped,
        r matches HoldStep::Behind(id) ==> (facts->0).open_decision == Some(id),
        r is Open <==> facts is Some && (facts->0).tripped && (facts->0).open_decision is None,
        r matches HoldStep::Open(decision) ==> decision.direction == direction && decision.synced
            == (facts->0).synced && ((facts->0).in_window + (facts->0).queued_behind <= usize::MAX
            ==> decision.count == (facts->0).in_window + (facts->0).queued_behind)
            && decision.options@.len() == 2 && decision.options@[0].key@ == "apply"@
            && decision.options@[1].key@ == "discard"@ && decision.paths@.len() == 0,
{
}

/// The guard is asked about every deletion the user did not approve, as long
/// as it is switched on.
pub proof fn law_the_guard_sees_what_was_not_approved(
    intent: DurableIntentRecord,
    guard_enabled: bool,
    r: bool,
)
    requires
        call_ensures(guard_is_asked, (&intent, guard_enabled), r),
    ensures
        r ==> guard_enabled,
        intent.approved ==> !r,
        guard_enabled && !intent.approved ==> r,
{
}

/// The evidence lists the first fifty held paths, in the order they were held.
pub proof fn law_the_first_held_paths_are_listed(paths: &mut Vec<FsPath>, path: FsPath)
    requires
        call_ensures(note_held_path, (paths, path), ()),
    ensures
        old(paths)@.len() < 50 ==> final(paths)@ == old(paths)@.push(path),
        old(paths)@.len() >= 50 ==> final(paths)@ == old(paths)@,
{
}

/// Of several files that left, the first one listed is the source.
pub proof fn law_the_first_file_that_left_is_moved(
    intent: DurableIntentRecord,
    plan: TransferPlan,
    rows: Vec<(SyncIndexEntry, LocalStat)>,
    r: Option<SyncIndexEntry>,
)
    requires
        call_ensures(move_source_for, (&intent, &plan, true, false, rows), r),
        rows@.len() > 0,
        rows@[0].0.path@ != intent.path@,
        rows@[0].1 is Missing,
    ensures
        r is Some ==> r == Some(rows@[0].0),
{
    if let Some(source) = r {
        let i = choose|i: int|
            #[trigger] is_first_left(rows@, intent.path@, i) && rows@[i].0 == source;
        if i > 0 {
            assert(!left_its_place(rows@[0], intent.path@));
        }
    }
}

/// A direction leads from one side to the other: what comes from this device
/// is removed in the cloud, and the other way round.
pub proof fn law_a_deletion_goes_to_the_other_side(
    direction: DeletionDirection,
    origin: &'static str,
    target: &'static str,
    label: &'static str,
    kind: PendingIntentKind,
)
    requires
        call_ensures(DeletionDirection::origin, (direction,), origin),
        call_ensures(DeletionDirection::target, (direction,), target),
        call_ensures(DeletionDirection::label, (direction,), label),
        call_ensures(DeletionDirection::intent_kind, (direction,), kind),
    ensures
        direction is LocalToCloud ==> origin@ == "this device"@ && target@ == "the cloud"@
            && label@ == "local-to-cloud"@ && kind == PendingIntentKind::Delete,
        direction is CloudToLocal ==> origin@ == "the cloud"@ && target@ == "this device"@
            && label@ == "cloud-to-local"@ && kind == PendingIntentKind::ApplyRemoteDelete,
{
}

/// The question names the burst, all that is synced and the share of the one
/// in the other, never more than the whole, and both sides.
pub proof fn law_the_question_names_the_burst(
    direction: DeletionDirection,
    facts: GuardFacts,
    origin: &'static str,
    target: &'static str,
    count: String,
    synced: String,
    share: u64,
    percent: String,
    r: HoldStep,
)
    requires
        call_ensures(hold_if_mass_deletion, (direction, Some(facts)), r),
        call_ensures(DeletionDirection::origin, (direction,), origin),
        call_ensures(DeletionDirection::target, (direction,), target),
        r is Open,
        call_ensures(decimal_text, (r->Open_0.count as u128,), count),
        call_ensures(decimal_text, (facts.synced as u128,), synced),
        call_ensures(decimal_text, (share as u128,), percent),
        facts.synced > 0,
        r->Open_0.count <= facts.synced,
        share * facts.synced <= r->Open_0.count * 100 < (share + 1) * facts.synced,
    ensures
        r->Open_0.question@
            == "Vapor is holding a burst of deletions that arrived from "@ + origin@ + ": "@
            + count@ + " of the "@ + synced@ + " files it syncs ("@ + percent@
            + "%) would be removed on "@ + target@
            + ". Apply them, or discard them and restore the files?"@,
        r->Open_0.options@[0].label@ == "Apply the deletions"@,
        r->Open_0.options@[1].label@ == "Discard them and restore the files from "@ + origin@,
{
    let n = facts.synced as int;
    let c = r->Open_0.count as int;
    let s = share as int;
    assert(c * 100 / n == s) by (nonlinear_arith)
        requires
            n > 0,
            s * n <= c * 100 < (s + 1) * n,
    ;
    assert(c * 100 / n <= 100) by (nonlinear_arith)
        requires
            n > 0,
            0 <= c <= n,
    ;
}

} // verus!
