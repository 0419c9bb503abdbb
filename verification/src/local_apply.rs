//! Applying remote changes to the local disk.
//!
//! Each procedure alternates decisions with disk or queue work. The decisions
//! are here, one step at a time: a step says what to do next, the caller does
//! it and comes back with how it went.
use vstd::prelude::*;

use crate::clock::{millis_since_epoch_spec, SystemTime};
use crate::conflict::{conflict_copy_path, copy_path, is_first_free, leaves_one_free, sequence_at};
use crate::continuations::{child_delete_is_safe, child_is_safe_with_hash, child_verdict, path_views,
    ChildVerdict};
use crate::effects::{effect_views, local_removal_effects, record_local_removal, Effect, EffectView,
    record_delete_tombstone, tombstone_effects, TombstoneOrigin};
use crate::event_intents::PendingIntentKind;
use crate::paths::{has_parent, path_text, within, Component, FsPath, Part};
use crate::planner::{file_name_char, is_failure, sanitize_for_file_name, NoopReason, PlanOutcome,
    TransferPlan, TEMP_FILE_PREFIX};
use crate::records::{LocalStat, RetryFailureKind, SyncIndexEntry, SyncMode};
use crate::text::{concat, same_text};
use vstd::string::StringExecFns;

verus! {

/// How a piece of disk or queue work went.
#[derive(Debug, PartialEq, Eq)]
pub enum Reply {
    Done,
    /// What was to be worked on is not there.
    Missing,
    Failed(String),
}

// ---------------------------------------------------------------------------
// Keep-both resolution of a lost upload race
// ---------------------------------------------------------------------------

/// Timestamp in the name of a conflict copy: when the intent was queued, in
/// milliseconds since the epoch.
pub open spec fn conflict_stamp(enqueued_at: SystemTime) -> nat {
    (millis_since_epoch_spec(enqueued_at) as u64) as nat
}

/// Timestamp in the name of a conflict copy: when the intent was queued, in
/// milliseconds since the epoch.
pub fn conflict_timestamp(enqueued_at: SystemTime) -> (r: u64)
    ensures
        r == conflict_stamp(enqueued_at),
{
    let millis: u128 = enqueued_at.millis_since_epoch();
    #[verifier::truncate]
    (millis as u64)
}

/// Where the version that lost is kept: the first free conflict copy, named
/// after the device and the time its intent was queued.
pub fn conflict_place<F: Fn(&FsPath) -> bool>(
    original: &FsPath,
    device_id: &str,
    enqueued_at: SystemTime,
    path_exists: F,
) -> (r: FsPath)
    requires
        forall|c: FsPath| call_requires(path_exists, (&c,)),
        leaves_one_free(path_exists, original@, device_id@, conflict_stamp(enqueued_at)),
    ensures
        is_first_free(path_exists, original@, device_id@, conflict_stamp(enqueued_at), r),
{
    conflict_copy_path(original, device_id, conflict_timestamp(enqueued_at), path_exists)
}

/// What a conflict resolution asks for.
#[derive(Debug, PartialEq, Eq)]
pub enum ConflictAsk {
    /// Queue the download that restores the canonical path.
    QueueRestore { path: FsPath, kind: PendingIntentKind },
    /// Rename the local loser to its conflict copy.
    RenameLoser { from: FsPath, to: FsPath },
    /// Queue the upload of the conflict copy.
    QueueCopy { path: FsPath, kind: PendingIntentKind },
}

/// Where a conflict resolution goes on.
#[derive(Debug, PartialEq, Eq)]
pub enum ConflictNext {
    /// Record the effects, then do this.
    Ask { ask: ConflictAsk, effects: Vec<Effect> },
    Done(PlanOutcome),
}

/// A conflict resolution in progress.
#[derive(Debug, PartialEq, Eq)]
pub struct ConflictResolution {
    original: FsPath,
    copy: FsPath,
}

impl ConflictResolution {
    /// The path both versions want.
    pub closed spec fn contested(&self) -> Seq<Part> {
        self.original@
    }

    /// The path the local loser is kept at.
    pub closed spec fn kept_at(&self) -> FsPath {
        self.copy
    }
}

/// Starts a conflict resolution: the local file at `original` lost.
pub fn resolve_upload_conflict<F: Fn(&FsPath) -> bool>(
    original: &FsPath,
    device_id: &str,
    enqueued_at: SystemTime,
    path_exists: F,
) -> (r: (ConflictResolution, ConflictAsk))
    requires
        forall|c: FsPath| call_requires(path_exists, (&c,)),
        leaves_one_free(path_exists, original@, device_id@, conflict_stamp(enqueued_at)),
    ensures
        r.0.contested() == original@,
        is_first_free(
            path_exists,
            original@,
            device_id@,
            conflict_stamp(enqueued_at),
            r.0.kept_at(),
        ),
        r.1 matches ConflictAsk::QueueRestore { path, kind } && path@ == original@ && kind
            == PendingIntentKind::Download,
{
    let copy = conflict_place(original, device_id, enqueued_at, path_exists);
    (
        ConflictResolution { original: original.clone(), copy },
        ConflictAsk::QueueRestore { path: original.clone(), kind: PendingIntentKind::Download },
    )
}

/// Effects of the loser's rename: the watcher's report of it is an echo, its
/// tag moves along, and the index row holds for neither path.
pub open spec fn loser_renamed_effects(original: Seq<Part>, copy: Seq<Part>) -> Seq<EffectView> {
    seq![
        EffectView::EchoLocalDelete { path: original },
        EffectView::RelocateTag { from: original, to: copy },
        EffectView::RemoveSyncIndex { path: original },
    ]
}

pub open spec fn conflict_failed(
    r: ConflictNext,
    message: Seq<char>,
) -> bool {
    r matches ConflictNext::Done(o) && is_failure(o, RetryFailureKind::Transient, message)
}

/// One step of a conflict resolution. The restore of the canonical path is
/// queued before the loser is renamed, so a crash in between cannot leave the
/// path with nothing pending to bring it back.
pub fn conflict_step(resolution: &ConflictResolution, asked: ConflictAsk, reply: Reply) -> (r:
    ConflictNext)
    ensures
        match (asked, reply) {
            (ConflictAsk::QueueRestore { .. }, Reply::Done) => {
                &&& r matches ConflictNext::Ask { ask: ConflictAsk::RenameLoser { from, to }, effects }
                &&& from@ == resolution.contested()
                &&& to@ == resolution.kept_at()@
                &&& effects@.len() == 0
            },
            (ConflictAsk::QueueRestore { .. }, Reply::Failed(error)) => conflict_failed(
                r,
                "cannot enqueue conflict canonical-restore download: "@ + error@,
            ),
            (ConflictAsk::RenameLoser { .. }, Reply::Done) => {
                &&& r matches ConflictNext::Ask { ask: ConflictAsk::QueueCopy { path, kind }, effects }
                &&& path@ == resolution.kept_at()@
                &&& kind == PendingIntentKind::Upload
                &&& effect_views(effects@) == loser_renamed_effects(
                    resolution.contested(),
                    resolution.kept_at()@,
                )
            },
            (ConflictAsk::RenameLoser { .. }, Reply::Missing) => r == ConflictNext::Done(
                PlanOutcome::Noop(NoopReason::VanishedDuringConflict),
            ),
            (ConflictAsk::RenameLoser { .. }, Reply::Failed(error)) => conflict_failed(
                r,
                "cannot stage conflict copy: "@ + error@,
            ),
            (ConflictAsk::QueueCopy { .. }, Reply::Done) => r == ConflictNext::Done(
                PlanOutcome::ConflictResolved,
            ),
            (ConflictAsk::QueueCopy { .. }, Reply::Failed(error)) => conflict_failed(
                r,
                "cannot enqueue conflict-copy upload: "@ + error@,
            ),
            (_, Reply::Missing) => conflict_failed(r, "queue row is missing"@),
        },
{
    let transient = RetryFailureKind::Transient;
    let original = &resolution.original;
    let copy = &resolution.copy;
    match (asked, reply) {
        (ConflictAsk::QueueRestore { .. }, Reply::Done) => ConflictNext::Ask {
            ask: ConflictAsk::RenameLoser { from: original.clone(), to: copy.clone() },
            effects: Vec::new(),
        },
        (ConflictAsk::QueueRestore { .. }, Reply::Failed(error)) => ConflictNext::Done(
            PlanOutcome::Fail {
                failure: transient,
                message: concat(
                    "cannot enqueue conflict canonical-restore download: ",
                    error.as_str(),
                ),
            },
        ),
        (ConflictAsk::RenameLoser { .. }, Reply::Done) => {
            let mut effects: Vec<Effect> = Vec::new();
            effects.push(Effect::EchoLocalDelete { path: original.clone() });
            effects.push(Effect::RelocateTag { from: original.clone(), to: copy.clone() });
            effects.push(Effect::RemoveSyncIndex { path: original.clone() });
            assert(effect_views(effects@) =~= loser_renamed_effects(original@, copy@));
            ConflictNext::Ask {
                ask: ConflictAsk::QueueCopy { path: copy.clone(), kind: PendingIntentKind::Upload },
                effects,
            }
        },
        (ConflictAsk::RenameLoser { .. }, Reply::Missing) => ConflictNext::Done(
            PlanOutcome::Noop(NoopReason::VanishedDuringConflict),
        ),
        (ConflictAsk::RenameLoser { .. }, Reply::Failed(error)) => ConflictNext::Done(
            PlanOutcome::Fail {
                failure: transient,
                message: concat("cannot stage conflict copy: ", error.as_str()),
            },
        ),
        (ConflictAsk::QueueCopy { .. }, Reply::Done) => ConflictNext::Done(
            PlanOutcome::ConflictResolved,
        ),
        (ConflictAsk::QueueCopy { .. }, Reply::Failed(error)) => ConflictNext::Done(
            PlanOutcome::Fail {
                failure: transient,
                message: concat("cannot enqueue conflict-copy upload: ", error.as_str()),
            },
        ),
        (_, Reply::Missing) => ConflictNext::Done(
            PlanOutcome::Fail { failure: transient, message: "queue row is missing".to_owned() },
        ),
    }
}

/// The local loser is renamed only after the restore of the canonical path was
/// queued, and the conflict counts as resolved only after the copy's upload
/// was: no crash in between leaves a version with nothing pending for it.
pub proof fn law_both_versions_stay_pending(
    resolution: ConflictResolution,
    asked: ConflictAsk,
    reply: Reply,
    next: ConflictNext,
)
    requires
        call_ensures(conflict_step, (&resolution, asked, reply), next),
    ensures
        (next matches ConflictNext::Ask { ask, .. } && ask is RenameLoser) ==> asked
            is QueueRestore && reply is Done,
        next == ConflictNext::Done(PlanOutcome::ConflictResolved) ==> asked is QueueCopy && reply
            is Done,
{
}

/// A conflict that is replayed, the same paths being taken, lands on the same
/// conflict copy: its place depends on path, device and the time the intent
/// was queued.
pub proof fn law_a_replayed_conflict_lands_on_the_same_path<F: Fn(&FsPath) -> bool>(
    path_exists: F,
    original: FsPath,
    device_id: &str,
    enqueued_at: SystemTime,
    first: FsPath,
    second: FsPath,
)
    requires
        forall|a: FsPath, b: FsPath, x: bool, y: bool|
            a@ == b@ && #[trigger] call_ensures(path_exists, (&a,), x) && #[trigger] call_ensures(
                path_exists,
                (&b,),
                y,
            ) ==> x == y,
        call_ensures(
            conflict_place::<F>,
            (&original, device_id, enqueued_at, path_exists),
            first,
        ),
        call_ensures(
            conflict_place::<F>,
            (&original, device_id, enqueued_at, path_exists),
            second,
        ),
    ensures
        first@ == second@,
{
    let stamp = conflict_stamp(enqueued_at);
    let (o, d) = (original@, device_id@);
    let a = choose|k: nat|
        #![trigger sequence_at(k)]
        first@ == copy_path(o, d, stamp, sequence_at(k)) && forall|j: nat|
            #![trigger sequence_at(j)]
            j < k ==> exists|c: FsPath|
                c@ == copy_path(o, d, stamp, sequence_at(j)) && call_ensures(
                    path_exists,
                    (&c,),
                    true,
                );
    let b = choose|k: nat|
        #![trigger sequence_at(k)]
        second@ == copy_path(o, d, stamp, sequence_at(k)) && forall|j: nat|
            #![trigger sequence_at(j)]
            j < k ==> exists|c: FsPath|
                c@ == copy_path(o, d, stamp, sequence_at(j)) && call_ensures(
                    path_exists,
                    (&c,),
                    true,
                );
    if a < b {
        let taken = choose|c: FsPath|
            c@ == copy_path(o, d, stamp, sequence_at(a)) && call_ensures(path_exists, (&c,), true);
        assert(taken@ == first@);
        assert(call_ensures(path_exists, (&first,), false));
    } else if b < a {
        let taken = choose|c: FsPath|
            c@ == copy_path(o, d, stamp, sequence_at(b)) && call_ensures(path_exists, (&c,), true);
        assert(taken@ == second@);
        assert(call_ensures(path_exists, (&second,), false));
    }
}

// ---------------------------------------------------------------------------
// Apply of a downloaded payload
// ---------------------------------------------------------------------------

/// File the local content is set aside to while a payload moves in.
pub open spec fn aside_path_of(target: Seq<Part>, op_id: Seq<char>) -> Seq<Part> {
    let name = TEMP_FILE_PREFIX@ + "aside-"@ + op_id.map_values(|c: char| file_name_char(c));
    (if has_parent(target) {
        target.drop_last()
    } else {
        seq![Part::Current]
    }).push(Part::Normal(name))
}

/// File the local content is set aside to while the plan's payload moves in.
pub fn aside_path(plan: &TransferPlan) -> (r: FsPath)
    ensures
        r@ == aside_path_of(plan@.local_path, plan@.op_id),
{
    let mut name = concat(TEMP_FILE_PREFIX, "aside-");
    name.append(sanitize_for_file_name(plan.op_id.as_str()).as_str());
    let base = match plan.local_path.parent() {
        Some(parent) => parent,
        None => {
            let dot = FsPath::empty().pushed(Component::CurDir);
            assert(dot@ =~= seq![Part::Current]);
            dot
        },
    };
    base.pushed(Component::Normal(name))
}

/// A payload apply in progress.
#[derive(Debug, PartialEq, Eq)]
pub struct PayloadApply {
    target: FsPath,
    staging: FsPath,
    aside: FsPath,
    device_id: String,
    enqueued_at: SystemTime,
    /// Index row of the path before the apply.
    index: Option<SyncIndexEntry>,
    /// Size and time of the content set aside.
    displaced: Option<(u64, Option<SystemTime>)>,
}

/// What a payload apply asks for.
#[derive(Debug, PartialEq, Eq)]
pub enum PayloadAsk {
    /// Rename the local file aside.
    SetAside { from: FsPath, to: FsPath },
    /// Rename the payload in.
    MoveIn { from: FsPath, to: FsPath },
    /// Hash the content set aside.
    HashAside { path: FsPath },
    /// Rename the content set aside to its conflict copy.
    KeepCopy { from: FsPath, to: FsPath },
    /// Queue the upload of the conflict copy.
    QueueCopy { path: FsPath, kind: PendingIntentKind },
}

/// Where a payload apply goes on.
#[derive(Debug, PartialEq, Eq)]
pub enum PayloadNext {
    Ask(PayloadAsk),
    /// Applied; nothing was displaced that differs, so the file set aside
    /// (if any) goes, with its tag.
    Applied { drop_aside: Option<FsPath> },
    /// Applied, and the displaced content is kept as a conflict copy.
    KeptBoth,
    /// Failed; the file set aside (if any) goes back to the target first.
    Failed { restore_aside: Option<FsPath>, message: String },
}

/// Displaced content that need not be kept: it is what was last synced, or
/// the payload itself.
pub open spec fn is_redundant(
    index: Option<SyncIndexEntry>,
    hash: Seq<char>,
    incoming_hash: Seq<char>,
) -> bool {
    hash == incoming_hash || (index matches Some(i) && hash == i.content_hash@)
}

/// Whether the displaced content can be redundant at all, judged by size.
pub open spec fn size_could_match(
    index: Option<SyncIndexEntry>,
    size: u64,
    incoming_size: Option<u64>,
) -> bool {
    incoming_size == Some(size) || (index matches Some(i) && i.size_bytes == size)
}

/// The apply failed without anything to put back.
pub open spec fn payload_failed(r: PayloadNext, message: Seq<char>) -> bool {
    r matches PayloadNext::Failed { restore_aside, message: m } && restore_aside is None && m@
        == message
}

/// The apply is done, and what was set aside at `aside` is dropped.
pub open spec fn drops(r: PayloadNext, aside: Seq<Part>) -> bool {
    r matches PayloadNext::Applied { drop_aside: Some(path) } && path@ == aside
}

impl PayloadApply {
    pub closed spec fn row(&self) -> Option<SyncIndexEntry> {
        self.index
    }

    /// Size and time of the content set aside.
    pub closed spec fn aside(&self) -> Option<(u64, Option<SystemTime>)> {
        self.displaced
    }

    /// Where the payload goes.
    pub closed spec fn goes_to(&self) -> Seq<Part> {
        self.target@
    }

    /// Where the payload was downloaded to.
    pub closed spec fn staged_at(&self) -> Seq<Part> {
        self.staging@
    }

    /// Where the local content is set aside.
    pub closed spec fn aside_at(&self) -> Seq<Part> {
        self.aside@
    }

    pub closed spec fn device(&self) -> Seq<char> {
        self.device_id@
    }

    /// When the download's intent was queued.
    pub closed spec fn queued_at(&self) -> SystemTime {
        self.enqueued_at
    }

    /// The apply is of this plan's payload, for this device and intent.
    pub open spec fn is_for(
        &self,
        plan: TransferPlan,
        device_id: Seq<char>,
        enqueued_at: SystemTime,
    ) -> bool {
        &&& self.goes_to() == plan@.local_path
        &&& Some(self.staged_at()) == plan@.staging_path
        &&& self.aside_at() == aside_path_of(plan@.local_path, plan@.op_id)
        &&& self.device() == device_id
        &&& self.queued_at() == enqueued_at
    }

    /// The same apply, whatever was displaced.
    pub open spec fn same_places(&self, other: PayloadApply) -> bool {
        &&& self.goes_to() == other.goes_to()
        &&& self.staged_at() == other.staged_at()
        &&& self.aside_at() == other.aside_at()
        &&& self.device() == other.device()
        &&& self.queued_at() == other.queued_at()
        &&& self.row() == other.row()
    }

    pub open spec fn asks_move_in(&self, r: PayloadNext) -> bool {
        r matches PayloadNext::Ask(PayloadAsk::MoveIn { from, to }) && from@ == self.staged_at()
            && to@ == self.goes_to()
    }

    /// The content set aside goes to the first free conflict copy of the
    /// target.
    pub open spec fn asks_keep<F: Fn(&FsPath) -> bool>(
        &self,
        path_exists: F,
        r: PayloadNext,
    ) -> bool {
        r matches PayloadNext::Ask(PayloadAsk::KeepCopy { from, to }) && from@ == self.aside_at()
            && is_first_free(
            path_exists,
            self.goes_to(),
            self.device(),
            conflict_stamp(self.queued_at()),
            to,
        )
    }

    /// Some name of a conflict copy is free.
    pub open spec fn has_room<F: Fn(&FsPath) -> bool>(&self, path_exists: F) -> bool {
        &&& forall|c: FsPath| call_requires(path_exists, (&c,))
        &&& leaves_one_free(
            path_exists,
            self.goes_to(),
            self.device(),
            conflict_stamp(self.queued_at()),
        )
    }

    fn move_in(&self) -> (r: PayloadNext)
        ensures
            self.asks_move_in(r),
    {
        PayloadNext::Ask(
            PayloadAsk::MoveIn { from: self.staging.clone(), to: self.target.clone() },
        )
    }

    fn keep_copy<F: Fn(&FsPath) -> bool>(&self, path_exists: F) -> (r: PayloadNext)
        requires
            self.has_room(path_exists),
        ensures
            self.asks_keep(path_exists, r),
    {
        let to = conflict_place(
            &self.target,
            self.device_id.as_str(),
            self.enqueued_at,
            path_exists,
        );
        PayloadNext::Ask(PayloadAsk::KeepCopy { from: self.aside.clone(), to })
    }

    /// Starts an apply. In two-way mode a regular file at the target is set
    /// aside first; one-way modes let the payload replace it.
    pub fn start(
        plan: &TransferPlan,
        device_id: &str,
        enqueued_at: SystemTime,
        mode: SyncMode,
        index: Result<Option<SyncIndexEntry>, String>,
        local: &LocalStat,
    ) -> (r: (PayloadApply, PayloadNext))
        requires
            plan@.staging_path is Some,
        ensures
            r.0.is_for(*plan, device_id@, enqueued_at),
            if mode != SyncMode::TwoWay {
                &&& r.0.row() is None
                &&& r.0.aside() is None
                &&& r.0.asks_move_in(r.1)
            } else {
                match index {
                    Err(error) => {
                        &&& r.0.row() is None
                        &&& r.0.aside() is None
                        &&& payload_failed(r.1, "cannot read sync index: "@ + error@)
                    },
                    Ok(row) => {
                        &&& r.0.row() == row
                        &&& match *local {
                            LocalStat::File { size_bytes, modified_at } => {
                                &&& r.0.aside() == Some((size_bytes, modified_at))
                                &&& r.1 matches PayloadNext::Ask(
                                    PayloadAsk::SetAside { from, to },
                                )
                                &&& from@ == plan@.local_path
                                &&& to@ == aside_path_of(plan@.local_path, plan@.op_id)
                            },
                            _ => r.0.aside() is None && r.0.asks_move_in(r.1),
                        }
                    },
                }
            },
    {
        let staging = match &plan.staging_path {
            Some(staging) => staging.clone(),
            None => FsPath::empty(),
        };
        let mut apply = PayloadApply {
            target: plan.local_path.clone(),
            staging,
            aside: aside_path(plan),
            device_id: device_id.to_owned(),
            enqueued_at,
            index: None,
            displaced: None,
        };
        if !mode.is_two_way() {
            let next = apply.move_in();
            return (apply, next);
        }
        match index {
            Err(error) => (
                apply,
                PayloadNext::Failed {
                    restore_aside: None,
                    message: concat("cannot read sync index: ", error.as_str()),
                },
            ),
            Ok(row) => {
                apply.index = row;
                match local {
                    LocalStat::File { size_bytes, modified_at } => {
                        apply.displaced = Some((*size_bytes, *modified_at));
                        let next = PayloadNext::Ask(
                            PayloadAsk::SetAside {
                                from: apply.target.clone(),
                                to: apply.aside.clone(),
                            },
                        );
                        (apply, next)
                    },
                    _ => {
                        let next = apply.move_in();
                        (apply, next)
                    },
                }
            },
        }
    }

    /// The file was set aside, or vanished before it could be.
    pub fn after_set_aside(&mut self, reply: Reply) -> (r: PayloadNext)
        ensures
            final(self).same_places(*old(self)),
            match reply {
                Reply::Done => old(self).asks_move_in(r) && final(self).aside() == old(
                    self,
                ).aside(),
                Reply::Missing => old(self).asks_move_in(r) && final(self).aside() is None,
                Reply::Failed(error) => payload_failed(
                    r,
                    "cannot set aside local file before apply: "@ + error@,
                ) && final(self).aside() is None,
            },
    {
        match reply {
            Reply::Done => self.move_in(),
            Reply::Missing => {
                self.displaced = None;
                self.move_in()
            },
            Reply::Failed(error) => {
                self.displaced = None;
                PayloadNext::Failed {
                    restore_aside: None,
                    message: concat(
                        "cannot set aside local file before apply: ",
                        error.as_str(),
                    ),
                }
            },
        }
    }

    /// The payload moved in, or not. `incoming_size` is the size of what
    /// stands at the target now.
    pub fn after_move_in<F: Fn(&FsPath) -> bool>(
        &self,
        moved: Result<(), String>,
        incoming_size: Option<u64>,
        path_exists: F,
    ) -> (r: PayloadNext)
        requires
            self.has_room(path_exists),
        ensures
            match moved {
                Err(error) => {
                    &&& r matches PayloadNext::Failed { restore_aside, message }
                    &&& message@ == "local apply of downloaded payload failed: "@ + error@
                    &&& match restore_aside {
                        Some(path) => self.aside() is Some && path@ == self.aside_at(),
                        None => self.aside() is None,
                    }
                },
                Ok(_) => match self.aside() {
                    None => r == (PayloadNext::Applied { drop_aside: None }),
                    Some((size, time)) => if self.row() matches Some(i) && i.local_unchanged(
                        size,
                        time,
                    ) {
                        drops(r, self.aside_at())
                    } else if size_could_match(self.row(), size, incoming_size) {
                        r matches PayloadNext::Ask(PayloadAsk::HashAside { path }) && path@
                            == self.aside_at()
                    } else {
                        self.asks_keep(path_exists, r)
                    },
                },
            },
    {
        if let Err(error) = moved {
            return PayloadNext::Failed {
                restore_aside: if self.displaced.is_some() {
                    Some(self.aside.clone())
                } else {
                    None
                },
                message: concat("local apply of downloaded payload failed: ", error.as_str()),
            };
        }
        match self.displaced {
            None => PayloadNext::Applied { drop_aside: None },
            Some((size, time)) => {
                let mut same_size = match incoming_size {
                    Some(incoming) => incoming == size,
                    None => false,
                };
                if let Some(index) = &self.index {
                    if index.matches_local(size, time) {
                        return PayloadNext::Applied { drop_aside: Some(self.aside.clone()) };
                    }
                    if index.size_bytes == size {
                        same_size = true;
                    }
                }
                if same_size {
                    PayloadNext::Ask(PayloadAsk::HashAside { path: self.aside.clone() })
                } else {
                    self.keep_copy(path_exists)
                }
            },
        }
    }

    /// The hash of the displaced content decides.
    pub fn after_hash<F: Fn(&FsPath) -> bool>(
        &self,
        hash: Result<String, String>,
        incoming_hash: &String,
        path_exists: F,
    ) -> (r: PayloadNext)
        requires
            self.has_room(path_exists),
        ensures
            match hash {
                Err(error) => payload_failed(r, "cannot hash displaced local file: "@ + error@),
                Ok(found) => if is_redundant(self.row(), found@, incoming_hash@) {
                    drops(r, self.aside_at())
                } else {
                    self.asks_keep(path_exists, r)
                },
            },
    {
        match hash {
            Err(error) => PayloadNext::Failed {
                restore_aside: None,
                message: concat("cannot hash displaced local file: ", error.as_str()),
            },
            Ok(found) => {
                let as_synced = match &self.index {
                    Some(index) => same_text(found.as_str(), index.content_hash.as_str()),
                    None => false,
                };
                if as_synced || same_text(found.as_str(), incoming_hash.as_str()) {
                    PayloadNext::Applied { drop_aside: Some(self.aside.clone()) }
                } else {
                    self.keep_copy(path_exists)
                }
            },
        }
    }

    /// The displaced content became the conflict copy at `to`, or not. Its tag
    /// moves along.
    pub fn after_keep_copy(&self, to: &FsPath, kept: Result<(), String>) -> (r: (
        PayloadNext,
        Vec<Effect>,
    ))
        ensures
            match kept {
                Ok(_) => {
                    &&& r.0 matches PayloadNext::Ask(PayloadAsk::QueueCopy { path, kind })
                    &&& path@ == to@
                    &&& kind == PendingIntentKind::Upload
                    &&& effect_views(r.1@) == seq![
                        EffectView::RelocateTag { from: self.aside_at(), to: to@ },
                    ]
                },
                Err(error) => payload_failed(
                    r.0,
                    "cannot stage conflict copy from displaced file: "@ + error@,
                ) && r.1@.len() == 0,
            },
    {
        match kept {
            Ok(_) => {
                let mut effects: Vec<Effect> = Vec::new();
                effects.push(Effect::RelocateTag { from: self.aside.clone(), to: to.clone() });
                assert(effect_views(effects@) =~= seq![
                    EffectView::RelocateTag { from: self.aside_at(), to: to@ },
                ]);
                (
                    PayloadNext::Ask(
                        PayloadAsk::QueueCopy { path: to.clone(), kind: PendingIntentKind::Upload },
                    ),
                    effects,
                )
            },
            Err(error) => (
                PayloadNext::Failed {
                    restore_aside: None,
                    message: concat(
                        "cannot stage conflict copy from displaced file: ",
                        error.as_str(),
                    ),
                },
                Vec::new(),
            ),
        }
    }

    /// The copy's upload was queued, or not.
    pub fn after_queue_copy(&self, queued: Result<(), String>) -> (r: PayloadNext)
        ensures
            match queued {
                Ok(_) => r == PayloadNext::KeptBoth,
                Err(error) => payload_failed(r, "cannot enqueue conflict-copy upload: "@ + error@),
            },
    {
        match queued {
            Ok(_) => PayloadNext::KeptBoth,
            Err(error) => PayloadNext::Failed {
                restore_aside: None,
                message: concat("cannot enqueue conflict-copy upload: ", error.as_str()),
            },
        }
    }
}

/// A local edit is never silently overwritten by a download: content set aside
/// whose size and time are not the recorded ones, and whose hash is neither
/// the recorded one nor the payload's, is always kept as a copy, at the first
/// free conflict copy of the target, and once it is there its upload is queued.
pub proof fn law_diverged_content_is_kept<F: Fn(&FsPath) -> bool>(
    apply: PayloadApply,
    size: u64,
    time: Option<SystemTime>,
    incoming_size: Option<u64>,
    hash: String,
    incoming_hash: String,
    path_exists: F,
    moved: PayloadNext,
    hashed: PayloadNext,
    to: FsPath,
    kept: (PayloadNext, Vec<Effect>),
)
    requires
        apply.aside() == Some((size, time)),
        !(apply.row() matches Some(i) && i.local_unchanged(size, time)),
        !is_redundant(apply.row(), hash@, incoming_hash@),
        call_ensures(
            PayloadApply::after_move_in::<F>,
            (&apply, Ok(()), incoming_size, path_exists),
            moved,
        ),
        call_ensures(
            PayloadApply::after_hash::<F>,
            (&apply, Ok(hash), &incoming_hash, path_exists),
            hashed,
        ),
        call_ensures(PayloadApply::after_keep_copy, (&apply, &to, Ok(())), kept),
    ensures
        apply.asks_keep(path_exists, moved) || (moved matches PayloadNext::Ask(
            PayloadAsk::HashAside { path },
        ) && path@ == apply.aside_at() && apply.asks_keep(path_exists, hashed)),
        kept.0 matches PayloadNext::Ask(PayloadAsk::QueueCopy { path, kind }) && path@ == to@
            && kind == PendingIntentKind::Upload,
{
}

// ---------------------------------------------------------------------------
// Local removal of what the cloud removed
// ---------------------------------------------------------------------------

/// Why a local file goes to the trash.
#[derive(Clone, Copy, Debug, PartialEq, Eq, Structural)]
pub enum DiscardReason {
    CloudDeletion,
    MirrorRemoval,
}

/// The reason a removal in this mode is filed under.
pub fn discard_reason(mode: SyncMode) -> (r: DiscardReason)
    ensures
        r == if mode == SyncMode::TwoWay {
            DiscardReason::CloudDeletion
        } else {
            DiscardReason::MirrorRemoval
        },
{
    if mode.is_two_way() {
        DiscardReason::CloudDeletion
    } else {
        DiscardReason::MirrorRemoval
    }
}

/// What removing a path comes to.
#[derive(Debug, PartialEq, Eq)]
pub enum RemovalStep {
    Done(PlanOutcome),
    /// Remove it, a directory with everything in it.
    Discard { directory: bool },
    /// Walk the directory and remove only what is proved to be synced.
    WalkDirectory,
}

/// How a removal of what the cloud removed begins. In two-way mode a directory
/// is walked; a strict mirror removes it whole.
pub fn apply_remote_delete_locally(mode: SyncMode, local: &LocalStat) -> (r: RemovalStep)
    ensures
        match *local {
            LocalStat::Missing => r == RemovalStep::Done(
                PlanOutcome::Noop(NoopReason::LocalFileGone),
            ),
            LocalStat::Unreadable(error) => r matches RemovalStep::Done(o) && is_failure(
                o,
                RetryFailureKind::Transient,
                "cannot stat local file for remote-delete apply: "@ + error@,
            ),
            LocalStat::Directory => r == if mode == SyncMode::TwoWay {
                RemovalStep::WalkDirectory
            } else {
                RemovalStep::Discard { directory: true }
            },
            _ => r == (RemovalStep::Discard { directory: false }),
        },
{
    match local {
        LocalStat::Missing => RemovalStep::Done(PlanOutcome::Noop(NoopReason::LocalFileGone)),
        LocalStat::Unreadable(error) => RemovalStep::Done(
            PlanOutcome::Fail {
                failure: RetryFailureKind::Transient,
                message: concat(
                    "cannot stat local file for remote-delete apply: ",
                    error.as_str(),
                ),
            },
        ),
        LocalStat::Directory => if mode.is_two_way() {
            RemovalStep::WalkDirectory
        } else {
            RemovalStep::Discard { directory: true }
        },
        _ => RemovalStep::Discard { directory: false },
    }
}

/// What a removal comes to once it was tried.
pub fn after_discard(directory: bool, path: &FsPath, reply: Reply) -> (r: (
    PlanOutcome,
    Vec<Effect>,
))
    ensures
        match reply {
            Reply::Done => r.0 == PlanOutcome::AppliedLocally && effect_views(r.1@)
                == local_removal_effects(path@),
            Reply::Missing => r.0 == PlanOutcome::Noop(NoopReason::LocalFileGone) && r.1@.len()
                == 0,
            Reply::Failed(error) => is_failure(
                r.0,
                RetryFailureKind::Transient,
                (if directory {
                    "cannot delete local directory for remote-delete apply: "@
                } else {
                    "cannot delete local file for remote-delete apply: "@
                }) + error@,
            ) && r.1@.len() == 0,
        },
{
    match reply {
        Reply::Done => (PlanOutcome::AppliedLocally, record_local_removal(path)),
        Reply::Missing => (PlanOutcome::Noop(NoopReason::LocalFileGone), Vec::new()),
        Reply::Failed(error) => {
            let message = if directory {
                concat("cannot delete local directory for remote-delete apply: ", error.as_str())
            } else {
                concat("cannot delete local file for remote-delete apply: ", error.as_str())
            };
            (PlanOutcome::Fail { failure: RetryFailureKind::Transient, message }, Vec::new())
        },
    }
}

/// What a guarded directory removal comes to. `root_removed` is how removing
/// the emptied directory went; it is tried only when everything in it went.
pub fn after_walk(path: &FsPath, walked: Result<bool, String>, root_removed: Reply) -> (r: (
    PlanOutcome,
    Vec<Effect>,
))
    ensures
        match walked {
            Err(message) => is_failure(r.0, RetryFailureKind::Transient, message@) && r.1@.len()
                == 0,
            Ok(false) => r.0 == PlanOutcome::Noop(NoopReason::UnsyncedContentPreserved)
                && r.1@.len() == 0,
            Ok(true) => match root_removed {
                Reply::Done => r.0 == PlanOutcome::AppliedLocally && effect_views(r.1@)
                    == local_removal_effects(path@),
                Reply::Missing => r.0 == PlanOutcome::Noop(NoopReason::LocalDirectoryGone)
                    && r.1@.len() == 0,
                Reply::Failed(_) => r.0 == PlanOutcome::Noop(NoopReason::ContentReappeared)
                    && r.1@.len() == 0,
            },
        },
{
    match walked {
        Err(message) => (
            PlanOutcome::Fail { failure: RetryFailureKind::Transient, message },
            Vec::new(),
        ),
        Ok(false) => (PlanOutcome::Noop(NoopReason::UnsyncedContentPreserved), Vec::new()),
        Ok(true) => match root_removed {
            Reply::Done => (PlanOutcome::AppliedLocally, record_local_removal(path)),
            Reply::Missing => (PlanOutcome::Noop(NoopReason::LocalDirectoryGone), Vec::new()),
            Reply::Failed(_) => (PlanOutcome::Noop(NoopReason::ContentReappeared), Vec::new()),
        },
    }
}

/// A directory being emptied: the children still to be looked at, and whether
/// everything so far went.
#[derive(Debug)]
pub struct WalkFrame {
    pub directory: FsPath,
    pub children: Vec<FsPath>,
    pub all_removed: bool,
}

/// A guarded, depth-first removal below a directory.
#[derive(Debug)]
pub struct DirectoryWalk {
    frames: Vec<WalkFrame>,
}

/// What a walk asks for.
#[derive(Debug)]
pub enum WalkAsk {
    /// Look at this child and settle it.
    Visit(FsPath),
    /// Remove this emptied directory.
    RemoveDirectory(FsPath),
    /// The walk is over; whether everything below the root went.
    Finished(bool),
}

/// How a child was settled.
#[derive(Debug)]
pub enum ChildSettled {
    /// It was gone already.
    Gone,
    /// It is a directory with these children.
    Directory { children: Vec<FsPath> },
    /// A synced file, removed.
    Removed,
    /// A file, link or special node that stays.
    Kept,
}

pub struct FrameView {
    pub directory: Seq<Part>,
    pub children: Seq<Seq<Part>>,
    pub all_removed: bool,
}

impl View for WalkFrame {
    type V = FrameView;

    open spec fn view(&self) -> FrameView {
        FrameView {
            directory: self.directory@,
            children: path_views(self.children@),
            all_removed: self.all_removed,
        }
    }
}

impl View for DirectoryWalk {
    type V = Seq<FrameView>;

    closed spec fn view(&self) -> Seq<FrameView> {
        self.frames@.map_values(|f: WalkFrame| f@)
    }
}

/// The innermost frame with a kept entry noted.
pub open spec fn with_kept(frames: Seq<FrameView>) -> Seq<FrameView> {
    frames.update(frames.len() - 1, FrameView { all_removed: false, ..frames.last() })
}

impl DirectoryWalk {
    /// Starts below `root`, whose children have been listed.
    pub fn start(root: FsPath, children: Vec<FsPath>) -> (r: DirectoryWalk)
        ensures
            r@ == seq![
                FrameView {
                    directory: root@,
                    children: path_views(children@),
                    all_removed: true,
                },
            ],
    {
        let mut frames: Vec<WalkFrame> = Vec::new();
        frames.push(WalkFrame { directory: root, children, all_removed: true });
        let r = DirectoryWalk { frames };
        assert(r@ =~= seq![
            FrameView { directory: root@, children: path_views(children@), all_removed: true },
        ]);
        r
    }

    /// The next thing to do: a child of the innermost directory in listing
    /// order; when there is none left, the directory itself if everything in
    /// it went, else its parent goes on with something kept.
    pub fn next(&mut self) -> (r: WalkAsk)
        requires
            old(self)@.len() > 0,
        ensures
            ({
                let top = old(self)@.last();
                let outer = old(self)@.drop_last();
                if top.children.len() > 0 {
                    &&& r matches WalkAsk::Visit(child)
                    &&& child@ == top.children[0]
                    &&& final(self)@ == outer.push(
                        FrameView { children: top.children.skip(1), ..top },
                    )
                } else if outer.len() == 0 {
                    r == WalkAsk::Finished(top.all_removed) && final(self)@ == outer
                } else if top.all_removed {
                    &&& r matches WalkAsk::RemoveDirectory(directory)
                    &&& directory@ == top.directory
                    &&& final(self)@ == outer
                } else {
                    // The parent goes on, with something kept.
                    &&& outer.len() > 0
                    &&& walk_resumed(with_kept(outer), r, final(self)@)
                }
            }),
        decreases old(self)@.len(),
    {
        let ghost before = self@;
        match self.frames.pop() {
            None => WalkAsk::Finished(true),
            Some(top) => {
                let mut top = top;
                assert(self@ =~= before.drop_last());
                assert(top@ == before.last());
                if top.children.len() > 0 {
                    let ghost children = top.children@;
                    let child = top.children.remove(0);
                    assert(path_views(top.children@) =~= path_views(children).skip(1));
                    assert(child@ == path_views(children)[0]);
                    self.frames.push(top);
                    assert(self@ =~= before.drop_last().push(top@));
                    return WalkAsk::Visit(child);
                }
                if self.frames.len() == 0 {
                    return WalkAsk::Finished(top.all_removed);
                }
                if top.all_removed {
                    return WalkAsk::RemoveDirectory(top.directory);
                }
                self.note_kept();
                self.next()
            },
        }
    }

    fn note_kept(&mut self)
        requires
            old(self)@.len() > 0,
        ensures
            final(self)@ == with_kept(old(self)@),
    {
        let ghost before = self@;
        match self.frames.pop() {
            Some(top) => {
                let mut top = top;
                top.all_removed = false;
                self.frames.push(top);
            },
            None => {},
        }
        assert(self@ =~= with_kept(before));
    }

    /// Notes how the visited child was settled.
    pub fn settle(&mut self, child: FsPath, settled: ChildSettled)
        requires
            old(self)@.len() > 0,
        ensures
            final(self)@ == match settled {
                ChildSettled::Gone | ChildSettled::Removed => old(self)@,
                ChildSettled::Kept => with_kept(old(self)@),
                ChildSettled::Directory { children } => old(self)@.push(
                    FrameView {
                        directory: child@,
                        children: path_views(children@),
                        all_removed: true,
                    },
                ),
            },
    {
        let ghost before = self@;
        match settled {
            ChildSettled::Gone | ChildSettled::Removed => {},
            ChildSettled::Kept => {
                self.note_kept();
            },
            ChildSettled::Directory { children } => {
                let frame = WalkFrame { directory: child, children, all_removed: true };
                self.frames.push(frame);
                assert(self@ =~= before.push(frame@));
            },
        }
    }

    /// Notes how removing an emptied directory went, and what that leaves on
    /// record; what could not be removed keeps its parents.
    pub fn directory_settled(&mut self, directory: &FsPath, reply: &Reply) -> (r: Vec<Effect>)
        requires
            old(self)@.len() > 0,
        ensures
            final(self)@ == if *reply is Failed {
                with_kept(old(self)@)
            } else {
                old(self)@
            },
            effect_views(r@) == if *reply is Done {
                child_removed_effects(directory@)
            } else {
                Seq::empty()
            },
    {
        match reply {
            Reply::Done => record_child_removed(directory),
            Reply::Missing => {
                let effects: Vec<Effect> = Vec::new();
                assert(effect_views(effects@) =~= Seq::empty());
                effects
            },
            Reply::Failed(_) => {
                self.note_kept();
                let effects: Vec<Effect> = Vec::new();
                assert(effect_views(effects@) =~= Seq::empty());
                effects
            },
        }
    }
}

/// What a walk in the state `frames` asks next, and its state after that.
pub open spec fn walk_resumed(frames: Seq<FrameView>, ask: WalkAsk, after: Seq<FrameView>) -> bool
    decreases frames.len(),
{
    if frames.len() == 0 {
        false
    } else {
        let top = frames.last();
        let outer = frames.drop_last();
        if top.children.len() > 0 {
            &&& ask matches WalkAsk::Visit(child)
            &&& child@ == top.children[0]
            &&& after == outer.push(FrameView { children: top.children.skip(1), ..top })
        } else if outer.len() == 0 {
            ask == WalkAsk::Finished(top.all_removed) && after == outer
        } else if top.all_removed {
            &&& ask matches WalkAsk::RemoveDirectory(directory)
            &&& directory@ == top.directory
            &&& after == outer
        } else {
            walk_resumed(with_kept(outer), ask, after)
        }
    }
}

/// A directory in which something stays is never asked to be removed: the
/// walk asks to remove a directory only when all its children are settled and
/// everything in it went.
pub proof fn law_kept_content_keeps_its_directories(
    frames: Seq<FrameView>,
    ask: WalkAsk,
    after: Seq<FrameView>,
    directory: FsPath,
)
    requires
        walk_resumed(frames, ask, after),
        ask == WalkAsk::RemoveDirectory(directory),
    ensures
        exists|i: int|
            0 <= i < frames.len() && (#[trigger] frames[i]).directory == directory@
                && frames[i].all_removed && frames[i].children.len() == 0,
    decreases frames.len(),
{
    let top = frames.last();
    let outer = frames.drop_last();
    if top.children.len() > 0 {
    } else if outer.len() == 0 {
    } else if top.all_removed {
        assert(frames[frames.len() - 1] == top);
    } else {
        law_kept_content_keeps_its_directories(with_kept(outer), ask, after, directory);
        let kept = with_kept(outer);
        let i = choose|i: int|
            0 <= i < kept.len() && (#[trigger] kept[i]).directory == directory@
                && kept[i].all_removed && kept[i].children.len() == 0;
        assert(i < outer.len() - 1);
        assert(frames[i] == kept[i]);
    }
}

/// Effects of a child removed from under a remotely deleted directory.
pub open spec fn child_removed_effects(path: Seq<Part>) -> Seq<EffectView> {
    local_removal_effects(path) + tombstone_effects(path, TombstoneOrigin::Remote)
}

/// Records a child removed from under a remotely deleted directory.
pub fn record_child_removed(path: &FsPath) -> (r: Vec<Effect>)
    ensures
        effect_views(r@) == child_removed_effects(path@),
{
    let mut effects = record_local_removal(path);
    let mut tombstone = record_delete_tombstone(path, TombstoneOrigin::Remote);
    let ghost first = effects@;
    let ghost second = tombstone@;
    effects.append(&mut tombstone);
    assert(effect_views(effects@) =~= effect_views(first) + effect_views(second));
    effects
}

/// What a visited child asks for.
#[derive(Debug)]
pub enum ChildStep {
    /// Record the effects and settle the child so.
    Settled { settled: ChildSettled, effects: Vec<Effect> },
    /// List what the directory holds.
    List,
    /// Remove the file.
    Discard,
    /// Hash the file.
    Hash(SyncIndexEntry),
    /// The walk ends here.
    Failed(String),
}

/// A kept file is uploaded again, so the cloud gets it back.
pub open spec fn child_kept_effects(path: Seq<Part>) -> Seq<EffectView> {
    seq![EffectView::Enqueue { path, kind: PendingIntentKind::Upload }]
}

/// The child is settled so, with these effects.
pub open spec fn child_settled(
    r: ChildStep,
    settled: ChildSettled,
    effects: Seq<EffectView>,
) -> bool {
    r matches ChildStep::Settled { settled: s, effects: e } && s == settled && effect_views(e@)
        == effects
}

fn keep_child(child: &FsPath) -> (r: ChildStep)
    ensures
        child_settled(r, ChildSettled::Kept, child_kept_effects(child@)),
{
    let mut effects: Vec<Effect> = Vec::new();
    effects.push(Effect::Enqueue { path: child.clone(), kind: PendingIntentKind::Upload });
    assert(effect_views(effects@) =~= child_kept_effects(child@));
    ChildStep::Settled { settled: ChildSettled::Kept, effects }
}

fn settle_plainly(settled: ChildSettled) -> (r: ChildStep)
    ensures
        child_settled(r, settled, Seq::empty()),
{
    let effects: Vec<Effect> = Vec::new();
    assert(effect_views(effects@) =~= Seq::empty());
    ChildStep::Settled { settled, effects }
}

/// Looks at a child of a remotely deleted directory. Only a file the index
/// proves to be exactly what was last synced goes; links and special files
/// are never touched.
pub fn visit_child(
    child: &FsPath,
    local: &LocalStat,
    index: Result<Option<SyncIndexEntry>, String>,
) -> (r: ChildStep)
    ensures
        match *local {
            LocalStat::Missing => child_settled(r, ChildSettled::Gone, Seq::empty()),
            LocalStat::Unreadable(error) => r matches ChildStep::Failed(message) && message@
                == "cannot stat "@ + path_text(child@) + ": "@ + error@,
            LocalStat::Directory => r is List,
            LocalStat::Special => child_settled(r, ChildSettled::Kept, Seq::empty()),
            LocalStat::File { size_bytes, modified_at } => match index {
                Err(error) => r matches ChildStep::Failed(message) && message@
                    == "cannot read sync index for "@ + path_text(child@) + ": "@ + error@,
                Ok(row) => match child_verdict(size_bytes, modified_at, row) {
                    ChildVerdict::Safe => r is Discard,
                    ChildVerdict::Keep => child_settled(
                        r,
                        ChildSettled::Kept,
                        child_kept_effects(child@),
                    ),
                    ChildVerdict::NeedsHash(entry) => r == ChildStep::Hash(entry),
                },
            },
        },
{
    match local {
        LocalStat::Missing => settle_plainly(ChildSettled::Gone),
        LocalStat::Unreadable(error) => {
            let mut message = concat("cannot stat ", child.to_text().as_str());
            message.append(": ");
            message.append(error.as_str());
            ChildStep::Failed(message)
        },
        LocalStat::Directory => ChildStep::List,
        LocalStat::Special => settle_plainly(ChildSettled::Kept),
        LocalStat::File { size_bytes, modified_at } => match index {
            Err(error) => {
                let mut message = concat("cannot read sync index for ", child.to_text().as_str());
                message.append(": ");
                message.append(error.as_str());
                ChildStep::Failed(message)
            },
            Ok(row) => match child_delete_is_safe(*size_bytes, *modified_at, row) {
                ChildVerdict::Safe => ChildStep::Discard,
                ChildVerdict::Keep => keep_child(child),
                ChildVerdict::NeedsHash(entry) => ChildStep::Hash(entry),
            },
        },
    }
}

/// Goes on with a child whose content hash was needed.
pub fn hashed_child(child: &FsPath, index: &SyncIndexEntry, hash: Result<String, String>) -> (r:
    ChildStep)
    ensures
        if hash matches Ok(found) && found@ == index.content_hash@ {
            r is Discard
        } else {
            child_settled(r, ChildSettled::Kept, child_kept_effects(child@))
        },
{
    if child_is_safe_with_hash(index, hash) {
        ChildStep::Discard
    } else {
        keep_child(child)
    }
}

/// Goes on with a child that was to be removed.
pub fn discarded_child(child: &FsPath, reply: Reply) -> (r: ChildStep)
    ensures
        match reply {
            Reply::Done => child_settled(r, ChildSettled::Removed, child_removed_effects(child@)),
            Reply::Missing => child_settled(r, ChildSettled::Gone, Seq::empty()),
            Reply::Failed(error) => r matches ChildStep::Failed(message) && message@
                == "cannot delete "@ + path_text(child@) + ": "@ + error@,
        },
{
    match reply {
        Reply::Done => ChildStep::Settled {
            settled: ChildSettled::Removed,
            effects: record_child_removed(child),
        },
        Reply::Missing => settle_plainly(ChildSettled::Gone),
        Reply::Failed(error) => {
            let mut message = concat("cannot delete ", child.to_text().as_str());
            message.append(": ");
            message.append(error.as_str());
            ChildStep::Failed(message)
        },
    }
}

/// Why a directory could not be listed.
#[derive(Debug, PartialEq, Eq)]
pub enum ListingError {
    Directory(String),
    Entry(String),
}

/// Goes on with a directory that was to be listed.
pub fn listed_child(listing: Result<Vec<FsPath>, ListingError>) -> (r: ChildStep)
    ensures
        match listing {
            Ok(children) => child_settled(r, ChildSettled::Directory { children }, Seq::empty()),
            Err(ListingError::Directory(error)) => r matches ChildStep::Failed(message) && message@
                == "cannot read directory for remote-delete apply: "@ + error@,
            Err(ListingError::Entry(error)) => r matches ChildStep::Failed(message) && message@
                == "cannot read directory entry: "@ + error@,
        },
{
    match listing {
        Ok(children) => settle_plainly(ChildSettled::Directory { children }),
        Err(ListingError::Directory(error)) => ChildStep::Failed(
            concat("cannot read directory for remote-delete apply: ", error.as_str()),
        ),
        Err(ListingError::Entry(error)) => ChildStep::Failed(
            concat("cannot read directory entry: ", error.as_str()),
        ),
    }
}

/// A file under a remotely deleted directory goes only when it is what was
/// last synced: by size and time, or by content.
pub proof fn law_only_synced_children_are_removed(
    child: FsPath,
    size_bytes: u64,
    modified_at: Option<SystemTime>,
    index: Option<SyncIndexEntry>,
    hash: Result<String, String>,
    seen: ChildStep,
    hashed: ChildStep,
)
    requires
        call_ensures(
            visit_child,
            (&child, &LocalStat::File { size_bytes, modified_at }, Ok(index)),
            seen,
        ),
        seen is Hash ==> call_ensures(hashed_child, (&child, &seen->Hash_0, hash), hashed),
    ensures
        seen is Discard ==> (index matches Some(entry) && entry.local_unchanged(
            size_bytes,
            modified_at,
        )),
        seen is Hash && hashed is Discard ==> (index matches Some(entry) && hash matches Ok(found)
            && found@ == entry.content_hash@),
{
}

// ---------------------------------------------------------------------------
// Containment of remote-sourced changes
// ---------------------------------------------------------------------------

/// Where an existing path really is.
#[derive(Debug, PartialEq, Eq)]
pub enum Resolved {
    Real(FsPath),
    Missing,
    Failed(String),
}

/// Result of looking at one ancestor of a target.
#[derive(Debug, PartialEq, Eq)]
pub enum ContainmentStep {
    /// The target stays inside the root.
    Inside,
    Refused(String),
    /// Look at this ancestor next.
    Try(FsPath),
}

/// The first ancestor to look at: the target's parent.
pub fn first_ancestor(local_root: &FsPath, target: &FsPath) -> (r: FsPath)
    ensures
        r@ == if has_parent(target@) {
            target@.drop_last()
        } else {
            local_root@
        },
{
    match target.parent() {
        Some(parent) => parent,
        None => local_root.clone(),
    }
}

pub open spec fn containment_refused(r: ContainmentStep, message: Seq<char>) -> bool {
    r matches ContainmentStep::Refused(m) && m@ == message
}

/// Looks at one ancestor of a target a remote change is to be applied at. The
/// deepest existing ancestor has to resolve inside the real root; ancestors
/// that do not exist yet are passed over as long as they lie in the root.
pub fn verify_within_local_root(
    real_root: &FsPath,
    local_root: &FsPath,
    target: &FsPath,
    ancestor: &FsPath,
    resolved: Resolved,
) -> (r: ContainmentStep)
    ensures
        match resolved {
            Resolved::Real(place) => if within(place@, real_root@) {
                r == ContainmentStep::Inside
            } else {
                containment_refused(
                    r,
                    "refusing remote apply of "@ + path_text(target@)
                        + ": parent resolves outside the sync root ("@ + path_text(place@) + ")"@,
                )
            },
            Resolved::Missing => if has_parent(ancestor@) && within(
                ancestor@.drop_last(),
                local_root@,
            ) {
                r matches ContainmentStep::Try(next) && next@ == ancestor@.drop_last()
            } else {
                containment_refused(
                    r,
                    "refusing remote apply of "@ + path_text(target@)
                        + ": no existing ancestor inside the sync root"@,
                )
            },
            Resolved::Failed(error) => containment_refused(
                r,
                "cannot verify sync-root containment of "@ + path_text(ancestor@) + ": "@ + error@,
            ),
        },
        r matches ContainmentStep::Try(next) ==> next@.len() < ancestor@.len(),
{
    match resolved {
        Resolved::Real(place) => {
            if place.starts_with(real_root) {
                return ContainmentStep::Inside;
            }
            let mut message = concat("refusing remote apply of ", target.to_text().as_str());
            message.append(": parent resolves outside the sync root (");
            message.append(place.to_text().as_str());
            message.append(")");
            ContainmentStep::Refused(message)
        },
        Resolved::Missing => {
            if let Some(parent) = ancestor.parent() {
                if parent.starts_with(local_root) {
                    return ContainmentStep::Try(parent);
                }
            }
            let mut message = concat("refusing remote apply of ", target.to_text().as_str());
            message.append(": no existing ancestor inside the sync root");
            ContainmentStep::Refused(message)
        },
        Resolved::Failed(error) => {
            let mut message = concat(
                "cannot verify sync-root containment of ",
                ancestor.to_text().as_str(),
            );
            message.append(": ");
            message.append(error.as_str());
            ContainmentStep::Refused(message)
        },
    }
}

// ---------------------------------------------------------------------------
// What the steps are for
// ---------------------------------------------------------------------------

/// Content set aside is dropped on its hash exactly when that is the payload's
/// hash or the hash of the last sync; with any other hash, whatever the index
/// holds, it is kept as a copy. A hash that could not be had drops nothing.
pub proof fn law_only_known_content_is_dropped<F: Fn(&FsPath) -> bool>(
    apply: PayloadApply,
    hash: Result<String, String>,
    incoming_hash: String,
    path_exists: F,
    r: PayloadNext,
)
    requires
        call_ensures(
            PayloadApply::after_hash::<F>,
            (&apply, hash, &incoming_hash, path_exists),
            r,
        ),
    ensures
        ({
            let as_payload = hash is Ok && hash->Ok_0@ == incoming_hash@;
            let as_synced = hash is Ok && apply.row() is Some && hash->Ok_0@
                == (apply.row()->0).content_hash@;
            &&& r is Applied <==> as_payload || as_synced
            &&& r matches PayloadNext::Applied { drop_aside } ==> drop_aside is Some
                && (drop_aside->0)@ == apply.aside_at()
            &&& hash is Ok && !as_payload && !as_synced ==> (r matches PayloadNext::Ask(
                PayloadAsk::KeepCopy { from, to },
            ) && from@ == apply.aside_at() && call_ensures(path_exists, (&to,), false))
            &&& hash is Err ==> r is Failed
        }),
{
}

/// Content set aside is dropped unseen only when its size and time are those
/// of the last sync. Otherwise it is hashed where its size could be that of
/// the last sync or of the payload, and kept as a copy where it could not. A
/// payload that did not move in drops nothing: what was set aside goes back.
pub proof fn law_content_set_aside_is_never_lost<F: Fn(&FsPath) -> bool>(
    apply: PayloadApply,
    moved: Result<(), String>,
    incoming_size: Option<u64>,
    path_exists: F,
    r: PayloadNext,
)
    requires
        call_ensures(
            PayloadApply::after_move_in::<F>,
            (&apply, moved, incoming_size, path_exists),
            r,
        ),
    ensures
        moved is Err <==> r is Failed,
        r matches PayloadNext::Failed { restore_aside, .. } ==> (restore_aside is Some
            <==> apply.aside() is Some) && (restore_aside matches Some(path) ==> path@
            == apply.aside_at()),
        moved is Ok && apply.aside() is None ==> r == (PayloadNext::Applied { drop_aside: None }),
        moved is Ok && apply.aside() is Some ==> ({
            let (size, time) = apply.aside()->0;
            let as_synced = apply.row() is Some && (apply.row()->0).size_bytes == size
                && (apply.row()->0).local_modified_at is Some && (apply.row()->0).local_modified_at
                == time;
            let same_size = incoming_size == Some(size) || apply.row() is Some
                && (apply.row()->0).size_bytes == size;
            &&& r is Applied <==> as_synced
            &&& r matches PayloadNext::Applied { drop_aside } ==> drop_aside is Some
                && (drop_aside->0)@ == apply.aside_at()
            &&& !as_synced && same_size ==> (r matches PayloadNext::Ask(
                PayloadAsk::HashAside { path },
            ) && path@ == apply.aside_at())
            &&& !as_synced && !same_size ==> (r matches PayloadNext::Ask(
                PayloadAsk::KeepCopy { from, to },
            ) && from@ == apply.aside_at() && call_ensures(path_exists, (&to,), false))
        }),
{
}

/// In two-way mode a regular file at the target is set aside before anything
/// else; the payload moves straight in only where no file stands, or in a
/// one-way mode. An index that cannot be read moves nothing.
pub proof fn law_a_local_file_is_set_aside_first(
    plan: TransferPlan,
    device_id: &str,
    enqueued_at: SystemTime,
    mode: SyncMode,
    index: Result<Option<SyncIndexEntry>, String>,
    local: LocalStat,
    r: (PayloadApply, PayloadNext),
)
    requires
        call_ensures(
            PayloadApply::start,
            (&plan, device_id, enqueued_at, mode, index, &local),
            r,
        ),
    ensures
        mode == SyncMode::TwoWay && index is Err <==> r.1 is Failed,
        (r.1 matches PayloadNext::Ask(PayloadAsk::SetAside { .. })) <==> (mode == SyncMode::TwoWay
            && index is Ok && local is File),
        (r.1 matches PayloadNext::Ask(PayloadAsk::MoveIn { .. })) <==> (mode != SyncMode::TwoWay
            || index is Ok && local !is File),
        r.1 matches PayloadNext::Ask(PayloadAsk::SetAside { from, to }) ==> from@
            == plan.local_path@ && to@ == r.0.aside_at() && r.0.row() == index->Ok_0
            && r.0.aside() == Some((local->size_bytes, local->modified_at)),
        r.1 matches PayloadNext::Ask(PayloadAsk::MoveIn { from, to }) ==> plan.staging_path is Some
            && from@ == plan.staging_path->0@ && to@ == plan.local_path@,
        r.0.goes_to() == plan.local_path@,
        r.0.device() == device_id@,
        r.0.queued_at() == enqueued_at,
{
}

/// The payload moves in only once the local file is aside or gone; a file that
/// could not be set aside stays where it is.
pub proof fn law_nothing_moves_in_over_a_file(
    apply: &mut PayloadApply,
    reply: Reply,
    r: PayloadNext,
)
    requires
        call_ensures(PayloadApply::after_set_aside, (apply, reply), r),
    ensures
        reply is Failed <==> r is Failed,
        r matches PayloadNext::Failed { restore_aside, .. } ==> restore_aside is None,
        reply !is Failed ==> (r matches PayloadNext::Ask(PayloadAsk::MoveIn { from, to }) && from@
            == old(apply).staged_at() && to@ == old(apply).goes_to()),
        reply is Done ==> final(apply).aside() == old(apply).aside(),
        reply is Missing ==> final(apply).aside() is None,
        final(apply).aside_at() == old(apply).aside_at(),
        final(apply).goes_to() == old(apply).goes_to(),
        final(apply).row() == old(apply).row(),
{
}

/// A kept copy is uploaded: only then are both versions kept.
pub proof fn law_a_kept_copy_is_uploaded(
    apply: PayloadApply,
    to: FsPath,
    kept: Result<(), String>,
    copied: (PayloadNext, Vec<Effect>),
    queued: Result<(), String>,
    r: PayloadNext,
)
    requires
        call_ensures(PayloadApply::after_keep_copy, (&apply, &to, kept), copied),
        call_ensures(PayloadApply::after_queue_copy, (&apply, queued), r),
    ensures
        kept is Ok ==> (copied.0 matches PayloadNext::Ask(PayloadAsk::QueueCopy { path, kind })
            && path@ == to@ && kind == PendingIntentKind::Upload),
        kept is Err ==> copied.0 is Failed,
        r is KeptBoth <==> queued is Ok,
        r is Failed <==> queued is Err,
{
}

/// An upload conflict keeps both versions: the canonical path is fetched
/// again, the local file is renamed to a free conflict copy, and the copy is
/// uploaded. The steps come in that order, each only after the one before was
/// carried out.
pub proof fn law_a_conflict_keeps_both_in_order<F: Fn(&FsPath) -> bool>(
    original: FsPath,
    device_id: &str,
    enqueued_at: SystemTime,
    path_exists: F,
    begun: (ConflictResolution, ConflictAsk),
    asked: ConflictAsk,
    reply: Reply,
    next: ConflictNext,
)
    requires
        call_ensures(
            resolve_upload_conflict::<F>,
            (&original, device_id, enqueued_at, path_exists),
            begun,
        ),
        call_ensures(conflict_step, (&begun.0, asked, reply), next),
    ensures
        begun.1 matches ConflictAsk::QueueRestore { path, kind } && path@ == original@ && kind
            == PendingIntentKind::Download,
        call_ensures(path_exists, (&begun.0.kept_at(),), false),
        reply is Done ==> match asked {
            ConflictAsk::QueueRestore { .. } => next matches ConflictNext::Ask {
                ask: ConflictAsk::RenameLoser { from, to },
                effects,
            } && from@ == original@ && to@ == begun.0.kept_at()@ && effects@.len() == 0,
            ConflictAsk::RenameLoser { .. } => next matches ConflictNext::Ask {
                ask: ConflictAsk::QueueCopy { path, kind },
                effects,
            } && path@ == begun.0.kept_at()@ && kind == PendingIntentKind::Upload && effect_views(
                effects@,
            ) =~= seq![
                EffectView::EchoLocalDelete { path: original@ },
                EffectView::RelocateTag { from: original@, to: begun.0.kept_at()@ },
                EffectView::RemoveSyncIndex { path: original@ },
            ],
            ConflictAsk::QueueCopy { .. } => next == ConflictNext::Done(
                PlanOutcome::ConflictResolved,
            ),
        },
        reply is Failed ==> (next matches ConflictNext::Done(PlanOutcome::Fail { failure, .. })
            && failure is Transient),
        next == ConflictNext::Done(PlanOutcome::ConflictResolved) ==> asked is QueueCopy && reply
            is Done,
        asked is RenameLoser && reply is Missing ==> (next matches ConflictNext::Done(outcome)
            && outcome is Noop),
{
    if let ConflictNext::Ask { effects, .. } = next {
        assert(effect_views(effects@).len() == effects@.len());
    }
}

/// A file under a remotely deleted directory goes unseen only when its size
/// and time are those of the last sync, and on its hash only when that is the
/// last synced one. One that was never synced, or has another size, is kept
/// and uploaded again. Links and special files stay, and a directory is looked
/// into.
pub proof fn law_unsynced_children_stay(
    child: FsPath,
    local: LocalStat,
    index: Option<SyncIndexEntry>,
    r: ChildStep,
)
    requires
        call_ensures(visit_child, (&child, &local, Ok(index)), r),
    ensures
        r is Discard <==> (local matches LocalStat::File { size_bytes, modified_at }
            && index matches Some(row) && row.size_bytes == size_bytes && modified_at is Some
            && row.local_modified_at == modified_at),
        r is Hash <==> (local matches LocalStat::File { size_bytes, modified_at }
            && index matches Some(row) && row.size_bytes == size_bytes && !(modified_at is Some
            && row.local_modified_at == modified_at)),
        r matches ChildStep::Hash(row) ==> index == Some(row),
        r is List <==> local is Directory,
        local is File && (index is None || (index->0).size_bytes != local->size_bytes) ==> (
        r matches ChildStep::Settled { settled, effects } && settled is Kept
            && effect_views(effects@) =~= seq![
            EffectView::Enqueue { path: child@, kind: PendingIntentKind::Upload },
        ]),
        local is Special ==> (r matches ChildStep::Settled { settled, effects } && settled is Kept
            && effects@.len() == 0),
        local is Missing ==> (r matches ChildStep::Settled { settled, effects } && settled is Gone
            && effects@.len() == 0),
        local is Unreadable <==> r is Failed,
{
    if let ChildStep::Settled { effects, .. } = r {
        assert(effect_views(effects@).len() == effects@.len());
    }
}

/// A child whose hash had to be taken goes exactly when the hash is the last
/// synced one; otherwise it is kept and uploaded again.
pub proof fn law_a_hashed_child_goes_only_as_synced(
    child: FsPath,
    index: SyncIndexEntry,
    hash: Result<String, String>,
    r: ChildStep,
)
    requires
        call_ensures(hashed_child, (&child, &index, hash), r),
    ensures
        r is Discard <==> hash is Ok && hash->Ok_0@ == index.content_hash@,
        r !is Discard ==> (r matches ChildStep::Settled { settled, effects } && settled is Kept
            && effect_views(effects@) =~= seq![
            EffectView::Enqueue { path: child@, kind: PendingIntentKind::Upload },
        ]),
{
    if let ChildStep::Settled { effects, .. } = r {
        assert(effect_views(effects@).len() == effects@.len());
    }
}

/// A child that was removed leaves its tag, echo, index row and tombstone in
/// order; one that was gone already or could not be removed leaves nothing.
pub proof fn law_a_removed_child_is_on_record(child: FsPath, reply: Reply, r: ChildStep)
    requires
        call_ensures(discarded_child, (&child, reply), r),
    ensures
        reply is Done ==> (r matches ChildStep::Settled { settled, effects } && settled is Removed
            && effect_views(effects@) =~= seq![
            EffectView::RemoveTag { path: child@ },
            EffectView::EchoLocalDelete { path: child@ },
            EffectView::RemoveSyncIndex { path: child@ },
            EffectView::RecordTombstone { path: child@, origin: TombstoneOrigin::Remote },
            EffectView::ReleaseNameAlias { path: child@ },
        ]),
        reply is Missing ==> (r matches ChildStep::Settled { settled, effects } && settled is Gone
            && effects@.len() == 0),
        reply is Failed <==> r is Failed,
{
    if let ChildStep::Settled { effects, .. } = r {
        assert(effect_views(effects@).len() == effects@.len());
    }
}

/// In two-way mode a directory the cloud removed is walked, never removed
/// whole; a strict mirror removes it whole. What is gone already, or cannot be
/// looked at, is left alone.
pub proof fn law_a_directory_is_walked_before_it_goes(
    mode: SyncMode,
    local: LocalStat,
    r: RemovalStep,
)
    requires
        call_ensures(apply_remote_delete_locally, (mode, &local), r),
    ensures
        r is WalkDirectory <==> local is Directory && mode == SyncMode::TwoWay,
        r is Discard <==> (local is File || local is Special || local is Directory && mode
            != SyncMode::TwoWay),
        r matches RemovalStep::Discard { directory } ==> directory == local is Directory,
        local is Missing ==> (r matches RemovalStep::Done(outcome) && outcome is Noop),
        local is Unreadable ==> (r matches RemovalStep::Done(outcome) && outcome is Fail),
{
}

/// A removal counts as applied only when it was carried out, and leaves the
/// tag's removal and the announced echo on record; nothing else does.
pub proof fn law_only_a_carried_out_removal_counts(
    directory: bool,
    path: FsPath,
    reply: Reply,
    r: (PlanOutcome, Vec<Effect>),
)
    requires
        call_ensures(after_discard, (directory, &path, reply), r),
    ensures
        r.0 is AppliedLocally <==> reply is Done,
        r.0 is Noop <==> reply is Missing,
        r.0 is Fail <==> reply is Failed,
        reply is Done ==> effect_views(r.1@) =~= seq![
            EffectView::RemoveTag { path: path@ },
            EffectView::EchoLocalDelete { path: path@ },
        ],
        reply !is Done ==> r.1@.len() == 0,
{
    assert(effect_views(r.1@).len() == r.1@.len());
}

/// The root of a walked directory counts as removed only when everything in it
/// went and its own removal was carried out.
pub proof fn law_a_walk_removes_only_an_emptied_root(
    path: FsPath,
    walked: Result<bool, String>,
    root_removed: Reply,
    r: (PlanOutcome, Vec<Effect>),
)
    requires
        call_ensures(after_walk, (&path, walked, root_removed), r),
    ensures
        r.0 is AppliedLocally <==> walked == Ok::<bool, String>(true) && root_removed is Done,
        r.0 is Fail <==> walked is Err,
        r.0 is AppliedLocally <==> r.1@.len() > 0,
        walked == Ok::<bool, String>(false) ==> r.0 == PlanOutcome::Noop(
            NoopReason::UnsyncedContentPreserved,
        ),
{
    assert(effect_views(r.1@).len() == r.1@.len());
}

/// A remote change is applied only where the deepest existing ancestor of its
/// target really lies inside the sync root. An ancestor that does not exist
/// is passed over for its parent, as long as that lies inside the root.
pub proof fn law_remote_changes_stay_inside_the_root(
    real_root: FsPath,
    local_root: FsPath,
    target: FsPath,
    ancestor: FsPath,
    resolved: Resolved,
    r: ContainmentStep,
)
    requires
        call_ensures(
            verify_within_local_root,
            (&real_root, &local_root, &target, &ancestor, resolved),
            r,
        ),
    ensures
        r is Inside <==> (resolved matches Resolved::Real(place) && place@.len()
            >= real_root@.len() && place@.take(real_root@.len() as int) == real_root@),
        r matches ContainmentStep::Try(next) ==> resolved is Missing && ancestor@.len() > 0
            && next@ == ancestor@.drop_last() && next@.len() >= local_root@.len() && next@.take(
            local_root@.len() as int,
        ) == local_root@,
        resolved is Failed ==> r is Refused,
{
}

proof fn lemma_a_kept_walk_removes_nothing(
    frames: Seq<FrameView>,
    ask: WalkAsk,
    after: Seq<FrameView>,
)
    requires
        frames.len() > 0,
        !frames.last().all_removed,
        walk_resumed(frames, ask, after),
    ensures
        ask !is RemoveDirectory,
        ask != WalkAsk::Finished(true),
        ask matches WalkAsk::Visit(child) ==> after.len() > 0 && after.len() <= frames.len()
            && frames[after.len() - 1].children.len() > 0 && child@ == frames[after.len()
            - 1].children[0] && after.last().children == frames[after.len() - 1].children.skip(1)
            && !after.last().all_removed && after.last().directory == frames[after.len()
            - 1].directory,
    decreases frames.len(),
{
    let top = frames.last();
    let outer = frames.drop_last();
    if top.children.len() == 0 && outer.len() > 0 {
        lemma_a_kept_walk_removes_nothing(with_kept(outer), ask, after);
        if let WalkAsk::Visit(child) = ask {
            let i = after.len() - 1;
            assert(with_kept(outer)[i].children == frames[i].children);
            assert(with_kept(outer)[i].directory == frames[i].directory);
        }
    }
}

/// A walk visits every child it was told of, the first one left of the
/// innermost directory that has any. It removes a directory only once no child
/// of it is left and none was kept, and it ends with everything gone only if
/// nothing was kept at all.
pub proof fn law_only_an_emptied_directory_is_removed(walk: &mut DirectoryWalk, r: WalkAsk)
    requires
        call_ensures(DirectoryWalk::next, (walk,), r),
        old(walk)@.len() > 0,
    ensures
        r matches WalkAsk::RemoveDirectory(directory) ==> old(walk)@.last().children.len() == 0
            && old(walk)@.last().all_removed && directory@ == old(walk)@.last().directory && final(walk)@ == old(walk)@.drop_last() && old(walk)@.len() > 1,
        r == WalkAsk::Finished(true) ==> old(walk)@.len() == 1 && old(walk)@[0].children.len() == 0 && old(walk)@[0].all_removed,
        old(walk)@.last().children.len() > 0 ==> r is Visit && r->Visit_0@ == old(walk)@.last().children[0] && final(walk)@.len() == old(walk)@.len() && final(walk)@.last().children == old(walk)@.last().children.skip(1) && final(walk)@.last().all_removed == old(walk)@.last().all_removed,
        r matches WalkAsk::Visit(child) ==> final(walk)@.len() > 0 && final(walk)@.len() <= old(walk)@.len() && old(walk)@[final(walk)@.len() - 1].children.len() > 0 && child@ == old(walk)@[final(walk)@.len() - 1].children[0] && final(walk)@.last().children == old(walk)@[final(walk)@.len() - 1].children.skip(1),
        r is Visit && old(walk)@.last().children.len() == 0 ==> !final(walk)@.last().all_removed,
{
    let before = old(walk)@;
    let top = before.last();
    let outer = before.drop_last();
    if top.children.len() == 0 && outer.len() > 0 && !top.all_removed {
        lemma_a_kept_walk_removes_nothing(with_kept(outer), r, final(walk)@);
        if r is Visit {
            let i = final(walk)@.len() - 1;
            assert(with_kept(outer)[i].children == before[i].children);
        }
    }
}

/// A child that stays keeps its directory, one that went does not, and one
/// that turned out to be a directory is walked in its turn.
pub proof fn law_a_kept_child_keeps_its_directory(
    walk: &mut DirectoryWalk,
    child: FsPath,
    settled: ChildSettled,
)
    requires
        call_ensures(DirectoryWalk::settle, (walk, child, settled), ()),
        old(walk)@.len() > 0,
    ensures
        settled is Gone || settled is Removed ==> final(walk)@ == old(walk)@,
        settled is Kept ==> final(walk)@.len() == old(walk)@.len() && !final(walk)@.last().all_removed && final(walk)@.last().children == old(walk)@.last().children
            && final(walk)@.last().directory == old(walk)@.last().directory && final(walk)@.drop_last() == old(walk)@.drop_last(),
        settled matches ChildSettled::Directory { children } ==> final(walk)@.len() == old(walk)@.len() + 1 && final(walk)@.drop_last() == old(walk)@ && final(walk)@.last().directory
            == child@ && final(walk)@.last().children == path_views(children@) && final(walk)@.last().all_removed,
{
    if settled is Kept {
        assert(final(walk)@.drop_last() =~= old(walk)@.drop_last());
    }
    if settled is Directory {
        assert(final(walk)@.drop_last() =~= old(walk)@);
    }
}

/// An emptied directory is on record as removed only if it was; one that could
/// not be removed stays, and so does what it lies in.
pub proof fn law_only_a_removed_directory_is_on_record(
    walk: &mut DirectoryWalk,
    directory: FsPath,
    reply: Reply,
    r: Vec<Effect>,
)
    requires
        call_ensures(DirectoryWalk::directory_settled, (walk, &directory, &reply), r),
        old(walk)@.len() > 0,
    ensures
        reply is Failed ==> r@.len() == 0 && !final(walk)@.last().all_removed,
        !(reply is Failed) ==> final(walk)@ == old(walk)@,
        reply is Missing ==> r@.len() == 0,
        reply is Done ==> effect_views(r@) =~= seq![
            EffectView::RemoveTag { path: directory@ },
            EffectView::EchoLocalDelete { path: directory@ },
            EffectView::RemoveSyncIndex { path: directory@ },
            EffectView::RecordTombstone { path: directory@, origin: TombstoneOrigin::Remote },
            EffectView::ReleaseNameAlias { path: directory@ },
        ],
{
    assert(effect_views(r@).len() == r@.len());
}

/// A directory that can be listed is walked, and one that cannot ends the
/// walk.
pub proof fn law_an_unlisted_directory_ends_the_walk(
    listing: Result<Vec<FsPath>, ListingError>,
    r: ChildStep,
)
    requires
        call_ensures(listed_child, (listing,), r),
    ensures
        listing is Err ==> r is Failed,
        listing matches Ok(children) ==> (r matches ChildStep::Settled { settled, effects }
            && settled == (ChildSettled::Directory { children }) && effects@.len() == 0),
{
    if let ChildStep::Settled { effects, .. } = r {
        assert(effect_views(effects@).len() == effects@.len());
    }
}

/// What is set aside lies beside its target under the daemon's own prefix, so
/// that it is never synced.
pub proof fn law_a_file_set_aside_is_invisible(plan: TransferPlan, r: FsPath)
    requires
        call_ensures(aside_path, (&plan,), r),
    ensures
        has_parent(plan@.local_path) ==> r@.len() == plan@.local_path.len() && r@.drop_last()
            == plan@.local_path.drop_last(),
        r@.last() matches Part::Normal(name) && name.len() >= ".vapor-tmp-"@.len() && name.take(
            ".vapor-tmp-"@.len() as int,
        ) == ".vapor-tmp-"@,
{
    let name = r@.last()->Normal_0;
    assert(name.take(".vapor-tmp-"@.len() as int) =~= ".vapor-tmp-"@);
    if has_parent(plan@.local_path) {
        assert(r@.drop_last() =~= plan@.local_path.drop_last());
    }
}

/// A conflict is stamped with the time its intent was queued, in milliseconds,
/// so that trying again gives the same name.
pub proof fn law_a_conflict_keeps_its_stamp(queued: SystemTime, r: u64)
    requires
        call_ensures(conflict_timestamp, (queued,), r),
        0 <= queued.nanos < 1_000_000_000_000_000_000_000,
    ensures
        r * 1_000_000 <= queued.nanos < (r + 1) * 1_000_000,
{
}

/// Content is discarded for a deletion in the cloud in two-way mode, and to
/// match the mirror otherwise.
pub proof fn law_a_discard_names_its_reason(mode: SyncMode, r: DiscardReason)
    requires
        call_ensures(discard_reason, (mode,), r),
    ensures
        mode is TwoWay <==> r is CloudDeletion,
        !(mode is TwoWay) <==> r is MirrorRemoval,
{
}

/// A removal that removed nothing says why, and records nothing.
pub proof fn law_a_removal_without_effect_says_why(
    path: FsPath,
    mode: SyncMode,
    directory: bool,
    reply: Reply,
    removed: Reply,
    missing: RemovalStep,
    discarded: (PlanOutcome, Vec<Effect>),
    walked: (PlanOutcome, Vec<Effect>),
    kept: (PlanOutcome, Vec<Effect>),
)
    requires
        call_ensures(apply_remote_delete_locally, (mode, &LocalStat::Missing), missing),
        call_ensures(after_discard, (directory, &path, reply), discarded),
        call_ensures(after_walk, (&path, Ok(true), removed), walked),
        call_ensures(after_walk, (&path, Ok(false), removed), kept),
    ensures
        missing == RemovalStep::Done(PlanOutcome::Noop(NoopReason::LocalFileGone)),
        reply is Missing <==> discarded.0 == PlanOutcome::Noop(NoopReason::LocalFileGone),
        reply is Failed ==> discarded.0 is Fail && discarded.0->Fail_failure is Transient
            && discarded.1@.len() == 0,
        reply is Done <==> discarded.0 is AppliedLocally,
        removed is Missing <==> walked.0 == PlanOutcome::Noop(NoopReason::LocalDirectoryGone),
        removed is Failed <==> walked.0 == PlanOutcome::Noop(NoopReason::ContentReappeared),
        removed is Done <==> walked.0 is AppliedLocally,
        !(removed is Done) ==> walked.1@.len() == 0,
        kept.0 == PlanOutcome::Noop(NoopReason::UnsyncedContentPreserved),
        kept.1@.len() == 0,
{
}

/// A conflict whose file vanished is over, and one that cannot go on is tried
/// again.
pub proof fn law_a_vanished_conflict_is_over(
    resolution: ConflictResolution,
    asked: ConflictAsk,
    reply: Reply,
    r: ConflictNext,
)
    requires
        call_ensures(conflict_step, (&resolution, asked, reply), r),
    ensures
        asked is RenameLoser && reply is Missing ==> r == ConflictNext::Done(
            PlanOutcome::Noop(NoopReason::VanishedDuringConflict),
        ),
        reply is Failed ==> (r matches ConflictNext::Done(outcome) && outcome is Fail
            && outcome->Fail_failure is Transient),
        !(asked is RenameLoser) && reply is Missing ==> (r matches ConflictNext::Done(outcome)
            && outcome is Fail),
        asked is QueueCopy && reply is Done ==> r == ConflictNext::Done(
            PlanOutcome::ConflictResolved,
        ),
        r == ConflictNext::Done(PlanOutcome::ConflictResolved) ==> asked is QueueCopy && reply
            is Done,
{
}

} // verus!
