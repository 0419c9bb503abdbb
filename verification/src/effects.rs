//! What a decision asks the caller to record: the sync index, tombstones,
//! echoes, tags and follow-up intents.
use vstd::prelude::*;

use crate::clock::SystemTime;
use crate::event_intents::PendingIntentKind;
use crate::paths::{FsPath, Part};
use crate::planner::{optional_text, PlanView, TransferPlan};
use crate::records::{clone_optional, LocalStat, SyncIndexEntry};

verus! {

/// Which side deleted.
#[derive(Clone, Copy, Debug, PartialEq, Eq, Structural)]
pub enum TombstoneOrigin {
    Local,
    Remote,
}

/// One thing to record. All are best effort: a failure is logged and the
/// next transfer of the path mends it.
#[derive(Debug, PartialEq, Eq)]
pub enum Effect {
    RemoveSyncIndex { path: FsPath },
    RecordTombstone { path: FsPath, origin: TombstoneOrigin },
    /// A deleted file that stood in for a colliding cloud name gives the
    /// alias back.
    ReleaseNameAlias { path: FsPath },
    SetSyncIndex {
        path: FsPath,
        content_hash: String,
        size_bytes: u64,
        local_modified_at: Option<SystemTime>,
        remote_modified_at: Option<SystemTime>,
        last_op_id: String,
    },
    ClearTombstone { path: FsPath },
    Enqueue { path: FsPath, kind: PendingIntentKind },
    EchoRemoteDelete { remote_path: String },
    EchoRemoteWrite { remote_path: String, op_id: String, content_hash: String, size_bytes: u64 },
    EchoLocalDelete { path: FsPath },
    EchoLocalWrite {
        path: FsPath,
        op_id: Option<String>,
        content_hash: String,
        size_bytes: u64,
    },
    RemoveTag { path: FsPath },
    WriteTag { path: FsPath, op_id: String },
    RelocateTag { from: FsPath, to: FsPath },
    RemoveFile { path: FsPath },
}

/// An effect as a mathematical value.
pub enum EffectView {
    RemoveSyncIndex { path: Seq<Part> },
    RecordTombstone { path: Seq<Part>, origin: TombstoneOrigin },
    ReleaseNameAlias { path: Seq<Part> },
    SetSyncIndex {
        path: Seq<Part>,
        content_hash: Seq<char>,
        size_bytes: u64,
        local_modified_at: Option<SystemTime>,
        remote_modified_at: Option<SystemTime>,
        last_op_id: Seq<char>,
    },
    ClearTombstone { path: Seq<Part> },
    Enqueue { path: Seq<Part>, kind: PendingIntentKind },
    EchoRemoteDelete { remote_path: Seq<char> },
    EchoRemoteWrite {
        remote_path: Seq<char>,
        op_id: Seq<char>,
        content_hash: Seq<char>,
        size_bytes: u64,
    },
    EchoLocalDelete { path: Seq<Part> },
    EchoLocalWrite {
        path: Seq<Part>,
        op_id: Option<Seq<char>>,
        content_hash: Seq<char>,
        size_bytes: u64,
    },
    RemoveTag { path: Seq<Part> },
    WriteTag { path: Seq<Part>, op_id: Seq<char> },
    RelocateTag { from: Seq<Part>, to: Seq<Part> },
    RemoveFile { path: Seq<Part> },
}

impl View for Effect {
    type V = EffectView;

    open spec fn view(&self) -> EffectView {
        match self {
            Effect::RemoveSyncIndex { path } => EffectView::RemoveSyncIndex { path: path@ },
            Effect::RecordTombstone { path, origin } => EffectView::RecordTombstone {
                path: path@,
                origin: *origin,
            },
            Effect::ReleaseNameAlias { path } => EffectView::ReleaseNameAlias { path: path@ },
            Effect::SetSyncIndex {
                path,
                content_hash,
                size_bytes,
                local_modified_at,
                remote_modified_at,
                last_op_id,
            } => EffectView::SetSyncIndex {
                path: path@,
                content_hash: content_hash@,
                size_bytes: *size_bytes,
                local_modified_at: *local_modified_at,
                remote_modified_at: *remote_modified_at,
                last_op_id: last_op_id@,
            },
            Effect::ClearTombstone { path } => EffectView::ClearTombstone { path: path@ },
            Effect::Enqueue { path, kind } => EffectView::Enqueue { path: path@, kind: *kind },
            Effect::EchoRemoteDelete { remote_path } => EffectView::EchoRemoteDelete {
                remote_path: remote_path@,
            },
            Effect::EchoRemoteWrite { remote_path, op_id, content_hash, size_bytes } => EffectView::EchoRemoteWrite {
                remote_path: remote_path@,
                op_id: op_id@,
                content_hash: content_hash@,
                size_bytes: *size_bytes,
            },
            Effect::EchoLocalDelete { path } => EffectView::EchoLocalDelete { path: path@ },
            Effect::EchoLocalWrite { path, op_id, content_hash, size_bytes } => EffectView::EchoLocalWrite {
                path: path@,
                op_id: optional_text(*op_id),
                content_hash: content_hash@,
                size_bytes: *size_bytes,
            },
            Effect::RemoveTag { path } => EffectView::RemoveTag { path: path@ },
            Effect::WriteTag { path, op_id } => EffectView::WriteTag { path: path@, op_id: op_id@ },
            Effect::RelocateTag { from, to } => EffectView::RelocateTag { from: from@, to: to@ },
            Effect::RemoveFile { path } => EffectView::RemoveFile { path: path@ },
        }
    }
}

pub open spec fn effect_views(effects: Seq<Effect>) -> Seq<EffectView> {
    effects.map_values(|e: Effect| e@)
}

/// Effects of a carried-out deletion.
pub open spec fn tombstone_effects(path: Seq<Part>, origin: TombstoneOrigin) -> Seq<EffectView> {
    seq![
        EffectView::RemoveSyncIndex { path },
        EffectView::RecordTombstone { path, origin },
        EffectView::ReleaseNameAlias { path },
    ]
}

/// The index row goes, the tombstone is recorded and a name alias released.
pub fn record_delete_tombstone(path: &FsPath, origin: TombstoneOrigin) -> (r: Vec<Effect>)
    ensures
        effect_views(r@) == tombstone_effects(path@, origin),
{
    let mut effects: Vec<Effect> = Vec::new();
    effects.push(Effect::RemoveSyncIndex { path: path.clone() });
    effects.push(Effect::RecordTombstone { path: path.clone(), origin });
    effects.push(Effect::ReleaseNameAlias { path: path.clone() });
    assert(effect_views(effects@) =~= tombstone_effects(path@, origin));
    effects
}

/// Effects of a carried-out local removal.
pub open spec fn local_removal_effects(path: Seq<Part>) -> Seq<EffectView> {
    seq![EffectView::RemoveTag { path }, EffectView::EchoLocalDelete { path }]
}

/// The op-id tag goes and the watcher's echo is announced.
pub fn record_local_removal(path: &FsPath) -> (r: Vec<Effect>)
    ensures
        effect_views(r@) == local_removal_effects(path@),
{
    let mut effects: Vec<Effect> = Vec::new();
    effects.push(Effect::RemoveTag { path: path.clone() });
    effects.push(Effect::EchoLocalDelete { path: path.clone() });
    assert(effect_views(effects@) =~= local_removal_effects(path@));
    effects
}

/// Effects of a finished transfer on the sync index.
pub open spec fn index_effects(
    path: Seq<Part>,
    content_hash: Seq<char>,
    size_bytes: u64,
    local_modified_at: Option<SystemTime>,
    remote_modified_at: Option<SystemTime>,
    last_op_id: Seq<char>,
) -> Seq<EffectView> {
    seq![
        EffectView::SetSyncIndex {
            path,
            content_hash,
            size_bytes,
            local_modified_at,
            remote_modified_at,
            last_op_id,
        },
        EffectView::ClearTombstone { path },
    ]
}

/// Records a finished transfer in the sync index.
pub fn write_sync_index_entry(
    path: &FsPath,
    content_hash: &String,
    size_bytes: u64,
    local_modified_at: Option<SystemTime>,
    remote_modified_at: Option<SystemTime>,
    last_op_id: String,
) -> (r: Vec<Effect>)
    ensures
        effect_views(r@) == index_effects(
            path@,
            content_hash@,
            size_bytes,
            local_modified_at,
            remote_modified_at,
            last_op_id@,
        ),
{
    let mut effects: Vec<Effect> = Vec::new();
    effects.push(
        Effect::SetSyncIndex {
            path: path.clone(),
            content_hash: content_hash.clone(),
            size_bytes,
            local_modified_at,
            remote_modified_at,
            last_op_id,
        },
    );
    effects.push(Effect::ClearTombstone { path: path.clone() });
    assert(effect_views(effects@) =~= index_effects(
        path@,
        content_hash@,
        size_bytes,
        local_modified_at,
        remote_modified_at,
        last_op_id@,
    ));
    effects
}

/// Size and time of what stands at a path, whatever it is; `None` when
/// nothing readable does.
pub type FileState = Option<(u64, Option<SystemTime>)>;

pub open spec fn observed_time(current: FileState) -> Option<SystemTime> {
    match current {
        Some((_, time)) => time,
        None => None,
    }
}

fn time_of(current: FileState) -> (r: Option<SystemTime>)
    ensures
        r == observed_time(current),
{
    match current {
        Some((_, time)) => time,
        None => None,
    }
}

/// The time an upload may record: none when the file changed since its hash
/// began, because that time would belong to other bytes than the hash.
pub open spec fn recordable_time(plan: PlanView, current: FileState) -> Option<SystemTime> {
    if plan.hashed_local_state is Some && plan.hashed_local_state != current {
        None
    } else {
        observed_time(current)
    }
}

fn same_time(a: Option<SystemTime>, b: Option<SystemTime>) -> (r: bool)
    ensures
        r == (a == b),
{
    match (a, b) {
        (Some(x), Some(y)) => x.nanos == y.nanos,
        (None, None) => true,
        _ => false,
    }
}

/// Index row after an upload. `current` is what stands at the path now.
pub fn record_upload_index(
    plan: &TransferPlan,
    content_hash: &String,
    size_bytes: u64,
    remote_modified_at: Option<SystemTime>,
    current: FileState,
) -> (r: Vec<Effect>)
    ensures
        effect_views(r@) == index_effects(
            plan@.local_path,
            content_hash@,
            size_bytes,
            recordable_time(plan@, current),
            remote_modified_at,
            plan@.op_id,
        ),
{
    let local_modified_at = match (plan.hashed_local_state, current) {
        (Some((hashed_size, hashed_time)), Some((size, time))) => if size == hashed_size
            && same_time(time, hashed_time) {
            time
        } else {
            None
        },
        (Some(_), None) => None,
        (None, _) => time_of(current),
    };
    write_sync_index_entry(
        &plan.local_path,
        content_hash,
        size_bytes,
        local_modified_at,
        remote_modified_at,
        plan.op_id.clone(),
    )
}

/// An edit that lands while its file is being uploaded is never covered up:
/// when size or time of the file are not those its hash began with, no local
/// time is recorded, so the next check compares contents.
pub proof fn law_edit_during_upload_is_not_covered_up(plan: PlanView, current: FileState)
    requires
        plan.hashed_local_state is Some,
        current != plan.hashed_local_state,
    ensures
        recordable_time(plan, current) is None,
{
}

/// The op-id a download records: that of the remote writer, empty when the
/// object carries none.
pub open spec fn download_op_id(plan: PlanView) -> Seq<char> {
    match plan.remote_op_id {
        Some(op_id) => op_id,
        None => Seq::empty(),
    }
}

/// Index row after a download. `current` is what stands at the path now.
pub fn record_download_index(
    plan: &TransferPlan,
    content_hash: &String,
    size_bytes: u64,
    remote_modified_at: Option<SystemTime>,
    current: FileState,
) -> (r: Vec<Effect>)
    ensures
        effect_views(r@) == index_effects(
            plan@.local_path,
            content_hash@,
            size_bytes,
            observed_time(current),
            remote_modified_at,
            download_op_id(plan@),
        ),
{
    let time = time_of(current);
    let op_id = match &plan.remote_op_id {
        Some(op_id) => op_id.clone(),
        None => String::new(),
    };
    write_sync_index_entry(
        &plan.local_path,
        content_hash,
        size_bytes,
        time,
        remote_modified_at,
        op_id,
    )
}

/// Effects of a cloud-side rename carried out as a local one.
pub open spec fn local_move_effects(
    plan: PlanView,
    source: SyncIndexEntry,
    remote_modified_at: SystemTime,
    current: FileState,
) -> Seq<EffectView> {
    seq![
        EffectView::RemoveTag { path: source.path@ },
        EffectView::WriteTag {
            path: plan.local_path,
            op_id: match plan.remote_op_id {
                Some(op_id) => op_id,
                None => plan.op_id,
            },
        },
        EffectView::EchoLocalDelete { path: source.path@ },
        EffectView::EchoLocalWrite {
            path: plan.local_path,
            op_id: plan.remote_op_id,
            content_hash: source.content_hash@,
            size_bytes: source.size_bytes,
        },
    ] + index_effects(
        plan.local_path,
        source.content_hash@,
        source.size_bytes,
        observed_time(current),
        Some(remote_modified_at),
        download_op_id(plan),
    ) + tombstone_effects(source.path@, TombstoneOrigin::Remote)
}

/// Records a rename that stood in for a download.
pub fn record_local_move(
    plan: &TransferPlan,
    source: &SyncIndexEntry,
    remote_modified_at: SystemTime,
    current: FileState,
) -> (r: Vec<Effect>)
    ensures
        effect_views(r@) == local_move_effects(plan@, *source, remote_modified_at, current),
{
    let mut effects: Vec<Effect> = Vec::new();
    effects.push(Effect::RemoveTag { path: source.path.clone() });
    let tag = match &plan.remote_op_id {
        Some(op_id) => op_id.clone(),
        None => plan.op_id.clone(),
    };
    effects.push(Effect::WriteTag { path: plan.local_path.clone(), op_id: tag });
    effects.push(Effect::EchoLocalDelete { path: source.path.clone() });
    effects.push(
        Effect::EchoLocalWrite {
            path: plan.local_path.clone(),
            op_id: clone_optional(&plan.remote_op_id),
            content_hash: source.content_hash.clone(),
            size_bytes: source.size_bytes,
        },
    );
    let mut index = record_download_index(
        plan,
        &source.content_hash,
        source.size_bytes,
        Some(remote_modified_at),
        current,
    );
    let mut tombstone = record_delete_tombstone(&source.path, TombstoneOrigin::Remote);
    let ghost first = effects@;
    let ghost second = index@;
    let ghost third = tombstone@;
    effects.append(&mut index);
    effects.append(&mut tombstone);
    assert(effect_views(effects@) =~= effect_views(first) + effect_views(second) + effect_views(
        third,
    ));
    assert(effect_views(effects@) =~= local_move_effects(
        plan@,
        *source,
        remote_modified_at,
        current,
    ));
    effects
}

/// Effects of a rename carried out as a server-side move.
pub open spec fn remote_move_effects(
    plan: PlanView,
    source: SyncIndexEntry,
    from: Seq<char>,
    current: FileState,
) -> Seq<EffectView> {
    seq![
        EffectView::EchoRemoteDelete { remote_path: from },
        EffectView::EchoRemoteWrite {
            remote_path: plan.remote_path,
            op_id: plan.op_id,
            content_hash: source.content_hash@,
            size_bytes: source.size_bytes,
        },
    ] + index_effects(
        plan.local_path,
        source.content_hash@,
        source.size_bytes,
        observed_time(current),
        source.remote_modified_at,
        plan.op_id,
    ) + tombstone_effects(source.path@, TombstoneOrigin::Local)
}

/// Records a server-side move that stood in for an upload. The object is the
/// same one: its content and remote time carry over.
pub fn record_remote_move(
    plan: &TransferPlan,
    source: &SyncIndexEntry,
    from: &String,
    current: FileState,
) -> (r: Vec<Effect>)
    ensures
        effect_views(r@) == remote_move_effects(plan@, *source, from@, current),
{
    let mut effects: Vec<Effect> = Vec::new();
    effects.push(Effect::EchoRemoteDelete { remote_path: from.clone() });
    effects.push(
        Effect::EchoRemoteWrite {
            remote_path: plan.remote_path.clone(),
            op_id: plan.op_id.clone(),
            content_hash: source.content_hash.clone(),
            size_bytes: source.size_bytes,
        },
    );
    let time = time_of(current);
    let mut index = write_sync_index_entry(
        &plan.local_path,
        &source.content_hash,
        source.size_bytes,
        time,
        source.remote_modified_at,
        plan.op_id.clone(),
    );
    let mut tombstone = record_delete_tombstone(&source.path, TombstoneOrigin::Local);
    let ghost first = effects@;
    let ghost second = index@;
    let ghost third = tombstone@;
    effects.append(&mut index);
    effects.append(&mut tombstone);
    assert(effect_views(effects@) =~= effect_views(first) + effect_views(second) + effect_views(
        third,
    ));
    assert(effect_views(effects@) =~= remote_move_effects(plan@, *source, from@, current));
    effects
}

/// Effects of a remote delete that left a local directory standing: its
/// content is picked up by a subtree reconcile.
pub open spec fn left_behind_effects(path: Seq<Part>, local: LocalStat) -> Seq<EffectView> {
    if local is Directory {
        seq![EffectView::Enqueue { path, kind: PendingIntentKind::ReconcileSubtree }]
    } else {
        Seq::empty()
    }
}

/// Schedules a reconcile where a directory stands at a path whose remote
/// object is gone now.
pub fn reconcile_local_directory_left_behind(path: &FsPath, local: &LocalStat) -> (r: Vec<Effect>)
    ensures
        effect_views(r@) == left_behind_effects(path@, *local),
{
    let mut effects: Vec<Effect> = Vec::new();
    if matches!(local, LocalStat::Directory) {
        effects.push(
            Effect::Enqueue { path: path.clone(), kind: PendingIntentKind::ReconcileSubtree },
        );
    }
    assert(effect_views(effects@) =~= left_behind_effects(path@, *local));
    effects
}

// ---------------------------------------------------------------------------
// What the effects are for
// ---------------------------------------------------------------------------

/// What was deleted is forgotten as synced and remembered as deleted, by the
/// side that deleted it, and its name is free again.
pub proof fn law_a_deletion_is_remembered(path: FsPath, origin: TombstoneOrigin, r: Vec<Effect>)
    requires
        call_ensures(record_delete_tombstone, (&path, origin), r),
    ensures
        effect_views(r@) =~= seq![
            EffectView::RemoveSyncIndex { path: path@ },
            EffectView::RecordTombstone { path: path@, origin },
            EffectView::ReleaseNameAlias { path: path@ },
        ],
{
}

/// A removal of the daemon's own is not taken for the user's: its echo is
/// expected, and the file's tag goes with it.
pub proof fn law_an_own_removal_is_expected_back(path: FsPath, r: Vec<Effect>)
    requires
        call_ensures(record_local_removal, (&path,), r),
    ensures
        effect_views(r@).contains(EffectView::EchoLocalDelete { path: path@ }),
        effect_views(r@).contains(EffectView::RemoveTag { path: path@ }),
        r@.len() == 2,
{
    let e = effect_views(r@);
    assert(e[0] == EffectView::RemoveTag { path: path@ });
    assert(e[1] == EffectView::EchoLocalDelete { path: path@ });
    assert(e.len() == r@.len());
}

/// What was synced is on record with its content, both times and its
/// operation, and no longer counts as deleted.
pub proof fn law_a_sync_is_on_record(
    path: FsPath,
    hash: String,
    size: u64,
    local: Option<SystemTime>,
    remote: Option<SystemTime>,
    op: String,
    r: Vec<Effect>,
)
    requires
        call_ensures(write_sync_index_entry, (&path, &hash, size, local, remote, op), r),
    ensures
        effect_views(r@) =~= seq![
            EffectView::SetSyncIndex {
                path: path@,
                content_hash: hash@,
                size_bytes: size,
                local_modified_at: local,
                remote_modified_at: remote,
                last_op_id: op@,
            },
            EffectView::ClearTombstone { path: path@ },
        ],
{
}

/// An upload is on record under its own operation. The file's time is recorded
/// only if the file is still the one that was hashed, so that an edit made
/// meanwhile is found.
pub proof fn law_an_edited_upload_is_looked_at_again(
    plan: TransferPlan,
    hash: String,
    size: u64,
    remote: Option<SystemTime>,
    current: FileState,
    r: Vec<Effect>,
)
    requires
        call_ensures(record_upload_index, (&plan, &hash, size, remote, current), r),
    ensures
        effect_views(r@).len() == 2,
        effect_views(r@)[1] == (EffectView::ClearTombstone { path: plan@.local_path }),
        effect_views(r@)[0] matches EffectView::SetSyncIndex {
            path,
            content_hash,
            size_bytes,
            remote_modified_at,
            last_op_id,
            local_modified_at,
        } && path == plan@.local_path && content_hash == hash@ && size_bytes == size
            && remote_modified_at == remote && last_op_id == plan@.op_id && (
        plan@.hashed_local_state is Some && plan@.hashed_local_state != current
            ==> local_modified_at is None) && (plan@.hashed_local_state == current && current
            is Some ==> local_modified_at == (current->0).1) && (current is None
            ==> local_modified_at is None),
{
}

/// A download is on record under the remote's operation, with the time the
/// file has now.
pub proof fn law_a_download_is_on_record(
    plan: TransferPlan,
    hash: String,
    size: u64,
    remote: Option<SystemTime>,
    current: FileState,
    r: Vec<Effect>,
)
    requires
        call_ensures(record_download_index, (&plan, &hash, size, remote, current), r),
    ensures
        effect_views(r@).len() == 2,
        effect_views(r@)[1] == (EffectView::ClearTombstone { path: plan@.local_path }),
        effect_views(r@)[0] matches EffectView::SetSyncIndex {
            path,
            content_hash,
            size_bytes,
            remote_modified_at,
            last_op_id,
            local_modified_at,
        } && path == plan@.local_path && content_hash == hash@ && size_bytes == size
            && remote_modified_at == remote && (plan@.remote_op_id is Some ==> last_op_id
            == plan@.remote_op_id->0) && (plan@.remote_op_id is None ==> last_op_id.len() == 0) && (
        current is Some ==> local_modified_at == (current->0).1) && (current is None
            ==> local_modified_at is None),
{
}

/// A local rename expects both its echoes, moves the row to the new place with
/// the content it had, and remembers the old place as deleted remotely.
pub proof fn law_a_local_rename_is_on_record(
    plan: TransferPlan,
    source: SyncIndexEntry,
    remote: SystemTime,
    current: FileState,
    r: Vec<Effect>,
)
    requires
        call_ensures(record_local_move, (&plan, &source, remote, current), r),
    ensures
        ({
            let e = effect_views(r@);
            &&& e.len() == 9
            &&& e.contains(EffectView::EchoLocalDelete { path: source.path@ })
            &&& e.contains(
                EffectView::EchoLocalWrite {
                    path: plan@.local_path,
                    op_id: plan@.remote_op_id,
                    content_hash: source.content_hash@,
                    size_bytes: source.size_bytes,
                },
            )
            &&& e.contains(EffectView::RemoveTag { path: source.path@ })
            &&& e.contains(EffectView::ClearTombstone { path: plan@.local_path })
            &&& e.contains(EffectView::RemoveSyncIndex { path: source.path@ })
            &&& e.contains(
                EffectView::RecordTombstone {
                    path: source.path@,
                    origin: TombstoneOrigin::Remote,
                },
            )
            &&& e.contains(EffectView::ReleaseNameAlias { path: source.path@ })
            &&& plan@.remote_op_id matches Some(op) ==> e.contains(
                EffectView::WriteTag { path: plan@.local_path, op_id: op },
            ) && e.contains(
                EffectView::SetSyncIndex {
                    path: plan@.local_path,
                    content_hash: source.content_hash@,
                    size_bytes: source.size_bytes,
                    local_modified_at: if current is Some {
                        (current->0).1
                    } else {
                        None
                    },
                    remote_modified_at: Some(remote),
                    last_op_id: op,
                },
            )
        }),
{
    let e = effect_views(r@);
    assert(e[0] is RemoveTag && e[1] is WriteTag && e[2] is EchoLocalDelete && e[3]
        is EchoLocalWrite && e[4] is SetSyncIndex && e[5] is ClearTombstone && e[6]
        is RemoveSyncIndex && e[7] is RecordTombstone && e[8] is ReleaseNameAlias);
}

/// A remote rename expects both its echoes, moves the row to the new place
/// under the plan's operation, and remembers the old place as deleted here.
pub proof fn law_a_remote_rename_is_on_record(
    plan: TransferPlan,
    source: SyncIndexEntry,
    from: String,
    current: FileState,
    r: Vec<Effect>,
)
    requires
        call_ensures(record_remote_move, (&plan, &source, &from, current), r),
    ensures
        ({
            let e = effect_views(r@);
            &&& e.len() == 7
            &&& e.contains(EffectView::EchoRemoteDelete { remote_path: from@ })
            &&& e.contains(
                EffectView::EchoRemoteWrite {
                    remote_path: plan@.remote_path,
                    op_id: plan@.op_id,
                    content_hash: source.content_hash@,
                    size_bytes: source.size_bytes,
                },
            )
            &&& e.contains(
                EffectView::SetSyncIndex {
                    path: plan@.local_path,
                    content_hash: source.content_hash@,
                    size_bytes: source.size_bytes,
                    local_modified_at: if current is Some {
                        (current->0).1
                    } else {
                        None
                    },
                    remote_modified_at: source.remote_modified_at,
                    last_op_id: plan@.op_id,
                },
            )
            &&& e.contains(EffectView::ClearTombstone { path: plan@.local_path })
            &&& e.contains(EffectView::RemoveSyncIndex { path: source.path@ })
            &&& e.contains(
                EffectView::RecordTombstone { path: source.path@, origin: TombstoneOrigin::Local },
            )
            &&& e.contains(EffectView::ReleaseNameAlias { path: source.path@ })
        }),
{
    let e = effect_views(r@);
    assert(e[0] is EchoRemoteDelete && e[1] is EchoRemoteWrite && e[2] is SetSyncIndex && e[3]
        is ClearTombstone && e[4] is RemoveSyncIndex && e[5] is RecordTombstone && e[6]
        is ReleaseNameAlias);
}

/// A directory that outlived its remote counterpart is reconciled; nothing
/// else is.
pub proof fn law_a_directory_left_behind_is_reconciled(
    path: FsPath,
    local: LocalStat,
    r: Vec<Effect>,
)
    requires
        call_ensures(reconcile_local_directory_left_behind, (&path, &local), r),
    ensures
        local is Directory ==> effect_views(r@) =~= seq![
            EffectView::Enqueue { path: path@, kind: PendingIntentKind::ReconcileSubtree },
        ],
        !(local is Directory) ==> r@.len() == 0,
{
    assert(effect_views(r@).len() == r@.len());
}

} // verus!
