//! Profiles: one sync pairing each, with what they leave out inherited from
//! the top-level configuration.
use vstd::prelude::*;

use crate::config::{ProfileConfig, VaporConfig};
use crate::paths::{joined, path_parts, walk_segments, within, FsPath, Part, PathStyle};
use crate::records::SyncMode;
use crate::text::{begins_with, chars_of, concat, is_digit, same_text, text_starts_with, text_views,
    trim, trimmed};
use vstd::string::StringExecFns;

verus! {

/// Id of the implicit profile.
pub const DEFAULT_PROFILE_ID: &'static str = "default";

/// Most characters of a profile id.
pub const MAX_PROFILE_ID_LENGTH: usize = 64;

/// The mode a configuration value spells; only the exact spelling counts, so
/// a typo never switches on a destructive mode.
pub open spec fn mode_of(value: Seq<char>) -> Option<SyncMode> {
    if value == "two-way"@ {
        Some(SyncMode::TwoWay)
    } else if value == "push-only"@ {
        Some(SyncMode::PushOnly)
    } else if value == "pull-only"@ {
        Some(SyncMode::PullOnly)
    } else {
        None
    }
}

/// Reads a configured sync mode.
pub fn sync_mode_from_config(value: &str) -> (r: Option<SyncMode>)
    ensures
        r == mode_of(value@),
{
    proof {
        reveal_strlit("two-way");
        reveal_strlit("push-only");
        reveal_strlit("pull-only");
    }
    if same_text(value, "two-way") {
        Some(SyncMode::TwoWay)
    } else if same_text(value, "push-only") {
        Some(SyncMode::PushOnly)
    } else if same_text(value, "pull-only") {
        Some(SyncMode::PullOnly)
    } else {
        None
    }
}

/// The spelling of a mode reads back as the mode.
pub proof fn law_mode_spellings_read_back(mode: SyncMode)
    ensures
        mode_of(mode.spelling()@) == Some(mode),
{
    reveal_strlit("two-way");
    reveal_strlit("push-only");
    reveal_strlit("pull-only");
    assert("push-only"@[1] != "pull-only"@[1] || "push-only"@[2] != "pull-only"@[2]);
}

/// What a profile syncs.
#[derive(Debug, PartialEq, Eq)]
pub struct SyncScope {
    /// The local root, when one is configured.
    pub local_sync_directory: Option<FsPath>,
    pub cloud_sync_directory: String,
    pub sync_mode: SyncMode,
}

pub struct ScopeView {
    pub local_sync_directory: Option<Seq<Part>>,
    pub cloud_sync_directory: Seq<char>,
    pub sync_mode: SyncMode,
}

impl View for SyncScope {
    type V = ScopeView;

    open spec fn view(&self) -> ScopeView {
        ScopeView {
            local_sync_directory: match self.local_sync_directory {
                Some(path) => Some(path@),
                None => None,
            },
            cloud_sync_directory: self.cloud_sync_directory@,
            sync_mode: self.sync_mode,
        }
    }
}

/// The scope of configured values; an unknown mode is two-way.
pub open spec fn scope_of(local: Seq<char>, cloud: Seq<char>, mode: Seq<char>) -> ScopeView {
    ScopeView {
        local_sync_directory: if trimmed(local).len() == 0 {
            None
        } else {
            Some(path_parts(PathStyle::Unix, trimmed(local)))
        },
        cloud_sync_directory: cloud,
        sync_mode: match mode_of(mode) {
            Some(mode) => mode,
            None => SyncMode::TwoWay,
        },
    }
}

/// Resolves a scope from configured values.
pub fn resolve_scope(local: &str, cloud: &str, mode: &str) -> (r: SyncScope)
    ensures
        r@ == scope_of(local@, cloud@, mode@),
{
    let local = trim(local);
    let empty = chars_of(local.as_str()).len() == 0;
    SyncScope {
        local_sync_directory: if empty {
            None
        } else {
            Some(FsPath::new(local.as_str()))
        },
        cloud_sync_directory: cloud.to_owned(),
        sync_mode: match sync_mode_from_config(mode) {
            Some(mode) => mode,
            None => SyncMode::TwoWay,
        },
    }
}

/// A profile with everything resolved.
#[derive(Debug, PartialEq, Eq)]
pub struct ResolvedProfile {
    pub id: String,
    pub display_name: String,
    pub provider_kind: String,
    pub scope: SyncScope,
    pub enabled: bool,
}

pub struct ProfileView {
    pub id: Seq<char>,
    pub display_name: Seq<char>,
    pub provider_kind: Seq<char>,
    pub scope: ScopeView,
    pub enabled: bool,
}

impl View for ResolvedProfile {
    type V = ProfileView;

    open spec fn view(&self) -> ProfileView {
        ProfileView {
            id: self.id@,
            display_name: self.display_name@,
            provider_kind: self.provider_kind@,
            scope: self.scope@,
            enabled: self.enabled,
        }
    }
}

pub open spec fn profile_views(profiles: Seq<ResolvedProfile>) -> Seq<ProfileView> {
    profiles.map_values(|p: ResolvedProfile| p@)
}

/// Characters of a profile id.
pub open spec fn is_id_char(c: char) -> bool {
    'a' <= c <= 'z' || is_digit(c) || c == '-' || c == '_'
}

/// Ids name state directories and secrets: short slugs only.
pub open spec fn valid_id(id: Seq<char>) -> bool {
    0 < id.len() <= MAX_PROFILE_ID_LENGTH && forall|i: int|
        0 <= i < id.len() ==> is_id_char(#[trigger] id[i])
}

/// Whether `id` can name a profile.
pub fn is_valid_profile_id(id: &str) -> (r: bool)
    ensures
        r == valid_id(id@),
{
    let chars = chars_of(id);
    if chars.len() == 0 || chars.len() > MAX_PROFILE_ID_LENGTH {
        return false;
    }
    let mut i: usize = 0;
    while i < chars.len()
        invariant
            chars@ == id@,
            i <= chars@.len(),
            forall|j: int| 0 <= j < i ==> is_id_char(#[trigger] chars@[j]),
        decreases chars@.len() - i,
    {
        let c = chars[i];
        let fits = ('a' <= c && c <= 'z') || ('0' <= c && c <= '9') || c == '-' || c == '_';
        if !fits {
            assert(!is_id_char(chars@[i as int]));
            return false;
        }
        i = i + 1;
    }
    true
}

pub open spec fn override_or(value: Option<String>, inherited: Seq<char>) -> Seq<char> {
    match value {
        Some(text) => text@,
        None => inherited,
    }
}

/// A profile's value wins outright; what it leaves out is inherited.
pub open spec fn resolved(config: VaporConfig, profile: ProfileConfig) -> ProfileView {
    let id = trimmed(profile.id@);
    ProfileView {
        id,
        display_name: match profile.name {
            Some(name) => if trimmed(name@).len() == 0 {
                id
            } else {
                name@
            },
            None => id,
        },
        provider_kind: override_or(profile.provider, config.provider@),
        scope: scope_of(
            override_or(profile.local_sync_directory, config.local_sync_directory@),
            override_or(profile.cloud_sync_directory, config.cloud_sync_directory@),
            override_or(profile.sync_mode, config.sync_mode@),
        ),
        enabled: match profile.enabled {
            Some(enabled) => enabled,
            None => true,
        },
    }
}

pub open spec fn has_id(profiles: Seq<ProfileView>, id: Seq<char>) -> bool {
    exists|i: int| 0 <= i < profiles.len() && (#[trigger] profiles[i]).id == id
}

/// The profiles with a valid id that no earlier one has.
pub open spec fn valid_profiles(config: VaporConfig, profiles: Seq<ProfileConfig>) -> Seq<
    ProfileView,
>
    decreases profiles.len(),
{
    if profiles.len() == 0 {
        Seq::empty()
    } else {
        let rest = valid_profiles(config, profiles.drop_last());
        let next = resolved(config, profiles.last());
        if valid_id(next.id) && !has_id(rest, next.id) {
            rest.push(next)
        } else {
            rest
        }
    }
}

/// The profile of a configuration without any.
pub open spec fn implicit_profile(config: VaporConfig) -> ProfileView {
    ProfileView {
        id: DEFAULT_PROFILE_ID@,
        display_name: DEFAULT_PROFILE_ID@,
        provider_kind: config.provider@,
        scope: scope_of(
            config.local_sync_directory@,
            config.cloud_sync_directory@,
            config.sync_mode@,
        ),
        enabled: true,
    }
}

fn implicit_default_profile(config: &VaporConfig) -> (r: ResolvedProfile)
    ensures
        r@ == implicit_profile(*config),
{
    ResolvedProfile {
        id: DEFAULT_PROFILE_ID.to_owned(),
        display_name: DEFAULT_PROFILE_ID.to_owned(),
        provider_kind: config.provider.clone(),
        scope: resolve_scope(
            config.local_sync_directory.as_str(),
            config.cloud_sync_directory.as_str(),
            config.sync_mode.as_str(),
        ),
        enabled: true,
    }
}

fn or_inherited(value: &Option<String>, inherited: &String) -> (r: String)
    ensures
        r@ == override_or(*value, inherited@),
{
    match value {
        Some(text) => text.clone(),
        None => inherited.clone(),
    }
}

fn resolve_profile(config: &VaporConfig, profile: &ProfileConfig, id: String) -> (r: ResolvedProfile)
    requires
        id@ == trimmed(profile.id@),
    ensures
        r@ == resolved(*config, *profile),
{
    let display_name = match &profile.name {
        Some(name) => if chars_of(trim(name.as_str()).as_str()).len() == 0 {
            id.clone()
        } else {
            name.clone()
        },
        None => id.clone(),
    };
    let local = or_inherited(&profile.local_sync_directory, &config.local_sync_directory);
    let cloud = or_inherited(&profile.cloud_sync_directory, &config.cloud_sync_directory);
    let mode = or_inherited(&profile.sync_mode, &config.sync_mode);
    ResolvedProfile {
        id,
        display_name,
        provider_kind: or_inherited(&profile.provider, &config.provider),
        scope: resolve_scope(local.as_str(), cloud.as_str(), mode.as_str()),
        enabled: match profile.enabled {
            Some(enabled) => enabled,
            None => true,
        },
    }
}

fn id_is_taken(profiles: &Vec<ResolvedProfile>, id: &str) -> (r: bool)
    ensures
        r == has_id(profile_views(profiles@), id@),
{
    let mut i: usize = 0;
    while i < profiles.len()
        invariant
            i <= profiles@.len(),
            forall|j: int|
                0 <= j < i ==> (#[trigger] profile_views(profiles@)[j]).id != id@,
        decreases profiles@.len() - i,
    {
        assert(profile_views(profiles@)[i as int] == profiles@[i as int]@);
        if same_text(profiles[i].id.as_str(), id) {
            return true;
        }
        i = i + 1;
    }
    false
}

/// Resolves the configured profiles. Invalid ones are skipped, so a broken
/// profile does not take down the others; without a valid one the implicit
/// profile runs.
pub fn resolve_profiles(config: &VaporConfig) -> (r: Vec<ResolvedProfile>)
    ensures
        profile_views(r@) == if valid_profiles(*config, config.profiles@).len() == 0 {
            seq![implicit_profile(*config)]
        } else {
            valid_profiles(*config, config.profiles@)
        },
{
    let mut profiles: Vec<ResolvedProfile> = Vec::new();
    let mut i: usize = 0;
    assert(config.profiles@.take(0) =~= Seq::empty());
    assert(profile_views(profiles@) =~= Seq::empty());
    while i < config.profiles.len()
        invariant
            i <= config.profiles@.len(),
            profile_views(profiles@) == valid_profiles(*config, config.profiles@.take(i as int)),
        decreases config.profiles@.len() - i,
    {
        let profile = &config.profiles[i];
        let ghost next = config.profiles@.take(i + 1);
        let ghost before = profile_views(profiles@);
        assert(next.drop_last() =~= config.profiles@.take(i as int));
        let id = trim(profile.id.as_str());
        if is_valid_profile_id(id.as_str()) && !id_is_taken(&profiles, id.as_str()) {
            let resolved_profile = resolve_profile(config, profile, id);
            profiles.push(resolved_profile);
            assert(profile_views(profiles@) =~= before.push(resolved_profile@));
        }
        i = i + 1;
    }
    assert(config.profiles@.take(i as int) =~= config.profiles@);
    assert(profile_views(profiles@).len() == profiles@.len());
    if profiles.len() == 0 {
        let implicit = implicit_default_profile(config);
        profiles.push(implicit);
        assert(profile_views(profiles@) =~= seq![implicit_profile(*config)]);
    }
    profiles
}

/// No two resolved profiles share an id, so none shares another's state.
pub proof fn law_profile_ids_are_distinct(config: VaporConfig, profiles: Seq<ProfileConfig>)
    ensures
        forall|i: int, j: int|
            0 <= i < j < valid_profiles(config, profiles).len() ==> (
            #[trigger] valid_profiles(config, profiles)[i]).id != (#[trigger] valid_profiles(
                config,
                profiles,
            )[j]).id,
    decreases profiles.len(),
{
    if profiles.len() > 0 {
        law_profile_ids_are_distinct(config, profiles.drop_last());
        let rest = valid_profiles(config, profiles.drop_last());
        let all = valid_profiles(config, profiles);
        assert forall|i: int, j: int| 0 <= i < j < all.len() implies (#[trigger] all[i]).id != (
        #[trigger] all[j]).id by {
            assert(all[i] == rest[i]);
            if j < rest.len() {
                assert(all[j] == rest[j]);
            }
        }
    }
}

// ---------------------------------------------------------------------------
// Secrets and removal
// ---------------------------------------------------------------------------

/// Beginning of the names of a profile's secrets.
pub open spec fn secret_prefix(profile_id: Seq<char>) -> Seq<char> {
    "auth."@ + profile_id + "."@
}

/// Name of a secret: `auth.{profile}.{provider}.{item}`.
pub fn secret_key(profile_id: &str, provider: &str, item: &str) -> (r: String)
    ensures
        r@ == secret_prefix(profile_id@) + provider@ + "."@ + item@,
{
    let mut key = concat("auth.", profile_id);
    key.append(".");
    key.append(provider);
    key.append(".");
    key.append(item);
    key
}

/// Directory of a profile's own state below the state root.
pub open spec fn state_directory(state_root: Seq<Part>, profile_id: Seq<char>) -> Seq<Part> {
    joined(
        joined(state_root, path_parts(PathStyle::Unix, "profiles"@)),
        path_parts(PathStyle::Unix, profile_id),
    )
}

/// Directory of a profile's own state.
pub fn profile_state_directory(state_root: &FsPath, profile_id: &str) -> (r: FsPath)
    ensures
        r@ == state_directory(state_root@, profile_id@),
{
    state_root.join("profiles").join(profile_id)
}

/// The durable database of a profile.
pub fn profile_database_path(state_root: &FsPath, profile_id: &str) -> (r: FsPath)
    ensures
        r@ == joined(
            state_directory(state_root@, profile_id@),
            path_parts(PathStyle::Unix, "vapor.sqlite"@),
        ),
{
    profile_state_directory(state_root, profile_id).join("vapor.sqlite")
}

/// A text of id characters is read as one open segment.
proof fn lemma_walk_of_slug(s: Seq<char>)
    requires
        forall|i: int| 0 <= i < s.len() ==> is_id_char(#[trigger] s[i]),
    ensures
        walk_segments(PathStyle::Unix, s) == (Seq::<Part>::empty(), s),
    decreases s.len(),
{
    if s.len() > 0 {
        let front = s.drop_last();
        assert forall|i: int| 0 <= i < front.len() implies is_id_char(#[trigger] front[i]) by {
            assert(front[i] == s[i]);
        }
        lemma_walk_of_slug(front);
        assert(is_id_char(s.last()));
        assert(front.push(s.last()) =~= s);
    } else {
        assert(s =~= Seq::empty());
    }
}

/// A valid id names one directory.
proof fn lemma_id_is_one_component(id: Seq<char>)
    requires
        valid_id(id),
    ensures
        path_parts(PathStyle::Unix, id) == seq![Part::Normal(id)],
{
    lemma_walk_of_slug(id);
    assert(is_id_char(id[0]));
    assert(id.skip(0) =~= id);
    assert(id != seq!['.'] && id != seq!['.', '.']) by {
        assert(seq!['.'][0] == '.');
        assert(seq!['.', '.'][0] == '.');
    }
    assert(path_parts(PathStyle::Unix, id) =~= seq![Part::Normal(id)]);
}

/// The state of one profile never lies inside that of another.
pub proof fn law_profile_states_are_apart(state_root: Seq<Part>, a: Seq<char>, b: Seq<char>)
    requires
        valid_id(a),
        valid_id(b),
        a != b,
    ensures
        !within(state_directory(state_root, a), state_directory(state_root, b)),
{
    lemma_id_is_one_component(a);
    lemma_id_is_one_component(b);
    let base = joined(state_root, path_parts(PathStyle::Unix, "profiles"@));
    let first = state_directory(state_root, a);
    let second = state_directory(state_root, b);
    assert(first =~= base.push(Part::Normal(a)));
    assert(second =~= base.push(Part::Normal(b)));
    if within(first, second) {
        assert(first.take(second.len() as int)[base.len() as int] == second[base.len() as int]);
    }
}

/// The directory to remove with a profile's state. The implicit profile's
/// state may not be removed: it lives on shared paths.
pub fn purge_profile_state(profile_id: &str, state_root: &FsPath) -> (r: Result<FsPath, String>)
    ensures
        match r {
            Ok(directory) => profile_id@ != DEFAULT_PROFILE_ID@ && valid_id(profile_id@)
                && directory@ == state_directory(state_root@, profile_id@),
            Err(message) => (profile_id@ == DEFAULT_PROFILE_ID@ || !valid_id(profile_id@))
                && message@ == "profile '"@ + profile_id@ + "' cannot be purged"@,
        },
{
    if same_text(profile_id, DEFAULT_PROFILE_ID) || !is_valid_profile_id(profile_id) {
        let mut message = concat("profile '", profile_id);
        message.append("' cannot be purged");
        return Err(message);
    }
    Ok(profile_state_directory(state_root, profile_id))
}

/// Names that belong to a profile, in order.
pub open spec fn secrets_of(names: Seq<Seq<char>>, profile_id: Seq<char>) -> Seq<Seq<char>> {
    names.filter(|name: Seq<char>| begins_with(name, secret_prefix(profile_id)))
}

/// The secrets to remove with a profile.
pub fn profile_secrets(names: Vec<String>, profile_id: &str) -> (r: Vec<String>)
    ensures
        text_views(r@) == secrets_of(text_views(names@), profile_id@),
{
    let mut prefix = concat("auth.", profile_id);
    prefix.append(".");
    let ghost all = text_views(names@);
    let ghost keep = |name: Seq<char>| begins_with(name, secret_prefix(profile_id@));
    let mut secrets: Vec<String> = Vec::new();
    assert(all.take(0) =~= Seq::<Seq<char>>::empty());
    assert(text_views(secrets@) =~= Seq::<Seq<char>>::empty());
    proof {
        reveal(Seq::filter);
    }
    for name in rows: names
        invariant
            text_views(rows.seq()) == all,
            prefix@ == secret_prefix(profile_id@),
            keep == (|name: Seq<char>| begins_with(name, secret_prefix(profile_id@))),
            text_views(secrets@) == all.take(rows.index()).filter(keep),
    {
        let ghost i = rows.index();
        let ghost next = all.take(i + 1);
        let ghost before = text_views(secrets@);
        assert(all[i] == rows.seq()[i]@);
        assert(next.drop_last() =~= all.take(i));
        assert(next.last() == name@);
        reveal(Seq::filter);
        if text_starts_with(name.as_str(), prefix.as_str()) {
            secrets.push(name);
            assert(text_views(secrets@) =~= before.push(name@));
        }
        assert(text_views(secrets@) =~= next.filter(keep));
    }
    assert(all.take(all.len() as int) =~= all);
    secrets
}

/// Removing one profile never removes another's secrets: no name of a valid
/// profile's secret begins with the prefix of another valid profile.
pub proof fn law_secrets_are_namespaced(a: Seq<char>, b: Seq<char>, rest: Seq<char>)
    requires
        valid_id(a),
        valid_id(b),
        begins_with(secret_prefix(b) + rest, secret_prefix(a)),
    ensures
        a == b,
{
    reveal_strlit("auth.");
    reveal_strlit(".");
    let name = secret_prefix(b) + rest;
    let prefix = secret_prefix(a);
    assert(prefix.len() == 6 + a.len());
    let front = name.take(prefix.len() as int);
    assert forall|i: int| 0 <= i < prefix.len() implies name[i] == #[trigger] prefix[i] by {
        assert(front[i] == prefix[i]);
    }
    if a.len() < b.len() {
        assert(prefix[5 + a.len() as int] == '.');
        assert(name[5 + a.len() as int] == b[a.len() as int]);
        assert(is_id_char(b[a.len() as int]));
    } else if b.len() < a.len() {
        assert(name[5 + b.len() as int] == '.');
        assert(prefix[5 + b.len() as int] == a[b.len() as int]);
        assert(is_id_char(a[b.len() as int]));
    } else {
        assert forall|i: int| 0 <= i < a.len() implies a[i] == b[i] by {
            assert(prefix[5 + i] == a[i]);
            assert(name[5 + i] == b[i]);
        }
        assert(a =~= b);
    }
}

// ---------------------------------------------------------------------------
// What the profiles are for
// ---------------------------------------------------------------------------

/// The first profile of its id is kept.
proof fn lemma_first_is_kept(config: VaporConfig, profiles: Seq<ProfileConfig>, i: int)
    requires
        0 <= i < profiles.len(),
        valid_id(resolved(config, profiles[i]).id),
        forall|j: int|
            0 <= j < i ==> trimmed((#[trigger] profiles[j]).id@) != trimmed(profiles[i].id@),
    ensures
        valid_profiles(config, profiles).contains(resolved(config, profiles[i])),
    decreases profiles.len(),
{
    let front = profiles.drop_last();
    let n = profiles.len() - 1;
    let rest = valid_profiles(config, front);
    let all = valid_profiles(config, profiles);
    let mine = resolved(config, profiles[i]);
    if i < n {
        assert(front[i] == profiles[i]);
        assert forall|j: int| 0 <= j < i implies trimmed((#[trigger] front[j]).id@) != trimmed(
            front[i].id@,
        ) by {
            assert(trimmed(profiles[j].id@) != trimmed(profiles[i].id@));
        }
        lemma_first_is_kept(config, front, i);
        let k = rest.index_of(mine);
        assert(rest[k] == mine);
        assert(all[k] == mine);
    } else {
        if has_id(rest, mine.id) {
            let k = choose|k: int| 0 <= k < rest.len() && (#[trigger] rest[k]).id == mine.id;
            lemma_kept_is_configured(config, front, k);
            let j = choose|j: int|
                0 <= j < front.len() && rest[k] == resolved(config, #[trigger] front[j]);
            assert(profiles[j] == front[j]);
            assert(trimmed(profiles[j].id@) == mine.id);
        }
        assert(all[all.len() - 1] == mine);
    }
}

/// What is kept is one of the configured profiles.
proof fn lemma_kept_is_configured(config: VaporConfig, profiles: Seq<ProfileConfig>, k: int)
    requires
        0 <= k < valid_profiles(config, profiles).len(),
    ensures
        is_one_of(config, profiles, valid_profiles(config, profiles)[k]),
    decreases profiles.len(),
{
    if profiles.len() > 0 {
        let front = profiles.drop_last();
        let n = profiles.len() - 1;
        let rest = valid_profiles(config, front);
        let all = valid_profiles(config, profiles);
        if k < rest.len() {
            lemma_kept_is_configured(config, front, k);
            assert(all[k] == rest[k]);
            let j = choose|j: int|
                0 <= j < front.len() && rest[k] == resolved(config, #[trigger] front[j]);
            assert(profiles[j] == front[j]);
            assert(all[k] == resolved(config, profiles[j]));
        } else {
            assert(all[k] == resolved(config, profiles[n]));
        }
    }
}

/// One of the configured profiles, with an id that can name a directory.
pub open spec fn is_one_of(
    config: VaporConfig,
    profiles: Seq<ProfileConfig>,
    profile: ProfileView,
) -> bool {
    valid_id(profile.id) && exists|j: int|
        0 <= j < profiles.len() && profile == resolved(config, #[trigger] profiles[j])
}

/// There is always a profile, no two share an id, and every id is a short word
/// of small letters, digits, dashes and underscores.
pub proof fn law_profiles_have_their_own_ids(config: VaporConfig, r: Vec<ResolvedProfile>)
    requires
        call_ensures(resolve_profiles, (&config,), r),
    ensures
        r@.len() > 0,
        forall|i: int, j: int|
            0 <= i < j < r@.len() ==> (#[trigger] r@[i]).id@ != (#[trigger] r@[j]).id@,
        r@.len() > 1 ==> forall|i: int|
            0 <= i < r@.len() ==> 1 <= (#[trigger] r@[i]).id@.len() <= 64,
        r@.len() > 1 ==> forall|i: int, k: int|
            0 <= i < r@.len() && 0 <= k < r@[i].id@.len() ==> {
                let c = #[trigger] r@[i].id@[k];
                'a' <= c <= 'z' || '0' <= c <= '9' || c == '-' || c == '_'
            },
        config.profiles@.len() == 0 ==> r@.len() == 1 && r@[0].id@ == "default"@ && r@[0].enabled
            && r@[0].provider_kind@ == config.provider@,
{
    let all = valid_profiles(config, config.profiles@);
    let views = profile_views(r@);
    law_profile_ids_are_distinct(config, config.profiles@);
    assert(views.len() == r@.len());
    assert forall|i: int, j: int| 0 <= i < j < r@.len() implies (#[trigger] r@[i]).id@ != (
    #[trigger] r@[j]).id@ by {
        assert(views[i].id == r@[i].id@ && views[j].id == r@[j].id@);
        assert(views[i] == all[i] && views[j] == all[j]);
    }
    if r@.len() > 1 {
        assert forall|i: int| 0 <= i < r@.len() implies valid_id((#[trigger] r@[i]).id@) by {
            assert(views[i] == all[i] && views[i].id == r@[i].id@);
            lemma_kept_is_configured(config, config.profiles@, i);
        }
        assert forall|i: int, k: int|
            0 <= i < r@.len() && 0 <= k < r@[i].id@.len() implies {
            let c = #[trigger] r@[i].id@[k];
            'a' <= c <= 'z' || '0' <= c <= '9' || c == '-' || c == '_'
        } by {
            assert(valid_id(r@[i].id@));
            assert(is_id_char(r@[i].id@[k]));
        }
    }
    if config.profiles@.len() == 0 {
        assert(all.len() == 0);
        assert(views[0] == r@[0]@);
    }
}

/// The first profile of a valid id is there, with what it says itself; what
/// it leaves out it has from the configuration, and it is enabled unless it
/// says otherwise.
pub proof fn law_a_profile_inherits_what_it_leaves_out(
    config: VaporConfig,
    i: int,
    id: String,
    r: Vec<ResolvedProfile>,
)
    requires
        call_ensures(resolve_profiles, (&config,), r),
        0 <= i < config.profiles@.len(),
        id@ == trimmed(config.profiles@[i].id@),
        valid_id(id@),
        forall|j: int| 0 <= j < i ==> trimmed((#[trigger] config.profiles@[j]).id@) != id@,
    ensures
        exists|k: int|
            {
                let mine = config.profiles@[i];
                &&& 0 <= k < r@.len()
                &&& (#[trigger] r@[k]).id@ == id@
                &&& r@[k].provider_kind@ == (if mine.provider is Some {
                    mine.provider->0@
                } else {
                    config.provider@
                })
                &&& r@[k].scope.cloud_sync_directory@ == (if mine.cloud_sync_directory is Some {
                    mine.cloud_sync_directory->0@
                } else {
                    config.cloud_sync_directory@
                })
                &&& r@[k].enabled == (mine.enabled != Some(false))
                &&& mine.name is None ==> r@[k].display_name@ == id@
                &&& mine.sync_mode is Some && mine.sync_mode->0@ == "push-only"@
                    ==> r@[k].scope.sync_mode is PushOnly
                &&& mine.sync_mode is Some && mine.sync_mode->0@ == "pull-only"@
                    ==> r@[k].scope.sync_mode is PullOnly
                &&& mine.sync_mode is None && config.sync_mode@ == "push-only"@
                    ==> r@[k].scope.sync_mode is PushOnly
                &&& mine.sync_mode is None && config.sync_mode@ == "pull-only"@
                    ==> r@[k].scope.sync_mode is PullOnly
            },
{
    reveal_strlit("two-way");
    reveal_strlit("push-only");
    reveal_strlit("pull-only");
    assert("two-way"@[0] == 't' && "push-only"@[1] == 'u' && "pull-only"@[2] == 'l'
        && "push-only"@[0] == 'p' && "pull-only"@[0] == 'p' && "push-only"@[2] == 's');
    let all = valid_profiles(config, config.profiles@);
    let mine = resolved(config, config.profiles@[i]);
    lemma_first_is_kept(config, config.profiles@, i);
    let k = all.index_of(mine);
    assert(profile_views(r@)[k] == mine);
    assert(r@[k]@ == mine);
    assert(r@[k].id@ == id@);
}

/// Only the three spellings name a mode; anything else is kept in both
/// directions.
pub proof fn law_a_mode_is_spelled_exactly(value: &str, r: Option<SyncMode>)
    requires
        call_ensures(sync_mode_from_config, (value,), r),
    ensures
        r == Some(SyncMode::TwoWay) ==> value@ == "two-way"@,
        value@ == "two-way"@ ==> r == Some(SyncMode::TwoWay),
        value@ == "push-only"@ <==> r == Some(SyncMode::PushOnly),
        value@ == "pull-only"@ <==> r == Some(SyncMode::PullOnly),
{
    reveal_strlit("two-way");
    reveal_strlit("push-only");
    reveal_strlit("pull-only");
    assert("two-way"@[0] == 't' && "push-only"@[1] == 'u' && "pull-only"@[2] == 'l'
        && "push-only"@[0] == 'p' && "pull-only"@[0] == 'p' && "push-only"@[2] == 's');
}

/// What is synced: a blank directory is none, and an unknown mode syncs both
/// ways.
pub proof fn law_a_blank_directory_is_none(
    local: &str,
    cloud: &str,
    mode: &str,
    text: String,
    named: Option<SyncMode>,
    r: SyncScope,
)
    requires
        call_ensures(resolve_scope, (local, cloud, mode), r),
        call_ensures(trim, (local,), text),
        call_ensures(sync_mode_from_config, (mode,), named),
    ensures
        r.local_sync_directory is None <==> text@.len() == 0,
        r.local_sync_directory matches Some(path) ==> path@ == path_parts(PathStyle::Unix, text@),
        r.cloud_sync_directory@ == cloud@,
        named matches Some(m) ==> r.sync_mode == m,
        named is None ==> r.sync_mode is TwoWay,
{
    assert(r@ == scope_of(local@, cloud@, mode@));
    assert(r@.local_sync_directory is None <==> r.local_sync_directory is None);
}

/// Only a valid profile other than the implicit one may be purged, and what is
/// removed is the directory of that id, right below that of the profiles.
pub proof fn law_only_a_profiles_own_state_is_purged(
    id: &str,
    root: FsPath,
    r: Result<FsPath, String>,
)
    requires
        call_ensures(purge_profile_state, (id, &root), r),
    ensures
        id@ == "default"@ ==> r is Err,
        id@.len() == 0 || id@.len() > 64 ==> r is Err,
        id@.contains('/') || id@.contains('.') || id@.contains('\\') ==> r is Err,
        r matches Ok(directory) ==> directory@.len() > root@.len() && directory@.last()
            == Part::Normal(id@) && directory@.take(root@.len() as int) == root@,
{
    if let Ok(directory) = r {
        lemma_id_is_one_component(id@);
        assert forall|c: char| id@.contains(c) implies is_id_char(c) by {
            let k = id@.index_of(c);
            assert(is_id_char(id@[k]));
        }
        reveal_strlit("profiles");
        assert("profiles"@.len() == 8);
        assert forall|i: int| 0 <= i < "profiles"@.len() implies is_id_char(
            #[trigger] "profiles"@[i],
        ) by {}
        lemma_id_is_one_component("profiles"@);
        let base = joined(root@, path_parts(PathStyle::Unix, "profiles"@));
        assert(base =~= root@.push(Part::Normal("profiles"@)));
        assert(directory@ =~= base.push(Part::Normal(id@)));
        assert(directory@.take(root@.len() as int) =~= root@);
    }
}

/// The secrets removed with a profile are exactly those stored under its
/// prefix, and a secret is stored under the prefix of its profile.
pub proof fn law_a_profile_takes_its_secrets_along(
    names: Vec<String>,
    id: &str,
    provider: &str,
    item: &str,
    key: String,
    r: Vec<String>,
)
    requires
        call_ensures(profile_secrets, (names, id), r),
        call_ensures(secret_key, (id, provider, item), key),
    ensures
        text_views(names@).contains(key@) ==> text_views(r@).contains(key@),
        forall|t: Seq<char>|
            #[trigger] text_views(r@).contains(t) ==> text_views(names@).contains(t) && t.len()
                >= ("auth."@ + id@ + "."@).len() && t.take(("auth."@ + id@ + "."@).len() as int)
                == "auth."@ + id@ + "."@,
        key@ == "auth."@ + id@ + "."@ + provider@ + "."@ + item@,
{
    let all = text_views(names@);
    let keep = |name: Seq<char>| begins_with(name, secret_prefix(id@));
    let prefix = secret_prefix(id@);
    assert(key@.take(prefix.len() as int) =~= prefix);
    if all.contains(key@) {
        let i = all.index_of(key@);
        assert(keep(all[i]));
        all.lemma_filter_contains(keep, i);
    }
    assert forall|t: Seq<char>| #[trigger] text_views(r@).contains(t) implies all.contains(t)
        && keep(t) by {
        let k = text_views(r@).index_of(t);
        assert(all.filter(keep)[k] == t);
        all.lemma_filter_pred(keep, k);
        all.lemma_filter_contains_rev(keep, t);
    }
}

} // verus!
