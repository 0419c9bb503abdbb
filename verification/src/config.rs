//! The daemon's configuration and what of it can change under a running
//! daemon.
use vstd::prelude::*;

use crate::clock::{Duration, Instant, SystemTime, NANOS_PER_MILLI};
use crate::text::same_text;

verus! {

pub const KEY_USE_GIT_IGNORE: &'static str = "useGitIgnore";
pub const KEY_USE_VAPOR_IGNORE: &'static str = "useVaporIgnore";
pub const KEY_PRE_IGNORE_RULES: &'static str = "preIgnoreRules";
pub const KEY_POST_IGNORE_RULES: &'static str = "postIgnoreRules";
pub const KEY_TIMELINE_LIMIT: &'static str = "timelineLimit";
pub const KEY_RESOURCE_LIMITS: &'static str = "resourceLimits";
pub const KEY_IDLE_BOOST: &'static str = "idleBoost";
pub const KEY_SAFEGUARDS: &'static str = "safeguards";
pub const KEY_TRASH: &'static str = "trash";
pub const KEY_LOCAL_SYNC_DIRECTORY: &'static str = "localSyncDirectory";
pub const KEY_CLOUD_SYNC_DIRECTORY: &'static str = "cloudSyncDirectory";
pub const KEY_PROVIDER: &'static str = "provider";
pub const KEY_SYNC_MODE: &'static str = "syncMode";
pub const KEY_PROFILES: &'static str = "profiles";
pub const KEY_LANGUAGE_CODE: &'static str = "languageCode";
pub const KEY_AUTO_LAUNCH: &'static str = "autoLaunch";

/// How often the configuration file is looked at, in milliseconds.
pub const CONFIG_RELOAD_POLL_MILLIS: u64 = 1_000;

/// Rules that keep dependency, cache and build trees out of the sync.
pub const DEFAULT_PRE_IGNORE_RULES: &'static str = "node_modules/\n.npm/\n.parcel-cache/\n.pnpm-store/\n.turbo/\n.vite/\n.yarn/\n__pycache__/\nbuild/\ncoverage/\ndist/\nout/\nstorybook-static/\ntarget/";

/// Share of the processor the daemon may use by default, in percent.
pub const DEFAULT_CPU_PERCENT: u8 = 15;

#[derive(Clone, Copy, Debug, PartialEq, Eq, Structural)]
pub struct ResourceLimits {
    pub cpu_percent: u8,
}

#[derive(Clone, Copy, Debug, PartialEq, Eq, Structural)]
pub struct IdleBoost {
    pub enabled: bool,
}

#[derive(Clone, Copy, Debug, PartialEq, Eq, Structural)]
pub struct Safeguards {
    pub mass_delete_guard: bool,
}

#[derive(Clone, Copy, Debug, PartialEq, Eq, Structural)]
pub struct TrashSettings {
    pub retention_days: u32,
}

/// One configured profile; what it leaves out is inherited.
#[derive(Debug, Default, PartialEq, Eq)]
pub struct ProfileConfig {
    pub id: String,
    pub name: Option<String>,
    pub provider: Option<String>,
    pub local_sync_directory: Option<String>,
    pub cloud_sync_directory: Option<String>,
    pub sync_mode: Option<String>,
    pub enabled: Option<bool>,
}

/// The configuration.
#[derive(Debug, PartialEq, Eq)]
pub struct VaporConfig {
    pub use_git_ignore: bool,
    pub use_vapor_ignore: bool,
    pub pre_ignore_rules: String,
    pub post_ignore_rules: String,
    pub timeline_limit: u64,
    pub resource_limits: ResourceLimits,
    pub idle_boost: IdleBoost,
    pub safeguards: Safeguards,
    pub trash: TrashSettings,
    pub local_sync_directory: String,
    pub cloud_sync_directory: String,
    pub provider: String,
    pub sync_mode: String,
    pub profiles: Vec<ProfileConfig>,
    pub language_code: String,
    pub auto_launch: bool,
}

impl Default for VaporConfig {
    fn default() -> (r: VaporConfig)
        ensures
            r.use_git_ignore,
            r.use_vapor_ignore,
            r.pre_ignore_rules@ == DEFAULT_PRE_IGNORE_RULES@,
            r.post_ignore_rules@ == Seq::<char>::empty(),
            r.timeline_limit == 500,
            r.resource_limits == (ResourceLimits { cpu_percent: DEFAULT_CPU_PERCENT }),
            r.idle_boost == (IdleBoost { enabled: true }),
            r.safeguards == (Safeguards { mass_delete_guard: true }),
            r.trash == (TrashSettings { retention_days: 30 }),
            r.local_sync_directory@ == Seq::<char>::empty(),
            r.cloud_sync_directory@ == "/Vapor"@,
            r.provider@ == "filesystem"@,
            r.sync_mode@ == "two-way"@,
            r.profiles@.len() == 0,
            r.language_code@ == "en"@,
            !r.auto_launch,
    {
        VaporConfig {
            use_git_ignore: true,
            use_vapor_ignore: true,
            pre_ignore_rules: DEFAULT_PRE_IGNORE_RULES.to_owned(),
            post_ignore_rules: String::new(),
            timeline_limit: 500,
            resource_limits: ResourceLimits { cpu_percent: DEFAULT_CPU_PERCENT },
            idle_boost: IdleBoost { enabled: true },
            safeguards: Safeguards { mass_delete_guard: true },
            trash: TrashSettings { retention_days: 30 },
            local_sync_directory: String::new(),
            cloud_sync_directory: "/Vapor".to_owned(),
            provider: "filesystem".to_owned(),
            sync_mode: "two-way".to_owned(),
            profiles: Vec::new(),
            language_code: "en".to_owned(),
            auto_launch: false,
        }
    }
}

// ---------------------------------------------------------------------------
// Live reload
// ---------------------------------------------------------------------------

/// What changed between the applied configuration and the file.
#[derive(Clone, Debug, Default, PartialEq, Eq)]
pub struct ConfigChange {
    /// Keys that apply to the running daemon.
    pub live: Vec<&'static str>,
    /// Keys that take a restart.
    pub restart: Vec<&'static str>,
}

/// Keys as texts.
pub open spec fn key_texts(keys: Seq<&'static str>) -> Seq<Seq<char>> {
    keys.map_values(|k: &'static str| k@)
}

impl ConfigChange {
    /// Whether nothing changed.
    pub fn is_empty(&self) -> (r: bool)
        ensures
            r == (self.live@.len() == 0 && self.restart@.len() == 0),
    {
        self.live.len() == 0 && self.restart.len() == 0
    }
}

/// Keys of which the condition beside them holds, in order.
pub open spec fn keys_where(rows: Seq<(bool, Seq<char>)>) -> Seq<Seq<char>>
    decreases rows.len(),
{
    if rows.len() == 0 {
        Seq::empty()
    } else {
        let rest = keys_where(rows.drop_last());
        if rows.last().0 {
            rest.push(rows.last().1)
        } else {
            rest
        }
    }
}

pub open spec fn optional_view(a: Option<String>) -> Option<Seq<char>> {
    match a {
        Some(text) => Some(text@),
        None => None,
    }
}

pub open spec fn same_profile(a: ProfileConfig, b: ProfileConfig) -> bool {
    &&& a.id@ == b.id@
    &&& optional_view(a.name) == optional_view(b.name)
    &&& optional_view(a.provider) == optional_view(b.provider)
    &&& optional_view(a.local_sync_directory) == optional_view(b.local_sync_directory)
    &&& optional_view(a.cloud_sync_directory) == optional_view(b.cloud_sync_directory)
    &&& optional_view(a.sync_mode) == optional_view(b.sync_mode)
    &&& a.enabled == b.enabled
}

pub open spec fn same_profiles(a: Seq<ProfileConfig>, b: Seq<ProfileConfig>) -> bool {
    a.len() == b.len() && forall|i: int|
        0 <= i < a.len() ==> same_profile(#[trigger] a[i], b[i])
}

/// Live keys with whether their values differ.
pub open spec fn live_rows(applied: VaporConfig, fresh: VaporConfig) -> Seq<(bool, Seq<char>)> {
    seq![
        (applied.use_git_ignore != fresh.use_git_ignore, KEY_USE_GIT_IGNORE@),
        (applied.use_vapor_ignore != fresh.use_vapor_ignore, KEY_USE_VAPOR_IGNORE@),
        (applied.pre_ignore_rules@ != fresh.pre_ignore_rules@, KEY_PRE_IGNORE_RULES@),
        (applied.post_ignore_rules@ != fresh.post_ignore_rules@, KEY_POST_IGNORE_RULES@),
        (applied.timeline_limit != fresh.timeline_limit, KEY_TIMELINE_LIMIT@),
        (applied.resource_limits != fresh.resource_limits, KEY_RESOURCE_LIMITS@),
        (applied.idle_boost != fresh.idle_boost, KEY_IDLE_BOOST@),
        (applied.safeguards != fresh.safeguards, KEY_SAFEGUARDS@),
        (applied.trash != fresh.trash, KEY_TRASH@),
    ]
}

/// Restart-required keys with whether their values differ.
pub open spec fn restart_rows(applied: VaporConfig, fresh: VaporConfig) -> Seq<
    (bool, Seq<char>),
> {
    seq![
        (
            applied.local_sync_directory@ != fresh.local_sync_directory@,
            KEY_LOCAL_SYNC_DIRECTORY@,
        ),
        (
            applied.cloud_sync_directory@ != fresh.cloud_sync_directory@,
            KEY_CLOUD_SYNC_DIRECTORY@,
        ),
        (applied.provider@ != fresh.provider@, KEY_PROVIDER@),
        (applied.sync_mode@ != fresh.sync_mode@, KEY_SYNC_MODE@),
        (!same_profiles(applied.profiles@, fresh.profiles@), KEY_PROFILES@),
    ]
}

fn note(keys: &mut Vec<&'static str>, differs: bool, key: &'static str)
    ensures
        key_texts(final(keys)@) == with_row(key_texts(old(keys)@), (differs, key@)),
{
    reveal(with_row);
    if differs {
        let ghost before = key_texts(keys@);
        keys.push(key);
        assert(key_texts(keys@) =~= before.push(key@));
    }
}

fn equal_optional(a: &Option<String>, b: &Option<String>) -> (r: bool)
    ensures
        r == (optional_view(*a) == optional_view(*b)),
{
    match (a, b) {
        (Some(x), Some(y)) => same_text(x.as_str(), y.as_str()),
        (None, None) => true,
        _ => false,
    }
}

fn equal_profile(a: &ProfileConfig, b: &ProfileConfig) -> (r: bool)
    ensures
        r == same_profile(*a, *b),
{
    let enabled = match (a.enabled, b.enabled) {
        (Some(x), Some(y)) => x == y,
        (None, None) => true,
        _ => false,
    };
    same_text(a.id.as_str(), b.id.as_str()) && equal_optional(&a.name, &b.name) && equal_optional(
        &a.provider,
        &b.provider,
    ) && equal_optional(&a.local_sync_directory, &b.local_sync_directory) && equal_optional(
        &a.cloud_sync_directory,
        &b.cloud_sync_directory,
    ) && equal_optional(&a.sync_mode, &b.sync_mode) && enabled
}

fn equal_profiles(a: &Vec<ProfileConfig>, b: &Vec<ProfileConfig>) -> (r: bool)
    ensures
        r == same_profiles(a@, b@),
{
    if a.len() != b.len() {
        return false;
    }
    let mut i: usize = 0;
    while i < a.len()
        invariant
            i <= a@.len(),
            a@.len() == b@.len(),
            forall|j: int| 0 <= j < i ==> same_profile(#[trigger] a@[j], b@[j]),
        decreases a@.len() - i,
    {
        if !equal_profile(&a[i], &b[i]) {
            return false;
        }
        i = i + 1;
    }
    true
}

fn live_changes(applied: &VaporConfig, fresh: &VaporConfig) -> (r: Vec<&'static str>)
    ensures
        key_texts(r@) == keys_where(live_rows(*applied, *fresh)),
{
    let mut live: Vec<&'static str> = Vec::new();
    assert(key_texts(live@) =~= Seq::empty());
    note(&mut live, applied.use_git_ignore != fresh.use_git_ignore, KEY_USE_GIT_IGNORE);
    note(&mut live, applied.use_vapor_ignore != fresh.use_vapor_ignore, KEY_USE_VAPOR_IGNORE);
    note(
        &mut live,
        !same_text(applied.pre_ignore_rules.as_str(), fresh.pre_ignore_rules.as_str()),
        KEY_PRE_IGNORE_RULES,
    );
    note(
        &mut live,
        !same_text(applied.post_ignore_rules.as_str(), fresh.post_ignore_rules.as_str()),
        KEY_POST_IGNORE_RULES,
    );
    note(&mut live, applied.timeline_limit != fresh.timeline_limit, KEY_TIMELINE_LIMIT);
    note(&mut live, applied.resource_limits != fresh.resource_limits, KEY_RESOURCE_LIMITS);
    note(&mut live, applied.idle_boost != fresh.idle_boost, KEY_IDLE_BOOST);
    note(&mut live, applied.safeguards != fresh.safeguards, KEY_SAFEGUARDS);
    note(&mut live, applied.trash != fresh.trash, KEY_TRASH);
    proof {
        lemma_nine(live_rows(*applied, *fresh));
    }
    live
}

fn restart_changes(applied: &VaporConfig, fresh: &VaporConfig) -> (r: Vec<&'static str>)
    ensures
        key_texts(r@) == keys_where(restart_rows(*applied, *fresh)),
{
    let mut restart: Vec<&'static str> = Vec::new();
    assert(key_texts(restart@) =~= Seq::empty());
    note(
        &mut restart,
        !same_text(applied.local_sync_directory.as_str(), fresh.local_sync_directory.as_str()),
        KEY_LOCAL_SYNC_DIRECTORY,
    );
    note(
        &mut restart,
        !same_text(applied.cloud_sync_directory.as_str(), fresh.cloud_sync_directory.as_str()),
        KEY_CLOUD_SYNC_DIRECTORY,
    );
    note(
        &mut restart,
        !same_text(applied.provider.as_str(), fresh.provider.as_str()),
        KEY_PROVIDER,
    );
    note(
        &mut restart,
        !same_text(applied.sync_mode.as_str(), fresh.sync_mode.as_str()),
        KEY_SYNC_MODE,
    );
    note(&mut restart, !equal_profiles(&applied.profiles, &fresh.profiles), KEY_PROFILES);
    proof {
        lemma_five(restart_rows(*applied, *fresh));
    }
    restart
}

/// Compares two configurations key by key. Keys the daemon does not read are
/// not reported.
pub fn diff(applied: &VaporConfig, fresh: &VaporConfig) -> (r: ConfigChange)
    ensures
        key_texts(r.live@) == keys_where(live_rows(*applied, *fresh)),
        key_texts(r.restart@) == keys_where(restart_rows(*applied, *fresh)),
{
    ConfigChange {
        live: live_changes(applied, fresh),
        restart: restart_changes(applied, fresh),
    }
}

/// The keys with one more, when its condition holds.
#[verifier::opaque]
pub open spec fn with_row(keys: Seq<Seq<char>>, row: (bool, Seq<char>)) -> Seq<Seq<char>> {
    if row.0 {
        keys.push(row.1)
    } else {
        keys
    }
}

proof fn lemma_five(rows: Seq<(bool, Seq<char>)>)
    requires
        rows.len() >= 5,
    ensures
        keys_where(rows.take(5)) == with_row(
            with_row(
                with_row(with_row(with_row(Seq::empty(), rows[0]), rows[1]), rows[2]),
                rows[3],
            ),
            rows[4],
        ),
        rows.len() == 5 ==> rows.take(5) == rows,
{
    reveal(with_row);
    reveal_with_fuel(keys_where, 6);
    let a = rows.take(5);
    assert(a.drop_last() =~= rows.take(4));
    assert(rows.take(4).drop_last() =~= rows.take(3));
    assert(rows.take(3).drop_last() =~= rows.take(2));
    assert(rows.take(2).drop_last() =~= rows.take(1));
    assert(rows.take(1).drop_last() =~= Seq::empty());
    if rows.len() == 5 {
        assert(a =~= rows);
    }
}

proof fn lemma_nine(rows: Seq<(bool, Seq<char>)>)
    requires
        rows.len() == 9,
    ensures
        keys_where(rows) == with_row(
            with_row(with_row(with_row(keys_where(rows.take(5)), rows[5]), rows[6]), rows[7]),
            rows[8],
        ),
        keys_where(rows.take(5)) == with_row(
            with_row(
                with_row(with_row(with_row(Seq::empty(), rows[0]), rows[1]), rows[2]),
                rows[3],
            ),
            rows[4],
        ),
{
    lemma_five(rows);
    reveal(with_row);
    reveal_with_fuel(keys_where, 5);
    assert(rows.drop_last() =~= rows.take(8));
    assert(rows.take(8).drop_last() =~= rows.take(7));
    assert(rows.take(7).drop_last() =~= rows.take(6));
    assert(rows.take(6).drop_last() =~= rows.take(5));
}

/// A configuration differs from itself in no key.
pub proof fn law_no_change_without_a_difference(config: VaporConfig)
    ensures
        keys_where(live_rows(config, config)).len() == 0,
        keys_where(restart_rows(config, config)).len() == 0,
{
    reveal(with_row);
    lemma_nine(live_rows(config, config));
    lemma_five(restart_rows(config, config));
}

/// Time and size of the configuration file; `None` when it cannot be read.
pub type FileStamp = Option<(SystemTime, u64)>;

/// Watches one configuration file for changes not applied yet.
#[derive(Debug)]
pub struct ConfigReloader {
    applied: VaporConfig,
    last_seen: FileStamp,
    last_poll: Option<Instant>,
    poll_interval: Duration,
}

pub open spec fn poll_due(last: Option<Instant>, now: Instant, interval: Duration) -> bool {
    match last {
        Some(last) => now.nanos >= last.nanos && now.nanos - last.nanos >= interval.nanos
            || interval.nanos == 0,
        None => true,
    }
}

fn same_stamp(a: FileStamp, b: FileStamp) -> (r: bool)
    ensures
        r == (a == b),
{
    match (a, b) {
        (Some((x, m)), Some((y, n))) => x.nanos == y.nanos && m == n,
        (None, None) => true,
        _ => false,
    }
}

impl ConfigReloader {
    pub closed spec fn config(&self) -> VaporConfig {
        self.applied
    }

    pub closed spec fn seen(&self) -> FileStamp {
        self.last_seen
    }

    pub closed spec fn polled(&self) -> Option<Instant> {
        self.last_poll
    }

    pub closed spec fn interval(&self) -> Duration {
        self.poll_interval
    }

    /// Starts from the applied configuration and the file's stamp.
    pub fn new(stamp: FileStamp, applied: VaporConfig) -> (r: ConfigReloader)
        ensures
            r.config() == applied,
            r.seen() == stamp,
            r.polled() is None,
            r.interval().nanos == CONFIG_RELOAD_POLL_MILLIS * NANOS_PER_MILLI,
    {
        ConfigReloader {
            applied,
            last_seen: stamp,
            last_poll: None,
            poll_interval: Duration { nanos: CONFIG_RELOAD_POLL_MILLIS as u128 * NANOS_PER_MILLI },
        }
    }

    /// The configuration in force.
    pub fn applied(&self) -> (r: &VaporConfig)
        ensures
            *r == self.config(),
    {
        &self.applied
    }

    /// Whether the file is to be looked at now: at most once per interval.
    pub fn poll(&mut self, now: Instant) -> (r: bool)
        ensures
            r == poll_due(old(self).polled(), now, old(self).interval()),
            final(self).polled() == if r {
                Some(now)
            } else {
                old(self).polled()
            },
            final(self).config() == old(self).config(),
            final(self).seen() == old(self).seen(),
            final(self).interval() == old(self).interval(),
    {
        if let Some(last) = self.last_poll {
            let elapsed = now.saturating_duration_since(last);
            if elapsed.nanos < self.poll_interval.nanos {
                return false;
            }
        }
        self.last_poll = Some(now);
        true
    }

    /// Whether the file is to be loaded: its stamp is another than the last.
    pub fn observe(&mut self, stamp: FileStamp) -> (r: bool)
        ensures
            r == (stamp != old(self).seen()),
            final(self).seen() == stamp,
            final(self).config() == old(self).config(),
            final(self).polled() == old(self).polled(),
            final(self).interval() == old(self).interval(),
    {
        let changed = !same_stamp(stamp, self.last_seen);
        self.last_seen = stamp;
        changed
    }

    /// Takes the loaded file. One that does not load, or that changes nothing
    /// the daemon reads, leaves the applied configuration alone.
    pub fn loaded(&mut self, loaded: Result<VaporConfig, String>) -> (r: Option<ConfigChange>)
        ensures
            final(self).seen() == old(self).seen(),
            final(self).polled() == old(self).polled(),
            final(self).interval() == old(self).interval(),
            match loaded {
                Err(_) => r is None && final(self).config() == old(self).config(),
                Ok(fresh) => {
                    let live = keys_where(live_rows(old(self).config(), fresh));
                    let restart = keys_where(restart_rows(old(self).config(), fresh));
                    if live.len() == 0 && restart.len() == 0 {
                        r is None && final(self).config() == old(self).config()
                    } else {
                        &&& r matches Some(change)
                        &&& key_texts(change.live@) == live
                        &&& key_texts(change.restart@) == restart
                        &&& final(self).config() == fresh
                    }
                },
            },
    {
        match loaded {
            Err(_) => None,
            Ok(fresh) => {
                let change = diff(&self.applied, &fresh);
                assert(key_texts(change.live@).len() == change.live@.len());
                assert(key_texts(change.restart@).len() == change.restart@.len());
                if change.is_empty() {
                    return None;
                }
                self.applied = fresh;
                Some(change)
            },
        }
    }
}

/// The keys a configuration can hold: those that apply at once, those that
/// take a restart, and those the daemon does not read.
pub open spec fn documented_keys() -> Seq<Seq<char>> {
    seq![
        KEY_USE_GIT_IGNORE@,
        KEY_USE_VAPOR_IGNORE@,
        KEY_PRE_IGNORE_RULES@,
        KEY_POST_IGNORE_RULES@,
        KEY_TIMELINE_LIMIT@,
        KEY_RESOURCE_LIMITS@,
        KEY_IDLE_BOOST@,
        KEY_SAFEGUARDS@,
        KEY_TRASH@,
        KEY_LOCAL_SYNC_DIRECTORY@,
        KEY_CLOUD_SYNC_DIRECTORY@,
        KEY_PROVIDER@,
        KEY_SYNC_MODE@,
        KEY_PROFILES@,
        KEY_LANGUAGE_CODE@,
        KEY_AUTO_LAUNCH@,
    ]
}

pub open spec fn row_keys(rows: Seq<(bool, Seq<char>)>) -> Seq<Seq<char>> {
    rows.map_values(|row: (bool, Seq<char>)| row.1)
}

/// Tells the documented keys apart.
spec fn mark(key: Seq<char>) -> (nat, char, char) {
    (key.len(), key[0], key[2])
}

/// Every documented key is compared exactly once, as one that applies at once
/// or one that takes a restart, or it is one the daemon does not read.
pub proof fn law_every_key_is_classified_once(applied: VaporConfig, fresh: VaporConfig)
    ensures
        documented_keys().no_duplicates(),
        documented_keys() == row_keys(live_rows(applied, fresh)) + row_keys(
            restart_rows(applied, fresh),
        ) + seq![KEY_LANGUAGE_CODE@, KEY_AUTO_LAUNCH@],
{
    reveal_strlit("useGitIgnore");
    reveal_strlit("useVaporIgnore");
    reveal_strlit("preIgnoreRules");
    reveal_strlit("postIgnoreRules");
    reveal_strlit("timelineLimit");
    reveal_strlit("resourceLimits");
    reveal_strlit("idleBoost");
    reveal_strlit("safeguards");
    reveal_strlit("trash");
    reveal_strlit("localSyncDirectory");
    reveal_strlit("cloudSyncDirectory");
    reveal_strlit("provider");
    reveal_strlit("syncMode");
    reveal_strlit("profiles");
    reveal_strlit("languageCode");
    reveal_strlit("autoLaunch");
    let keys = documented_keys();
    assert forall|i: int, j: int|
        0 <= i < keys.len() && 0 <= j < keys.len() && i != j implies keys[i] != keys[j] by {
        if mark(keys[i]) == mark(keys[j]) {
            assert(keys[i][3] != keys[j][3]);
        }
    }
    assert(keys =~= row_keys(live_rows(applied, fresh)) + row_keys(restart_rows(applied, fresh))
        + seq![KEY_LANGUAGE_CODE@, KEY_AUTO_LAUNCH@]);
}

// ---------------------------------------------------------------------------
// What the comparison is for
// ---------------------------------------------------------------------------

proof fn lemma_keys_where(rows: Seq<(bool, Seq<char>)>)
    ensures
        forall|i: int|
            0 <= i < rows.len() && (#[trigger] rows[i]).0 ==> keys_where(rows).contains(rows[i].1),
        forall|k: Seq<char>|
            #[trigger] keys_where(rows).contains(k) ==> exists|i: int|
                0 <= i < rows.len() && (#[trigger] rows[i]).0 && rows[i].1 == k,
    decreases rows.len(),
{
    if rows.len() > 0 {
        let front = rows.drop_last();
        lemma_keys_where(front);
        let rest = keys_where(front);
        let all = keys_where(rows);
        assert forall|i: int| 0 <= i < rows.len() && (#[trigger] rows[i]).0 implies all.contains(
            rows[i].1,
        ) by {
            if i < front.len() {
                assert(front[i] == rows[i]);
                let k = rest.index_of(rows[i].1);
                assert(all[k] == rows[i].1);
            } else {
                assert(all[all.len() - 1] == rows[i].1);
            }
        }
        assert forall|k: Seq<char>| #[trigger] all.contains(k) implies exists|i: int|
            0 <= i < rows.len() && (#[trigger] rows[i]).0 && rows[i].1 == k by {
            let n = all.index_of(k);
            if n < rest.len() {
                assert(rest[n] == k);
                assert(rest.contains(k));
                let i = choose|i: int|
                    0 <= i < front.len() && (#[trigger] front[i]).0 && front[i].1 == k;
                assert(rows[i] == front[i]);
            } else {
                assert(rows[rows.len() - 1].1 == k);
            }
        }
    }
}

/// A key is named exactly if its value differs, and as what it is: the rules,
/// limits and safeguards apply at once, what is synced with what takes a
/// restart. The language and the launch at login concern the daemon not at all.
pub proof fn law_a_key_is_named_if_it_differs(
    applied: VaporConfig,
    fresh: VaporConfig,
    r: ConfigChange,
)
    requires
        call_ensures(diff, (&applied, &fresh), r),
    ensures
        ({
            let live = key_texts(r.live@);
            let restart = key_texts(r.restart@);
            &&& live.contains("useGitIgnore"@) <==> applied.use_git_ignore != fresh.use_git_ignore
            &&& live.contains("useVaporIgnore"@) <==> applied.use_vapor_ignore
                != fresh.use_vapor_ignore
            &&& live.contains("preIgnoreRules"@) <==> applied.pre_ignore_rules@
                != fresh.pre_ignore_rules@
            &&& live.contains("postIgnoreRules"@) <==> applied.post_ignore_rules@
                != fresh.post_ignore_rules@
            &&& live.contains("timelineLimit"@) <==> applied.timeline_limit != fresh.timeline_limit
            &&& live.contains("resourceLimits"@) <==> applied.resource_limits
                != fresh.resource_limits
            &&& live.contains("idleBoost"@) <==> applied.idle_boost != fresh.idle_boost
            &&& live.contains("safeguards"@) <==> applied.safeguards != fresh.safeguards
            &&& live.contains("trash"@) <==> applied.trash != fresh.trash
            &&& restart.contains("localSyncDirectory"@) <==> applied.local_sync_directory@
                != fresh.local_sync_directory@
            &&& restart.contains("cloudSyncDirectory"@) <==> applied.cloud_sync_directory@
                != fresh.cloud_sync_directory@
            &&& restart.contains("provider"@) <==> applied.provider@ != fresh.provider@
            &&& restart.contains("syncMode"@) <==> applied.sync_mode@ != fresh.sync_mode@
            &&& applied.profiles@.len() != fresh.profiles@.len() ==> restart.contains("profiles"@)
            &&& applied.profiles@ == fresh.profiles@ ==> !restart.contains("profiles"@)
            &&& forall|i: int|
                0 <= i < applied.profiles@.len() && i < fresh.profiles@.len() && ((
                #[trigger] applied.profiles@[i]).id@ != fresh.profiles@[i].id@
                    || applied.profiles@[i].enabled != fresh.profiles@[i].enabled)
                    ==> restart.contains("profiles"@)
            &&& !live.contains("languageCode"@) && !restart.contains("languageCode"@)
            &&& !live.contains("autoLaunch"@) && !restart.contains("autoLaunch"@)
        }),
{
    law_every_key_is_classified_once(applied, fresh);
    let rows = live_rows(applied, fresh);
    let behind = restart_rows(applied, fresh);
    let keys = documented_keys();
    lemma_keys_where(rows);
    lemma_keys_where(behind);
    assert(rows.len() == 9 && behind.len() == 5 && keys.len() == 16);
    assert(keys[0] == rows[0].1 && keys[1] == rows[1].1 && keys[2] == rows[2].1 && keys[3]
        == rows[3].1 && keys[4] == rows[4].1 && keys[5] == rows[5].1 && keys[6] == rows[6].1
        && keys[7] == rows[7].1 && keys[8] == rows[8].1);
    assert(keys[9] == behind[0].1 && keys[10] == behind[1].1 && keys[11] == behind[2].1 && keys[12]
        == behind[3].1 && keys[13] == behind[4].1);
    assert(keys[14] == "languageCode"@ && keys[15] == "autoLaunch"@);
    assert forall|i: int, k: Seq<char>|
        0 <= i < 9 && (#[trigger] rows[i]).1 == k && #[trigger] keys_where(rows).contains(
            k,
        ) implies rows[i].0 by {
        let j = choose|j: int| 0 <= j < rows.len() && (#[trigger] rows[j]).0 && rows[j].1 == k;
        assert(keys[i] == rows[i].1 && keys[j] == rows[j].1);
    }
    assert forall|i: int, k: Seq<char>|
        0 <= i < 5 && (#[trigger] behind[i]).1 == k && #[trigger] keys_where(behind).contains(
            k,
        ) implies behind[i].0 by {
        let j = choose|j: int|
            0 <= j < behind.len() && (#[trigger] behind[j]).0 && behind[j].1 == k;
        assert(keys[i + 9] == behind[i].1 && keys[j + 9] == behind[j].1);
    }
    assert forall|k: Seq<char>|
        k == keys[14] || k == keys[15] implies !#[trigger] keys_where(rows).contains(k) by {
        if keys_where(rows).contains(k) {
            let j = choose|j: int| 0 <= j < rows.len() && (#[trigger] rows[j]).0 && rows[j].1 == k;
            assert(keys[j] == rows[j].1);
        }
    }
    assert forall|k: Seq<char>|
        k == keys[14] || k == keys[15] implies !#[trigger] keys_where(behind).contains(k) by {
        if keys_where(behind).contains(k) {
            let j = choose|j: int|
                0 <= j < behind.len() && (#[trigger] behind[j]).0 && behind[j].1 == k;
            assert(keys[j + 9] == behind[j].1);
        }
    }
    if applied.profiles@ == fresh.profiles@ {
        assert(same_profiles(applied.profiles@, fresh.profiles@));
    }
}

/// A configuration that cannot be read changes nothing. One that can is in
/// force once it differs, and the change is told.
pub proof fn law_only_a_readable_difference_is_applied(
    reloader: &mut ConfigReloader,
    loaded: Result<VaporConfig, String>,
    r: Option<ConfigChange>,
    change: ConfigChange,
)
    requires
        call_ensures(ConfigReloader::loaded, (reloader, loaded), r),
        loaded is Ok ==> call_ensures(diff, (&old(reloader).config(), &loaded->Ok_0), change),
    ensures
        loaded is Err ==> r is None && final(reloader).config() == old(reloader).config(),
        loaded is Ok ==> (r is Some <==> change.live@.len() + change.restart@.len() > 0),
        loaded is Ok && r is Some ==> final(reloader).config() == loaded->Ok_0 && key_texts(
            (r->0).live@,
        ) == key_texts(change.live@) && key_texts((r->0).restart@) == key_texts(change.restart@),
        r is None ==> final(reloader).config() == old(reloader).config(),
{
    if loaded is Ok {
        assert(key_texts(change.live@).len() == change.live@.len());
        assert(key_texts(change.restart@).len() == change.restart@.len());
    }
}

/// The file is looked at once a second at most, the first time at once, and
/// read only when it is another one than last time.
pub proof fn law_the_file_is_looked_at_once_a_second(
    stamp: FileStamp,
    config: VaporConfig,
    fresh: ConfigReloader,
    reloader: &mut ConfigReloader,
    first: Instant,
    now: Instant,
    b: bool,
)
    requires
        call_ensures(ConfigReloader::new, (stamp, config), fresh),
        old(reloader).interval() == fresh.interval(),
        old(reloader).polled() == Some(first),
        call_ensures(ConfigReloader::poll, (reloader, now), b),
    ensures
        fresh.polled() is None,
        fresh.seen() == stamp,
        fresh.config() == config,
        b <==> now.nanos >= first.nanos + 1_000_000_000,
        b ==> final(reloader).polled() == Some(now),
        !b ==> final(reloader).polled() == Some(first),
        final(reloader).config() == old(reloader).config(),
        final(reloader).seen() == old(reloader).seen(),
{
}

} // verus!
