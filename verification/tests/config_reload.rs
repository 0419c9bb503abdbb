use vapor_daemon::clock::{Duration, Instant, SystemTime};
use vapor_daemon::config::{
    diff, ConfigReloader, IdleBoost, ProfileConfig, ResourceLimits, Safeguards, TrashSettings,
    VaporConfig, KEY_AUTO_LAUNCH, KEY_CLOUD_SYNC_DIRECTORY, KEY_IDLE_BOOST, KEY_LANGUAGE_CODE,
    KEY_LOCAL_SYNC_DIRECTORY, KEY_POST_IGNORE_RULES, KEY_PRE_IGNORE_RULES, KEY_PROFILES,
    KEY_PROVIDER, KEY_RESOURCE_LIMITS, KEY_SAFEGUARDS, KEY_SYNC_MODE, KEY_TIMELINE_LIMIT,
    KEY_TRASH, KEY_USE_GIT_IGNORE, KEY_USE_VAPOR_IGNORE,
};

fn profile(id: &str) -> ProfileConfig {
    ProfileConfig {
        id: id.to_string(),
        name: None,
        provider: None,
        local_sync_directory: None,
        cloud_sync_directory: None,
        sync_mode: None,
        enabled: None,
    }
}

#[test]
fn diff_classifies_live_and_restart_keys_and_ignores_app_only_keys() {
    let applied = VaporConfig::default();
    let mut fresh = VaporConfig::default();
    fresh.resource_limits.cpu_percent = 5;
    fresh.pre_ignore_rules = "build/".to_string();
    fresh.provider = "gdrive".to_string();
    fresh.language_code = "es".to_string();
    fresh.trash.retention_days = 7;
    let change = diff(&applied, &fresh);
    assert_eq!(
        change.live,
        vec![KEY_PRE_IGNORE_RULES, KEY_RESOURCE_LIMITS, KEY_TRASH]
    );
    assert_eq!(change.restart, vec![KEY_PROVIDER]);
    assert!(diff(&applied, &applied).is_empty());
}

#[test]
fn every_documented_key_is_classified_exactly_once() {
    let applied = VaporConfig::default();
    let fresh = VaporConfig {
        use_git_ignore: !applied.use_git_ignore,
        use_vapor_ignore: !applied.use_vapor_ignore,
        pre_ignore_rules: "changed/".to_string(),
        post_ignore_rules: "changed/".to_string(),
        timeline_limit: applied.timeline_limit + 1,
        resource_limits: ResourceLimits { cpu_percent: applied.resource_limits.cpu_percent + 1 },
        idle_boost: IdleBoost { enabled: !applied.idle_boost.enabled },
        safeguards: Safeguards { mass_delete_guard: !applied.safeguards.mass_delete_guard },
        trash: TrashSettings { retention_days: applied.trash.retention_days + 1 },
        local_sync_directory: "/changed".to_string(),
        cloud_sync_directory: "/changed".to_string(),
        provider: "changed".to_string(),
        sync_mode: "changed".to_string(),
        profiles: vec![profile("changed")],
        language_code: "changed".to_string(),
        auto_launch: !applied.auto_launch,
    };
    let change = diff(&applied, &fresh);
    for key in [
        KEY_USE_GIT_IGNORE,
        KEY_USE_VAPOR_IGNORE,
        KEY_PRE_IGNORE_RULES,
        KEY_POST_IGNORE_RULES,
        KEY_TIMELINE_LIMIT,
        KEY_RESOURCE_LIMITS,
        KEY_IDLE_BOOST,
        KEY_SAFEGUARDS,
        KEY_TRASH,
        KEY_LOCAL_SYNC_DIRECTORY,
        KEY_CLOUD_SYNC_DIRECTORY,
        KEY_PROVIDER,
        KEY_SYNC_MODE,
        KEY_PROFILES,
        KEY_LANGUAGE_CODE,
        KEY_AUTO_LAUNCH,
    ] {
        let live = change.live.contains(&key);
        let restart = change.restart.contains(&key);
        let app_only = matches!(key, KEY_AUTO_LAUNCH | KEY_LANGUAGE_CODE);
        assert!(
            usize::from(live) + usize::from(restart) + usize::from(app_only) == 1,
            "{key} must be live, restart-required, or app-only"
        );
    }
}

fn with_limit(limit: u64) -> VaporConfig {
    VaporConfig { timeline_limit: limit, ..VaporConfig::default() }
}

/// One poll of a file with the given stamp: `None` when nothing is to be
/// loaded.
fn poll(
    reloader: &mut ConfigReloader,
    now: Instant,
    stamp: (SystemTime, u64),
    contents: Result<VaporConfig, String>,
) -> Option<Vec<&'static str>> {
    if !reloader.poll(now) || !reloader.observe(Some(stamp)) {
        return None;
    }
    reloader.loaded(contents).map(|change| change.live)
}

#[test]
fn reloader_reports_a_file_change_once_and_keeps_bad_files_out() {
    let epoch = SystemTime::unix_epoch().plus(Duration::from_secs(1_800_000_000));
    let later = |seconds: u64| epoch.plus(Duration::from_secs(seconds));
    let mut reloader = ConfigReloader::new(Some((epoch, 3)), VaporConfig::default());
    let start = Instant { nanos: 5_000_000_000 };
    let at = |seconds: u64| start.plus(Duration::from_secs(seconds));
    assert!(
        poll(&mut reloader, start, (epoch, 3), Ok(VaporConfig::default())).is_none(),
        "unchanged file"
    );

    // A later mtime and a different length is a change.
    let change = poll(&mut reloader, at(2), (later(10), 22), Ok(with_limit(42)))
        .expect("change detected");
    assert_eq!(change, vec![KEY_TIMELINE_LIMIT]);
    assert_eq!(reloader.applied().timeline_limit, 42);
    assert!(
        poll(&mut reloader, at(4), (later(10), 22), Ok(with_limit(42))).is_none(),
        "a change is reported once"
    );

    // Same length, later mtime: still a change. Inside the poll interval
    // nothing is even looked at.
    assert!(poll(&mut reloader, at(4), (later(20), 22), Ok(with_limit(43))).is_none());
    assert!(poll(&mut reloader, at(6), (later(20), 22), Ok(with_limit(43))).is_some());

    // A file that fails to load leaves the applied config alone.
    assert!(poll(
        &mut reloader,
        at(8),
        (later(30), 10),
        Err("not json".to_string())
    )
    .is_none());
    assert_eq!(reloader.applied().timeline_limit, 43);
}

#[test]
fn a_rewritten_file_with_the_same_settings_is_no_change() {
    let mut reloader = ConfigReloader::new(None, VaporConfig::default());
    let stamp = Some((SystemTime::unix_epoch(), 3));
    assert!(reloader.poll(Instant { nanos: 0 }));
    assert!(reloader.observe(stamp));
    assert!(reloader.loaded(Ok(VaporConfig::default())).is_none());
}
