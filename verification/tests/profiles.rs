use vapor_daemon::config::{ProfileConfig, VaporConfig};
use vapor_daemon::paths::FsPath;
use vapor_daemon::profiles::{
    is_valid_profile_id, profile_database_path, profile_secrets, purge_profile_state,
    resolve_profiles, secret_key,
    sync_mode_from_config,
};
use vapor_daemon::records::SyncMode;

fn base_config() -> VaporConfig {
    VaporConfig {
        local_sync_directory: "/tmp/vapor-top-local".to_string(),
        cloud_sync_directory: "/tmp/vapor-top-cloud".to_string(),
        sync_mode: "two-way".to_string(),
        ..VaporConfig::default()
    }
}

fn blank_profile() -> ProfileConfig {
    ProfileConfig {
        id: String::new(),
        name: None,
        provider: None,
        local_sync_directory: None,
        cloud_sync_directory: None,
        sync_mode: None,
        enabled: None,
    }
}

#[test]
fn empty_profiles_resolve_to_the_implicit_default() {
    let profiles = resolve_profiles(&base_config());
    assert_eq!(profiles.len(), 1);
    assert_eq!(profiles[0].id, "default");
    assert!(profiles[0].enabled);
    assert_eq!(profiles[0].provider_kind, "filesystem");
    assert_eq!(profiles[0].scope.sync_mode, SyncMode::TwoWay);
}

#[test]
fn profile_overrides_win_outright_and_unset_fields_inherit() {
    let mut config = base_config();
    config.profiles = vec![
        ProfileConfig {
            id: "mirror".to_string(),
            name: Some("Cloud Mirror".to_string()),
            local_sync_directory: Some("/tmp/vapor-mirror".to_string()),
            sync_mode: Some("pull-only".to_string()),
            ..blank_profile()
        },
        ProfileConfig {
            id: "docs".to_string(),
            ..blank_profile()
        },
    ];

    let profiles = resolve_profiles(&config);
    assert_eq!(profiles.len(), 2);
    let mirror = &profiles[0];
    assert_eq!(mirror.display_name, "Cloud Mirror");
    assert_eq!(mirror.scope.sync_mode, SyncMode::PullOnly, "override wins");
    let mirror_local = mirror
        .scope
        .local_sync_directory
        .as_ref()
        .expect("override resolves a local root");
    assert!(mirror_local.is_absolute());
    assert_eq!(*mirror_local, FsPath::new("/tmp/vapor-mirror"), "override wins");
    assert_eq!(
        mirror.scope.cloud_sync_directory, "/tmp/vapor-top-cloud",
        "unset fields inherit the top level"
    );
    let docs = &profiles[1];
    assert_eq!(docs.scope.sync_mode, SyncMode::TwoWay, "inherits default");
    assert_eq!(docs.display_name, "docs", "name defaults to the id");
}

#[test]
fn invalid_and_duplicate_profile_ids_are_skipped() {
    let mut config = base_config();
    config.profiles = vec![
        ProfileConfig {
            id: "".to_string(),
            ..blank_profile()
        },
        ProfileConfig {
            id: "Not A Slug!".to_string(),
            ..blank_profile()
        },
        ProfileConfig {
            id: "good".to_string(),
            ..blank_profile()
        },
        ProfileConfig {
            id: "good".to_string(),
            ..blank_profile()
        },
    ];

    let profiles = resolve_profiles(&config);
    assert_eq!(profiles.len(), 1);
    assert_eq!(profiles[0].id, "good");
}

#[test]
fn all_invalid_profiles_fall_back_to_the_implicit_default() {
    let mut config = base_config();
    config.profiles = vec![ProfileConfig {
        id: "***".to_string(),
        ..blank_profile()
    }];
    let profiles = resolve_profiles(&config);
    assert_eq!(profiles.len(), 1);
    assert_eq!(profiles[0].id, "default");
}

#[test]
fn one_way_mode_on_a_profile_requires_the_exact_spelling() {
    let mut config = base_config();
    config.profiles = vec![ProfileConfig {
        id: "sloppy".to_string(),
        sync_mode: Some("Pull-Only".to_string()),
        ..blank_profile()
    }];
    let profiles = resolve_profiles(&config);
    assert_eq!(
        profiles[0].scope.sync_mode,
        SyncMode::TwoWay,
        "a typo must never activate a destructive mode"
    );
}

#[test]
fn purge_refuses_the_default_profile_and_clears_namespaced_secrets() {
    let names = vec![
        secret_key("work", "gdrive", "token"),
        secret_key("home", "gdrive", "token"),
    ];

    let state_root = FsPath::new("/vapor/state");
    let directory = purge_profile_state("work", &state_root).expect("purge");
    assert_eq!(directory.to_text(), "/vapor/state/profiles/work");
    let removed = profile_secrets(names, "work");
    assert_eq!(
        removed,
        vec![secret_key("work", "gdrive", "token")],
        "other profiles' secrets must survive"
    );

    assert!(purge_profile_state("default", &state_root).is_err());
    assert_eq!(
        purge_profile_state("Not Valid!", &state_root),
        Err("profile 'Not Valid!' cannot be purged".to_string())
    );
}

#[test]
fn each_profile_has_its_own_database() {
    let state_root = FsPath::new("/vapor/state");
    assert_eq!(
        profile_database_path(&state_root, "work").to_text(),
        "/vapor/state/profiles/work/vapor.sqlite"
    );
    assert_ne!(
        profile_database_path(&state_root, "work"),
        profile_database_path(&state_root, "home")
    );
}

#[test]
fn secret_keys_are_namespaced_by_profile_and_provider() {
    assert_eq!(
        secret_key("work", "gdrive", "token"),
        "auth.work.gdrive.token"
    );
}

#[test]
fn a_longer_id_is_another_namespace() {
    let names = vec![secret_key("work-2", "gdrive", "token")];
    assert!(profile_secrets(names, "work").is_empty());
}

#[test]
fn ids_are_short_slugs() {
    assert!(is_valid_profile_id("a-b_9"));
    assert!(!is_valid_profile_id(""));
    assert!(!is_valid_profile_id("a.b"));
    assert!(!is_valid_profile_id("caf\u{e9}"));
    assert!(is_valid_profile_id(&"x".repeat(64)));
    assert!(!is_valid_profile_id(&"x".repeat(65)));
}

#[test]
fn mode_spellings_read_back() {
    for mode in [SyncMode::TwoWay, SyncMode::PushOnly, SyncMode::PullOnly] {
        assert_eq!(sync_mode_from_config(mode.as_config_value()), Some(mode));
    }
    assert_eq!(sync_mode_from_config("Two-Way"), None);
}

#[test]
fn a_blank_local_directory_is_none() {
    let mut config = base_config();
    config.local_sync_directory = "  ".to_string();
    let profiles = resolve_profiles(&config);
    assert_eq!(profiles[0].scope.local_sync_directory, None);
}
