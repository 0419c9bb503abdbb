use vapor_daemon::conflict::{conflict_copy_path, parse_conflict_copy_name};
use vapor_daemon::paths::FsPath;

fn never_exists(_: &FsPath) -> bool {
    false
}

#[test]
fn suffix_lands_between_stem_and_extension() {
    let derived = conflict_copy_path(
        &FsPath::new("/root/docs/report.md"),
        "alexs-mbp",
        1_750_000_000_123,
        never_exists,
    );
    assert_eq!(
        derived,
        FsPath::new("/root/docs/report~conflict-alexs-mbp-1750000000123.md")
    );
}

#[test]
fn extensionless_and_hidden_files_append_the_suffix() {
    assert_eq!(
        conflict_copy_path(&FsPath::new("/r/Makefile"), "dev", 5, never_exists),
        FsPath::new("/r/Makefile~conflict-dev-5")
    );
    assert_eq!(
        conflict_copy_path(&FsPath::new("/r/.env"), "dev", 5, never_exists),
        FsPath::new("/r/.env~conflict-dev-5")
    );
}

#[test]
fn multi_dot_names_split_at_the_last_dot() {
    assert_eq!(
        conflict_copy_path(&FsPath::new("/r/archive.tar.gz"), "dev", 7, never_exists),
        FsPath::new("/r/archive.tar~conflict-dev-7.gz")
    );
}

#[test]
fn collisions_walk_the_sequence_from_two() {
    let taken = [
        FsPath::new("/r/a~conflict-dev-9.txt"),
        FsPath::new("/r/a~conflict-dev-9-2.txt"),
    ];
    let derived = conflict_copy_path(&FsPath::new("/r/a.txt"), "dev", 9, |candidate| {
        taken.iter().any(|t| t == candidate)
    });
    assert_eq!(derived, FsPath::new("/r/a~conflict-dev-9-3.txt"));
}

#[test]
fn parse_round_trips_generated_names() {
    // Realistic epoch-ms timestamps: the parser requires 12+ digits to tell
    // the timestamp apart from digit-suffixed device ids.
    let cases = [
        ("report.md", "alexs-mbp", 1_750_000_000_123_u64),
        ("Makefile", "dev", 1_750_000_000_123),
        (".env", "mbp2", 1_750_000_000_123),
        ("archive.tar.gz", "work-mac-2", 1_750_000_000_123),
    ];
    for (original, device_id, timestamp_ms) in cases {
        let derived = conflict_copy_path(
            &FsPath::new("/r").join(original),
            device_id,
            timestamp_ms,
            never_exists,
        );
        let name = derived.file_name().unwrap();
        let parsed = parse_conflict_copy_name(&name)
            .unwrap_or_else(|| panic!("generated name must parse: {name}"));
        assert_eq!(parsed.canonical_file_name, original, "for {name}");
        assert_eq!(parsed.device_id, device_id, "for {name}");
        assert_eq!(parsed.timestamp_ms, timestamp_ms, "for {name}");
        assert_eq!(parsed.sequence, None, "for {name}");
    }
}

#[test]
fn parse_recovers_the_collision_sequence() {
    let parsed = parse_conflict_copy_name("a~conflict-dev-1750000000123-3.txt").expect("parse");
    assert_eq!(parsed.canonical_file_name, "a.txt");
    assert_eq!(parsed.device_id, "dev");
    assert_eq!(parsed.timestamp_ms, 1_750_000_000_123);
    assert_eq!(parsed.sequence, Some(3));
}

#[test]
fn parse_rejects_names_that_only_look_conflicted() {
    for name in [
        "notes~conflict-resolution.md",         // no timestamp segment
        "~conflict-dev-1750000000123.md",       // empty stem
        "a~conflict-1750000000123.txt",         // no device id segment
        "a~conflict-dev-1750000000123-2-9.txt", // trailing garbage
        "plain.txt",
    ] {
        assert_eq!(parse_conflict_copy_name(name), None, "{name}");
    }
}

#[test]
fn derivation_is_deterministic_for_identical_inputs() {
    let a = conflict_copy_path(&FsPath::new("/r/f.rs"), "dev-1", 42, never_exists);
    let b = conflict_copy_path(&FsPath::new("/r/f.rs"), "dev-1", 42, never_exists);
    assert_eq!(a, b);
    let c = conflict_copy_path(&FsPath::new("/r/f.rs"), "dev-2", 42, never_exists);
    assert_ne!(a, c, "different devices must not collide");
}

#[test]
fn a_sequence_number_comes_back_with_the_name() {
    let first = FsPath::new("/r/a~conflict-dev-1750000000123.txt");
    let derived = conflict_copy_path(&FsPath::new("/r/a.txt"), "dev", 1_750_000_000_123, |c| {
        *c == first
    });
    let parsed = parse_conflict_copy_name(&derived.file_name().unwrap()).expect("parse");
    assert_eq!(parsed.canonical_file_name, "a.txt");
    assert_eq!(parsed.sequence, Some(2));
}

#[test]
fn a_copy_of_a_copy_parses_back_to_the_first_copy() {
    let original = FsPath::new("/r/a~conflict-dev-1750000000123.txt");
    let derived = conflict_copy_path(&original, "mbp", 1_750_000_000_999, never_exists);
    let name = derived.file_name().unwrap();
    assert_eq!(name, "a~conflict-dev-1750000000123~conflict-mbp-1750000000999.txt");
    let parsed = parse_conflict_copy_name(&name).expect("parse");
    assert_eq!(parsed.canonical_file_name, "a~conflict-dev-1750000000123.txt");
    assert_eq!(parsed.device_id, "mbp");
    assert_eq!(parsed.timestamp_ms, 1_750_000_000_999);
    assert_eq!(parsed.sequence, None);
}

#[test]
fn a_marker_in_the_extension_does_not_count() {
    let original = FsPath::new("/r/a.b~conflict-c");
    let derived = conflict_copy_path(&original, "mbp", 1_750_000_000_999, never_exists);
    let parsed = parse_conflict_copy_name(&derived.file_name().unwrap()).expect("parse");
    assert_eq!(parsed.canonical_file_name, "a.b~conflict-c");
    assert_eq!(parsed.device_id, "mbp");
    let hidden = conflict_copy_path(&FsPath::new("/r/.env"), "mbp", 1_750_000_000_999, |_| false);
    let parsed = parse_conflict_copy_name(&hidden.file_name().unwrap()).expect("parse");
    assert_eq!(parsed.canonical_file_name, ".env");
}
