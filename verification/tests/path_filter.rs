use vapor_daemon::config::VaporConfig;
use vapor_daemon::path_filter::{
    expand_glob_patterns, is_heavy_ignore_discovery_skip_dir, parse_bool_flag, parse_rule_line,
    EntryKind, EventPathFilter, EventPathFilterOptions, IgnoreDiscovery, IgnoreFile, RuleAction,
    RuleList, GIT_IGNORE_FILE_NAME, VAPOR_IGNORE_FILE_NAME,
};
use vapor_daemon::paths::FsPath;

fn root() -> FsPath {
    FsPath::new("/tmp/vapor-root")
}

/// Files below the watch root, each with its contents.
type Tree = [(&'static str, &'static str)];

/// Looks for ignore files in the tree.
fn discover(tree: &Tree, filter: &EventPathFilter, file_name: &str) -> Vec<IgnoreFile> {
    let mut discovery = IgnoreDiscovery::start(root(), file_name);
    while let Some(directory) = discovery.next_directory() {
        let mut seen: Vec<FsPath> = Vec::new();
        for (path, _) in tree {
            let full = root().join(path);
            if full.starts_with(&directory) && full.len() > directory.len() {
                let entry = full.prefix(directory.len() + 1);
                if seen.contains(&entry) {
                    continue;
                }
                let kind = if entry.len() == full.len() {
                    EntryKind::File
                } else {
                    EntryKind::Directory
                };
                seen.push(entry.clone());
                discovery.note_entry(filter, entry, kind);
            }
        }
    }
    let mut files = Vec::new();
    for path in discovery.finish() {
        for (name, contents) in tree {
            if root().join(name) == path {
                files.push(IgnoreFile { path: path.clone(), contents: contents.to_string() });
            }
        }
    }
    files
}

fn filter_over(tree: &Tree, options: &EventPathFilterOptions) -> EventPathFilter {
    let mut list = RuleList::new(root());
    list.append_user_rules(&options.pre_user_rules);
    let before = EventPathFilter::compile(list);
    let git_files = discover(tree, &before, GIT_IGNORE_FILE_NAME);
    let mut list = before.into_list();
    if options.use_gitignore {
        list.append_rules_from_files(&git_files);
    }
    let before = EventPathFilter::compile(list);
    let vapor_files = discover(tree, &before, VAPOR_IGNORE_FILE_NAME);
    EventPathFilter::for_watch_root(&root(), options, &git_files, &vapor_files)
}

fn ignores(filter: &EventPathFilter, path: &str) -> bool {
    filter.should_ignore(&root().join(path))
}

fn rules(lines: &[&str]) -> Vec<String> {
    lines.iter().map(|line| line.to_string()).collect()
}

#[test]
fn defaults_ignore_common_cache_and_build_paths() {
    let filter = filter_over(&[], &EventPathFilterOptions::default());

    assert!(ignores(&filter, "node_modules/pkg/index.js"));
    assert!(ignores(&filter, "coverage/unit.json"));
    assert!(ignores(&filter, "target/debug/app"));
    assert!(ignores(&filter, "src/__pycache__/mod.pyc"));
    assert!(!ignores(&filter, "src/main.rs"));
    // Repositories and dotenv files sync whole by default.
    assert!(!ignores(&filter, ".git/config"));
    assert!(!ignores(&filter, ".env.local"));
}

#[test]
fn internal_artifacts_are_ignored_unconditionally() {
    // Even an explicit user re-include cannot surface engine internals.
    let options = EventPathFilterOptions {
        pre_user_rules: rules(&["!.vapor-tmp-*", "!*.vapor-meta.json"]),
        ..EventPathFilterOptions::default()
    };
    let filter = filter_over(&[], &options);

    assert!(ignores(&filter, ".vapor-tmp-dl-op42"));
    assert!(ignores(&filter, "docs/.vapor-tmp-upload"));
    assert!(ignores(&filter, "docs/report.md.vapor-meta.json"));
    assert!(!ignores(&filter, "docs/report.md"));
}

#[test]
fn a_vapor_directory_is_invisible_with_everything_under_it() {
    let options = EventPathFilterOptions {
        pre_user_rules: rules(&["!.vapor", "!.vapor/**"]),
        ..EventPathFilterOptions::default()
    };
    let filter = filter_over(&[], &options);

    assert!(ignores(&filter, ".vapor"));
    assert!(ignores(&filter, ".vapor/trash/default/1-0000/keep.txt"));
    assert!(ignores(&filter, "projects/app/.vapor/logs/vapord.logs"));
    // The user's ignore file is a different name and still syncs.
    assert!(!ignores(&filter, ".vaporignore"));
    assert!(!ignores(&filter, "docs/.vapor-notes.md"));
}

#[test]
fn gitignore_rules_can_be_disabled() {
    let tree = [(".gitignore", "generated/\n")];
    let with = filter_over(&tree, &EventPathFilterOptions::default());
    assert!(ignores(&with, "generated/file.txt"));

    let without = filter_over(
        &tree,
        &EventPathFilterOptions {
            use_gitignore: false,
            ..EventPathFilterOptions::default()
        },
    );
    assert!(!ignores(&without, "generated/file.txt"));
}

#[test]
fn vaporignore_rules_can_be_disabled() {
    let tree = [(".vaporignore", "scratch/\n")];
    let with = filter_over(&tree, &EventPathFilterOptions::default());
    assert!(ignores(&with, "scratch/file.txt"));

    let without = filter_over(
        &tree,
        &EventPathFilterOptions {
            use_vaporignore: false,
            ..EventPathFilterOptions::default()
        },
    );
    assert!(!ignores(&without, "scratch/file.txt"));
}

#[test]
fn vaporignore_overrides_gitignore_and_pre_user_rules() {
    let tree = [
        (".gitignore", "!coverage/from-gitignore.txt\n"),
        (".vaporignore", "coverage/\n!coverage/from-vaporignore.txt\n"),
    ];
    let filter = filter_over(
        &tree,
        &EventPathFilterOptions {
            use_gitignore: true,
            pre_user_rules: rules(&[
                "!coverage/from-user-rule.txt",
                "coverage/from-vaporignore.txt",
            ]),
            post_user_rules: Vec::new(),
            ..EventPathFilterOptions::default()
        },
    );

    assert!(ignores(&filter, "coverage/regular.txt"));
    assert!(ignores(&filter, "coverage/from-gitignore.txt"));
    assert!(!ignores(&filter, "coverage/from-vaporignore.txt"));
    assert!(ignores(&filter, "coverage/from-user-rule.txt"));
}

#[test]
fn post_user_rules_override_vaporignore_rules() {
    let tree = [(".vaporignore", "coverage/\n!coverage/keep.txt\n")];
    let filter = filter_over(
        &tree,
        &EventPathFilterOptions {
            use_gitignore: false,
            pre_user_rules: rules(&["!coverage/keep.txt"]),
            post_user_rules: rules(&["coverage/keep.txt"]),
            ..EventPathFilterOptions::default()
        },
    );

    assert!(ignores(&filter, "coverage/keep.txt"));
}

#[test]
fn ignore_file_discovery_skips_heavy_dependency_directories() {
    let tree = [
        ("node_modules/pkg/deep/.gitignore", "leaked-rule/\n"),
        ("src/.gitignore", "real-rule/\n"),
    ];
    let filter = filter_over(
        &tree,
        &EventPathFilterOptions {
            use_vaporignore: false,
            pre_user_rules: Vec::new(),
            post_user_rules: Vec::new(),
            ..EventPathFilterOptions::default()
        },
    );

    assert!(ignores(&filter, "src/real-rule/something.txt"));
    assert!(!ignores(&filter, "other/leaked-rule/something.txt"));
    assert!(is_heavy_ignore_discovery_skip_dir("node_modules"));
    assert!(!is_heavy_ignore_discovery_skip_dir("src"));
}

#[test]
fn recursively_loads_nested_gitignore_files() {
    let tree = [("apps/web/.gitignore", "generated/\n")];
    let filter = filter_over(
        &tree,
        &EventPathFilterOptions {
            use_vaporignore: false,
            pre_user_rules: Vec::new(),
            post_user_rules: Vec::new(),
            ..EventPathFilterOptions::default()
        },
    );

    assert!(ignores(&filter, "apps/web/generated/app.js"));
    assert!(!ignores(&filter, "generated/app.js"));
}

#[test]
fn ignore_files_inside_user_excluded_directories_do_not_leak_negations() {
    // A vendored package ships its own .gitignore with a re-include.
    let tree = [("vendor/pkg/.gitignore", "!important.txt\n")];
    let filter = filter_over(
        &tree,
        &EventPathFilterOptions {
            use_gitignore: true,
            use_vaporignore: false,
            // The user explicitly excludes the whole vendor tree.
            pre_user_rules: rules(&["vendor/"]),
            post_user_rules: Vec::new(),
        },
    );

    assert!(ignores(&filter, "vendor/pkg/important.txt"));
    assert!(ignores(&filter, "vendor/pkg/other.txt"));
}

#[test]
fn recursively_loads_nested_vaporignore_files() {
    let tree = [("apps/desktop/.vaporignore", "scratch/\n")];
    let filter = filter_over(
        &tree,
        &EventPathFilterOptions {
            use_gitignore: false,
            pre_user_rules: Vec::new(),
            post_user_rules: Vec::new(),
            ..EventPathFilterOptions::default()
        },
    );

    assert!(ignores(&filter, "apps/desktop/scratch/file.txt"));
    assert!(!ignores(&filter, "scratch/file.txt"));
}

#[test]
fn pre_user_rules_accept_gitignore_style_comments_and_unignore() {
    let filter = filter_over(
        &[],
        &EventPathFilterOptions {
            use_gitignore: false,
            use_vaporignore: false,
            pre_user_rules: rules(&["# comment", "tmp/", "!tmp/keep.txt", "\\#literal-file"]),
            post_user_rules: Vec::new(),
        },
    );

    assert!(ignores(&filter, "tmp/a.txt"));
    assert!(!ignores(&filter, "tmp/keep.txt"));
    assert!(ignores(&filter, "#literal-file"));
}

#[test]
fn bare_directory_pattern_ignores_the_directory_subtree() {
    let filter = filter_over(
        &[],
        &EventPathFilterOptions {
            use_gitignore: false,
            use_vaporignore: false,
            // Bare (no trailing slash) directory rules, git-style.
            pre_user_rules: rules(&["target", "/build"]),
            post_user_rules: Vec::new(),
        },
    );

    // The directory entry itself and its whole subtree are ignored.
    assert!(ignores(&filter, "target"));
    assert!(ignores(&filter, "target/debug/app.o"));
    assert!(ignores(&filter, "crate/target/debug/x.rlib"));
    assert!(ignores(&filter, "build/out.bin"));
    // An anchored `build` rule does not match a nested build dir.
    assert!(!ignores(&filter, "sub/build/out.bin"));
    assert!(!ignores(&filter, "src/main.rs"));
}

#[test]
fn empty_pre_user_rules_disable_default_ignore_set() {
    let filter = filter_over(
        &[],
        &EventPathFilterOptions {
            use_gitignore: false,
            pre_user_rules: Vec::new(),
            post_user_rules: Vec::new(),
            ..EventPathFilterOptions::default()
        },
    );

    assert!(!ignores(&filter, "node_modules/pkg/index.js"));
}

#[test]
fn options_default_to_config_values_when_environment_is_unset() {
    let config = VaporConfig {
        use_git_ignore: false,
        use_vapor_ignore: true,
        pre_ignore_rules: "tmp/\n*.cache".to_string(),
        post_ignore_rules: "keep-out/".to_string(),
        ..VaporConfig::default()
    };

    let options = EventPathFilterOptions::resolve(None, None, None, None, &config);

    assert!(!options.use_gitignore);
    assert!(options.use_vaporignore);
    assert_eq!(options.pre_user_rules, vec!["tmp/", "*.cache"]);
    assert_eq!(options.post_user_rules, vec!["keep-out/"]);
}

#[test]
fn environment_variables_override_config_values() {
    let config = VaporConfig {
        use_git_ignore: true,
        pre_ignore_rules: "from-config/".to_string(),
        ..VaporConfig::default()
    };

    let options = EventPathFilterOptions::resolve(
        Some("false"),
        Some("invalid-falls-back-to-config"),
        Some("from-env/\n\n"),
        None,
        &config,
    );

    assert!(!options.use_gitignore, "env override wins");
    assert!(
        options.use_vaporignore,
        "unparseable env value falls back to config"
    );
    assert_eq!(options.pre_user_rules, vec!["from-env/"]);
    assert!(options.post_user_rules.is_empty());
}

#[test]
fn default_config_yields_the_compiled_default_rule_set() {
    let options =
        EventPathFilterOptions::resolve(None, None, None, None, &VaporConfig::default());
    assert!(options.use_gitignore);
    assert!(options.use_vaporignore);
    assert!(options
        .pre_user_rules
        .iter()
        .any(|rule| rule == "node_modules/"));
    assert!(options.post_user_rules.is_empty());
}

#[test]
fn parses_boolean_environment_flags() {
    assert_eq!(parse_bool_flag("true"), Some(true));
    assert_eq!(parse_bool_flag("YES"), Some(true));
    assert_eq!(parse_bool_flag("0"), Some(false));
    assert_eq!(parse_bool_flag("off"), Some(false));
    assert_eq!(parse_bool_flag("invalid"), None);
}

#[test]
fn the_last_matching_rule_decides() {
    let filter = filter_over(
        &[],
        &EventPathFilterOptions {
            use_gitignore: false,
            use_vaporignore: false,
            pre_user_rules: rules(&["*.log", "!keep.log", "keep.log"]),
            post_user_rules: rules(&["!keep.log"]),
        },
    );
    assert!(ignores(&filter, "a/other.log"));
    assert!(!ignores(&filter, "a/keep.log"));
}

#[test]
fn a_rule_that_is_no_pattern_is_skipped() {
    let mut list = RuleList::new(root());
    let skipped = list.append_user_rules(&rules(&["[", "*.tmp"]));
    assert_eq!(skipped.len(), 1);
    assert_eq!(skipped[0].pattern, "[");
    assert!(skipped[0].error.contains("unclosed character class"), "{}", skipped[0].error);
    let filter = EventPathFilter::compile(list);
    assert!(ignores(&filter, "a.tmp"));
    assert!(!ignores(&filter, "a.txt"));
}

#[test]
fn rule_lines_are_taken_apart() {
    assert_eq!(parse_rule_line("  # note"), None);
    assert_eq!(parse_rule_line(""), None);
    assert_eq!(
        parse_rule_line("!keep/"),
        Some((RuleAction::Allow, "keep/".to_string()))
    );
    assert_eq!(
        parse_rule_line("\\#name"),
        Some((RuleAction::Ignore, "#name".to_string()))
    );
}

#[test]
fn patterns_expand_to_the_places_they_reach() {
    assert_eq!(
        expand_glob_patterns("tmp/", "", false),
        Ok(rules(&["**/tmp", "**/tmp/**", "tmp", "tmp/**"]))
    );
    assert_eq!(
        expand_glob_patterns("/a", "docs", false),
        Ok(rules(&["docs/a"]))
    );
}

#[test]
fn paths_outside_the_root_are_not_ignored() {
    let filter = filter_over(&[], &EventPathFilterOptions::default());
    assert!(!filter.should_ignore(&FsPath::new("/elsewhere/node_modules/a.js")));
}

#[test]
fn every_refused_line_is_told_with_its_reason() {
    let mut list = RuleList::new(root());
    let deep = format!("{}a{}", "{".repeat(1001), "}".repeat(1001));
    let skipped = list.append_user_rules(&rules(&["/", &deep, "# note", "a{b", "*.tmp"]));
    let told: Vec<(&str, &str)> =
        skipped.iter().map(|s| (s.pattern.as_str(), s.error.as_str())).collect();
    assert_eq!(told.len(), 3);
    assert_eq!(told[0], ("/", "ignore pattern is empty"));
    assert_eq!(told[1], (deep.as_str(), "ignore pattern nests braces too deeply"));
    assert_eq!(told[2].0, "a{b");
    // The first of the expanded patterns is the one that is told of.
    assert!(told[2].1.contains("`**/a{b`") || told[2].1.contains("'**/a{b'"), "{}", told[2].1);
    let filter = EventPathFilter::compile(list);
    assert!(ignores(&filter, "a.tmp"), "the other rules stay");
}

#[test]
fn groups_beside_each_other_do_not_nest() {
    let groups = "{a,b}".repeat(1200);
    let escaped = "\\{".repeat(1200);
    let listed = "[!}{]".repeat(1200);
    let mut list = RuleList::new(root());
    let skipped = list.append_user_rules(&rules(&[&groups, &escaped, &listed]));
    assert!(skipped.is_empty());
    let filter = EventPathFilter::compile(list);
    assert!(ignores(&filter, &"ab".repeat(600)));
    assert!(ignores(&filter, &"{".repeat(1200)));
    assert!(ignores(&filter, &"x".repeat(1200)));
    assert!(!ignores(&filter, &"}".repeat(1200)));
}

#[test]
fn groups_nested_too_deeply_for_a_set_leave_no_rule_in_force() {
    let mut list = RuleList::new(root());
    let deep = format!("{}a{}", "{".repeat(1000), "}".repeat(1000));
    assert!(list.append_user_rules(&rules(&["*.tmp", &deep])).is_empty());
    let filter = EventPathFilter::compile(list);
    assert!(!ignores(&filter, "a"));
    assert!(!ignores(&filter, "a.tmp"));
}

#[test]
fn only_a_plain_closing_brace_ends_a_group() {
    let mut list = RuleList::new(root());
    // Neither the escaped nor the listed brace closes the group it stands in.
    let deep = format!("{}a{}", "{\\}[}]".repeat(1001), "}".repeat(1001));
    let skipped = list.append_user_rules(&rules(&[&deep]));
    assert_eq!(skipped.len(), 1);
    assert_eq!(skipped[0].error, "ignore pattern nests braces too deeply");
}

#[test]
fn without_a_set_no_rule_is_in_force() {
    let mut list = RuleList::new(root());
    list.append_user_rules(&rules(&["*.tmp"]));
    let filter = EventPathFilter::with_set(list, None);
    assert!(!ignores(&filter, "a.tmp"));
    assert!(ignores(&filter, ".vapor/state"), "internal names stay invisible");
    let list = filter.into_list();
    let set = list.gather().build().expect("set");
    let filter = EventPathFilter::with_set(list, Some(set));
    assert!(ignores(&filter, "a.tmp"));
}
