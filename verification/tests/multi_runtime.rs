use vapor_daemon::app_state::RunState;
use vapor_daemon::bootstrap::{log_started, BootstrapError};
use vapor_daemon::clock::Duration;
use vapor_daemon::ipc_service::{IntentDiagnostic, ResourceBudgetStatus};
use vapor_daemon::multi_runtime::{
    diagnostics_quota, fan_out, group_by_root, next_wait, set_timeline_limit,
    wants_startup_reconcile, MAX_CONSECUTIVE_PROFILE_TICK_ERRORS, MultiProfileRuntime,
    MultiTickReport, ProfileSuspension, SlotFacts, StartFacts, TickOutcome, WatchRoot,
    WatchTarget,
};
use vapor_daemon::paths::FsPath;
use vapor_daemon::profiles::{resolve_scope, ResolvedProfile};
use vapor_daemon::records::SyncMode;
use vapor_daemon::runtime_control::RuntimeControl;
use vapor_daemon::timeline::TimelineBuffer;
use vapor_daemon::workgate::ThrottleState;

fn profile(id: &str, mode: &str) -> ResolvedProfile {
    ResolvedProfile {
        id: id.to_string(),
        display_name: id.to_uppercase(),
        provider_kind: "filesystem".to_string(),
        scope: resolve_scope("/tmp/local", "/cloud", mode),
        enabled: true,
    }
}

fn runtime(ids: &[&str]) -> MultiProfileRuntime {
    let mut multi = MultiProfileRuntime::new();
    for id in ids {
        multi.add_profile(profile(id, "two-way"), None);
    }
    multi
}

fn facts(run_state: RunState, depth: u64) -> SlotFacts {
    SlotFacts {
        run_state,
        throttle_state: ThrottleState::Light,
        throttle_reason: "light load".to_string(),
        reason: "ready".to_string(),
        provider_name: "filesystem".to_string(),
        queue_depth: depth,
        failed_intents: 1,
        conflicts: 2,
        mirror_reverts: 3,
        mirror_deletes: 4,
        loop_suppressions: 5,
        dropped_incoming_events: 6,
        budget: None,
        slowed_down: false,
        rows: Vec::new(),
    }
}

fn row(id: u64) -> IntentDiagnostic {
    IntentDiagnostic {
        intent_id: id,
        profile_id: "p".to_string(),
        path: "/tmp/x".to_string(),
        action: "upload".to_string(),
        stage: "Hash".to_string(),
        elapsed_in_stage_ms: 1,
        attempt_count: 0,
        last_error: String::new(),
        blocker_reason: String::new(),
    }
}

/// One cycle in which every live profile ticks as told.
fn cycle(multi: &mut MultiProfileRuntime, outcome: impl Fn(&str) -> TickOutcome) -> MultiTickReport {
    let mut external = RuntimeControl::new();
    let mut report = multi.begin_cycle(&mut external);
    let mut from = 0;
    while let Some(i) = multi.next_live(from) {
        let id = multi.profile(i).id.clone();
        multi.record_tick(i, outcome(&id), &mut report);
        from = i + 1;
    }
    report
}

#[test]
fn a_failing_profile_suspends_alone_and_the_rest_keep_running() {
    let mut multi = runtime(&["healthy", "doomed"]);
    cycle(&mut multi, |_| TickOutcome::Ticked { pending_work: false });
    assert_eq!(multi.failed_profile_count(), 0);

    let explosive = |id: &str| {
        if id == "doomed" {
            TickOutcome::Panicked("provider bug: poll_changes exploded".to_string())
        } else {
            TickOutcome::Ticked { pending_work: true }
        }
    };
    cycle(&mut multi, explosive);
    assert_eq!(multi.failed_profile_count(), 1);

    for _ in 0..16 {
        let report = cycle(&mut multi, explosive);
        assert_eq!(report.ticked_profiles, 1, "the healthy profile keeps ticking");
        assert_eq!(report.failed_profiles, 1);
        assert!(report.any_pending_work);
    }
    assert!(!multi.every_profile_failed());

    let summaries = multi.profile_summaries(&vec![
        facts(RunState::Running, 0),
        facts(RunState::Running, 0),
    ]);
    assert_eq!(summaries[0].failed_reason, None);
    let doomed = summaries.iter().find(|s| s.id == "doomed").expect("doomed");
    assert!(doomed.failed_reason.is_some());
    assert_eq!(
        doomed.failed_reason,
        Some("panicked: provider bug: poll_changes exploded".to_string())
    );
}

#[test]
fn repeated_failures_suspend_the_profile() {
    let mut multi = runtime(&["healthy", "doomed"]);
    let mut report = MultiTickReport::default();
    for _ in 0..MAX_CONSECUTIVE_PROFILE_TICK_ERRORS {
        assert_eq!(multi.failed_profile_count(), 0);
        report = cycle(&mut multi, |id| {
            if id == "doomed" {
                TickOutcome::Failed("disk error".to_string())
            } else {
                TickOutcome::Ticked { pending_work: true }
            }
        });
    }
    assert_eq!(multi.failed_profile_count(), 1);
    assert_eq!(report.ticked_profiles, 1);
    assert_eq!(report.failed_profiles, 1);
    let summaries = multi.profile_summaries(&vec![
        facts(RunState::Running, 0),
        facts(RunState::Running, 0),
    ]);
    assert_eq!(
        summaries[1].failed_reason,
        Some("repeated tick failures: disk error".to_string())
    );
}

#[test]
fn a_success_in_between_resets_the_failures() {
    let mut multi = runtime(&["flaky"]);
    for round in 0..20 {
        cycle(&mut multi, |_| {
            if round % 5 == 4 {
                TickOutcome::Ticked { pending_work: false }
            } else {
                TickOutcome::Failed("busy".to_string())
            }
        });
    }
    assert_eq!(multi.failed_profile_count(), 0);
}

#[test]
fn a_panic_suspends_at_once() {
    let mut multi = runtime(&["one"]);
    let mut report = MultiTickReport::default();
    let told = multi
        .record_tick(0, TickOutcome::Panicked("boom".to_string()), &mut report)
        .expect("suspended");
    assert_eq!(told.note, "profile suspended after panic: boom");
    assert_eq!(told.reason, "panicked: boom");
    assert!(multi.every_profile_failed());
    assert_eq!(multi.next_live(0), None);
    assert!(!MultiProfileRuntime::new().every_profile_failed());
}

#[test]
fn external_control_broadcasts_to_every_profile() {
    let mut multi = runtime(&["one", "two"]);
    let mut control = RuntimeControl::new();

    control.request_pause();
    multi.begin_cycle(&mut control);
    for id in ["one", "two"] {
        let i = multi.runtime_for(id).expect("runtime");
        assert_eq!(
            multi.control(i).take_pause_request(),
            Some(true),
            "profile {id} must observe the daemon-wide pause"
        );
    }
    assert_eq!(control.take_pause_request(), None);

    control.request_resume();
    control.request_flush();
    multi.begin_cycle(&mut control);
    for id in ["one", "two"] {
        let i = multi.runtime_for(id).expect("runtime");
        assert_eq!(multi.control(i).take_pause_request(), Some(false));
        assert!(multi.control(i).take_flush_request());
        assert!(!multi.control(i).take_reconcile_request());
    }
}

#[test]
fn invalid_provider_suspends_the_profile_instead_of_mirror_deleting_its_local_root() {
    let mut bad = profile("bad", "pull-only");
    bad.provider_kind = "gdrvie".to_string();
    let good = profile("good", "two-way");
    let no_provider =
        StartFacts { provider_error: Some("unknown kind".to_string()), ..no_trouble() };
    assert!(!wants_startup_reconcile(&bad, &no_provider));
    assert!(wants_startup_reconcile(&good, &no_trouble()));
    let mut multi = MultiProfileRuntime::start_with_state_root(
        vec![bad, good],
        &vec![no_provider, no_trouble()],
    );
    assert_eq!(multi.profile_count(), 2);
    assert_eq!(multi.failed_profile_count(), 1);
    for _ in 0..8 {
        let report = cycle(&mut multi, |id| {
            assert_eq!(id, "good", "suspended profile must not touch its local root");
            TickOutcome::Ticked { pending_work: false }
        });
        assert_eq!(report.ticked_profiles, 1);
    }
    let status = multi.aggregate_status(&vec![facts(RunState::Running, 0), facts(RunState::Running, 0)]);
    assert_eq!(
        status.profiles[0].suspended_reason,
        Some("invalid provider 'gdrvie': unknown kind".to_string())
    );
    assert_eq!(status.profiles[1].suspended_reason, None);
}

#[test]
fn only_a_profile_that_starts_whole_is_reconciled() {
    let whole = profile("whole", "two-way");
    let mut disabled = profile("disabled", "two-way");
    disabled.enabled = false;
    let told = Some("told".to_string());
    assert!(!wants_startup_reconcile(&disabled, &no_trouble()));
    let no_state = StartFacts { state_error: told.clone(), ..no_trouble() };
    assert!(!wants_startup_reconcile(&whole, &no_state));
    let not_composed = StartFacts { compose_error: told, ..no_trouble() };
    assert!(!wants_startup_reconcile(&whole, &not_composed));
}

fn no_trouble() -> StartFacts {
    StartFacts {
        state_error: None,
        provider_error: None,
        compose_error: None,
        schedule_error: None,
    }
}

#[test]
fn a_profile_that_cannot_start_is_left_out_and_the_others_start() {
    let mut off = profile("off", "two-way");
    off.enabled = false;
    let multi = MultiProfileRuntime::start_with_state_root(
        vec![
            off,
            profile("locked", "two-way"),
            profile("odd", "two-way"),
            profile("late", "two-way"),
            profile("fine", "two-way"),
        ],
        &vec![
            no_trouble(),
            StartFacts { state_error: Some("corrupt".to_string()), ..no_trouble() },
            StartFacts { compose_error: Some("no root".to_string()), ..no_trouble() },
            StartFacts { schedule_error: Some("locked".to_string()), ..no_trouble() },
            no_trouble(),
        ],
    );
    assert_eq!(multi.profile_count(), 2);
    assert_eq!(multi.profile(0).id, "late");
    assert_eq!(multi.profile(1).id, "fine");
    assert_eq!(multi.failed_profile_count(), 1);
    let status = multi.aggregate_status(&vec![facts(RunState::Running, 0), facts(RunState::Running, 0)]);
    assert_eq!(
        status.profiles[0].suspended_reason,
        Some("could not schedule startup reconcile: locked".to_string())
    );
}

#[test]
fn a_watch_failure_suspends_only_the_profiles_it_would_serve() {
    let mut multi = runtime(&["one", "two", "three", "four", "five"]);
    assert!(multi.suspend("five", "panicked: x".to_string()));
    let (targets, orders) = multi.start_deduplicated_watchers(&vec![
        WatchRoot::At(FsPath::new("/a")),
        WatchRoot::Unavailable("gone".to_string()),
        WatchRoot::Unwatched,
        WatchRoot::At(FsPath::new("/a")),
        WatchRoot::At(FsPath::new("/b")),
    ]);
    assert_eq!(
        orders,
        vec![ProfileSuspension {
            profile_id: "two".to_string(),
            reason: "watch root unavailable: gone".to_string(),
        }]
    );
    let groups = group_by_root(&targets);
    assert_eq!(groups.len(), 1, "a suspended profile starts no watch");
    let members = groups.value_at(0);
    assert_eq!(members.profiles, vec![0, 3]);
    let unserved = multi.unserved(members, "no handles");
    assert_eq!(unserved.len(), 2);
    assert_eq!(unserved[1].profile_id, "four");
    assert_eq!(unserved[1].reason, "fs watcher failed to start: no handles");
}

#[test]
fn the_status_shows_the_worst_state_and_all_totals() {
    let mut multi = runtime(&["one", "two", "three"]);
    assert!(multi.suspend("two", "watch root unavailable".to_string()));
    assert!(!multi.suspend("nobody", "x".to_string()));
    let mut third = facts(RunState::Paused, 7);
    third.budget = Some(ResourceBudgetStatus { cpu_ceiling_percent: 15 });
    let all = vec![facts(RunState::Running, 5), facts(RunState::Running, 6), third];
    let status = multi.aggregate_status(&all);
    assert_eq!(status.run_state, "Error");
    assert_eq!(status.throttle_reason, "2 of 3 profiles active; light load");
    assert_eq!(status.queue_depth, 18);
    assert_eq!(status.failed_intents, 3);
    assert_eq!(status.conflicts, 6);
    assert_eq!(status.mirror_reverts, 9);
    assert_eq!(status.mirror_deletes, 12);
    assert_eq!(status.loop_prevention_suppressions, 15);
    assert_eq!(status.dropped_incoming_events, 18);
    assert_eq!(
        status.resource_budget,
        Some(ResourceBudgetStatus { cpu_ceiling_percent: 15 })
    );
    assert_eq!(status.profiles.len(), 3);
    assert_eq!(status.profiles[0].run_state, "Running");
    assert_eq!(status.profiles[1].run_state, "Error");
    assert_eq!(
        status.profiles[1].suspended_reason,
        Some("watch root unavailable".to_string())
    );
    assert_eq!(status.profiles[2].run_state, "Paused");
    assert_eq!(status.profiles[2].sync_mode, "two-way");
    assert_eq!(multi.tuning_signal(&all), (false, 12));
}

#[test]
fn a_daemon_without_profiles_is_in_error() {
    let status = MultiProfileRuntime::new().aggregate_status(&Vec::new());
    assert_eq!(status.run_state, "Error");
    assert_eq!(status.throttle_state, ThrottleState::Suspended);
    assert_eq!(status.provider_name, "none");
    assert_eq!(status.throttle_reason, "no enabled profiles");
}

#[test]
fn diagnostics_are_shared_out_and_bounded() {
    assert_eq!(diagnostics_quota(1, 0), 100);
    assert_eq!(diagnostics_quota(3, 0), 33);
    assert_eq!(diagnostics_quota(50, 0), 10);
    assert_eq!(diagnostics_quota(3, 95), 5);
    assert_eq!(diagnostics_quota(3, 100), 0);

    let multi = runtime(&["one", "two"]);
    let mut first = facts(RunState::Running, 90);
    first.rows = (0..60).map(row).collect();
    let mut second = facts(RunState::Running, 2);
    second.rows = (100..102).map(row).collect();
    let status = multi.aggregate_status(&vec![first, second]);
    assert_eq!(status.intent_diagnostics.len(), 52);
    assert_eq!(status.intent_diagnostics[49].intent_id, 49);
    assert_eq!(status.intent_diagnostics[50].intent_id, 100);
    assert!(status.diagnostics_truncated);
}

#[test]
fn a_single_profile_keeps_its_reason() {
    let multi = runtime(&["one"]);
    let status = multi.aggregate_status(&vec![facts(RunState::Running, 0)]);
    assert_eq!(status.throttle_reason, "light load");
    assert!(!status.diagnostics_truncated);
}

#[test]
fn shared_local_root_fans_out_to_every_matching_profile() {
    let targets = vec![
        WatchTarget { profile: 0, root: FsPath::new("/r/shared") },
        WatchTarget { profile: 1, root: FsPath::new("/r/alone") },
        WatchTarget { profile: 2, root: FsPath::new("/r/shared") },
    ];
    let groups = group_by_root(&targets);
    assert_eq!(groups.len(), 2);
    assert_eq!(*groups.key_at(0), FsPath::new("/r/alone"));
    assert_eq!(groups.value_at(1).profiles, vec![0, 2]);
    assert_eq!(fan_out(&targets, &FsPath::new("/r/shared/a.txt")), vec![0, 2]);
    assert_eq!(fan_out(&targets, &FsPath::new("/r/alone/a.txt")), vec![1]);
    assert!(fan_out(&targets, &FsPath::new("/r/shared-not/a.txt")).is_empty());
}

#[test]
fn cycles_are_short_while_there_is_work() {
    let busy = MultiTickReport { any_pending_work: true, ..MultiTickReport::default() };
    assert_eq!(next_wait(&busy), Duration::from_millis(250));
    assert!(next_wait(&MultiTickReport::default()) > next_wait(&busy));
}

#[test]
fn a_timeline_limit_that_is_no_size_is_passed_over() {
    let mut timeline = TimelineBuffer::new(3);
    set_timeline_limit(&mut timeline, -1);
    set_timeline_limit(&mut timeline, 0);
    for _ in 0..5 {
        timeline.push(vapor_daemon::timeline::TimelineRecord {
            timestamp: vapor_daemon::clock::SystemTime::unix_epoch(),
            kind: "k".to_string(),
            profile_id: "p".to_string(),
            message: "m".to_string(),
        });
    }
    assert_eq!(timeline.records().len(), 3);
    set_timeline_limit(&mut timeline, 2);
    assert_eq!(timeline.records().len(), 2);
}

#[test]
fn the_starting_message_names_every_profile() {
    let mut multi = MultiProfileRuntime::new();
    multi.add_profile(profile("a", "push-only"), None);
    multi.add_profile(profile("b", "two-way"), None);
    let summaries =
        multi.profile_summaries(&vec![facts(RunState::Running, 0), facts(RunState::Running, 0)]);
    assert_eq!(summaries[0].sync_mode, SyncMode::PushOnly);
    assert_eq!(
        log_started(&summaries),
        "a(filesystem, push-only), b(filesystem, two-way)"
    );
    assert_eq!(log_started(&Vec::new()), "");
}

#[test]
fn startup_errors_say_what_failed() {
    for (error, words) in [
        (
            BootstrapError::AlreadyRunning("pid 7".to_string()),
            "daemon already running: pid 7",
        ),
        (
            BootstrapError::Lock("denied".to_string()),
            "failed to acquire daemon lock: denied",
        ),
        (
            BootstrapError::StateDb("corrupt".to_string()),
            "failed to open durable state DB: corrupt",
        ),
        (
            BootstrapError::Runtime("x".to_string()),
            "daemon runtime error: x",
        ),
    ] {
        assert_eq!(error.message(), words);
    }
}
