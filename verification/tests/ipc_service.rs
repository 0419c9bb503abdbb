use vapor_daemon::clock::{Duration, SystemTime};
use vapor_daemon::config_document::{updated_document, ConfigValue};
use vapor_daemon::ipc_server::{
    check_socket_parent, ConnectionSlots, MAX_CONCURRENT_CONNECTIONS,
};
use vapor_daemon::ipc_service::{
    auto_launch_change, set_auto_launch, DaemonIpcService, DaemonStatusSnapshot, ExcludeStep,
    ExcludeUpdate, IntentDiagnostic, KeyChange, StatusPublisher,
};
use vapor_daemon::runtime_control::RuntimeControl;
use vapor_daemon::timeline::{TimelineBuffer, TimelineRecord};
use vapor_daemon::workgate::ThrottleState;

fn snapshot(run_state: &str, throttle: ThrottleState, reason: &str) -> DaemonStatusSnapshot {
    DaemonStatusSnapshot {
        run_state: run_state.to_string(),
        throttle_state: throttle,
        provider_name: "filesystem".to_string(),
        throttle_reason: reason.to_string(),
        ..DaemonStatusSnapshot::default()
    }
}

#[test]
fn status_response_uses_published_snapshot() {
    let service = DaemonIpcService::new(
        snapshot(
            "Running",
            ThrottleState::IdleDrain,
            "idle, plugged in, and cool",
        ),
        RuntimeControl::new(),
    );
    let status = service.status();
    assert_eq!(status.run_state, "Running");
    assert_eq!(status.throttle_state, "IdleDrain");
    assert!(status.daemon_id.starts_with("vapord/"));
}

#[test]
fn pause_records_pause_request_on_runtime_control() {
    let mut service = DaemonIpcService::new(
        snapshot("Running", ThrottleState::IdleDrain, "idle"),
        RuntimeControl::new(),
    );
    let ack = service.pause();
    assert!(ack.accepted);
    assert_eq!(service.control().take_pause_request(), Some(true));
    assert_eq!(service.control().take_pause_request(), None);
}

#[test]
fn resume_records_resume_request_on_runtime_control() {
    let mut service = DaemonIpcService::new(
        snapshot("Paused", ThrottleState::IdleDrain, "user pause"),
        RuntimeControl::new(),
    );
    let ack = service.resume();
    assert!(ack.accepted);
    assert_eq!(service.control().take_pause_request(), Some(false));
}

#[test]
fn flush_now_and_reconcile_set_their_respective_flags() {
    let mut service = DaemonIpcService::new(
        snapshot("Running", ThrottleState::IdleDrain, "idle"),
        RuntimeControl::new(),
    );
    let _ = service.flush_now();
    let _ = service.reconcile();
    assert!(service.control().take_flush_request());
    assert!(service.control().take_reconcile_request());
    assert!(!service.control().take_flush_request());
    assert!(!service.control().take_reconcile_request());
}

fn record(kind: &str, message: &str, millis: u64) -> TimelineRecord {
    TimelineRecord {
        timestamp: SystemTime::unix_epoch().plus(Duration::from_millis(millis)),
        kind: kind.to_string(),
        profile_id: "default".to_string(),
        message: message.to_string(),
    }
}

#[test]
fn timeline_serves_the_shared_buffer_in_order() {
    let mut timeline = TimelineBuffer::new(10);
    timeline.push(record("run_state", "Running", 1_000));
    timeline.push(record("conflict", "kept both versions of docs/a.txt", 2_000));
    let service = DaemonIpcService::with_timeline(
        snapshot("Running", ThrottleState::IdleDrain, "idle"),
        RuntimeControl::new(),
        timeline,
    );
    let response = service.timeline();
    assert_eq!(response.entries.len(), 2);
    assert_eq!(response.entries[0].kind, "run_state");
    assert_eq!(response.entries[1].kind, "conflict");
    assert!(response.entries[0].timestamp_ms < response.entries[1].timestamp_ms);
    assert_eq!(response.entries[0].profile_id, "default");
}

#[test]
fn diagnostics_serves_the_published_intent_rows() {
    let mut published = snapshot("Running", ThrottleState::IdleDrain, "idle");
    published.intent_diagnostics = vec![IntentDiagnostic {
        intent_id: 7,
        profile_id: "default".to_string(),
        path: "/tmp/x.txt".to_string(),
        action: "upload".to_string(),
        stage: "Retrying".to_string(),
        elapsed_in_stage_ms: 1_500,
        attempt_count: 3,
        last_error: "transient provider failure".to_string(),
        blocker_reason: "retry backoff active".to_string(),
    }];
    published.dropped_incoming_events = 4;
    let service = DaemonIpcService::new(published, RuntimeControl::new());
    let diagnostics = service.diagnostics();
    assert_eq!(diagnostics.intents.len(), 1);
    assert_eq!(diagnostics.intents[0].stage, "Retrying");
    assert_eq!(diagnostics.dropped_incoming_events, 4);
}

#[test]
fn publish_updates_subsequent_status_calls() {
    let mut service = DaemonIpcService::new(
        snapshot("Running", ThrottleState::IdleDrain, "idle"),
        RuntimeControl::new(),
    );
    service.publish(snapshot(
        "Paused",
        ThrottleState::Throttled,
        "user activity is active",
    ));
    let status = service.status();
    assert_eq!(status.run_state, "Paused");
    assert_eq!(status.throttle_state, "Throttled");
}

#[test]
fn a_full_timeline_forgets_the_oldest() {
    let mut timeline = TimelineBuffer::new(2);
    for at in 1..=4 {
        timeline.push(record("k", &format!("m{at}"), at));
    }
    let kept: Vec<&str> = timeline.records().iter().map(|r| r.message.as_str()).collect();
    assert_eq!(kept, vec!["m3", "m4"]);
    timeline.set_max_entries(1);
    assert_eq!(timeline.records().len(), 1);
    assert_eq!(timeline.records()[0].message, "m4");
}

#[test]
fn setting_a_key_keeps_every_other_key() {
    let contents = "{\"provider\": \"gdrive\", \"nested\": {\"a\": [1, 2]}, \"autoLaunch\": false}";
    let document = updated_document(
        Some(contents),
        "/v/vapor.json",
        "autoLaunch",
        ConfigValue::Truth(true),
    )
    .expect("updated");
    assert_eq!(document["autoLaunch"], serde_json::Value::Bool(true));
    assert_eq!(document["provider"], serde_json::Value::from("gdrive"));
    assert_eq!(document["nested"]["a"][1], serde_json::Value::from(2));
    assert_eq!(document.as_object().expect("object").len(), 3);
}

#[test]
fn a_missing_or_blank_document_begins_empty() {
    for contents in [None, Some("  \n")] {
        let document = updated_document(
            contents,
            "/v/vapor.json",
            "preIgnoreRules",
            ConfigValue::Text("tmp/".to_string()),
        )
        .expect("updated");
        assert_eq!(document["preIgnoreRules"], serde_json::Value::from("tmp/"));
        assert_eq!(document.as_object().expect("object").len(), 1);
    }
}

#[test]
fn a_document_that_cannot_be_changed_is_reported() {
    let broken = updated_document(
        Some("{ not json"),
        "/v/vapor.json",
        "k",
        ConfigValue::Truth(true),
    )
    .expect_err("broken");
    assert!(
        broken.starts_with("cannot update /v/vapor.json: cannot parse /v/vapor.json: "),
        "{broken}"
    );
    assert_eq!(
        updated_document(Some("[1]"), "/v/vapor.json", "k", ConfigValue::Truth(true))
            .expect_err("no object"),
        "cannot update /v/vapor.json: configuration root is not an object"
    );
}

#[test]
fn auto_launch_is_acknowledged_once_it_is_written() {
    assert_eq!(
        auto_launch_change(true),
        KeyChange { key: "autoLaunch", value: ConfigValue::Truth(true) }
    );
    let ack = set_auto_launch(true, Ok(()));
    assert!(ack.accepted);
    assert_eq!(
        ack.note,
        "autoLaunch set to true; service registration follows via `vapor service`"
    );
    let ack = set_auto_launch(false, Err("disk full".to_string()));
    assert!(!ack.accepted);
    assert_eq!(ack.note, "disk full");
}

#[test]
fn exclude_rules_are_written_one_key_after_the_other() {
    let (_, step) = ExcludeUpdate::update_excludes(None, None);
    assert!(matches!(step, ExcludeStep::Answer(ack) if !ack.accepted
        && ack.note == "no exclude rules supplied"));

    let (mut update, step) =
        ExcludeUpdate::update_excludes(Some("a/".to_string()), Some("b/".to_string()));
    assert_eq!(
        step,
        ExcludeStep::Write(KeyChange {
            key: "preIgnoreRules",
            value: ConfigValue::Text("a/".to_string())
        })
    );
    assert_eq!(
        update.written(Ok(())),
        ExcludeStep::Write(KeyChange {
            key: "postIgnoreRules",
            value: ConfigValue::Text("b/".to_string())
        })
    );
    assert!(matches!(update.written(Ok(())), ExcludeStep::Answer(ack) if ack.accepted));

    let (mut update, _) = ExcludeUpdate::update_excludes(Some("a/".to_string()), None);
    assert!(matches!(
        update.written(Err("locked".to_string())),
        ExcludeStep::Answer(ack) if !ack.accepted && ack.note == "locked"
    ));
}

#[test]
fn connections_are_bounded() {
    let mut slots = ConnectionSlots::new();
    for _ in 0..MAX_CONCURRENT_CONNECTIONS {
        assert!(slots.try_open());
    }
    assert!(!slots.try_open());
    slots.close();
    assert!(slots.try_open());
}

#[test]
fn a_symlinked_socket_parent_is_refused() {
    assert_eq!(check_socket_parent("/tmp/v", false), Ok(()));
    assert_eq!(
        check_socket_parent("/tmp/v", true),
        Err("IPC socket parent /tmp/v is a symlink; refusing to bind through it".to_string())
    );
}
