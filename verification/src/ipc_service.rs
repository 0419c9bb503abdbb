//! What the daemon answers to its clients: the status it last published, the
//! recent activity, and acknowledgements of requests.
use vstd::prelude::*;

use crate::app_state::{DaemonApp, RunState};
use crate::build_info::VERSION;
use crate::clock::millis_since_epoch_spec;
use crate::config::{KEY_AUTO_LAUNCH, KEY_POST_IGNORE_RULES, KEY_PRE_IGNORE_RULES};
use crate::config_document::ConfigValue;
use crate::runtime_control::{RequestsView, RuntimeControl};
use crate::text::concat;
use crate::timeline::{TimelineBuffer, TimelineRecord};
use crate::workgate::ThrottleState;
use vstd::string::StringExecFns;

verus! {

/// Version of the answers' layout.
pub const SCHEMA_VERSION: u32 = 2;

/// Where one intent stands, and why.
#[derive(Debug, PartialEq, Eq)]
pub struct IntentDiagnostic {
    pub intent_id: u64,
    pub profile_id: String,
    pub path: String,
    pub action: String,
    pub stage: String,
    pub elapsed_in_stage_ms: u64,
    pub attempt_count: u32,
    pub last_error: String,
    pub blocker_reason: String,
}

impl Clone for IntentDiagnostic {
    fn clone(&self) -> (r: IntentDiagnostic)
        ensures
            r == *self,
    {
        IntentDiagnostic {
            intent_id: self.intent_id,
            profile_id: self.profile_id.clone(),
            path: self.path.clone(),
            action: self.action.clone(),
            stage: self.stage.clone(),
            elapsed_in_stage_ms: self.elapsed_in_stage_ms,
            attempt_count: self.attempt_count,
            last_error: self.last_error.clone(),
            blocker_reason: self.blocker_reason.clone(),
        }
    }
}

/// One profile's line of the status.
#[derive(Debug, PartialEq, Eq)]
pub struct ProfileStatus {
    pub id: String,
    pub display_name: String,
    pub provider_name: String,
    pub sync_mode: String,
    pub run_state: String,
    pub reason: String,
    pub queue_depth: u64,
    pub failed_intents: u64,
    pub conflicts: u64,
    pub mirror_reverts: u64,
    pub mirror_deletes: u64,
    pub suspended_reason: Option<String>,
}

fn copy_text(text: &Option<String>) -> (r: Option<String>)
    ensures
        r == *text,
{
    match text {
        Some(text) => Some(text.clone()),
        None => None,
    }
}

impl Clone for ProfileStatus {
    fn clone(&self) -> (r: ProfileStatus)
        ensures
            r == *self,
    {
        ProfileStatus {
            id: self.id.clone(),
            display_name: self.display_name.clone(),
            provider_name: self.provider_name.clone(),
            sync_mode: self.sync_mode.clone(),
            run_state: self.run_state.clone(),
            reason: self.reason.clone(),
            queue_depth: self.queue_depth,
            failed_intents: self.failed_intents,
            conflicts: self.conflicts,
            mirror_reverts: self.mirror_reverts,
            mirror_deletes: self.mirror_deletes,
            suspended_reason: copy_text(&self.suspended_reason),
        }
    }
}

/// What the resource budget allows.
#[derive(Clone, Copy, Debug, PartialEq, Eq, Structural)]
pub struct ResourceBudgetStatus {
    pub cpu_ceiling_percent: u8,
}

/// The daemon's view of itself, published once a cycle.
#[derive(Debug)]
pub struct DaemonStatusSnapshot {
    pub run_state: String,
    pub throttle_state: ThrottleState,
    pub provider_name: String,
    pub throttle_reason: String,
    pub queue_depth: u64,
    pub failed_intents: u64,
    pub loop_prevention_suppressions: u64,
    pub conflicts: u64,
    pub mirror_reverts: u64,
    pub mirror_deletes: u64,
    pub dropped_incoming_events: u64,
    pub profiles: Vec<ProfileStatus>,
    pub intent_diagnostics: Vec<IntentDiagnostic>,
    pub diagnostics_truncated: bool,
    pub resource_budget: Option<ResourceBudgetStatus>,
    /// Names the configuration keys that changed and need a restart.
    pub config_restart_required: Option<String>,
}

impl DaemonStatusSnapshot {
    /// No profile, no work, no diagnostics.
    pub open spec fn is_blank(&self) -> bool {
        &&& self.queue_depth == 0
        &&& self.failed_intents == 0
        &&& self.loop_prevention_suppressions == 0
        &&& self.conflicts == 0
        &&& self.mirror_reverts == 0
        &&& self.mirror_deletes == 0
        &&& self.dropped_incoming_events == 0
        &&& self.profiles@.len() == 0
        &&& self.intent_diagnostics@.len() == 0
        &&& !self.diagnostics_truncated
        &&& self.resource_budget is None
        &&& self.config_restart_required is None
    }

    /// A snapshot with a heading and nothing else.
    pub fn headed(
        run_state: String,
        throttle_state: ThrottleState,
        provider_name: String,
        throttle_reason: String,
    ) -> (r: DaemonStatusSnapshot)
        ensures
            r.run_state == run_state,
            r.throttle_state == throttle_state,
            r.provider_name == provider_name,
            r.throttle_reason == throttle_reason,
            r.is_blank(),
    {
        DaemonStatusSnapshot {
            run_state,
            throttle_state,
            provider_name,
            throttle_reason,
            queue_depth: 0,
            failed_intents: 0,
            loop_prevention_suppressions: 0,
            conflicts: 0,
            mirror_reverts: 0,
            mirror_deletes: 0,
            dropped_incoming_events: 0,
            profiles: Vec::new(),
            intent_diagnostics: Vec::new(),
            diagnostics_truncated: false,
            resource_budget: None,
            config_restart_required: None,
        }
    }

    /// The snapshot of one profile's daemon.
    pub fn from_app(app: &DaemonApp, provider_name: &str) -> (r: DaemonStatusSnapshot)
        ensures
            r.run_state@ == run_state_label(app.status().run_state)@,
            r.throttle_state == app.status().throttle_state,
            r.provider_name@ == provider_name@,
            r.throttle_reason@ == match app.decision() {
                Some(decision) => decision.reason@,
                None => Seq::<char>::empty(),
            },
            r.is_blank(),
    {
        let status = app.snapshot();
        let reason = match app.throttle_decision() {
            Some(decision) => decision.reason.clone(),
            None => String::new(),
        };
        DaemonStatusSnapshot::headed(
            run_state_name(status.run_state).to_owned(),
            status.throttle_state,
            provider_name.to_owned(),
            reason,
        )
    }
}

impl Default for DaemonStatusSnapshot {
    fn default() -> (r: DaemonStatusSnapshot)
        ensures
            r.run_state@.len() == 0,
            r.throttle_state == ThrottleState::Light,
            r.provider_name@.len() == 0,
            r.throttle_reason@.len() == 0,
            r.is_blank(),
    {
        DaemonStatusSnapshot::headed(
            String::new(),
            ThrottleState::Light,
            String::new(),
            String::new(),
        )
    }
}

pub open spec fn run_state_label(state: RunState) -> &'static str {
    match state {
        RunState::Starting => "Starting",
        RunState::Running => "Running",
        RunState::Paused => "Paused",
        RunState::Error => "Error",
    }
}

/// Name of a run state.
pub fn run_state_name(state: RunState) -> (r: &'static str)
    ensures
        r == run_state_label(state),
{
    match state {
        RunState::Starting => "Starting",
        RunState::Running => "Running",
        RunState::Paused => "Paused",
        RunState::Error => "Error",
    }
}

pub open spec fn throttle_state_label(state: ThrottleState) -> &'static str {
    match state {
        ThrottleState::IdleDrain => "IdleDrain",
        ThrottleState::Light => "Light",
        ThrottleState::Throttled => "Throttled",
        ThrottleState::Suspended => "Suspended",
    }
}

/// Name of a throttle state.
pub fn throttle_state_name(state: ThrottleState) -> (r: &'static str)
    ensures
        r == throttle_state_label(state),
{
    match state {
        ThrottleState::IdleDrain => "IdleDrain",
        ThrottleState::Light => "Light",
        ThrottleState::Throttled => "Throttled",
        ThrottleState::Suspended => "Suspended",
    }
}

/// Answer to a status request.
#[derive(Debug)]
pub struct StatusResponse {
    pub schema_version: u32,
    pub run_state: String,
    pub throttle_state: String,
    pub provider_name: String,
    pub throttle_reason: String,
    pub daemon_id: String,
    pub queue_depth: u64,
    pub failed_intents: u64,
    pub loop_prevention_suppressions: u64,
    pub conflicts: u64,
    pub mirror_reverts: u64,
    pub mirror_deletes: u64,
    pub profiles: Vec<ProfileStatus>,
    pub resource_budget: Option<ResourceBudgetStatus>,
    pub config_restart_required: Option<String>,
}

/// Answer to a request for action.
#[derive(Debug, PartialEq, Eq)]
pub struct AckResponse {
    pub schema_version: u32,
    pub accepted: bool,
    pub note: String,
}

/// Answer to a diagnostics request.
#[derive(Debug)]
pub struct DiagnosticsResponse {
    pub schema_version: u32,
    pub intents: Vec<IntentDiagnostic>,
    pub truncated: bool,
    pub dropped_incoming_events: u64,
}

#[derive(Debug, PartialEq, Eq)]
pub struct TimelineEntry {
    pub timestamp_ms: u64,
    pub kind: String,
    pub message: String,
    pub profile_id: String,
}

/// Answer to a timeline request.
#[derive(Debug)]
pub struct TimelineResponse {
    pub schema_version: u32,
    pub entries: Vec<TimelineEntry>,
}

/// The published snapshot is what the status shows.
pub open spec fn shows(status: StatusResponse, snapshot: DaemonStatusSnapshot) -> bool {
    &&& status.schema_version == SCHEMA_VERSION
    &&& status.run_state@ == snapshot.run_state@
    &&& status.throttle_state@ == throttle_state_label(snapshot.throttle_state)@
    &&& status.provider_name@ == snapshot.provider_name@
    &&& status.throttle_reason@ == snapshot.throttle_reason@
    &&& status.daemon_id@ == "vapord/"@ + VERSION@
    &&& status.queue_depth == snapshot.queue_depth
    &&& status.failed_intents == snapshot.failed_intents
    &&& status.loop_prevention_suppressions == snapshot.loop_prevention_suppressions
    &&& status.conflicts == snapshot.conflicts
    &&& status.mirror_reverts == snapshot.mirror_reverts
    &&& status.mirror_deletes == snapshot.mirror_deletes
    &&& status.profiles@ == snapshot.profiles@
    &&& status.resource_budget == snapshot.resource_budget
    &&& status.config_restart_required == snapshot.config_restart_required
}

/// A record as an entry of the answer; a time before the epoch as zero.
pub open spec fn entry_of(entry: TimelineEntry, record: TimelineRecord) -> bool {
    &&& entry.timestamp_ms == millis_since_epoch_spec(record.timestamp) as u64
    &&& entry.kind@ == record.kind@
    &&& entry.message@ == record.message@
    &&& entry.profile_id@ == record.profile_id@
}

/// An acknowledgement.
pub open spec fn acks(ack: AckResponse, accepted: bool, note: Seq<char>) -> bool {
    &&& ack.schema_version == SCHEMA_VERSION
    &&& ack.accepted == accepted
    &&& ack.note@ == note
}

fn ack(accepted: bool, note: &str) -> (r: AckResponse)
    ensures
        acks(r, accepted, note@),
{
    AckResponse { schema_version: SCHEMA_VERSION, accepted, note: note.to_owned() }
}

/// Receives the daemon's snapshot at the end of a cycle.
pub trait StatusPublisher {
    /// The snapshot received last.
    spec fn latest(&self) -> DaemonStatusSnapshot;

    fn publish(&mut self, snapshot: DaemonStatusSnapshot)
        ensures
            final(self).latest() == snapshot,
    ;
}

/// Answers the requests of other processes.
#[derive(Debug)]
pub struct DaemonIpcService {
    snapshot: DaemonStatusSnapshot,
    control: RuntimeControl,
    timeline: Option<TimelineBuffer>,
}

impl StatusPublisher for DaemonIpcService {
    closed spec fn latest(&self) -> DaemonStatusSnapshot {
        self.snapshot
    }

    fn publish(&mut self, snapshot: DaemonStatusSnapshot)
        ensures
            final(self).requests() == old(self).requests(),
            final(self).activity() == old(self).activity(),
    {
        self.snapshot = snapshot;
    }
}

impl DaemonIpcService {
    /// Requests that wait.
    pub closed spec fn requests(&self) -> RequestsView {
        self.control@
    }

    /// Recent activity, where the service shows it.
    pub closed spec fn activity(&self) -> Option<TimelineBuffer> {
        self.timeline
    }

    /// Nothing but the requests changed.
    pub open spec fn unmoved(&self, before: DaemonIpcService) -> bool {
        self.latest() == before.latest() && self.activity() == before.activity()
    }

    pub fn new(initial: DaemonStatusSnapshot, control: RuntimeControl) -> (r: DaemonIpcService)
        ensures
            r.latest() == initial,
            r.requests() == control@,
            r.activity() is None,
    {
        DaemonIpcService { snapshot: initial, control, timeline: None }
    }

    pub fn with_timeline(
        initial: DaemonStatusSnapshot,
        control: RuntimeControl,
        timeline: TimelineBuffer,
    ) -> (r: DaemonIpcService)
        ensures
            r.latest() == initial,
            r.requests() == control@,
            r.activity() == Some(timeline),
    {
        DaemonIpcService { snapshot: initial, control, timeline: Some(timeline) }
    }

    /// The requests, for the daemon to take.
    pub fn control(&mut self) -> (r: &mut RuntimeControl)
        ensures
            r@ == old(self).requests(),
            final(r)@ == final(self).requests(),
            final(self).unmoved(*old(self)),
    {
        &mut self.control
    }

    /// The activity, for the daemon to add to.
    pub fn timeline_buffer(&mut self) -> (r: &mut Option<TimelineBuffer>)
        ensures
            *r == old(self).activity(),
            *final(r) == final(self).activity(),
            final(self).latest() == old(self).latest(),
            final(self).requests() == old(self).requests(),
    {
        &mut self.timeline
    }

    /// The status last published.
    pub fn status(&self) -> (r: StatusResponse)
        ensures
            shows(r, self.latest()),
    {
        let snapshot = &self.snapshot;
        let profiles = snapshot.profiles.clone();
        assert(profiles@ =~= snapshot.profiles@);
        StatusResponse {
            schema_version: SCHEMA_VERSION,
            run_state: snapshot.run_state.clone(),
            throttle_state: throttle_state_name(snapshot.throttle_state).to_owned(),
            provider_name: snapshot.provider_name.clone(),
            throttle_reason: snapshot.throttle_reason.clone(),
            daemon_id: concat("vapord/", VERSION),
            queue_depth: snapshot.queue_depth,
            failed_intents: snapshot.failed_intents,
            loop_prevention_suppressions: snapshot.loop_prevention_suppressions,
            conflicts: snapshot.conflicts,
            mirror_reverts: snapshot.mirror_reverts,
            mirror_deletes: snapshot.mirror_deletes,
            profiles,
            resource_budget: snapshot.resource_budget,
            config_restart_required: copy_text(&snapshot.config_restart_required),
        }
    }

    /// Asks for a pause.
    pub fn pause(&mut self) -> (r: AckResponse)
        ensures
            acks(r, true, "pause requested; runtime will apply on next tick"@),
            final(self).requests() == (RequestsView { pause: Some(true), ..old(self).requests() }),
            final(self).unmoved(*old(self)),
    {
        self.control.request_pause();
        ack(true, "pause requested; runtime will apply on next tick")
    }

    /// Asks for the end of a pause.
    pub fn resume(&mut self) -> (r: AckResponse)
        ensures
            acks(r, true, "resume requested; runtime will apply on next tick"@),
            final(self).requests() == (RequestsView { pause: Some(false), ..old(self).requests() }),
            final(self).unmoved(*old(self)),
    {
        self.control.request_resume();
        ack(true, "resume requested; runtime will apply on next tick")
    }

    /// Asks for pending events to be taken up now.
    pub fn flush_now(&mut self) -> (r: AckResponse)
        ensures
            acks(r, true, "flush hint recorded; runtime drains opportunistically already"@),
            final(self).requests() == (RequestsView { flush: true, ..old(self).requests() }),
            final(self).unmoved(*old(self)),
    {
        self.control.request_flush();
        ack(true, "flush hint recorded; runtime drains opportunistically already")
    }

    /// Asks for a reconcile.
    pub fn reconcile(&mut self) -> (r: AckResponse)
        ensures
            acks(r, true, "reconcile requested; runtime will enqueue on next tick"@),
            final(self).requests() == (RequestsView { reconcile: true, ..old(self).requests() }),
            final(self).unmoved(*old(self)),
    {
        self.control.request_reconcile();
        ack(true, "reconcile requested; runtime will enqueue on next tick")
    }

    /// The intents last published.
    pub fn diagnostics(&self) -> (r: DiagnosticsResponse)
        ensures
            r.schema_version == SCHEMA_VERSION,
            r.intents@ == self.latest().intent_diagnostics@,
            r.truncated == self.latest().diagnostics_truncated,
            r.dropped_incoming_events == self.latest().dropped_incoming_events,
    {
        let intents = self.snapshot.intent_diagnostics.clone();
        assert(intents@ =~= self.snapshot.intent_diagnostics@);
        DiagnosticsResponse {
            schema_version: SCHEMA_VERSION,
            intents,
            truncated: self.snapshot.diagnostics_truncated,
            dropped_incoming_events: self.snapshot.dropped_incoming_events,
        }
    }

    /// Recent activity, oldest first.
    pub fn timeline(&self) -> (r: TimelineResponse)
        ensures
            r.schema_version == SCHEMA_VERSION,
            match self.activity() {
                Some(buffer) => {
                    &&& r.entries@.len() == buffer@.len()
                    &&& forall|i: int|
                        0 <= i < buffer@.len() ==> entry_of(#[trigger] r.entries@[i], buffer@[i])
                },
                None => r.entries@.len() == 0,
            },
    {
        let mut entries: Vec<TimelineEntry> = Vec::new();
        if let Some(buffer) = &self.timeline {
            let records = buffer.records();
            let mut i: usize = 0;
            while i < records.len()
                invariant
                    records@ == buffer@,
                    i <= records@.len(),
                    entries@.len() == i,
                    forall|j: int|
                        0 <= j < i ==> entry_of(#[trigger] entries@[j], buffer@[j]),
                decreases records@.len() - i,
            {
                let record = &records[i];
                let millis: u128 = record.timestamp.millis_since_epoch();
                entries.push(
                    TimelineEntry {
                        timestamp_ms: #[verifier::truncate] (millis as u64),
                        kind: record.kind.clone(),
                        message: record.message.clone(),
                        profile_id: record.profile_id.clone(),
                    },
                );
                i = i + 1;
            }
        }
        TimelineResponse { schema_version: SCHEMA_VERSION, entries }
    }
}

// ---------------------------------------------------------------------------
// Requests that change the configuration
// ---------------------------------------------------------------------------

/// A configuration key to set.
#[derive(Debug, PartialEq, Eq)]
pub struct KeyChange {
    pub key: &'static str,
    pub value: ConfigValue,
}

/// The change a request to start at login makes.
pub fn auto_launch_change(enabled: bool) -> (r: KeyChange)
    ensures
        r.key == KEY_AUTO_LAUNCH,
        r.value == ConfigValue::Truth(enabled),
{
    KeyChange { key: KEY_AUTO_LAUNCH, value: ConfigValue::Truth(enabled) }
}

/// The answer to a request to start at login, once the change was tried.
pub fn set_auto_launch(enabled: bool, written: Result<(), String>) -> (r: AckResponse)
    ensures
        match written {
            Ok(_) => acks(
                r,
                true,
                "autoLaunch set to "@ + if enabled {
                    "true"@
                } else {
                    "false"@
                } + "; service registration follows via `vapor service`"@,
            ),
            Err(problem) => acks(r, false, problem@),
        },
{
    match written {
        Ok(_) => {
            let mut note = concat(
                "autoLaunch set to ",
                if enabled {
                    "true"
                } else {
                    "false"
                },
            );
            note.append("; service registration follows via `vapor service`");
            ack(true, note.as_str())
        },
        Err(problem) => ack(false, problem.as_str()),
    }
}

/// Next move of a request to change the exclude rules.
#[derive(Debug, PartialEq, Eq)]
pub enum ExcludeStep {
    Write(KeyChange),
    Answer(AckResponse),
}

/// A request to change the exclude rules, one key after the other. The first
/// failure is the answer.
#[derive(Debug, PartialEq, Eq)]
pub struct ExcludeUpdate {
    post_ignore_rules: Option<String>,
}

pub open spec fn excludes_done() -> Seq<char> {
    "exclude rules persisted; the running daemon applies them within a few seconds"@
}

/// The step writes `rules` under `key`.
pub open spec fn writes(step: ExcludeStep, key: Seq<char>, rules: String) -> bool {
    step matches ExcludeStep::Write(change) && change.key@ == key && change.value
        == ConfigValue::Text(rules)
}

/// The step answers.
pub open spec fn answers(step: ExcludeStep, accepted: bool, note: Seq<char>) -> bool {
    step matches ExcludeStep::Answer(response) && acks(response, accepted, note)
}

impl ExcludeUpdate {
    /// The rules that are still to be written after the key in hand.
    pub closed spec fn later(&self) -> Option<String> {
        self.post_ignore_rules
    }

    /// Starts a request.
    pub fn update_excludes(
        pre_ignore_rules: Option<String>,
        post_ignore_rules: Option<String>,
    ) -> (r: (ExcludeUpdate, ExcludeStep))
        ensures
            match (pre_ignore_rules, post_ignore_rules) {
                (Some(pre), post) => writes(r.1, KEY_PRE_IGNORE_RULES@, pre) && r.0.later() == post,
                (None, Some(post)) => writes(r.1, KEY_POST_IGNORE_RULES@, post) && r.0.later()
                    is None,
                (None, None) => answers(r.1, false, "no exclude rules supplied"@) && r.0.later()
                    is None,
            },
    {
        match (pre_ignore_rules, post_ignore_rules) {
            (Some(pre), post) => (
                ExcludeUpdate { post_ignore_rules: post },
                ExcludeStep::Write(
                    KeyChange { key: KEY_PRE_IGNORE_RULES, value: ConfigValue::Text(pre) },
                ),
            ),
            (None, Some(post)) => (
                ExcludeUpdate { post_ignore_rules: None },
                ExcludeStep::Write(
                    KeyChange { key: KEY_POST_IGNORE_RULES, value: ConfigValue::Text(post) },
                ),
            ),
            (None, None) => (
                ExcludeUpdate { post_ignore_rules: None },
                ExcludeStep::Answer(ack(false, "no exclude rules supplied")),
            ),
        }
    }

    /// Goes on once a key was tried.
    pub fn written(&mut self, result: Result<(), String>) -> (r: ExcludeStep)
        ensures
            match result {
                Err(problem) => answers(r, false, problem@) && final(self).later() == old(
                    self,
                ).later(),
                Ok(_) => {
                    &&& final(self).later() is None
                    &&& match old(self).later() {
                        Some(post) => writes(r, KEY_POST_IGNORE_RULES@, post),
                        None => answers(r, true, excludes_done()),
                    }
                },
            },
    {
        match result {
            Err(problem) => ExcludeStep::Answer(ack(false, problem.as_str())),
            Ok(_) => match self.post_ignore_rules.take() {
                Some(post) => ExcludeStep::Write(
                    KeyChange { key: KEY_POST_IGNORE_RULES, value: ConfigValue::Text(post) },
                ),
                None => ExcludeStep::Answer(
                    ack(
                        true,
                        "exclude rules persisted; the running daemon applies them within a few seconds",
                    ),
                ),
            },
        }
    }
}

// ---------------------------------------------------------------------------
// What the service is for
// ---------------------------------------------------------------------------

/// The status answered is the one published last, number for number.
pub proof fn law_the_last_status_is_answered(
    service: &mut DaemonIpcService,
    snapshot: DaemonStatusSnapshot,
    later: DaemonIpcService,
    r: StatusResponse,
    d: DiagnosticsResponse,
)
    requires
        call_ensures(
            <DaemonIpcService as StatusPublisher>::publish,
            (service, snapshot),
            (),
        ),
        later == *final(service),
        call_ensures(DaemonIpcService::status, (&later,), r),
        call_ensures(DaemonIpcService::diagnostics, (&later,), d),
    ensures
        r.schema_version == 2,
        r.run_state@ == snapshot.run_state@,
        r.provider_name@ == snapshot.provider_name@,
        r.throttle_reason@ == snapshot.throttle_reason@,
        r.queue_depth == snapshot.queue_depth,
        r.failed_intents == snapshot.failed_intents,
        r.conflicts == snapshot.conflicts,
        r.mirror_reverts == snapshot.mirror_reverts,
        r.mirror_deletes == snapshot.mirror_deletes,
        r.loop_prevention_suppressions == snapshot.loop_prevention_suppressions,
        r.profiles@ == snapshot.profiles@,
        r.resource_budget == snapshot.resource_budget,
        r.config_restart_required == snapshot.config_restart_required,
        snapshot.throttle_state is IdleDrain ==> r.throttle_state@ == "IdleDrain"@,
        snapshot.throttle_state is Light ==> r.throttle_state@ == "Light"@,
        snapshot.throttle_state is Throttled ==> r.throttle_state@ == "Throttled"@,
        snapshot.throttle_state is Suspended ==> r.throttle_state@ == "Suspended"@,
        d.schema_version == 2,
        d.intents@ == snapshot.intent_diagnostics@,
        d.truncated == snapshot.diagnostics_truncated,
        d.dropped_incoming_events == snapshot.dropped_incoming_events,
        final(service).requests() == old(service).requests(),
        final(service).activity() == old(service).activity(),
{
}

/// Each command asks the runtime for its own thing and for nothing else, and
/// is accepted.
pub proof fn law_a_command_asks_for_one_thing(
    p: &mut DaemonIpcService,
    u: &mut DaemonIpcService,
    f: &mut DaemonIpcService,
    c: &mut DaemonIpcService,
    paused: AckResponse,
    resumed: AckResponse,
    flushed: AckResponse,
    reconciled: AckResponse,
)
    requires
        call_ensures(DaemonIpcService::pause, (p,), paused),
        call_ensures(DaemonIpcService::resume, (u,), resumed),
        call_ensures(DaemonIpcService::flush_now, (f,), flushed),
        call_ensures(DaemonIpcService::reconcile, (c,), reconciled),
    ensures
        paused.accepted && resumed.accepted && flushed.accepted && reconciled.accepted,
        final(p).requests().pause == Some(true),
        final(p).requests().flush == old(p).requests().flush,
        final(p).requests().reconcile == old(p).requests().reconcile,
        final(u).requests().pause == Some(false),
        final(u).requests().flush == old(u).requests().flush,
        final(u).requests().reconcile == old(u).requests().reconcile,
        final(f).requests().flush,
        final(f).requests().pause == old(f).requests().pause,
        final(f).requests().reconcile == old(f).requests().reconcile,
        final(c).requests().reconcile,
        final(c).requests().pause == old(c).requests().pause,
        final(c).requests().flush == old(c).requests().flush,
        final(p).latest() == old(p).latest(),
        final(c).latest() == old(c).latest(),
{
}

/// The activity is answered record for record, in order, with the time in
/// milliseconds.
pub proof fn law_the_activity_is_answered_in_order(service: DaemonIpcService, r: TimelineResponse)
    requires
        call_ensures(DaemonIpcService::timeline, (&service,), r),
    ensures
        service.activity() is None ==> r.entries@.len() == 0,
        service.activity() matches Some(buffer) ==> r.entries@.len() == buffer@.len(),
        service.activity() matches Some(buffer) ==> forall|i: int|
            0 <= i < buffer@.len() ==> (#[trigger] r.entries@[i]).kind@ == buffer@[i].kind@
                && r.entries@[i].message@ == buffer@[i].message@ && r.entries@[i].profile_id@
                == buffer@[i].profile_id@,
        service.activity() matches Some(buffer) ==> forall|i: int|
            0 <= i < buffer@.len() && 0 <= buffer@[i].timestamp.nanos < 1_000_000_000_000_000_000_000
                ==> (#[trigger] r.entries@[i]).timestamp_ms * 1_000_000
                <= buffer@[i].timestamp.nanos < (r.entries@[i].timestamp_ms + 1) * 1_000_000,
{
}

/// New exclude rules are written, the first ones first, each under its own
/// key; it is done only when both are, and a write that failed ends it with
/// the reason.
pub proof fn law_exclude_rules_are_written_in_turn(
    pre: String,
    post: String,
    both: (ExcludeUpdate, ExcludeStep),
    only_post: (ExcludeUpdate, ExcludeStep),
    neither: (ExcludeUpdate, ExcludeStep),
    update: &mut ExcludeUpdate,
    result: Result<(), String>,
    next: ExcludeStep,
)
    requires
        call_ensures(ExcludeUpdate::update_excludes, (Some(pre), Some(post)), both),
        call_ensures(ExcludeUpdate::update_excludes, (None, Some(post)), only_post),
        call_ensures(ExcludeUpdate::update_excludes, (None, None), neither),
        call_ensures(ExcludeUpdate::written, (update, result), next),
    ensures
        both.1 matches ExcludeStep::Write(change) && change.key@ == "preIgnoreRules"@
            && change.value == ConfigValue::Text(pre),
        both.0.later() == Some(post),
        only_post.1 matches ExcludeStep::Write(change) && change.key@ == "postIgnoreRules"@
            && change.value == ConfigValue::Text(post),
        only_post.0.later() is None,
        neither.1 matches ExcludeStep::Answer(response) && !response.accepted,
        result matches Err(problem) ==> next is Answer && !next->Answer_0.accepted
            && next->Answer_0.note@ == problem@,
        result is Ok ==> (old(update).later() matches Some(rules) ==> next is Write
            && next->Write_0.key@ == "postIgnoreRules"@ && next->Write_0.value
            == ConfigValue::Text(rules)),
        result is Ok && old(update).later() is None ==> next is Answer && next->Answer_0.accepted,
        result is Ok ==> final(update).later() is None,
{
}

/// The launch at login is asked for under its key and acknowledged only if it
/// could be written.
pub proof fn law_auto_launch_is_acknowledged_when_written(
    enabled: bool,
    written: Result<(), String>,
    change: KeyChange,
    r: AckResponse,
)
    requires
        call_ensures(auto_launch_change, (enabled,), change),
        call_ensures(set_auto_launch, (enabled, written), r),
    ensures
        change.key@ == "autoLaunch"@,
        change.value == ConfigValue::Truth(enabled),
        r.accepted <==> written is Ok,
        written matches Err(problem) ==> r.note@ == problem@,
{
}

} // verus!
