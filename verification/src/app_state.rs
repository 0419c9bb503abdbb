//! State of one profile's daemon: what it reports, how far it holds back and
//! which concurrency that leaves.
use vstd::prelude::*;

use crate::clock::{later_time, SystemTime, NANOS_PER_MILLI};
use crate::config::DEFAULT_CPU_PERCENT;
use crate::event_intents::BoundedEventIntentMaps;
use crate::paths::FsPath;
use crate::reconcile::{deferred_released, in_step, next_started, run_aborted, run_succeeded,
    slice_checked, ReconcileCompletion, ReconcileController, ReconcilePause, RECONCILE_SLICE_MILLIS};
use crate::scheduler::{keyed, KeyedSupersedingScheduler};
use crate::text::{concat, same_text, signed_decimal, signed_decimal_text};
use vstd::string::StringExecFns;
use crate::workgate::{denial, GateView, ThrottleCaps, ThrottleState, ThrottleWorkgate, WorkClass,
    WorkPermit, WorkPermitDenied};

verus! {

/// What the daemon is doing.
#[derive(Clone, Copy, Debug, PartialEq, Eq, Structural)]
pub enum RunState {
    Starting,
    Running,
    Paused,
    Error,
}

/// What the daemon reports of itself.
#[derive(Debug, PartialEq, Eq)]
pub struct StatusSnapshot {
    pub run_state: RunState,
    pub throttle_state: ThrottleState,
    pub reason: String,
}

/// What a throttle decision goes by.
#[derive(Clone, Copy, Debug, PartialEq, Eq, Structural)]
pub enum ThrottleCause {
    Idle,
    UserActivity,
    OnBattery,
    LowPowerMode,
    ThermalPressure,
    SystemLoad,
}

/// What the throttle controller decided on its inputs.
#[derive(Debug, PartialEq, Eq)]
pub struct ThrottleDecision {
    pub state: ThrottleState,
    pub cause: ThrottleCause,
    pub reason: String,
}

/// Concurrency of a throttle state.
pub open spec fn state_caps(state: ThrottleState) -> ThrottleCaps {
    match state {
        ThrottleState::IdleDrain => ThrottleCaps {
            planner_workers: 4,
            hash_workers: 4,
            read_tokens: 8,
            upload_concurrency: 4,
            download_concurrency: 4,
            allow_uploads: true,
            allow_downloads: true,
            allow_hashing: true,
            allow_reconcile: true,
        },
        ThrottleState::Light => ThrottleCaps {
            planner_workers: 2,
            hash_workers: 2,
            read_tokens: 4,
            upload_concurrency: 2,
            download_concurrency: 2,
            allow_uploads: true,
            allow_downloads: true,
            allow_hashing: true,
            allow_reconcile: false,
        },
        ThrottleState::Throttled => ThrottleCaps {
            planner_workers: 1,
            hash_workers: 1,
            read_tokens: 1,
            upload_concurrency: 1,
            download_concurrency: 1,
            allow_uploads: true,
            allow_downloads: true,
            allow_hashing: true,
            allow_reconcile: false,
        },
        ThrottleState::Suspended => ThrottleCaps {
            planner_workers: 0,
            hash_workers: 0,
            read_tokens: 0,
            upload_concurrency: 0,
            download_concurrency: 0,
            allow_uploads: false,
            allow_downloads: false,
            allow_hashing: false,
            allow_reconcile: false,
        },
    }
}

/// Concurrency of a throttle state.
pub fn caps_for(state: ThrottleState) -> (r: ThrottleCaps)
    ensures
        r == state_caps(state),
{
    match state {
        ThrottleState::IdleDrain => ThrottleCaps {
            planner_workers: 4,
            hash_workers: 4,
            read_tokens: 8,
            upload_concurrency: 4,
            download_concurrency: 4,
            allow_uploads: true,
            allow_downloads: true,
            allow_hashing: true,
            allow_reconcile: true,
        },
        ThrottleState::Light => ThrottleCaps {
            planner_workers: 2,
            hash_workers: 2,
            read_tokens: 4,
            upload_concurrency: 2,
            download_concurrency: 2,
            allow_uploads: true,
            allow_downloads: true,
            allow_hashing: true,
            allow_reconcile: false,
        },
        ThrottleState::Throttled => ThrottleCaps {
            planner_workers: 1,
            hash_workers: 1,
            read_tokens: 1,
            upload_concurrency: 1,
            download_concurrency: 1,
            allow_uploads: true,
            allow_downloads: true,
            allow_hashing: true,
            allow_reconcile: false,
        },
        ThrottleState::Suspended => ThrottleCaps {
            planner_workers: 0,
            hash_workers: 0,
            read_tokens: 0,
            upload_concurrency: 0,
            download_concurrency: 0,
            allow_uploads: false,
            allow_downloads: false,
            allow_hashing: false,
            allow_reconcile: false,
        },
    }
}

/// `cap * ceiling / DEFAULT_CPU_PERCENT`, rounded to the nearest number. No
/// quotient lies half way between two: the divisor is odd.
pub open spec fn rounded_share(cap: int, ceiling: int) -> int {
    (2 * cap * ceiling + DEFAULT_CPU_PERCENT) / (2 * DEFAULT_CPU_PERCENT)
}

/// A cap under a processor ceiling: in proportion to the default ceiling, at
/// least one, and above the state's own cap only while idle. A cap of zero
/// stays zero.
pub open spec fn scaled_cap(cap: usize, ceiling: u8, idle: bool) -> int {
    let share = rounded_share(cap as int, ceiling as int);
    let scaled = if share < 1 {
        1
    } else {
        share
    };
    if cap == 0 {
        0
    } else if !idle && scaled > cap {
        cap as int
    } else {
        scaled
    }
}

fn scale_cap(cap: usize, ceiling: u8, idle: bool) -> (r: usize)
    requires
        cap <= 1_000_000,
    ensures
        r == scaled_cap(cap, ceiling, idle),
{
    if cap == 0 {
        return 0;
    }
    assert(cap as int * ceiling as int <= 255_000_000) by (nonlinear_arith)
        requires
            0 <= cap <= 1_000_000,
            0 <= ceiling <= 255,
    ;
    let product: u64 = (cap as u64) * (ceiling as u64);
    assert(2 * cap as int * ceiling as int == 2 * product) by (nonlinear_arith)
        requires
            product == cap as int * ceiling as int,
    ;
    let share: u64 = (2 * product + DEFAULT_CPU_PERCENT as u64) / (2 * DEFAULT_CPU_PERCENT as u64);
    let scaled: usize = if share < 1 {
        1
    } else {
        share as usize
    };
    if !idle && scaled > cap {
        cap
    } else {
        scaled
    }
}

/// Caps under a processor ceiling.
pub open spec fn scaled_caps(caps: ThrottleCaps, ceiling: u8, idle: bool) -> ThrottleCaps {
    ThrottleCaps {
        planner_workers: scaled_cap(caps.planner_workers, ceiling, idle) as usize,
        hash_workers: scaled_cap(caps.hash_workers, ceiling, idle) as usize,
        read_tokens: scaled_cap(caps.read_tokens, ceiling, idle) as usize,
        upload_concurrency: scaled_cap(caps.upload_concurrency, ceiling, idle) as usize,
        download_concurrency: scaled_cap(caps.download_concurrency, ceiling, idle) as usize,
        ..caps
    }
}

/// The caps in force: those of the throttle state, scaled to the ceiling, and
/// with one upload at most during a rate-limit slowdown. The slowdown comes
/// after the scaling, which cannot raise it again.
pub open spec fn effective_caps(
    state: ThrottleState,
    ceiling: Option<u8>,
    slowed: bool,
) -> ThrottleCaps {
    let scaled = match ceiling {
        Some(ceiling) => scaled_caps(
            state_caps(state),
            ceiling,
            state == ThrottleState::IdleDrain,
        ),
        None => state_caps(state),
    };
    if slowed && scaled.upload_concurrency > 1 {
        ThrottleCaps { upload_concurrency: 1, ..scaled }
    } else {
        scaled
    }
}

/// During a rate-limit slowdown at most one upload runs, whatever the ceiling.
pub proof fn law_slowdown_survives_any_ceiling(state: ThrottleState, ceiling: Option<u8>)
    ensures
        effective_caps(state, ceiling, true).upload_concurrency <= 1,
{
}

/// A ceiling never raises a cap while the machine is in use, and never lifts
/// a cap of zero.
pub proof fn law_ceilings_only_lower_when_busy(state: ThrottleState, ceiling: u8, slowed: bool)
    ensures
        state != ThrottleState::IdleDrain ==> {
            let caps = effective_caps(state, Some(ceiling), slowed);
            let base = state_caps(state);
            &&& caps.planner_workers <= base.planner_workers
            &&& caps.hash_workers <= base.hash_workers
            &&& caps.read_tokens <= base.read_tokens
            &&& caps.upload_concurrency <= base.upload_concurrency
            &&& caps.download_concurrency <= base.download_concurrency
        },
        state == ThrottleState::Suspended ==> effective_caps(state, Some(ceiling), slowed)
            == state_caps(state),
{
}

/// The rate-limit slowdown is in force.
pub open spec fn slowed_at(until: Option<SystemTime>, now: SystemTime) -> bool {
    until matches Some(t) && t.nanos > now.nanos
}

/// State of one profile: status, throttle, retry slowdown and reconcile.
#[derive(Debug)]
pub struct DaemonApp {
    snapshot: StatusSnapshot,
    last_throttle_decision: Option<ThrottleDecision>,
    retry_slowdown_until: Option<SystemTime>,
    resource_cpu_ceiling_percent: Option<u8>,
    reconcile_controller: ReconcileController,
}

impl DaemonApp {
    pub closed spec fn status(&self) -> StatusSnapshot {
        self.snapshot
    }

    pub closed spec fn decision(&self) -> Option<ThrottleDecision> {
        self.last_throttle_decision
    }

    pub closed spec fn slowdown(&self) -> Option<SystemTime> {
        self.retry_slowdown_until
    }

    pub closed spec fn ceiling(&self) -> Option<u8> {
        self.resource_cpu_ceiling_percent
    }

    pub closed spec fn reconciles(&self) -> ReconcileController {
        self.reconcile_controller
    }

    /// A daemon that starts, with the least restrictive throttle but idle.
    pub fn new() -> (r: DaemonApp)
        ensures
            r.status().run_state == RunState::Starting,
            r.status().throttle_state == ThrottleState::Light,
            r.status().reason@ == "daemon starting"@,
            r.decision() is None,
            r.slowdown() is None,
            r.ceiling() is None,
            r.reconciles().current() is None,
            r.reconciles().budget().nanos == RECONCILE_SLICE_MILLIS * NANOS_PER_MILLI,
    {
        DaemonApp {
            snapshot: StatusSnapshot {
                run_state: RunState::Starting,
                throttle_state: ThrottleState::Light,
                reason: "daemon starting".to_owned(),
            },
            last_throttle_decision: None,
            retry_slowdown_until: None,
            resource_cpu_ceiling_percent: None,
            reconcile_controller: ReconcileController::default(),
        }
    }

    /// The status as it stands.
    pub fn snapshot(&self) -> (r: &StatusSnapshot)
        ensures
            *r == self.status(),
    {
        &self.snapshot
    }

    /// The last decision of the throttle controller.
    pub fn throttle_decision(&self) -> (r: Option<&ThrottleDecision>)
        ensures
            match r {
                Some(decision) => self.decision() == Some(*decision),
                None => self.decision() is None,
            },
    {
        self.last_throttle_decision.as_ref()
    }

    /// Until when a rate limit slows the profile down, if one does.
    pub fn retry_slowdown_until(&self) -> (r: Option<SystemTime>)
        ensures
            r == self.slowdown(),
    {
        self.retry_slowdown_until
    }

    /// Changes the run state, and says why.
    pub fn set_run_state(&mut self, run_state: RunState, reason: String)
        ensures
            final(self).status() == (StatusSnapshot { run_state, reason, ..old(self).status() }),
            final(self).slowdown() == old(self).slowdown(),
            final(self).ceiling() == old(self).ceiling(),
            final(self).reconciles() == old(self).reconciles(),
            final(self).decision() == old(self).decision(),
    {
        self.snapshot.run_state = run_state;
        self.snapshot.reason = reason;
    }

    fn retry_slowdown_active(&self, now: SystemTime) -> (r: bool)
        ensures
            r == slowed_at(self.slowdown(), now),
    {
        match self.retry_slowdown_until {
            Some(until) => until.nanos > now.nanos,
            None => false,
        }
    }

    /// The caps in force at `now`.
    pub fn throttle_caps(&self, now: SystemTime) -> (r: ThrottleCaps)
        ensures
            r == effective_caps(
                self.status().throttle_state,
                self.ceiling(),
                slowed_at(self.slowdown(), now),
            ),
    {
        let mut caps = caps_for(self.snapshot.throttle_state);
        if let Some(ceiling) = self.resource_cpu_ceiling_percent {
            let idle = matches!(self.snapshot.throttle_state, ThrottleState::IdleDrain);
            caps.planner_workers = scale_cap(caps.planner_workers, ceiling, idle);
            caps.hash_workers = scale_cap(caps.hash_workers, ceiling, idle);
            caps.read_tokens = scale_cap(caps.read_tokens, ceiling, idle);
            caps.upload_concurrency = scale_cap(caps.upload_concurrency, ceiling, idle);
            caps.download_concurrency = scale_cap(caps.download_concurrency, ceiling, idle);
        }
        if self.retry_slowdown_active(now) && caps.upload_concurrency > 1 {
            caps.upload_concurrency = 1;
        }
        caps
    }

    /// Drops a slowdown that is over and sets the workgate to the caps in
    /// force.
    pub fn refresh_workgate_caps(&mut self, workgate: &mut ThrottleWorkgate, now: SystemTime)
        ensures
            final(self).status() == old(self).status(),
            final(self).ceiling() == old(self).ceiling(),
            final(self).reconciles() == old(self).reconciles(),
            final(self).decision() == old(self).decision(),
            final(self).slowdown() == if slowed_at(old(self).slowdown(), now) {
                old(self).slowdown()
            } else {
                None
            },
            final(workgate)@ == (GateView {
                state: old(self).status().throttle_state,
                caps: effective_caps(
                    old(self).status().throttle_state,
                    old(self).ceiling(),
                    slowed_at(old(self).slowdown(), now),
                ),
                ..old(workgate)@
            }),
            old(workgate)@.wf() ==> final(workgate)@.wf(),
    {
        if !self.retry_slowdown_active(now) {
            self.retry_slowdown_until = None;
        }
        let caps = self.throttle_caps(now);
        workgate.reconfigure(self.snapshot.throttle_state, caps);
    }

    /// Sets the throttle state; nothing happens when state and reason stay.
    pub fn set_throttle_state(
        &mut self,
        workgate: &mut ThrottleWorkgate,
        throttle_state: ThrottleState,
        reason: String,
        now: SystemTime,
    )
        ensures
            final(self).ceiling() == old(self).ceiling(),
            final(self).reconciles() == old(self).reconciles(),
            final(self).decision() == old(self).decision(),
            old(workgate)@.wf() ==> final(workgate)@.wf(),
            if old(self).status().throttle_state == throttle_state && old(self).status().reason@
                == reason@ {
                &&& final(self).status() == old(self).status()
                &&& final(self).slowdown() == old(self).slowdown()
                &&& final(workgate)@ == old(workgate)@
            } else {
                &&& final(self).status() == (StatusSnapshot {
                    throttle_state,
                    reason,
                    ..old(self).status()
                })
                &&& final(self).slowdown() == if slowed_at(old(self).slowdown(), now) {
                    old(self).slowdown()
                } else {
                    None
                }
                &&& final(workgate)@ == (GateView {
                    state: throttle_state,
                    caps: effective_caps(
                        throttle_state,
                        old(self).ceiling(),
                        slowed_at(old(self).slowdown(), now),
                    ),
                    ..old(workgate)@
                })
            },
    {
        if self.snapshot.throttle_state == throttle_state && same_text(
            self.snapshot.reason.as_str(),
            reason.as_str(),
        ) {
            return;
        }
        self.snapshot.throttle_state = throttle_state;
        self.snapshot.reason = reason;
        self.refresh_workgate_caps(workgate, now);
    }

    /// Takes over a decision of the throttle controller.
    pub fn apply_throttle_decision(
        &mut self,
        workgate: &mut ThrottleWorkgate,
        decision: ThrottleDecision,
        now: SystemTime,
    )
        ensures
            final(self).ceiling() == old(self).ceiling(),
            final(self).reconciles() == old(self).reconciles(),
            final(self).decision() == Some(decision),
            final(self).status().run_state == old(self).status().run_state,
            final(self).status().throttle_state == decision.state,
            final(self).status().reason@ == decision.reason@,
            old(workgate)@.wf() ==> final(workgate)@.wf(),
            if old(self).status().throttle_state == decision.state && old(self).status().reason@
                == decision.reason@ {
                &&& final(self).slowdown() == old(self).slowdown()
                &&& final(workgate)@ == old(workgate)@
            } else {
                &&& final(self).slowdown() == if slowed_at(old(self).slowdown(), now) {
                    old(self).slowdown()
                } else {
                    None
                }
                &&& final(workgate)@ == (GateView {
                    state: decision.state,
                    caps: effective_caps(
                        decision.state,
                        old(self).ceiling(),
                        slowed_at(old(self).slowdown(), now),
                    ),
                    ..old(workgate)@
                })
            },
    {
        self.set_throttle_state(workgate, decision.state, decision.reason.clone(), now);
        self.last_throttle_decision = Some(decision);
    }

    /// Sets the processor ceiling; nothing happens when it stays.
    pub fn apply_resource_cpu_ceiling(
        &mut self,
        workgate: &mut ThrottleWorkgate,
        ceiling_percent: u8,
        now: SystemTime,
    )
        ensures
            final(self).status() == old(self).status(),
            final(self).ceiling() == Some(ceiling_percent),
            final(self).reconciles() == old(self).reconciles(),
            final(self).decision() == old(self).decision(),
            old(workgate)@.wf() ==> final(workgate)@.wf(),
            if old(self).ceiling() == Some(ceiling_percent) {
                &&& final(self).slowdown() == old(self).slowdown()
                &&& final(workgate)@ == old(workgate)@
            } else {
                &&& final(self).slowdown() == if slowed_at(old(self).slowdown(), now) {
                    old(self).slowdown()
                } else {
                    None
                }
                &&& final(workgate)@ == (GateView {
                    state: old(self).status().throttle_state,
                    caps: effective_caps(
                        old(self).status().throttle_state,
                        Some(ceiling_percent),
                        slowed_at(old(self).slowdown(), now),
                    ),
                    ..old(workgate)@
                })
            },
    {
        let same = match self.resource_cpu_ceiling_percent {
            Some(current) => current == ceiling_percent,
            None => false,
        };
        if same {
            return;
        }
        self.resource_cpu_ceiling_percent = Some(ceiling_percent);
        self.refresh_workgate_caps(workgate, now);
    }

    /// Takes over the slowdown a scheduled retry asks for, if it is longer
    /// than the one in force.
    pub fn apply_retry_decision(
        &mut self,
        workgate: &mut ThrottleWorkgate,
        slowdown_until: Option<SystemTime>,
        now: SystemTime,
    )
        ensures
            final(self).status() == old(self).status(),
            final(self).ceiling() == old(self).ceiling(),
            final(self).reconciles() == old(self).reconciles(),
            final(self).decision() == old(self).decision(),
            old(workgate)@.wf() ==> final(workgate)@.wf(),
            ({
                let until = longer_slowdown(old(self).slowdown(), slowdown_until);
                &&& final(self).slowdown() == if slowed_at(until, now) {
                    until
                } else {
                    None
                }
                &&& final(workgate)@ == (GateView {
                    state: old(self).status().throttle_state,
                    caps: effective_caps(
                        old(self).status().throttle_state,
                        old(self).ceiling(),
                        slowed_at(until, now),
                    ),
                    ..old(workgate)@
                })
            }),
    {
        if let Some(until) = slowdown_until {
            self.retry_slowdown_until = match self.retry_slowdown_until {
                Some(existing) => Some(existing.later(until)),
                None => Some(until),
            };
        }
        self.refresh_workgate_caps(workgate, now);
    }

    /// Takes over the slowdown found in durable state at a start.
    pub fn restore_retry_slowdown(
        &mut self,
        workgate: &mut ThrottleWorkgate,
        slowdown_until: Option<SystemTime>,
        now: SystemTime,
    ) -> (r: Option<SystemTime>)
        ensures
            final(self).status() == old(self).status(),
            final(self).ceiling() == old(self).ceiling(),
            final(self).reconciles() == old(self).reconciles(),
            final(self).decision() == old(self).decision(),
            old(workgate)@.wf() ==> final(workgate)@.wf(),
            r == final(self).slowdown(),
            r == if slowed_at(slowdown_until, now) {
                slowdown_until
            } else {
                None
            },
            final(workgate)@ == (GateView {
                state: old(self).status().throttle_state,
                caps: effective_caps(
                    old(self).status().throttle_state,
                    old(self).ceiling(),
                    slowed_at(slowdown_until, now),
                ),
                ..old(workgate)@
            }),
    {
        self.retry_slowdown_until = slowdown_until;
        self.refresh_workgate_caps(workgate, now);
        self.retry_slowdown_until
    }

    /// The workgate under the caps in force at `now`; what is out stays out.
    pub open spec fn tuned_gate(&self, gate: GateView, now: SystemTime) -> GateView {
        GateView {
            state: self.status().throttle_state,
            caps: effective_caps(
                self.status().throttle_state,
                self.ceiling(),
                slowed_at(self.slowdown(), now),
            ),
            ..gate
        }
    }

    /// Nothing changed but that a slowdown that is over at `now` is forgotten.
    pub open spec fn only_refreshed(&self, before: DaemonApp, now: SystemTime) -> bool {
        &&& self.status() == before.status()
        &&& self.ceiling() == before.ceiling()
        &&& self.reconciles() == before.reconciles()
        &&& self.decision() == before.decision()
        &&& self.slowdown() == if slowed_at(before.slowdown(), now) {
            before.slowdown()
        } else {
            None
        }
    }

    /// Asks for a permit under the caps in force at `now`.
    pub fn try_acquire_work(
        &mut self,
        workgate: &mut ThrottleWorkgate,
        class: WorkClass,
        now: SystemTime,
    ) -> (r: Result<WorkPermit, WorkPermitDenied>)
        requires
            old(workgate)@.wf(),
            old(workgate)@.next_id < u64::MAX,
        ensures
            final(workgate)@.wf(),
            final(self).only_refreshed(*old(self), now),
            ({
                let tuned = old(self).tuned_gate(old(workgate)@, now);
                match denial(tuned.caps, tuned.permits, class) {
                    Some(reason) => r == Err::<WorkPermit, WorkPermitDenied>(
                        WorkPermitDenied { class, reason },
                    ) && final(workgate)@ == tuned,
                    None => {
                        &&& r == Ok::<WorkPermit, WorkPermitDenied>(tuned.fresh(class))
                        &&& final(workgate)@ == (GateView {
                            permits: tuned.permits.push(tuned.fresh(class)),
                            next_id: tuned.next_id + 1,
                            ..tuned
                        })
                        &&& !old(workgate)@.held().contains(tuned.fresh(class))
                        &&& final(workgate)@.held() == old(workgate)@.held().insert(
                            tuned.fresh(class),
                        )
                    },
                }
            }),
    {
        self.refresh_workgate_caps(workgate, now);
        workgate.try_acquire(class)
    }

    /// The answer to a scheduled retry: the slowdown it asks for is taken over.
    /// A retry that left no record is an error.
    pub fn schedule_retry(
        &mut self,
        workgate: &mut ThrottleWorkgate,
        id: i64,
        scheduled: Option<Option<SystemTime>>,
        now: SystemTime,
    ) -> (r: Result<(), String>)
        ensures
            final(self).status() == old(self).status(),
            final(self).ceiling() == old(self).ceiling(),
            final(self).reconciles() == old(self).reconciles(),
            final(self).decision() == old(self).decision(),
            old(workgate)@.wf() ==> final(workgate)@.wf(),
            match scheduled {
                None => {
                    &&& r matches Err(message)
                    &&& message@ == "retry scheduling for intent "@ + signed_decimal(id as int)
                        + " produced no retry record"@
                    &&& final(self).slowdown() == old(self).slowdown()
                    &&& final(workgate)@ == old(workgate)@
                },
                Some(slowdown_until) => {
                    let until = longer_slowdown(old(self).slowdown(), slowdown_until);
                    &&& r is Ok
                    &&& final(self).slowdown() == if slowed_at(until, now) {
                        until
                    } else {
                        None
                    }
                    &&& final(workgate)@ == (GateView {
                        state: old(self).status().throttle_state,
                        caps: effective_caps(
                            old(self).status().throttle_state,
                            old(self).ceiling(),
                            slowed_at(until, now),
                        ),
                        ..old(workgate)@
                    })
                },
            },
    {
        match scheduled {
            Some(slowdown_until) => {
                self.apply_retry_decision(workgate, slowdown_until, now);
                Ok(())
            },
            None => {
                let number = signed_decimal_text(id);
                let mut message = concat("retry scheduling for intent ", number.as_str());
                message.append(" produced no retry record");
                Err(message)
            },
        }
    }

    /// Queues the deferred reconciles that are due, but only while idle.
    pub fn release_ready_deferred_reconciles(
        &mut self,
        maps: &mut BoundedEventIntentMaps,
        scheduler: &mut KeyedSupersedingScheduler,
        now: SystemTime,
    ) -> (r: usize)
        requires
            old(maps).wf(),
            keyed(old(scheduler)@),
        ensures
            final(maps).wf(),
            keyed(final(scheduler)@),
            final(self).unmoved(*old(self)),
            final(self).reconciles().current() == old(self).reconciles().current(),
            deferred_released(
                old(self).status().throttle_state,
                now,
                old(maps)@,
                old(scheduler)@,
                r,
                final(maps)@,
                final(scheduler)@,
            ),
    {
        self.reconcile_controller.release_ready_deferred_reconciles(
            maps,
            scheduler,
            self.snapshot.throttle_state,
            now,
        )
    }

    /// Starts the next reconcile, but only while idle and one at a time.
    pub fn try_start_reconcile(
        &mut self,
        scheduler: &mut KeyedSupersedingScheduler,
        workgate: &mut ThrottleWorkgate,
        now: SystemTime,
    ) -> (r: Result<Option<FsPath>, WorkPermitDenied>)
        requires
            keyed(old(scheduler)@),
            old(workgate)@.wf(),
            old(workgate)@.next_id < u64::MAX,
            in_step(old(self).reconciles().current(), old(scheduler)@, old(workgate)@),
        ensures
            keyed(final(scheduler)@),
            final(workgate)@.wf(),
            final(self).unmoved(*old(self)),
            in_step(final(self).reconciles().current(), final(scheduler)@, final(workgate)@),
            next_started(
                old(self).status().throttle_state,
                now,
                old(self).reconciles().current(),
                old(scheduler)@,
                old(workgate)@,
                r,
                final(self).reconciles().current(),
                final(scheduler)@,
                final(workgate)@,
            ),
    {
        self.reconcile_controller.try_start_next(
            scheduler,
            workgate,
            self.snapshot.throttle_state,
            now,
        )
    }

    /// A checkpoint of the running reconcile.
    pub fn checkpoint_reconcile(
        &mut self,
        scheduler: &mut KeyedSupersedingScheduler,
        workgate: &mut ThrottleWorkgate,
        now: SystemTime,
    ) -> (r: Option<ReconcilePause>)
        requires
            keyed(old(scheduler)@),
            old(workgate)@.wf(),
            in_step(old(self).reconciles().current(), old(scheduler)@, old(workgate)@),
        ensures
            keyed(final(scheduler)@),
            final(workgate)@.wf(),
            final(self).unmoved(*old(self)),
            in_step(final(self).reconciles().current(), final(scheduler)@, final(workgate)@),
            slice_checked(
                old(self).status().throttle_state,
                now,
                old(self).reconciles().budget(),
                old(self).reconciles().current(),
                old(scheduler)@,
                old(workgate)@,
                r,
                final(self).reconciles().current(),
                final(scheduler)@,
                final(workgate)@,
            ),
    {
        self.reconcile_controller.checkpoint(
            scheduler,
            workgate,
            self.snapshot.throttle_state,
            now,
        )
    }

    /// Root of the running reconcile.
    pub fn running_reconcile_root(&self) -> (r: Option<&FsPath>)
        ensures
            match r {
                Some(root) => self.reconciles().current() is Some && root@
                    == self.reconciles().current()->0.root,
                None => self.reconciles().current() is None,
            },
    {
        self.reconcile_controller.running_root()
    }

    /// Ends the running reconcile after a failure; the work is queued again.
    pub fn abort_reconcile(
        &mut self,
        scheduler: &mut KeyedSupersedingScheduler,
        workgate: &mut ThrottleWorkgate,
        now: SystemTime,
    ) -> (r: Option<FsPath>)
        requires
            keyed(old(scheduler)@),
            old(workgate)@.wf(),
            in_step(old(self).reconciles().current(), old(scheduler)@, old(workgate)@),
        ensures
            keyed(final(scheduler)@),
            final(workgate)@.wf(),
            final(self).unmoved(*old(self)),
            final(self).reconciles().current() is None,
            run_aborted(
                now,
                old(self).reconciles().current(),
                old(scheduler)@,
                old(workgate)@,
                r,
                final(scheduler)@,
                final(workgate)@,
            ),
    {
        self.reconcile_controller.abort_running(scheduler, workgate, now)
    }

    /// Ends the running reconcile with success.
    pub fn complete_reconcile(
        &mut self,
        maps: &mut BoundedEventIntentMaps,
        scheduler: &mut KeyedSupersedingScheduler,
        workgate: &mut ThrottleWorkgate,
    ) -> (r: Option<ReconcileCompletion>)
        requires
            old(maps).wf(),
            keyed(old(scheduler)@),
            old(workgate)@.wf(),
        ensures
            final(maps).wf(),
            keyed(final(scheduler)@),
            final(workgate)@.wf(),
            final(self).unmoved(*old(self)),
            final(self).reconciles().current() is None,
            run_succeeded(
                old(self).reconciles().current(),
                old(maps)@,
                old(scheduler)@,
                old(workgate)@,
                r,
                final(maps)@,
                final(scheduler)@,
                final(workgate)@,
            ),
    {
        self.reconcile_controller.complete_success(maps, scheduler, workgate)
    }

    /// Nothing changed but which reconcile runs.
    pub open spec fn unmoved(&self, before: DaemonApp) -> bool {
        &&& self.status() == before.status()
        &&& self.decision() == before.decision()
        &&& self.slowdown() == before.slowdown()
        &&& self.ceiling() == before.ceiling()
        &&& self.reconciles().budget() == before.reconciles().budget()
    }
}

impl Default for DaemonApp {
    fn default() -> (r: DaemonApp)
        ensures
            r.status().run_state == RunState::Starting,
            r.status().throttle_state == ThrottleState::Light,
            r.status().reason@ == "daemon starting"@,
            r.decision() is None,
            r.slowdown() is None,
            r.ceiling() is None,
            r.reconciles().current() is None,
            r.reconciles().budget().nanos == RECONCILE_SLICE_MILLIS * NANOS_PER_MILLI,
    {
        DaemonApp::new()
    }
}

/// The later of two slowdowns.
pub open spec fn longer_slowdown(
    current: Option<SystemTime>,
    asked: Option<SystemTime>,
) -> Option<SystemTime> {
    match (current, asked) {
        (Some(a), Some(b)) => Some(later_time(a, b)),
        (Some(a), None) => Some(a),
        (None, asked) => asked,
    }
}

// ---------------------------------------------------------------------------
// What the throttle is for
// ---------------------------------------------------------------------------

/// The caps of the throttle states: four of everything and reconciles while
/// idle, two when light, one when throttled, and nothing at all when
/// suspended. Reconciles run only while idle.
pub proof fn law_each_state_has_its_caps(state: ThrottleState, r: ThrottleCaps)
    requires
        call_ensures(caps_for, (state,), r),
    ensures
        ({
            let n: usize = match state {
                ThrottleState::IdleDrain => 4,
                ThrottleState::Light => 2,
                ThrottleState::Throttled => 1,
                ThrottleState::Suspended => 0,
            };
            &&& r.planner_workers == n
            &&& r.hash_workers == n
            &&& r.upload_concurrency == n
            &&& r.download_concurrency == n
            &&& r.read_tokens == if n == 1 {
                1
            } else {
                2 * n
            }
            &&& r.allow_uploads == (state != ThrottleState::Suspended)
            &&& r.allow_downloads == (state != ThrottleState::Suspended)
            &&& r.allow_hashing == (state != ThrottleState::Suspended)
            &&& r.allow_reconcile == (state == ThrottleState::IdleDrain)
        }),
{
}

/// `got` is `cap` in the proportion of `ceiling` to the default of fifteen
/// percent: within half a unit of it, or one where that would be less.
pub open spec fn in_proportion(cap: usize, ceiling: u8, got: usize) -> bool {
    if cap == 0 {
        got == 0
    } else {
        got >= 1 && (30 * got <= 2 * cap * ceiling + 15 || got == 1) && 2 * cap * ceiling <= 30
            * got + 15
    }
}

proof fn lemma_scaled(cap: usize, ceiling: u8, idle: bool)
    requires
        cap <= 1_000,
    ensures
        0 <= scaled_cap(cap, ceiling, idle) <= 1_000_000,
        idle || ceiling <= 15 ==> in_proportion(
            cap,
            ceiling,
            scaled_cap(cap, ceiling, idle) as usize,
        ),
        ceiling == 15 ==> scaled_cap(cap, ceiling, idle) == cap,
        cap > 0 ==> scaled_cap(cap, ceiling, idle) > 0,
        !idle ==> scaled_cap(cap, ceiling, idle) <= cap,
{
    let x = 2 * cap * ceiling;
    assert(0 <= x <= 510_000) by (nonlinear_arith)
        requires
            x == 2 * cap * ceiling,
            0 <= cap <= 1_000,
            0 <= ceiling <= 255,
    ;
    assert(ceiling <= 15 ==> x <= 30 * cap) by (nonlinear_arith)
        requires
            x == 2 * cap * ceiling,
            0 <= cap,
    ;
    assert(ceiling == 15 ==> x == 30 * cap) by (nonlinear_arith)
        requires
            x == 2 * cap * ceiling,
    ;
}

/// The caps in force come from the state's own: a ceiling scales each in
/// proportion, but while the machine is in use never above it; a slowdown
/// leaves one upload at most, and what a state forbids stays forbidden. The
/// default ceiling of fifteen percent changes nothing.
pub proof fn law_caps_follow_state_ceiling_and_slowdown(
    app: DaemonApp,
    now: SystemTime,
    base: ThrottleCaps,
    r: ThrottleCaps,
)
    requires
        call_ensures(DaemonApp::throttle_caps, (&app, now), r),
        call_ensures(caps_for, (app.status().throttle_state,), base),
    ensures
        ({
            let idle = app.status().throttle_state == ThrottleState::IdleDrain;
            let slowed = app.slowdown() is Some && (app.slowdown()->0).nanos > now.nanos;
            &&& r.allow_uploads == base.allow_uploads
            &&& r.allow_downloads == base.allow_downloads
            &&& r.allow_hashing == base.allow_hashing
            &&& r.allow_reconcile == base.allow_reconcile
            &&& slowed ==> r.upload_concurrency <= 1
            &&& app.ceiling() is None || app.ceiling() == Some(15u8) ==> r.planner_workers
                == base.planner_workers && r.hash_workers == base.hash_workers && r.read_tokens
                == base.read_tokens && r.download_concurrency == base.download_concurrency && (
            !slowed ==> r.upload_concurrency == base.upload_concurrency)
            &&& !idle ==> r.planner_workers <= base.planner_workers && r.hash_workers
                <= base.hash_workers && r.read_tokens <= base.read_tokens && r.upload_concurrency
                <= base.upload_concurrency && r.download_concurrency <= base.download_concurrency
            &&& app.ceiling() matches Some(ceiling) ==> (idle || ceiling <= 15 ==> in_proportion(
                base.planner_workers,
                ceiling,
                r.planner_workers,
            ) && in_proportion(base.hash_workers, ceiling, r.hash_workers) && in_proportion(
                base.read_tokens,
                ceiling,
                r.read_tokens,
            ) && in_proportion(base.download_concurrency, ceiling, r.download_concurrency) && (
            !slowed ==> in_proportion(base.upload_concurrency, ceiling, r.upload_concurrency)))
            &&& base.planner_workers > 0 ==> r.planner_workers > 0 && r.hash_workers > 0
                && r.upload_concurrency > 0 && r.download_concurrency > 0
        }),
{
    if let Some(ceiling) = app.ceiling() {
        let idle = app.status().throttle_state == ThrottleState::IdleDrain;
        lemma_scaled(base.planner_workers, ceiling, idle);
        lemma_scaled(base.hash_workers, ceiling, idle);
        lemma_scaled(base.read_tokens, ceiling, idle);
        lemma_scaled(base.upload_concurrency, ceiling, idle);
        lemma_scaled(base.download_concurrency, ceiling, idle);
    }
}

/// A scheduled retry never shortens a slowdown that is in force, and ends up
/// with the longer of the two; one that is over is forgotten. The caps of the
/// workgate are those in force from then on.
pub proof fn law_a_slowdown_is_never_shortened(
    app: &mut DaemonApp,
    gate: &mut ThrottleWorkgate,
    asked: Option<SystemTime>,
    now: SystemTime,
    caps: ThrottleCaps,
)
    requires
        call_ensures(DaemonApp::apply_retry_decision, (app, gate, asked, now), ()),
        call_ensures(DaemonApp::throttle_caps, (final(app), now), caps),
    ensures
        old(app).slowdown() matches Some(until) ==> (until.nanos > now.nanos ==> final(app).slowdown() is Some && (final(app).slowdown()->0).nanos >= until.nanos),
        asked matches Some(until) ==> (until.nanos > now.nanos ==> final(app).slowdown() is Some
            && (final(app).slowdown()->0).nanos >= until.nanos),
        final(app).slowdown() matches Some(until) ==> until.nanos > now.nanos && (Some(until)
            == old(app).slowdown() || Some(until) == asked),
        final(gate)@.caps == caps,
        final(gate)@.permits == old(gate)@.permits,
{
}

/// A permit is judged by the caps in force at the very moment it is asked for,
/// whatever the workgate was set to before, and the workgate has them from
/// then on.
pub proof fn law_a_permit_is_judged_by_the_caps_in_force(
    app: &mut DaemonApp,
    gate: &mut ThrottleWorkgate,
    class: WorkClass,
    now: SystemTime,
    caps: ThrottleCaps,
    r: Result<WorkPermit, WorkPermitDenied>,
)
    requires
        call_ensures(DaemonApp::try_acquire_work, (app, gate, class, now), r),
        call_ensures(DaemonApp::throttle_caps, (old(app), now), caps),
    ensures
        final(gate)@.caps == caps,
        final(gate)@.state == old(app).status().throttle_state,
        r matches Ok(permit) ==> permit.class == class && final(gate)@.permits == old(
            gate,
        )@.permits.push(permit),
        r is Err ==> final(gate)@.permits == old(gate)@.permits,
        r is Ok ==> match class {
            WorkClass::Planner => caps.planner_workers > 0,
            WorkClass::Hash => caps.allow_hashing && caps.hash_workers > 0,
            WorkClass::Upload => caps.allow_uploads && caps.upload_concurrency > 0,
            WorkClass::Download => caps.allow_downloads && caps.download_concurrency > 0,
            WorkClass::Reconcile => caps.allow_reconcile,
        },
        final(app).slowdown() == (if old(app).slowdown() is Some && (old(app).slowdown()->0).nanos
            > now.nanos {
            old(app).slowdown()
        } else {
            None
        }),
{
}

/// A decision of the throttle controller is in force once it is taken over: a
/// changed state brings the workgate to the caps of that state.
pub proof fn law_a_throttle_decision_is_taken_over(
    app: &mut DaemonApp,
    gate: &mut ThrottleWorkgate,
    decision: ThrottleDecision,
    now: SystemTime,
    caps: ThrottleCaps,
)
    requires
        call_ensures(DaemonApp::apply_throttle_decision, (app, gate, decision, now), ()),
        call_ensures(DaemonApp::throttle_caps, (final(app), now), caps),
    ensures
        final(app).status().throttle_state == decision.state,
        final(app).status().reason@ == decision.reason@,
        final(app).status().run_state == old(app).status().run_state,
        final(app).decision() == Some(decision),
        final(app).ceiling() == old(app).ceiling(),
        old(app).status().throttle_state != decision.state ==> final(gate)@.caps == caps
            && final(gate)@.state == decision.state,
        final(gate)@.permits == old(gate)@.permits,
{
}

/// A processor ceiling is in force once it is set.
pub proof fn law_a_ceiling_is_in_force_once_set(
    app: &mut DaemonApp,
    gate: &mut ThrottleWorkgate,
    ceiling: u8,
    now: SystemTime,
    caps: ThrottleCaps,
)
    requires
        call_ensures(DaemonApp::apply_resource_cpu_ceiling, (app, gate, ceiling, now), ()),
        call_ensures(DaemonApp::throttle_caps, (final(app), now), caps),
    ensures
        final(app).ceiling() == Some(ceiling),
        old(app).ceiling() != Some(ceiling) ==> final(gate)@.caps == caps,
        final(app).status() == old(app).status(),
        final(gate)@.permits == old(gate)@.permits,
{
}

/// A retry that was scheduled may slow the daemon down for longer, never for
/// less; one without a record is an error and changes nothing.
pub proof fn law_a_retry_never_ends_a_slowdown_early(
    app: &mut DaemonApp,
    gate: &mut ThrottleWorkgate,
    id: i64,
    scheduled: Option<Option<SystemTime>>,
    now: SystemTime,
    r: Result<(), String>,
)
    requires
        call_ensures(DaemonApp::schedule_retry, (app, gate, id, scheduled, now), r),
    ensures
        r is Err <==> scheduled is None,
        scheduled is None ==> final(app).slowdown() == old(app).slowdown() && final(gate)@ == old(gate)@,
        scheduled is Some ==> (old(app).slowdown() matches Some(t) ==> (t.nanos > now.nanos
            ==> final(app).slowdown() is Some && final(app).slowdown()->0.nanos >= t.nanos)),
        scheduled matches Some(Some(t)) ==> (t.nanos > now.nanos ==> final(app).slowdown() is Some
            && final(app).slowdown()->0.nanos >= t.nanos),
        final(app).slowdown() is Some && scheduled is Some ==> final(app).slowdown()->0.nanos
            > now.nanos && (final(app).slowdown() == old(app).slowdown() || Some(
            final(app).slowdown(),
        ) == scheduled),
        final(app).status() == old(app).status(),
        final(app).ceiling() == old(app).ceiling(),
{
}

/// A slowdown that is restored lasts as long as it was to last, and one that
/// is over is none.
pub proof fn law_a_slowdown_outlives_a_restart(
    app: &mut DaemonApp,
    gate: &mut ThrottleWorkgate,
    until: Option<SystemTime>,
    now: SystemTime,
    r: Option<SystemTime>,
)
    requires
        call_ensures(DaemonApp::restore_retry_slowdown, (app, gate, until, now), r),
    ensures
        until matches Some(t) ==> (t.nanos > now.nanos ==> r == until),
        until matches Some(t) ==> (t.nanos <= now.nanos ==> r is None),
        until is None ==> r is None,
        final(app).slowdown() == r,
        final(app).status() == old(app).status(),
{
}

/// A new state is in force at once, on the app and for the permits, with its
/// reason; the same one again changes nothing.
pub proof fn law_a_state_is_in_force_once_set(
    app: &mut DaemonApp,
    gate: &mut ThrottleWorkgate,
    state: ThrottleState,
    reason: String,
    now: SystemTime,
)
    requires
        call_ensures(DaemonApp::set_throttle_state, (app, gate, state, reason, now), ()),
    ensures
        final(app).status().throttle_state == state,
        final(app).status().reason@ == reason@,
        final(app).status().run_state == old(app).status().run_state,
        old(app).status().throttle_state != state ==> final(gate)@.state == state,
        final(gate)@.permits == old(gate)@.permits,
        old(app).status().throttle_state == state && old(app).status().reason@ == reason@
            ==> final(gate)@ == old(gate)@,
        final(app).reconciles() == old(app).reconciles(),
{
}

/// What is out stays out when the caps are set anew, and a slowdown that is
/// over ends there.
pub proof fn law_caps_are_set_anew_for_the_state(
    app: &mut DaemonApp,
    gate: &mut ThrottleWorkgate,
    now: SystemTime,
)
    requires
        call_ensures(DaemonApp::refresh_workgate_caps, (app, gate, now), ()),
    ensures
        final(gate)@.state == old(app).status().throttle_state,
        final(gate)@.permits == old(gate)@.permits,
        final(app).status() == old(app).status(),
        old(app).slowdown() matches Some(t) ==> (t.nanos > now.nanos ==> final(app).slowdown()
            == old(app).slowdown()),
        old(app).slowdown() matches Some(t) ==> (t.nanos <= now.nanos ==> final(app).slowdown()
            is None),
        old(app).slowdown() is None ==> final(app).slowdown() is None,
{
}

/// The run state and its reason are set together, and nothing else is.
pub proof fn law_a_run_state_brings_its_reason(app: &mut DaemonApp, state: RunState, reason: String)
    requires
        call_ensures(DaemonApp::set_run_state, (app, state, reason), ()),
    ensures
        final(app).status().run_state == state,
        final(app).status().reason == reason,
        final(app).status().throttle_state == old(app).status().throttle_state,
        final(app).slowdown() == old(app).slowdown(),
        final(app).ceiling() == old(app).ceiling(),
        final(app).reconciles() == old(app).reconciles(),
{
}

/// A reconcile starts only while the app is idle and none runs; one that got
/// no permit leaves none out.
pub proof fn law_the_app_reconciles_only_while_idle(
    app: &mut DaemonApp,
    scheduler: &mut KeyedSupersedingScheduler,
    gate: &mut ThrottleWorkgate,
    now: SystemTime,
    r: Result<Option<FsPath>, WorkPermitDenied>,
)
    requires
        call_ensures(DaemonApp::try_start_reconcile, (app, scheduler, gate, now), r),
    ensures
        r matches Ok(Some(root)) ==> old(app).status().throttle_state is IdleDrain && old(app).reconciles().current() is None && final(app).reconciles().current() is Some && (
        final(app).reconciles().current()->0).root == root@,
        old(app).status().throttle_state !is IdleDrain || old(app).reconciles().current() is Some
            ==> r is Ok && r->Ok_0 is None && final(scheduler)@ == old(scheduler)@ && final(gate)@ == old(gate)@ && final(app).reconciles().current() == old(app).reconciles().current(),
        r is Err ==> final(app).reconciles().current() is None && final(gate)@ == old(gate)@,
{
}

/// The app's reconcile gives way exactly when the app is no longer idle or its
/// slice is over, and what stops it leaves none running.
pub proof fn law_the_apps_reconcile_gives_way(
    app: &mut DaemonApp,
    scheduler: &mut KeyedSupersedingScheduler,
    gate: &mut ThrottleWorkgate,
    now: SystemTime,
    r: Option<ReconcilePause>,
)
    requires
        call_ensures(DaemonApp::checkpoint_reconcile, (app, scheduler, gate, now), r),
        old(app).reconciles().current() is Some,
    ensures
        ({
            let run = old(app).reconciles().current()->0;
            let over = now.nanos < run.slice_started_at.nanos || now.nanos
                >= run.slice_started_at.nanos + old(app).reconciles().budget().nanos;
            &&& r is Some <==> old(app).status().throttle_state !is IdleDrain || over
            &&& r is Some ==> final(app).reconciles().current() is None && !final(gate)@.held().contains(run.permit)
            &&& r is None ==> final(app).reconciles().current() is Some && final(scheduler)@
                == old(scheduler)@ && final(gate)@ == old(gate)@
        }),
{
}

/// A reconcile that is aborted gives its permit back, and none runs afterwards.
pub proof fn law_an_aborted_reconcile_frees_its_permit(
    aborted: &mut DaemonApp,
    s: &mut KeyedSupersedingScheduler,
    g: &mut ThrottleWorkgate,
    now: SystemTime,
    a: Option<FsPath>,
)
    requires
        call_ensures(DaemonApp::abort_reconcile, (aborted, s, g, now), a),
    ensures
        final(aborted).reconciles().current() is None,
        a is Some <==> old(aborted).reconciles().current() is Some,
        old(aborted).reconciles().current() matches Some(run) ==> a->0@ == run.root && !final(g)@.held().contains(run.permit),
        a is None ==> final(s)@ == old(s)@ && final(g)@ == old(g)@,
{
}

} // verus!
