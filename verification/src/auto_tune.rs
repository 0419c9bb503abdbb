//! Tunes the transfer step: at most one small change per cycle, and a change
//! that costs throughput is taken back.
use vstd::prelude::*;

use crate::clock::{Duration, Instant, NANOS_PER_SEC};

verus! {

/// Bytes one transfer step moves by default.
pub const TRANSFER_STAGE_STEP_BYTES: u64 = 4_194_304;

/// Least step, in percent of the default.
pub const AUTO_TUNE_MIN_STEP_PERCENT: u64 = 50;

/// Greatest step, in percent of the default.
pub const AUTO_TUNE_MAX_STEP_PERCENT: u64 = 200;

/// Seconds between two cycles.
pub const AUTO_TUNE_INTERVAL_SECONDS: u64 = 90;

/// Queue depth above which the step may grow.
pub const DEEP_QUEUE_THRESHOLD: u64 = 100;

/// What the last cycle did.
#[derive(Clone, Copy, Debug, PartialEq, Eq, Structural)]
pub enum LastChange {
    Unchanged,
    /// Changed the step from `previous_step` after a cycle that completed
    /// `completed_before` intents.
    Pending { previous_step: u64, completed_before: u64, increased: bool },
    /// Took a change back; the next cycle changes nothing.
    Cooldown,
}

pub open spec fn least_step() -> int {
    TRANSFER_STAGE_STEP_BYTES * AUTO_TUNE_MIN_STEP_PERCENT / 100
}

pub open spec fn greatest_step() -> int {
    TRANSFER_STAGE_STEP_BYTES * AUTO_TUNE_MAX_STEP_PERCENT / 100
}

/// `step` moved into the bounds.
pub open spec fn bounded(step: int) -> int {
    if step < least_step() {
        least_step()
    } else if step > greatest_step() {
        greatest_step()
    } else {
        step
    }
}

fn clamp_step(step: u128) -> (r: u64)
    ensures
        r == bounded(step as int),
{
    let least: u128 = (TRANSFER_STAGE_STEP_BYTES * AUTO_TUNE_MIN_STEP_PERCENT / 100) as u128;
    let greatest: u128 = (TRANSFER_STAGE_STEP_BYTES * AUTO_TUNE_MAX_STEP_PERCENT / 100) as u128;
    if step < least {
        least as u64
    } else if step > greatest {
        greatest as u64
    } else {
        step as u64
    }
}

/// Step and last change after a cycle that completed `completed` intents.
pub open spec fn tuned(
    step: u64,
    last: LastChange,
    completed: u64,
    rate_limited: bool,
    depth: u64,
) -> (int, LastChange) {
    match last {
        LastChange::Pending { previous_step, completed_before, increased: true } if completed
            < completed_before => (bounded(previous_step as int), LastChange::Cooldown),
        LastChange::Cooldown => (step as int, LastChange::Unchanged),
        _ => {
            let wanted = if rate_limited {
                bounded(step as int / 2)
            } else if depth > DEEP_QUEUE_THRESHOLD {
                bounded(step * 125 / 100)
            } else {
                step as int
            };
            if wanted == step {
                (step as int, LastChange::Unchanged)
            } else {
                (
                    wanted,
                    LastChange::Pending {
                        previous_step: step,
                        completed_before: completed,
                        increased: !rate_limited,
                    },
                )
            }
        },
    }
}

/// The step lies within its bounds, and a raise came from a smaller step.
pub open spec fn in_order(step: int, last: LastChange) -> bool {
    &&& least_step() <= step <= greatest_step()
    &&& last matches LastChange::Pending { previous_step, increased: true, .. } ==> least_step()
        <= previous_step < step
}

/// The step stays within half and twice the default once it is there.
pub proof fn law_step_stays_bounded(
    step: u64,
    last: LastChange,
    completed: u64,
    rate_limited: bool,
    depth: u64,
)
    requires
        in_order(step as int, last),
    ensures
        least_step() <= tuned(step, last, completed, rate_limited, depth).0 <= greatest_step(),
        in_order(
            tuned(step, last, completed, rate_limited, depth).0,
            tuned(step, last, completed, rate_limited, depth).1,
        ),
{
}

/// A cycle after a change that was taken back changes nothing.
pub proof fn law_cooldown_holds(
    step: u64,
    completed: u64,
    rate_limited: bool,
    depth: u64,
)
    ensures
        tuned(step, LastChange::Cooldown, completed, rate_limited, depth).0 == step,
{
}

/// A raise after which fewer intents complete is taken back: the step is what
/// it was before, and the next cycle changes nothing.
pub proof fn law_a_costly_raise_is_taken_back(
    step: u64,
    raised: u64,
    completed_before: u64,
    completed_after: u64,
    depth_before: u64,
    rate_limited: bool,
    depth_after: u64,
)
    requires
        least_step() <= step <= greatest_step(),
        depth_before > DEEP_QUEUE_THRESHOLD,
        tuned(step, LastChange::Unchanged, completed_before, false, depth_before).0 == raised,
        raised != step,
        completed_after < completed_before,
    ensures
        tuned(
            raised,
            tuned(step, LastChange::Unchanged, completed_before, false, depth_before).1,
            completed_after,
            rate_limited,
            depth_after,
        ) == (step as int, LastChange::Cooldown),
{
}

/// While a rate limit is in force the step never grows from within its bounds.
pub proof fn law_rate_limits_never_grow_the_step(
    step: u64,
    last: LastChange,
    completed: u64,
    depth: u64,
)
    requires
        in_order(step as int, last),
    ensures
        tuned(step, last, completed, true, depth).0 <= step,
{
}

/// Tunes the bytes of one transfer step to the throughput seen.
#[derive(Debug)]
pub struct AutoTuner {
    step_bytes: u64,
    interval: Duration,
    last_cycle: Option<Instant>,
    last_change: LastChange,
    /// Intents completed since the last cycle.
    completed_in_window: u64,
}

impl AutoTuner {
    pub closed spec fn step(&self) -> u64 {
        self.step_bytes
    }

    pub closed spec fn cycle(&self) -> Duration {
        self.interval
    }

    pub closed spec fn last_cycle_at(&self) -> Option<Instant> {
        self.last_cycle
    }

    pub closed spec fn change(&self) -> LastChange {
        self.last_change
    }

    pub closed spec fn completed(&self) -> u64 {
        self.completed_in_window
    }

    /// A tuner with the usual interval.
    pub fn new(step_bytes: u64) -> (r: AutoTuner)
        ensures
            r.step() == step_bytes,
            r.cycle().nanos == AUTO_TUNE_INTERVAL_SECONDS * NANOS_PER_SEC,
            r.last_cycle_at() is None,
            r.change() == LastChange::Unchanged,
            r.completed() == 0,
    {
        AutoTuner::with_interval(step_bytes, Duration::from_secs(AUTO_TUNE_INTERVAL_SECONDS))
    }

    /// A tuner that evaluates every `interval`.
    pub fn with_interval(step_bytes: u64, interval: Duration) -> (r: AutoTuner)
        ensures
            r.step() == step_bytes,
            r.cycle() == interval,
            r.last_cycle_at() is None,
            r.change() == LastChange::Unchanged,
            r.completed() == 0,
    {
        AutoTuner {
            step_bytes,
            interval,
            last_cycle: None,
            last_change: LastChange::Unchanged,
            completed_in_window: 0,
        }
    }

    /// The step in force.
    pub fn step_bytes(&self) -> (r: u64)
        ensures
            r == self.step(),
    {
        self.step_bytes
    }

    /// Whether the next [`AutoTuner::evaluate`] runs a cycle.
    pub fn cycle_due(&self, now: Instant) -> (r: bool)
        ensures
            r == due(self.last_cycle_at(), now, self.cycle()),
    {
        match self.last_cycle {
            Some(last) => now.saturating_duration_since(last).nanos >= self.interval.nanos,
            None => true,
        }
    }

    /// Adds completed intents to the current window.
    pub fn record_completions(&mut self, completed: u64)
        ensures
            final(self).completed() == if old(self).completed() + completed > u64::MAX {
                u64::MAX
            } else {
                (old(self).completed() + completed) as u64
            },
            final(self).step() == old(self).step(),
            final(self).cycle() == old(self).cycle(),
            final(self).last_cycle_at() == old(self).last_cycle_at(),
            final(self).change() == old(self).change(),
    {
        self.completed_in_window = if completed > u64::MAX - self.completed_in_window {
            u64::MAX
        } else {
            self.completed_in_window + completed
        };
    }

    /// Runs a cycle, if one is due.
    pub fn evaluate(&mut self, rate_limited: bool, total_queue_depth: u64, now: Instant)
        ensures
            final(self).cycle() == old(self).cycle(),
            if due(old(self).last_cycle_at(), now, old(self).cycle()) {
                &&& (final(self).step() as int, final(self).change()) == tuned(
                    old(self).step(),
                    old(self).change(),
                    old(self).completed(),
                    rate_limited,
                    total_queue_depth,
                )
                &&& final(self).last_cycle_at() == Some(now)
                &&& final(self).completed() == 0
            } else {
                *final(self) == *old(self)
            },
    {
        if !self.cycle_due(now) {
            return;
        }
        self.last_cycle = Some(now);
        let completed: u64 = self.completed_in_window;
        self.completed_in_window = 0;
        let current: u64 = self.step_bytes;
        match self.last_change {
            LastChange::Pending { previous_step, completed_before, increased } => {
                if increased && completed < completed_before {
                    self.step_bytes = clamp_step(previous_step as u128);
                    self.last_change = LastChange::Cooldown;
                    return;
                }
            },
            LastChange::Cooldown => {
                self.last_change = LastChange::Unchanged;
                return;
            },
            LastChange::Unchanged => {},
        }
        self.last_change = LastChange::Unchanged;
        let wanted: u64 = if rate_limited {
            clamp_step((current / 2) as u128)
        } else if total_queue_depth > DEEP_QUEUE_THRESHOLD {
            clamp_step(current as u128 * 125 / 100)
        } else {
            current
        };
        if wanted != current {
            self.step_bytes = wanted;
            self.last_change = LastChange::Pending {
                previous_step: current,
                completed_before: completed,
                increased: !rate_limited,
            };
        }
    }
}

pub open spec fn due(last: Option<Instant>, now: Instant, interval: Duration) -> bool {
    match last {
        Some(last) => interval.nanos == 0 || now.nanos - last.nanos >= interval.nanos,
        None => true,
    }
}

// ---------------------------------------------------------------------------
// What the tuner is for
// ---------------------------------------------------------------------------

/// A due cycle halves the step under a rate limit and raises it by a quarter
/// over a deep queue, within two and eight mebibytes; a raise after which
/// fewer intents complete is taken back, and the cycle behind that rests.
pub proof fn law_a_cycle_tunes_the_step(
    tuner: &mut AutoTuner,
    rate_limited: bool,
    depth: u64,
    now: Instant,
)
    requires
        call_ensures(AutoTuner::evaluate, (tuner, rate_limited, depth, now), ()),
        2_097_152 <= old(tuner).step() <= 8_388_608,
        old(tuner).change() matches LastChange::Pending { previous_step, .. } ==> 2_097_152
            <= previous_step <= 8_388_608,
    ensures
        ({
            let (before, after) = (*old(tuner), *final(tuner));
            let over = before.last_cycle_at() is None || now.nanos
                >= before.last_cycle_at()->0.nanos + before.cycle().nanos
                || before.cycle().nanos == 0;
            let regretted = before.change() matches LastChange::Pending {
                completed_before,
                increased: true,
                ..
            } && before.completed() < completed_before;
            &&& !over ==> after == before
            &&& over ==> after.last_cycle_at() == Some(now) && after.completed() == 0
            &&& 2_097_152 <= after.step() <= 8_388_608
            &&& over && regretted ==> after.step() == before.change()->previous_step
                && after.change() is Cooldown
            &&& over && before.change() is Cooldown ==> after.step() == before.step()
                && after.change() is Unchanged
            &&& over && !regretted && !(before.change() is Cooldown) && rate_limited
                ==> after.step() == if before.step() / 2 < 2_097_152 {
                2_097_152
            } else {
                before.step() / 2
            }
            &&& over && !regretted && !(before.change() is Cooldown) && !rate_limited && depth > 100
                ==> after.step() == if before.step() + before.step() / 4 > 8_388_608 {
                8_388_608int
            } else {
                before.step() + before.step() / 4
            }
            &&& over && !regretted && !(before.change() is Cooldown) && !rate_limited && depth
                <= 100 ==> after.step() == before.step()
            &&& over && !regretted && !(before.change() is Cooldown) && after.step()
                != before.step() ==> after.change() == (LastChange::Pending {
                previous_step: before.step(),
                completed_before: before.completed(),
                increased: after.step() > before.step(),
            })
        }),
{
    let s = old(tuner).step() as int;
    assert(s * 125 / 100 == s + s / 4);
}

/// A cycle takes a minute and a half, and counts what completes in it.
pub proof fn law_a_cycle_takes_ninety_seconds(step: u64, r: AutoTuner, tuner: &mut AutoTuner, n: u64)
    requires
        call_ensures(AutoTuner::new, (step,), r),
        call_ensures(AutoTuner::record_completions, (tuner, n), ()),
    ensures
        r.step() == step,
        r.cycle().nanos == 90_000_000_000,
        r.last_cycle_at() is None,
        r.completed() == 0,
        old(tuner).completed() + n <= u64::MAX ==> final(tuner).completed() == old(tuner).completed() + n,
        old(tuner).completed() + n > u64::MAX ==> final(tuner).completed() == u64::MAX,
        final(tuner).step() == old(tuner).step(),
{
}

} // verus!
