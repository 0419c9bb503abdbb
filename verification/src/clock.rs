//! Injectable clock for the daemon runtime.
//!
//! The tick path measures *elapsed* time for cadence, slice budgets and stage
//! timing on the monotonic axis ([`Instant`]), which a wall-clock correction
//! cannot move. [`SystemTime`] is kept for what crosses processes: queue rows
//! and retry markers. [`Clock`] offers both axes behind one seam: production
//! uses [`SystemClock`], tests drive a [`ManualClock`].
use vstd::prelude::*;

verus! {

/// Nanoseconds in one millisecond.
pub const NANOS_PER_MILLI: u128 = 1_000_000;

/// Nanoseconds in one second.
pub const NANOS_PER_SEC: u128 = 1_000_000_000;

/// Largest distance from the epoch, in nanoseconds, that a time may have.
pub const MAX_TIME_NANOS: i128 = 9_223_372_036_854_775_807_000_000_000;

/// A span of time.
#[derive(Clone, Copy, Debug, PartialEq, Eq, PartialOrd, Ord, Structural)]
pub struct Duration {
    pub nanos: u128,
}

/// A span as the system's clocks give it: whole seconds and the nanoseconds
/// beyond them.
#[derive(Clone, Copy, Debug, PartialEq, Eq, Structural)]
pub struct ClockSpan {
    pub secs: u64,
    pub subsec_nanos: u32,
}

impl ClockSpan {
    /// The span in nanoseconds.
    pub open spec fn total(self) -> int {
        self.secs * NANOS_PER_SEC + self.subsec_nanos
    }

    /// The span in nanoseconds.
    pub fn as_nanos(&self) -> (r: u128)
        ensures
            r == self.total(),
    {
        self.secs as u128 * NANOS_PER_SEC + self.subsec_nanos as u128
    }
}

/// A reading of a monotonic clock.
#[derive(Clone, Copy, Debug, PartialEq, Eq, PartialOrd, Ord, Structural)]
pub struct Instant {
    pub nanos: u128,
}

/// A wall-clock reading, counted from the Unix epoch.
#[derive(Clone, Copy, Debug, PartialEq, Eq, PartialOrd, Ord, Structural)]
pub struct SystemTime {
    pub nanos: i128,
}

impl Duration {
    pub fn from_millis(millis: u64) -> (r: Duration)
        ensures
            r.nanos == millis * NANOS_PER_MILLI,
    {
        Duration { nanos: millis as u128 * NANOS_PER_MILLI }
    }

    pub fn from_secs(secs: u64) -> (r: Duration)
        ensures
            r.nanos == secs * NANOS_PER_SEC,
    {
        Duration { nanos: secs as u128 * NANOS_PER_SEC }
    }

    /// Whole milliseconds in this span.
    pub fn as_millis(&self) -> (r: u128)
        ensures
            r == self.nanos as int / NANOS_PER_MILLI as int,
    {
        self.nanos / NANOS_PER_MILLI
    }
}

impl Instant {
    /// The reading of a clock that has run for `elapsed`.
    pub fn after(elapsed: ClockSpan) -> (r: Instant)
        ensures
            r.nanos == elapsed.total(),
    {
        Instant { nanos: elapsed.as_nanos() }
    }

    /// Time from `earlier` to this reading; zero when `earlier` is later.
    pub fn saturating_duration_since(&self, earlier: Instant) -> (r: Duration)
        ensures
            r.nanos == if self.nanos >= earlier.nanos {
                self.nanos - earlier.nanos
            } else {
                0
            },
    {
        if self.nanos >= earlier.nanos {
            Duration { nanos: self.nanos - earlier.nanos }
        } else {
            Duration { nanos: 0 }
        }
    }

    /// This reading moved forward by `delta`.
    pub fn plus(&self, delta: Duration) -> (r: Instant)
        requires
            self.nanos + delta.nanos <= u128::MAX,
        ensures
            r.nanos == self.nanos + delta.nanos,
    {
        Instant { nanos: self.nanos + delta.nanos }
    }
}

impl SystemTime {
    /// The Unix epoch.
    pub fn unix_epoch() -> (r: SystemTime)
        ensures
            r.nanos == 0,
    {
        SystemTime { nanos: 0 }
    }

    /// The time a wall clock shows that stands as far after the Unix epoch as
    /// `shown` says or, as an error, as far before it.
    pub fn from_reading(shown: Result<ClockSpan, ClockSpan>) -> (r: SystemTime)
        ensures
            r.nanos == nanos_shown(shown),
    {
        match shown {
            Ok(after) => SystemTime { nanos: after.as_nanos() as i128 },
            Err(before) => SystemTime { nanos: -(before.as_nanos() as i128) },
        }
    }

    /// Whether `self` moved forward by `delta` is a representable time.
    pub open spec fn can_add(self, delta: Duration) -> bool {
        delta.nanos <= i128::MAX && self.nanos + delta.nanos <= MAX_TIME_NANOS
    }

    /// This time moved forward by `delta`.
    pub fn plus(&self, delta: Duration) -> (r: SystemTime)
        requires
            self.can_add(delta),
        ensures
            r.nanos == self.nanos + delta.nanos,
    {
        SystemTime { nanos: self.nanos + delta.nanos as i128 }
    }

    /// Time from `earlier` to `self`; `None` when `earlier` is later.
    pub fn duration_since(&self, earlier: SystemTime) -> (r: Option<Duration>)
        ensures
            match r {
                Some(d) => self.nanos >= earlier.nanos && d.nanos == self.nanos - earlier.nanos,
                None => self.nanos < earlier.nanos,
            },
    {
        if self.nanos < earlier.nanos {
            return None;
        }
        if earlier.nanos < 0 && self.nanos >= 0 {
            let before: u128 = (-(earlier.nanos + 1)) as u128 + 1;
            Some(Duration { nanos: self.nanos as u128 + before })
        } else {
            Some(Duration { nanos: (self.nanos - earlier.nanos) as u128 })
        }
    }

    /// Whole milliseconds since the epoch; zero before it.
    pub fn millis_since_epoch(&self) -> (r: u128)
        ensures
            r == millis_since_epoch_spec(*self),
    {
        if self.nanos < 0 {
            0
        } else {
            self.nanos as u128 / NANOS_PER_MILLI
        }
    }

    /// The later of two times.
    pub fn later(self, other: SystemTime) -> (r: SystemTime)
        ensures
            r == later_time(self, other),
    {
        if other.nanos >= self.nanos {
            other
        } else {
            self
        }
    }
}

/// Nanoseconds from the Unix epoch to the time a wall clock shows, negative
/// before it.
pub open spec fn nanos_shown(shown: Result<ClockSpan, ClockSpan>) -> int {
    match shown {
        Ok(after) => after.total(),
        Err(before) => -before.total(),
    }
}

/// A monotonic reading that some elapsed span gives.
pub open spec fn is_elapsed(reading: Instant) -> bool {
    exists|elapsed: ClockSpan| reading.nanos == #[trigger] elapsed.total()
}

/// A wall-clock reading that some distance from the Unix epoch gives.
pub open spec fn is_shown(reading: SystemTime) -> bool {
    exists|shown: Result<ClockSpan, ClockSpan>| reading.nanos == #[trigger] nanos_shown(shown)
}

pub open spec fn millis_since_epoch_spec(t: SystemTime) -> int {
    if t.nanos < 0 {
        0
    } else {
        t.nanos as int / NANOS_PER_MILLI as int
    }
}

/// The later of two times.
pub open spec fn later_time(a: SystemTime, b: SystemTime) -> SystemTime {
    if b.nanos >= a.nanos {
        b
    } else {
        a
    }
}

/// Source of monotonic and wall-clock time.
pub trait Clock {
    /// Whether `reading` is a possible answer of [`Clock::now`].
    spec fn may_read(&self, reading: Instant) -> bool;

    /// Whether `reading` is a possible answer of [`Clock::now_system`].
    spec fn may_read_system(&self, reading: SystemTime) -> bool;

    /// Monotonic reading, for elapsed-time decisions.
    fn now(&self) -> (r: Instant)
        ensures
            self.may_read(r),
    ;

    /// Wall-clock reading, for durable timestamps.
    fn now_system(&self) -> (r: SystemTime)
        ensures
            self.may_read_system(r),
    ;
}

/// The standard library's monotonic instant, carried as an opaque anchor.
#[verifier::external_type_specification]
#[verifier::external_body]
pub struct ExStdInstant(std::time::Instant);

/// Calls `std::time::Instant::now`. Nothing is claimed of the reading.
#[verifier::external_body]
fn std_instant_now() -> (r: std::time::Instant) {
    std::time::Instant::now()
}

/// Calls `std::time::Instant::elapsed` and gives the span's whole seconds and
/// the nanoseconds beyond them. Nothing is claimed of the reading.
#[verifier::external_body]
fn std_instant_elapsed(anchor: &std::time::Instant) -> (r: ClockSpan) {
    let elapsed = anchor.elapsed();
    ClockSpan { secs: elapsed.as_secs(), subsec_nanos: elapsed.subsec_nanos() }
}

/// Calls `std::time::SystemTime::now` and gives the span since the Unix epoch
/// or, as an error, the one until it, as whole seconds and the nanoseconds
/// beyond them. Nothing is claimed of the reading.
#[verifier::external_body]
fn std_system_now() -> (r: Result<ClockSpan, ClockSpan>) {
    match std::time::SystemTime::now().duration_since(std::time::UNIX_EPOCH) {
        Ok(after) => Ok(ClockSpan { secs: after.as_secs(), subsec_nanos: after.subsec_nanos() }),
        Err(early) => {
            let before = early.duration();
            Err(ClockSpan { secs: before.as_secs(), subsec_nanos: before.subsec_nanos() })
        },
    }
}

/// Production clock. Monotonic readings count from the clock's creation, so
/// readings of one clock compare with each other.
#[derive(Clone, Copy, Debug)]
pub struct SystemClock {
    anchor: std::time::Instant,
}

impl SystemClock {
    pub fn new() -> (r: SystemClock) {
        SystemClock { anchor: std_instant_now() }
    }
}

impl Clock for SystemClock {
    open spec fn may_read(&self, reading: Instant) -> bool {
        is_elapsed(reading)
    }

    open spec fn may_read_system(&self, reading: SystemTime) -> bool {
        is_shown(reading)
    }

    fn now(&self) -> (r: Instant) {
        let elapsed = std_instant_elapsed(&self.anchor);
        let r = Instant::after(elapsed);
        assert(r.nanos == elapsed.total());
        r
    }

    fn now_system(&self) -> (r: SystemTime) {
        let shown = std_system_now();
        let r = SystemTime::from_reading(shown);
        assert(r.nanos == nanos_shown(shown));
        r
    }
}

/// Clock whose two axes move only when told to, each on its own.
#[derive(Clone, Copy, Debug)]
pub struct ManualClock {
    instant: Instant,
    system: SystemTime,
}

impl ManualClock {
    pub closed spec fn instant(&self) -> Instant {
        self.instant
    }

    pub closed spec fn system(&self) -> SystemTime {
        self.system
    }

    pub fn new(start_instant: Instant, start_system: SystemTime) -> (r: ManualClock)
        ensures
            r.instant() == start_instant,
            r.system() == start_system,
    {
        ManualClock { instant: start_instant, system: start_system }
    }

    /// Anchors both axes at the current process time.
    pub fn at_now() -> (r: ManualClock)
        ensures
            is_elapsed(r.instant()),
            is_shown(r.system()),
    {
        let clock = SystemClock::new();
        ManualClock::new(clock.now(), clock.now_system())
    }

    /// Moves the monotonic axis forward; the wall clock stays.
    pub fn advance(&mut self, delta: Duration)
        requires
            old(self).instant().nanos + delta.nanos <= u128::MAX,
        ensures
            final(self).instant().nanos == old(self).instant().nanos + delta.nanos,
            final(self).system() == old(self).system(),
    {
        self.instant = self.instant.plus(delta);
    }

    /// Moves the wall clock forward; the monotonic axis stays.
    pub fn advance_system(&mut self, delta: Duration)
        requires
            old(self).system().can_add(delta),
        ensures
            final(self).system().nanos == old(self).system().nanos + delta.nanos,
            final(self).instant() == old(self).instant(),
    {
        self.system = self.system.plus(delta);
    }

    /// Replaces the wall-clock reading; the monotonic axis stays.
    pub fn set_system(&mut self, system: SystemTime)
        ensures
            final(self).system() == system,
            final(self).instant() == old(self).instant(),
    {
        self.system = system;
    }
}

impl Clock for ManualClock {
    open spec fn may_read(&self, reading: Instant) -> bool {
        reading == self.instant()
    }

    open spec fn may_read_system(&self, reading: SystemTime) -> bool {
        reading == self.system()
    }

    fn now(&self) -> (r: Instant) {
        self.instant
    }

    fn now_system(&self) -> (r: SystemTime) {
        self.system
    }
}

/// A production clock.
pub fn system_clock() -> (r: SystemClock) {
    SystemClock::new()
}

/// A second has a thousand milliseconds, and a span in milliseconds is cut off
/// to whole ones.
pub proof fn law_spans_are_in_proportion(
    n: u64,
    secs: Duration,
    millis: Duration,
    span: Duration,
    whole: u128,
)
    requires
        call_ensures(Duration::from_secs, (n,), secs),
        call_ensures(Duration::from_millis, (n,), millis),
        call_ensures(Duration::as_millis, (&span,), whole),
    ensures
        secs.nanos == 1000 * millis.nanos,
        millis.nanos == n * 1_000_000,
        whole * 1_000_000 <= span.nanos < (whole + 1) * 1_000_000,
{
}

/// Adding a span and asking how long ago it was gives the span back; no time
/// is negative, and a clock set back shows none.
pub proof fn law_a_span_added_is_the_span_since(
    start: Instant,
    span: Duration,
    end: Instant,
    since: Duration,
    back: Duration,
    day: SystemTime,
    later: SystemTime,
    passed: Option<Duration>,
    reversed: Option<Duration>,
    max: SystemTime,
)
    requires
        call_ensures(Instant::plus, (&start, span), end),
        call_ensures(Instant::saturating_duration_since, (&end, start), since),
        call_ensures(Instant::saturating_duration_since, (&start, end), back),
        call_ensures(SystemTime::plus, (&day, span), later),
        call_ensures(SystemTime::duration_since, (&later, day), passed),
        call_ensures(SystemTime::duration_since, (&day, later), reversed),
        call_ensures(SystemTime::later, (day, later), max),
    ensures
        since.nanos == span.nanos,
        back.nanos == 0,
        passed is Some && passed->0.nanos == span.nanos,
        span.nanos > 0 ==> reversed is None,
        max == later,
{
}

/// A time before the epoch counts as the epoch in milliseconds.
pub proof fn law_milliseconds_count_from_the_epoch(t: SystemTime, r: u128)
    requires
        call_ensures(SystemTime::millis_since_epoch, (&t,), r),
    ensures
        t.nanos < 0 ==> r == 0,
        t.nanos >= 0 ==> r * 1_000_000 <= t.nanos < (r + 1) * 1_000_000,
{
}

} // verus!
