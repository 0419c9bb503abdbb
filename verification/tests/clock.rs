use vapor_daemon::clock::{
    Clock, ClockSpan, Duration, Instant, ManualClock, SystemClock, SystemTime,
};

#[test]
fn manual_clock_returns_anchored_readings() {
    let start_instant = SystemClock::new().now();
    let start_system = SystemTime::unix_epoch().plus(Duration::from_secs(1_700_000_000));
    let clock = ManualClock::new(start_instant, start_system);

    assert_eq!(clock.now(), start_instant);
    assert_eq!(clock.now_system(), start_system);
}

#[test]
fn manual_clock_axes_advance_independently() {
    let mut clock = ManualClock::at_now();
    let baseline_instant = clock.now();
    let baseline_system = clock.now_system();

    clock.advance(Duration::from_secs(5));
    // Wall clock unchanged after monotonic-only advance.
    assert_eq!(clock.now_system(), baseline_system);
    assert_eq!(
        clock.now().saturating_duration_since(baseline_instant),
        Duration::from_secs(5)
    );

    clock.advance_system(Duration::from_secs(60));
    // Monotonic clock unchanged after wall-only advance.
    assert_eq!(
        clock.now().saturating_duration_since(baseline_instant),
        Duration::from_secs(5)
    );
    assert_eq!(
        clock
            .now_system()
            .duration_since(baseline_system)
            .expect("forward wall-clock advance"),
        Duration::from_secs(60),
    );
}

#[test]
fn manual_clock_supports_wall_clock_rewind_without_touching_monotonic_axis() {
    let mut clock = ManualClock::at_now();
    let monotonic_before = clock.now();

    clock.set_system(SystemTime::unix_epoch().plus(Duration::from_secs(1_700_000_000)));
    let monotonic_after = clock.now();

    assert_eq!(monotonic_before, monotonic_after);
}

#[test]
fn system_clock_produces_strictly_monotonic_instants() {
    let clock = SystemClock::new();
    let first = clock.now();
    let second = clock.now();
    assert!(second >= first);
}

#[test]
fn system_clock_reads_a_plausible_wall_time() {
    // 2020-01-01 in milliseconds.
    assert!(SystemClock::new().now_system().millis_since_epoch() > 1_577_836_800_000);
}

#[test]
fn elapsed_time_never_goes_below_zero() {
    let earlier = Instant { nanos: 5 };
    let later = Instant { nanos: 9 };
    assert_eq!(earlier.saturating_duration_since(later), Duration { nanos: 0 });
    assert_eq!(later.saturating_duration_since(earlier), Duration { nanos: 4 });
}

#[test]
fn times_before_the_epoch_count_as_zero_milliseconds() {
    let before = SystemTime { nanos: -5_000_000 };
    assert_eq!(before.millis_since_epoch(), 0);
    assert_eq!(
        SystemTime::unix_epoch().duration_since(before),
        Some(Duration::from_millis(5))
    );
    assert_eq!(before.duration_since(SystemTime::unix_epoch()), None);
    assert_eq!(SystemTime { nanos: 2_999_999 }.millis_since_epoch(), 2);
}

#[test]
fn a_wall_reading_counts_both_ways_from_the_epoch() {
    let span = ClockSpan { secs: 3, subsec_nanos: 5 };
    assert_eq!(SystemTime::from_reading(Ok(span)), SystemTime { nanos: 3_000_000_005 });
    assert_eq!(SystemTime::from_reading(Err(span)), SystemTime { nanos: -3_000_000_005 });
    let longest = ClockSpan { secs: u64::MAX, subsec_nanos: 999_999_999 };
    assert_eq!(
        SystemTime::from_reading(Err(longest)).nanos,
        -18_446_744_073_709_551_615_999_999_999
    );
}

#[test]
fn a_monotonic_reading_is_the_elapsed_span() {
    let span = ClockSpan { secs: 2, subsec_nanos: 7 };
    assert_eq!(Instant::after(span), Instant { nanos: 2_000_000_007 });
    let longest = ClockSpan { secs: u64::MAX, subsec_nanos: 999_999_999 };
    assert_eq!(Instant::after(longest).nanos, 18_446_744_073_709_551_615_999_999_999);
}
