use vapor_daemon::auto_tune::{AutoTuner, TRANSFER_STAGE_STEP_BYTES};
use vapor_daemon::clock::{Duration, Instant};

fn tuner() -> AutoTuner {
    AutoTuner::with_interval(TRANSFER_STAGE_STEP_BYTES, Duration::from_secs(90))
}

fn start() -> Instant {
    Instant { nanos: 7_000_000_000 }
}

fn after(seconds: u64) -> Instant {
    start().plus(Duration::from_secs(seconds))
}

#[test]
fn rate_limiting_halves_the_step_down_to_the_floor() {
    let mut tuner = tuner();
    let base = TRANSFER_STAGE_STEP_BYTES;

    tuner.evaluate(true, 0, start());
    assert_eq!(tuner.step_bytes(), base / 2);

    // Next cycle still rate-limited: clamped at the 50% floor.
    tuner.evaluate(true, 0, after(91));
    assert_eq!(tuner.step_bytes(), base / 2, "floor holds");
}

#[test]
fn deep_queue_grows_the_step_by_one_increment_per_cycle() {
    let mut tuner = tuner();
    let base = TRANSFER_STAGE_STEP_BYTES;

    tuner.evaluate(false, 500, start());
    assert_eq!(tuner.step_bytes(), base * 125 / 100);

    // Within the same cadence window nothing changes.
    tuner.evaluate(false, 500, after(10));
    assert_eq!(tuner.step_bytes(), base * 125 / 100);
}

#[test]
fn throughput_regression_after_an_increase_rolls_back_and_cools_down() {
    let mut tuner = tuner();
    let base = TRANSFER_STAGE_STEP_BYTES;

    tuner.record_completions(100);
    tuner.evaluate(false, 500, start());
    let raised = tuner.step_bytes();
    assert!(raised > base);

    // Fewer intents completed after the increase: rollback.
    tuner.record_completions(40);
    tuner.evaluate(false, 900, after(91));
    assert!(tuner.step_bytes() < raised, "rolled back");

    // Cooldown cycle: even a deep queue does not retrigger a change.
    let after_rollback = tuner.step_bytes();
    tuner.evaluate(false, 2_000, after(182));
    assert_eq!(tuner.step_bytes(), after_rollback, "cooldown");

    // After the cooldown, tuning resumes.
    tuner.evaluate(false, 2_000, after(273));
    assert!(tuner.step_bytes() > after_rollback);
}

#[test]
fn improvement_after_an_increase_keeps_the_change() {
    let mut tuner = tuner();
    tuner.record_completions(100);
    tuner.evaluate(false, 500, start());
    let raised = tuner.step_bytes();

    // Throughput held up: the change sticks and can grow again.
    tuner.record_completions(150);
    tuner.evaluate(false, 200, after(91));
    assert!(tuner.step_bytes() >= raised);
}

#[test]
fn increase_sticks_when_ingest_outpaces_drain_but_throughput_improved() {
    let mut tuner = tuner();

    tuner.record_completions(100);
    tuner.evaluate(false, 5_000, start());
    let raised = tuner.step_bytes();

    tuner.record_completions(160);
    tuner.evaluate(false, 9_000, after(91));
    assert!(
        tuner.step_bytes() >= raised,
        "a deeper queue with better throughput must not roll back"
    );
}

#[test]
fn the_step_is_bounded_at_both_ends() {
    let mut tuner = tuner();
    let base = TRANSFER_STAGE_STEP_BYTES;
    let mut at = start();
    for _ in 0..10 {
        at = at.plus(Duration::from_secs(91));
        tuner.evaluate(false, 10_000, at);
    }
    assert!(tuner.step_bytes() <= base * 2, "200% ceiling");
    for _ in 0..10 {
        at = at.plus(Duration::from_secs(91));
        tuner.evaluate(true, 10_000, at);
    }
    assert!(tuner.step_bytes() >= base / 2, "50% floor");
}

#[test]
fn a_quiet_queue_changes_nothing() {
    let mut tuner = AutoTuner::new(TRANSFER_STAGE_STEP_BYTES);
    tuner.evaluate(false, 3, start());
    assert_eq!(tuner.step_bytes(), TRANSFER_STAGE_STEP_BYTES);
}

#[test]
fn a_raise_cut_at_the_ceiling_is_taken_back_in_full() {
    let before = 2 * TRANSFER_STAGE_STEP_BYTES - 4;
    let mut tuner = AutoTuner::with_interval(before, Duration::from_secs(90));
    tuner.record_completions(100);
    tuner.evaluate(false, 500, start());
    assert_eq!(tuner.step_bytes(), 2 * TRANSFER_STAGE_STEP_BYTES);
    tuner.record_completions(40);
    tuner.evaluate(false, 500, after(90));
    assert_eq!(tuner.step_bytes(), before);
    tuner.evaluate(false, 500, after(180));
    assert_eq!(tuner.step_bytes(), before, "the cycle after a rollback holds");
}
