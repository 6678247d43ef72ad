use observer::clock::cap_millis;
use observer::load_tracker::LoadTracker;
use observer::settings::LOAD_UNITS_PER_PERCENT;

fn units(percent: f32) -> u64 {
    (percent * LOAD_UNITS_PER_PERCENT as f32) as u64
}

fn percent(units: u64) -> f32 {
    units as f32 / LOAD_UNITS_PER_PERCENT as f32
}

#[test]
fn test_load_tracker_average() {
    let mut tracker = LoadTracker::new(30 * 1000);
    tracker.add_measurement(units(50.0));
    tracker.add_measurement(units(100.0));
    assert_eq!(percent(tracker.get_average()), 75.0);
}

#[test]
fn test_window_pruning() {
    let window = 2 * 1000;
    let mut tracker = LoadTracker::new(window);
    let t0 = tracker.now_ms();

    tracker.add_measurement_at(units(50.0), t0);

    tracker.add_measurement_at(units(100.0), t0 + 3 * 1000);

    assert_eq!(tracker.len(), 1);
    assert_eq!(percent(tracker.get_average()), 100.0);
}

#[test]
fn average_of_two_samples_one_second_apart() {
    let mut tracker = LoadTracker::new(30_000);
    tracker.add_measurement_at(50_000, 10);
    tracker.add_measurement_at(100_000, 1_010);
    assert_eq!(tracker.len(), 2);
    assert_eq!(tracker.get_average(), 75_000);
}

#[test]
fn average_of_no_samples_is_zero() {
    let tracker = LoadTracker::new(30_000);
    assert_eq!(tracker.len(), 0);
    assert_eq!(tracker.get_average(), 0);
}

#[test]
fn average_rounds_down() {
    let mut tracker = LoadTracker::new(1_000);
    tracker.add_measurement_at(1, 0);
    tracker.add_measurement_at(2, 0);
    assert_eq!(tracker.get_average(), 1);
    tracker.add_measurement_at(4, 0);
    assert_eq!(tracker.get_average(), 2);
}

#[test]
fn average_of_largest_loads_does_not_overflow() {
    let mut tracker = LoadTracker::new(1_000);
    tracker.add_measurement_at(u64::MAX, 0);
    tracker.add_measurement_at(u64::MAX, 1);
    tracker.add_measurement_at(u64::MAX - 3, 2);
    assert_eq!(tracker.get_average(), u64::MAX - 1);
}

#[test]
fn sample_at_the_edge_of_the_window_stays() {
    let mut tracker = LoadTracker::new(2_000);
    tracker.add_measurement_at(10, 1_000);
    tracker.add_measurement_at(20, 3_000);
    assert_eq!(tracker.len(), 2);
    tracker.add_measurement_at(30, 3_001);
    assert_eq!(tracker.len(), 2);
    assert_eq!(tracker.get_average(), 25);
}

#[test]
fn several_stale_samples_leave_at_once() {
    let mut tracker = LoadTracker::new(100);
    for step in 0..10u64 {
        tracker.add_measurement_at(step, step * 10);
    }
    assert_eq!(tracker.len(), 10);
    tracker.add_measurement_at(1_000, 10_000);
    assert_eq!(tracker.len(), 1);
    assert_eq!(tracker.get_average(), 1_000);
}

#[test]
fn average_is_mean_of_samples_within_window_of_newest() {
    let window = 50u64;
    let calls: [(u64, u64); 8] =
        [(7, 0), (9, 10), (100, 40), (3, 55), (8, 70), (1, 120), (12, 121), (5, 170)];
    let mut tracker = LoadTracker::new(window);
    for upto in 0..calls.len() {
        let (load, now) = calls[upto];
        tracker.add_measurement_at(load, now);
        let recent: Vec<u64> = calls[..=upto]
            .iter()
            .filter(|(_, at)| at + window >= now)
            .map(|(load, _)| *load)
            .collect();
        let mean = recent.iter().sum::<u64>() / recent.len() as u64;
        assert_eq!(tracker.len(), recent.len());
        assert_eq!(tracker.get_average(), mean);
    }
}

#[test]
fn reading_before_the_newest_sample_takes_its_time() {
    let mut tracker = LoadTracker::new(100);
    tracker.add_measurement_at(10, 1_000);
    tracker.add_measurement_at(30, 500);
    assert_eq!(tracker.len(), 2);
    assert_eq!(tracker.get_average(), 20);
    tracker.add_measurement_at(50, 1_101);
    assert_eq!(tracker.len(), 1);
}

#[test]
fn zero_window_keeps_only_samples_of_the_same_time() {
    let mut tracker = LoadTracker::new(0);
    tracker.add_measurement_at(10, 5);
    tracker.add_measurement_at(20, 5);
    assert_eq!(tracker.len(), 2);
    tracker.add_measurement_at(40, 6);
    assert_eq!(tracker.len(), 1);
    assert_eq!(tracker.get_average(), 40);
}

#[test]
fn window_near_the_end_of_time_keeps_everything() {
    let mut tracker = LoadTracker::new(u64::MAX);
    tracker.add_measurement_at(10, 0);
    tracker.add_measurement_at(20, u64::MAX);
    assert_eq!(tracker.len(), 2);
}

#[test]
fn time_since_last_change_starts_at_construction() {
    let tracker = LoadTracker::new(1_000);
    assert_eq!(tracker.last_change(), 0);
    assert_eq!(tracker.time_since_last_change_at(0), 0);
    assert_eq!(tracker.time_since_last_change_at(2_500), 2_500);
}

#[test]
fn time_since_last_change_does_not_go_down() {
    let mut tracker = LoadTracker::new(1_000);
    tracker.record_change_at(400);
    let mut last = 0;
    for now in [0u64, 399, 400, 401, 900, 5_000, u64::MAX] {
        let elapsed = tracker.time_since_last_change_at(now);
        assert!(elapsed >= last);
        last = elapsed;
    }
    assert_eq!(tracker.time_since_last_change_at(399), 0);
    assert_eq!(tracker.time_since_last_change_at(900), 500);
}

#[test]
fn record_change_resets_the_elapsed_time() {
    let mut tracker = LoadTracker::new(1_000);
    tracker.add_measurement_at(5, 100);
    assert_eq!(tracker.time_since_last_change_at(700), 700);
    tracker.record_change_at(700);
    assert_eq!(tracker.last_change(), 700);
    assert_eq!(tracker.time_since_last_change_at(700), 0);
    assert_eq!(tracker.time_since_last_change_at(1_000), 300);
    assert_eq!(tracker.len(), 1);
}

#[test]
fn measurements_leave_the_time_of_the_last_change() {
    let mut tracker = LoadTracker::new(1_000);
    tracker.record_change_at(40);
    tracker.add_measurement_at(5, 100);
    tracker.add_measurement(7);
    assert_eq!(tracker.last_change(), 40);
}

#[test]
fn clock_of_the_tracker_does_not_run_backwards() {
    let mut tracker = LoadTracker::new(1_000);
    let first = tracker.now_ms();
    let since = tracker.time_since_last_change();
    let second = tracker.now_ms();
    assert!(first <= second);
    assert!(since <= second);
    let recorded = tracker.record_change();
    assert_eq!(tracker.last_change(), recorded);
    assert!(recorded >= second);
    assert!(tracker.now_ms() >= recorded);
    assert_eq!(tracker.time_since_last_change_at(recorded), 0);
}

#[test]
fn recorded_change_is_the_time_returned() {
    let mut tracker = LoadTracker::new(1_000);
    tracker.add_measurement_at(5, 100);
    tracker.record_change_at(u64::MAX);
    assert_eq!(tracker.last_change(), u64::MAX);
    let recorded = tracker.record_change();
    assert!(recorded < u64::MAX);
    assert_eq!(tracker.last_change(), recorded);
    assert_eq!(tracker.len(), 1);
}

#[test]
fn milliseconds_are_capped_at_the_largest_time() {
    assert_eq!(cap_millis(0), 0);
    assert_eq!(cap_millis(1_500), 1_500);
    assert_eq!(cap_millis(u64::MAX as u128), u64::MAX);
    assert_eq!(cap_millis(u64::MAX as u128 + 1), u64::MAX);
    assert_eq!(cap_millis(u128::MAX), u64::MAX);
}
