use iox_util::tick_tolerance::{
    almost_eq, default_error_tolerance, system_native_tick_interval_in_nanos, tick_interval,
    tolerance,
};
use std::time::{Duration, Instant};

fn assert_almost_eq(actual: Duration, expected: Duration, tolerance: u64) {
    assert!(
        almost_eq(actual.as_nanos(), expected.as_nanos(), tolerance),
        "{:?} is not within {} ns of {:?}",
        actual,
        tolerance,
        expected
    );
}

#[test]
fn test_tick_intervals() {
    let (interval, is_truncated) = system_native_tick_interval_in_nanos();
    assert!(interval > 0);

    let now = Instant::now();

    assert_eq!(
        (now + Duration::from_nanos(interval - 1)).duration_since(now),
        Duration::from_nanos(0)
    );

    let expected = if is_truncated {
        Duration::from_nanos(interval - 1)
    } else {
        Duration::from_nanos(interval)
    };
    assert_eq!(
        (now + Duration::from_nanos(interval)).duration_since(now),
        expected
    );
}

#[test]
fn test_almost_eq_macro() {
    let now = Instant::now();
    let expected = Duration::from_nanos(29);
    let instant = now + expected;
    let actual = instant.duration_since(now);

    assert_almost_eq(actual, expected, default_error_tolerance());

    let expected = Duration::from_nanos(109);
    let instant = now + expected;
    let actual = instant.duration_since(now);

    assert_almost_eq(actual, expected, default_error_tolerance());
}

#[test]
fn test_to_datetime_simple() {
    let d = std::time::Duration::from_nanos(78);
    let a = Instant::now();
    let b = a + d;
    let tolerance = default_error_tolerance();
    assert_almost_eq(b.duration_since(a), d, tolerance);
}

#[test]
fn native_tick_interval_is_one_nanosecond() {
    assert_eq!(system_native_tick_interval_in_nanos(), (1, false));
    assert_eq!(default_error_tolerance(), 0);
}

#[test]
fn tick_interval_rounds_up_fractional_timebases() {
    assert_eq!(tick_interval(1, 1), (1, false));
    assert_eq!(tick_interval(125, 3), (42, true));
    assert_eq!(tick_interval(125, 5), (25, false));
    assert_eq!(tick_interval(0, 7), (0, false));
    assert_eq!(tick_interval(u32::MAX, 1), (u32::MAX as u64, false));
    assert_eq!(tick_interval(u32::MAX, 2), (2_147_483_648, true));
}

#[test]
fn tolerance_is_the_interval_rounded_down() {
    assert_eq!(tolerance(125, 3), 41);
    assert_eq!(tolerance(125, 5), 25);
    assert_eq!(tolerance(1, 1), 1);
    assert_eq!(tolerance(2, 3), 0);
}

#[test]
fn almost_eq_compares_the_distance() {
    assert!(almost_eq(100, 103, 3));
    assert!(!almost_eq(100, 104, 3));
    assert!(almost_eq(104, 100, 4));
    assert!(!almost_eq(104, 100, 3));
    assert!(almost_eq(7, 7, 0));
    // the distance is truncated to 64 bits before it is compared
    let far: u128 = 1u128 << 64;
    assert!(almost_eq(0, far, 0));
    assert!(almost_eq(far + 5, 0, 5));
    assert!(!almost_eq(far + 6, 0, 5));
}

#[test]
fn almost_eq_is_symmetric_and_reflexive() {
    for (a, b, t) in [(1u128, 5u128, 3u64), (5, 1, 4), (0, 0, 0), (9, 2, 7)] {
        assert_eq!(almost_eq(a, b, t), almost_eq(b, a, t));
        assert!(almost_eq(a, a, t));
    }
}
