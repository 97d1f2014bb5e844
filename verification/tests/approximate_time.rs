use chrono::{DateTime, TimeDelta, Utc};
use iox_util::approximate_time::{
    to_approximate_datetime, Elapsed, InstantOffset, UtcTime, MAX_DELTA_SECS,
    MAX_DELTA_SUBSEC_NANOS, MAX_UTC_SECS, MIN_UTC_SECS,
};
use iox_util::tick_tolerance::{almost_eq, default_error_tolerance};
use std::time::{Duration, Instant};

fn utc_time(d: DateTime<Utc>) -> UtcTime {
    UtcTime { secs: d.timestamp(), nanos: d.timestamp_subsec_nanos() }
}

fn offset_of(reference: Instant, instant: Instant) -> InstantOffset {
    if reference > instant {
        let d = reference.duration_since(instant);
        InstantOffset::Before(Elapsed { secs: d.as_secs(), nanos: d.subsec_nanos() })
    } else {
        let d = instant.duration_since(reference);
        InstantOffset::NotBefore(Elapsed { secs: d.as_secs(), nanos: d.subsec_nanos() })
    }
}

fn nanos_of(t: UtcTime) -> i128 {
    t.secs as i128 * 1_000_000_000 + t.nanos as i128
}

fn assert_almost_eq_time(actual: UtcTime, expected: UtcTime, tolerance: u64) {
    let (a, e) = (nanos_of(actual), nanos_of(expected));
    // both are after the epoch here
    assert!(almost_eq(a as u128, e as u128, tolerance), "{:?} vs {:?}", actual, expected);
}

#[test]
fn test_to_datetime() {
    let ref_date = Utc::now();
    let ref_instant = Instant::now();
    let reference = utc_time(ref_date);
    let tolerance = default_error_tolerance();

    let later = ref_instant + Duration::from_nanos(78);
    assert_almost_eq_time(
        to_approximate_datetime(reference, offset_of(ref_instant, later)),
        utc_time(ref_date + TimeDelta::nanoseconds(78)),
        tolerance,
    );

    let earlier = ref_instant - Duration::from_nanos(23);
    assert_almost_eq_time(
        to_approximate_datetime(reference, offset_of(ref_instant, earlier)),
        utc_time(ref_date - TimeDelta::nanoseconds(23)),
        tolerance,
    );
}

#[test]
fn reference_instant_shows_reference_time() {
    let reference = UtcTime { secs: 1_600_000_000, nanos: 999_999_999 };
    let zero = Elapsed { secs: 0, nanos: 0 };
    assert_eq!(to_approximate_datetime(reference, InstantOffset::NotBefore(zero)), reference);
    assert_eq!(to_approximate_datetime(reference, InstantOffset::Before(zero)), reference);
}

#[test]
fn offsets_carry_across_seconds() {
    let reference = UtcTime { secs: 100, nanos: 900_000_000 };
    let later = InstantOffset::NotBefore(Elapsed { secs: 2, nanos: 200_000_000 });
    assert_eq!(to_approximate_datetime(reference, later), UtcTime { secs: 103, nanos: 100_000_000 });
    let earlier = InstantOffset::Before(Elapsed { secs: 0, nanos: 950_000_000 });
    assert_eq!(to_approximate_datetime(reference, earlier), UtcTime { secs: 99, nanos: 950_000_000 });
    let before_epoch = InstantOffset::Before(Elapsed { secs: 200, nanos: 0 });
    assert_eq!(to_approximate_datetime(reference, before_epoch), UtcTime { secs: -100, nanos: 900_000_000 });
}

#[test]
fn later_instants_show_later_times() {
    let reference = UtcTime { secs: 1_000, nanos: 0 };
    let offsets = [
        InstantOffset::Before(Elapsed { secs: 5, nanos: 1 }),
        InstantOffset::Before(Elapsed { secs: 5, nanos: 0 }),
        InstantOffset::Before(Elapsed { secs: 0, nanos: 1 }),
        InstantOffset::NotBefore(Elapsed { secs: 0, nanos: 0 }),
        InstantOffset::NotBefore(Elapsed { secs: 0, nanos: 7 }),
        InstantOffset::NotBefore(Elapsed { secs: 3, nanos: 0 }),
    ];
    let shown: Vec<i128> = offsets.iter().map(|o| nanos_of(to_approximate_datetime(reference, *o))).collect();
    for pair in shown.windows(2) {
        assert!(pair[0] < pair[1]);
    }
}

#[test]
fn utc_range_matches_chrono() {
    assert_eq!(DateTime::<Utc>::MIN_UTC.timestamp(), MIN_UTC_SECS);
    assert_eq!(DateTime::<Utc>::MAX_UTC.timestamp(), MAX_UTC_SECS);
    assert_eq!(TimeDelta::MAX.num_seconds() as u64, MAX_DELTA_SECS);
    assert_eq!(TimeDelta::MAX.subsec_nanos() as u32, MAX_DELTA_SUBSEC_NANOS);
}

#[test]
fn times_at_the_edges_of_the_range() {
    let latest = UtcTime { secs: MAX_UTC_SECS, nanos: 999_999_999 };
    let back = InstantOffset::Before(Elapsed { secs: MAX_UTC_SECS as u64, nanos: 999_999_999 });
    assert_eq!(to_approximate_datetime(latest, back), UtcTime { secs: 0, nanos: 0 });
    let earliest = UtcTime { secs: MIN_UTC_SECS, nanos: 0 };
    let forward = InstantOffset::NotBefore(Elapsed { secs: (-MIN_UTC_SECS) as u64, nanos: 5 });
    assert_eq!(to_approximate_datetime(earliest, forward), UtcTime { secs: 0, nanos: 5 });
}
