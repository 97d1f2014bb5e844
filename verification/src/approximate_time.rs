//! Wall-clock times for monotonic instants, for display: an instant is placed
//! relative to a reference pair of a wall-clock time and a monotonic instant
//! read together.
use vstd::prelude::*;

verus! {

/// Nanoseconds in one second.
pub const NANOS_PER_SEC: u32 = 1_000_000_000;

/// The earliest second, since the Unix epoch, that a UTC date-time can hold
/// (the first day of the year 262144 BCE).
pub const MIN_UTC_SECS: i64 = -8_334_601_228_800;

/// The latest second, since the Unix epoch, that a UTC date-time can hold
/// (December 31 of the year 262142, 23:59:59).
pub const MAX_UTC_SECS: i64 = 8_210_266_876_799;

/// The longest span, in whole seconds, that a signed time delta can hold.
pub const MAX_DELTA_SECS: u64 = 9_223_372_036_854_775;

/// The nanoseconds that a signed time delta of `MAX_DELTA_SECS` seconds can
/// hold beyond them.
pub const MAX_DELTA_SUBSEC_NANOS: u32 = 807_000_000;

/// A UTC wall-clock time: seconds since the Unix epoch, and nanoseconds
/// within that second.
#[derive(Debug, Clone, Copy, PartialEq, Eq, Structural)]
pub struct UtcTime {
    pub secs: i64,
    pub nanos: u32,
}

/// A span of monotonic time: whole seconds and nanoseconds within a second.
#[derive(Debug, Clone, Copy, PartialEq, Eq, Structural)]
pub struct Elapsed {
    pub secs: u64,
    pub nanos: u32,
}

/// Where an instant lies relative to the reference instant.
#[derive(Debug, Clone, Copy, PartialEq, Eq, Structural)]
pub enum InstantOffset {
    /// The instant is earlier than the reference instant, by the span given.
    Before(Elapsed),
    /// The instant is the reference instant or later, by the span given.
    NotBefore(Elapsed),
}

/// Nanoseconds since the Unix epoch.
pub open spec fn utc_nanos(t: UtcTime) -> int {
    t.secs * NANOS_PER_SEC + t.nanos
}

/// A time that is no leap second: its nanoseconds stay within the second.
pub open spec fn is_valid_utc(t: UtcTime) -> bool {
    t.nanos < NANOS_PER_SEC
}

/// Whether the time `n` nanoseconds after the Unix epoch lies within the
/// range of UTC date-times.
pub open spec fn in_utc_range(n: int) -> bool {
    MIN_UTC_SECS * NANOS_PER_SEC <= n < (MAX_UTC_SECS + 1) * NANOS_PER_SEC
}

/// The length of a span in nanoseconds.
pub open spec fn elapsed_nanos(d: Elapsed) -> int {
    d.secs * NANOS_PER_SEC + d.nanos
}

/// A span whose nanoseconds stay within a second.
pub open spec fn is_valid_elapsed(d: Elapsed) -> bool {
    d.nanos < NANOS_PER_SEC
}

/// The signed distance, in nanoseconds, from the reference instant.
pub open spec fn offset_nanos(o: InstantOffset) -> int {
    match o {
        InstantOffset::Before(d) => -elapsed_nanos(d),
        InstantOffset::NotBefore(d) => elapsed_nanos(d),
    }
}

/// The span of an offset, whichever its direction.
pub open spec fn offset_span(o: InstantOffset) -> Elapsed {
    match o {
        InstantOffset::Before(d) => d,
        InstantOffset::NotBefore(d) => d,
    }
}

/// The wall-clock time, in nanoseconds since the epoch, that an instant at
/// offset `o` from the reference instant is shown as.
pub open spec fn approximate_nanos(reference: UtcTime, o: InstantOffset) -> int {
    utc_nanos(reference) + offset_nanos(o)
}

/// Whether a span fits in a signed time delta.
pub open spec fn fits_time_delta(secs: int, nanos: int) -> bool {
    secs < MAX_DELTA_SECS || (secs == MAX_DELTA_SECS && nanos <= MAX_DELTA_SUBSEC_NANOS)
}

/// Converts a span of monotonic time into a signed time delta, given back as
/// its whole seconds and its nanoseconds: calls `chrono::TimeDelta::from_std`,
/// which succeeds exactly when the span is at most `i64::MAX` milliseconds
/// (`MAX_DELTA_SECS` seconds and `MAX_DELTA_SUBSEC_NANOS` nanoseconds), and
/// then keeps the span unchanged.
#[verifier::external_body]
fn time_delta_from_std(d: Elapsed) -> (r: Option<(i64, u32)>)
    requires
        is_valid_elapsed(d),
    ensures
        r is Some <==> fits_time_delta(d.secs as int, d.nanos as int),
        r matches Some(p) ==> p.0 == d.secs && p.1 == d.nanos,
{
    match chrono::TimeDelta::from_std(std::time::Duration::new(d.secs, d.nanos)) {
        Ok(delta) => Some((delta.num_seconds(), delta.subsec_nanos() as u32)),
        Err(_) => None,
    }
}

/// Adds a non-negative time delta to a UTC time: calls
/// `chrono::DateTime::<Utc>::checked_add_signed` (on the date-time that
/// `DateTime::from_timestamp` makes of the time, and the delta that
/// `TimeDelta::new` makes of the span), which for a time that is
/// no leap second gives the exact sum, and succeeds whenever that sum lies in
/// the range of UTC date-times.
#[verifier::external_body]
fn utc_checked_add(t: UtcTime, delta_secs: i64, delta_nanos: u32) -> (r: Option<UtcTime>)
    requires
        is_valid_utc(t),
        MIN_UTC_SECS <= t.secs <= MAX_UTC_SECS,
        0 <= delta_secs,
        delta_nanos < NANOS_PER_SEC,
        fits_time_delta(delta_secs as int, delta_nanos as int),
    ensures
        in_utc_range(utc_nanos(t) + delta_secs * NANOS_PER_SEC + delta_nanos) ==> r is Some,
        r matches Some(u) ==> is_valid_utc(u) && utc_nanos(u) == utc_nanos(t) + delta_secs
            * NANOS_PER_SEC + delta_nanos,
{
    let start = match chrono::DateTime::from_timestamp(t.secs, t.nanos) {
        Some(dt) => dt,
        None => return None,
    };
    let delta = match chrono::TimeDelta::new(delta_secs, delta_nanos) {
        Some(delta) => delta,
        None => return None,
    };
    match start.checked_add_signed(delta) {
        Some(u) => Some(UtcTime { secs: u.timestamp(), nanos: u.timestamp_subsec_nanos() }),
        None => None,
    }
}

/// Subtracts a non-negative time delta from a UTC time: calls
/// `chrono::DateTime::<Utc>::checked_sub_signed` (on the date-time that
/// `DateTime::from_timestamp` makes of the time, and the delta that
/// `TimeDelta::new` makes of the span), which for a time that is
/// no leap second gives the exact difference, and succeeds whenever that
/// difference lies in the range of UTC date-times.
#[verifier::external_body]
fn utc_checked_sub(t: UtcTime, delta_secs: i64, delta_nanos: u32) -> (r: Option<UtcTime>)
    requires
        is_valid_utc(t),
        MIN_UTC_SECS <= t.secs <= MAX_UTC_SECS,
        0 <= delta_secs,
        delta_nanos < NANOS_PER_SEC,
        fits_time_delta(delta_secs as int, delta_nanos as int),
    ensures
        in_utc_range(utc_nanos(t) - (delta_secs * NANOS_PER_SEC + delta_nanos)) ==> r is Some,
        r matches Some(u) ==> is_valid_utc(u) && utc_nanos(u) == utc_nanos(t) - (delta_secs
            * NANOS_PER_SEC + delta_nanos),
{
    let start = match chrono::DateTime::from_timestamp(t.secs, t.nanos) {
        Some(dt) => dt,
        None => return None,
    };
    let delta = match chrono::TimeDelta::new(delta_secs, delta_nanos) {
        Some(delta) => delta,
        None => return None,
    };
    match start.checked_sub_signed(delta) {
        Some(u) => Some(UtcTime { secs: u.timestamp(), nanos: u.timestamp_subsec_nanos() }),
        None => None,
    }
}

/// A span that takes a time within the range of UTC date-times to another
/// such time fits in a time delta.
proof fn lemma_span_fits(reference: UtcTime, d: Elapsed)
    requires
        is_valid_utc(reference),
        is_valid_elapsed(d),
        MIN_UTC_SECS <= reference.secs <= MAX_UTC_SECS,
        in_utc_range(utc_nanos(reference) + elapsed_nanos(d)) || in_utc_range(utc_nanos(reference)
            - elapsed_nanos(d)),
    ensures
        fits_time_delta(d.secs as int, d.nanos as int),
        d.secs <= i64::MAX,
{
    assert(d.secs < 20_000_000_000_000) by (nonlinear_arith)
        requires
            d.secs * 1_000_000_000 + d.nanos <= 17_000_000_000_000_000_000_000int,
            d.nanos >= 0,
    ;
}

/// The wall-clock time that an instant is shown as: the reference time moved
/// by the instant's offset from the reference instant. It is an
/// approximation, as the system clock may have been changed since the
/// instant; but a later instant is never shown as an earlier time.
///
/// The reference time must be no leap second, and the time shown must lie
/// within the range of UTC date-times.
pub fn to_approximate_datetime(reference: UtcTime, offset: InstantOffset) -> (r: UtcTime)
    requires
        is_valid_utc(reference),
        MIN_UTC_SECS <= reference.secs <= MAX_UTC_SECS,
        is_valid_elapsed(offset_span(offset)),
        in_utc_range(approximate_nanos(reference, offset)),
    ensures
        is_valid_utc(r),
        utc_nanos(r) == approximate_nanos(reference, offset),
{
    match offset {
        InstantOffset::Before(d) => {
            proof {
                lemma_span_fits(reference, d);
            }
            match time_delta_from_std(d) {
                Some((secs, nanos)) => match utc_checked_sub(reference, secs, nanos) {
                    Some(u) => u,
                    None => {
                        proof {
                            assert(false);
                        }
                        reference
                    },
                },
                None => {
                    proof {
                        assert(false);
                    }
                    reference
                },
            }
        },
        InstantOffset::NotBefore(d) => {
            proof {
                lemma_span_fits(reference, d);
            }
            match time_delta_from_std(d) {
                Some((secs, nanos)) => match utc_checked_add(reference, secs, nanos) {
                    Some(u) => u,
                    None => {
                        proof {
                            assert(false);
                        }
                        reference
                    },
                },
                None => {
                    proof {
                        assert(false);
                    }
                    reference
                },
            }
        },
    }
}

/// An instant that is no earlier than another is shown as a time that is no
/// earlier, and a later instant as a later time.
pub proof fn lemma_approximation_is_monotonic(
    reference: UtcTime,
    a: InstantOffset,
    b: InstantOffset,
)
    ensures
        offset_nanos(a) <= offset_nanos(b) ==> approximate_nanos(reference, a) <= approximate_nanos(
            reference,
            b,
        ),
        offset_nanos(a) < offset_nanos(b) ==> approximate_nanos(reference, a) < approximate_nanos(
            reference,
            b,
        ),
{
}

/// The reference instant itself is shown as the reference time.
pub proof fn lemma_reference_instant_shows_reference_time(reference: UtcTime, o: InstantOffset)
    requires
        offset_nanos(o) == 0,
    ensures
        approximate_nanos(reference, o) == utc_nanos(reference),
{
}

/// A time that is no leap second is determined by its nanoseconds since the
/// epoch, so the time shown for an instant is determined by the reference
/// time and the offset.
pub proof fn lemma_utc_nanos_determines_time(a: UtcTime, b: UtcTime)
    requires
        is_valid_utc(a),
        is_valid_utc(b),
        utc_nanos(a) == utc_nanos(b),
    ensures
        a == b,
{
    assert(a.secs == b.secs) by (nonlinear_arith)
        requires
            a.secs * 1_000_000_000 + a.nanos == b.secs * 1_000_000_000 + b.nanos,
            0 <= a.nanos < 1_000_000_000,
            0 <= b.nanos < 1_000_000_000,
    ;
}

} // verus!
