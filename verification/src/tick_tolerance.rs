//! Clock tick intervals and the tolerance with which two measured durations
//! are considered equal.
use vstd::prelude::*;

verus! {

/// 2^64: durations are compared after their difference is truncated to `u64`.
pub open spec fn two_pow_64() -> int {
    0x1_0000_0000_0000_0000
}

/// The tick interval of a clock whose timebase is `numer / denom` nanoseconds
/// per tick: the interval rounded up to whole nanoseconds, and whether it had
/// to be rounded.
pub open spec fn tick_interval_of(numer: u32, denom: u32) -> (u64, bool)
    recommends
        denom > 0,
{
    let q = numer / denom;
    let r = numer % denom;
    if r != 0 {
        ((q + 1) as u64, true)
    } else {
        (q as u64, false)
    }
}

/// The distance between two durations in nanoseconds, truncated to 64 bits.
pub open spec fn truncated_distance(a: u128, b: u128) -> int {
    let d: int = if a < b {
        b - a
    } else {
        a - b
    };
    d % two_pow_64()
}

/// Whether two durations, in nanoseconds, are within `tolerance` of each other.
pub open spec fn is_almost_eq(a: u128, b: u128, tolerance: u64) -> bool {
    truncated_distance(a, b) <= tolerance
}

/// The tick interval of the system's monotonic clock, in nanoseconds, and
/// whether that value was rounded up from a fractional interval.
///
/// The monotonic clock of this platform counts whole nanoseconds.
pub fn system_native_tick_interval_in_nanos() -> (r: (u64, bool))
    ensures
        r == (1u64, false),
        r == tick_interval_of(1, 1),
{
    (1, false)
}

/// The tolerance, in nanoseconds, with which durations measured on this
/// platform's monotonic clock are compared: the clock is exact.
pub fn default_error_tolerance() -> (r: u64)
    ensures
        r == 0,
{
    0
}

/// The tick interval of a clock with timebase `numer / denom` nanoseconds per
/// tick, rounded up to whole nanoseconds, with a flag that tells whether the
/// division left a remainder.
pub fn tick_interval(numer: u32, denom: u32) -> (r: (u64, bool))
    requires
        denom > 0,
    ensures
        r == tick_interval_of(numer, denom),
        r.1 <==> numer % denom != 0,
        r.0 * denom >= numer,
        r.0 * denom < numer + denom,
{
    let q: u32 = numer / denom;
    let rem: u32 = numer % denom;
    proof {
        assert(numer == q * denom + rem) by (nonlinear_arith)
            requires
                q == numer / denom,
                rem == numer % denom,
                denom > 0,
        ;
        assert((q + 1) * denom == q * denom + denom) by (nonlinear_arith);
    }
    if rem != 0 {
        (q as u64 + 1, true)
    } else {
        (q as u64, false)
    }
}

/// The tolerance for a clock with timebase `numer / denom` nanoseconds per
/// tick: its tick interval, less one when the interval was rounded up.
pub fn tolerance(numer: u32, denom: u32) -> (r: u64)
    requires
        denom > 0,
    ensures
        r == numer / denom,
        r == (if tick_interval_of(numer, denom).1 {
            tick_interval_of(numer, denom).0 - 1
        } else {
            tick_interval_of(numer, denom).0 as int
        }),
{
    let (interval, is_truncated) = tick_interval(numer, denom);
    if is_truncated {
        interval - 1
    } else {
        interval
    }
}

/// Whether two durations, given in nanoseconds, differ by at most
/// `tolerance` nanoseconds. As measured, the difference is truncated to
/// 64 bits before it is compared.
pub fn almost_eq(a: u128, b: u128, tolerance: u64) -> (r: bool)
    ensures
        r == is_almost_eq(a, b, tolerance),
        a == b ==> r,
        a <= b < a + 0x1_0000_0000_0000_0000 ==> (r <==> b - a <= tolerance),
        b <= a < b + 0x1_0000_0000_0000_0000 ==> (r <==> a - b <= tolerance),
{
    if a == b {
        true
    } else if a < b {
        let d: u128 = b - a;
        let t: u64 = d as u64;
        assert(t == d % 0x1_0000_0000_0000_0000) by (bit_vector)
            requires
                t == d as u64,
        ;
        t <= tolerance
    } else {
        let d: u128 = a - b;
        let t: u64 = d as u64;
        assert(t == d % 0x1_0000_0000_0000_0000) by (bit_vector)
            requires
                t == d as u64,
        ;
        t <= tolerance
    }
}

/// Two durations less than 2^64 nanoseconds apart are almost equal exactly
/// when neither exceeds the other by more than the tolerance.
pub proof fn lemma_almost_eq_within_range(a: u128, b: u128, tolerance: u64)
    requires
        a < b + 0x1_0000_0000_0000_0000,
        b < a + 0x1_0000_0000_0000_0000,
    ensures
        is_almost_eq(a, b, tolerance) <==> (a <= b + tolerance && b <= a + tolerance),
{
}

/// Durations 2^64 nanoseconds or more apart are compared by their distance
/// less whole multiples of 2^64: the distance is measured in 64 bits.
pub proof fn lemma_almost_eq_wraps(a: u128, b: u128, tolerance: u64)
    requires
        b >= 0x1_0000_0000_0000_0000,
        a == b - 0x1_0000_0000_0000_0000,
    ensures
        is_almost_eq(a, b, tolerance),
        is_almost_eq(b, a, tolerance),
{
}

/// Being almost equal does not depend on the order of the two durations.
pub proof fn lemma_almost_eq_symmetric(a: u128, b: u128, tolerance: u64)
    ensures
        is_almost_eq(a, b, tolerance) == is_almost_eq(b, a, tolerance),
{
}

/// Every duration is almost equal to itself, whatever the tolerance.
pub proof fn lemma_almost_eq_reflexive(a: u128, tolerance: u64)
    ensures
        is_almost_eq(a, a, tolerance),
{
    assert(0int % two_pow_64() == 0);
}

/// Two durations that are almost equal under a tolerance stay so under any
/// larger tolerance.
pub proof fn lemma_almost_eq_monotone_in_tolerance(a: u128, b: u128, t1: u64, t2: u64)
    requires
        t1 <= t2,
        is_almost_eq(a, b, t1),
    ensures
        is_almost_eq(a, b, t2),
{
}

} // verus!
