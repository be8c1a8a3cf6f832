//! Durations measured in whole minutes.
//!
//! A duration is a plain number of minutes, the granularity every formula
//! in the engine works at.  All durations the engine constructs are
//! saturated into `[0, MAX_MINUTES]`, so later arithmetic stays far away
//! from the `i64` boundaries.

use vstd::prelude::*;

verus! {

/// Minutes in a minute, day, week, month (4 weeks) and year (48 weeks).
pub const MINUTES_PER_MINUTE: i64 = 1;
/// Minutes in a day.
pub const MINUTES_PER_DAY: i64 = 1440;
/// Minutes in a week.
pub const MINUTES_PER_WEEK: i64 = 10080;
/// Minutes in a month, defined as 4 weeks.
pub const MINUTES_PER_MONTH: i64 = 40320;
/// Minutes in a year, defined as 48 weeks.
pub const MINUTES_PER_YEAR: i64 = 483840;

/// Upper bound for every duration the engine constructs (about 1.9 million
/// years).  Doubles as the "no maximal interval" value of a card.
pub const MAX_MINUTES: i64 = 1_000_000_000_000;

/// A duration clamped into `[0, MAX_MINUTES]`.
pub open spec fn clamped(minutes: int) -> i64 {
    if minutes < 0 {
        0i64
    } else if minutes > MAX_MINUTES {
        MAX_MINUTES
    } else {
        minutes as i64
    }
}

/// Clamp an arbitrary minute count into `[0, MAX_MINUTES]`.
pub fn clamp_minutes(minutes: i64) -> (r: i64)
    ensures
        r == clamped(minutes as int),
{
    if minutes < 0 {
        0
    } else if minutes > MAX_MINUTES {
        MAX_MINUTES
    } else {
        minutes
    }
}

/// `count * unit`, saturated into `[0, MAX_MINUTES]`.
pub fn saturating_scale(count: i64, unit: i64) -> (r: i64)
    requires
        0 < unit <= MINUTES_PER_YEAR,
    ensures
        r == clamped(count as int * unit as int),
{
    proof {
        assert(count as int * unit as int <= i64::MAX as int * MINUTES_PER_YEAR as int
            && count as int * unit as int >= i64::MIN as int * MINUTES_PER_YEAR as int)
            by (nonlinear_arith)
            requires
                i64::MIN <= count <= i64::MAX,
                0 < unit <= MINUTES_PER_YEAR,
        ;
    }
    let wide: i128 = count as i128 * unit as i128;
    if wide < 0 {
        0
    } else if wide > MAX_MINUTES as i128 {
        MAX_MINUTES
    } else {
        wide as i64
    }
}

/// The calendar day (UTC) a minute timestamp falls in, counted from the
/// epoch: the floor of `t / MINUTES_PER_DAY`.
pub open spec fn spec_day_number(t: int) -> int {
    t / (MINUTES_PER_DAY as int)
}

/// The calendar day a minute timestamp falls in.
pub fn day_number(t: i64) -> (r: i64)
    ensures
        r == spec_day_number(t as int),
{
    let q = t / MINUTES_PER_DAY;
    let rem = t % MINUTES_PER_DAY;
    if rem < 0 {
        q - 1
    } else {
        q
    }
}

} // verus!
