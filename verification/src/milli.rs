//! Fixed-point scalars in thousandths ("milli" units).
//!
//! Ease values, modifiers, familiarity and retention rates are ratios close
//! to 1; the engine stores each as an `i64` count of thousandths, so `1500`
//! stands for one and a half.  Multiplying a duration by such a factor is a
//! widening multiply followed by division by 1000, saturated back into the
//! duration range; a negative factor is treated as zero.

use vstd::prelude::*;
use crate::duration::{clamped, MAX_MINUTES};

verus! {

/// One, in thousandths.
pub const MILLI_ONE: i64 = 1000;

/// `x` forced into `[lo, hi]`, preferring `lo` when the band is empty.
pub open spec fn spec_clamp(x: int, lo: int, hi: int) -> int {
    if x < lo {
        lo
    } else if x > hi {
        hi
    } else {
        x
    }
}

/// Clamp an `i64` into `[lo, hi]`, preferring `lo` when the band is empty.
pub fn clamp_i64(x: i64, lo: i64, hi: i64) -> (r: i64)
    ensures
        r as int == spec_clamp(x as int, lo as int, hi as int),
{
    if x < lo {
        lo
    } else if x > hi {
        hi
    } else {
        x
    }
}

/// `a + b` forced into `[lo, hi]`, without overflow on the way.
pub fn add_clamped(a: i64, b: i64, lo: i64, hi: i64) -> (r: i64)
    ensures
        r as int == spec_clamp(a as int + b as int, lo as int, hi as int),
{
    let wide: i128 = a as i128 + b as i128;
    if wide < lo as i128 {
        lo
    } else if wide > hi as i128 {
        hi
    } else {
        wide as i64
    }
}

/// A duration scaled by a milli factor: `v * max(f, 0) / 1000`, saturated
/// into `[0, MAX_MINUTES]`.
pub open spec fn spec_scale(v: int, f: int) -> i64 {
    clamped(v * (if f < 0 { 0int } else { f }) / 1000)
}

/// Scale the duration `v` by the milli factor `f`, saturating.
pub fn scale_duration(v: i64, f: i64) -> (r: i64)
    requires
        0 <= v <= MAX_MINUTES,
    ensures
        r == spec_scale(v as int, f as int),
        0 <= r <= MAX_MINUTES,
{
    let fp: i64 = if f < 0 { 0 } else { f };
    proof {
        assert(0 <= v as int * fp as int <= MAX_MINUTES as int * i64::MAX as int)
            by (nonlinear_arith)
            requires
                0 <= v <= MAX_MINUTES,
                0 <= fp <= i64::MAX,
        ;
    }
    let wide: i128 = (v as i128 * fp as i128) / 1000;
    if wide > MAX_MINUTES as i128 {
        MAX_MINUTES
    } else {
        wide as i64
    }
}

/// `a - b` forced into `[lo, hi]`, without overflow on the way.
pub fn sub_clamped(a: i64, b: i64, lo: i64, hi: i64) -> (r: i64)
    ensures
        r as int == spec_clamp(a as int - b as int, lo as int, hi as int),
{
    let wide: i128 = a as i128 - b as i128;
    if wide < lo as i128 {
        lo
    } else if wide > hi as i128 {
        hi
    } else {
        wide as i64
    }
}

} // verus!
