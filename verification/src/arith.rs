//! Saturating 64-bit arithmetic.
//!
//! The solvers accumulate sums and products of values read from text.  To
//! stay total on every input, the accumulations clamp at the `i64` range;
//! on the puzzle inputs they never reach it.

use vstd::prelude::*;

verus! {

/// `x` clamped to the `i64` range.
pub open spec fn clamp64(x: int) -> int {
    if x > i64::MAX {
        i64::MAX as int
    } else if x < i64::MIN {
        i64::MIN as int
    } else {
        x
    }
}

/// Saturating addition.
pub fn sat_add(a: i64, b: i64) -> (r: i64)
    ensures
        r == clamp64(a + b),
{
    match a.checked_add(b) {
        Some(v) => v,
        None => {
            if a > 0 {
                i64::MAX
            } else {
                i64::MIN
            }
        },
    }
}

/// Saturating subtraction.
pub fn sat_sub(a: i64, b: i64) -> (r: i64)
    ensures
        r == clamp64(a - b),
{
    match a.checked_sub(b) {
        Some(v) => v,
        None => {
            if b < 0 {
                i64::MAX
            } else {
                i64::MIN
            }
        },
    }
}

/// Saturating multiplication.
pub fn sat_mul(a: i64, b: i64) -> (r: i64)
    ensures
        r == clamp64(a * b),
{
    match a.checked_mul(b) {
        Some(v) => v,
        None => {
            proof {
                assert((a > 0 && b > 0 ==> a * b > 0) && (a < 0 && b < 0 ==> a * b > 0) && (a > 0
                    && b < 0 ==> a * b < 0) && (a < 0 && b > 0 ==> a * b < 0)) by (nonlinear_arith);
            }
            if (a > 0) == (b > 0) {
                i64::MAX
            } else {
                i64::MIN
            }
        },
    }
}

/// The distance between two values.
pub fn abs_diff(a: i64, b: i64) -> (r: i64)
    ensures
        r == clamp64(if a >= b {
            a - b
        } else {
            b - a
        }),
        r >= 0,
{
    if a >= b {
        sat_sub(a, b)
    } else {
        sat_sub(b, a)
    }
}

/// Clamping preserves the sign of a product of non-negative factors.
pub proof fn lemma_mul_nonneg(a: int, b: int)
    requires
        a >= 0,
        b >= 0,
    ensures
        clamp64(a * b) >= 0,
{
    assert(a * b >= 0) by (nonlinear_arith)
        requires
            a >= 0,
            b >= 0,
    {}
}

/// `u` as an `i64`, clamped.
pub fn to_i64(u: usize) -> (r: i64)
    ensures
        r == clamp64(u as int),
        r >= 0,
{
    if u as u64 > 0x7fff_ffff_ffff_ffffu64 {
        i64::MAX
    } else {
        u as i64
    }
}

} // verus!
