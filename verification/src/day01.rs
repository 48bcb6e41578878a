//! Calibration values: the first and last digit of each line.

use vstd::prelude::*;
use crate::arith::sat_add;

verus! {

/// The first decimal digit in `s`, or `-1` when there is none.
pub fn find_first(s: &str) -> (r: i32)
    ensures
        -1 <= r <= 9,
{
    let b = s.as_bytes();
    let mut i: usize = 0;
    while i < b.len()
        invariant
            0 <= i <= b@.len(),
        decreases b@.len() - i,
    {
        if 48 <= b[i] && b[i] <= 57 {
            return (b[i] - 48) as i32;
        }
        i = i + 1;
    }
    -1
}

/// The last decimal digit in `s`, or `-1` when there is none.
pub fn find_last(s: &str) -> (r: i32)
    ensures
        -1 <= r <= 9,
{
    let b = s.as_bytes();
    let mut i: usize = b.len();
    while i > 0
        invariant
            0 <= i <= b@.len(),
        decreases i,
    {
        i = i - 1;
        if 48 <= b[i] && b[i] <= 57 {
            return (b[i] - 48) as i32;
        }
    }
    -1
}

/// Sums, over all lines, ten times the first digit plus the last digit.
pub fn calculate_sum_calibrations(lines: Vec<&str>) -> (r: i64) {
    let mut total: i64 = 0;
    let mut i: usize = 0;
    while i < lines.len()
        invariant
            0 <= i <= lines@.len(),
        decreases lines@.len() - i,
    {
        let first = find_first(lines[i]);
        let second = find_last(lines[i]);
        total = sat_add(total, (first as i64) * 10 + (second as i64));
        i = i + 1;
    }
    total
}

} // verus!
