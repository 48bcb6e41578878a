//! Sequence extrapolation, backwards: predict the value before the first of
//! each report line by recursing on difference sequences.

use vstd::prelude::*;
use crate::arith::{sat_add, sat_sub};
use crate::text;

verus! {

/// Parses each line into its whitespace-separated numbers.
pub fn parse(content: &str) -> (r: Vec<Vec<i64>>) {
    let lines = text::split_lines(content.as_bytes());
    let mut rows: Vec<Vec<i64>> = Vec::new();
    let mut i: usize = 0;
    while i < lines.len()
        invariant
            0 <= i <= lines@.len(),
        decreases lines@.len() - i,
    {
        let tokens = text::split_whitespace(lines[i].as_slice());
        let mut row: Vec<i64> = Vec::new();
        let mut t: usize = 0;
        while t < tokens.len()
            invariant
                0 <= t <= tokens@.len(),
            decreases tokens@.len() - t,
        {
            match text::parse_i64(tokens[t].as_slice()) {
                Some(v) => row.push(v),
                None => row.push(0),
            }
            t = t + 1;
        }
        rows.push(row);
        i = i + 1;
    }
    rows
}

/// The clamped difference sequence of `nums`.
pub open spec fn spec_diffs(nums: Seq<i64>) -> Seq<i64>
    recommends
        nums.len() >= 1,
{
    Seq::new((nums.len() - 1) as nat, |i: int| crate::arith::clamp64(nums[i + 1] - nums[i]) as i64)
}

/// The value that would precede `nums[0]`: zero once every entry is zero
/// (or fewer than two entries remain), otherwise the first difference minus
/// the prediction for the difference sequence.
pub open spec fn spec_predict(nums: Seq<i64>) -> i64
    decreases nums.len(),
{
    if forall|i: int| 0 <= i < nums.len() ==> #[trigger] nums[i] == 0 {
        0i64
    } else if nums.len() <= 1 {
        0i64
    } else {
        crate::arith::clamp64(
            spec_diffs(nums)[0] - spec_predict(spec_diffs(nums)),
        ) as i64
    }
}

/// The value that would precede `nums[0]`: exactly `spec_predict`.
pub fn predict_leftmost(nums: &Vec<i64>) -> (r: i64)
    ensures
        r == spec_predict(nums@),
    decreases nums@.len(),
{
    let mut all_zero = true;
    let mut i: usize = 0;
    while i < nums.len()
        invariant
            0 <= i <= nums@.len(),
            all_zero == (forall|k: int| 0 <= k < i ==> #[trigger] nums@[k] == 0),
        decreases nums@.len() - i,
    {
        if nums[i] != 0 {
            all_zero = false;
        }
        i = i + 1;
    }
    if all_zero {
        return 0;
    }
    let mut diff: Vec<i64> = Vec::new();
    let mut j: usize = 1;
    while j < nums.len()
        invariant
            1 <= j,
            nums@.len() >= 1 ==> j <= nums@.len(),
            nums@.len() >= 1 ==> diff@.len() == j - 1,
            nums@.len() == 0 ==> diff@.len() == 0,
            diff@.len() < nums@.len() || nums@.len() == 0,
            forall|k: int|
                0 <= k < diff@.len() ==> #[trigger] diff@[k] == crate::arith::clamp64(
                    nums@[k + 1] - nums@[k],
                ),
        decreases nums@.len() - j,
    {
        diff.push(sat_sub(nums[j], nums[j - 1]));
        j = j + 1;
    }
    if diff.len() == 0 {
        return 0;
    }
    proof {
        assert(diff@ =~= spec_diffs(nums@));
    }
    let predicted = predict_leftmost(&diff);
    sat_sub(diff[0], predicted)
}

/// Sums, over all lines, the value extrapolated before the line's first.
pub fn solve(content: &str) -> (r: i64) {
    let rows = parse(content);
    let mut total: i64 = 0;
    let mut i: usize = 0;
    while i < rows.len()
        invariant
            0 <= i <= rows@.len(),
        decreases rows@.len() - i,
    {
        let row = &rows[i];
        if row.len() >= 1 {
            let p = predict_leftmost(row);
            total = sat_add(total, sat_sub(row[0], p));
        }
        i = i + 1;
    }
    total
}

} // verus!
