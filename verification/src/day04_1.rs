//! Scratch cards: each card scores one point for its first matching number
//! and doubles for every further match.

use vstd::prelude::*;
use crate::arith::sat_add;
use crate::text;

verus! {

/// How many of this card's own numbers appear among its winning numbers.
/// `line` reads `Card N: w w w | y y y`.
pub fn matches_on_card(line: &[u8]) -> (r: usize)
    ensures
        r <= line@.len(),
{
    let parts = text::split_byte(line, 58);
    if parts.len() < 2 {
        return 0;
    }
    let halves = text::split_byte(parts[1].as_slice(), 124);
    if halves.len() < 2 {
        return 0;
    }
    let winning = text::split_whitespace(halves[0].as_slice());
    let yours = text::split_whitespace(halves[1].as_slice());
    proof {
        assert(yours@.len() <= line@.len());
    }
    let mut count: usize = 0;
    let mut i: usize = 0;
    while i < yours.len()
        invariant
            0 <= i <= yours@.len(),
            yours@.len() <= line@.len(),
            count <= i,
        decreases yours@.len() - i,
    {
        let mut hit = false;
        let mut j: usize = 0;
        while j < winning.len()
            invariant
                0 <= j <= winning@.len(),
                i < yours@.len(),
            decreases winning@.len() - j,
        {
            if text::bytes_eq(winning[j].as_slice(), yours[i].as_slice()) {
                hit = true;
            }
            j = j + 1;
        }
        if hit {
            count = count + 1;
        }
        i = i + 1;
    }
    count
}

/// Total points: for a card with `m >= 1` matches, `2^(m-1)` points.
pub fn solve(cards: &str) -> (r: i64)
    ensures
        r >= 0,
{
    let lines = text::split_lines(cards.as_bytes());
    let mut total: i64 = 0;
    let mut li: usize = 0;
    while li < lines.len()
        invariant
            0 <= li <= lines@.len(),
            total >= 0,
        decreases lines@.len() - li,
    {
        let m = matches_on_card(lines[li].as_slice());
        if m >= 1 {
            let mut points: i64 = 1;
            let mut k: usize = 1;
            while k < m
                invariant
                    1 <= k,
                    points >= 0,
                decreases m - k,
            {
                proof {
                    crate::arith::lemma_mul_nonneg(points as int, 2);
                }
                points = crate::arith::sat_mul(points, 2);
                k = k + 1;
            }
            total = sat_add(total, points);
        }
        li = li + 1;
    }
    total
}

} // verus!
