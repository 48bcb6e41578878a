//! Scratch cards, cascading: a card with `m` matches wins one copy of each
//! of the next `m` cards; the answer counts all cards won.

use vstd::prelude::*;
use crate::arith::sat_add;
use crate::text;

verus! {

/// Counts all card copies after the cascade.
pub fn solve(cards: &str) -> (r: i64)
    ensures
        r >= 0,
{
    let lines = text::split_lines(cards.as_bytes());
    let n = lines.len();
    let mut copies: Vec<i64> = Vec::new();
    let mut ci: usize = 0;
    while ci < n
        invariant
            copies@.len() == ci <= n,
            forall|t: int| 0 <= t < ci ==> #[trigger] copies@[t] >= 0,
        decreases n - ci,
    {
        copies.push(1);
        ci = ci + 1;
    }
    let mut i: usize = 0;
    while i < n
        invariant
            copies@.len() == n,
            n == lines@.len(),
            0 <= i <= n,
            forall|t: int| 0 <= t < n ==> #[trigger] copies@[t] >= 0,
        decreases n - i,
    {
        let m = crate::day04_1::matches_on_card(lines[i].as_slice());
        let upper = if m <= n && i + 1 <= n - m {
            i + 1 + m
        } else {
            n
        };
        let mut j: usize = i + 1;
        while j < upper
            invariant
                copies@.len() == n,
                i < n,
                upper <= n,
                0 <= j,
                forall|t: int| 0 <= t < n ==> #[trigger] copies@[t] >= 0,
            decreases upper - j,
        {
            let add = copies[i];
            let cur = copies[j];
            copies[j] = sat_add(cur, add);
            j = j + 1;
        }
        i = i + 1;
    }
    let mut total: i64 = 0;
    let mut k: usize = 0;
    while k < n
        invariant
            copies@.len() == n,
            0 <= k <= n,
            total >= 0,
            forall|t: int| 0 <= t < n ==> #[trigger] copies@[t] >= 0,
        decreases n - k,
    {
        total = sat_add(total, copies[k]);
        k = k + 1;
    }
    total
}

} // verus!
