//! Cube game power: for each game line, the product of the largest red,
//! green and blue counts drawn, summed over all games.

use vstd::prelude::*;
use crate::arith::{sat_add, sat_mul};
use crate::text;

verus! {

/// Sums, over all game lines, the product of the per-colour maxima.
///
/// Each line reads `Game N: <count> <colour>, ...; ...`; every
/// `<count> <colour>` pair after the colon is taken as a draw, where the
/// colour is recognized by its first letter.
pub fn solve(games: &str) -> (r: i64)
    ensures
        r >= 0,
{
    let bytes = games.as_bytes();
    let lines = text::split_lines(bytes);
    let mut total: i64 = 0;
    let mut li: usize = 0;
    while li < lines.len()
        invariant
            0 <= li <= lines@.len(),
            total >= 0,
        decreases lines@.len() - li,
    {
        let parts = text::split_byte(lines[li].as_slice(), 58);
        if parts.len() >= 2 {
            let tokens = text::split_whitespace(parts[1].as_slice());
            let mut red: i64 = 0;
            let mut green: i64 = 0;
            let mut blue: i64 = 0;
            let mut t: usize = 0;
            while t < tokens.len()
                invariant
                    0 <= t <= tokens@.len(),
                    red >= 0,
                    green >= 0,
                    blue >= 0,
                decreases tokens@.len() - t,
            {
                match text::parse_u64(tokens[t].as_slice()) {
                    Some(v) => {
                        if t + 1 < tokens.len() && v <= 0x7fff_ffff_ffff_ffffu64 {
                            let count = v as i64;
                            let colour = &tokens[t + 1];
                            if colour.len() >= 1 {
                                let c = colour[0];
                                if c == 114 {
                                    if count > red {
                                        red = count;
                                    }
                                } else if c == 103 {
                                    if count > green {
                                        green = count;
                                    }
                                } else if c == 98 {
                                    if count > blue {
                                        blue = count;
                                    }
                                }
                            }
                        }
                    },
                    None => {},
                }
                t = t + 1;
            }
            proof {
                crate::arith::lemma_mul_nonneg(red as int, green as int);
            }
            let rg = sat_mul(red, green);
            proof {
                crate::arith::lemma_mul_nonneg(rg as int, blue as int);
            }
            total = sat_add(total, sat_mul(rg, blue));
        }
        li = li + 1;
    }
    total
}

} // verus!
