//! One long boat race: the rows' digits are read as a single time and a
//! single record distance.

use vstd::prelude::*;
use crate::arith::{sat_add, sat_mul, sat_sub};
use crate::text;

verus! {

/// The race: its duration and its record distance.
pub struct Game {
    pub time: i64,
    pub dist: i64,
}

/// Reads all digits of a row as one number, ignoring every other byte.
fn digits_of_row(row: &[u8]) -> (r: i64) {
    let mut val: i64 = 0;
    let mut i: usize = 0;
    while i < row.len()
        invariant
            0 <= i <= row@.len(),
            val >= 0,
        decreases row@.len() - i,
    {
        let b = row[i];
        if 48 <= b && b <= 57 {
            val = sat_add(sat_mul(val, 10), (b - 48) as i64);
        }
        i = i + 1;
    }
    val
}

/// Reads the two rows into the single race.
pub fn parse(content: &str) -> (r: Game) {
    let lines = text::split_lines(content.as_bytes());
    if lines.len() < 2 {
        return Game { time: 0, dist: 0 };
    }
    let t = digits_of_row(lines[0].as_slice());
    let d = digits_of_row(lines[1].as_slice());
    Game { time: t, dist: d }
}

/// Counts hold times `i` with `i * (time - i) > dist`, scanning down from
/// the midpoint while the product still beats the record.
pub fn calculate_number_of_ways(game: Game) -> (r: i64)
    ensures
        r == ({
            if game.time < 0 {
                0int
            } else {
                let w = crate::day06_1::spec_wins(game.time, game.dist, game.time as int / 2);
                if game.time % 2 == 0 {
                    crate::arith::clamp64(crate::arith::clamp64(w * 2) - 1)
                } else {
                    crate::arith::clamp64(w * 2)
                }
            }
        }),
        r >= -1,
{
    if game.time < 0 {
        return 0;
    }
    let ghost top = game.time as int / 2;
    let mut wins: i64 = 0;
    let mut i: i64 = game.time / 2;
    let mut going = true;
    while going && i >= 0
        invariant
            i >= -1,
            i <= top,
            0 <= wins <= game.time / 2 + 1 - i,
            going ==> wins + crate::day06_1::spec_wins(game.time, game.dist, i as int) == crate::day06_1::spec_wins(
                game.time,
                game.dist,
                top,
            ),
            !going ==> wins == crate::day06_1::spec_wins(game.time, game.dist, top),
        decreases i + 1,
    {
        if sat_mul(i, sat_sub(game.time, i)) > game.dist {
            wins = wins + 1;
        } else {
            going = false;
        }
        i = i - 1;
    }
    proof {
        if going {
            assert(crate::day06_1::spec_wins(game.time, game.dist, i as int) == 0);
        }
        assert(wins == crate::day06_1::spec_wins(game.time, game.dist, top));
        crate::arith::lemma_mul_nonneg(wins as int, 2);
    }
    if game.time % 2 == 0 {
        sat_sub(sat_mul(wins, 2), 1)
    } else {
        sat_mul(wins, 2)
    }
}

/// The number of winning hold times for the single race.
pub fn solve(content: &str) -> (r: i64) {
    let game = parse(content);
    calculate_number_of_ways(game)
}

} // verus!
