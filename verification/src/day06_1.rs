//! Boat races: for each race, how many button-hold times beat the record.

use vstd::prelude::*;
use crate::arith::{sat_mul, sat_sub};
use crate::text;

verus! {

/// One race: its duration and its record distance.
pub struct Game {
    pub time: i64,
    pub dist: i64,
}

/// Reads the `Time:` and `Distance:` rows into one race per column.
pub fn parse(content: &str) -> (r: Vec<Game>) {
    let lines = text::split_lines(content.as_bytes());
    let mut games: Vec<Game> = Vec::new();
    if lines.len() < 2 {
        return games;
    }
    let tparts = text::split_byte(lines[0].as_slice(), 58);
    let dparts = text::split_byte(lines[1].as_slice(), 58);
    if tparts.len() < 2 || dparts.len() < 2 {
        return games;
    }
    let times = text::split_whitespace(tparts[1].as_slice());
    let dists = text::split_whitespace(dparts[1].as_slice());
    let n = if times.len() <= dists.len() {
        times.len()
    } else {
        dists.len()
    };
    let mut i: usize = 0;
    while i < n
        invariant
            0 <= i <= n,
            n <= times@.len(),
            n <= dists@.len(),
        decreases n - i,
    {
        let t = match text::parse_i64(times[i].as_slice()) {
            Some(v) => v,
            None => 0,
        };
        let d = match text::parse_i64(dists[i].as_slice()) {
            Some(v) => v,
            None => 0,
        };
        games.push(Game { time: t, dist: d });
        i = i + 1;
    }
    games
}

/// Counts hold times `i` with `i * (time - i) > dist`, scanning down from
/// the midpoint while the product still beats the record.
/// How many hold times, counting down from `i`, consecutively beat the
/// record: the streak of holds with `i * (time - i) > dist` (clamped as the
/// scan computes it).
pub open spec fn spec_wins(time: i64, dist: i64, i: int) -> int
    decreases i + 1,
{
    if i < 0 {
        0
    } else if crate::arith::clamp64(i * crate::arith::clamp64(time - i)) > dist {
        1 + spec_wins(time, dist, i - 1)
    } else {
        0
    }
}

pub fn calculate_number_of_ways(game: Game) -> (r: i64)
    ensures
        r == ({
            if game.time < 0 {
                0int
            } else {
                let w = spec_wins(game.time, game.dist, game.time as int / 2);
                if game.time % 2 == 0 {
                    crate::arith::clamp64(crate::arith::clamp64(w * 2) - 1)
                } else {
                    crate::arith::clamp64(w * 2)
                }
            }
        }),
        r >= -1,
{
    if game.time < 0 {
        return 0;
    }
    let ghost top = game.time as int / 2;
    let mut wins: i64 = 0;
    let mut i: i64 = game.time / 2;
    let mut going = true;
    while going && i >= 0
        invariant
            i >= -1,
            i <= top,
            0 <= wins <= game.time / 2 + 1 - i,
            going ==> wins + spec_wins(game.time, game.dist, i as int) == spec_wins(
                game.time,
                game.dist,
                top,
            ),
            !going ==> wins == spec_wins(game.time, game.dist, top),
        decreases i + 1,
    {
        if sat_mul(i, sat_sub(game.time, i)) > game.dist {
            wins = wins + 1;
        } else {
            going = false;
        }
        i = i - 1;
    }
    proof {
        if going {
            assert(spec_wins(game.time, game.dist, i as int) == 0);
        }
        assert(wins == spec_wins(game.time, game.dist, top));
        crate::arith::lemma_mul_nonneg(wins as int, 2);
    }
    if game.time % 2 == 0 {
        sat_sub(sat_mul(wins, 2), 1)
    } else {
        sat_mul(wins, 2)
    }
}

/// The product over all races of the number of winning hold times.
pub fn solve(content: &str) -> (r: i64) {
    let games = parse(content);
    let mut product: i64 = 1;
    let mut i: usize = 0;
    while i < games.len()
        invariant
            0 <= i <= games@.len(),
        decreases games@.len() - i,
    {
        let g = Game { time: games[i].time, dist: games[i].dist };
        product = sat_mul(product, calculate_number_of_ways(g));
        i = i + 1;
    }
    product
}

} // verus!
