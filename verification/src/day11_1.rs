//! Expanding universe: pairwise distances between galaxies after every
//! starless row and column doubles.

use vstd::prelude::*;
use crate::arith::{abs_diff, sat_add, to_i64};
use crate::text;

verus! {

/// A galaxy position.
pub struct Coord {
    pub y: i64,
    pub x: i64,
}

impl Coord {
    /// The taxicab distance to `other`.
    pub fn manhattan(&self, other: &Coord) -> (r: i64)
        ensures
            r >= 0,
    {
        sat_add(abs_diff(self.y, other.y), abs_diff(self.x, other.x))
    }
}

/// Reads the sky and returns each galaxy's coordinates, with every starless
/// row and column counted twice.
pub fn parse(content: &str) -> (r: Vec<Coord>) {
    let grid = text::split_lines(content.as_bytes());
    let h = grid.len();
    let w = if h > 0 {
        grid[0].len()
    } else {
        0
    };
    // cumulative count of starless rows above each row
    let mut row_cum: Vec<i64> = Vec::new();
    let mut cum: i64 = 0;
    let mut i: usize = 0;
    while i < h
        invariant
            row_cum@.len() == i <= h,
            h == grid@.len(),
            0 <= cum,
        decreases h - i,
    {
        let row = grid[i].as_slice();
        let mut empty = true;
        let mut j: usize = 0;
        while j < row.len()
            invariant
                0 <= j <= row@.len(),
            decreases row@.len() - j,
        {
            if row[j] == 35 {
                empty = false;
            }
            j = j + 1;
        }
        if empty {
            cum = crate::arith::sat_add(cum, 1);
        }
        row_cum.push(cum);
        i = i + 1;
    }
    // cumulative count of starless columns left of each column
    let mut col_cum: Vec<i64> = Vec::new();
    let mut ccum: i64 = 0;
    let mut j: usize = 0;
    while j < w
        invariant
            col_cum@.len() == j <= w,
            h == grid@.len(),
            0 <= ccum,
        decreases w - j,
    {
        let mut empty = true;
        let mut i2: usize = 0;
        while i2 < h
            invariant
                0 <= i2 <= h,
                h == grid@.len(),
            decreases h - i2,
        {
            let row = grid[i2].as_slice();
            if j < row.len() && row[j] == 35 {
                empty = false;
            }
            i2 = i2 + 1;
        }
        if empty {
            ccum = crate::arith::sat_add(ccum, 1);
        }
        col_cum.push(ccum);
        j = j + 1;
    }
    let mut galaxies: Vec<Coord> = Vec::new();
    let mut gi: usize = 0;
    while gi < h
        invariant
            0 <= gi <= h,
            h == grid@.len(),
            row_cum@.len() == h,
            col_cum@.len() == w,
        decreases h - gi,
    {
        let row = grid[gi].as_slice();
        let mut gj: usize = 0;
        while gj < row.len()
            invariant
                0 <= gj <= row@.len(),
                gi < h,
                h == grid@.len(),
                row_cum@.len() == h,
                col_cum@.len() == w,
                row@ == (grid@[gi as int])@,
            decreases row@.len() - gj,
    {
            if row[gj] == 35 && gj < w {
                galaxies.push(Coord {
                    y: sat_add(to_i64(gi), row_cum[gi]),
                    x: sat_add(to_i64(gj), col_cum[gj]),
                });
            }
            gj = gj + 1;
        }
        gi = gi + 1;
    }
    galaxies
}

/// The sum of taxicab distances over all unordered galaxy pairs.
pub fn shortest_paths(galaxies: &Vec<Coord>) -> (r: i64)
    ensures
        r >= 0,
{
    let mut dist: i64 = 0;
    let n = galaxies.len();
    let mut i: usize = 0;
    while i < n
        invariant
            0 <= i <= n,
            n == galaxies@.len(),
            dist >= 0,
        decreases n - i,
    {
        let mut j: usize = i + 1;
        while j < n
            invariant
                i < j <= n || j == i + 1,
                n == galaxies@.len(),
                i < n,
                dist >= 0,
            decreases n - j,
        {
            let d = galaxies[i].manhattan(&galaxies[j]);
            dist = sat_add(dist, d);
            j = j + 1;
        }
        i = i + 1;
    }
    dist
}

/// The sum of pairwise galaxy distances in the doubled sky.
pub fn solve(content: &str) -> (r: i64)
    ensures
        r >= 0,
{
    let galaxies = parse(content);
    shortest_paths(&galaxies)
}

} // verus!
