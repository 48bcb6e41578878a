//! Rolling rocks: every round rock rolls as far north as it can; the load
//! is the sum of the rows-from-bottom of the settled rocks.

use vstd::prelude::*;
use crate::arith::{sat_add, sat_mul, sat_sub, to_i64};
use crate::text;

verus! {

/// One cell of the platform.
#[derive(Clone, Copy, PartialEq, Eq, Structural, Debug)]
pub enum Rock {
    Round,
    Square,
    Air,
}

/// Reads the platform; unknown bytes count as air.
pub fn parse(content: &str) -> (r: Vec<Vec<Rock>>) {
    let lines = text::split_lines(content.as_bytes());
    let mut map: Vec<Vec<Rock>> = Vec::new();
    let mut i: usize = 0;
    while i < lines.len()
        invariant
            0 <= i <= lines@.len(),
        decreases lines@.len() - i,
    {
        let line = lines[i].as_slice();
        let mut row: Vec<Rock> = Vec::new();
        let mut j: usize = 0;
        while j < line.len()
            invariant
                0 <= j <= line@.len(),
            decreases line@.len() - j,
        {
            let b = line[j];
            if b == 79 {
                row.push(Rock::Round);
            } else if b == 35 {
                row.push(Rock::Square);
            } else {
                row.push(Rock::Air);
            }
            j = j + 1;
        }
        map.push(row);
        i = i + 1;
    }
    map
}

/// The grid as mathematical values.
pub open spec fn rock_view(map: Seq<Vec<Rock>>) -> Seq<Seq<Rock>> {
    map.map_values(|r: Vec<Rock>| r@)
}

/// The rock at `(i, j)`, cells missing from ragged rows counting as air.
pub open spec fn rock_at(rows: Seq<Seq<Rock>>, i: int, j: int) -> Rock {
    if 0 <= i < rows.len() && 0 <= j < rows[i].len() {
        rows[i][j]
    } else {
        Rock::Air
    }
}

/// The load a settled segment adds: round rocks starting at row `start`
/// score `h - start` down to `h - start - count + 1`, summed by the
/// arithmetic-series formula (clamped as the scan computes it, and skipped
/// when the clamped value is not positive).
pub open spec fn segment_gain(h: int, start: int, count: i64, t0: i64) -> i64 {
    let biggest = crate::arith::clamp64(
        crate::arith::clamp64(h) - crate::arith::clamp64(start),
    );
    let smallest = crate::arith::clamp64(crate::arith::clamp64(biggest - count) + 1);
    let seg = crate::arith::clamp64(biggest + smallest);
    let gain = crate::arith::clamp64(seg * count) / 2;
    if gain > 0 {
        crate::arith::clamp64(t0 + gain) as i64
    } else {
        t0
    }
}

/// The scan state after the first `i` rows of column `j`: the running
/// total, the segment start, whether a square rock just closed a segment,
/// and the round rocks seen since.
pub open spec fn col_state(rows: Seq<Seq<Rock>>, h: int, j: int, i: int, t0: i64) -> (
    i64,
    int,
    bool,
    i64,
)
    decreases i,
{
    if i <= 0 {
        (t0, 0int, true, 0i64)
    } else {
        let st = col_state(rows, h, j, i - 1, t0);
        let start = if st.2 {
            i - 1
        } else {
            st.1
        };
        match rock_at(rows, i - 1, j) {
            Rock::Air => (st.0, start, false, st.3),
            Rock::Round => (st.0, start, false, crate::arith::clamp64(st.3 + 1) as i64),
            Rock::Square => (
                if st.3 > 0 {
                    segment_gain(h, start, st.3, st.0)
                } else {
                    st.0
                },
                start,
                true,
                0i64,
            ),
        }
    }
}

/// The whole load of column `j`, folded into the incoming total.
pub open spec fn col_total(rows: Seq<Seq<Rock>>, h: int, j: int, t0: i64) -> i64 {
    let st = col_state(rows, h, j, h, t0);
    if st.3 > 0 {
        segment_gain(h, st.1, st.3, st.0)
    } else {
        st.0
    }
}

/// The load of the first `w` columns.
pub open spec fn tilt_total(rows: Seq<Seq<Rock>>, h: int, w: int) -> i64
    decreases w,
{
    if w <= 0 || h <= 0 {
        0i64
    } else {
        col_total(rows, h, w - 1, tilt_total(rows, h, w - 1))
    }
}

/// The total north load after every round rock rolls up to the nearest
/// square rock (or the top), computed per column by arithmetic over each
/// segment between square rocks: exactly `tilt_total` over the first row's
/// width.
pub fn tilt_north(map: &Vec<Vec<Rock>>) -> (r: i64)
    ensures
        r == ({
            let rows = rock_view(map@);
            if rows.len() == 0 {
                0int
            } else {
                tilt_total(rows, rows.len() as int, rows[0].len() as int) as int
            }
        }),
        r >= 0,
{
    let ghost rows = rock_view(map@);
    proof {
        assert(forall|k: int| 0 <= k < map@.len() ==> #[trigger] rows[k] == (map@[k])@);
    }
    let h = map.len();
    if h == 0 {
        return 0;
    }
    let w = map[0].len();
    let mut total: i64 = 0;
    let mut j: usize = 0;
    while j < w
        invariant
            0 <= j <= w,
            h == map@.len(),
            h >= 1,
            w == rows[0].len(),
            rows == rock_view(map@),
            forall|k: int| 0 <= k < map@.len() ==> #[trigger] rows[k] == (map@[k])@,
            total == tilt_total(rows, h as int, j as int),
            total >= 0,
        decreases w - j,
    {
        let ghost t_in = total;
        let mut start_pos: usize = 0;
        let mut after_square = true;
        let mut round_count: i64 = 0;
        let mut i: usize = 0;
        while i < h
            invariant
                0 <= i <= h,
                h == map@.len(),
                j < w,
                rows == rock_view(map@),
                forall|k: int| 0 <= k < map@.len() ==> #[trigger] rows[k] == (map@[k])@,
                total >= 0,
                start_pos <= h,
                round_count >= 0,
                ({
                    let st = col_state(rows, h as int, j as int, i as int, t_in);
                    &&& total == st.0
                    &&& after_square == st.2
                    &&& round_count == st.3
                    &&& (!after_square ==> start_pos as int == st.1)
                }),
            decreases h - i,
        {
            if after_square {
                start_pos = i;
                after_square = false;
            }
            let ghost start_now = start_pos as int;
            let row = map[i].as_slice();
            let cell = if j < row.len() {
                row[j]
            } else {
                Rock::Air
            };
            proof {
                assert(cell == rock_at(rows, i as int, j as int));
                assert(start_now == ({
                    let st = col_state(rows, h as int, j as int, i as int, t_in);
                    if st.2 {
                        i as int
                    } else {
                        st.1
                    }
                }));
            }
            match cell {
                Rock::Air => {},
                Rock::Round => {
                    round_count = sat_add(round_count, 1);
                },
                Rock::Square => {
                    if round_count > 0 {
                        let biggest = sat_sub(to_i64(h), to_i64(start_pos));
                        let smallest = sat_add(sat_sub(biggest, round_count), 1);
                        let seg = sat_add(biggest, smallest);
                        let gain = sat_mul(seg, round_count) / 2;
                        if gain > 0 {
                            total = sat_add(total, gain);
                        }
                    }
                    after_square = true;
                    round_count = 0;
                },
            }
            i = i + 1;
        }
        if round_count > 0 {
            let biggest = sat_sub(to_i64(h), to_i64(start_pos));
            let smallest = sat_add(sat_sub(biggest, round_count), 1);
            let seg = sat_add(biggest, smallest);
            let gain = sat_mul(seg, round_count) / 2;
            if gain > 0 {
                total = sat_add(total, gain);
            }
        }
        j = j + 1;
    }
    total
}

/// Parses the platform and returns the tilted-north load.
pub fn solve(content: &str) -> (r: i64)
    ensures
        r >= 0,
{
    let map = parse(content);
    tilt_north(&map)
}

} // verus!
