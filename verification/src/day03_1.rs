//! Engine schematic: numbers connected (through any run of non-`.` cells)
//! to a symbol are summed.

use vstd::prelude::*;
use crate::arith::sat_add;
use crate::text;

verus! {

/// Reads the schematic into a board of bytes, one row per line.
pub fn parse(engine: &str) -> (r: Vec<Vec<u8>>) {
    text::split_lines(engine.as_bytes())
}

/// Whether the cell `(i, j)` is on the board, marked visited.
fn visited_at(visited: &Vec<Vec<bool>>, i: usize, j: usize) -> (r: bool) {
    if i < visited.len() {
        let row = &visited[i];
        if j < row.len() {
            return row[j];
        }
    }
    false
}

/// Whether the cell `(i, j)` holds something other than `.` (or is off the
/// board, which counts as empty).
fn solid_at(board: &Vec<Vec<u8>>, i: usize, j: usize) -> (r: bool) {
    if i < board.len() {
        let row = &board[i];
        if j < row.len() {
            return row[j] != 46;
        }
    }
    false
}

/// Marks, in `visited`, the whole component of non-`.` cells reachable from
/// `(i, j)` through 8-neighbour steps, by sweeping the board to a fixed
/// point; cells already visited spread as well, which only re-marks cells
/// the earlier seeds would reach anyway.
pub fn floodfill(i: usize, j: usize, board: &Vec<Vec<u8>>, visited: &mut Vec<Vec<bool>>)
    requires
        old(visited)@.len() == board@.len(),
        forall|r: int|
            0 <= r < board@.len() ==> (#[trigger] old(visited)@[r])@.len() == (board@[r])@.len(),
    ensures
        final(visited)@.len() == board@.len(),
        forall|r: int|
            0 <= r < board@.len() ==> (#[trigger] final(visited)@[r])@.len() == (
            board@[r])@.len(),
{
    if !solid_at(board, i, j) {
        return ;
    }
    if i < visited.len() {
        let vrow = &mut visited[i];
        if j < vrow.len() {
            vrow[j] = true;
        }
    }
    let h = board.len();
    let mut wmax: usize = 0;
    let mut r: usize = 0;
    while r < h
        invariant
            0 <= r <= h,
            h == board@.len(),
        decreases h - r,
    {
        if board[r].len() > wmax {
            wmax = board[r].len();
        }
        r = r + 1;
    }
    let budget: u64 = match (h as u64).checked_mul(wmax as u64) {
        Some(v) => match v.checked_add(1) {
            Some(v2) => v2,
            None => u64::MAX,
        },
        None => u64::MAX,
    };
    let mut changed = true;
    let mut it: u64 = 0;
    while it < budget && changed
        invariant
            visited@.len() == board@.len(),
            h == board@.len(),
            forall|rr: int|
                0 <= rr < board@.len() ==> (#[trigger] visited@[rr])@.len() == (
                board@[rr])@.len(),
        decreases budget - it,
    {
        changed = false;
        let mut y: usize = 0;
        while y < h
            invariant
                visited@.len() == board@.len(),
                h == board@.len(),
                forall|rr: int|
                    0 <= rr < board@.len() ==> (#[trigger] visited@[rr])@.len() == (
                    board@[rr])@.len(),
            decreases h - y,
        {
            let w = board[y].len();
            let mut x: usize = 0;
            while x < w
                invariant
                    visited@.len() == board@.len(),
                    h == board@.len(),
                    y < h,
                    w == (board@[y as int])@.len(),
                    forall|rr: int|
                        0 <= rr < board@.len() ==> (#[trigger] visited@[rr])@.len() == (
                        board@[rr])@.len(),
                decreases w - x,
            {
                if solid_at(board, y, x) && !visited_at(visited, y, x) {
                    let mut near = false;
                    if y > 0 {
                        if x > 0 && visited_at(visited, y - 1, x - 1) {
                            near = true;
                        }
                        if visited_at(visited, y - 1, x) {
                            near = true;
                        }
                        if visited_at(visited, y - 1, x + 1) {
                            near = true;
                        }
                    }
                    if x > 0 && visited_at(visited, y, x - 1) {
                        near = true;
                    }
                    if visited_at(visited, y, x + 1) {
                        near = true;
                    }
                    if x > 0 && visited_at(visited, y + 1, x - 1) {
                        near = true;
                    }
                    if visited_at(visited, y + 1, x) {
                        near = true;
                    }
                    if visited_at(visited, y + 1, x + 1) {
                        near = true;
                    }
                    if near {
                        let vrow = &mut visited[y];
                        if x < vrow.len() {
                            vrow[x] = true;
                        }
                        changed = true;
                    }
                }
                x = x + 1;
            }
            y = y + 1;
        }
        it = it + 1;
    }
}

/// The run-summing state after one row prefix, with total `t0` coming in:
/// the running total and the number being accumulated.  A cell joins the
/// current number when it is a visited digit; any other cell flushes.
pub open spec fn connected_state(b: Seq<u8>, v: Seq<bool>, t0: i64) -> (i64, i64)
    recommends
        b.len() == v.len(),
    decreases b.len(),
{
    if b.len() == 0 {
        (t0, 0i64)
    } else {
        let st = connected_state(b.drop_last(), v.drop_last(), t0);
        if 48 <= b.last() <= 57 && v.last() {
            (
                st.0,
                crate::arith::clamp64(
                    crate::arith::clamp64(st.1 * 10) + (b.last() - 48),
                ) as i64,
            )
        } else {
            (crate::arith::clamp64(st.0 + st.1) as i64, 0i64)
        }
    }
}

/// One row's contribution folded into the incoming total.
pub open spec fn row_connected_total(b: Seq<u8>, v: Seq<bool>, t0: i64) -> i64 {
    let st = connected_state(b, v, t0);
    crate::arith::clamp64(st.0 + st.1) as i64
}

/// The total over the first `n` rows.
pub open spec fn connected_total(
    bs: Seq<Seq<u8>>,
    vs: Seq<Seq<bool>>,
    n: int,
) -> i64
    decreases n,
{
    if n <= 0 {
        0i64
    } else {
        row_connected_total(bs[n - 1], vs[n - 1], connected_total(bs, vs, n - 1))
    }
}

/// The view of the visited grid.
pub open spec fn visited_view(v: Seq<Vec<bool>>) -> Seq<Seq<bool>> {
    v.map_values(|r: Vec<bool>| r@)
}

/// Sums every maximal digit run whose digits are all marked visited:
/// exactly `connected_total` over the board and the marks.
pub fn sum_connected(board: &Vec<Vec<u8>>, visited: &Vec<Vec<bool>>) -> (r: i64)
    requires
        visited@.len() == board@.len(),
        forall|r: int|
            0 <= r < board@.len() ==> (#[trigger] visited@[r])@.len() == (board@[r])@.len(),
    ensures
        r == connected_total(
            text::deep_view(board@),
            visited_view(visited@),
            board@.len() as int,
        ),
        r >= 0,
{
    let ghost bs = text::deep_view(board@);
    let ghost vs = visited_view(visited@);
    proof {
        assert(forall|k: int| 0 <= k < board@.len() ==> #[trigger] bs[k] == (board@[k])@);
        assert(forall|k: int| 0 <= k < visited@.len() ==> #[trigger] vs[k] == (visited@[k])@);
    }
    let mut total: i64 = 0;
    let mut i: usize = 0;
    while i < board.len()
        invariant
            0 <= i <= board@.len(),
            total >= 0,
            bs == text::deep_view(board@),
            vs == visited_view(visited@),
            forall|k: int| 0 <= k < board@.len() ==> #[trigger] bs[k] == (board@[k])@,
            forall|k: int| 0 <= k < visited@.len() ==> #[trigger] vs[k] == (visited@[k])@,
            total == connected_total(bs, vs, i as int),
            visited@.len() == board@.len(),
            forall|r: int|
                0 <= r < board@.len() ==> (#[trigger] visited@[r])@.len() == (board@[r])@.len(),
        decreases board@.len() - i,
    {
        let row = &board[i];
        let vrow = &visited[i];
        let ghost t_in = total;
        proof {
            assert(bs[i as int].subrange(0, 0) =~= Seq::<u8>::empty());
            assert(vs[i as int].subrange(0, 0) =~= Seq::<bool>::empty());
        }
        let mut curr_group: i64 = 0;
        let mut j: usize = 0;
        while j < row.len()
            invariant
                0 <= j <= row@.len(),
                i < board@.len(),
                total >= 0,
                curr_group >= 0,
                row@ == bs[i as int],
                vrow@ == vs[i as int],
                vrow@.len() == row@.len(),
                ({
                    let st = connected_state(
                        bs[i as int].subrange(0, j as int),
                        vs[i as int].subrange(0, j as int),
                        t_in,
                    );
                    &&& total == st.0
                    &&& curr_group == st.1
                }),
            decreases row@.len() - j,
        {
            proof {
                let bp = bs[i as int].subrange(0, j as int + 1);
                let vp = vs[i as int].subrange(0, j as int + 1);
                assert(bp.drop_last() =~= bs[i as int].subrange(0, j as int));
                assert(vp.drop_last() =~= vs[i as int].subrange(0, j as int));
                assert(bp.last() == bs[i as int][j as int]);
                assert(vp.last() == vs[i as int][j as int]);
            }
            let b = row[j];
            if 48 <= b && b <= 57 && vrow[j] {
                proof {
                    crate::arith::lemma_mul_nonneg(curr_group as int, 10);
                }
                curr_group = crate::arith::sat_add(
                    crate::arith::sat_mul(curr_group, 10),
                    (b - 48) as i64,
                );
            } else {
                total = sat_add(total, curr_group);
                curr_group = 0;
            }
            j = j + 1;
        }
        proof {
            assert(bs[i as int].subrange(0, row@.len() as int) =~= bs[i as int]);
            assert(vs[i as int].subrange(0, row@.len() as int) =~= vs[i as int]);
        }
        total = sat_add(total, curr_group);
        i = i + 1;
    }
    total
}

/// Floods from every symbol cell, then sums the connected numbers.
pub fn solve(engine: &str) -> (r: i64)
    ensures
        r >= 0,
{
    let board = parse(engine);
    let h = board.len();
    let mut visited: Vec<Vec<bool>> = Vec::new();
    let mut vi: usize = 0;
    while vi < h
        invariant
            visited@.len() == vi <= h,
            h == board@.len(),
            forall|r: int|
                0 <= r < vi ==> (#[trigger] visited@[r])@.len() == (board@[r])@.len(),
        decreases h - vi,
    {
        let w = board[vi].len();
        let mut row: Vec<bool> = Vec::new();
        let mut k: usize = 0;
        while k < w
            invariant
                row@.len() == k <= w,
            decreases w - k,
        {
            row.push(false);
            k = k + 1;
        }
        proof {
            assert(row@.len() == (board@[vi as int])@.len());
        }
        visited.push(row);
        vi = vi + 1;
    }
    let mut i: usize = 0;
    while i < h
        invariant
            0 <= i <= h,
            h == board@.len(),
            visited@.len() == board@.len(),
            forall|r: int|
                0 <= r < board@.len() ==> (#[trigger] visited@[r])@.len() == (board@[r])@.len(),
        decreases h - i,
    {
        let w = board[i].len();
        let mut j: usize = 0;
        while j < w
            invariant
                0 <= j <= w,
                i < h,
                h == board@.len(),
                w == (board@[i as int])@.len(),
                visited@.len() == board@.len(),
                forall|r: int|
                    0 <= r < board@.len() ==> (#[trigger] visited@[r])@.len() == (
                    board@[r])@.len(),
            decreases w - j,
        {
            let b = board[i][j];
            let is_digit = 48 <= b && b <= 57;
            if !is_digit && b != 46 {
                floodfill(i, j, &board, &mut visited);
            }
            j = j + 1;
        }
        i = i + 1;
    }
    sum_connected(&board, &visited)
}

} // verus!
