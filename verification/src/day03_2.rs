//! Gear ratios: a `*` adjacent to exactly two numbers contributes the
//! product of those numbers.

use vstd::prelude::*;
use vstd::string::StringSliceAdditionalSpecFns;
use crate::arith::{sat_add, sat_mul};
use crate::text;

verus! {

/// The coordinates of the `*` cells of row `i`, left to right.
pub open spec fn stars_in_row(row: Seq<u8>, i: int) -> Seq<(usize, usize)>
    decreases row.len(),
{
    if row.len() == 0 {
        Seq::empty()
    } else {
        stars_in_row(row.drop_last(), i) + (if row.last() == 42 {
            seq![(i as usize, (row.len() - 1) as usize)]
        } else {
            Seq::<(usize, usize)>::empty()
        })
    }
}

/// The coordinates of the `*` cells of the first `n` rows, in row-major
/// order.
pub open spec fn stars_upto(lv: Seq<Seq<u8>>, n: int) -> Seq<(usize, usize)>
    decreases n,
{
    if n <= 0 {
        Seq::empty()
    } else {
        stars_upto(lv, n - 1) + stars_in_row(lv[n - 1], n - 1)
    }
}

/// The coordinates of every `*` on the board, in row-major order.
pub fn find_gear_locations(engine: &str) -> (r: Vec<(usize, usize)>)
    ensures
        ({
            let lv = text::spec_lines(engine.spec_bytes());
            r@ == stars_upto(lv, lv.len() as int)
        }),
{
    let lines = text::split_lines(engine.as_bytes());
    let ghost lv = text::spec_lines(engine.spec_bytes());
    proof {
        assert(text::deep_view(lines@) == lv);
        assert(forall|k: int| 0 <= k < lines@.len() ==> (#[trigger] lines@[k])@ == lv[k]);
    }
    let mut gears: Vec<(usize, usize)> = Vec::new();
    let mut i: usize = 0;
    while i < lines.len()
        invariant
            0 <= i <= lines@.len(),
            lines@.len() == lv.len(),
            forall|k: int| 0 <= k < lines@.len() ==> (#[trigger] lines@[k])@ == lv[k],
            gears@ == stars_upto(lv, i as int),
        decreases lines@.len() - i,
    {
        let row = lines[i].as_slice();
        let ghost base = gears@;
        proof {
            assert(lv[i as int].subrange(0, 0) =~= Seq::<u8>::empty());
            assert(gears@ =~= base + stars_in_row(lv[i as int].subrange(0, 0), i as int));
        }
        let mut j: usize = 0;
        while j < row.len()
            invariant
                0 <= j <= row@.len(),
                i < lines@.len(),
                lines@.len() == lv.len(),
                row@ == lv[i as int],
                base == stars_upto(lv, i as int),
                gears@ == base + stars_in_row(lv[i as int].subrange(0, j as int), i as int),
            decreases row@.len() - j,
        {
            proof {
                let pre = lv[i as int].subrange(0, j as int + 1);
                assert(pre.drop_last() =~= lv[i as int].subrange(0, j as int));
                assert(pre.last() == lv[i as int][j as int]);
                assert(pre.len() - 1 == j as int);
            }
            if row[j] == 42 {
                gears.push((i, j));
            }
            proof {
                assert(gears@ =~= base + stars_in_row(
                    lv[i as int].subrange(0, j as int + 1),
                    i as int,
                ));
            }
            j = j + 1;
        }
        proof {
            assert(lv[i as int].subrange(0, row@.len() as int) =~= lv[i as int]);
        }
        i = i + 1;
    }
    gears
}

/// The value of one board cell: the digit it shows, or `-1`.
pub open spec fn cell_value(b: u8) -> i64 {
    if 48 <= b && b <= 57 {
        (b - 48) as i64
    } else {
        -1i64
    }
}

/// The board with each digit as its value and every other cell as `-1`:
/// one row per input line, each cell `cell_value` of its byte.
pub fn parse_to_number(engine: &str) -> (r: Vec<Vec<i64>>)
    ensures
        ({
            let lv = text::spec_lines(engine.spec_bytes());
            &&& r@.len() == lv.len()
            &&& forall|i: int, j: int|
                0 <= i < lv.len() && 0 <= j < lv[i].len() ==> (#[trigger] (r@[i])@[j])
                    == cell_value(lv[i][j])
            &&& forall|i: int| 0 <= i < lv.len() ==> (#[trigger] r@[i])@.len() == lv[i].len()
        }),
{
    let lines = text::split_lines(engine.as_bytes());
    let ghost lv = text::spec_lines(engine.spec_bytes());
    proof {
        assert(text::deep_view(lines@) == lv);
        assert(forall|k: int| 0 <= k < lines@.len() ==> (#[trigger] lines@[k])@ == lv[k]);
    }
    let mut parsed: Vec<Vec<i64>> = Vec::new();
    let mut i: usize = 0;
    while i < lines.len()
        invariant
            0 <= i <= lines@.len(),
            lines@.len() == lv.len(),
            forall|k: int| 0 <= k < lines@.len() ==> (#[trigger] lines@[k])@ == lv[k],
            parsed@.len() == i,
            forall|k: int, j: int|
                0 <= k < i && 0 <= j < lv[k].len() ==> (#[trigger] (parsed@[k])@[j])
                    == cell_value(lv[k][j]),
            forall|k: int| 0 <= k < i ==> (#[trigger] parsed@[k])@.len() == lv[k].len(),
        decreases lines@.len() - i,
    {
        let row = lines[i].as_slice();
        let mut out: Vec<i64> = Vec::new();
        let mut j: usize = 0;
        while j < row.len()
            invariant
                0 <= j <= row@.len(),
                i < lines@.len(),
                row@ == lv[i as int],
                out@.len() == j,
                forall|k: int| 0 <= k < j ==> #[trigger] out@[k] == cell_value(row@[k]),
            decreases row@.len() - j,
        {
            let b = row[j];
            if 48 <= b && b <= 57 {
                out.push((b - 48) as i64);
            } else {
                out.push(-1);
            }
            j = j + 1;
        }
        parsed.push(out);
        i = i + 1;
    }
    parsed
}

/// The labelling state after one row prefix, with incoming group counter
/// `g0`: the labels written, the counter, and whether a run is open.
pub open spec fn label_state(row: Seq<i64>, g0: i64) -> (Seq<i64>, i64, bool)
    decreases row.len(),
{
    if row.len() == 0 {
        (Seq::empty(), g0, false)
    } else {
        let st = label_state(row.drop_last(), g0);
        if row.last() != -1 {
            (st.0.push(st.1), st.1, true)
        } else if st.2 {
            (st.0.push(-1i64), crate::arith::clamp64(st.1 + 1) as i64, false)
        } else {
            (st.0.push(-1i64), st.1, false)
        }
    }
}

/// One row's labels and the group counter it hands to the next row.
pub open spec fn label_row(row: Seq<i64>, g0: i64) -> (Seq<i64>, i64) {
    let st = label_state(row, g0);
    (
        st.0,
        if st.2 {
            crate::arith::clamp64(st.1 + 1) as i64
        } else {
            st.1
        },
    )
}

/// The labels of the first `n` rows and the counter after them.
pub open spec fn labels_upto(rows: Seq<Seq<i64>>, n: int) -> (Seq<Seq<i64>>, i64)
    decreases n,
{
    if n <= 0 {
        (Seq::empty(), 0i64)
    } else {
        let prev = labels_upto(rows, n - 1);
        let r = label_row(rows[n - 1], prev.1);
        (prev.0.push(r.0), r.1)
    }
}

/// Labels each maximal horizontal digit run with a group number, counting
/// the runs in row-major order; every other cell gets `-1`.
pub fn groupify(parsed: &Vec<Vec<i64>>) -> (r: Vec<Vec<i64>>)
    ensures
        board_view(r@) == labels_upto(board_view(parsed@), parsed@.len() as int).0,
        r@.len() == parsed@.len(),
        forall|i: int|
            0 <= i < parsed@.len() ==> (#[trigger] r@[i])@.len() == (parsed@[i])@.len(),
{
    let ghost rows = board_view(parsed@);
    proof {
        assert(forall|k: int| 0 <= k < parsed@.len() ==> #[trigger] rows[k] == (parsed@[k])@);
        assert(board_view(Seq::<Vec<i64>>::empty()) =~= Seq::<Seq<i64>>::empty());
    }
    let mut groups: Vec<Vec<i64>> = Vec::new();
    let mut curr_group: i64 = 0;
    let mut previously_valid = false;
    let mut i: usize = 0;
    while i < parsed.len()
        invariant
            0 <= i <= parsed@.len(),
            rows == board_view(parsed@),
            forall|k: int| 0 <= k < parsed@.len() ==> #[trigger] rows[k] == (parsed@[k])@,
            groups@.len() == i,
            forall|k: int|
                0 <= k < i ==> (#[trigger] groups@[k])@.len() == (parsed@[k])@.len(),
            board_view(groups@) == labels_upto(rows, i as int).0,
            curr_group == labels_upto(rows, i as int).1,
            !previously_valid,
        decreases parsed@.len() - i,
    {
        let row = &parsed[i];
        let ghost g_in = curr_group;
        proof {
            assert(rows[i as int].subrange(0, 0) =~= Seq::<i64>::empty());
        }
        let mut out: Vec<i64> = Vec::new();
        let mut j: usize = 0;
        while j < row.len()
            invariant
                0 <= j <= row@.len(),
                out@.len() == j,
                i < parsed@.len(),
                row@ == rows[i as int],
                ({
                    let st = label_state(rows[i as int].subrange(0, j as int), g_in);
                    &&& out@ == st.0
                    &&& curr_group == st.1
                    &&& previously_valid == st.2
                }),
            decreases row@.len() - j,
        {
            proof {
                let pre = rows[i as int].subrange(0, j as int + 1);
                assert(pre.drop_last() =~= rows[i as int].subrange(0, j as int));
                assert(pre.last() == rows[i as int][j as int]);
            }
            if row[j] != -1 {
                out.push(curr_group);
                previously_valid = true;
            } else {
                if previously_valid {
                    curr_group = sat_add(curr_group, 1);
                    previously_valid = false;
                }
                out.push(-1);
            }
            j = j + 1;
        }
        proof {
            assert(rows[i as int].subrange(0, row@.len() as int) =~= rows[i as int]);
        }
        if previously_valid {
            curr_group = sat_add(curr_group, 1);
            previously_valid = false;
        }
        groups.push(out);
        proof {
            assert(board_view(groups@) =~~= board_view(groups@.drop_last()).push(
                groups@.last()@,
            ));
        }
        i = i + 1;
    }
    groups
}

/// The run-reading state after one row prefix: the numbers already emitted,
/// the number being accumulated, and whether a run is open.
pub open spec fn runs_state(row: Seq<i64>) -> (Seq<i64>, i64, bool)
    decreases row.len(),
{
    if row.len() == 0 {
        (Seq::empty(), 0i64, false)
    } else {
        let st = runs_state(row.drop_last());
        if row.last() != -1 {
            (
                st.0,
                crate::arith::clamp64(crate::arith::clamp64(st.1 * 10) + row.last()) as i64,
                true,
            )
        } else if st.2 {
            (st.0.push(st.1), 0i64, false)
        } else {
            st
        }
    }
}

/// A closed run-reading state holds no pending number.
proof fn lemma_runs_state_closed(row: Seq<i64>)
    ensures
        !runs_state(row).2 ==> runs_state(row).1 == 0,
    decreases row.len(),
{
    if row.len() > 0 {
        lemma_runs_state_closed(row.drop_last());
    }
}

/// The numbers a row's digit runs spell, left to right.
pub open spec fn row_numbers(row: Seq<i64>) -> Seq<i64> {
    let st = runs_state(row);
    if st.2 {
        st.0.push(st.1)
    } else {
        st.0
    }
}

/// The numbers of the first `n` rows, in row-major order.
pub open spec fn numbers_upto(rows: Seq<Seq<i64>>, n: int) -> Seq<i64>
    decreases n,
{
    if n <= 0 {
        Seq::empty()
    } else {
        numbers_upto(rows, n - 1) + row_numbers(rows[n - 1])
    }
}

/// The deep view of the parsed board.
pub open spec fn board_view(parsed: Seq<Vec<i64>>) -> Seq<Seq<i64>> {
    parsed.map_values(|r: Vec<i64>| r@)
}

/// The number each group spells, indexed by group number: the digit runs of
/// every row, in row-major order (each digit folded in with the clamped
/// arithmetic the scan uses).
pub fn create_group_mapping(parsed: &Vec<Vec<i64>>) -> (r: Vec<i64>)
    ensures
        r@ == numbers_upto(board_view(parsed@), parsed@.len() as int),
{
    let ghost rows = board_view(parsed@);
    proof {
        assert(forall|k: int| 0 <= k < parsed@.len() ==> #[trigger] rows[k] == (parsed@[k])@);
    }
    let mut mapping: Vec<i64> = Vec::new();
    let mut curr_num: i64 = 0;
    let mut previously_valid = false;
    let mut i: usize = 0;
    while i < parsed.len()
        invariant
            0 <= i <= parsed@.len(),
            rows == board_view(parsed@),
            forall|k: int| 0 <= k < parsed@.len() ==> #[trigger] rows[k] == (parsed@[k])@,
            mapping@ == numbers_upto(rows, i as int),
            curr_num == 0,
            !previously_valid,
        decreases parsed@.len() - i,
    {
        let row = &parsed[i];
        let ghost base = mapping@;
        proof {
            assert(rows[i as int].subrange(0, 0) =~= Seq::<i64>::empty());
        }
        let mut j: usize = 0;
        while j < row.len()
            invariant
                0 <= j <= row@.len(),
                i < parsed@.len(),
                row@ == rows[i as int],
                base == numbers_upto(rows, i as int),
                ({
                    let st = runs_state(rows[i as int].subrange(0, j as int));
                    &&& mapping@ == base + st.0
                    &&& curr_num == st.1
                    &&& previously_valid == st.2
                }),
            decreases row@.len() - j,
        {
            proof {
                let pre = rows[i as int].subrange(0, j as int + 1);
                assert(pre.drop_last() =~= rows[i as int].subrange(0, j as int));
                assert(pre.last() == rows[i as int][j as int]);
            }
            if row[j] != -1 {
                curr_num = sat_add(sat_mul(curr_num, 10), row[j]);
                previously_valid = true;
            } else {
                if previously_valid {
                    mapping.push(curr_num);
                    curr_num = 0;
                    previously_valid = false;
                }
            }
            j = j + 1;
        }
        proof {
            assert(rows[i as int].subrange(0, row@.len() as int) =~= rows[i as int]);
            lemma_runs_state_closed(rows[i as int]);
        }
        if previously_valid {
            mapping.push(curr_num);
            curr_num = 0;
            previously_valid = false;
        }
        i = i + 1;
    }
    mapping
}

/// The group number at `(i, j)`, or `-1` off the board.
fn group_at(groups: &Vec<Vec<i64>>, i: usize, j: usize) -> (r: i64) {
    if i < groups.len() {
        let row = &groups[i];
        if j < row.len() {
            return row[j];
        }
    }
    -1
}

/// Sums the gear ratios: for every `*` with exactly two distinct adjacent
/// number groups, the product of those two numbers.
pub fn solve(engine: &str) -> (r: i64) {
    let gear_locations = find_gear_locations(engine);
    let parsed = parse_to_number(engine);
    let groups = groupify(&parsed);
    let group_mapping = create_group_mapping(&parsed);
    let mut total: i64 = 0;
    let mut g: usize = 0;
    while g < gear_locations.len()
        invariant
            0 <= g <= gear_locations@.len(),
        decreases gear_locations@.len() - g,
    {
        let (gi, gj) = gear_locations[g];
        let mut near: Vec<i64> = Vec::new();
        if gi > usize::MAX - 3 || gj > usize::MAX - 3 {
            g = g + 1;
            continue ;
        }
        let mut dy: usize = 0;
        while dy < 3
            invariant
                0 <= dy <= 3,
                gi <= usize::MAX - 3,
                gj <= usize::MAX - 3,
            decreases 3 - dy,
        {
            let mut dx: usize = 0;
            while dx < 3
                invariant
                    0 <= dx <= 3,
                    dy < 3,
                    gi <= usize::MAX - 3,
                    gj <= usize::MAX - 3,
                decreases 3 - dx,
            {
                if !(dy == 1 && dx == 1) {
                    if gi + dy >= 1 && gj + dx >= 1 {
                        let gid = group_at(&groups, gi + dy - 1, gj + dx - 1);
                        if gid != -1 {
                            let mut dup = false;
                            let mut t: usize = 0;
                            while t < near.len()
                                invariant
                                    0 <= t <= near@.len(),
                                decreases near@.len() - t,
                            {
                                if near[t] == gid {
                                    dup = true;
                                }
                                t = t + 1;
                            }
                            if !dup {
                                near.push(gid);
                            }
                        }
                    }
                }
                dx = dx + 1;
            }
            dy = dy + 1;
        }
        if near.len() == 2 {
            let a = near[0];
            let b = near[1];
            let va = if 0 <= a && (a as usize) < group_mapping.len() {
                group_mapping[a as usize]
            } else {
                0
            };
            let vb = if 0 <= b && (b as usize) < group_mapping.len() {
                group_mapping[b as usize]
            } else {
                0
            };
            total = sat_add(total, sat_mul(va, vb));
        }
        g = g + 1;
    }
    total
}

} // verus!
