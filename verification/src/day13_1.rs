//! Mirrored caves: find the horizontal or vertical reflection line in each
//! pattern block.

use vstd::prelude::*;
use crate::arith::{sat_add, sat_mul, to_i64};
use crate::text;

verus! {

/// One pattern block.
pub struct Cave {
    pub data: Vec<Vec<u8>>,
}

/// Whether `k` rows lie above a complete horizontal reflection line: rows
/// mirror around it for as far as the pattern reaches.
pub open spec fn h_mirror_at(rows: Seq<Seq<u8>>, k: int) -> bool {
    forall|i: int|
        0 <= i < (if k <= rows.len() - k {
            k
        } else {
            rows.len() - k
        }) ==> #[trigger] rows[k - 1 - i] == rows[k + i]
}

impl Cave {
    /// The number of rows above the topmost complete horizontal mirror
    /// line, if one exists.
    pub fn find_horizontal_mirror(&self) -> (r: Option<usize>)
        ensures
            ({
                let rows = text::deep_view(self.data@);
                &&& (r matches Some(m) ==> 1 <= m < rows.len() && h_mirror_at(rows, m as int)
                    && forall|k: int| 1 <= k < m ==> !#[trigger] h_mirror_at(rows, k))
                &&& (r is None ==> forall|k: int|
                    1 <= k < rows.len() ==> !#[trigger] h_mirror_at(rows, k))
            }),
    {
        let ghost rows = text::deep_view(self.data@);
        proof {
            assert(forall|x: int|
                0 <= x < self.data@.len() ==> #[trigger] rows[x] == (self.data@[x])@);
        }
        let nrows = self.data.len();
        if nrows == 0 {
            return None;
        }
        let mut mirror: usize = 0;
        while mirror < nrows - 1
            invariant
                rows == text::deep_view(self.data@),
                forall|x: int| 0 <= x < nrows ==> #[trigger] rows[x] == (self.data@[x])@,
                nrows == self.data@.len(),
                nrows >= 1,
                0 <= mirror,
                forall|k: int| 1 <= k <= mirror ==> !#[trigger] h_mirror_at(rows, k),
            decreases nrows - 1 - mirror,
        {
            let mut possible = true;
            let comparisons = if mirror + 1 <= nrows - mirror - 1 {
                mirror + 1
            } else {
                nrows - mirror - 1
            };
            let ghost k = mirror + 1;
            let mut i: usize = 0;
            while i < comparisons
                invariant
                    rows == text::deep_view(self.data@),
                    forall|x: int| 0 <= x < nrows ==> #[trigger] rows[x] == (self.data@[x])@,
                    nrows == self.data@.len(),
                    mirror < nrows - 1,
                    k == mirror + 1,
                    comparisons <= mirror + 1,
                    mirror + 1 + comparisons <= nrows,
                    comparisons == (if k <= nrows - k {
                        k as int
                    } else {
                        nrows - k
                    }),
                    0 <= i <= comparisons,
                    possible == (forall|ii: int|
                        0 <= ii < i ==> #[trigger] rows[k - 1 - ii] == rows[k + ii]),
                decreases comparisons - i,
            {
                let above = &self.data[mirror - i];
                let below = &self.data[mirror + i + 1];
                if !text::bytes_eq(above.as_slice(), below.as_slice()) {
                    possible = false;
                    proof {
                        assert(rows[k - 1 - i] != rows[k + i]);
                    }
                }
                i = i + 1;
            }
            proof {
                assert(possible == h_mirror_at(rows, k));
            }
            if possible {
                return Some(mirror + 1);
            }
            mirror = mirror + 1;
        }
        None
    }

    /// The number of columns left of the leftmost complete vertical mirror
    /// line, if one exists.
    pub fn find_vertical_mirror(&self) -> (r: Option<usize>)
        ensures
            ({
                let rows = text::deep_view(self.data@);
                let w = if rows.len() > 0 {
                    rows[0].len() as int
                } else {
                    0
                };
                &&& (r matches Some(m) ==> 1 <= m < w && v_mirror_at(rows, w, m as int)
                    && forall|k: int| 1 <= k < m ==> !#[trigger] v_mirror_at(rows, w, k))
                &&& (r is None && rows.len() > 0 ==> forall|k: int|
                    1 <= k < w ==> !#[trigger] v_mirror_at(rows, w, k))
            }),
    {
        let ghost rows = text::deep_view(self.data@);
        proof {
            assert(forall|x: int|
                0 <= x < self.data@.len() ==> #[trigger] rows[x] == (self.data@[x])@);
        }
        let nrows = self.data.len();
        if nrows == 0 {
            return None;
        }
        let ncols = self.data[0].len();
        if ncols == 0 {
            return None;
        }
        let mut mirror: usize = 0;
        while mirror < ncols - 1
            invariant
                rows == text::deep_view(self.data@),
                forall|x: int| 0 <= x < nrows ==> #[trigger] rows[x] == (self.data@[x])@,
                nrows == self.data@.len(),
                nrows >= 1,
                ncols == rows[0].len(),
                ncols >= 1,
                0 <= mirror,
                forall|k: int| 1 <= k <= mirror ==> !#[trigger] v_mirror_at(rows, ncols as int, k),
            decreases ncols - 1 - mirror,
        {
            let mut possible = true;
            let comparisons = if mirror + 1 <= ncols - mirror - 1 {
                mirror + 1
            } else {
                ncols - mirror - 1
            };
            let ghost k = mirror + 1;
            let mut j: usize = 0;
            while j < comparisons
                invariant
                    rows == text::deep_view(self.data@),
                    forall|x: int| 0 <= x < nrows ==> #[trigger] rows[x] == (self.data@[x])@,
                    nrows == self.data@.len(),
                    mirror < ncols - 1,
                    k == mirror + 1,
                    comparisons <= mirror + 1,
                    mirror + 1 + comparisons <= ncols,
                    comparisons == (if k <= ncols - k {
                        k as int
                    } else {
                        ncols - k
                    }),
                    0 <= j <= comparisons,
                    possible == (forall|jj: int, i: int|
                        0 <= jj < j && 0 <= i < nrows ==> #[trigger] cell_or(
                            rows,
                            i,
                            k - 1 - jj,
                            0,
                        ) == cell_or(rows, i, k + jj, 1)),
                decreases comparisons - j,
            {
                let ghost possible_in = possible;
                let mut i: usize = 0;
                while i < nrows
                    invariant
                        rows == text::deep_view(self.data@),
                        forall|x: int| 0 <= x < nrows ==> #[trigger] rows[x] == (self.data@[x])@,
                        nrows == self.data@.len(),
                        mirror < ncols - 1,
                        k == mirror + 1,
                        j < comparisons,
                        comparisons <= mirror + 1,
                        mirror + 1 + comparisons <= ncols,
                        0 <= i <= nrows,
                        possible == (possible_in && forall|ii: int|
                            0 <= ii < i ==> #[trigger] cell_or(rows, ii, k - 1 - j, 0) == cell_or(
                                rows,
                                ii,
                                k + j,
                                1,
                            )),
                    decreases nrows - i,
                {
                    let row = self.data[i].as_slice();
                    let left = if mirror - j < row.len() {
                        row[mirror - j]
                    } else {
                        0
                    };
                    let right = if mirror + j + 1 < row.len() {
                        row[mirror + j + 1]
                    } else {
                        1
                    };
                    proof {
                        assert(left == cell_or(rows, i as int, k - 1 - j, 0));
                        assert(right == cell_or(rows, i as int, k + j, 1));
                    }
                    if left != right {
                        possible = false;
                    }
                    i = i + 1;
                }
                j = j + 1;
            }
            proof {
                assert(possible == v_mirror_at(rows, ncols as int, k)) by {
                    if possible {
                    } else {
                        if v_mirror_at(rows, ncols as int, k) {
                            assert(forall|jj: int, i: int|
                                0 <= jj < comparisons && 0 <= i < nrows ==> #[trigger] cell_or(
                                    rows,
                                    i,
                                    k - 1 - jj,
                                    0,
                                ) == cell_or(rows, i, k + jj, 1));
                        }
                    }
                }
            }
            if possible {
                return Some(mirror + 1);
            }
            mirror = mirror + 1;
        }
        None
    }
}

/// The byte at `(i, j)`, or the default `d` when the cell is off the board.
pub open spec fn cell_or(rows: Seq<Seq<u8>>, i: int, j: int, d: u8) -> u8 {
    if 0 <= i < rows.len() && 0 <= j < rows[i].len() {
        rows[i][j]
    } else {
        d
    }
}

/// Whether `k` columns lie left of a complete vertical reflection line on a
/// board of width `w`: columns mirror around it for as far as the pattern
/// reaches, cells missing from ragged rows never matching.
pub open spec fn v_mirror_at(rows: Seq<Seq<u8>>, w: int, k: int) -> bool {
    forall|j: int, i: int|
        0 <= j < (if k <= w - k {
            k
        } else {
            w - k
        }) && 0 <= i < rows.len() ==> #[trigger] cell_or(rows, i, k - 1 - j, 0) == cell_or(
            rows,
            i,
            k + j,
            1,
        )
}

/// Splits the input on blank lines into pattern blocks.
pub fn parse(content: &str) -> (r: Vec<Cave>)
    ensures
        r@.len() >= 1,
{
    let blocks = text::split_pat(content.as_bytes(), [10u8, 10u8].as_slice());
    let mut caves: Vec<Cave> = Vec::new();
    let mut b: usize = 0;
    while b < blocks.len()
        invariant
            0 <= b <= blocks@.len(),
            caves@.len() == b,
            blocks@.len() >= 1,
        decreases blocks@.len() - b,
    {
        caves.push(Cave { data: text::split_lines(blocks[b].as_slice()) });
        b = b + 1;
    }
    caves
}

/// Sums, over all blocks, 100 times the horizontal mirror position or the
/// vertical mirror position.
pub fn solve(content: &str) -> (r: i64)
    ensures
        r >= 0,
{
    let caves = parse(content);
    let mut total: i64 = 0;
    let mut c: usize = 0;
    while c < caves.len()
        invariant
            0 <= c <= caves@.len(),
            total >= 0,
        decreases caves@.len() - c,
    {
        let horizontal = caves[c].find_horizontal_mirror();
        let vertical = caves[c].find_vertical_mirror();
        match (horizontal, vertical) {
            (Some(h), None) => {
                let hv = to_i64(h);
                proof {
                    crate::arith::lemma_mul_nonneg(hv as int, 100);
                }
                total = sat_add(total, sat_mul(hv, 100));
            },
            (None, Some(v)) => {
                total = sat_add(total, to_i64(v));
            },
            _ => {},
        }
        c = c + 1;
    }
    total
}

} // verus!
