//! Calibration values with spelled-out digits: the earliest and latest
//! digit word or digit character in each line.

use vstd::prelude::*;
use crate::arith::sat_add;
use crate::text;

verus! {

/// The digit-name table: each spelled-out or literal digit with its value.
pub fn digit_names() -> (r: Vec<(Vec<u8>, i64)>)
    ensures
        forall|t: int| 0 <= t < r@.len() ==> (#[trigger] r@[t]).0@.len() >= 1,
        forall|t: int| 0 <= t < r@.len() ==> 0 <= (#[trigger] r@[t]).1 <= 9,
{
    let mut m: Vec<(Vec<u8>, i64)> = Vec::new();
    m.push((vec![111u8, 110, 101], 1));
    m.push((vec![116u8, 119, 111], 2));
    m.push((vec![116u8, 104, 114, 101, 101], 3));
    m.push((vec![102u8, 111, 117, 114], 4));
    m.push((vec![102u8, 105, 118, 101], 5));
    m.push((vec![115u8, 105, 120], 6));
    m.push((vec![115u8, 101, 118, 101, 110], 7));
    m.push((vec![101u8, 105, 103, 104, 116], 8));
    m.push((vec![110u8, 105, 110, 101], 9));
    m.push((vec![48u8], 0));
    m.push((vec![49u8], 1));
    m.push((vec![50u8], 2));
    m.push((vec![51u8], 3));
    m.push((vec![52u8], 4));
    m.push((vec![53u8], 5));
    m.push((vec![54u8], 6));
    m.push((vec![55u8], 7));
    m.push((vec![56u8], 8));
    m.push((vec![57u8], 9));
    m
}

/// The table as mathematical values.
pub open spec fn table_view(m: Seq<(Vec<u8>, i64)>) -> Seq<(Seq<u8>, i64)> {
    m.map_values(|p: (Vec<u8>, i64)| (p.0@, p.1))
}

/// The table with every key reversed.
pub open spec fn table_reversed(m: Seq<(Seq<u8>, i64)>) -> Seq<(Seq<u8>, i64)> {
    m.map_values(|p: (Seq<u8>, i64)| (seq_reversed(p.0), p.1))
}

/// The bytes of `s`, reversed.
pub open spec fn seq_reversed(s: Seq<u8>) -> Seq<u8> {
    Seq::new(s.len(), |i: int| s[s.len() - 1 - i])
}

/// Where `key` first occurs in `line`, or `usize::MAX` when it never does.
pub open spec fn first_match(line: Seq<u8>, key: Seq<u8>) -> int {
    if exists|i: int| text::occurs_in(line, key, i) {
        choose|i: int|
            text::occurs_in(line, key, i) && forall|j: int|
                0 <= j < i ==> !text::occurs_in(line, key, j)
    } else {
        usize::MAX as int
    }
}

/// The digit whose table entry occurs earliest in `line` (the first such
/// entry on a tie), paired with that position; `(usize::MAX, -1)` when no
/// entry occurs.
pub open spec fn best_digit(line: Seq<u8>, mapping: Seq<(Seq<u8>, i64)>) -> (int, i64)
    decreases mapping.len(),
{
    if mapping.len() == 0 {
        (usize::MAX as int, -1i64)
    } else {
        let prev = best_digit(line, mapping.drop_last());
        let pos = first_match(line, mapping.last().0);
        if pos < prev.0 {
            (pos, mapping.last().1)
        } else {
            prev
        }
    }
}

/// The value of the mapping entry that occurs earliest in `line` (the first
/// entry on a tie), or `-1` when none occurs: exactly `best_digit`.
pub fn find_from_left(line: &[u8], mapping: &Vec<(Vec<u8>, i64)>) -> (r: i64)
    requires
        forall|t: int| 0 <= t < mapping@.len() ==> (#[trigger] mapping@[t]).0@.len() >= 1,
        forall|t: int| 0 <= t < mapping@.len() ==> 0 <= (#[trigger] mapping@[t]).1 <= 9,
    ensures
        r == best_digit(line@, table_view(mapping@)).1,
        -1 <= r <= 9,
{
    let ghost tv = table_view(mapping@);
    proof {
        assert(forall|u: int|
            0 <= u < mapping@.len() ==> #[trigger] tv[u] == (mapping@[u].0@, mapping@[u].1));
        assert(tv.take(0) =~= Seq::<(Seq<u8>, i64)>::empty());
    }
    let mut earliest_index: usize = usize::MAX;
    let mut earliest_number: i64 = -1;
    let mut t: usize = 0;
    while t < mapping.len()
        invariant
            0 <= t <= mapping@.len(),
            -1 <= earliest_number <= 9,
            tv == table_view(mapping@),
            forall|u: int|
                0 <= u < mapping@.len() ==> #[trigger] tv[u] == (mapping@[u].0@, mapping@[u].1),
            forall|u: int| 0 <= u < mapping@.len() ==> (#[trigger] mapping@[u]).0@.len() >= 1,
            forall|u: int| 0 <= u < mapping@.len() ==> 0 <= (#[trigger] mapping@[u]).1 <= 9,
            (earliest_index as int, earliest_number) == best_digit(line@, tv.take(t as int)),
        decreases mapping@.len() - t,
    {
        let ghost pre = best_digit(line@, tv.take(t as int));
        proof {
            assert(tv.take(t as int + 1).drop_last() =~= tv.take(t as int));
            assert(tv.take(t as int + 1).last() == tv[t as int]);
        }
        match text::find_sub(line, mapping[t].0.as_slice()) {
            Some(index) => {
                proof {
                    lemma_first_match(line@, mapping@[t as int].0@, index as int);
                }
                if index < earliest_index {
                    earliest_index = index;
                    earliest_number = mapping[t].1;
                }
            },
            None => {
                proof {
                    assert(!(exists|i: int| text::occurs_in(line@, mapping@[t as int].0@, i)));
                    assert(first_match(line@, mapping@[t as int].0@) == usize::MAX as int);
                }
            },
        }
        t = t + 1;
    }
    proof {
        assert(tv.take(mapping@.len() as int) =~= tv);
    }
    earliest_number
}

/// An exact first occurrence pins `first_match` down.
proof fn lemma_first_match(line: Seq<u8>, key: Seq<u8>, i: int)
    requires
        text::occurs_in(line, key, i),
        forall|j: int| 0 <= j < i ==> !text::occurs_in(line, key, j),
    ensures
        first_match(line, key) == i,
{
    let c = choose|c: int|
        text::occurs_in(line, key, c) && forall|j: int|
            0 <= j < c ==> !text::occurs_in(line, key, j);
    if c < i {
        assert(!text::occurs_in(line, key, c));
    }
    if i < c {
        assert(!text::occurs_in(line, key, i));
    }
}

/// The value of the mapping entry that occurs latest in `line` (by its
/// end): exactly `best_digit` of the reversed line over the reversed keys.
pub fn find_from_right(line: &[u8], mapping: &Vec<(Vec<u8>, i64)>) -> (r: i64)
    requires
        forall|t: int| 0 <= t < mapping@.len() ==> (#[trigger] mapping@[t]).0@.len() >= 1,
        forall|t: int| 0 <= t < mapping@.len() ==> 0 <= (#[trigger] mapping@[t]).1 <= 9,
    ensures
        r == best_digit(seq_reversed(line@), table_reversed(table_view(mapping@))).1,
        -1 <= r <= 9,
{
    let rev = text::reverse_bytes(line);
    let ghost rl = seq_reversed(line@);
    let ghost rt = table_reversed(table_view(mapping@));
    proof {
        assert(rev@ =~= rl);
        assert(forall|u: int|
            0 <= u < mapping@.len() ==> #[trigger] rt[u] == (
                seq_reversed(mapping@[u].0@),
                mapping@[u].1,
            ));
        assert(rt.take(0) =~= Seq::<(Seq<u8>, i64)>::empty());
    }
    let mut earliest_index: usize = usize::MAX;
    let mut earliest_number: i64 = -1;
    let mut t: usize = 0;
    while t < mapping.len()
        invariant
            0 <= t <= mapping@.len(),
            -1 <= earliest_number <= 9,
            rev@ == rl,
            rt == table_reversed(table_view(mapping@)),
            forall|u: int|
                0 <= u < mapping@.len() ==> #[trigger] rt[u] == (
                    seq_reversed(mapping@[u].0@),
                    mapping@[u].1,
                ),
            forall|u: int| 0 <= u < mapping@.len() ==> (#[trigger] mapping@[u]).0@.len() >= 1,
            forall|u: int| 0 <= u < mapping@.len() ==> 0 <= (#[trigger] mapping@[u]).1 <= 9,
            (earliest_index as int, earliest_number) == best_digit(rl, rt.take(t as int)),
        decreases mapping@.len() - t,
    {
        proof {
            assert(rt.take(t as int + 1).drop_last() =~= rt.take(t as int));
            assert(rt.take(t as int + 1).last() == rt[t as int]);
        }
        let key_rev = text::reverse_bytes(mapping[t].0.as_slice());
        proof {
            assert(key_rev@ =~= seq_reversed(mapping@[t as int].0@));
        }
        match text::find_sub(rev.as_slice(), key_rev.as_slice()) {
            Some(index) => {
                proof {
                    lemma_first_match(rl, key_rev@, index as int);
                }
                if index < earliest_index {
                    earliest_index = index;
                    earliest_number = mapping[t].1;
                }
            },
            None => {
                proof {
                    assert(!(exists|i: int| text::occurs_in(rl, key_rev@, i)));
                    assert(first_match(rl, key_rev@) == usize::MAX as int);
                }
            },
        }
        t = t + 1;
    }
    proof {
        assert(rt.take(mapping@.len() as int) =~= rt);
    }
    earliest_number
}

/// Sums, over all lines, ten times the earliest digit plus the latest digit,
/// digits spelled out included.
pub fn solve(lines: &Vec<&str>) -> (r: i64) {
    let mapping = digit_names();
    let mut total: i64 = 0;
    let mut i: usize = 0;
    while i < lines.len()
        invariant
            0 <= i <= lines@.len(),
            forall|t: int| 0 <= t < mapping@.len() ==> (#[trigger] mapping@[t]).0@.len() >= 1,
            forall|t: int| 0 <= t < mapping@.len() ==> 0 <= (#[trigger] mapping@[t]).1 <= 9,
        decreases lines@.len() - i,
    {
        let line = lines[i].as_bytes();
        let left = find_from_left(line, &mapping);
        let right = find_from_right(line, &mapping);
        total = sat_add(total, left * 10 + right);
        i = i + 1;
    }
    total
}

} // verus!
