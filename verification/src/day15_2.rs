//! Lens boxes: comma-separated add (`label=focal`) and delete (`label-`)
//! commands drive 256 ordered boxes; the answer is the total focusing power.

use vstd::prelude::*;
use crate::arith::{sat_add, sat_mul, to_i64};
use crate::text;

verus! {

/// One parsed command.
pub enum Command {
    Add { label: Vec<u8>, focal_length: i64 },
    Delete { label: Vec<u8> },
}

/// A lens as stored in a box.
pub struct Lens {
    pub label: Vec<u8>,
    pub focal_length: i64,
}

/// Splits the input on commas and reads each part as an add or a delete;
/// a lens focal length is never negative.
pub fn parse(content: &str) -> (r: Vec<Command>)
    ensures
        forall|t: int|
            0 <= t < r@.len() ==> ((#[trigger] r@[t]) matches Command::Add { focal_length, .. }
                ==> focal_length >= 0),
{
    let parts = text::split_byte(content.as_bytes(), 44);
    let mut commands: Vec<Command> = Vec::new();
    let mut p: usize = 0;
    while p < parts.len()
        invariant
            0 <= p <= parts@.len(),
            forall|t: int|
                0 <= t < commands@.len() ==> ((#[trigger] commands@[t]) matches Command::Add {
                    focal_length,
                    ..
                } ==> focal_length >= 0),
        decreases parts@.len() - p,
    {
        let part = parts[p].as_slice();
        let plen = part.len();
        let eq_pat: [u8; 1] = [61];
        match text::find_sub(part, eq_pat.as_slice()) {
            Some(eq) => {
                proof {
                    assert(eq + 1 <= plen);
                }
                let label = text::copy_range(part, 0, eq);
                let fl = match text::parse_i64(text::copy_range(
                    part,
                    eq + 1,
                    part.len(),
                ).as_slice()) {
                    Some(v) => if v >= 0 {
                        v
                    } else {
                        0
                    },
                    None => 0,
                };
                commands.push(Command::Add { label: label, focal_length: fl });
            },
            None => {
                if part.len() >= 1 && part[part.len() - 1] == 45 {
                    let label = text::copy_range(part, 0, part.len() - 1);
                    commands.push(Command::Delete { label: label });
                }
            },
        }
        p = p + 1;
    }
    commands
}

/// The rolling hash a label folds to: starting from zero, each byte `b`
/// takes the hash `h` to `(h + b) * 17 % 256`.
pub open spec fn spec_label_hash(s: Seq<u8>) -> int
    decreases s.len(),
{
    if s.len() == 0 {
        0
    } else {
        (spec_label_hash(s.drop_last()) + s.last()) * 17 % 256
    }
}

/// The rolling hash of a label: exactly `spec_label_hash`, always a box
/// index below 256.
pub fn label_hash(s: &[u8]) -> (r: usize)
    ensures
        r == spec_label_hash(s@),
        r < 256,
{
    let mut curr: usize = 0;
    let mut i: usize = 0;
    proof {
        assert(s@.subrange(0, 0) =~= Seq::<u8>::empty());
    }
    while i < s.len()
        invariant
            0 <= i <= s@.len(),
            curr == spec_label_hash(s@.subrange(0, i as int)),
            0 <= curr < 256,
        decreases s@.len() - i,
    {
        proof {
            let pre = s@.subrange(0, i as int + 1);
            assert(pre.drop_last() =~= s@.subrange(0, i as int));
            assert(pre.last() == s@[i as int]);
        }
        curr = (curr + s[i] as usize) * 17 % 256;
        i = i + 1;
    }
    proof {
        assert(s@.subrange(0, s@.len() as int) =~= s@);
    }
    curr
}

/// The index of the lens with `label` in `lenses`, if present.
fn position_of(lenses: &Vec<Lens>, label: &[u8]) -> (r: Option<usize>)
    ensures
        r matches Some(i) ==> i < lenses@.len(),
{
    let mut i: usize = 0;
    while i < lenses.len()
        invariant
            0 <= i <= lenses@.len(),
        decreases lenses@.len() - i,
    {
        if text::bytes_eq(lenses[i].label.as_slice(), label) {
            return Some(i);
        }
        i = i + 1;
    }
    None
}

/// Runs all commands through the 256 boxes and sums each lens's focusing
/// power `(box + 1) * (slot + 1) * focal_length`.
pub fn solve(content: &str) -> (r: i64)
    ensures
        r >= 0,
{
    let commands = parse(content);
    let mut boxes: Vec<Vec<Lens>> = Vec::new();
    let mut bi: usize = 0;
    while bi < 256
        invariant
            boxes@.len() == bi <= 256,
            forall|b: int| 0 <= b < bi ==> (#[trigger] boxes@[b])@.len() == 0,
        decreases 256 - bi,
    {
        boxes.push(Vec::new());
        bi = bi + 1;
    }
    let mut c: usize = 0;
    while c < commands.len()
        invariant
            0 <= c <= commands@.len(),
            boxes@.len() == 256,
            forall|t: int|
                0 <= t < commands@.len() ==> ((#[trigger] commands@[t]) matches Command::Add {
                    focal_length,
                    ..
                } ==> focal_length >= 0),
            forall|b: int, l: int|
                0 <= b < 256 && 0 <= l < (#[trigger] boxes@[b])@.len() ==> (#[trigger] (
                boxes@[b])@[l]).focal_length >= 0,
        decreases commands@.len() - c,
    {
        match &commands[c] {
            Command::Add { label, focal_length } => {
                let index = label_hash(label.as_slice());
                let new_lens = Lens {
                    label: text::copy_bytes(label.as_slice()),
                    focal_length: *focal_length,
                };
                let slot = &mut boxes[index];
                match position_of(slot, label.as_slice()) {
                    Some(li) => {
                        slot[li] = new_lens;
                    },
                    None => {
                        slot.push(new_lens);
                    },
                }
            },
            Command::Delete { label } => {
                let index = label_hash(label.as_slice());
                let slot = &mut boxes[index];
                match position_of(slot, label.as_slice()) {
                    Some(li) => {
                        slot.remove(li);
                    },
                    None => {},
                }
            },
        }
        c = c + 1;
    }
    let mut total: i64 = 0;
    let mut b: usize = 0;
    while b < boxes.len()
        invariant
            0 <= b <= boxes@.len(),
            boxes@.len() == 256,
            total >= 0,
            forall|bb: int, l: int|
                0 <= bb < 256 && 0 <= l < (#[trigger] boxes@[bb])@.len() ==> (#[trigger] (
                boxes@[bb])@[l]).focal_length >= 0,
        decreases boxes@.len() - b,
    {
        let lenses = &boxes[b];
        let mut li: usize = 0;
        while li < lenses.len()
            invariant
                0 <= li <= lenses@.len(),
                b < 256,
                total >= 0,
                lenses@ == (boxes@[b as int])@,
                forall|bb: int, l: int|
                    0 <= bb < 256 && 0 <= l < (#[trigger] boxes@[bb])@.len() ==> (#[trigger] (
                    boxes@[bb])@[l]).focal_length >= 0,
            decreases lenses@.len() - li,
        {
            let slot_f = to_i64(b + 1);
            let rank_f = to_i64(li + 1);
            proof {
                crate::arith::lemma_mul_nonneg(slot_f as int, rank_f as int);
            }
            let base = sat_mul(slot_f, rank_f);
            proof {
                crate::arith::lemma_mul_nonneg(base as int, lenses[li as int].focal_length as int);
            }
            let power = sat_mul(base, lenses[li].focal_length);
            total = sat_add(total, power);
            li = li + 1;
        }
        b = b + 1;
    }
    total
}

} // verus!
