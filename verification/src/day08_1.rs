//! Ghost map walk: follow left/right instructions from `AAA` to `ZZZ`.

use vstd::prelude::*;
use crate::text;

verus! {

/// The largest number of steps a walk will attempt before giving up.
pub const WALK_LIMIT: i64 = 1_000_000_000;

/// Parses `XXX = (YYY, ZZZ)` lines into (name, left, right) triples.
fn parse_nodes(section: &[u8]) -> (r: Vec<(Vec<u8>, Vec<u8>, Vec<u8>)>) {
    let lines = text::split_lines(section);
    let mut nodes: Vec<(Vec<u8>, Vec<u8>, Vec<u8>)> = Vec::new();
    let mut i: usize = 0;
    while i < lines.len()
        invariant
            0 <= i <= lines@.len(),
        decreases lines@.len() - i,
    {
        let line = lines[i].as_slice();
        if line.len() >= 16 {
            let name = text::copy_range(line, 0, 3);
            let left = text::copy_range(line, 7, 10);
            let right = text::copy_range(line, 12, 15);
            nodes.push((name, left, right));
        }
        i = i + 1;
    }
    nodes
}

/// The index of `name` among the nodes, if declared.
fn lookup(nodes: &Vec<(Vec<u8>, Vec<u8>, Vec<u8>)>, name: &[u8]) -> (r: Option<usize>)
    ensures
        r matches Some(i) ==> i < nodes@.len(),
{
    let mut i: usize = 0;
    while i < nodes.len()
        invariant
            0 <= i <= nodes@.len(),
        decreases nodes@.len() - i,
    {
        if text::bytes_eq(nodes[i].0.as_slice(), name) {
            return Some(i);
        }
        i = i + 1;
    }
    None
}

/// Steps from `AAA` to `ZZZ`, cycling through the instruction row; `-1`
/// when the walk leaves the map or does not arrive within `WALK_LIMIT`.
pub fn solve(content: &str) -> (r: i64)
    ensures
        -1 <= r <= WALK_LIMIT,
{
    let sections = text::split_pat(content.as_bytes(), [10u8, 10u8].as_slice());
    if sections.len() < 2 {
        return -1;
    }
    let steps = &sections[0];
    let nodes = parse_nodes(sections[1].as_slice());
    if steps.len() == 0 {
        return -1;
    }
    let start: [u8; 3] = [65, 65, 65];
    let finish: [u8; 3] = [90, 90, 90];
    let mut curr: Vec<u8> = text::copy_bytes(start.as_slice());
    let mut counter: i64 = 0;
    while counter < WALK_LIMIT
        invariant
            0 <= counter <= WALK_LIMIT,
            steps@.len() >= 1,
        decreases WALK_LIMIT - counter,
    {
        if text::bytes_eq(curr.as_slice(), finish.as_slice()) {
            return counter;
        }
        let step = steps[(counter as usize) % steps.len()];
        match lookup(&nodes, curr.as_slice()) {
            Some(i) => {
                if step == 76 {
                    curr = text::copy_bytes(nodes[i].1.as_slice());
                } else {
                    curr = text::copy_bytes(nodes[i].2.as_slice());
                }
            },
            None => {
                return -1;
            },
        }
        counter = counter + 1;
    }
    -1
}

} // verus!
