//! Lagoon digging: a loop of dig commands encloses an area, counted by the
//! shoelace formula and Pick's theorem.

use vstd::prelude::*;
use crate::arith::{sat_add, sat_mul, sat_sub};
use crate::text;

verus! {

/// A digging direction.
pub enum Dir {
    Left,
    Right,
    Up,
    Down,
}

impl Dir {
    /// The unit step of this direction, as `(dy, dx)`.
    pub fn dydx(&self) -> (r: (i64, i64))
        ensures
            self is Left ==> r == (0i64, -1i64),
            self is Right ==> r == (0i64, 1i64),
            self is Up ==> r == (-1i64, 0i64),
            self is Down ==> r == (1i64, 0i64),
    {
        match self {
            Dir::Left => (0, -1),
            Dir::Right => (0, 1),
            Dir::Up => (-1, 0),
            Dir::Down => (1, 0),
        }
    }
}

/// One dig command: a direction and a run length.
pub struct Command {
    pub dir: Dir,
    pub length: i64,
}

/// Reads `<letter> <length> (#<colour>)` lines; lines that do not carry a
/// direction letter and a non-negative number are skipped.
pub fn parse(content: &str) -> (r: Vec<Command>)
    ensures
        forall|t: int| 0 <= t < r@.len() ==> (#[trigger] r@[t]).length >= 0,
{
    let lines = text::split_lines(content.as_bytes());
    let mut commands: Vec<Command> = Vec::new();
    let mut i: usize = 0;
    while i < lines.len()
        invariant
            0 <= i <= lines@.len(),
            forall|t: int| 0 <= t < commands@.len() ==> (#[trigger] commands@[t]).length >= 0,
        decreases lines@.len() - i,
    {
        let tokens = text::split_whitespace(lines[i].as_slice());
        if tokens.len() >= 2 {
            let d = tokens[0].as_slice();
            let dir = if d.len() == 1 && d[0] == 76 {
                Some(Dir::Left)
            } else if d.len() == 1 && d[0] == 82 {
                Some(Dir::Right)
            } else if d.len() == 1 && d[0] == 85 {
                Some(Dir::Up)
            } else if d.len() == 1 && d[0] == 68 {
                Some(Dir::Down)
            } else {
                None
            };
            match (dir, text::parse_i64(tokens[1].as_slice())) {
                (Some(dv), Some(length)) => {
                    if length >= 0 {
                        commands.push(Command { dir: dv, length: length });
                    }
                },
                _ => {},
            }
        }
        i = i + 1;
    }
    commands
}

/// The polygon area swept by the commands, by the shoelace formula.
pub fn polygon_area_shoelace(commands: &Vec<Command>) -> (r: i64)
    ensures
        r >= 0,
{
    let mut area: i64 = 0;
    let mut y: i64 = 0;
    let mut x: i64 = 0;
    let mut c: usize = 0;
    while c < commands.len()
        invariant
            0 <= c <= commands@.len(),
        decreases commands@.len() - c,
    {
        let (dy, dx) = commands[c].dir.dydx();
        let new_y = sat_add(y, sat_mul(dy, commands[c].length));
        let new_x = sat_add(x, sat_mul(dx, commands[c].length));
        area = sat_add(area, sat_sub(sat_mul(y, new_x), sat_mul(x, new_y)));
        y = new_y;
        x = new_x;
        c = c + 1;
    }
    let a = if area >= 0 {
        area
    } else if area == i64::MIN {
        i64::MAX
    } else {
        -area
    };
    a / 2
}

/// The number of boundary points: the total length dug (when every command
/// length is non-negative, so is the count).
pub fn count_boundary(commands: &Vec<Command>) -> (r: i64)
    ensures
        (forall|t: int| 0 <= t < commands@.len() ==> (#[trigger] commands@[t]).length >= 0)
            ==> r >= 0,
{
    let mut total: i64 = 0;
    let mut c: usize = 0;
    while c < commands.len()
        invariant
            0 <= c <= commands@.len(),
            (forall|t: int| 0 <= t < commands@.len() ==> (#[trigger] commands@[t]).length >= 0)
                ==> total >= 0,
        decreases commands@.len() - c,
    {
        total = sat_add(total, commands[c].length);
        c = c + 1;
    }
    total
}

/// The number of enclosed points, by Pick's theorem:
/// `interior = area - boundary/2 + 1`, and the answer is
/// `boundary + interior`.
pub fn solve(content: &str) -> (r: i64) {
    let commands = parse(content);
    let polygon_area = polygon_area_shoelace(&commands);
    let boundary = count_boundary(&commands);
    let interior = sat_add(sat_sub(polygon_area, boundary / 2), 1);
    sat_add(boundary, interior)
}

} // verus!
