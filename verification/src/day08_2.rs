//! Ghost map walk over every `..A` start at once: each start's walk length
//! to a `..Z` node, combined by least common multiple.

use vstd::prelude::*;
use crate::period;
use crate::text;

verus! {

/// The largest number of steps a walk will attempt before giving up.
pub const WALK_LIMIT: i64 = 1_000_000_000;

/// The node table as mathematical values.
pub open spec fn dirs_view(d: Seq<(Vec<u8>, Vec<u8>, Vec<u8>)>) -> Seq<(Seq<u8>, Seq<u8>, Seq<u8>)> {
    d.map_values(|t: (Vec<u8>, Vec<u8>, Vec<u8>)| (t.0@, t.1@, t.2@))
}

/// The index of the first node entry named `name`, or the table's length.
pub open spec fn dir_index(dirs: Seq<(Seq<u8>, Seq<u8>, Seq<u8>)>, name: Seq<u8>) -> int
    decreases dirs.len(),
{
    if dirs.len() == 0 {
        0
    } else if dirs.first().0 =~= name {
        0
    } else {
        1 + dir_index(dirs.drop_first(), name)
    }
}

pub proof fn lemma_dir_index(dirs: Seq<(Seq<u8>, Seq<u8>, Seq<u8>)>, name: Seq<u8>)
    ensures
        0 <= dir_index(dirs, name) <= dirs.len(),
        dir_index(dirs, name) < dirs.len() ==> dirs[dir_index(dirs, name)].0 == name,
        forall|j: int| 0 <= j < dir_index(dirs, name) ==> !(#[trigger] dirs[j].0 =~= name),
    decreases dirs.len(),
{
    if dirs.len() > 0 && !(dirs.first().0 =~= name) {
        let t = dirs.drop_first();
        lemma_dir_index(t, name);
        assert(forall|j: int| 0 <= j < t.len() ==> #[trigger] t[j] == dirs[j + 1]);
        assert forall|j: int| 0 <= j < dir_index(dirs, name) implies !(#[trigger] dirs[j].0
            =~= name) by {
            if j > 0 {
                assert(dirs[j] == t[j - 1]);
                assert(!(t[j - 1].0 =~= name));
            }
        }
    }
}

/// Whether a node name ends in `Z`.
pub open spec fn ends_z(name: Seq<u8>) -> bool {
    name.len() >= 1 && name.last() == 90
}

/// The node the walk stands on after `n` steps of the cyclic instruction
/// row, or nothing once a node misses from the table.
pub open spec fn walk_pos(
    start: Seq<u8>,
    steps: Seq<u8>,
    dirs: Seq<(Seq<u8>, Seq<u8>, Seq<u8>)>,
    n: nat,
) -> Option<Seq<u8>>
    decreases n,
{
    if n == 0 {
        Some(start)
    } else {
        match walk_pos(start, steps, dirs, (n - 1) as nat) {
            Option::None => Option::None,
            Option::Some(cur) => {
                let i = dir_index(dirs, cur);
                if i < dirs.len() {
                    Some(
                        if steps[((n - 1) as int) % (steps.len() as int)] == 76 {
                            dirs[i].1
                        } else {
                            dirs[i].2
                        },
                    )
                } else {
                    Option::None
                }
            },
        }
    }
}

/// Walks from `starting_node` until a name ending in `Z`, cycling through
/// the instruction row.  A non-negative result is the least number of steps
/// that reaches such a name; `-1` says the walk left the map within
/// `WALK_LIMIT` steps, or stayed off `Z` names at every step it checked.
pub fn simulate_walk(
    starting_node: &Vec<u8>,
    steps: &Vec<u8>,
    directions: &Vec<(Vec<u8>, Vec<u8>, Vec<u8>)>,
) -> (r: i64)
    requires
        steps@.len() >= 1,
    ensures
        -1 <= r <= WALK_LIMIT,
        r >= 0 ==> ({
            let dv = dirs_view(directions@);
            &&& (walk_pos(starting_node@, steps@, dv, r as nat) matches Some(pos) && ends_z(pos))
            &&& forall|m: int|
                0 <= m < r ==> (#[trigger] walk_pos(starting_node@, steps@, dv, m as nat)
                    matches Some(p) && !ends_z(p))
        }),
        r == -1 ==> ({
            let dv = dirs_view(directions@);
            ||| exists|m: int|
                0 <= m <= WALK_LIMIT && #[trigger] walk_pos(starting_node@, steps@, dv, m as nat)
                    is None
            ||| forall|m: int|
                0 <= m < WALK_LIMIT ==> (#[trigger] walk_pos(starting_node@, steps@, dv, m as nat)
                    matches Some(p) && !ends_z(p))
        }),
{
    let ghost dv = dirs_view(directions@);
    proof {
        assert(forall|j: int|
            0 <= j < directions@.len() ==> #[trigger] dv[j] == (
                directions@[j].0@,
                directions@[j].1@,
                directions@[j].2@,
            ));
    }
    let mut curr: Vec<u8> = text::copy_bytes(starting_node.as_slice());
    let mut counter: i64 = 0;
    while counter < WALK_LIMIT
        invariant
            0 <= counter <= WALK_LIMIT,
            steps@.len() >= 1,
            dv == dirs_view(directions@),
            forall|j: int|
                0 <= j < directions@.len() ==> #[trigger] dv[j] == (
                    directions@[j].0@,
                    directions@[j].1@,
                    directions@[j].2@,
                ),
            walk_pos(starting_node@, steps@, dv, counter as nat) == Some(curr@),
            forall|m: int|
                0 <= m < counter ==> (#[trigger] walk_pos(starting_node@, steps@, dv, m as nat)
                    matches Some(p) && !ends_z(p)),
        decreases WALK_LIMIT - counter,
    {
        if curr.len() >= 1 && curr[curr.len() - 1] == 90 {
            proof {
                assert(ends_z(curr@));
            }
            return counter;
        }
        proof {
            assert(!ends_z(curr@));
        }
        let step = steps[(counter as usize) % steps.len()];
        let mut found: bool = false;
        let mut i: usize = 0;
        let mut next: Vec<u8> = Vec::new();
        while i < directions.len()
            invariant
                0 <= i <= directions@.len(),
                dv == dirs_view(directions@),
                steps@.len() >= 1,
                0 <= counter < WALK_LIMIT,
                step == steps@[(counter as int) % (steps@.len() as int)],
                forall|j: int|
                    0 <= j < directions@.len() ==> #[trigger] dv[j] == (
                        directions@[j].0@,
                        directions@[j].1@,
                        directions@[j].2@,
                    ),
                !found ==> forall|j: int| 0 <= j < i ==> !(#[trigger] dv[j].0 =~= curr@),
                found ==> ({
                    let f = dir_index(dv, curr@);
                    &&& f < dv.len()
                    &&& next@ == (if step == 76 {
                        dv[f].1
                    } else {
                        dv[f].2
                    })
                }),
            decreases directions@.len() - i,
        {
            if !found && text::bytes_eq(directions[i].0.as_slice(), curr.as_slice()) {
                found = true;
                if step == 76 {
                    next = text::copy_bytes(directions[i].1.as_slice());
                } else {
                    next = text::copy_bytes(directions[i].2.as_slice());
                }
                proof {
                    lemma_dir_index(dv, curr@);
                    let f = dir_index(dv, curr@);
                    if f < i {
                        assert(!(dv[f].0 =~= curr@));
                    }
                    if i < f {
                        assert(!(dv[i as int].0 =~= curr@));
                    }
                    assert(f == i as int);
                }
            }
            i = i + 1;
        }
        if !found {
            proof {
                lemma_dir_index(dv, curr@);
                if dir_index(dv, curr@) < dv.len() {
                    assert(!(dv[dir_index(dv, curr@)].0 =~= curr@));
                }
                assert(walk_pos(starting_node@, steps@, dv, (counter + 1) as nat) is None);
            }
            return -1;
        }
        proof {
            assert(walk_pos(starting_node@, steps@, dv, (counter + 1) as nat) == Some(next@));
        }
        curr = next;
        counter = counter + 1;
    }
    -1
}

/// Walk lengths of every `..A` start, folded by least common multiple
/// (clamping at `i64::MAX` if the fold would overflow).
pub fn solve(content: &str) -> (r: i64)
    ensures
        r >= -1,
{
    let sections = text::split_pat(content.as_bytes(), [10u8, 10u8].as_slice());
    if sections.len() < 2 {
        return -1;
    }
    let steps = &sections[0];
    if steps.len() == 0 {
        return -1;
    }
    let lines = text::split_lines(sections[1].as_slice());
    let mut directions: Vec<(Vec<u8>, Vec<u8>, Vec<u8>)> = Vec::new();
    let mut i: usize = 0;
    while i < lines.len()
        invariant
            0 <= i <= lines@.len(),
        decreases lines@.len() - i,
    {
        let line = lines[i].as_slice();
        if line.len() >= 16 {
            directions.push((
                text::copy_range(line, 0, 3),
                text::copy_range(line, 7, 10),
                text::copy_range(line, 12, 15),
            ));
        }
        i = i + 1;
    }
    let mut lcm_all: i64 = 1;
    let mut d: usize = 0;
    while d < directions.len()
        invariant
            0 <= d <= directions@.len(),
            lcm_all >= 1,
            steps@.len() >= 1,
        decreases directions@.len() - d,
    {
        let name = &directions[d].0;
        if name.len() >= 1 && name[name.len() - 1] == 65 {
            let walk = simulate_walk(name, steps, &directions);
            if walk < 1 {
                return -1;
            }
            match period::lcm_checked(lcm_all, walk) {
                Some(v) => {
                    lcm_all = v;
                },
                None => {
                    return i64::MAX;
                },
            }
        }
        d = d + 1;
    }
    lcm_all
}

} // verus!
