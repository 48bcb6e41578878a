//! Seed ranges through remapping stages: the smallest reachable location,
//! found by tracking only the interesting boundary points of every stage.

use vstd::prelude::*;
use crate::arith::{sat_add, sat_sub};
use crate::text;

verus! {

/// A sequence without repeated values: the point collections here stand in
/// for sets, so their entries stay pairwise distinct.
pub open spec fn distinct(s: Seq<i64>) -> bool {
    forall|i: int, j: int| 0 <= i < j < s.len() ==> #[trigger] s[i] != #[trigger] s[j]
}

/// An inclusive range of seed numbers.
pub struct Seed {
    pub start: i64,
    pub end: i64,
}

/// The declared seed ranges.
pub struct SeedBlock {
    pub seeds: Vec<Seed>,
}

impl SeedBlock {
    /// The boundary points of the seed ranges, deduplicated.
    pub fn get_interesting_points(&self) -> (r: Vec<i64>)
        ensures
            distinct(r@),
    {
        let mut pts: Vec<i64> = Vec::new();
        let mut i: usize = 0;
        while i < self.seeds.len()
            invariant
                0 <= i <= self.seeds@.len(),
                distinct(pts@),
            decreases self.seeds@.len() - i,
        {
            push_unique(&mut pts, self.seeds[i].start);
            push_unique(&mut pts, self.seeds[i].end);
            i = i + 1;
        }
        pts
    }

    /// Whether `seed` falls inside one of the declared ranges.
    pub fn is_valid_seed(&self, seed: i64) -> (r: bool)
        ensures
            r == exists|i: int|
                0 <= i < self.seeds@.len() && (#[trigger] self.seeds@[i]).start <= seed
                    <= self.seeds@[i].end,
    {
        let mut i: usize = 0;
        while i < self.seeds.len()
            invariant
                0 <= i <= self.seeds@.len(),
                forall|j: int|
                    0 <= j < i ==> !((#[trigger] self.seeds@[j]).start <= seed
                        <= self.seeds@[j].end),
            decreases self.seeds@.len() - i,
        {
            if self.seeds[i].start <= seed && seed <= self.seeds[i].end {
                return true;
            }
            i = i + 1;
        }
        false
    }
}

/// Appends `x` unless it is already present: the point sets stay
/// duplicate-free.
fn push_unique(pts: &mut Vec<i64>, x: i64)
    ensures
        distinct(old(pts)@) ==> distinct(final(pts)@),
        final(pts)@.contains(x),
        final(pts)@ == old(pts)@ || final(pts)@ == old(pts)@.push(x),
{
    let mut i: usize = 0;
    while i < pts.len()
        invariant
            0 <= i <= pts@.len(),
            forall|j: int| 0 <= j < i ==> pts@[j] != x,
        decreases pts@.len() - i,
    {
        if pts[i] == x {
            return ;
        }
        i = i + 1;
    }
    pts.push(x);
    proof {
        assert(pts@[pts@.len() - 1] == x);
    }
}

/// One remapping rule: sources in `[source_start, source_end]` shift onto
/// `[dest_start, dest_end]`.
pub struct Mapper {
    pub source_start: i64,
    pub source_end: i64,
    pub dest_start: i64,
    pub dest_end: i64,
}

/// One stage: the first matching rule applies, everything else is kept.
pub struct MapperBlock {
    pub mappers: Vec<Mapper>,
}

impl MapperBlock {
    /// Applies the first rule whose source range holds `x`, else returns
    /// `x` unchanged.
    pub fn remap(&self, x: i64) -> (r: i64) {
        let mut i: usize = 0;
        while i < self.mappers.len()
            invariant
                0 <= i <= self.mappers@.len(),
            decreases self.mappers@.len() - i,
        {
            let m = &self.mappers[i];
            if m.source_start <= x && x <= m.source_end {
                return sat_add(m.dest_start, sat_sub(x, m.source_start));
            }
            i = i + 1;
        }
        x
    }

    /// Applies, backwards, the last rule whose destination range holds `x`,
    /// else returns `x` unchanged.
    pub fn inverse_remap(&self, x: i64) -> (r: i64) {
        let mut i: usize = self.mappers.len();
        while i > 0
            invariant
                0 <= i <= self.mappers@.len(),
            decreases i,
        {
            i = i - 1;
            let m = &self.mappers[i];
            if m.dest_start <= x && x <= m.dest_end {
                return sat_add(m.source_start, sat_sub(x, m.dest_start));
            }
        }
        x
    }

    /// The boundary points of this stage's source ranges, deduplicated.
    pub fn get_interesting_points(&self) -> (r: Vec<i64>)
        ensures
            distinct(r@),
    {
        let mut pts: Vec<i64> = Vec::new();
        let mut i: usize = 0;
        while i < self.mappers.len()
            invariant
                0 <= i <= self.mappers@.len(),
                distinct(pts@),
            decreases self.mappers@.len() - i,
        {
            push_unique(&mut pts, self.mappers[i].source_start);
            push_unique(&mut pts, self.mappers[i].source_end);
            i = i + 1;
        }
        pts
    }
}

/// All remapping stages, in order.
pub struct MapperPipeline {
    pub mapper_blocks: Vec<MapperBlock>,
}

impl MapperPipeline {
    /// Runs `x` forward through every stage.
    pub fn get_location(&self, x: i64) -> (r: i64) {
        let mut result = x;
        let mut i: usize = 0;
        while i < self.mapper_blocks.len()
            invariant
                0 <= i <= self.mapper_blocks@.len(),
            decreases self.mapper_blocks@.len() - i,
        {
            result = self.mapper_blocks[i].remap(result);
            i = i + 1;
        }
        result
    }

    /// Runs `x` backward through every stage.
    pub fn get_seed(&self, x: i64) -> (r: i64) {
        let mut result = x;
        let mut i: usize = self.mapper_blocks.len();
        while i > 0
            invariant
                0 <= i <= self.mapper_blocks@.len(),
            decreases i,
        {
            i = i - 1;
            result = self.mapper_blocks[i].inverse_remap(result);
        }
        result
    }

    /// Pushes the seed boundary points through the stages, adding each
    /// stage's own boundary points along the way: every candidate for the
    /// extreme locations.
    pub fn run(&self, initial_seed: &Vec<i64>) -> (r: Vec<i64>)
        ensures
            distinct(r@),
    {
        let mut unique: Vec<i64> = Vec::new();
        let mut s: usize = 0;
        while s < initial_seed.len()
            invariant
                0 <= s <= initial_seed@.len(),
                distinct(unique@),
            decreases initial_seed@.len() - s,
        {
            push_unique(&mut unique, initial_seed[s]);
            s = s + 1;
        }
        let mut b: usize = 0;
        while b < self.mapper_blocks.len()
            invariant
                0 <= b <= self.mapper_blocks@.len(),
                distinct(unique@),
            decreases self.mapper_blocks@.len() - b,
        {
            let extra = self.mapper_blocks[b].get_interesting_points();
            let mut e: usize = 0;
            while e < extra.len()
                invariant
                    0 <= e <= extra@.len(),
                    b < self.mapper_blocks@.len(),
                    distinct(unique@),
                decreases extra@.len() - e,
            {
                push_unique(&mut unique, extra[e]);
                e = e + 1;
            }
            let mut mapped: Vec<i64> = Vec::new();
            let mut u: usize = 0;
            while u < unique.len()
                invariant
                    0 <= u <= unique@.len(),
                    b < self.mapper_blocks@.len(),
                    distinct(mapped@),
                decreases unique@.len() - u,
            {
                push_unique(&mut mapped, self.mapper_blocks[b].remap(unique[u]));
                u = u + 1;
            }
            unique = mapped;
            b = b + 1;
        }
        unique
    }
}

/// Reads the `seeds:` line as (start, length) pairs.
pub fn parse_seed(seed_string: &[u8]) -> (r: SeedBlock) {
    let mut seeds: Vec<Seed> = Vec::new();
    let parts = text::split_byte(seed_string, 58);
    if parts.len() < 2 {
        return SeedBlock { seeds };
    }
    let nums = text::split_whitespace(parts[1].as_slice());
    let mut i: usize = 0;
    while i < nums.len()
        invariant
            0 <= i <= nums@.len(),
        decreases nums@.len() - i,
    {
        if i + 1 < nums.len() {
            let start = match text::parse_i64(nums[i].as_slice()) {
                Some(v) => v,
                None => 0,
            };
            let len = match text::parse_i64(nums[i + 1].as_slice()) {
                Some(v) => v,
                None => 0,
            };
            seeds.push(Seed { start: start, end: sat_sub(sat_add(start, len), 1) });
        }
        i = i + 1;
        if i < nums.len() {
            i = i + 1;
        }
    }
    SeedBlock { seeds }
}

/// Reads the blank-line-separated mapper blocks, skipping each block's
/// heading line; each rule line reads `dest source length`.
pub fn parse_mapper(mapper_string: &[u8]) -> (r: MapperPipeline) {
    let mut mapper_blocks: Vec<MapperBlock> = Vec::new();
    let blocks = text::split_pat(mapper_string, [10u8, 10u8].as_slice());
    let mut b: usize = 0;
    while b < blocks.len()
        invariant
            0 <= b <= blocks@.len(),
        decreases blocks@.len() - b,
    {
        let lines = text::split_lines(blocks[b].as_slice());
        let mut mappers: Vec<Mapper> = Vec::new();
        let mut li: usize = 1;
        while li < lines.len()
            invariant
                1 <= li,
                b < blocks@.len(),
            decreases lines@.len() - li,
        {
            let nums = text::split_whitespace(lines[li].as_slice());
            if nums.len() >= 3 {
                let dest = match text::parse_i64(nums[0].as_slice()) {
                    Some(v) => v,
                    None => 0,
                };
                let source = match text::parse_i64(nums[1].as_slice()) {
                    Some(v) => v,
                    None => 0,
                };
                let range = match text::parse_i64(nums[2].as_slice()) {
                    Some(v) => v,
                    None => 0,
                };
                mappers.push(Mapper {
                    source_start: source,
                    source_end: sat_sub(sat_add(source, range), 1),
                    dest_start: dest,
                    dest_end: sat_sub(sat_add(dest, range), 1),
                });
            }
            li = li + 1;
        }
        if lines.len() >= 1 {
            mapper_blocks.push(MapperBlock { mappers });
        }
        b = b + 1;
    }
    MapperPipeline { mapper_blocks }
}

/// The smallest location reachable from a valid seed, found among the
/// interesting points: each candidate location is mapped back to a seed
/// and kept only if that seed is valid.
pub fn solve(content: &str) -> (r: i64) {
    let sections = text::split_pat(content.as_bytes(), [10u8, 10u8].as_slice());
    if sections.len() < 2 {
        return i64::MAX;
    }
    let seed_block = parse_seed(sections[0].as_slice());
    let mut rest: Vec<u8> = Vec::new();
    let mut k: usize = 1;
    while k < sections.len()
        invariant
            1 <= k,
        decreases sections@.len() - k,
    {
        if k > 1 {
            rest.push(10);
            rest.push(10);
        }
        let sec = sections[k].as_slice();
        let mut t: usize = 0;
        while t < sec.len()
            invariant
                0 <= t <= sec@.len(),
            decreases sec@.len() - t,
        {
            rest.push(sec[t]);
            t = t + 1;
        }
        k = k + 1;
    }
    let pipeline = parse_mapper(rest.as_slice());
    let initial = seed_block.get_interesting_points();
    let interesting = pipeline.run(&initial);
    let mut minimum: i64 = i64::MAX;
    let mut i: usize = 0;
    while i < interesting.len()
        invariant
            0 <= i <= interesting@.len(),
        decreases interesting@.len() - i,
    {
        let pt = interesting[i];
        let maybe_seed = pipeline.get_seed(pt);
        if seed_block.is_valid_seed(maybe_seed) {
            if pt < minimum {
                minimum = pt;
            }
        }
        i = i + 1;
    }
    minimum
}

} // verus!
