//! Camel cards: hands rank by type, then by card powers left to right, and
//! the answer sums each hand's bid times its rank.

use vstd::prelude::*;
use crate::arith::{sat_add, sat_mul, to_i64};
use crate::text;

verus! {

/// The rank of one card character: `2` through `9`, then `T`, `J`, `Q`,
/// `K`, `A`; any other byte ranks `-1`.
pub open spec fn card_power(c: u8) -> i64 {
    if c == 65 {
        12i64
    } else if c == 75 {
        11i64
    } else if c == 81 {
        10i64
    } else if c == 74 {
        9i64
    } else if c == 84 {
        8i64
    } else if 50 <= c && c <= 57 {
        (c - 50) as i64
    } else {
        -1i64
    }
}

/// One hand: its cards, bid, and the precomputed type and powers.
pub struct Hand {
    pub cards: Vec<u8>,
    pub bid: i64,
    pub cards_type: i64,
    pub cards_power: Vec<i64>,
}

impl Hand {
    /// Builds a hand, computing its type and card powers.
    pub fn new(cards: Vec<u8>, bid: i64) -> (r: Hand)
        ensures
            0 <= r.cards_type <= 6,
            r.bid == bid,
            r.cards_power@.len() == cards@.len(),
    {
        let cards_type = Hand::compute_cards_type(&cards);
        let cards_power = Hand::compute_cards_power(&cards);
        Hand { cards, bid, cards_type, cards_power }
    }

    /// The power of each card, `2` lowest through ace highest; a byte that
    /// is no card character ranks `-1`, below every real card.
    pub fn compute_cards_power(cards: &Vec<u8>) -> (r: Vec<i64>)
        ensures
            r@.len() == cards@.len(),
            forall|i: int| 0 <= i < r@.len() ==> #[trigger] r@[i] == card_power(cards@[i]),
            forall|i: int| 0 <= i < r@.len() ==> -1 <= #[trigger] r@[i] <= 12,
    {
        let mut powers: Vec<i64> = Vec::new();
        let mut i: usize = 0;
        while i < cards.len()
            invariant
                0 <= i <= cards@.len(),
                powers@.len() == i,
                forall|k: int| 0 <= k < powers@.len() ==> #[trigger] powers@[k] == card_power(
                    cards@[k],
                ),
                forall|k: int| 0 <= k < powers@.len() ==> -1 <= #[trigger] powers@[k] <= 12,
            decreases cards@.len() - i,
        {
            let c = cards[i];
            let p: i64 = if c == 65 {
                12
            } else if c == 75 {
                11
            } else if c == 81 {
                10
            } else if c == 74 {
                9
            } else if c == 84 {
                8
            } else if 50 <= c && c <= 57 {
                (c - 50) as i64
            } else {
                -1
            };
            powers.push(p);
            i = i + 1;
        }
        powers
    }

    /// The hand type, `0` (high card) through `6` (five of a kind), found
    /// by comparing the sorted per-card counts against the possible shapes.
    pub fn compute_cards_type(cards: &Vec<u8>) -> (r: i64)
        ensures
            0 <= r <= 6,
    {
        // count each distinct card
        let mut counts: Vec<i64> = Vec::new();
        let mut seen: Vec<u8> = Vec::new();
        let mut i: usize = 0;
        while i < cards.len()
            invariant
                0 <= i <= cards@.len(),
                counts@.len() == seen@.len(),
            decreases cards@.len() - i,
        {
            let c = cards[i];
            let mut found = false;
            let mut j: usize = 0;
            while j < seen.len()
                invariant
                    0 <= j <= seen@.len(),
                    counts@.len() == seen@.len(),
                decreases seen@.len() - j,
            {
                if seen[j] == c && !found {
                    found = true;
                    let cur = counts[j];
                    counts[j] = sat_add(cur, 1);
                }
                j = j + 1;
            }
            if !found {
                seen.push(c);
                counts.push(1);
            }
            i = i + 1;
        }
        // sort the counts ascending (selection by repeated minimum removal)
        let mut sorted: Vec<i64> = Vec::new();
        while counts.len() > 0
            invariant
                true,
            decreases counts@.len(),
        {
            let mut min_idx: usize = 0;
            let mut j: usize = 1;
            while j < counts.len()
                invariant
                    0 <= j <= counts@.len(),
                    min_idx < counts@.len(),
                    counts@.len() >= 1,
                decreases counts@.len() - j,
            {
                if counts[j] < counts[min_idx] {
                    min_idx = j;
                }
                j = j + 1;
            }
            let m = counts.remove(min_idx);
            sorted.push(m);
        }
        // compare against the shapes
        if eq5(&sorted, 5, 0, 0, 0, 0, 1) {
            6
        } else if eq5(&sorted, 1, 4, 0, 0, 0, 2) {
            5
        } else if eq5(&sorted, 2, 3, 0, 0, 0, 2) {
            4
        } else if eq5(&sorted, 1, 1, 3, 0, 0, 3) {
            3
        } else if eq5(&sorted, 1, 2, 2, 0, 0, 3) {
            2
        } else if eq5(&sorted, 1, 1, 1, 2, 0, 4) {
            1
        } else {
            0
        }
    }
}

/// Whether `v` holds exactly the first `n` of the given values.
fn eq5(v: &Vec<i64>, a: i64, b: i64, c: i64, d: i64, e: i64, n: usize) -> (r: bool)
    requires
        n <= 5,
{
    if v.len() != n {
        return false;
    }
    if n >= 1 && v[0] != a {
        return false;
    }
    if n >= 2 && v[1] != b {
        return false;
    }
    if n >= 3 && v[2] != c {
        return false;
    }
    if n >= 4 && v[3] != d {
        return false;
    }
    if n >= 5 && v[4] != e {
        return false;
    }
    true
}

/// Reads `cards bid` lines into hands.
pub fn parse(content: &str) -> (r: Vec<Hand>) {
    let lines = text::split_lines(content.as_bytes());
    let mut hands: Vec<Hand> = Vec::new();
    let mut i: usize = 0;
    while i < lines.len()
        invariant
            0 <= i <= lines@.len(),
        decreases lines@.len() - i,
    {
        let tokens = text::split_whitespace(lines[i].as_slice());
        if tokens.len() >= 2 {
            let cards = text::copy_bytes(tokens[0].as_slice());
            let bid = match text::parse_i64(tokens[1].as_slice()) {
                Some(v) => v,
                None => 0,
            };
            hands.push(Hand::new(cards, bid));
        }
        i = i + 1;
    }
    hands
}

/// A single sort key: the type, then the five card powers, base-13.
fn sort_key(h: &Hand) -> (r: u64) {
    let mut key: u64 = if 0 <= h.cards_type && h.cards_type <= 6 {
        h.cards_type as u64
    } else {
        0
    };
    let mut i: usize = 0;
    while i < h.cards_power.len() && i < 5
        invariant
            0 <= i <= 5,
            i == 0 ==> key <= 6,
            i == 1 ==> key <= 91,
            i == 2 ==> key <= 1196,
            i == 3 ==> key <= 15561,
            i == 4 ==> key <= 202306,
            i == 5 ==> key <= 2629991,
        decreases h.cards_power@.len() - i,
    {
        let p = h.cards_power[i];
        let digit: u64 = if 0 <= p && p <= 12 {
            (p + 1) as u64
        } else {
            0
        };
        key = key * 13 + digit;
        i = i + 1;
    }
    key
}

/// Sums bid times rank over the hands sorted by type then card powers.
pub fn solve(content: &str) -> (r: i64) {
    let hands = parse(content);
    // stable insertion sort on the numeric key
    let mut keyed: Vec<(u64, i64)> = Vec::new();
    let mut i: usize = 0;
    while i < hands.len()
        invariant
            0 <= i <= hands@.len(),
        decreases hands@.len() - i,
    {
        keyed.push((sort_key(&hands[i]), hands[i].bid));
        i = i + 1;
    }
    let mut sorted: Vec<(u64, i64)> = Vec::new();
    let mut k: usize = 0;
    while k < keyed.len()
        invariant
            0 <= k <= keyed@.len(),
        decreases keyed@.len() - k,
    {
        let item = keyed[k];
        // insert before the first strictly larger key, after equal keys
        let mut pos: usize = 0;
        let mut placed = false;
        let mut j: usize = 0;
        while j < sorted.len()
            invariant
                0 <= j <= sorted@.len(),
                pos <= j,
            decreases sorted@.len() - j,
        {
            if !placed && sorted[j].0 > item.0 {
                pos = j;
                placed = true;
            }
            j = j + 1;
        }
        if !placed {
            pos = sorted.len();
        }
        sorted.insert(pos, item);
        k = k + 1;
    }
    let mut total: i64 = 0;
    let mut t: usize = 0;
    while t < sorted.len()
        invariant
            0 <= t <= sorted@.len(),
        decreases sorted@.len() - t,
    {
        total = sat_add(total, sat_mul(to_i64(t + 1), sorted[t].1));
        t = t + 1;
    }
    total
}

} // verus!
