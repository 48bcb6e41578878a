//! Greatest common divisor and least common multiple.
//!
//! The simulator's periodicity analysis combines per-watcher cycle lengths
//! with `lcm`, so this module also proves the two facts that combination
//! rule rests on: the least common multiple is a common multiple, and it
//! divides (hence bounds from below) every other positive common multiple.

use vstd::prelude::*;
use vstd::arithmetic::div_mod::*;

verus! {

/// `d` divides `x`.
pub open spec fn divides(d: int, x: int) -> bool {
    exists|k: int| x == #[trigger] (d * k)
}

/// Euclid's greatest common divisor.
pub open spec fn spec_gcd(a: nat, b: nat) -> nat
    decreases b,
{
    if b == 0 {
        a
    } else {
        spec_gcd(b, a % b)
    }
}

/// Least common multiple, defined from the greatest common divisor.
pub open spec fn spec_lcm(a: nat, b: nat) -> nat {
    (a * b) / spec_gcd(a, b)
}

/// The greatest common divisor of two numbers, at least one positive, is positive.
pub proof fn lemma_gcd_pos(a: nat, b: nat)
    requires
        a > 0 || b > 0,
    ensures
        spec_gcd(a, b) > 0,
    decreases b,
{
    if b > 0 {
        lemma_mod_bound(a as int, b as int);
        lemma_gcd_pos(b, (a % b) as nat);
    }
}

/// The greatest common divisor divides both of its arguments.
pub proof fn lemma_gcd_divides(a: nat, b: nat)
    ensures
        divides(spec_gcd(a, b) as int, a as int),
        divides(spec_gcd(a, b) as int, b as int),
    decreases b,
{
    let g = spec_gcd(a, b) as int;
    if b == 0 {
        assert(a as int == g * 1);
        assert(0int == g * 0);
    } else {
        lemma_mod_bound(a as int, b as int);
        lemma_gcd_divides(b, (a % b) as nat);
        let k1 = choose|k: int| b as int == #[trigger] (g * k);
        let k2 = choose|k: int| (a % b) as int == #[trigger] (g * k);
        lemma_fundamental_div_mod(a as int, b as int);
        let q = a as int / b as int;
        assert(a as int == g * (k1 * q + k2)) by (nonlinear_arith)
            requires
                a as int == b as int * q + (a % b),
                b as int == g * k1,
                (a % b) as int == g * k2,
        {}
    }
}

/// Every common divisor of `a` and `b` divides their greatest common divisor.
pub proof fn lemma_common_divisor_divides_gcd(a: nat, b: nat, d: int)
    requires
        divides(d, a as int),
        divides(d, b as int),
    ensures
        divides(d, spec_gcd(a, b) as int),
    decreases b,
{
    if b == 0 {
    } else {
        lemma_mod_bound(a as int, b as int);
        let ka = choose|k: int| a as int == #[trigger] (d * k);
        let kb = choose|k: int| b as int == #[trigger] (d * k);
        lemma_fundamental_div_mod(a as int, b as int);
        let q = a as int / b as int;
        assert((a % b) as int == d * (ka - kb * q)) by (nonlinear_arith)
            requires
                a as int == b as int * q + (a % b),
                a as int == d * ka,
                b as int == d * kb,
        {}
        lemma_common_divisor_divides_gcd(b, (a % b) as nat, d);
    }
}

/// Scaling both arguments scales the greatest common divisor.
pub proof fn lemma_gcd_scale(k: nat, a: nat, b: nat)
    ensures
        spec_gcd(k * a, k * b) == k * spec_gcd(a, b),
    decreases b,
{
    if k == 0 {
        assert(k * a == 0 && k * b == 0 && k * spec_gcd(a, b) == 0) by (nonlinear_arith)
            requires
                k == 0,
        {}
    } else if b == 0 {
        assert(k * b == 0) by (nonlinear_arith)
            requires
                b == 0,
        {}
    } else {
        lemma_mod_bound(a as int, b as int);
        lemma_fundamental_div_mod(a as int, b as int);
        let q = a as int / b as int;
        let r = (a % b) as int;
        assert(k * a == q * (k * b) + k * r) by (nonlinear_arith)
            requires
                a as int == b as int * q + r,
        {}
        assert(0 <= k * r < k * b) by (nonlinear_arith)
            requires
                0 <= r < b as int,
                k >= 1,
        {}
        lemma_fundamental_div_mod_converse_mod((k * a) as int, (k * b) as int, q, k as int * r);
        assert((k * a) % (k * b) == k * r);
        lemma_gcd_scale(k, b, (a % b) as nat);
        assert(spec_gcd(k * a, k * b) == spec_gcd(k * b, (k * a) % (k * b)));
    }
}

/// The least common multiple of two positive numbers is a positive common
/// multiple of both.
pub proof fn lemma_lcm_is_common_multiple(a: nat, b: nat)
    requires
        a > 0,
        b > 0,
    ensures
        spec_lcm(a, b) > 0,
        divides(a as int, spec_lcm(a, b) as int),
        divides(b as int, spec_lcm(a, b) as int),
        a * b == spec_gcd(a, b) * spec_lcm(a, b),
{
    let g = spec_gcd(a, b) as int;
    let l = spec_lcm(a, b) as int;
    lemma_gcd_pos(a, b);
    lemma_gcd_divides(a, b);
    let a1 = choose|k: int| a as int == #[trigger] (g * k);
    let b1 = choose|k: int| b as int == #[trigger] (g * k);
    assert(a as int * b as int == g * (a1 * b as int)) by (nonlinear_arith)
        requires
            a as int == g * a1,
    {}
    lemma_div_multiples_vanish(a1 * b as int, g);
    assert(l == a1 * b as int);
    assert(l == a as int * b1) by (nonlinear_arith)
        requires
            b as int == g * b1,
            a as int == g * a1,
            l == a1 * b as int,
    {}
    assert(l == b as int * a1) by (nonlinear_arith)
        requires
            l == a1 * b as int,
    {}
    assert(a as int * b as int == g * l) by (nonlinear_arith)
        requires
            a as int == g * a1,
            l == a1 * b as int,
    {}
    assert(l > 0) by (nonlinear_arith)
        requires
            a as int * b as int == g * l,
            a > 0,
            b > 0,
            g > 0,
    {}
}

/// Every positive common multiple of `a` and `b` is divisible by, and so at
/// least as large as, their least common multiple.  Together with
/// `lemma_lcm_is_common_multiple` this pins `spec_lcm` down as the smallest
/// positive common multiple.
pub proof fn lemma_lcm_is_least(a: nat, b: nat, m: nat)
    requires
        a > 0,
        b > 0,
        m > 0,
        divides(a as int, m as int),
        divides(b as int, m as int),
    ensures
        divides(spec_lcm(a, b) as int, m as int),
        spec_lcm(a, b) <= m,
{
    let g = spec_gcd(a, b) as int;
    let l = spec_lcm(a, b) as int;
    lemma_gcd_pos(a, b);
    lemma_lcm_is_common_multiple(a, b);
    let s = choose|k: int| m as int == #[trigger] (a as int * k);
    let t = choose|k: int| m as int == #[trigger] (b as int * k);
    lemma_gcd_scale(m, a, b);
    assert(spec_gcd(m * a, m * b) == m * spec_gcd(a, b));
    // a*b divides both m*a and m*b, hence divides gcd(m*a, m*b) == m*g.
    assert((m * a) as int == (a as int * b as int) * t) by (nonlinear_arith)
        requires
            m as int == b as int * t,
    {}
    assert((m * b) as int == (a as int * b as int) * s) by (nonlinear_arith)
        requires
            m as int == a as int * s,
    {}
    lemma_common_divisor_divides_gcd(m * a, m * b, a as int * b as int);
    let u = choose|k: int| (m * spec_gcd(a, b)) as int == #[trigger] ((a as int * b as int) * k);
    // m*g == (g*l)*u, so m == l*u by cancelling the positive g.
    assert(m as int == l * u) by (nonlinear_arith)
        requires
            (m * spec_gcd(a, b)) as int == (a as int * b as int) * u,
            a as int * b as int == g * l,
            g == spec_gcd(a, b),
            g > 0,
    {}
    assert(u >= 1) by (nonlinear_arith)
        requires
            m as int == l * u,
            m > 0,
            l > 0,
    {}
    assert(l <= m as int) by (nonlinear_arith)
        requires
            m as int == l * u,
            u >= 1,
            l > 0,
    {}
}

/// Greatest common divisor by Euclid's algorithm.
pub fn gcd(a: i64, b: i64) -> (r: i64)
    requires
        a >= 0,
        b >= 0,
    ensures
        r == spec_gcd(a as nat, b as nat),
{
    let mut x = a;
    let mut y = b;
    while y != 0
        invariant
            x >= 0,
            y >= 0,
            spec_gcd(x as nat, y as nat) == spec_gcd(a as nat, b as nat),
        decreases y,
    {
        proof {
            lemma_mod_bound(x as int, y as int);
        }
        let t = x % y;
        x = y;
        y = t;
    }
    x
}

/// Least common multiple of two positive numbers, by reduction over the
/// greatest common divisor.
pub fn lcm(a: i64, b: i64) -> (r: i64)
    requires
        1 <= a,
        1 <= b,
        a * b <= i64::MAX,
    ensures
        r == spec_lcm(a as nat, b as nat),
        divides(a as int, r as int),
        divides(b as int, r as int),
        1 <= r,
{
    proof {
        lemma_gcd_pos(a as nat, b as nat);
        lemma_lcm_is_common_multiple(a as nat, b as nat);
        let g = spec_gcd(a as nat, b as nat) as int;
        let l = spec_lcm(a as nat, b as nat) as int;
        assert(a as int * b as int == g * l);
        assert(l <= a as int * b as int) by (nonlinear_arith)
            requires
                a as int * b as int == g * l,
                g >= 1,
                l >= 1,
        {}
    }
    let g = gcd(a, b);
    let r = a * b / g;
    proof {
        assert(r == spec_lcm(a as nat, b as nat));
    }
    r
}

} // verus!
