//! Byte-level text helpers shared by the solvers.
//!
//! Every solver works on the raw bytes of its input, so the splitting and
//! number-reading routines live here.  Inputs are ASCII; splitting on byte
//! values therefore agrees with splitting on characters.

use vstd::prelude::*;

verus! {

/// Whether every byte of `s` is a decimal digit.
pub open spec fn all_digits(s: Seq<u8>) -> bool {
    forall|i: int| 0 <= i < s.len() ==> 48 <= #[trigger] s[i] <= 57
}

/// The number denoted by a sequence of decimal digits.
pub open spec fn digits_value(s: Seq<u8>) -> nat
    decreases s.len(),
{
    if s.len() == 0 {
        0
    } else {
        digits_value(s.drop_last()) * 10 + (s.last() - 48) as nat
    }
}

/// Reads an unsigned decimal number.  Returns `None` when `s` is empty, holds
/// a non-digit byte, or denotes a value beyond `u64::MAX`.
pub fn parse_u64(s: &[u8]) -> (r: Option<u64>)
    ensures
        match r {
            Some(v) => s@.len() > 0 && all_digits(s@) && v == digits_value(s@),
            None => s@.len() == 0 || !all_digits(s@) || digits_value(s@) > u64::MAX,
        },
{
    if s.len() == 0 {
        return None;
    }
    let mut acc: u64 = 0;
    let mut i: usize = 0;
    while i < s.len()
        invariant
            0 <= i <= s@.len(),
            all_digits(s@.subrange(0, i as int)),
            acc == digits_value(s@.subrange(0, i as int)),
        decreases s@.len() - i,
    {
        let b = s[i];
        if b < 48 || b > 57 {
            proof {
                assert(s@.subrange(0, i as int + 1)[i as int] == s@[i as int]);
                assert(!all_digits(s@));
            }
            return None;
        }
        let d = (b - 48) as u64;
        if acc > (u64::MAX - d) / 10 {
            proof {
                let pre = s@.subrange(0, i as int + 1);
                assert(pre.drop_last() =~= s@.subrange(0, i as int));
                assert(pre.last() == s@[i as int]);
                assert(digits_value(pre) == acc * 10 + d);
                if all_digits(s@) {
                    lemma_digits_value_grows(s@, i as int + 1);
                }
                assert(acc * 10 + d > u64::MAX) by (nonlinear_arith)
                    requires
                        acc > (u64::MAX - d) / 10,
                        0 <= d <= 9,
                        acc >= 0,
                {}
            }
            return None;
        }
        proof {
            let pre = s@.subrange(0, i as int + 1);
            assert(pre.drop_last() =~= s@.subrange(0, i as int));
            assert(pre.last() == s@[i as int]);
        }
        acc = acc * 10 + d;
        i = i + 1;
    }
    proof {
        assert(s@.subrange(0, s@.len() as int) =~= s@);
    }
    Some(acc)
}

/// A longer digit string (with all digits) denotes at least as large a value.
proof fn lemma_digits_value_grows(s: Seq<u8>, k: int)
    requires
        0 <= k <= s.len(),
        all_digits(s.subrange(0, k)),
    ensures
        all_digits(s) ==> digits_value(s.subrange(0, k)) <= digits_value(s),
    decreases s.len() - k,
{
    if k == s.len() {
        assert(s.subrange(0, k) =~= s);
    } else if all_digits(s) {
        assert(s.subrange(0, k + 1).drop_last() =~= s.subrange(0, k));
        assert(forall|i: int| 0 <= i < k + 1 ==> 48 <= #[trigger] s.subrange(0, k + 1)[i] <= 57);
        lemma_digits_value_grows(s, k + 1);
        assert(digits_value(s.subrange(0, k)) <= digits_value(s.subrange(0, k + 1)))
            by (nonlinear_arith)
            requires
                digits_value(s.subrange(0, k + 1)) == digits_value(s.subrange(0, k)) * 10 + (
                s.subrange(0, k + 1).last() - 48) as nat,
        {}
    }
}

/// Splits `s` at every occurrence of the byte `sep`.  Always returns at least
/// one (possibly empty) part, and parts never contain `sep`.
pub fn split_byte(s: &[u8], sep: u8) -> (r: Vec<Vec<u8>>)
    ensures
        1 <= r@.len() <= s@.len() + 1,
        forall|p: int| 0 <= p < r@.len() ==> (#[trigger] r@[p])@.len() <= s@.len(),
{
    let mut parts: Vec<Vec<u8>> = Vec::new();
    let mut cur: Vec<u8> = Vec::new();
    let mut i: usize = 0;
    while i < s.len()
        invariant
            cur@.len() <= i <= s@.len(),
            parts@.len() <= i,
            forall|p: int| 0 <= p < parts@.len() ==> (#[trigger] parts@[p])@.len() <= s@.len(),
        decreases s@.len() - i,
    {
        if s[i] == sep {
            parts.push(cur);
            cur = Vec::new();
        } else {
            cur.push(s[i]);
        }
        i = i + 1;
    }
    parts.push(cur);
    parts
}


/// The views of a vector of byte vectors.
pub open spec fn deep_view(v: Seq<Vec<u8>>) -> Seq<Seq<u8>> {
    v.map_values(|x: Vec<u8>| x@)
}

/// Whether `pat` occurs in `s` at position `i`.
pub open spec fn occurs_in(s: Seq<u8>, pat: Seq<u8>, i: int) -> bool {
    0 <= i && i + pat.len() <= s.len() && s.subrange(i, i + pat.len()) =~= pat
}

/// Whether `s` starts with `pat`.
pub open spec fn starts_with(s: Seq<u8>, pat: Seq<u8>) -> bool {
    pat.len() <= s.len() && s.subrange(0, pat.len() as int) =~= pat
}

/// Splitting `s` at every occurrence of `pat`, scanning left to right
/// without overlaps: the mathematical value that `split_pat` returns.
pub open spec fn spec_split(s: Seq<u8>, pat: Seq<u8>) -> Seq<Seq<u8>>
    recommends
        pat.len() >= 1,
    decreases s.len(),
{
    if s.len() == 0 {
        seq![Seq::<u8>::empty()]
    } else if pat.len() >= 1 && starts_with(s, pat) {
        seq![Seq::<u8>::empty()] + spec_split(s.skip(pat.len() as int), pat)
    } else {
        let rest = spec_split(s.drop_first(), pat);
        seq![seq![s[0]] + rest[0]] + rest.drop_first()
    }
}

/// A split always has at least one part.
pub proof fn lemma_spec_split_len(s: Seq<u8>, pat: Seq<u8>)
    ensures
        spec_split(s, pat).len() >= 1,
    decreases s.len(),
{
    if s.len() == 0 {
    } else if pat.len() >= 1 && starts_with(s, pat) {
        lemma_spec_split_len(s.skip(pat.len() as int), pat);
    } else {
        lemma_spec_split_len(s.drop_first(), pat);
    }
}

/// Splits `s` at every occurrence of the byte string `pat`, scanning left to
/// right without overlaps: exactly `spec_split(s@, pat@)`.
pub fn split_pat(s: &[u8], pat: &[u8]) -> (r: Vec<Vec<u8>>)
    requires
        pat@.len() >= 1,
    ensures
        deep_view(r@) == spec_split(s@, pat@),
        1 <= r@.len() <= s@.len() + 1,
        forall|p: int| 0 <= p < r@.len() ==> (#[trigger] r@[p])@.len() <= s@.len(),
{
    let mut parts: Vec<Vec<u8>> = Vec::new();
    let mut cur: Vec<u8> = Vec::new();
    let mut i: usize = 0;
    proof {
        lemma_spec_split_len(s@, pat@);
        assert(s@.skip(0) =~= s@);
        assert(spec_split(s@, pat@) =~~= deep_view(parts@) + seq![
            cur@ + spec_split(s@.skip(0), pat@).first(),
        ] + spec_split(s@.skip(0), pat@).drop_first());
    }
    while i < s.len()
        invariant
            pat@.len() >= 1,
            cur@.len() <= i <= s@.len(),
            parts@.len() <= i,
            forall|p: int| 0 <= p < parts@.len() ==> (#[trigger] parts@[p])@.len() <= s@.len(),
            spec_split(s@, pat@) == deep_view(parts@) + seq![
                cur@ + spec_split(s@.skip(i as int), pat@).first(),
            ] + spec_split(s@.skip(i as int), pat@).drop_first(),
        decreases s@.len() - i,
    {
        let ghost tail = s@.skip(i as int);
        proof {
            assert(tail.len() > 0);
            lemma_spec_split_len(tail, pat@);
        }
        if matches_at(s, i, pat) {
            proof {
                assert(tail.subrange(0, pat@.len() as int) =~= s@.subrange(
                    i as int,
                    i + pat@.len(),
                ));
                assert(starts_with(tail, pat@));
                assert(tail.skip(pat@.len() as int) =~= s@.skip(i + pat@.len()));
                lemma_spec_split_len(s@.skip(i + pat@.len()), pat@);
            }
            parts.push(cur);
            cur = Vec::new();
            i = i + pat.len();
            proof {
                let t2 = spec_split(s@.skip(i as int), pat@);
                assert(spec_split(tail, pat@) == seq![Seq::<u8>::empty()] + t2);
                assert(deep_view(parts@) =~~= deep_view(parts@.drop_last()) + seq![
                    parts@.last()@,
                ]);
                assert(spec_split(s@, pat@) =~~= deep_view(parts@) + seq![
                    cur@ + t2.first(),
                ] + t2.drop_first());
            }
        } else {
            proof {
                assert(!starts_with(tail, pat@)) by {
                    if starts_with(tail, pat@) {
                        assert(s@.subrange(i as int, i + pat@.len()) =~= tail.subrange(
                            0,
                            pat@.len() as int,
                        ));
                    }
                }
                assert(tail.drop_first() =~= s@.skip(i as int + 1));
                assert(tail[0] == s@[i as int]);
                lemma_spec_split_len(s@.skip(i as int + 1), pat@);
            }
            cur.push(s[i]);
            i = i + 1;
            proof {
                let t2 = spec_split(s@.skip(i as int), pat@);
                assert(spec_split(tail, pat@) == seq![seq![tail[0]] + t2.first()]
                    + t2.drop_first());
                assert(spec_split(tail, pat@).first() == seq![tail[0]] + t2.first());
                assert(spec_split(tail, pat@).drop_first() =~= t2.drop_first());
                assert(cur@ + t2.first() =~= cur@.drop_last() + (seq![tail[0]] + t2.first()));
                assert(spec_split(s@, pat@) =~~= deep_view(parts@) + seq![
                    cur@ + t2.first(),
                ] + t2.drop_first());
            }
        }
    }
    proof {
        assert(s@.skip(i as int).len() == 0);
        assert(spec_split(s@.skip(i as int), pat@) == seq![Seq::<u8>::empty()]);
        assert(spec_split(s@, pat@) =~~= deep_view(parts@) + seq![cur@]);
    }
    parts.push(cur);
    proof {
        assert(deep_view(parts@) =~~= deep_view(parts@.drop_last()) + seq![parts@.last()@]);
        assert(deep_view(parts@) =~~= spec_split(s@, pat@));
    }
    parts
}

/// Whether `pat` occurs in `s` starting at position `i`.
pub fn matches_at(s: &[u8], i: usize, pat: &[u8]) -> (r: bool)
    requires
        i <= s@.len(),
    ensures
        r ==> i + pat@.len() <= s@.len(),
        r == (i + pat@.len() <= s@.len() && s@.subrange(i as int, i + pat@.len()) =~= pat@),
{
    if s.len() - i < pat.len() {
        return false;
    }
    let n = s.len();
    let mut j: usize = 0;
    while j < pat.len()
        invariant
            0 <= j <= pat@.len(),
            n == s@.len(),
            i + pat@.len() <= s@.len(),
            forall|k: int| 0 <= k < j ==> s@[i + k] == pat@[k],
        decreases pat@.len() - j,
    {
        assert(i + j < n);
        if s[i + j] != pat[j] {
            proof {
                assert(s@.subrange(i as int, i + pat@.len())[j as int] == s@[i + j]);
            }
            return false;
        }
        j = j + 1;
    }
    proof {
        assert(forall|k: int| 0 <= k < pat@.len() ==> #[trigger] s@.subrange(
            i as int,
            i + pat@.len(),
        )[k] == s@[i + k]);
    }
    true
}

/// The lines of `s`: newline-separated parts, without a final empty part
/// when `s` ends in a newline.
pub open spec fn spec_lines(s: Seq<u8>) -> Seq<Seq<u8>> {
    let p = spec_split(s, seq![10u8]);
    if p.len() >= 1 && p.last().len() == 0 {
        p.drop_last()
    } else {
        p
    }
}

/// Splits `s` into lines: exactly `spec_lines(s@)`.
pub fn split_lines(s: &[u8]) -> (r: Vec<Vec<u8>>)
    ensures
        deep_view(r@) == spec_lines(s@),
        r@.len() <= s@.len() + 1,
        forall|p: int| 0 <= p < r@.len() ==> (#[trigger] r@[p])@.len() <= s@.len(),
{
    let newline: [u8; 1] = [10];
    proof {
        assert(newline@ =~= seq![10u8]);
    }
    let mut parts = split_pat(s, newline.as_slice());
    let ghost whole = deep_view(parts@);
    if parts.len() > 0 {
        let last = &parts[parts.len() - 1];
        if last.len() == 0 {
            proof {
                assert(whole.last().len() == 0);
            }
            parts.pop();
            proof {
                assert(deep_view(parts@) =~~= whole.drop_last());
            }
        }
    }
    parts
}

/// Splits `s` on runs of ASCII whitespace, returning only non-empty parts.
pub fn split_whitespace(s: &[u8]) -> (r: Vec<Vec<u8>>)
    ensures
        r@.len() <= s@.len(),
        forall|p: int| 0 <= p < r@.len() ==> 1 <= (#[trigger] r@[p])@.len() <= s@.len(),
{
    let mut parts: Vec<Vec<u8>> = Vec::new();
    let mut cur: Vec<u8> = Vec::new();
    let mut i: usize = 0;
    while i < s.len()
        invariant
            cur@.len() <= i <= s@.len(),
            parts@.len() + cur@.len() <= i,
            forall|p: int| 0 <= p < parts@.len() ==> 1 <= (#[trigger] parts@[p])@.len() <= s@.len(),
        decreases s@.len() - i,
    {
        let b = s[i];
        if b == 32 || b == 9 || b == 10 || b == 13 {
            if cur.len() > 0 {
                parts.push(cur);
                cur = Vec::new();
            }
        } else {
            cur.push(b);
        }
        i = i + 1;
    }
    if cur.len() > 0 {
        parts.push(cur);
    }
    parts
}

/// A copy of `s` as an owned vector.
pub fn copy_bytes(s: &[u8]) -> (r: Vec<u8>)
    ensures
        r@ =~= s@,
{
    let mut out: Vec<u8> = Vec::new();
    let mut i: usize = 0;
    while i < s.len()
        invariant
            0 <= i <= s@.len(),
            out@ =~= s@.subrange(0, i as int),
        decreases s@.len() - i,
    {
        out.push(s[i]);
        i = i + 1;
    }
    proof {
        assert(s@.subrange(0, s@.len() as int) =~= s@);
    }
    out
}

/// A copy of `s` without its first `k` bytes.
pub fn suffix_bytes(s: &[u8], k: usize) -> (r: Vec<u8>)
    requires
        k <= s@.len(),
    ensures
        r@ =~= s@.skip(k as int),
{
    let mut out: Vec<u8> = Vec::new();
    let mut i: usize = k;
    while i < s.len()
        invariant
            k <= i <= s@.len(),
            out@ =~= s@.subrange(k as int, i as int),
        decreases s@.len() - i,
    {
        out.push(s[i]);
        i = i + 1;
    }
    proof {
        assert(s@.subrange(k as int, s@.len() as int) =~= s@.skip(k as int));
    }
    out
}

/// A copy of the bytes of `s` from `lo` (inclusive) to `hi` (exclusive).
pub fn copy_range(s: &[u8], lo: usize, hi: usize) -> (r: Vec<u8>)
    requires
        lo <= hi <= s@.len(),
    ensures
        r@ =~= s@.subrange(lo as int, hi as int),
{
    let mut out: Vec<u8> = Vec::new();
    let mut i: usize = lo;
    while i < hi
        invariant
            lo <= i <= hi <= s@.len(),
            out@ =~= s@.subrange(lo as int, i as int),
        decreases hi - i,
    {
        out.push(s[i]);
        i = i + 1;
    }
    out
}

/// Whether two byte sequences are equal.
pub fn bytes_eq(a: &[u8], b: &[u8]) -> (r: bool)
    ensures
        r == (a@ =~= b@),
{
    if a.len() != b.len() {
        return false;
    }
    let mut i: usize = 0;
    while i < a.len()
        invariant
            0 <= i <= a@.len(),
            a@.len() == b@.len(),
            forall|k: int| 0 <= k < i ==> a@[k] == b@[k],
        decreases a@.len() - i,
    {
        if a[i] != b[i] {
            return false;
        }
        i = i + 1;
    }
    true
}

} // verus!

verus! {

/// Reads a decimal number with an optional leading minus sign, clamped to
/// the `i64` range.  Returns `None` on an empty or non-numeric string.
pub fn parse_i64(s: &[u8]) -> (r: Option<i64>)
    ensures
        r is Some ==> s@.len() >= 1,
{
    if s.len() >= 1 && s[0] == 45 {
        let mut tail: Vec<u8> = Vec::new();
        let mut i: usize = 1;
        while i < s.len()
            invariant
                1 <= i <= s@.len(),
            decreases s@.len() - i,
        {
            tail.push(s[i]);
            i = i + 1;
        }
        match parse_u64(tail.as_slice()) {
            Some(v) => {
                if v <= 0x8000_0000_0000_0000u64 {
                    if v == 0x8000_0000_0000_0000u64 {
                        Some(i64::MIN)
                    } else {
                        Some(-(v as i64))
                    }
                } else {
                    Some(i64::MIN)
                }
            },
            None => None,
        }
    } else {
        match parse_u64(s) {
            Some(v) => {
                if v <= 0x7fff_ffff_ffff_ffffu64 {
                    Some(v as i64)
                } else {
                    Some(i64::MAX)
                }
            },
            None => None,
        }
    }
}

/// Reads a hexadecimal number, clamped to the `i64` range.  Returns `None`
/// on an empty string or a non-hex byte.
pub fn parse_hex_i64(s: &[u8]) -> (r: Option<i64>)
    ensures
        r matches Some(v) ==> s@.len() >= 1 && v >= 0,
{
    if s.len() == 0 {
        return None;
    }
    let mut acc: i64 = 0;
    let mut i: usize = 0;
    while i < s.len()
        invariant
            0 <= i <= s@.len(),
            acc >= 0,
        decreases s@.len() - i,
    {
        let b = s[i];
        let d: i64;
        if 48 <= b && b <= 57 {
            d = (b - 48) as i64;
        } else if 97 <= b && b <= 102 {
            d = (b - 87) as i64;
        } else if 65 <= b && b <= 70 {
            d = (b - 55) as i64;
        } else {
            return None;
        }
        acc = crate::arith::sat_add(crate::arith::sat_mul(acc, 16), d);
        i = i + 1;
    }
    Some(acc)
}

/// The bytes of `s`, reversed.
pub fn reverse_bytes(s: &[u8]) -> (r: Vec<u8>)
    ensures
        r@.len() == s@.len(),
        forall|i: int| 0 <= i < s@.len() ==> r@[i] == s@[s@.len() - 1 - i],
{
    let mut out: Vec<u8> = Vec::new();
    let mut i: usize = s.len();
    while i > 0
        invariant
            0 <= i <= s@.len(),
            out@.len() == s@.len() - i,
            forall|k: int| 0 <= k < out@.len() ==> out@[k] == s@[s@.len() - 1 - k],
        decreases i,
    {
        i = i - 1;
        out.push(s[i]);
    }
    out
}

/// The position of the first occurrence of `pat` in `s`, if any.
pub fn find_sub(s: &[u8], pat: &[u8]) -> (r: Option<usize>)
    requires
        pat@.len() >= 1,
    ensures
        match r {
            Some(i) => {
                &&& i + pat@.len() <= s@.len()
                &&& s@.subrange(i as int, i + pat@.len()) =~= pat@
                &&& forall|j: int|
                    0 <= j < i ==> !(j + pat@.len() <= s@.len() && #[trigger] s@.subrange(
                        j,
                        j + pat@.len(),
                    ) =~= pat@)
            },
            None => forall|j: int|
                0 <= j ==> !(j + pat@.len() <= s@.len() && #[trigger] s@.subrange(
                    j,
                    j + pat@.len(),
                ) =~= pat@),
        },
{
    let mut i: usize = 0;
    while i < s.len()
        invariant
            0 <= i <= s@.len(),
            forall|j: int|
                0 <= j < i ==> !(j + pat@.len() <= s@.len() && #[trigger] s@.subrange(
                    j,
                    j + pat@.len(),
                ) =~= pat@),
        decreases s@.len() - i,
    {
        if matches_at(s, i, pat) {
            return Some(i);
        }
        i = i + 1;
    }
    proof {
        assert forall|j: int|
            0 <= j implies !(j + pat@.len() <= s@.len() && #[trigger] s@.subrange(
            j,
            j + pat@.len(),
        ) =~= pat@) by {
            if j < s@.len() {
            } else {
                assert(j + pat@.len() > s@.len());
            }
        }
    }
    None
}

} // verus!
