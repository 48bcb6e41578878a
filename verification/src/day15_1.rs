//! The holiday hash: each comma-separated step is hashed and the hashes are
//! summed.

use vstd::prelude::*;
use vstd::string::StringSliceAdditionalSpecFns;
use crate::arith::sat_add;
use crate::text;

verus! {

/// The sum of the rolling hashes of a sequence of steps (clamped as the
/// accumulation computes it).
pub open spec fn spec_total_hash(parts: Seq<Seq<u8>>) -> int
    decreases parts.len(),
{
    if parts.len() == 0 {
        0
    } else {
        crate::arith::clamp64(
            spec_total_hash(parts.drop_last()) + crate::day15_2::spec_label_hash(parts.last()),
        )
    }
}

/// Sums, over the comma-separated steps, the rolling hash
/// `(h + byte) * 17 mod 256` of each step: exactly `spec_total_hash` of the
/// comma split.
pub fn solve(content: &str) -> (r: i64)
    ensures
        r == spec_total_hash(text::spec_split(content.spec_bytes(), seq![44u8])),
        r >= 0,
{
    let comma: [u8; 1] = [44];
    proof {
        assert(comma@ =~= seq![44u8]);
    }
    let parts = text::split_pat(content.as_bytes(), comma.as_slice());
    let ghost pv = text::spec_split(content.spec_bytes(), seq![44u8]);
    proof {
        assert(text::deep_view(parts@) == pv);
        assert(forall|k: int| 0 <= k < parts@.len() ==> (#[trigger] parts@[k])@ == pv[k]);
        assert(pv.take(0) =~= Seq::<Seq<u8>>::empty());
    }
    let mut total: i64 = 0;
    let mut p: usize = 0;
    while p < parts.len()
        invariant
            text::deep_view(parts@) == pv,
            forall|k: int| 0 <= k < parts@.len() ==> (#[trigger] parts@[k])@ == pv[k],
            0 <= p <= parts@.len(),
            total == spec_total_hash(pv.take(p as int)),
            total >= 0,
        decreases parts@.len() - p,
    {
        let seq = parts[p].as_slice();
        let mut curr: i64 = 0;
        let mut i: usize = 0;
        proof {
            assert(seq@.subrange(0, 0) =~= Seq::<u8>::empty());
        }
        while i < seq.len()
            invariant
                0 <= i <= seq@.len(),
                curr == crate::day15_2::spec_label_hash(seq@.subrange(0, i as int)),
                0 <= curr < 256,
            decreases seq@.len() - i,
        {
            proof {
                let pre = seq@.subrange(0, i as int + 1);
                assert(pre.drop_last() =~= seq@.subrange(0, i as int));
                assert(pre.last() == seq@[i as int]);
            }
            curr = (curr + seq[i] as i64) * 17 % 256;
            i = i + 1;
        }
        proof {
            assert(seq@.subrange(0, seq@.len() as int) =~= seq@);
            assert(pv.take(p as int + 1).drop_last() =~= pv.take(p as int));
            assert(pv.take(p as int + 1).last() == pv[p as int]);
            assert(seq@ == pv[p as int]);
        }
        total = sat_add(total, curr);
        p = p + 1;
    }
    proof {
        assert(pv.take(parts@.len() as int) =~= pv);
    }
    total
}

} // verus!
