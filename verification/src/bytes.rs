//! Little-endian byte arithmetic shared by the HID descriptor parser and the
//! report-field extractor.

use vstd::prelude::*;
use vstd::arithmetic::power2::*;
use vstd::bits::*;

verus! {

/// The unsigned little-endian integer encoded by the bytes `s`.
pub open spec fn le_value(s: Seq<u8>) -> nat
    decreases s.len(),
{
    if s.len() == 0 {
        0
    } else {
        le_value(s.drop_last()) + (s.last() as nat) * pow2((8 * (s.len() - 1)) as nat)
    }
}

/// A little-endian value of `n` bytes is below `2^(8n)`.
pub proof fn lemma_le_value_bound(s: Seq<u8>)
    ensures
        le_value(s) < pow2((8 * s.len()) as nat),
    decreases s.len(),
{
    if s.len() == 0 {
        lemma2_to64();
    } else {
        let n = (s.len() - 1) as nat;
        lemma_le_value_bound(s.drop_last());
        let p = pow2(8 * n);
        lemma_pow2_adds(8 * n, 8);
        lemma2_to64();
        assert(pow2(8 * n + 8) == p * 256);
        assert(8 * s.len() == 8 * n + 8);
        let lo = le_value(s.drop_last());
        let b = s.last() as nat;
        assert(lo + b * p < p * 256) by (nonlinear_arith)
            requires
                lo < p,
                b <= 255,
        ;
    }
}

/// Or-ing a byte shifted into the next free byte position of an integer is
/// the same as adding it at that position.
pub proof fn lemma_or_byte(raw: u64, b: u8, k: nat)
    requires
        k < 8,
        raw < pow2(8 * k),
    ensures
        8 * k < 64,
        raw | ((b as u64) << ((8 * k) as u64)) == raw + (b as nat) * pow2(8 * k),
        raw + (b as nat) * pow2(8 * k) < pow2(8 * (k + 1)),
{
    let s: u64 = (8 * k) as u64;
    lemma_pow2_pos(8 * k);
    lemma2_to64();
    lemma2_to64_rest();
    assert(pow2(8 * k) <= pow2(56)) by {
        if 8 * k < 56 {
            lemma_pow2_strictly_increases(8 * k, 56);
        }
    }
    lemma_u64_shl_is_mul(1u64, s);
    let bb = b as u64;
    let p = pow2(8 * k);
    assert(bb * p <= 255 * 0x100000000000000) by (nonlinear_arith)
        requires
            bb <= 255,
            p <= 0x100000000000000,
    ;
    lemma_u64_shl_is_mul(bb, s);
    assert(raw < (1u64 << s));
    assert((raw < (1u64 << s) && s <= 56) ==> (raw | (bb << s)) == raw + (bb << s))
        by (bit_vector);
    lemma_pow2_adds(8 * k, 8);
    assert(8 * (k + 1) == 8 * k + 8);
    assert(raw + bb * p < p * 256) by (nonlinear_arith)
        requires
            raw < p,
            bb <= 255,
    ;
}

/// The little-endian value of a prefix grows by one byte at a time.
pub proof fn lemma_le_value_extend(s: Seq<u8>, lo: int, k: int)
    requires
        0 <= lo,
        0 <= k,
        lo + k < s.len(),
    ensures
        le_value(s.subrange(lo, lo + k + 1)) == le_value(s.subrange(lo, lo + k)) + (s[lo
            + k] as nat) * pow2((8 * k) as nat),
{
    let t = s.subrange(lo, lo + k + 1);
    assert(t.drop_last() =~= s.subrange(lo, lo + k));
    assert(t.last() == s[lo + k]);
}

} // verus!
