use vstd::prelude::*;

use super::{Mask, has_bits, kind_bit, bit_is_set};

verus! {

/// Setting the bit of kind `k` leaves every other bit as it was.
pub proof fn lemma_set_kind_bit(m: Mask, k: int, p: int)
    requires
        0 <= k < 32,
        0 <= p < 32,
    ensures
        bit_is_set(m | kind_bit(k), p) == (p == k || bit_is_set(m, p)),
{
    let ku = k as u32;
    let pu = p as u32;
    assert(((m | (1u32 << ku)) & (1u32 << pu) != 0) == (pu == ku || m & (1u32 << pu) != 0))
        by (bit_vector)
        requires
            ku < 32,
            pu < 32,
    ;
}

/// The empty mask has no bit set.
pub proof fn lemma_empty_no_bits(p: int)
    requires
        0 <= p < 32,
    ensures
        !bit_is_set(0, p),
{
    let pu = p as u32;
    assert(0u32 & (1u32 << pu) == 0) by (bit_vector);
}

/// A mask names a single kind exactly when that kind's bit is set.
pub proof fn lemma_has_kind_bit(m: Mask, p: int)
    requires
        0 <= p < 32,
    ensures
        has_bits(m, kind_bit(p)) == bit_is_set(m, p),
{
    let pu = p as u32;
    assert((m & (1u32 << pu) == (1u32 << pu)) == (m & (1u32 << pu) != 0)) by (bit_vector)
        requires
            pu < 32,
    ;
}

/// A mask names the union of two masks exactly when it names each of them.
pub proof fn lemma_has_union(m: Mask, a: Mask, b: Mask)
    ensures
        has_bits(m, a | b) == (has_bits(m, a) && has_bits(m, b)),
{
    assert((m & (a | b) == (a | b)) == ((m & a == a) && (m & b == b))) by (bit_vector);
}

/// Every mask names the empty mask, and every mask names itself.
pub proof fn lemma_has_empty_and_self(m: Mask)
    ensures
        has_bits(m, 0),
        has_bits(m, m),
{
    assert(m & 0 == 0) by (bit_vector);
    assert(m & m == m) by (bit_vector);
}

/// The only mask that the empty mask names is the empty mask.
pub proof fn lemma_empty_has_only_empty(f: Mask)
    ensures
        has_bits(0, f) == (f == 0),
{
    assert((0u32 & f == f) == (f == 0)) by (bit_vector);
}

/// Distinct kinds have disjoint single-bit masks.
pub proof fn lemma_kind_bits_disjoint(p: int, q: int)
    requires
        0 <= p < 32,
        0 <= q < 32,
    ensures
        kind_bit(p) != 0,
        p != q ==> kind_bit(p) & kind_bit(q) == 0,
{
    let pu = p as u32;
    let qu = q as u32;
    assert(1u32 << pu != 0) by (bit_vector)
        requires
            pu < 32,
    ;
    assert(pu != qu ==> (1u32 << pu) & (1u32 << qu) == 0) by (bit_vector)
        requires
            pu < 32,
            qu < 32,
    ;
}

} // verus!
