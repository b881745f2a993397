use vstd::prelude::*;

use super::{Mask, bit_char, digit_count, mask_text};

verus! {

/// The number that a string of binary digits stands for, most significant digit first
/// (any character other than `'1'` counts as a zero).
pub open spec fn binary_value(digits: Seq<char>) -> nat
    decreases digits.len(),
{
    if digits.len() == 0 {
        0
    } else {
        2 * binary_value(digits.drop_last()) + if digits.last() == '1' {
            1nat
        } else {
            0nat
        }
    }
}

/// Shifting right by `s` is shifting right by `s + 1`, doubled, plus bit `s`.
proof fn lemma_shr_step(m: Mask, s: u32)
    requires
        s < 31,
    ensures
        (m >> s) as int == 2 * ((m >> (s + 1) as u32) as int) + ((m >> s) & 1) as int,
{
    let t: u32 = (s + 1) as u32;
    assert(m >> s == 2 * (m >> t) + ((m >> s) & 1)) by (bit_vector)
        requires
            s < 31,
            t == s + 1,
    ;
    assert((m >> t) <= 0x7fff_ffff) by (bit_vector)
        requires
            t >= 1,
            t < 32,
    ;
}

/// The top digit of a mask's text is all that is left of the mask shifted past the
/// digits below it.
proof fn lemma_top_digit(m: Mask)
    ensures
        ((m >> ((digit_count(m) - 1) as u32)) & 1) == m >> ((digit_count(m) - 1) as u32),
{
    if m >= 0x8000_0000 {
        assert((m >> 31u32) & 1 == m >> 31u32) by (bit_vector);
    } else if m >= 0x4000_0000 {
        assert(m < 0x8000_0000 ==> (m >> 30u32) & 1 == m >> 30u32) by (bit_vector);
    } else {
        assert(m < 0x4000_0000 ==> (m >> 29u32) & 1 == m >> 29u32) by (bit_vector);
    }
}

/// Reading the first `k` digits of a mask's text in binary gives the mask shifted right
/// past the other digits.
proof fn lemma_digits_prefix_value(m: Mask, k: int)
    requires
        1 <= k <= digit_count(m),
    ensures
        binary_value(mask_text(m).subrange(8, 8 + k)) == (m >> ((digit_count(m) - k) as u32)) as nat,
    decreases k,
{
    let t = mask_text(m);
    let w = digit_count(m) as int;
    let d = t.subrange(8, 8 + k);
    let top = m >> ((w - k) as u32);
    assert(d.last() == bit_char(m, w - k));
    assert((top & 1) == 0 || (top & 1) == 1) by (bit_vector);
    assert(d.last() == '1' <==> top & 1 == 1);
    if k == 1 {
        lemma_top_digit(m);
        assert(d.drop_last() =~= Seq::<char>::empty());
        assert(binary_value(d.drop_last()) == 0);
        assert(binary_value(d) == (top & 1) as nat);
        assert(top & 1 == top);
    } else {
        lemma_digits_prefix_value(m, k - 1);
        assert(d.drop_last() =~= t.subrange(8, 8 + k - 1));
        let s = (w - k) as u32;
        lemma_shr_step(m, s);
        let above = m >> ((w - (k - 1)) as u32);
        assert((w - (k - 1)) as u32 == (s + 1) as u32);
        assert(binary_value(d.drop_last()) == above as nat);
        assert(binary_value(d) == 2 * binary_value(d.drop_last()) + (top & 1) as nat);
        assert(top as int == 2 * (above as int) + (top & 1) as int);
    }
}

/// The text of a mask is `Mask: 0b` and then its binary digits: every digit is `0` or
/// `1`, and read in binary they give back the mask; there are at least 30 digits, and more
/// only when the first of them is a `1`. So the last digit is `1` exactly when the mask is
/// odd, and, counting from the end, digit `i` is bit `i` of the mask.
pub proof fn lemma_mask_text_reads_back(m: Mask)
    ensures
        mask_text(m).subrange(0, 8) == seq!['M', 'a', 's', 'k', ':', ' ', '0', 'b'],
        30 <= mask_text(m).len() - 8 <= 32,
        forall|j: int| 8 <= j < mask_text(m).len() ==> #[trigger] mask_text(m)[j] == '0' || mask_text(m)[j] == '1',
        binary_value(mask_text(m).subrange(8, mask_text(m).len() as int)) == m as nat,
        mask_text(m).len() - 8 > 30 ==> mask_text(m)[8] == '1',
        (mask_text(m).last() == '1') == (m % 2 == 1),
        forall|i: int|
            0 <= i < mask_text(m).len() - 8 ==> (#[trigger] mask_text(m)[mask_text(m).len() - 1 - i] == '1')
                == ((m >> (i as u32)) & 1 == 1),
{
    let t = mask_text(m);
    let w = digit_count(m) as int;
    assert(t.subrange(0, 8) =~= seq!['M', 'a', 's', 'k', ':', ' ', '0', 'b']);
    lemma_digits_prefix_value(m, w);
    assert(t.subrange(8, 8 + w) =~= t.subrange(8, t.len() as int));
    assert((m >> 0u32) == m) by (bit_vector);
    if w > 30 {
        assert(t[8] == bit_char(m, w - 1));
        if w == 32 {
            assert(m >= 0x8000_0000 ==> (m >> 31u32) & 1 == 1) by (bit_vector);
        } else {
            assert(m >= 0x4000_0000 && m < 0x8000_0000 ==> (m >> 30u32) & 1 == 1) by (bit_vector);
        }
    }
    assert(t.last() == bit_char(m, 0));
    assert((m >> 0u32) & 1 == m % 2) by (bit_vector);
    assert forall|i: int| 0 <= i < t.len() - 8 implies (#[trigger] t[t.len() - 1 - i] == '1') == ((m >> (
    i as u32)) & 1 == 1) by {
        assert(t[t.len() - 1 - i] == bit_char(m, i));
    }
}

} // verus!
