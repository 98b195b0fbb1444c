//! Bits of machine words, and the numbers that given bits spell out.

use vstd::prelude::*;

verus! {

/// Bit `i` of `x`, bit 0 being the least significant.
pub open spec fn bit_of(x: u64, i: int) -> bool {
    0 <= i < 64 && (x >> (i as u64)) & 1 == 1
}

/// 1 for `true`, 0 for `false`.
pub open spec fn bit_value(b: bool) -> int {
    if b { 1 } else { 0 }
}

/// The byte whose bit `t` is `f(t)`, for `t` from 0 to 7.
pub open spec fn byte_of_bits(f: spec_fn(int) -> bool) -> u8 {
    (bit_value(f(0)) + 2 * bit_value(f(1)) + 4 * bit_value(f(2)) + 8 * bit_value(f(3))
        + 16 * bit_value(f(4)) + 32 * bit_value(f(5)) + 64 * bit_value(f(6))
        + 128 * bit_value(f(7))) as u8
}

/// The word whose bit `t` is `f(t)` for `t < w`, and 0 from `w` on (`w` at most 16):
/// its low byte holds bits 0 to 7, its high byte bits 8 to 15.
pub open spec fn word_of_bits(f: spec_fn(int) -> bool, w: int) -> u16 {
    (byte_of_bits(|t: int| t < w && f(t)) + 0x100 * byte_of_bits(|t: int| t + 8 < w && f(t + 8)))
        as u16
}

proof fn lemma_byte_from_its_bits(
    x: u8, b0: bool, b1: bool, b2: bool, b3: bool, b4: bool, b5: bool, b6: bool, b7: bool,
)
    by (bit_vector)
    requires
        ((x as u64 >> 0) & 1 == 1) == b0,
        ((x as u64 >> 1) & 1 == 1) == b1,
        ((x as u64 >> 2) & 1 == 1) == b2,
        ((x as u64 >> 3) & 1 == 1) == b3,
        ((x as u64 >> 4) & 1 == 1) == b4,
        ((x as u64 >> 5) & 1 == 1) == b5,
        ((x as u64 >> 6) & 1 == 1) == b6,
        ((x as u64 >> 7) & 1 == 1) == b7,
    ensures
        x as int == (if b0 { 1int } else { 0 }) + 2 * (if b1 { 1int } else { 0 })
            + 4 * (if b2 { 1int } else { 0 }) + 8 * (if b3 { 1int } else { 0 })
            + 16 * (if b4 { 1int } else { 0 }) + 32 * (if b5 { 1int } else { 0 })
            + 64 * (if b6 { 1int } else { 0 }) + 128 * (if b7 { 1int } else { 0 }),
{
}

/// A byte is spelled out by its own eight bits.
pub proof fn lemma_byte_of_bits(x: u8, f: spec_fn(int) -> bool)
    requires
        forall|t: int| 0 <= t < 8 ==> bit_of(x as u64, t) == #[trigger] f(t),
    ensures
        byte_of_bits(f) == x,
{
    lemma_byte_from_its_bits(x, f(0), f(1), f(2), f(3), f(4), f(5), f(6), f(7));
}

proof fn lemma_bits_of_byte_sum(
    b0: bool, b1: bool, b2: bool, b3: bool, b4: bool, b5: bool, b6: bool, b7: bool, x: u8,
)
    by (bit_vector)
    requires
        x as int == (if b0 { 1int } else { 0 }) + 2 * (if b1 { 1int } else { 0 })
            + 4 * (if b2 { 1int } else { 0 }) + 8 * (if b3 { 1int } else { 0 })
            + 16 * (if b4 { 1int } else { 0 }) + 32 * (if b5 { 1int } else { 0 })
            + 64 * (if b6 { 1int } else { 0 }) + 128 * (if b7 { 1int } else { 0 }),
    ensures
        ((x as u64 >> 0) & 1 == 1) == b0,
        ((x as u64 >> 1) & 1 == 1) == b1,
        ((x as u64 >> 2) & 1 == 1) == b2,
        ((x as u64 >> 3) & 1 == 1) == b3,
        ((x as u64 >> 4) & 1 == 1) == b4,
        ((x as u64 >> 5) & 1 == 1) == b5,
        ((x as u64 >> 6) & 1 == 1) == b6,
        ((x as u64 >> 7) & 1 == 1) == b7,
{
}

/// The bits of the byte that `f` spells out are those of `f`.
pub proof fn lemma_bits_of_byte_of_bits(f: spec_fn(int) -> bool)
    ensures
        forall|t: int| 0 <= t < 8 ==> #[trigger] bit_of(byte_of_bits(f) as u64, t) == f(t),
{
    let s = bit_value(f(0)) + 2 * bit_value(f(1)) + 4 * bit_value(f(2)) + 8 * bit_value(f(3))
        + 16 * bit_value(f(4)) + 32 * bit_value(f(5)) + 64 * bit_value(f(6))
        + 128 * bit_value(f(7));
    assert(0 <= s < 256);
    lemma_bits_of_byte_sum(f(0), f(1), f(2), f(3), f(4), f(5), f(6), f(7), s as u8);
}

proof fn lemma_word_halves(x: u16, t: u64)
    by (bit_vector)
    requires
        t < 8,
    ensures
        ((x as u64 >> t) & 1 == 1) == (((x & 0xff) as u8 as u64 >> t) & 1 == 1),
        ((x as u64 >> ((t + 8) as u64)) & 1 == 1) == (((x >> 8) as u8 as u64 >> t) & 1 == 1),
        x as int == ((x & 0xff) as u8) + 0x100 * ((x >> 8) as u8),
{
}

proof fn lemma_halves_word(lo: u8, hi: u8, x: u16, t: u64)
    by (bit_vector)
    requires
        t < 8,
        x as int == lo + 0x100 * hi,
    ensures
        ((x as u64 >> t) & 1 == 1) == ((lo as u64 >> t) & 1 == 1),
        ((x as u64 >> ((t + 8) as u64)) & 1 == 1) == ((hi as u64 >> t) & 1 == 1),
{
}

/// A word below `2^w` is spelled out by its own low `w` bits.
pub proof fn lemma_word_of_bits(x: u16, w: int, f: spec_fn(int) -> bool)
    requires
        0 <= w <= 16,
        forall|t: int| 0 <= t < w ==> bit_of(x as u64, t) == #[trigger] f(t),
        forall|t: int| w <= t < 16 ==> !#[trigger] bit_of(x as u64, t),
    ensures
        word_of_bits(f, w) == x,
{
    let lo = (x & 0xff) as u8;
    let hi = (x >> 8) as u8;
    let f_lo = |t: int| t < w && f(t);
    let f_hi = |t: int| t + 8 < w && f(t + 8);
    lemma_word_halves(x, 0);
    assert forall|t: int| 0 <= t < 8 implies bit_of(lo as u64, t) == #[trigger] f_lo(t) by {
        lemma_word_halves(x, t as u64);
        assert(bit_of(x as u64, t) == (t < w && f(t)));
    }
    assert forall|t: int| 0 <= t < 8 implies bit_of(hi as u64, t) == #[trigger] f_hi(t) by {
        lemma_word_halves(x, t as u64);
        assert(bit_of(x as u64, t + 8) == (t + 8 < w && f(t + 8)));
    }
    lemma_byte_of_bits(lo, f_lo);
    lemma_byte_of_bits(hi, f_hi);
}

/// The bits of the word that `f` spells out are those of `f` below `w`, and clear from `w` on.
pub proof fn lemma_bits_of_word_of_bits(f: spec_fn(int) -> bool, w: int)
    requires
        0 <= w <= 16,
    ensures
        forall|t: int|
            0 <= t < 16 ==> #[trigger] bit_of(word_of_bits(f, w) as u64, t) == (t < w && f(t)),
{
    let f_lo = |t: int| t < w && f(t);
    let f_hi = |t: int| t + 8 < w && f(t + 8);
    let lo = byte_of_bits(f_lo);
    let hi = byte_of_bits(f_hi);
    let x = word_of_bits(f, w);
    lemma_bits_of_byte_of_bits(f_lo);
    lemma_bits_of_byte_of_bits(f_hi);
    assert forall|t: int| 0 <= t < 16 implies #[trigger] bit_of(x as u64, t) == (t < w && f(t)) by {
        if t < 8 {
            lemma_halves_word(lo, hi, x, t as u64);
            assert(bit_of(lo as u64, t) == f_lo(t));
        } else {
            lemma_halves_word(lo, hi, x, (t - 8) as u64);
            assert(bit_of(hi as u64, t - 8) == f_hi(t - 8));
        }
    }
}

} // verus!
