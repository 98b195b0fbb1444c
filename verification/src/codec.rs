//! Bit packing: ring elements to bytes and back, at a given number of bits
//! per coefficient.
//!
//! The packed form is one stream of bits, least significant bit first: the low
//! `w` bits of coefficient 0, then those of coefficient 1, and so on; byte `j`
//! holds bits `8 j` to `8 j + 7` of the stream.

use vstd::prelude::*;
use vstd::arithmetic::power2::pow2;
use crate::bits::{
    bit_of, byte_of_bits, lemma_bits_of_byte_of_bits, lemma_bits_of_word_of_bits,
    lemma_byte_of_bits, lemma_word_of_bits, word_of_bits,
};
use crate::params::N;
use crate::poly::Poly;

verus! {

/// Bit `k` of the stream that strings together the low `w` bits of each
/// coefficient of `c`.
pub open spec fn coeff_stream_bit(c: Seq<u16>, w: int, k: int) -> bool {
    bit_of(c[k / w] as u64, k % w)
}

/// Bit `k` of the stream that strings together the bytes of `b`.
pub open spec fn byte_stream_bit(b: Seq<u8>, k: int) -> bool {
    bit_of(b[k / 8] as u64, k % 8)
}

/// The coefficients `c` packed at `w` bits each.
pub open spec fn pack_spec(c: Seq<u16>, w: int) -> Seq<u8> {
    Seq::new(
        (c.len() * w / 8) as nat,
        |j: int| byte_of_bits(|t: int| coeff_stream_bit(c, w, 8 * j + t)),
    )
}

/// The `n` coefficients of `w` bits each that the bytes `b` pack.
pub open spec fn unpack_spec(b: Seq<u8>, w: int, n: nat) -> Seq<u16> {
    Seq::new(n, |i: int| word_of_bits(|t: int| byte_stream_bit(b, w * i + t), w))
}

/// Number of bytes that one ring element takes at `w` bits per coefficient.
pub open spec fn packed_len(w: int) -> int {
    32 * w
}

/// Position `s` within coefficient `i` is position `w i + s` of the stream.
pub proof fn lemma_stream_position(w: int, i: int, s: int)
    requires
        0 < w,
        0 <= s < w,
    ensures
        (w * i + s) / w == i,
        (w * i + s) % w == s,
{
    assert(w * i == i * w) by (nonlinear_arith);
    vstd::arithmetic::div_mod::lemma_fundamental_div_mod_converse(w * i + s, w, i, s);
}

proof fn lemma_low_bits(x: u64, w: u64, t: u64)
    by (bit_vector)
    requires
        1 <= w <= 16,
        t < 64,
    ensures
        (((x & (0xffffu64 >> ((16 - w) as u64))) >> t) & 1 == 1) == (t < w && (x >> t) & 1 == 1),
        (x & (0xffffu64 >> ((16 - w) as u64))) >> w == 0,
        x & (0xffffu64 >> ((16 - w) as u64)) <= 0xffff,
        w == 8 ==> x & (0xffffu64 >> ((16 - w) as u64)) <= 0xff,
{
}

proof fn lemma_append_bits(acc: u64, v: u64, n: u64, w: u64, t: u64)
    by (bit_vector)
    requires
        n <= 24,
        w <= 16,
        acc >> n == 0,
        v >> w == 0,
        t < 64,
    ensures
        (((acc | (v << n)) >> t) & 1 == 1) == (if t < n {
            (acc >> t) & 1 == 1
        } else {
            (v >> ((t - n) as u64)) & 1 == 1
        }),
        (acc | (v << n)) >> ((n + w) as u64) == 0,
{
}

proof fn lemma_drop_bits(acc: u64, d: u64, n: u64, t: u64)
    by (bit_vector)
    requires
        d <= n <= 40,
        acc >> n == 0,
        t < 64,
    ensures
        (((acc >> d) >> t) & 1 == 1) == (t + d < 64 && (acc >> ((t + d) as u64)) & 1 == 1),
        (acc >> d) >> ((n - d) as u64) == 0,
{
}

proof fn lemma_clear_above(acc: u64, n: u64, t: u64)
    by (bit_vector)
    requires
        n <= t < 64,
        acc >> n == 0,
    ensures
        (acc >> t) & 1 == 0,
{
}

/// Appends to `out` the coefficients of `p`, packed at `w` bits each.
pub fn pack_poly(p: &Poly, w: usize, out: &mut Vec<u8>)
    requires
        1 <= w <= 16,
    ensures
        final(out)@ == old(out)@ + pack_spec(p@, w as int),
        final(out)@.len() == old(out)@.len() + packed_len(w as int),
{
    let ghost start = out@;
    let ghost c = p@;
    let ghost wi = w as int;
    let mask: u64 = 0xffffu64 >> (16 - w);
    let mut acc: u64 = 0;
    let mut nbits: usize = 0;
    proof {
        assert(0u64 >> 0u64 == 0) by (bit_vector);
        assert(wi * 0 == 0) by (nonlinear_arith);
    }
    for i in 0..N
        invariant
            1 <= w <= 16,
            wi == w as int,
            c == p@,
            mask == 0xffffu64 >> ((16 - w) as u64),
            nbits < 8,
            out@.len() >= start.len(),
            8 * (out@.len() - start.len()) + nbits == wi * i,
            acc >> (nbits as u64) == 0,
            forall|t: int|
                0 <= t < nbits ==> #[trigger] bit_of(acc, t) == coeff_stream_bit(
                    c,
                    wi,
                    8 * (out@.len() - start.len()) + t,
                ),
            out@.subrange(0, start.len() as int) == start,
            forall|j: int|
                0 <= j < out@.len() - start.len() ==> out@[start.len() + j] == #[trigger] pack_spec(
                    c,
                    wi,
                )[j],
    {
        let coeff = p.coeffs[i];
        let v = (coeff as u64) & mask;
        let ghost acc0 = acc;
        let ghost n0 = nbits;
        let ghost len0 = out@.len() - start.len();
        acc = acc | (v << nbits);
        nbits = nbits + w;
        proof {
            assert(wi * (i + 1) == wi * i + wi) by (nonlinear_arith);
            assert(wi * (i + 1) <= wi * 256) by (nonlinear_arith)
                requires
                    i + 1 <= 256,
                    wi >= 0,
            ;
            lemma_low_bits(coeff as u64, w as u64, 0);
            lemma_append_bits(acc0, v, n0 as u64, w as u64, 0);
            assert forall|t: int| 0 <= t < nbits implies #[trigger] bit_of(acc, t)
                == coeff_stream_bit(c, wi, 8 * len0 + t) by {
                lemma_append_bits(acc0, v, n0 as u64, w as u64, t as u64);
                if t >= n0 {
                    lemma_low_bits(coeff as u64, w as u64, (t - n0) as u64);
                    lemma_stream_position(wi, i as int, t - n0);
                    assert(bit_of(acc, t) == bit_of(coeff as u64, t - n0));
                } else {
                    assert(bit_of(acc, t) == bit_of(acc0, t));
                }
            }
        }
        while nbits >= 8
            invariant
                1 <= w <= 16,
                wi == w as int,
                c == p@,
                i < 256,
                nbits < 24,
                out@.len() >= start.len(),
                8 * (out@.len() - start.len()) + nbits == wi * (i + 1),
                wi * (i + 1) <= wi * 256,
                acc >> (nbits as u64) == 0,
                forall|t: int|
                    0 <= t < nbits ==> #[trigger] bit_of(acc, t) == coeff_stream_bit(
                        c,
                        wi,
                        8 * (out@.len() - start.len()) + t,
                    ),
                out@.subrange(0, start.len() as int) == start,
                forall|j: int|
                    0 <= j < out@.len() - start.len() ==> out@[start.len() + j]
                        == #[trigger] pack_spec(c, wi)[j],
            decreases nbits,
        {
            let ghost acc1 = acc;
            let ghost n1 = nbits;
            let ghost len1 = out@.len() - start.len();
            let ghost before = out@;
            let low = acc & 0xff;
            proof {
                assert(low == acc & (0xffffu64 >> ((16 - 8) as u64))) by (bit_vector)
                    requires
                        low == acc & 0xff,
                ;
                lemma_low_bits(acc, 8, 0);
            }
            let byte = low as u8;
            out.push(byte);
            acc = acc >> 8;
            nbits = nbits - 8;
            proof {
                let f = |t: int| coeff_stream_bit(c, wi, 8 * len1 + t);
                assert forall|t: int| 0 <= t < 8 implies bit_of(byte as u64, t) == #[trigger] f(
                    t,
                ) by {
                    lemma_low_bits(acc1, 8, t as u64);
                    assert(bit_of(acc1, t) == coeff_stream_bit(c, wi, 8 * len1 + t));
                }
                lemma_byte_of_bits(byte, f);
                assert(c.len() == 256);
                assert(len1 < c.len() * wi / 8);
                assert(pack_spec(c, wi)[len1] == byte);
                lemma_drop_bits(acc1, 8, n1 as u64, 0);
                assert forall|t: int| 0 <= t < nbits implies #[trigger] bit_of(acc, t)
                    == coeff_stream_bit(c, wi, 8 * (len1 + 1) + t) by {
                    lemma_drop_bits(acc1, 8, n1 as u64, t as u64);
                    assert(bit_of(acc1, t + 8) == coeff_stream_bit(c, wi, 8 * len1 + (t + 8)));
                }
                assert(out@.subrange(0, start.len() as int) =~= before.subrange(
                    0,
                    start.len() as int,
                ));
            }
        }
    }
    proof {
        assert(c.len() == 256);
        assert(out@ =~= start + pack_spec(c, wi));
    }
}

/// The ring element that the `32 w` bytes of `bytes` from `offset` on pack at
/// `w` bits per coefficient.
pub fn unpack_poly(bytes: &[u8], offset: usize, w: usize) -> (p: Poly)
    requires
        1 <= w <= 16,
        offset + packed_len(w as int) <= bytes@.len(),
    ensures
        p@ == unpack_spec(
            bytes@.subrange(offset as int, offset + packed_len(w as int)),
            w as int,
            N as nat,
        ),
{
    let ghost wi = w as int;
    let ghost b = bytes@.subrange(offset as int, offset + packed_len(wi));
    let mask: u64 = 0xffffu64 >> (16 - w);
    let mut coeffs = [0u16; N];
    let mut acc: u64 = 0;
    let mut nbits: usize = 0;
    let mut taken: usize = 0;
    let total = bytes.len();
    proof {
        assert(0u64 >> 0u64 == 0) by (bit_vector);
        assert(wi * 0 == 0) by (nonlinear_arith);
    }
    for i in 0..N
        invariant
            1 <= w <= 16,
            wi == w as int,
            b == bytes@.subrange(offset as int, offset + packed_len(wi)),
            offset + packed_len(wi) <= bytes@.len(),
            mask == 0xffffu64 >> ((16 - w) as u64),
            total == bytes@.len(),
            nbits < 8,
            8 * taken == wi * i + nbits,
            acc >> (nbits as u64) == 0,
            forall|t: int|
                0 <= t < nbits ==> #[trigger] bit_of(acc, t) == byte_stream_bit(b, wi * i + t),
            forall|k: int| 0 <= k < i ==> coeffs@[k] == #[trigger] unpack_spec(b, wi, N as nat)[k],
    {
        proof {
            assert(wi * (i + 1) == wi * i + wi) by (nonlinear_arith);
            assert(wi * (i + 1) <= wi * 256) by (nonlinear_arith)
                requires
                    i + 1 <= 256,
                    wi >= 0,
            ;
        }
        while nbits < w
            invariant
                1 <= w <= 16,
                wi == w as int,
                b == bytes@.subrange(offset as int, offset + packed_len(wi)),
                offset + packed_len(wi) <= bytes@.len(),
                total == bytes@.len(),
                i < 256,
                nbits < w + 8,
                8 * taken == wi * i + nbits,
                wi * (i + 1) == wi * i + wi,
                wi * (i + 1) <= wi * 256,
                acc >> (nbits as u64) == 0,
                forall|t: int|
                    0 <= t < nbits ==> #[trigger] bit_of(acc, t) == byte_stream_bit(
                        b,
                        wi * i + t,
                    ),
            decreases 24 - nbits,
        {
            let byte = bytes[offset + taken];
            let ghost acc0 = acc;
            let ghost n0 = nbits;
            acc = acc | ((byte as u64) << nbits);
            nbits = nbits + 8;
            proof {
                assert((byte as u64) >> 8u64 == 0) by (bit_vector);
                lemma_append_bits(acc0, byte as u64, n0 as u64, 8, 0);
                assert(b[taken as int] == byte);
                assert forall|t: int| 0 <= t < nbits implies #[trigger] bit_of(acc, t)
                    == byte_stream_bit(b, wi * i + t) by {
                    lemma_append_bits(acc0, byte as u64, n0 as u64, 8, t as u64);
                    if t >= n0 {
                        assert(bit_of(acc, t) == bit_of(byte as u64, t - n0));
                        assert((wi * i + t) / 8 == taken as int);
                        assert((wi * i + t) % 8 == t - n0);
                    } else {
                        assert(bit_of(acc, t) == bit_of(acc0, t));
                    }
                }
            }
            taken = taken + 1;
        }
        let low = acc & mask;
        proof {
            lemma_low_bits(acc, w as u64, 0);
        }
        let coeff = low as u16;
        let ghost acc1 = acc;
        let ghost n1 = nbits;
        coeffs[i] = coeff;
        acc = acc >> w;
        nbits = nbits - w;
        proof {
            let f = |t: int| byte_stream_bit(b, wi * i + t);
            assert forall|t: int| 0 <= t < wi implies bit_of(coeff as u64, t) == #[trigger] f(
                t,
            ) by {
                lemma_low_bits(acc1, w as u64, t as u64);
                assert(bit_of(acc1, t) == byte_stream_bit(b, wi * i + t));
            }
            assert forall|t: int| wi <= t < 16 implies !#[trigger] bit_of(coeff as u64, t) by {
                lemma_low_bits(acc1, w as u64, t as u64);
            }
            lemma_word_of_bits(coeff, wi, f);
            assert(unpack_spec(b, wi, N as nat)[i as int] == coeff);
            lemma_drop_bits(acc1, w as u64, n1 as u64, 0);
            assert forall|t: int| 0 <= t < nbits implies #[trigger] bit_of(acc, t)
                == byte_stream_bit(b, wi * (i + 1) + t) by {
                lemma_drop_bits(acc1, w as u64, n1 as u64, t as u64);
                assert(bit_of(acc1, t + wi) == byte_stream_bit(b, wi * i + (t + wi)));
            }
        }
    }
    let p = Poly { coeffs };
    proof {
        assert(p@ =~= unpack_spec(b, wi, N as nat));
    }
    p
}

/// Every coefficient of `c` is below `2^w`.
pub open spec fn coeffs_below(c: Seq<u16>, w: int) -> bool {
    forall|i: int| 0 <= i < c.len() ==> (#[trigger] c[i] as int) < pow2(w as nat)
}

/// A number below `2^w` has no bit set from position `w` on.
pub proof fn lemma_bits_clear_above(x: u16, w: int, t: int)
    requires
        0 <= w <= t < 16,
        (x as int) < pow2(w as nat),
    ensures
        !bit_of(x as u64, t),
{
    vstd::bits::lemma_u64_shr_is_div(x as u64, w as u64);
    vstd::arithmetic::div_mod::lemma_basic_div(x as int, pow2(w as nat) as int);
    lemma_clear_above(x as u64, w as u64, t as u64);
}

/// Unpacking undoes packing: coefficients below `2^w` come back from their
/// packed form as they were.
pub proof fn lemma_unpack_pack(c: Seq<u16>, w: int)
    requires
        1 <= w <= 16,
        c.len() == N,
        coeffs_below(c, w),
    ensures
        unpack_spec(pack_spec(c, w), w, N as nat) == c,
{
    let packed = pack_spec(c, w);
    assert forall|i: int| 0 <= i < N implies unpack_spec(packed, w, N as nat)[i] == c[i] by {
        let f = |t: int| byte_stream_bit(packed, w * i + t);
        assert(w * i + w <= w * 256) by (nonlinear_arith)
            requires
                0 <= i < 256,
                w >= 1,
        ;
        assert(0 <= w * i) by (nonlinear_arith)
            requires
                0 <= i,
                w >= 1,
        ;
        assert forall|t: int| 0 <= t < w implies bit_of(c[i] as u64, t) == #[trigger] f(t) by {
            let k = w * i + t;
            let g = |u: int| coeff_stream_bit(c, w, 8 * (k / 8) + u);
            assert(packed[k / 8] == byte_of_bits(g));
            lemma_bits_of_byte_of_bits(g);
            assert(bit_of(packed[k / 8] as u64, k % 8) == g(k % 8));
            lemma_stream_position(w, i, t);
        }
        assert forall|t: int| w <= t < 16 implies !#[trigger] bit_of(c[i] as u64, t) by {
            lemma_bits_clear_above(c[i], w, t);
        }
        lemma_word_of_bits(c[i], w, f);
    }
    assert(unpack_spec(packed, w, N as nat) =~= c);
}

/// Packing undoes unpacking: bytes come back from the coefficients that they
/// pack as they were.
pub proof fn lemma_pack_unpack(b: Seq<u8>, w: int)
    requires
        1 <= w <= 16,
        b.len() == packed_len(w),
    ensures
        pack_spec(unpack_spec(b, w, N as nat), w) == b,
{
    let c = unpack_spec(b, w, N as nat);
    assert(pack_spec(c, w).len() == b.len());
    assert forall|j: int| 0 <= j < b.len() implies pack_spec(c, w)[j] == b[j] by {
        let g = |u: int| coeff_stream_bit(c, w, 8 * j + u);
        assert forall|u: int| 0 <= u < 8 implies bit_of(b[j] as u64, u) == #[trigger] g(u) by {
            let k = 8 * j + u;
            let i = k / w;
            let t = k % w;
            vstd::arithmetic::div_mod::lemma_fundamental_div_mod(k, w);
            vstd::arithmetic::div_mod::lemma_div_pos_is_pos(k, w);
            assert(i < 256) by (nonlinear_arith)
                requires
                    k == w * i + t,
                    0 <= t,
                    k < 256 * w,
                    w >= 1,
            ;
            let f = |s: int| byte_stream_bit(b, w * i + s);
            assert(c[i] == word_of_bits(f, w));
            lemma_bits_of_word_of_bits(f, w);
            assert(bit_of(c[i] as u64, t) == f(t));
        }
        lemma_byte_of_bits(b[j], g);
    }
    assert(pack_spec(c, w) =~= b);
}

/// The coefficients that bytes unpack to are below `2^w`.
pub proof fn lemma_unpack_below(b: Seq<u8>, w: int, n: nat)
    requires
        1 <= w <= 16,
    ensures
        coeffs_below(unpack_spec(b, w, n), w),
{
    let c = unpack_spec(b, w, n);
    assert forall|i: int| 0 <= i < c.len() implies (#[trigger] c[i] as int) < pow2(w as nat) by {
        let f = |s: int| byte_stream_bit(b, w * i + s);
        lemma_bits_of_word_of_bits(f, w);
        let x = c[i];
        assert forall|t: int| w <= t < 16 implies !#[trigger] bit_of(x as u64, t) by {}
        lemma_below_of_bits_clear(x, w);
    }
}

proof fn lemma_bit_is_0_or_1(x: u64, t: u64)
    by (bit_vector)
    ensures
        (x >> t) & 1 == 0 || (x >> t) & 1 == 1,
{
}

proof fn lemma_shifted_out(x: u16, w: u64)
    by (bit_vector)
    requires
        1 <= w <= 16,
        1 >= w ==> (x as u64 >> 1) & 1 == 0,
        2 >= w ==> (x as u64 >> 2) & 1 == 0,
        3 >= w ==> (x as u64 >> 3) & 1 == 0,
        4 >= w ==> (x as u64 >> 4) & 1 == 0,
        5 >= w ==> (x as u64 >> 5) & 1 == 0,
        6 >= w ==> (x as u64 >> 6) & 1 == 0,
        7 >= w ==> (x as u64 >> 7) & 1 == 0,
        8 >= w ==> (x as u64 >> 8) & 1 == 0,
        9 >= w ==> (x as u64 >> 9) & 1 == 0,
        10 >= w ==> (x as u64 >> 10) & 1 == 0,
        11 >= w ==> (x as u64 >> 11) & 1 == 0,
        12 >= w ==> (x as u64 >> 12) & 1 == 0,
        13 >= w ==> (x as u64 >> 13) & 1 == 0,
        14 >= w ==> (x as u64 >> 14) & 1 == 0,
        15 >= w ==> (x as u64 >> 15) & 1 == 0,
    ensures
        x as u64 >> w == 0,
{
}

/// A number with no bit set from position `w` on is below `2^w`.
pub proof fn lemma_below_of_bits_clear(x: u16, w: int)
    requires
        1 <= w <= 16,
        forall|t: int| w <= t < 16 ==> !#[trigger] bit_of(x as u64, t),
    ensures
        (x as int) < pow2(w as nat),
{
    assert(1 >= w ==> (x as u64 >> 1) & 1 == 0) by {
        if 1 >= w {
            assert(!bit_of(x as u64, 1));
            lemma_bit_is_0_or_1(x as u64, 1);
        }
    }
    assert(2 >= w ==> (x as u64 >> 2) & 1 == 0) by {
        if 2 >= w {
            assert(!bit_of(x as u64, 2));
            lemma_bit_is_0_or_1(x as u64, 2);
        }
    }
    assert(3 >= w ==> (x as u64 >> 3) & 1 == 0) by {
        if 3 >= w {
            assert(!bit_of(x as u64, 3));
            lemma_bit_is_0_or_1(x as u64, 3);
        }
    }
    assert(4 >= w ==> (x as u64 >> 4) & 1 == 0) by {
        if 4 >= w {
            assert(!bit_of(x as u64, 4));
            lemma_bit_is_0_or_1(x as u64, 4);
        }
    }
    assert(5 >= w ==> (x as u64 >> 5) & 1 == 0) by {
        if 5 >= w {
            assert(!bit_of(x as u64, 5));
            lemma_bit_is_0_or_1(x as u64, 5);
        }
    }
    assert(6 >= w ==> (x as u64 >> 6) & 1 == 0) by {
        if 6 >= w {
            assert(!bit_of(x as u64, 6));
            lemma_bit_is_0_or_1(x as u64, 6);
        }
    }
    assert(7 >= w ==> (x as u64 >> 7) & 1 == 0) by {
        if 7 >= w {
            assert(!bit_of(x as u64, 7));
            lemma_bit_is_0_or_1(x as u64, 7);
        }
    }
    assert(8 >= w ==> (x as u64 >> 8) & 1 == 0) by {
        if 8 >= w {
            assert(!bit_of(x as u64, 8));
            lemma_bit_is_0_or_1(x as u64, 8);
        }
    }
    assert(9 >= w ==> (x as u64 >> 9) & 1 == 0) by {
        if 9 >= w {
            assert(!bit_of(x as u64, 9));
            lemma_bit_is_0_or_1(x as u64, 9);
        }
    }
    assert(10 >= w ==> (x as u64 >> 10) & 1 == 0) by {
        if 10 >= w {
            assert(!bit_of(x as u64, 10));
            lemma_bit_is_0_or_1(x as u64, 10);
        }
    }
    assert(11 >= w ==> (x as u64 >> 11) & 1 == 0) by {
        if 11 >= w {
            assert(!bit_of(x as u64, 11));
            lemma_bit_is_0_or_1(x as u64, 11);
        }
    }
    assert(12 >= w ==> (x as u64 >> 12) & 1 == 0) by {
        if 12 >= w {
            assert(!bit_of(x as u64, 12));
            lemma_bit_is_0_or_1(x as u64, 12);
        }
    }
    assert(13 >= w ==> (x as u64 >> 13) & 1 == 0) by {
        if 13 >= w {
            assert(!bit_of(x as u64, 13));
            lemma_bit_is_0_or_1(x as u64, 13);
        }
    }
    assert(14 >= w ==> (x as u64 >> 14) & 1 == 0) by {
        if 14 >= w {
            assert(!bit_of(x as u64, 14));
            lemma_bit_is_0_or_1(x as u64, 14);
        }
    }
    assert(15 >= w ==> (x as u64 >> 15) & 1 == 0) by {
        if 15 >= w {
            assert(!bit_of(x as u64, 15));
            lemma_bit_is_0_or_1(x as u64, 15);
        }
    }
    lemma_shifted_out(x, w as u64);
    let d = pow2(w as nat) as int;
    vstd::bits::lemma_u64_shr_is_div(x as u64, w as u64);
    vstd::arithmetic::power2::lemma_pow2_pos(w as nat);
    assert(x as int / d == 0);
    vstd::arithmetic::div_mod::lemma_fundamental_div_mod(x as int, d);
    vstd::arithmetic::div_mod::lemma_mod_bound(x as int, d);
    assert(d * (x as int / d) == 0) by (nonlinear_arith)
        requires
            x as int / d == 0,
    ;
}

/// Writes `src` over the bytes of `dst` from position `at` on.
pub fn copy_into<const L: usize>(dst: &mut [u8; L], at: usize, src: &[u8])
    requires
        at + src@.len() <= L,
    ensures
        final(dst)@ == old(dst)@.subrange(0, at as int) + src@ + old(dst)@.subrange(
            at + src@.len(),
            L as int,
        ),
{
    let ghost before = dst@;
    let n = src.len();
    for i in 0..n
        invariant
            n == src@.len(),
            at + n <= L,
            forall|k: int| 0 <= k < at ==> dst@[k] == before[k],
            forall|k: int| 0 <= k < i ==> dst@[at + k] == src@[k],
            forall|k: int| at + i <= k < L ==> dst@[k] == before[k],
    {
        dst[at + i] = src[i];
    }
    proof {
        assert(dst@ =~= before.subrange(0, at as int) + src@ + before.subrange(
            at + src@.len(),
            L as int,
        ));
    }
}

/// The `L` bytes of `bytes`, where it has that many.
pub fn array_of<const L: usize>(bytes: &[u8]) -> (r: Option<[u8; L]>)
    ensures
        bytes@.len() == L ==> r is Some && r->Some_0@ == bytes@,
        bytes@.len() != L ==> r is None,
{
    if bytes.len() != L {
        return None;
    }
    let mut out = [0u8; L];
    copy_into(&mut out, 0, bytes);
    proof {
        assert(out@ =~= bytes@);
    }
    Some(out)
}

} // verus!
