//! Reconciliation, and the passage between messages and ring elements.
//!
//! The sender holds `v'`, the receiver a `v` that differs from it by a small
//! error. The sender adds the message, one bit per coefficient at bit 9, and
//! sends along four high bits of every coefficient of the sum; with them the
//! receiver recovers the bit from `v`.

use vstd::prelude::*;
use vstd::arithmetic::power2::pow2;
use crate::bits::{bit_of, bit_value, byte_of_bits, lemma_byte_of_bits};
use crate::codec::{
    byte_stream_bit, coeffs_below, lemma_unpack_pack, pack_poly, pack_spec, unpack_poly,
    unpack_spec,
};
use crate::params::{KEYBYTES, N};
use crate::poly::{poly_add, poly_shl, wrap16, Poly};
use crate::saber::{MESSAGEBYTES, RECONBYTES_KEM};

verus! {

/// Number of bits that a coefficient gives to the reconciliation data.
pub const RECON_BITS: usize = 4;

/// The reconciliation data keep bits 6 to 9 of a coefficient.
pub const RECON_SHIFT: u8 = 6;

/// Added by the receiver, so that an error of either sign is undone:
/// `2^8 - 2^5`.
pub const RECON_BIAS: u16 = 224;

/// The ring element that carries a message: coefficient `i` is bit `i` of the
/// message, its bytes read lowest bit first.
pub open spec fn message_poly(m: Seq<u8>) -> Seq<u16> {
    Seq::new(N as nat, |i: int| bit_value(byte_stream_bit(m, i)) as u16)
}

/// The message that a ring element carries: bit `i` of it is the lowest bit
/// of coefficient `i`.
pub open spec fn poly_message(p: Seq<u16>) -> Seq<u8> {
    Seq::new(MESSAGEBYTES as nat, |j: int| byte_of_bits(|t: int| bit_of(p[8 * j + t] as u64, 0)))
}

/// Bits 6 to 9 of a coefficient.
pub open spec fn recon_hint(v: u16) -> u16 {
    ((v / 64) % 16) as u16
}

/// Bits 6 to 9 of every coefficient.
pub open spec fn recon_hints(v: Seq<u16>) -> Seq<u16> {
    Seq::new(N as nat, |i: int| recon_hint(v[i]))
}

/// The reconciliation data of `v`: bits 6 to 9 of every coefficient, packed.
pub open spec fn recon_data(v: Seq<u16>) -> Seq<u8> {
    pack_spec(recon_hints(v), RECON_BITS as int)
}

/// The bit that the receiver reads from its coefficient `v` and the hint `h`:
/// bit 9 of `v - 64 h + 224`.
pub open spec fn recon_bit(v: u16, h: u16) -> u16 {
    ((wrap16(v - 64 * h + RECON_BIAS) / 512) % 2) as u16
}

/// The bits that the receiver reads from `v` and the reconciliation data.
pub open spec fn recon_bits(v: Seq<u16>, rec: Seq<u8>) -> Seq<u16> {
    Seq::new(
        N as nat,
        |i: int| recon_bit(v[i], unpack_spec(rec, RECON_BITS as int, N as nat)[i]),
    )
}

proof fn lemma_byte_bit(byte: u8, s: u8)
    by (bit_vector)
    requires
        s < 8,
    ensures
        ((byte >> s) & 1) as u64 == ((byte as u64) >> (s as u64)) & 1,
        (byte >> s) & 1 <= 1,
{
}

/// Spreads a message over a ring element, one bit per coefficient.
pub fn msg2pol(message: &[u8; KEYBYTES]) -> (p: Poly)
    ensures
        p@ == message_poly(message@),
{
    let mut coeffs = [0u16; N];
    for idx in 0..KEYBYTES
        invariant
            forall|i: int| 0 <= i < 8 * idx ==> coeffs@[i] == message_poly(message@)[i],
    {
        for idx2 in 0..8usize
            invariant
                idx < KEYBYTES,
                forall|i: int|
                    0 <= i < 8 * idx + idx2 ==> coeffs@[i] == message_poly(message@)[i],
        {
            proof {
                lemma_byte_bit(message@[idx as int], idx2 as u8);
            }
            coeffs[8 * idx + idx2] = ((message[idx] >> idx2) & 0x01) as u16;
        }
    }
    let p = Poly { coeffs };
    proof {
        assert(p@ =~= message_poly(message@));
    }
    p
}

proof fn lemma_set_bit(byte: u8, c: u16, i: u8, t: u64)
    by (bit_vector)
    requires
        i < 8,
        t < 8,
    ensures
        (((byte | (((c & 1) as u8) << i)) as u64 >> t) & 1 == 1) == (if t == i as u64 {
            ((byte as u64 >> t) & 1 == 1) || ((c as u64 >> 0) & 1 == 1)
        } else {
            (byte as u64 >> t) & 1 == 1
        }),
{
}

proof fn lemma_zero_bits(t: u64)
    by (bit_vector)
    ensures
        (0u64 >> t) & 1 == 0,
{
}

/// Gathers the lowest bit of every coefficient into a message.
pub fn pol2msg(p: &Poly) -> (message: [u8; MESSAGEBYTES])
    ensures
        message@ == poly_message(p@),
{
    let mut message = [0u8; MESSAGEBYTES];
    for j in 0..MESSAGEBYTES
        invariant
            forall|k: int| 0 <= k < j ==> message@[k] == poly_message(p@)[k],
    {
        let mut byte: u8 = 0;
        proof {
            assert forall|t: int| 0 <= t < 8 implies !#[trigger] bit_of(byte as u64, t) by {
                lemma_zero_bits(t as u64);
            }
        }
        for i in 0..8usize
            invariant
                j < MESSAGEBYTES,
                forall|t: int|
                    0 <= t < i ==> #[trigger] bit_of(byte as u64, t) == bit_of(
                        p@[8 * j + t] as u64,
                        0,
                    ),
                forall|t: int| i <= t < 8 ==> !#[trigger] bit_of(byte as u64, t),
        {
            let c = p.coeffs[8 * j + i];
            let ghost before = byte;
            byte = byte | (((c & 1) as u8) << i);
            proof {
                assert forall|t: int| 0 <= t < 8 implies #[trigger] bit_of(byte as u64, t) == (if t
                    == i {
                    bit_of(c as u64, 0)
                } else {
                    bit_of(before as u64, t)
                }) by {
                    lemma_set_bit(before, c, i as u8, t as u64);
                    assert(!bit_of(before as u64, i as int));
                }
            }
        }
        proof {
            lemma_byte_of_bits(byte, |t: int| bit_of(p@[8 * j + t] as u64, 0));
        }
        message[j] = byte;
    }
    proof {
        assert(message@ =~= poly_message(p@));
    }
    message
}

proof fn lemma_hint(v: u16)
    by (bit_vector)
    ensures
        (v >> 6) & 0xf == (v / 64) % 16,
{
}

/// The reconciliation data of `v`.
pub fn recon_data_gen(v: &Poly) -> (rec: [u8; RECONBYTES_KEM])
    ensures
        rec@ == recon_data(v@),
{
    let mut hints = [0u16; N];
    for i in 0..N
        invariant
            forall|k: int| 0 <= k < i ==> hints@[k] == recon_hint(v@[k]),
    {
        proof {
            lemma_hint(v@[i as int]);
        }
        hints[i] = (v.coeffs[i] >> RECON_SHIFT) & 0xf;
    }
    let hints = Poly { coeffs: hints };
    proof {
        assert(hints@ =~= recon_hints(v@));
    }
    let mut packed: Vec<u8> = Vec::new();
    pack_poly(&hints, RECON_BITS, &mut packed);
    let mut rec = [0u8; RECONBYTES_KEM];
    for j in 0..RECONBYTES_KEM
        invariant
            packed@.len() == RECONBYTES_KEM,
            forall|k: int| 0 <= k < j ==> rec@[k] == packed@[k],
    {
        rec[j] = packed[j];
    }
    proof {
        assert(rec@ =~= recon_data(v@));
    }
    rec
}

proof fn lemma_bit_nine(x: u16)
    by (bit_vector)
    ensures
        (x >> 9) & 1 == (x / 512) % 2,
{
}

/// The bits that the receiver reads from `v` and the reconciliation data
/// `rec`, one per coefficient.
pub fn recon(v: &Poly, rec: &[u8; RECONBYTES_KEM]) -> (m: Poly)
    ensures
        m@ == recon_bits(v@, rec@),
{
    proof {
        assert(rec@.subrange(0, 128) =~= rec@);
    }
    let hints = unpack_poly(rec.as_slice(), 0, RECON_BITS);
    let mut coeffs = [0u16; N];
    for i in 0..N
        invariant
            hints@ == unpack_spec(rec@, RECON_BITS as int, N as nat),
            forall|k: int| 0 <= k < i ==> coeffs@[k] == recon_bit(v@[k], hints@[k]),
    {
        let scaled = hints.coeffs[i].wrapping_mul(64);
        let x = v.coeffs[i].wrapping_sub(scaled).wrapping_add(RECON_BIAS);
        proof {
            lemma_bit_nine(x);
            assert(x == wrap16(v@[i as int] - 64 * hints@[i as int] + RECON_BIAS));
        }
        coeffs[i] = (x >> 9) & 1;
    }
    let m = Poly { coeffs };
    proof {
        assert(m@ =~= recon_bits(v@, rec@));
    }
    m
}

/// The coefficient `vp` of the sender and the coefficient `v` of the receiver
/// differ, modulo `2^10`, by at most 224 either way.
pub open spec fn recon_close(vp: u16, v: u16) -> bool {
    (vp - v + 224) % 1024 <= 448
}

proof fn lemma_recon_words(v: u32, vp: u32, m: u32, e: u32, s: u32, x: u32, h: u32, y: u32)
    by (bit_vector)
    requires
        v < 0x1_0000,
        vp < 0x1_0000,
        m <= 1,
        e == vp + 0x1_0000 - v + 224,
        e % 1024 <= 448,
        s == 512 * m + vp,
        x == s % 0x1_0000,
        h == (x / 64) % 16,
        y == v + 0x1_0000 - 64 * h + 224,
    ensures
        ((y % 0x1_0000) / 512) % 2 == m,
        h < 16,
{
}

/// One coefficient of reconciliation: where the two sides are close, the
/// receiver reads from its own coefficient, and from the hint that the sender
/// took after adding the bit `m` at bit 9, that bit.
pub proof fn lemma_recon_bit(v: u16, vp: u16, m: u16)
    requires
        m <= 1,
        recon_close(vp, v),
    ensures
        recon_bit(v, recon_hint(wrap16(512 * m + vp))) == m,
        recon_hint(wrap16(512 * m + vp)) < 16,
{
    let x = wrap16(512 * m + vp);
    let h = recon_hint(x);
    assert((vp + 0x1_0000 - v + 224) % 1024 == (vp - v + 224) % 1024);
    lemma_recon_words(
        v as u32,
        vp as u32,
        m as u32,
        (vp + 0x1_0000 - v + 224) as u32,
        (512 * m + vp) as u32,
        x as u32,
        h as u32,
        (v + 0x1_0000 - 64 * h + 224) as u32,
    );
    assert((v + 0x1_0000 - 64 * h + 224) % 0x1_0000 == (v - 64 * h + 224) % 0x1_0000);
}

proof fn lemma_low_bit(c: u16)
    by (bit_vector)
    requires
        c <= 1,
    ensures
        ((c as u64 >> 0) & 1 == 1) == (c == 1),
{
}

/// A message comes back from the ring element that carries it.
pub proof fn lemma_message_round_trip(message: Seq<u8>)
    requires
        message.len() == KEYBYTES,
    ensures
        poly_message(message_poly(message)) == message,
{
    let carried = message_poly(message);
    assert forall|j: int| 0 <= j < KEYBYTES implies poly_message(carried)[j] == message[j] by {
        let f = |t: int| bit_of(carried[8 * j + t] as u64, 0);
        assert forall|t: int| 0 <= t < 8 implies bit_of(message[j] as u64, t) == #[trigger] f(
            t,
        ) by {
            let i = 8 * j + t;
            assert(carried[i] == bit_value(byte_stream_bit(message, i)) as u16);
            lemma_low_bit(carried[i]);
        }
        lemma_byte_of_bits(message[j], f);
    }
    assert(poly_message(carried) =~= message);
}

/// The message at bit 9 of every coefficient, added to `vp`: coefficient `i`
/// is `512 m + vp[i]` modulo `2^16`, for the message bit `m`.
proof fn lemma_carried_sum(message: Seq<u8>, vp: Seq<u16>, i: int)
    requires
        0 <= i < N,
    ensures
        message_poly(message)[i] <= 1,
        poly_add(poly_shl(message_poly(message), 9), vp)[i] == wrap16(
            512 * message_poly(message)[i] + vp[i],
        ),
{
    let c = message_poly(message)[i];
    vstd::arithmetic::power2::lemma2_to64();
    assert(c as int * pow2(9) == 512 * c) by (nonlinear_arith)
        requires
            pow2(9) == 512,
    ;
}

/// Reconciliation recovers the message: where every coefficient of the
/// sender's `vp` is close to that of the receiver's `v`, the receiver reads
/// `message` from `v` and the reconciliation data of `vp` with the message
/// added at bit 9.
pub proof fn lemma_recon_recovers(message: Seq<u8>, vp: Seq<u16>, v: Seq<u16>)
    requires
        message.len() == KEYBYTES,
        vp.len() == N,
        v.len() == N,
        forall|i: int| 0 <= i < N ==> recon_close(#[trigger] vp[i], v[i]),
    ensures
        poly_message(recon_bits(v, recon_data(poly_add(poly_shl(message_poly(message), 9), vp))))
            == message,
{
    let carried = message_poly(message);
    let sum = poly_add(poly_shl(carried, 9), vp);
    let hints = recon_hints(sum);
    let read = recon_bits(v, recon_data(sum));
    assert forall|i: int| 0 <= i < N implies (#[trigger] hints[i] as int) < pow2(4) by {
        assert(recon_close(vp[i], v[i]));
        lemma_carried_sum(message, vp, i);
        lemma_recon_bit(v[i], vp[i], carried[i]);
        vstd::arithmetic::power2::lemma2_to64();
    }
    assert(coeffs_below(hints, 4));
    lemma_unpack_pack(hints, 4);
    assert forall|i: int| 0 <= i < N implies read[i] == carried[i] by {
        assert(recon_close(vp[i], v[i]));
        lemma_carried_sum(message, vp, i);
        lemma_recon_bit(v[i], vp[i], carried[i]);
    }
    assert(read =~= carried);
    lemma_message_round_trip(message);
}

} // verus!
