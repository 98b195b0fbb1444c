//! Expansion of seeds: the public matrix, uniform over the full modulus, and
//! secret vectors, whose coefficients follow a centered binomial distribution.
//!
//! Both read the output stream of SHAKE-128 on the seed. What follows the
//! stream is stated here exactly, as a function of the stream.

use vstd::prelude::*;
use crate::codec::{unpack_poly, unpack_spec};
use crate::params::{N, NOISE_SEEDBYTES, POLYBYTES, Q_BITS, SEEDBYTES};
use crate::poly::{wrap16, Poly};
use crate::saber::{Matrix, Vector, K};
use crate::xof::{shake128, shake128_xof};

verus! {

/// Number of stream bytes that one matrix takes.
pub const MATRIX_STREAM_BYTES: usize = 9 * POLYBYTES;

/// Number of stream bytes that one secret vector takes.
pub const SECRET_STREAM_BYTES: usize = K * N;

/// The number that the first `n` bytes of `b` spell out, lowest byte first
/// (`n` at most 4).
pub open spec fn little_endian(b: Seq<u8>, n: int) -> int {
    (if n > 0 { b[0] as int } else { 0 })
    + (if n > 1 { b[1] * 0x100 } else { 0 })
    + (if n > 2 { b[2] * 0x1_0000 } else { 0 })
    + (if n > 3 { b[3] * 0x100_0000 } else { 0 })
}

proof fn lemma_or_byte(r: u64, b: u8, idx: u64)
    by (bit_vector)
    requires
        idx < 4,
        idx == 0 ==> r == 0,
        idx == 1 ==> r < 0x100,
        idx == 2 ==> r < 0x1_0000,
        idx == 3 ==> r < 0x100_0000,
    ensures
        idx == 0 ==> r | ((b as u64) << ((8 * idx) as u64)) == b as u64,
        idx == 1 ==> r | ((b as u64) << ((8 * idx) as u64)) == r + (b as u64) * 0x100,
        idx == 2 ==> r | ((b as u64) << ((8 * idx) as u64)) == r + (b as u64) * 0x1_0000,
        idx == 3 ==> r | ((b as u64) << ((8 * idx) as u64)) == r + (b as u64) * 0x100_0000,
{
}

/// Reads four bytes as one number, lowest byte first.
pub fn load_littleendian(bytes: &[u8; 4]) -> (r: u64)
    ensures
        r == little_endian(bytes@, 4),
        r == bytes@[0] + bytes@[1] * 0x100 + bytes@[2] * 0x1_0000 + bytes@[3] * 0x100_0000,
{
    let mut r: u64 = 0;
    for idx in 0..4usize
        invariant
            r == little_endian(bytes@, idx as int),
    {
        proof {
            lemma_or_byte(r, bytes@[idx as int], idx as u64);
        }
        r = r | ((bytes[idx] as u64) << (8 * idx));
    }
    r
}

/// The number of bits set among the low four bits of `x`.
pub open spec fn hamming4(x: u8) -> int {
    (x & 1) + ((x >> 1) & 1) + ((x >> 2) & 1) + ((x >> 3) & 1)
}

/// The secret coefficient that one stream byte gives: the number of bits set
/// in its low half less the number set in its high half, modulo `2^16`.
pub open spec fn binomial_coeff(byte: u8) -> u16 {
    wrap16(hamming4(byte & 0x0f) - hamming4(byte >> 4))
}

/// The secret vector that a stream gives: coefficient `j` of element `i`
/// comes from byte `N i + j`.
pub open spec fn secret_of_stream(buf: Seq<u8>) -> Seq<Seq<u16>> {
    Seq::new(K as nat, |i: int| Seq::new(N as nat, |j: int| binomial_coeff(buf[N * i + j])))
}

/// The matrix that a stream gives: the element in row `i` and column `j` is
/// unpacked, at full width, from the `POLYBYTES` bytes of slot `K i + j`.
pub open spec fn matrix_of_stream(buf: Seq<u8>) -> Seq<Seq<Seq<u16>>> {
    Seq::new(
        K as nat,
        |i: int|
            Seq::new(
                K as nat,
                |j: int|
                    unpack_spec(
                        buf.subrange((K * i + j) * POLYBYTES, (K * i + j + 1) * POLYBYTES),
                        Q_BITS as int,
                        N as nat,
                    ),
            ),
    )
}

/// The sum of `(t >> s) & 0x11111111` over `s` below `n` (`n` at most 4):
/// half byte `m` of it counts the bits set among the low `n` bits of half byte
/// `m` of `t`.
pub open spec fn folded_bits(t: u64, n: int) -> int {
    (if n > 0 { (t & 0x11111111) as int } else { 0 })
    + (if n > 1 { ((t >> 1) & 0x11111111) as int } else { 0 })
    + (if n > 2 { ((t >> 2) & 0x11111111) as int } else { 0 })
    + (if n > 3 { ((t >> 3) & 0x11111111) as int } else { 0 })
}

proof fn lemma_fold_nibbles(b0: u8, b1: u8, b2: u8, b3: u8, t: u64, d: u64)
    by (bit_vector)
    requires
        t == b0 as u64 + (b1 as u64) * 0x100 + (b2 as u64) * 0x1_0000 + (b3 as u64) * 0x100_0000,
        d == (t & 0x11111111) + ((t >> 1) & 0x11111111) + ((t >> 2) & 0x11111111) + ((t >> 3)
            & 0x11111111),
    ensures
        d & 0xf == ((b0 & 0x0f) & 1) + (((b0 & 0x0f) >> 1) & 1) + (((b0 & 0x0f) >> 2) & 1) + (((b0 & 0x0f) >> 3) & 1),
        d & 0xf <= 4,
        (d >> 4) & 0xf == ((b0 >> 4) & 1) + (((b0 >> 4) >> 1) & 1) + (((b0 >> 4) >> 2) & 1) + (((b0 >> 4) >> 3) & 1),
        (d >> 4) & 0xf <= 4,
        (d >> 8) & 0xf == ((b1 & 0x0f) & 1) + (((b1 & 0x0f) >> 1) & 1) + (((b1 & 0x0f) >> 2) & 1) + (((b1 & 0x0f) >> 3) & 1),
        (d >> 8) & 0xf <= 4,
        (d >> 12) & 0xf == ((b1 >> 4) & 1) + (((b1 >> 4) >> 1) & 1) + (((b1 >> 4) >> 2) & 1) + (((b1 >> 4) >> 3) & 1),
        (d >> 12) & 0xf <= 4,
        (d >> 16) & 0xf == ((b2 & 0x0f) & 1) + (((b2 & 0x0f) >> 1) & 1) + (((b2 & 0x0f) >> 2) & 1) + (((b2 & 0x0f) >> 3) & 1),
        (d >> 16) & 0xf <= 4,
        (d >> 20) & 0xf == ((b2 >> 4) & 1) + (((b2 >> 4) >> 1) & 1) + (((b2 >> 4) >> 2) & 1) + (((b2 >> 4) >> 3) & 1),
        (d >> 20) & 0xf <= 4,
        (d >> 24) & 0xf == ((b3 & 0x0f) & 1) + (((b3 & 0x0f) >> 1) & 1) + (((b3 & 0x0f) >> 2) & 1) + (((b3 & 0x0f) >> 3) & 1),
        (d >> 24) & 0xf <= 4,
        d >> 28 == ((b3 >> 4) & 1) + (((b3 >> 4) >> 1) & 1) + (((b3 >> 4) >> 2) & 1) + (((b3 >> 4) >> 3) & 1),
        d >> 28 <= 4,
{
}

proof fn lemma_fold_step(t: u64, s: u64)
    by (bit_vector)
    requires
        s < 4,
    ensures
        (t >> s) & 0x11111111 <= 0x11111111,
        s == 0 ==> (t >> s) == t,
{
}

/// The four secret coefficients that four stream bytes give: the bits of the
/// word are summed in groups of four, which leaves in every half byte of `d`
/// the number of bits that were set in it.
pub fn binomial_four(word: &[u8; 4]) -> (r: [u16; 4])
    ensures
        forall|k: int| 0 <= k < 4 ==> r@[k] == binomial_coeff(word@[k]),
{
    let t = load_littleendian(word);
    let mut d: u64 = 0;
    proof {
        lemma_fold_step(t, 0);
        lemma_fold_step(t, 1);
        lemma_fold_step(t, 2);
        lemma_fold_step(t, 3);
    }
    for idx3 in 0..4usize
        invariant
            d == folded_bits(t, idx3 as int),
            (t >> 0) & 0x11111111 <= 0x11111111,
            (t >> 1) & 0x11111111 <= 0x11111111,
            (t >> 2) & 0x11111111 <= 0x11111111,
            (t >> 3) & 0x11111111 <= 0x11111111,
            t >> 0 == t,
    {
        d = d + ((t >> idx3) & 0x11111111);
    }
    proof {
        lemma_fold_nibbles(word@[0], word@[1], word@[2], word@[3], t, d);
    }
    let a0 = (d & 0xf) as u16;
    let b0 = ((d >> 4) & 0xf) as u16;
    let a1 = ((d >> 8) & 0xf) as u16;
    let b1 = ((d >> 12) & 0xf) as u16;
    let a2 = ((d >> 16) & 0xf) as u16;
    let b2 = ((d >> 20) & 0xf) as u16;
    let a3 = ((d >> 24) & 0xf) as u16;
    let b3 = (d >> 28) as u16;
    let c0 = a0.wrapping_sub(b0);
    let c1 = a1.wrapping_sub(b1);
    let c2 = a2.wrapping_sub(b2);
    let c3 = a3.wrapping_sub(b3);
    assert(c0 == binomial_coeff(word@[0]));
    assert(c1 == binomial_coeff(word@[1]));
    assert(c2 == binomial_coeff(word@[2]));
    assert(c3 == binomial_coeff(word@[3]));
    [c0, c1, c2, c3]
}

/// The secret vector that the stream `buf` gives.
pub fn secret_from_stream(buf: &[u8]) -> (secret: Vector)
    requires
        buf@.len() == SECRET_STREAM_BYTES,
    ensures
        secret@ == secret_of_stream(buf@),
{
    let mut polys = [Poly::default();K];
    for idx in 0..K
        invariant
            buf@.len() == SECRET_STREAM_BYTES,
            forall|i: int, j: int|
                0 <= i < idx && 0 <= j < N ==> #[trigger] polys@[i]@[j] == binomial_coeff(
                    buf@[N * i + j],
                ),
    {
        let mut coeffs = [0u16; N];
        let mut idx2: usize = 0;
        while idx2 < N
            invariant
                idx < K,
                idx2 <= N,
                idx2 % 4 == 0,
                buf@.len() == SECRET_STREAM_BYTES,
                forall|j: int|
                    0 <= j < idx2 ==> #[trigger] coeffs@[j] == binomial_coeff(buf@[N * idx + j]),
            decreases N - idx2,
        {
            let at = N * idx + idx2;
            let word = [buf[at], buf[at + 1], buf[at + 2], buf[at + 3]];
            let four = binomial_four(&word);
            coeffs[idx2] = four[0];
            coeffs[idx2 + 1] = four[1];
            coeffs[idx2 + 2] = four[2];
            coeffs[idx2 + 3] = four[3];
            idx2 = idx2 + 4;
        }
        polys[idx] = Poly { coeffs };
    }
    let secret = Vector { polys };
    proof {
        assert forall|i: int| 0 <= i < K implies secret@[i] == secret_of_stream(buf@)[i] by {
            assert forall|j: int| 0 <= j < N implies secret@[i][j] == secret_of_stream(
                buf@,
            )[i][j] by {
                assert(polys@[i]@[j] == binomial_coeff(buf@[N * i + j]));
            }
            assert(secret@[i] =~= secret_of_stream(buf@)[i]);
        }
        assert(secret@ =~= secret_of_stream(buf@));
    }
    secret
}

/// The matrix that the stream `buf` gives.
pub fn matrix_from_stream(buf: &[u8]) -> (matrix: Matrix)
    requires
        buf@.len() == MATRIX_STREAM_BYTES,
    ensures
        matrix@ == matrix_of_stream(buf@),
{
    let mut vecs = [Vector::default();K];
    for idx in 0..K
        invariant
            buf@.len() == MATRIX_STREAM_BYTES,
            forall|i: int| 0 <= i < idx ==> #[trigger] vecs@[i]@ == matrix_of_stream(buf@)[i],
    {
        let mut polys = [Poly::default();K];
        for idx2 in 0..K
            invariant
                idx < K,
                buf@.len() == MATRIX_STREAM_BYTES,
                forall|j: int|
                    0 <= j < idx2 ==> #[trigger] polys@[j]@ == matrix_of_stream(
                        buf@,
                    )[idx as int][j],
        {
            assert(POLYBYTES == 416 && Q_BITS == 13);
            let slot = K * idx + idx2;
            polys[idx2] = unpack_poly(buf, slot * POLYBYTES, Q_BITS);
        }
        let row = Vector { polys };
        proof {
            assert(row@ =~= matrix_of_stream(buf@)[idx as int]);
        }
        vecs[idx] = row;
    }
    let matrix = Matrix { vecs };
    proof {
        assert(matrix@ =~= matrix_of_stream(buf@));
    }
    matrix
}

/// Expands `seed` into the public matrix: the SHAKE-128 stream of the seed is
/// cut into `K * K` slots, one per element, row by row.
pub fn gen_matrix(seed: &[u8; SEEDBYTES]) -> (matrix: Matrix)
    ensures
        matrix@ == matrix_of_stream(shake128(seed@, MATRIX_STREAM_BYTES as nat)),
{
    let buf = shake128_xof(seed.as_slice(), MATRIX_STREAM_BYTES);
    matrix_from_stream(buf.as_slice())
}

/// Expands `seed` into a secret vector: every coefficient is the difference
/// of the bit counts of the two halves of one byte of the SHAKE-128 stream of
/// the seed.
pub fn gen_secret(seed: &[u8; NOISE_SEEDBYTES]) -> (secret: Vector)
    ensures
        secret@ == secret_of_stream(shake128(seed@, SECRET_STREAM_BYTES as nat)),
{
    let buf = shake128_xof(seed.as_slice(), SECRET_STREAM_BYTES);
    secret_from_stream(buf.as_slice())
}

} // verus!
