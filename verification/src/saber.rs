//! Vectors and matrices over the ring, and the three operations of the
//! scheme: key generation, encryption and decryption.

use vstd::prelude::*;
use vstd::slice::slice_subrange;
use crate::codec::{
    array_of, coeffs_below, copy_into, lemma_unpack_pack, pack_poly, pack_spec, packed_len,
    unpack_poly, unpack_spec,
};
use crate::error::Error;
use crate::params::{KEYBYTES, N, NOISE_SEEDBYTES, P_BITS, Q_BITS, SEEDBYTES};
use crate::poly::{poly_add, poly_add_scalar, poly_mul, poly_shl, poly_shr, poly_zero, Poly};
use crate::recon::{
    lemma_recon_recovers, message_poly, msg2pol, pol2msg, poly_message, recon, recon_bits,
    recon_close, recon_data, recon_data_gen,
};
use crate::sampler::{
    gen_matrix, gen_secret, matrix_of_stream, secret_of_stream, MATRIX_STREAM_BYTES,
    SECRET_STREAM_BYTES,
};
use crate::xof::{random_seed, shake128};

verus! {

/// Rank of the module: the number of ring elements in a vector.
pub const K: usize = 3;

/// Parameter of the centered binomial distribution of the secrets.
pub const MU: usize = 8;

/// A coefficient carries `DELTA + 1` bits of reconciliation data.
pub const DELTA: usize = 3;

/// Length of a vector packed at the rounded width of 10 bits per coefficient.
pub const POLYVECCOMPRESSEDBYTES: usize = K * (N * 10) / 8;

/// Length of a vector packed at the full width of 13 bits per coefficient.
pub const POLYVECBYTES: usize = K * (N * 13) / 8;

/// Length of the vector part of a ciphertext.
pub const CIPHERTEXTBYTES: usize = POLYVECCOMPRESSEDBYTES;

/// Length of a plaintext.
pub const MESSAGEBYTES: usize = 32;

/// Length of the reconciliation data of a ciphertext.
pub const RECONBYTES_KEM: usize = (DELTA + 1) * N / 8;

/// Length of a public key: a rounded vector and the seed of the matrix.
pub const INDCPA_PUBKEYBYTES: usize = 992;

/// Length of a secret key: a vector at full width.
pub const INDCPA_SECRETKEYBYTES: usize = 1248;

/// Length of a public key.
pub const PUBLICKEYBYTES: usize = 992;

/// Length of a secret key.
pub const SECRETKEYBYTES: usize = 1248;

/// Length of a ciphertext: a rounded vector and the reconciliation data.
pub const BYTES_CCA_DEC: usize = 1088;

/// A message bit is carried at this bit position of its coefficient.
pub const MSG2POL_CONST: u8 = 9;

/// `K` ring elements.
#[derive(Clone, Copy, Debug)]
pub struct Vector {
    pub polys: [Poly; K],
}

impl View for Vector {
    type V = Seq<Seq<u16>>;

    open spec fn view(&self) -> Seq<Seq<u16>> {
        Seq::new(K as nat, |i: int| self.polys@[i]@)
    }
}

/// Element-wise sum.
pub open spec fn vector_add(a: Seq<Seq<u16>>, b: Seq<Seq<u16>>) -> Seq<Seq<u16>> {
    Seq::new(K as nat, |i: int| poly_add(a[i], b[i]))
}

/// `k` added to every coefficient.
pub open spec fn vector_add_scalar(a: Seq<Seq<u16>>, k: u16) -> Seq<Seq<u16>> {
    Seq::new(K as nat, |i: int| poly_add_scalar(a[i], k))
}

/// Every coefficient divided by `2^r`, rounding down.
pub open spec fn vector_shr(a: Seq<Seq<u16>>, r: u8) -> Seq<Seq<u16>> {
    Seq::new(K as nat, |i: int| poly_shr(a[i], r))
}

/// The sum of `a[i] b[i]` over `i` below `n`.
pub open spec fn inner_sum(a: Seq<Seq<u16>>, b: Seq<Seq<u16>>, n: nat) -> Seq<u16>
    decreases n,
{
    if n == 0 {
        poly_zero()
    } else {
        poly_add(inner_sum(a, b, (n - 1) as nat), poly_mul(a[n - 1], b[n - 1]))
    }
}

/// The inner product of two vectors.
pub open spec fn inner_product(a: Seq<Seq<u16>>, b: Seq<Seq<u16>>) -> Seq<u16> {
    inner_sum(a, b, K as nat)
}

impl Vector {
    /// The vector whose elements have the coefficients `s`.
    pub open spec fn of(s: Seq<Seq<u16>>) -> Vector {
        choose|v: Vector| v@ == s
    }

    /// A vector is determined by the coefficients of its elements.
    pub proof fn lemma_of_view(self)
        ensures
            Vector::of(self@) == self,
    {
        let q = Vector::of(self@);
        assert(q@ == self@);
        assert forall|i: int| 0 <= i < K implies q.polys@[i] == self.polys@[i] by {
            assert(q@[i] == self@[i]);
            assert(q.polys@[i].coeffs =~= self.polys@[i].coeffs);
        }
        assert(q.polys =~= self.polys);
    }
}

impl Default for Vector {
    fn default() -> (r: Vector)
        ensures
            forall|i: int| 0 <= i < K ==> r@[i] == poly_zero(),
    {
        Vector { polys: [Poly::default();K] }
    }
}

impl core::ops::Add<Vector> for Vector {
    type Output = Vector;

    fn add(self, rhs: Vector) -> (r: Vector)
        ensures
            r@ == vector_add(self@, rhs@),
    {
        let mut polys = self.polys;
        for i in 0..K
            invariant
                forall|j: int| 0 <= j < i ==> polys@[j]@ == poly_add(self@[j], rhs@[j]),
                forall|j: int| i <= j < K ==> polys@[j] == self.polys@[j],
        {
            polys[i] = polys[i] + rhs.polys[i];
        }
        let r = Vector { polys };
        proof {
            assert(r@ =~= vector_add(self@, rhs@));
            r.lemma_of_view();
        }
        r
    }
}

impl vstd::std_specs::ops::AddSpecImpl<Vector> for Vector {
    open spec fn obeys_add_spec() -> bool {
        true
    }

    open spec fn add_req(self, rhs: Vector) -> bool {
        true
    }

    open spec fn add_spec(self, rhs: Vector) -> Vector {
        Vector::of(vector_add(self@, rhs@))
    }
}

impl core::ops::Add<u16> for Vector {
    type Output = Vector;

    fn add(self, rhs: u16) -> (r: Vector)
        ensures
            r@ == vector_add_scalar(self@, rhs),
    {
        let mut polys = self.polys;
        for i in 0..K
            invariant
                forall|j: int| 0 <= j < i ==> polys@[j]@ == poly_add_scalar(self@[j], rhs),
                forall|j: int| i <= j < K ==> polys@[j] == self.polys@[j],
        {
            polys[i] = polys[i] + rhs;
        }
        let r = Vector { polys };
        proof {
            assert(r@ =~= vector_add_scalar(self@, rhs));
            r.lemma_of_view();
        }
        r
    }
}

impl vstd::std_specs::ops::AddSpecImpl<u16> for Vector {
    open spec fn obeys_add_spec() -> bool {
        true
    }

    open spec fn add_req(self, rhs: u16) -> bool {
        true
    }

    open spec fn add_spec(self, rhs: u16) -> Vector {
        Vector::of(vector_add_scalar(self@, rhs))
    }
}

impl core::ops::Mul<Vector> for Vector {
    type Output = Poly;

    /// The inner product.
    fn mul(self, rhs: Vector) -> (r: Poly)
        ensures
            r@ == inner_product(self@, rhs@),
    {
        let mut acc = Poly::default();
        for i in 0..K
            invariant
                acc@ == inner_sum(self@, rhs@, i as nat),
        {
            acc = acc + (self.polys[i] * rhs.polys[i]);
        }
        proof {
            acc.lemma_of_view();
        }
        acc
    }
}

impl vstd::std_specs::ops::MulSpecImpl<Vector> for Vector {
    open spec fn obeys_mul_spec() -> bool {
        true
    }

    open spec fn mul_req(self, rhs: Vector) -> bool {
        true
    }

    open spec fn mul_spec(self, rhs: Vector) -> Poly {
        Poly::of(inner_product(self@, rhs@))
    }
}

impl core::ops::Shr<u8> for Vector {
    type Output = Vector;

    fn shr(self, rhs: u8) -> (r: Vector)
        ensures
            r@ == vector_shr(self@, rhs),
    {
        let mut polys = self.polys;
        for i in 0..K
            invariant
                forall|j: int| 0 <= j < i ==> polys@[j]@ == poly_shr(self@[j], rhs),
                forall|j: int| i <= j < K ==> polys@[j] == self.polys@[j],
        {
            polys[i] = polys[i] >> rhs;
        }
        let r = Vector { polys };
        proof {
            assert(r@ =~= vector_shr(self@, rhs));
            r.lemma_of_view();
        }
        r
    }
}

impl vstd::std_specs::ops::ShrSpecImpl<u8> for Vector {
    open spec fn obeys_shr_spec() -> bool {
        true
    }

    open spec fn shr_req(self, rhs: u8) -> bool {
        true
    }

    open spec fn shr_spec(self, rhs: u8) -> Vector {
        Vector::of(vector_shr(self@, rhs))
    }
}

/// `K` rows of `K` ring elements each.
#[derive(Clone, Copy, Debug)]
pub struct Matrix {
    pub vecs: [Vector; K],
}

impl View for Matrix {
    type V = Seq<Seq<Seq<u16>>>;

    open spec fn view(&self) -> Seq<Seq<Seq<u16>>> {
        Seq::new(K as nat, |i: int| self.vecs@[i]@)
    }
}

/// `k` added to every coefficient.
pub open spec fn matrix_add_scalar(m: Seq<Seq<Seq<u16>>>, k: u16) -> Seq<Seq<Seq<u16>>> {
    Seq::new(K as nat, |i: int| vector_add_scalar(m[i], k))
}

/// Every coefficient divided by `2^r`, rounding down.
pub open spec fn matrix_shr(m: Seq<Seq<Seq<u16>>>, r: u8) -> Seq<Seq<Seq<u16>>> {
    Seq::new(K as nat, |i: int| vector_shr(m[i], r))
}

/// The matrix with rows and columns exchanged.
pub open spec fn matrix_transpose(m: Seq<Seq<Seq<u16>>>) -> Seq<Seq<Seq<u16>>> {
    Seq::new(K as nat, |i: int| Seq::new(K as nat, |j: int| m[j][i]))
}

/// The product `m v`: element `i` is the inner product of row `i` and `v`.
pub open spec fn matrix_mul(m: Seq<Seq<Seq<u16>>>, v: Seq<Seq<u16>>) -> Seq<Seq<u16>> {
    Seq::new(K as nat, |i: int| inner_product(m[i], v))
}

/// The sum of `m[j][i] v[j]` over `j` below `n`: column `i` of `m` against `v`.
pub open spec fn column_sum(m: Seq<Seq<Seq<u16>>>, v: Seq<Seq<u16>>, i: int, n: nat) -> Seq<u16>
    decreases n,
{
    if n == 0 {
        poly_zero()
    } else {
        poly_add(column_sum(m, v, i, (n - 1) as nat), poly_mul(m[n - 1][i], v[n - 1]))
    }
}

/// The product of the transpose of `m` and `v`: element `i` is the inner
/// product of column `i` and `v`.
pub open spec fn matrix_mul_transpose(m: Seq<Seq<Seq<u16>>>, v: Seq<Seq<u16>>) -> Seq<Seq<u16>> {
    Seq::new(K as nat, |i: int| column_sum(m, v, i, K as nat))
}

proof fn lemma_column_sum_is_inner_sum(m: Seq<Seq<Seq<u16>>>, v: Seq<Seq<u16>>, i: int, n: nat)
    requires
        0 <= i < K,
        n <= K,
    ensures
        column_sum(m, v, i, n) == inner_sum(matrix_transpose(m)[i], v, n),
    decreases n,
{
    if n > 0 {
        lemma_column_sum_is_inner_sum(m, v, i, (n - 1) as nat);
        assert(matrix_transpose(m)[i][n - 1] == m[n - 1][i]);
    }
}

/// Multiplying by the transpose is multiplying the transposed matrix: for
/// every matrix `m` and vector `v`, `matrix_mul_transpose(m, v)` is
/// `matrix_mul(matrix_transpose(m), v)`.
pub proof fn lemma_mul_transpose(m: Seq<Seq<Seq<u16>>>, v: Seq<Seq<u16>>)
    ensures
        matrix_mul_transpose(m, v) == matrix_mul(matrix_transpose(m), v),
{
    assert forall|i: int| 0 <= i < K implies matrix_mul_transpose(m, v)[i] == matrix_mul(
        matrix_transpose(m),
        v,
    )[i] by {
        lemma_column_sum_is_inner_sum(m, v, i, K as nat);
    }
    assert(matrix_mul_transpose(m, v) =~= matrix_mul(matrix_transpose(m), v));
}

impl Matrix {
    /// The matrix whose elements have the coefficients `s`.
    pub open spec fn of(s: Seq<Seq<Seq<u16>>>) -> Matrix {
        choose|m: Matrix| m@ == s
    }

    /// A matrix is determined by the coefficients of its elements.
    pub proof fn lemma_of_view(self)
        ensures
            Matrix::of(self@) == self,
    {
        let q = Matrix::of(self@);
        assert(q@ == self@);
        assert forall|i: int| 0 <= i < K implies q.vecs@[i] == self.vecs@[i] by {
            assert(q@[i] == self@[i]);
            let a = q.vecs@[i];
            let b = self.vecs@[i];
            assert forall|j: int| 0 <= j < K implies a.polys@[j] == b.polys@[j] by {
                assert(a@[j] == b@[j]);
                assert(a.polys@[j].coeffs =~= b.polys@[j].coeffs);
            }
            assert(a.polys =~= b.polys);
        }
        assert(q.vecs =~= self.vecs);
    }

    /// The product of the matrix and `rhs`.
    pub fn mul(self, rhs: Vector) -> (r: Vector)
        ensures
            r@ == matrix_mul(self@, rhs@),
    {
        let mut polys = [Poly::default();K];
        for i in 0..K
            invariant
                forall|j: int| 0 <= j < i ==> polys@[j]@ == inner_product(self@[j], rhs@),
        {
            polys[i] = self.vecs[i] * rhs;
        }
        let result = Vector { polys };
        proof {
            assert(result@ =~= matrix_mul(self@, rhs@));
        }
        result
    }

    /// The product of the transposed matrix and `rhs`.
    pub fn mul_transpose(self, rhs: Vector) -> (r: Vector)
        ensures
            r@ == matrix_mul_transpose(self@, rhs@),
    {
        let mut polys = [Poly::default();K];
        for i in 0..K
            invariant
                forall|j: int|
                    0 <= j < i ==> polys@[j]@ == column_sum(self@, rhs@, j, K as nat),
                forall|j: int| i <= j < K ==> polys@[j]@ == poly_zero(),
        {
            for j in 0..K
                invariant
                    i < K,
                    forall|l: int|
                        0 <= l < i ==> polys@[l]@ == column_sum(self@, rhs@, l, K as nat),
                    polys@[i as int]@ == column_sum(self@, rhs@, i as int, j as nat),
                    forall|l: int| i < l < K ==> polys@[l]@ == poly_zero(),
            {
                polys[i] = polys[i] + self.vecs[j].polys[i] * rhs.polys[j];
            }
        }
        let result = Vector { polys };
        proof {
            assert(result@ =~= matrix_mul_transpose(self@, rhs@));
        }
        result
    }
}

impl Default for Matrix {
    fn default() -> (r: Matrix)
        ensures
            forall|i: int, j: int| 0 <= i < K && 0 <= j < K ==> r@[i][j] == poly_zero(),
    {
        Matrix { vecs: [Vector::default();K] }
    }
}

impl core::ops::Add<u16> for Matrix {
    type Output = Matrix;

    fn add(self, rhs: u16) -> (r: Matrix)
        ensures
            r@ == matrix_add_scalar(self@, rhs),
    {
        let mut vecs = self.vecs;
        for i in 0..K
            invariant
                forall|j: int| 0 <= j < i ==> vecs@[j]@ == vector_add_scalar(self@[j], rhs),
                forall|j: int| i <= j < K ==> vecs@[j] == self.vecs@[j],
        {
            vecs[i] = vecs[i] + rhs;
        }
        let r = Matrix { vecs };
        proof {
            assert(r@ =~= matrix_add_scalar(self@, rhs));
            r.lemma_of_view();
        }
        r
    }
}

impl vstd::std_specs::ops::AddSpecImpl<u16> for Matrix {
    open spec fn obeys_add_spec() -> bool {
        true
    }

    open spec fn add_req(self, rhs: u16) -> bool {
        true
    }

    open spec fn add_spec(self, rhs: u16) -> Matrix {
        Matrix::of(matrix_add_scalar(self@, rhs))
    }
}

impl core::ops::Shr<u8> for Matrix {
    type Output = Matrix;

    fn shr(self, rhs: u8) -> (r: Matrix)
        ensures
            r@ == matrix_shr(self@, rhs),
    {
        let mut vecs = self.vecs;
        for i in 0..K
            invariant
                forall|j: int| 0 <= j < i ==> vecs@[j]@ == vector_shr(self@[j], rhs),
                forall|j: int| i <= j < K ==> vecs@[j] == self.vecs@[j],
        {
            vecs[i] = vecs[i] >> rhs;
        }
        let r = Matrix { vecs };
        proof {
            assert(r@ =~= matrix_shr(self@, rhs));
            r.lemma_of_view();
        }
        r
    }
}

impl vstd::std_specs::ops::ShrSpecImpl<u8> for Matrix {
    open spec fn obeys_shr_spec() -> bool {
        true
    }

    open spec fn shr_req(self, rhs: u8) -> bool {
        true
    }

    open spec fn shr_spec(self, rhs: u8) -> Matrix {
        Matrix::of(matrix_shr(self@, rhs))
    }
}

/// The first `n` elements of `v`, packed at `w` bits per coefficient, one
/// after the other.
pub open spec fn packed_elements(v: Seq<Seq<u16>>, w: int, n: nat) -> Seq<u8>
    decreases n,
{
    if n == 0 {
        Seq::empty()
    } else {
        packed_elements(v, w, (n - 1) as nat) + pack_spec(v[n - 1], w)
    }
}

/// The vector `v` packed at `w` bits per coefficient.
pub open spec fn pack_vector(v: Seq<Seq<u16>>, w: int) -> Seq<u8> {
    packed_elements(v, w, K as nat)
}

/// The vector that the bytes `b` pack at `w` bits per coefficient: element
/// `i` comes from the `packed_len(w)` bytes of slot `i`.
pub open spec fn unpack_vector(b: Seq<u8>, w: int) -> Seq<Seq<u16>> {
    Seq::new(
        K as nat,
        |i: int|
            unpack_spec(b.subrange(i * packed_len(w), (i + 1) * packed_len(w)), w, N as nat),
    )
}

/// Rounding from the full modulus to the rounded one: every coefficient has
/// 4 added and is divided by 8.
pub open spec fn round_vector(v: Seq<Seq<u16>>) -> Seq<Seq<u16>> {
    vector_shr(vector_add_scalar(v, 4), 3)
}

impl Vector {
    /// Packs the low `w` bits of every coefficient.
    pub fn pack(&self, w: usize) -> (out: Vec<u8>)
        requires
            1 <= w <= 16,
        ensures
            out@ == pack_vector(self@, w as int),
            out@.len() == K * packed_len(w as int),
    {
        let mut out: Vec<u8> = Vec::new();
        for i in 0..K
            invariant
                1 <= w <= 16,
                out@ == packed_elements(self@, w as int, i as nat),
                out@.len() == i * packed_len(w as int),
        {
            proof {
                let each = packed_len(w as int);
                assert((i + 1) * each == i * each + each) by (nonlinear_arith);
            }
            pack_poly(&self.polys[i], w, &mut out);
        }
        out
    }

    /// Unpacks a vector of `w` bits per coefficient.
    pub fn unpack(bytes: &[u8], w: usize) -> (v: Vector)
        requires
            1 <= w <= 16,
            bytes@.len() == K * packed_len(w as int),
        ensures
            v@ == unpack_vector(bytes@, w as int),
    {
        let mut polys = [Poly::default();K];
        let each = 32 * w;
        for i in 0..K
            invariant
                1 <= w <= 16,
                each == packed_len(w as int),
                bytes@.len() == K * packed_len(w as int),
                forall|j: int| 0 <= j < i ==> polys@[j]@ == unpack_vector(bytes@, w as int)[j],
        {
            proof {
                assert(K * packed_len(w as int) == 3 * each);
                assert(0 <= i * each && i * each + each <= 3 * each) by (nonlinear_arith)
                    requires
                        0 <= i <= 2,
                        0 <= each,
                ;
                assert((i + 1) * each == i * each + each) by (nonlinear_arith);
            }
            polys[i] = unpack_poly(bytes, i * each, w);
        }
        let v = Vector { polys };
        proof {
            assert(v@ =~= unpack_vector(bytes@, w as int));
        }
        v
    }

    /// Packs the vector at the rounded width of 10 bits per coefficient.
    pub fn pack_compressed(&self) -> (out: Vec<u8>)
        ensures
            out@ == pack_vector(self@, P_BITS as int),
            out@.len() == POLYVECCOMPRESSEDBYTES,
    {
        self.pack(P_BITS)
    }

    /// Packs the vector at the full width of 13 bits per coefficient.
    pub fn pack_full(&self) -> (out: Vec<u8>)
        ensures
            out@ == pack_vector(self@, Q_BITS as int),
            out@.len() == POLYVECBYTES,
    {
        self.pack(Q_BITS)
    }

    /// Unpacks a vector of 10 bits per coefficient. Fails on a buffer of any
    /// other length than `POLYVECCOMPRESSEDBYTES`.
    pub fn unpack_compressed(bytes: &[u8]) -> (r: Result<Vector, Error>)
        ensures
            bytes@.len() == POLYVECCOMPRESSEDBYTES ==> r is Ok && r->Ok_0@ == unpack_vector(
                bytes@,
                P_BITS as int,
            ),
            bytes@.len() != POLYVECCOMPRESSEDBYTES ==> r == Err::<Vector, Error>(
                (Error::BadLengthError {
                    name: "Vector",
                    actual: bytes.len(),
                    expected: POLYVECCOMPRESSEDBYTES,
                }),
            ),
    {
        if bytes.len() != POLYVECCOMPRESSEDBYTES {
            return Err(
                Error::BadLengthError {
                    name: "Vector",
                    actual: bytes.len(),
                    expected: POLYVECCOMPRESSEDBYTES,
                },
            );
        }
        Ok(Vector::unpack(bytes, P_BITS))
    }

    /// Unpacks a vector of 13 bits per coefficient. Fails on a buffer of any
    /// other length than `POLYVECBYTES`.
    pub fn unpack_full(bytes: &[u8]) -> (r: Result<Vector, Error>)
        ensures
            bytes@.len() == POLYVECBYTES ==> r is Ok && r->Ok_0@ == unpack_vector(
                bytes@,
                Q_BITS as int,
            ),
            bytes@.len() != POLYVECBYTES ==> r == Err::<Vector, Error>(
                (Error::BadLengthError {
                    name: "Vector",
                    actual: bytes.len(),
                    expected: POLYVECBYTES,
                }),
            ),
    {
        if bytes.len() != POLYVECBYTES {
            return Err(
                Error::BadLengthError {
                    name: "Vector",
                    actual: bytes.len(),
                    expected: POLYVECBYTES,
                },
            );
        }
        Ok(Vector::unpack(bytes, Q_BITS))
    }
}

/// A public key: the rounded vector `b`, packed at 10 bits per coefficient,
/// and after it the seed of the matrix.
#[derive(Clone, Copy, Debug)]
pub struct PublicKey(pub [u8; PUBLICKEYBYTES]);

/// A secret key: the secret vector, packed at 13 bits per coefficient.
#[derive(Clone, Copy, Debug)]
pub struct SecretKey(pub [u8; SECRETKEYBYTES]);

impl View for PublicKey {
    type V = Seq<u8>;

    open spec fn view(&self) -> Seq<u8> {
        self.0@
    }
}

impl View for SecretKey {
    type V = Seq<u8>;

    open spec fn view(&self) -> Seq<u8> {
        self.0@
    }
}

impl PublicKey {
    /// The public key that `bytes` hold. Fails on a buffer of any other
    /// length than `PUBLICKEYBYTES`.
    pub fn from_bytes(bytes: &[u8]) -> (r: Result<PublicKey, Error>)
        ensures
            bytes@.len() == PUBLICKEYBYTES ==> r is Ok && r->Ok_0@ == bytes@,
            bytes@.len() != PUBLICKEYBYTES ==> r == Err::<PublicKey, Error>(
                (Error::BadLengthError {
                    name: "PublicKey",
                    actual: bytes.len(),
                    expected: PUBLICKEYBYTES,
                }),
            ),
    {
        match array_of::<PUBLICKEYBYTES>(bytes) {
            Some(inner) => Ok(PublicKey(inner)),
            None => Err(
                Error::BadLengthError {
                    name: "PublicKey",
                    actual: bytes.len(),
                    expected: PUBLICKEYBYTES,
                },
            ),
        }
    }

    /// The bytes of the key.
    pub fn to_bytes(self) -> (r: [u8; PUBLICKEYBYTES])
        ensures
            r@ == self@,
    {
        self.0
    }

    /// The bytes of the key.
    pub fn as_bytes(&self) -> (r: &[u8; PUBLICKEYBYTES])
        ensures
            r@ == self@,
    {
        &self.0
    }

    /// The bytes of the key.
    pub fn as_slice(&self) -> (r: &[u8])
        ensures
            r@ == self@,
    {
        self.0.as_slice()
    }

    /// The packed vector of the key.
    pub open spec fn vector_bytes(self) -> Seq<u8> {
        self@.subrange(0, POLYVECCOMPRESSEDBYTES as int)
    }

    /// The seed of the matrix.
    pub open spec fn seed(self) -> Seq<u8> {
        self@.subrange(POLYVECCOMPRESSEDBYTES as int, PUBLICKEYBYTES as int)
    }
}

impl Default for PublicKey {
    fn default() -> (r: PublicKey)
        ensures
            r@ == Seq::new(PUBLICKEYBYTES as nat, |i: int| 0u8),
    {
        let r = PublicKey([0u8; PUBLICKEYBYTES]);
        proof {
            assert(r@ =~= Seq::new(PUBLICKEYBYTES as nat, |i: int| 0u8));
        }
        r
    }
}

impl SecretKey {
    /// The secret key that `bytes` hold. Fails on a buffer of any other
    /// length than `SECRETKEYBYTES`.
    pub fn from_bytes(bytes: &[u8]) -> (r: Result<SecretKey, Error>)
        ensures
            bytes@.len() == SECRETKEYBYTES ==> r is Ok && r->Ok_0@ == bytes@,
            bytes@.len() != SECRETKEYBYTES ==> r == Err::<SecretKey, Error>(
                (Error::BadLengthError {
                    name: "SecretKey",
                    actual: bytes.len(),
                    expected: SECRETKEYBYTES,
                }),
            ),
    {
        match array_of::<SECRETKEYBYTES>(bytes) {
            Some(inner) => Ok(SecretKey(inner)),
            None => Err(
                Error::BadLengthError {
                    name: "SecretKey",
                    actual: bytes.len(),
                    expected: SECRETKEYBYTES,
                },
            ),
        }
    }

    /// The bytes of the key.
    pub fn to_bytes(self) -> (r: [u8; SECRETKEYBYTES])
        ensures
            r@ == self@,
    {
        self.0
    }

    /// The bytes of the key.
    pub fn as_bytes(&self) -> (r: &[u8; SECRETKEYBYTES])
        ensures
            r@ == self@,
    {
        &self.0
    }

    /// The bytes of the key.
    pub fn as_slice(&self) -> (r: &[u8])
        ensures
            r@ == self@,
    {
        self.0.as_slice()
    }
}

impl Default for SecretKey {
    fn default() -> (r: SecretKey)
        ensures
            r@ == Seq::new(SECRETKEYBYTES as nat, |i: int| 0u8),
    {
        let r = SecretKey([0u8; SECRETKEYBYTES]);
        proof {
            assert(r@ =~= Seq::new(SECRETKEYBYTES as nat, |i: int| 0u8));
        }
        r
    }
}

/// The ciphertext that `bytes` hold. Fails on a buffer of any other length
/// than `BYTES_CCA_DEC`.
pub fn ciphertext_from_bytes(bytes: &[u8]) -> (r: Result<[u8; BYTES_CCA_DEC], Error>)
    ensures
        bytes@.len() == BYTES_CCA_DEC ==> r is Ok && r->Ok_0@ == bytes@,
        bytes@.len() != BYTES_CCA_DEC ==> r == Err::<[u8; BYTES_CCA_DEC], Error>(
            (Error::BadLengthError {
                name: "Ciphertext",
                actual: bytes.len(),
                expected: BYTES_CCA_DEC,
            }),
        ),
{
    match array_of::<BYTES_CCA_DEC>(bytes) {
        Some(inner) => Ok(inner),
        None => Err(
            Error::BadLengthError {
                name: "Ciphertext",
                actual: bytes.len(),
                expected: BYTES_CCA_DEC,
            },
        ),
    }
}

/// The public key for the matrix `a` of seed `seed` and the secret `s`: the
/// product `a s`, rounded and packed, and after it the seed.
pub open spec fn public_key_of(a: Seq<Seq<Seq<u16>>>, s: Seq<Seq<u16>>, seed: Seq<u8>) -> Seq<u8> {
    pack_vector(round_vector(matrix_mul(a, s)), P_BITS as int) + seed
}

/// The secret key for the secret `s`.
pub open spec fn secret_key_of(s: Seq<Seq<u16>>) -> Seq<u8> {
    pack_vector(s, Q_BITS as int)
}

/// The ciphertext of `message` under the matrix `a`, the vector `b` of the
/// public key and the fresh secret `s`: the product of the transpose of `a`
/// and `s`, rounded and packed, and after it the reconciliation data of
/// `b . s` with the message added at bit 9 of every coefficient.
pub open spec fn ciphertext_of(
    message: Seq<u8>,
    a: Seq<Seq<Seq<u16>>>,
    s: Seq<Seq<u16>>,
    b: Seq<Seq<u16>>,
) -> Seq<u8> {
    pack_vector(round_vector(matrix_mul_transpose(a, s)), P_BITS as int) + recon_data(
        poly_add(poly_shl(message_poly(message), MSG2POL_CONST), inner_product(b, s)),
    )
}

/// The plaintext that the secret `s` reads from the vector `b` of a
/// ciphertext and its reconciliation data `rec`.
pub open spec fn plaintext_of(s: Seq<Seq<u16>>, b: Seq<Seq<u16>>, rec: Seq<u8>) -> Seq<u8> {
    poly_message(recon_bits(inner_product(b, s), rec))
}

/// The key pair for the matrix `a`, expanded from `seed`, and the secret `s`.
pub fn keypair_with(a: &Matrix, s: &Vector, seed: &[u8; SEEDBYTES]) -> (keys: (
    PublicKey,
    SecretKey,
))
    ensures
        keys.0@ == public_key_of(a@, s@, seed@),
        keys.1@ == secret_key_of(s@),
{
    let product = a.mul(*s);
    let rounded = (product + 4) >> 3;
    let sk_bytes = s.pack_full();
    let pk_bytes = rounded.pack_compressed();
    let mut sk = SecretKey([0u8; SECRETKEYBYTES]);
    let mut pk = PublicKey([0u8; PUBLICKEYBYTES]);
    copy_into(&mut sk.0, 0, sk_bytes.as_slice());
    copy_into(&mut pk.0, 0, pk_bytes.as_slice());
    copy_into(&mut pk.0, POLYVECCOMPRESSEDBYTES, seed.as_slice());
    proof {
        assert(sk@ =~= secret_key_of(s@));
        assert(pk@ =~= public_key_of(a@, s@, seed@));
    }
    (pk, sk)
}

/// The key pair of the two seeds: `seed` is expanded into the matrix,
/// `noiseseed` into the secret.
pub fn keypair_from_seeds(seed: &[u8; SEEDBYTES], noiseseed: &[u8; NOISE_SEEDBYTES]) -> (keys: (
    PublicKey,
    SecretKey,
))
    ensures
        keys.0@ == public_key_of(
            matrix_of_stream(shake128(seed@, MATRIX_STREAM_BYTES as nat)),
            secret_of_stream(shake128(noiseseed@, SECRET_STREAM_BYTES as nat)),
            seed@,
        ),
        keys.1@ == secret_key_of(
            secret_of_stream(shake128(noiseseed@, SECRET_STREAM_BYTES as nat)),
        ),
{
    let a = gen_matrix(seed);
    let s = gen_secret(noiseseed);
    keypair_with(&a, &s, seed)
}

/// A fresh key pair, from two seeds drawn at random: whatever was drawn, the
/// pair is the one that `keypair_from_seeds` gives for it, and the public key
/// ends with the seed of the matrix.
pub fn indcpa_kem_keypair() -> (keys: (PublicKey, SecretKey))
    ensures
        exists|noiseseed: Seq<u8>|
            noiseseed.len() == NOISE_SEEDBYTES && keys.0@ == #[trigger] public_key_of(
                matrix_of_stream(shake128(keys.0.seed(), MATRIX_STREAM_BYTES as nat)),
                secret_of_stream(shake128(noiseseed, SECRET_STREAM_BYTES as nat)),
                keys.0.seed(),
            ) && keys.1@ == secret_key_of(
                secret_of_stream(shake128(noiseseed, SECRET_STREAM_BYTES as nat)),
            ),
{
    let seed = random_seed();
    let noiseseed = random_seed();
    let keys = keypair_from_seeds(&seed, &noiseseed);
    proof {
        assert(keys.0.seed() =~= seed@);
        assert(keys.0@ == public_key_of(
            matrix_of_stream(shake128(keys.0.seed(), MATRIX_STREAM_BYTES as nat)),
            secret_of_stream(shake128(noiseseed@, SECRET_STREAM_BYTES as nat)),
            keys.0.seed(),
        ));
    }
    keys
}

/// Encrypts `message_received` to the holder of the public vector `b`, under
/// the matrix `a` and the fresh secret `s`.
pub fn encrypt_with(message_received: &[u8; KEYBYTES], a: &Matrix, s: &Vector, b: &Vector) -> (ct:
    [u8; BYTES_CCA_DEC])
    ensures
        ct@ == ciphertext_of(message_received@, a@, s@, b@),
{
    let product = a.mul_transpose(*s);
    let rounded = (product + 4) >> 3;
    let ct_bytes = rounded.pack_compressed();
    let pol_p = *b * *s;
    let m_p = (msg2pol(message_received) << MSG2POL_CONST) + pol_p;
    let rec = recon_data_gen(&m_p);
    let mut ciphertext = [0u8; BYTES_CCA_DEC];
    copy_into(&mut ciphertext, 0, ct_bytes.as_slice());
    copy_into(&mut ciphertext, POLYVECCOMPRESSEDBYTES, rec.as_slice());
    proof {
        assert(ciphertext@ =~= ciphertext_of(message_received@, a@, s@, b@));
    }
    ciphertext
}

/// Encrypts `message_received` under the public key `pk`, with the secret
/// that `noiseseed` expands to.
pub fn indcpa_kem_enc(
    message_received: &[u8; KEYBYTES],
    noiseseed: &[u8; NOISE_SEEDBYTES],
    pk: &PublicKey,
) -> (ct: [u8; BYTES_CCA_DEC])
    ensures
        ct@ == ciphertext_of(
            message_received@,
            matrix_of_stream(shake128(pk.seed(), MATRIX_STREAM_BYTES as nat)),
            secret_of_stream(shake128(noiseseed@, SECRET_STREAM_BYTES as nat)),
            unpack_vector(pk.vector_bytes(), P_BITS as int),
        ),
{
    let bytes = pk.0.as_slice();
    let seed_bytes = slice_subrange(bytes, POLYVECCOMPRESSEDBYTES, PUBLICKEYBYTES);
    let seed = array_of::<SEEDBYTES>(seed_bytes).unwrap();
    let a = gen_matrix(&seed);
    let sk_vec = gen_secret(noiseseed);
    let v1_vec = Vector::unpack(slice_subrange(bytes, 0, POLYVECCOMPRESSEDBYTES), P_BITS);
    encrypt_with(message_received, &a, &sk_vec, &v1_vec)
}

/// Decrypts `ciphertext` with the secret key `sk`.
pub fn indcpa_kem_dec(sk: &SecretKey, ciphertext: &[u8; BYTES_CCA_DEC]) -> (message: [u8;
    MESSAGEBYTES])
    ensures
        message@ == plaintext_of(
            unpack_vector(sk@, Q_BITS as int),
            unpack_vector(ciphertext@.subrange(0, POLYVECCOMPRESSEDBYTES as int), P_BITS as int),
            ciphertext@.subrange(POLYVECCOMPRESSEDBYTES as int, BYTES_CCA_DEC as int),
        ),
{
    let bytes = ciphertext.as_slice();
    let rec_bytes = slice_subrange(bytes, POLYVECCOMPRESSEDBYTES, BYTES_CCA_DEC);
    let rec = array_of::<RECONBYTES_KEM>(rec_bytes).unwrap();
    let sk_vec = Vector::unpack(sk.0.as_slice(), Q_BITS);
    let b_vec = Vector::unpack(slice_subrange(bytes, 0, POLYVECCOMPRESSEDBYTES), P_BITS);
    let v1 = b_vec * sk_vec;
    let message_dec_unpacked = recon(&v1, &rec);
    pol2msg(&message_dec_unpacked)
}

/// `v` has the shape of a vector: `K` elements of `N` coefficients.
pub open spec fn is_vector(v: Seq<Seq<u16>>) -> bool {
    v.len() == K && forall|i: int| 0 <= i < K ==> (#[trigger] v[i]).len() == N
}

/// Every coefficient of the vector `v` is below `2^w`.
pub open spec fn vector_below(v: Seq<Seq<u16>>, w: int) -> bool {
    forall|i: int| 0 <= i < K ==> coeffs_below(#[trigger] v[i], w)
}

/// The packed form of a vector is that of its three elements, one after the
/// other, each `packed_len(w)` bytes long.
pub proof fn lemma_pack_vector_slots(v: Seq<Seq<u16>>, w: int)
    requires
        1 <= w <= 16,
        is_vector(v),
    ensures
        pack_vector(v, w).len() == 3 * packed_len(w),
        forall|i: int|
            0 <= i < K ==> #[trigger] pack_vector(v, w).subrange(
                i * packed_len(w),
                (i + 1) * packed_len(w),
            ) == pack_spec(v[i], w),
{
    let each = packed_len(w);
    let p0 = pack_spec(v[0], w);
    let p1 = pack_spec(v[1], w);
    let p2 = pack_spec(v[2], w);
    assert(v[0].len() == N && v[1].len() == N && v[2].len() == N);
    assert forall|i: int| 0 <= i < K implies (#[trigger] pack_spec(v[i], w)).len() == each by {
        assert(v[i].len() * w == 256 * w) by (nonlinear_arith)
            requires
                v[i].len() == 256,
        ;
    }
    assert(p0.len() == each && p1.len() == each && p2.len() == each);
    reveal_with_fuel(packed_elements, 4);
    let all = pack_vector(v, w);
    assert(all =~= p0 + p1 + p2);
    assert(all.subrange(0 * each, (0 + 1) * each) =~= p0);
    assert(all.subrange(1 * each, (1 + 1) * each) =~= p1);
    assert(all.subrange(2 * each, (2 + 1) * each) =~= p2);
    assert forall|i: int| 0 <= i < K implies #[trigger] all.subrange(i * each, (i + 1) * each)
        == pack_spec(v[i], w) by {
        assert(i == 0 || i == 1 || i == 2);
    }
}

/// Unpacking undoes packing: a vector whose coefficients are below `2^w`
/// comes back from its packed form as it was. With `w = 10` this is the
/// rounded width, with `w = 13` the full one.
pub proof fn lemma_unpack_pack_vector(v: Seq<Seq<u16>>, w: int)
    requires
        1 <= w <= 16,
        is_vector(v),
        vector_below(v, w),
    ensures
        unpack_vector(pack_vector(v, w), w) == v,
{
    lemma_pack_vector_slots(v, w);
    let all = pack_vector(v, w);
    assert forall|i: int| 0 <= i < K implies unpack_vector(all, w)[i] == v[i] by {
        assert(all.subrange(i * packed_len(w), (i + 1) * packed_len(w)) == pack_spec(v[i], w));
        assert(coeffs_below(v[i], w));
        lemma_unpack_pack(v[i], w);
    }
    assert(unpack_vector(all, w) =~= v);
}

/// The sizes fit: a public key is a rounded vector and a seed, a ciphertext
/// a rounded vector and the reconciliation data, a secret key a full vector.
pub proof fn lemma_sizes()
    ensures
        POLYVECCOMPRESSEDBYTES + SEEDBYTES == PUBLICKEYBYTES,
        CIPHERTEXTBYTES + RECONBYTES_KEM == BYTES_CCA_DEC,
        POLYVECBYTES == SECRETKEYBYTES,
        POLYVECCOMPRESSEDBYTES == K * packed_len(P_BITS as int),
        POLYVECBYTES == K * packed_len(Q_BITS as int),
        INDCPA_PUBKEYBYTES == PUBLICKEYBYTES,
        INDCPA_SECRETKEYBYTES == SECRETKEYBYTES,
{
}

/// Decryption undoes encryption where the two sides are close: let the
/// sender compute `b . s1` from the vector `b` of the public key and its
/// fresh secret `s1`, and the receiver `b1 . s` from the vector `b1` that the
/// ciphertext carries and its secret `s`. Where every coefficient of the
/// first is within 224 of that of the second, modulo `2^10`, the receiver
/// reads the message back.
pub proof fn lemma_decrypt_encrypt(
    message: Seq<u8>,
    a: Seq<Seq<Seq<u16>>>,
    s1: Seq<Seq<u16>>,
    b: Seq<Seq<u16>>,
    s: Seq<Seq<u16>>,
)
    requires
        message.len() == KEYBYTES,
        forall|i: int|
            0 <= i < N ==> recon_close(
                #[trigger] inner_product(b, s1)[i],
                inner_product(
                    unpack_vector(
                        pack_vector(round_vector(matrix_mul_transpose(a, s1)), P_BITS as int),
                        P_BITS as int,
                    ),
                    s,
                )[i],
            ),
    ensures
        plaintext_of(
            s,
            unpack_vector(
                ciphertext_of(message, a, s1, b).subrange(0, POLYVECCOMPRESSEDBYTES as int),
                P_BITS as int,
            ),
            ciphertext_of(message, a, s1, b).subrange(
                POLYVECCOMPRESSEDBYTES as int,
                BYTES_CCA_DEC as int,
            ),
        ) == message,
{
    let sent = round_vector(matrix_mul_transpose(a, s1));
    let packed = pack_vector(sent, P_BITS as int);
    let vp = inner_product(b, s1);
    let rec = recon_data(poly_add(poly_shl(message_poly(message), MSG2POL_CONST), vp));
    let ct = ciphertext_of(message, a, s1, b);
    let v = inner_product(unpack_vector(packed, P_BITS as int), s);
    assert(is_vector(sent));
    lemma_pack_vector_slots(sent, P_BITS as int);
    assert(ct == packed + rec);
    assert(rec.len() == RECONBYTES_KEM);
    assert(ct.subrange(0, POLYVECCOMPRESSEDBYTES as int) =~= packed);
    assert(ct.subrange(POLYVECCOMPRESSEDBYTES as int, BYTES_CCA_DEC as int) =~= rec);
    reveal_with_fuel(inner_sum, 4);
    lemma_recon_recovers(message, vp, v);
}

} // verus!
