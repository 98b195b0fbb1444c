//! Ring elements: polynomials of degree below `N` with `u16` coefficients,
//! added and multiplied modulo `X^N + 1` and modulo `2^16`.
//!
//! The moduli of the scheme, `q = 2^13` and `p = 2^10`, divide `2^16`, so that
//! arithmetic modulo `2^16` followed by a reduction gives what arithmetic
//! modulo `q` or `p` gives. An element does not record the modulus under which
//! it is read.

use vstd::prelude::*;
use vstd::arithmetic::power2::pow2;
use crate::codec::{pack_poly, pack_spec, unpack_poly, unpack_spec};
use crate::error::Error;
use crate::params::{N, POLYBYTES, Q_BITS};

verus! {

/// An element of `Z_{2^16}[X] / (X^N + 1)`, lowest coefficient first.
#[derive(Clone, Copy, Debug)]
pub struct Poly {
    pub coeffs: [u16; N],
}

impl View for Poly {
    type V = Seq<u16>;

    open spec fn view(&self) -> Seq<u16> {
        self.coeffs@
    }
}

/// `x` reduced modulo `2^16`.
pub open spec fn wrap16(x: int) -> u16 {
    (x % 0x1_0000) as u16
}

/// The zero element.
pub open spec fn poly_zero() -> Seq<u16> {
    Seq::new(N as nat, |i: int| 0u16)
}

/// Coefficient-wise sum.
pub open spec fn poly_add(a: Seq<u16>, b: Seq<u16>) -> Seq<u16> {
    Seq::new(N as nat, |i: int| wrap16(a[i] + b[i]))
}

/// Coefficient-wise difference.
pub open spec fn poly_sub(a: Seq<u16>, b: Seq<u16>) -> Seq<u16> {
    Seq::new(N as nat, |i: int| wrap16(a[i] - b[i]))
}

/// `k` added to every coefficient.
pub open spec fn poly_add_scalar(a: Seq<u16>, k: u16) -> Seq<u16> {
    Seq::new(N as nat, |i: int| wrap16(a[i] + k))
}

/// Every coefficient divided by `2^r`, rounding down.
pub open spec fn poly_shr(a: Seq<u16>, r: u8) -> Seq<u16> {
    Seq::new(N as nat, |i: int| (a[i] as int / pow2(r as nat) as int) as u16)
}

/// Every coefficient multiplied by `2^r`.
pub open spec fn poly_shl(a: Seq<u16>, r: u8) -> Seq<u16> {
    Seq::new(N as nat, |i: int| wrap16(a[i] as int * pow2(r as nat)))
}

/// What `a[i]` adds to coefficient `k` of the product `a b` modulo `X^N + 1`:
/// `a[i] b[k - i]` where `i <= k`, and `-a[i] b[k + N - i]` where the degrees
/// `i` and `k + N - i` add up to `k + N`, since `X^N = -1`.
pub open spec fn negacyclic_term(a: Seq<u16>, b: Seq<u16>, k: int, i: int) -> int {
    if i <= k {
        a[i] * b[k - i]
    } else {
        -(a[i] * b[k + N - i])
    }
}

/// The sum of `negacyclic_term(a, b, k, i)` over `i` below `n`.
pub open spec fn negacyclic_sum(a: Seq<u16>, b: Seq<u16>, k: int, n: nat) -> int
    decreases n,
{
    if n == 0 {
        0
    } else {
        negacyclic_sum(a, b, k, (n - 1) as nat) + negacyclic_term(a, b, k, n - 1)
    }
}

/// The product modulo `X^N + 1`.
pub open spec fn poly_mul(a: Seq<u16>, b: Seq<u16>) -> Seq<u16> {
    Seq::new(N as nat, |k: int| wrap16(negacyclic_sum(a, b, k, N as nat)))
}

impl Poly {
    /// The ring element whose coefficients are `s`.
    pub open spec fn of(s: Seq<u16>) -> Poly {
        choose|p: Poly| p@ == s
    }

    /// A ring element is determined by its coefficients.
    pub proof fn lemma_of_view(self)
        ensures
            Poly::of(self@) == self,
    {
        let q = Poly::of(self@);
        assert(q@ == self@);
        assert(q.coeffs =~= self.coeffs);
    }

    /// Decodes a ring element packed at the full width of 13 bits per
    /// coefficient. Fails on a buffer of any other length than `POLYBYTES`.
    pub fn from_bytes(bytes: &[u8]) -> (r: Result<Poly, Error>)
        ensures
            bytes@.len() == POLYBYTES ==> r is Ok && r->Ok_0@ == unpack_spec(
                bytes@,
                Q_BITS as int,
                N as nat,
            ),
            bytes@.len() != POLYBYTES ==> r == Err::<Poly, Error>(
                (Error::BadLengthError { name: "Poly", actual: bytes.len(), expected: POLYBYTES }),
            ),
    {
        if bytes.len() != POLYBYTES {
            return Err(
                Error::BadLengthError { name: "Poly", actual: bytes.len(), expected: POLYBYTES },
            );
        }
        assert(POLYBYTES == 416 && Q_BITS == 13);
        assert(bytes@.subrange(0, 416) =~= bytes@);
        let p = unpack_poly(bytes, 0, Q_BITS);
        Ok(p)
    }

    /// Packs the low 13 bits of every coefficient.
    pub fn to_bytes(&self) -> (out: Vec<u8>)
        ensures
            out@ == pack_spec(self@, Q_BITS as int),
            out@.len() == POLYBYTES,
    {
        let mut out: Vec<u8> = Vec::new();
        pack_poly(self, Q_BITS, &mut out);
        proof {
            assert(out@ =~= pack_spec(self@, Q_BITS as int));
        }
        out
    }
}

impl Default for Poly {
    fn default() -> (r: Poly)
        ensures
            r@ == poly_zero(),
    {
        let r = Poly { coeffs: [0u16; N] };
        proof {
            assert(r@ =~= poly_zero());
        }
        r
    }
}

impl core::ops::Add<Poly> for Poly {
    type Output = Poly;

    fn add(self, rhs: Poly) -> (r: Poly)
        ensures
            r@ == poly_add(self@, rhs@),
    {
        let mut coeffs = self.coeffs;
        for i in 0..N
            invariant
                forall|j: int| 0 <= j < i ==> coeffs@[j] == poly_add(self@, rhs@)[j],
                forall|j: int| i <= j < N ==> coeffs@[j] == self@[j],
        {
            coeffs[i] = coeffs[i].wrapping_add(rhs.coeffs[i]);
        }
        let r = Poly { coeffs };
        proof {
            assert(r@ =~= poly_add(self@, rhs@));
            r.lemma_of_view();
        }
        r
    }
}

impl vstd::std_specs::ops::AddSpecImpl<Poly> for Poly {
    open spec fn obeys_add_spec() -> bool {
        true
    }

    open spec fn add_req(self, rhs: Poly) -> bool {
        true
    }

    open spec fn add_spec(self, rhs: Poly) -> Poly {
        Poly::of(poly_add(self@, rhs@))
    }
}

impl core::ops::Add<u16> for Poly {
    type Output = Poly;

    fn add(self, rhs: u16) -> (r: Poly)
        ensures
            r@ == poly_add_scalar(self@, rhs),
    {
        let mut coeffs = self.coeffs;
        for i in 0..N
            invariant
                forall|j: int| 0 <= j < i ==> coeffs@[j] == poly_add_scalar(self@, rhs)[j],
                forall|j: int| i <= j < N ==> coeffs@[j] == self@[j],
        {
            coeffs[i] = coeffs[i].wrapping_add(rhs);
        }
        let r = Poly { coeffs };
        proof {
            assert(r@ =~= poly_add_scalar(self@, rhs));
            r.lemma_of_view();
        }
        r
    }
}

impl vstd::std_specs::ops::AddSpecImpl<u16> for Poly {
    open spec fn obeys_add_spec() -> bool {
        true
    }

    open spec fn add_req(self, rhs: u16) -> bool {
        true
    }

    open spec fn add_spec(self, rhs: u16) -> Poly {
        Poly::of(poly_add_scalar(self@, rhs))
    }
}

impl core::ops::Sub<Poly> for Poly {
    type Output = Poly;

    fn sub(self, rhs: Poly) -> (r: Poly)
        ensures
            r@ == poly_sub(self@, rhs@),
    {
        let mut coeffs = self.coeffs;
        for i in 0..N
            invariant
                forall|j: int| 0 <= j < i ==> coeffs@[j] == poly_sub(self@, rhs@)[j],
                forall|j: int| i <= j < N ==> coeffs@[j] == self@[j],
        {
            coeffs[i] = coeffs[i].wrapping_sub(rhs.coeffs[i]);
        }
        let r = Poly { coeffs };
        proof {
            assert(r@ =~= poly_sub(self@, rhs@));
            r.lemma_of_view();
        }
        r
    }
}

impl vstd::std_specs::ops::SubSpecImpl<Poly> for Poly {
    open spec fn obeys_sub_spec() -> bool {
        true
    }

    open spec fn sub_req(self, rhs: Poly) -> bool {
        true
    }

    open spec fn sub_spec(self, rhs: Poly) -> Poly {
        Poly::of(poly_sub(self@, rhs@))
    }
}

impl core::ops::Mul<Poly> for Poly {
    type Output = Poly;

    /// Schoolbook multiplication modulo `X^N + 1`: coefficient `k` of the
    /// product gathers `a[i] b[j]` for `i + j == k`, and, negated, for
    /// `i + j == k + N`.
    fn mul(self, rhs: Poly) -> (r: Poly)
        ensures
            r@ == poly_mul(self@, rhs@),
    {
        let mut coeffs = [0u16; N];
        for k in 0..N
            invariant
                forall|j: int| 0 <= j < k ==> coeffs@[j] == poly_mul(self@, rhs@)[j],
        {
            let mut acc: u16 = 0;
            for i in 0..N
                invariant
                    k < N,
                    acc == wrap16(negacyclic_sum(self@, rhs@, k as int, i as nat)),
            {
                let ghost sum = negacyclic_sum(self@, rhs@, k as int, i as nat);
                if i <= k {
                    let prod = self.coeffs[i].wrapping_mul(rhs.coeffs[k - i]);
                    acc = acc.wrapping_add(prod);
                    proof {
                        let term = self@[i as int] * rhs@[k - i];
                        assert(prod as int == term % 0x1_0000);
                        vstd::arithmetic::div_mod::lemma_add_mod_noop(sum, term, 0x1_0000);
                    }
                } else {
                    let prod = self.coeffs[i].wrapping_mul(rhs.coeffs[k + N - i]);
                    acc = acc.wrapping_sub(prod);
                    proof {
                        let term = self@[i as int] * rhs@[k + N - i];
                        assert(prod as int == term % 0x1_0000);
                        vstd::arithmetic::div_mod::lemma_sub_mod_noop(sum, term, 0x1_0000);
                    }
                }
            }
            coeffs[k] = acc;
        }
        let r = Poly { coeffs };
        proof {
            assert(r@ =~= poly_mul(self@, rhs@));
            r.lemma_of_view();
        }
        r
    }
}

impl vstd::std_specs::ops::MulSpecImpl<Poly> for Poly {
    open spec fn obeys_mul_spec() -> bool {
        true
    }

    open spec fn mul_req(self, rhs: Poly) -> bool {
        true
    }

    open spec fn mul_spec(self, rhs: Poly) -> Poly {
        Poly::of(poly_mul(self@, rhs@))
    }
}

proof fn lemma_shr_u16(c: u16, r: u8)
    ensures
        r < 16 ==> (c >> r) as int == c as int / pow2(r as nat) as int,
        r >= 16 ==> c as int / pow2(r as nat) as int == 0,
{
    if r < 16 {
        vstd::bits::lemma_u16_shr_is_div(c, r as u16);
        assert(c >> r == c >> (r as u16)) by (bit_vector);
    } else {
        vstd::arithmetic::power2::lemma2_to64();
        if r > 16 {
            vstd::arithmetic::power2::lemma_pow2_strictly_increases(16, r as nat);
        }
        vstd::arithmetic::div_mod::lemma_basic_div(c as int, pow2(r as nat) as int);
    }
}

impl core::ops::Shr<u8> for Poly {
    type Output = Poly;

    fn shr(self, rhs: u8) -> (r: Poly)
        ensures
            r@ == poly_shr(self@, rhs),
    {
        let mut coeffs = self.coeffs;
        for i in 0..N
            invariant
                forall|j: int| 0 <= j < i ==> coeffs@[j] == poly_shr(self@, rhs)[j],
                forall|j: int| i <= j < N ==> coeffs@[j] == self@[j],
        {
            proof {
                lemma_shr_u16(coeffs[i as int], rhs);
            }
            coeffs[i] = if rhs < 16 {
                coeffs[i] >> rhs
            } else {
                0
            };
        }
        let r = Poly { coeffs };
        proof {
            assert(r@ =~= poly_shr(self@, rhs));
            r.lemma_of_view();
        }
        r
    }
}

impl vstd::std_specs::ops::ShrSpecImpl<u8> for Poly {
    open spec fn obeys_shr_spec() -> bool {
        true
    }

    open spec fn shr_req(self, rhs: u8) -> bool {
        true
    }

    open spec fn shr_spec(self, rhs: u8) -> Poly {
        Poly::of(poly_shr(self@, rhs))
    }
}

proof fn lemma_shl_widen(c: u16, r: u8)
    by (bit_vector)
    requires
        r < 16,
    ensures
        (c << r) as u64 == ((c as u64) << (r as u64)) & 0xffff,
        ((c as u64) << (r as u64)) <= 0x7fff_8000,
{
}

proof fn lemma_shl_u16(c: u16, r: u8)
    ensures
        r < 16 ==> (c << r) == wrap16(c as int * pow2(r as nat)),
        r >= 16 ==> wrap16(c as int * pow2(r as nat)) == 0,
{
    vstd::arithmetic::power2::lemma2_to64();
    if r < 16 {
        let wide = (c as u64) << (r as u64);
        lemma_shl_widen(c, r);
        vstd::arithmetic::power2::lemma_pow2_strictly_increases(r as nat, 16);
        assert(c as int * pow2(r as nat) <= 0xffff * 0x1_0000) by (nonlinear_arith)
            requires
                0 <= c <= 0xffff,
                0 <= pow2(r as nat) <= 0x1_0000,
        ;
        vstd::bits::lemma_u64_shl_is_mul(c as u64, r as u64);
        assert(wide & 0xffff == wide % 0x1_0000) by (bit_vector);
    } else {
        let k = (r - 16) as nat;
        vstd::arithmetic::power2::lemma_pow2_adds(16, k);
        assert(c as int * (0x1_0000 * pow2(k)) == (c as int * pow2(k)) * 0x1_0000)
            by (nonlinear_arith);
        vstd::arithmetic::div_mod::lemma_mod_multiples_basic(c as int * pow2(k), 0x1_0000);
    }
}

impl core::ops::Shl<u8> for Poly {
    type Output = Poly;

    fn shl(self, rhs: u8) -> (r: Poly)
        ensures
            r@ == poly_shl(self@, rhs),
    {
        let mut coeffs = self.coeffs;
        for i in 0..N
            invariant
                forall|j: int| 0 <= j < i ==> coeffs@[j] == poly_shl(self@, rhs)[j],
                forall|j: int| i <= j < N ==> coeffs@[j] == self@[j],
        {
            proof {
                lemma_shl_u16(coeffs[i as int], rhs);
            }
            coeffs[i] = if rhs < 16 {
                coeffs[i] << rhs
            } else {
                0
            };
        }
        let r = Poly { coeffs };
        proof {
            assert(r@ =~= poly_shl(self@, rhs));
            r.lemma_of_view();
        }
        r
    }
}

impl vstd::std_specs::ops::ShlSpecImpl<u8> for Poly {
    open spec fn obeys_shl_spec() -> bool {
        true
    }

    open spec fn shl_req(self, rhs: u8) -> bool {
        true
    }

    open spec fn shl_spec(self, rhs: u8) -> Poly {
        Poly::of(poly_shl(self@, rhs))
    }
}

} // verus!
