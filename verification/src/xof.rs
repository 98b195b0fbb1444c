//! The two outside sources of bytes: the SHAKE-128 extendable-output function
//! and the random number generator.

use vstd::prelude::*;
use sha3::digest::{ExtendableOutput, Input};

verus! {

/// The first `len` bytes of the output stream of SHAKE-128 on the input `seed`.
pub uninterp spec fn shake128(seed: Seq<u8>, len: nat) -> Seq<u8>;

/// Absorbs `seed` into a fresh `sha3::Shake128` (`Input::input`) and squeezes
/// the first `len` bytes of its output (`ExtendableOutput::vec_result`, which
/// finishes the sponge and reads `len` bytes from its reader into a new
/// vector). The contract claims that these bytes depend on `seed` and `len`
/// alone, and that there are `len` of them; what they are is not stated. A
/// vector cannot be longer than `isize::MAX`.
#[verifier::external_body]
pub(crate) fn shake128_xof(seed: &[u8], len: usize) -> (out: Vec<u8>)
    requires
        len <= isize::MAX,
    ensures
        out@ == shake128(seed@, len as nat),
        out@.len() == len,
{
    let mut hasher = sha3::Shake128::default();
    hasher.input(seed);
    hasher.vec_result(len)
}

/// Draws 32 bytes from `rand::random`, the thread-local generator of the
/// `rand` crate, which the operating system seeds. Nothing is claimed of the
/// bytes drawn.
#[verifier::external_body]
pub(crate) fn random_seed() -> (out: [u8; 32]) {
    rand::random::<[u8; 32]>()
}

} // verus!
