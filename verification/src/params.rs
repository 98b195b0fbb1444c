//! Fixed parameters of the scheme.

use vstd::prelude::*;

verus! {

/// Degree of the ring `Z[X] / (X^N + 1)`.
pub const N: usize = 256;

/// Bit length of the full modulus `q = 2^13`.
pub const Q_BITS: usize = 13;

/// Bit length of the rounding modulus `p = 2^10`.
pub const P_BITS: usize = 10;

/// Length of the seed from which the public matrix is expanded.
pub const SEEDBYTES: usize = 32;

/// Length of the seed from which a secret vector is sampled.
pub const NOISE_SEEDBYTES: usize = 32;

/// Length of the randomness drawn for one secret at key generation.
pub const COINBYTES: usize = 32;

/// Length of a plaintext.
pub const KEYBYTES: usize = 32;

/// Length of one ring element packed at full width.
pub const POLYBYTES: usize = Q_BITS * N / 8;

} // verus!
