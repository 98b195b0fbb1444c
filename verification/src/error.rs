//! The one way in which decoding can fail.

use vstd::prelude::*;

verus! {

/// Failure to decode a byte buffer into a fixed-size structure.
#[derive(Debug, Clone, Copy, PartialEq, Eq)]
pub enum Error {
    /// The buffer does not have the exact length of the structure `name`.
    BadLengthError { name: &'static str, actual: usize, expected: usize },
}

} // verus!
