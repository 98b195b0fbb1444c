//! IND-CPA public-key encryption over the module-LWR ring
//! `Z_q[X] / (X^N + 1)` with rounding and reconciliation.

pub mod params;
pub mod error;
pub mod bits;
pub mod poly;
pub mod codec;
pub mod xof;
pub mod saber;
pub mod sampler;
pub mod recon;
