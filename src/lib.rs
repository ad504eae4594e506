//! A fixed-point number on the unit circle `R/Z`, kept as a 32-bit unsigned
//! integer that counts steps of `2^-32`, with exact wraparound arithmetic,
//! exact conversions from and to binary64 reals, and uniform sampling.

pub mod binary64;
mod sample;
pub mod torus;

pub use binary64::TorusError;
pub use torus::Torus;
