//! Work oracles of the auxiliary chains.

pub mod pix;
pub mod primes;
pub mod primex;
