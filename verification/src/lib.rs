//! Pedersen commitments over a safe-prime group.
//!
//! A commitment to a value `x` under randomness `r` is `g^x * h^r mod q`.
//! Commitments multiply to a commitment to the sum of their values, opened by
//! the sum of their randomness.
//!
//! - `natural`: non-negative integers of arbitrary size, as big-endian bytes.
//! - `backend`: the arithmetic on them, done by OpenSSL.
//! - `commitment`: the parameters and `commit`, `open` and `add`.
//! - `algebra`: what is proved of the scheme for every parameter set.
//! - `error`: the ways in which an operation can fail.

pub mod algebra;
pub mod backend;
pub mod commitment;
pub mod error;
pub mod natural;
