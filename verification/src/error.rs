//! The ways in which an operation of this crate can fail.

use vstd::prelude::*;

verus! {

/// Why an operation failed. An opening that does not match is not a failure:
/// `open` then returns `Ok(false)`.
#[derive(Clone, Copy, Debug, PartialEq, Eq, Structural)]
pub enum CommitmentError {
    /// The secure random source gave no number.
    RandomnessError,
    /// A primality test could not be carried out.
    PrimalityError,
    /// No safe prime was found within the attempts allowed.
    GenerationExhausted,
    /// A number was malformed, or the arithmetic backend would not take it.
    EncodingError,
}

} // verus!
