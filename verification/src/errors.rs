//! The errors that the library reports.
use vstd::prelude::*;

verus! {

/// Why an operation of the library failed.
#[derive(Clone, Copy, Debug, PartialEq, Eq, Structural)]
pub enum NovaError {
    /// The claimed evaluation is not the value of the polynomial.
    UnSat,
    /// An evaluation argument does not verify.
    ProofVerifyError,
    /// Bytes do not decode to a group element.
    DecompressionError,
    /// A transcript has given out all the challenges that it can.
    InternalTranscriptError,
}

} // verus!
