//! A commitment scheme for multilinear polynomials with evaluation proofs, and the Pedersen
//! commitments that go with it.
//!
//! A committed multilinear polynomial is shown to have a value at a point by reducing it to
//! univariate polynomials, which are opened with KZG ([`provider::mlkzg`]). The scheme runs
//! on any group with a pairing that implements [`traits::PairingEngine`];
//! [`provider::bn256`] is one. Contracts speak of group elements by their discrete
//! logarithms and of scalars by their values, both as integers modulo the order.
pub mod bytes;
pub mod errors;
pub mod modular;
pub mod multilinear_laws;
pub mod parafold;
pub mod polynomial;
pub mod polynomial_laws;
pub mod provider;
pub mod traits;
pub mod transcript_laws;
pub mod views;
