//! Recursive arguments over a cycle of curves.
pub mod prover;
