//! Curves, transcripts and commitment schemes.
pub mod arithmetic;
pub mod bn256;
pub mod bn256_laws;
pub mod keccak;
pub mod keccak_laws;
pub mod kzg;
pub mod kzg_calls;
pub mod mlkzg;
pub mod mlkzg_calls;
pub mod mlkzg_laws;
pub mod pedersen;
pub mod pedersen_calls;
pub mod pedersen_laws;
pub mod univariate;
