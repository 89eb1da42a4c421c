//! Signatures and proofs of knowledge of signatures.
pub mod cl03_proof;
pub mod proofs;
pub mod signature;
pub mod range_proof;
pub mod range_verify;
pub mod range_laws;
pub mod cl03_laws;
