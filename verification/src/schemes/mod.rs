//! Signature schemes and their ciphersuites.
pub mod algorithms;
