//! CL03: ciphersuites, keys, messages and commitments over an RSA modulus.
pub mod ciphersuites;
pub mod commitment;
pub mod keys;
pub mod message;
