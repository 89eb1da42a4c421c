//! BBS+ over BLS12-381: ciphersuites, keys, messages and generators.
pub mod ciphersuites;
pub mod generators;
pub mod keys;
pub mod message;
