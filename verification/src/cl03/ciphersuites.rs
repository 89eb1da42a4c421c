//! The CL03 ciphersuites.
use crate::hash::{sha256_digest, spec_sha256};
use crate::schemes::algorithms::Ciphersuite;
use vstd::prelude::*;

verus! {

/// A CL03 ciphersuite: the bit length of its modulus and its hash.
pub trait CLCiphersuite {
    /// The bit length `ln` of the modulus, which also bounds the random
    /// values of the proofs.
    spec fn spec_ln() -> nat;

    fn ln() -> (r: u32)
        ensures
            r == Self::spec_ln(),
    ;

    /// What `digest` returns.
    spec fn spec_digest(data: Seq<u8>) -> Seq<u8>;

    /// The digest of `data` with the hash of the ciphersuite.
    fn digest(data: &[u8]) -> (r: Vec<u8>)
        ensures
            r@ == Self::spec_digest(data@),
    ;
}

/// CL03 with a 1024-bit modulus and SHA-256.
pub struct CL1024Sha256;

impl CLCiphersuite for CL1024Sha256 {
    open spec fn spec_ln() -> nat {
        1024
    }

    fn ln() -> (r: u32) {
        1024
    }

    open spec fn spec_digest(data: Seq<u8>) -> Seq<u8> {
        spec_sha256(data)
    }

    fn digest(data: &[u8]) -> (r: Vec<u8>) {
        sha256_digest(data)
    }
}

impl Ciphersuite for CL1024Sha256 {
}

} // verus!
