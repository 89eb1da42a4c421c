//! Hash functions that challenges are computed with.
use sha2::Digest;
use vstd::prelude::*;

verus! {

/// `<sha2::Sha256 as digest::Digest>::digest(data)`.
pub uninterp spec fn spec_sha256(data: Seq<u8>) -> Seq<u8>;

/// `Sha256::digest`: the 32-byte SHA-256 digest of `data`.
#[verifier::external_body]
pub(crate) fn sha256_digest(data: &[u8]) -> (r: Vec<u8>)
    ensures
        r@ == spec_sha256(data@),
        r@.len() == 32,
{
    sha2::Sha256::digest(data).to_vec()
}

/// A hash function.
pub trait HashAlgorithm {
    /// What `digest` returns.
    spec fn spec_digest(data: Seq<u8>) -> Seq<u8>;

    /// The digest of `data`.
    fn digest(data: &[u8]) -> (r: Vec<u8>)
        ensures
            r@ == Self::spec_digest(data@),
    ;
}

/// SHA-256.
pub struct Sha256;

impl HashAlgorithm for Sha256 {
    open spec fn spec_digest(data: Seq<u8>) -> Seq<u8> {
        spec_sha256(data)
    }

    fn digest(data: &[u8]) -> (r: Vec<u8>) {
        sha256_digest(data)
    }
}

} // verus!
