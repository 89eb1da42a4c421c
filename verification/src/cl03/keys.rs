//! CL03 public keys.
use crate::integer::Integer;
use vstd::prelude::*;

verus! {

/// A CL03 signer's public key: the modulus `N` and the bases `a_i`, `b`, `c`.
pub struct CL03PublicKey {
    pub n: Integer,
    pub a_bases: Vec<Integer>,
    pub b: Integer,
    pub c: Integer,
}

/// A public key for commitments: the modulus `N` and the bases `g_i`, `h`.
pub struct CL03CommitmentPublicKey {
    pub n: Integer,
    pub g_bases: Vec<Integer>,
    pub h: Integer,
}

} // verus!
