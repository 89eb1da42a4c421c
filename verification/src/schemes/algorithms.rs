//! The signature schemes, each parameterised by a ciphersuite.
use crate::bbsplus::ciphersuites::{BbsCiphersuite, Bls12381Sha256, Bls12381Shake256};
use crate::cl03::ciphersuites::{CL1024Sha256, CLCiphersuite};
use core::marker::PhantomData;
use vstd::prelude::*;

verus! {

/// BBS+ over the ciphersuite `CS`.
pub struct BBSplus<CS: BbsCiphersuite>(pub PhantomData<CS>);

/// CL03 over the ciphersuite `CS`.
pub struct CL03<CS: CLCiphersuite>(pub PhantomData<CS>);

/// BBS+ over BLS12-381 with SHAKE-256.
#[allow(non_camel_case_types)]
pub type BBS_BLS12381_SHAKE256 = BBSplus<Bls12381Shake256>;

/// BBS+ over BLS12-381 with SHA-256.
#[allow(non_camel_case_types)]
pub type BBS_BLS12381_SHA256 = BBSplus<Bls12381Sha256>;

/// CL03 with a 1024-bit modulus and SHA-256.
#[allow(non_camel_case_types)]
pub type CL03_CL1024_SHA256 = CL03<CL1024Sha256>;

/// A ciphersuite.
pub trait Ciphersuite {
}

impl Ciphersuite for Bls12381Sha256 {
}

impl Ciphersuite for Bls12381Shake256 {
}

/// A signature scheme and the ciphersuite it runs over.
pub trait Scheme {
    type Ciphersuite: Ciphersuite;
}

impl<CS: BbsCiphersuite + Ciphersuite> Scheme for BBSplus<CS> {
    type Ciphersuite = CS;
}

impl<CS: CLCiphersuite + Ciphersuite> Scheme for CL03<CS> {
    type Ciphersuite = CS;
}

} // verus!
