//! Signatures that proofs of knowledge are made for.
use crate::curve::{G1Point, Scalar};
use crate::integer::Integer;
use vstd::prelude::*;

verus! {

/// A BBS+ signature `(A, e, s)`.
pub struct BBSplusSignature {
    pub a: G1Point,
    pub e: Scalar,
    pub s: Scalar,
}

impl BBSplusSignature {
    pub open spec fn wf(&self) -> bool {
        self.a.wf() && self.e.wf() && self.s.wf()
    }

    /// Whether `A` decodes to a point of G1 and `e`, `s` are canonical.
    pub fn is_well_formed(&self) -> (r: bool)
        ensures
            r == self.wf(),
    {
        self.a.is_well_formed() && self.e.is_well_formed() && self.s.is_well_formed()
    }
}

/// A CL03 signature `(e, s, v)` with `v^e = a_1^m_1 ... a_k^m_k * b^s * c`
/// modulo `N`.
pub struct CL03Signature {
    pub e: Integer,
    pub s: Integer,
    pub v: Integer,
}

} // verus!
