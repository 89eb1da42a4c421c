//! BBS+ public keys.
use crate::curve::{spec_g2_decodes, G2Point};
use vstd::prelude::*;

verus! {

/// A BBS+ public key: a point of G2.
pub struct BBSplusPublicKey(pub G2Point);

impl BBSplusPublicKey {
    pub open spec fn wf(&self) -> bool {
        self.0.wf()
    }

    /// The key that `bytes` encode compressed, when they decode to a point
    /// of G2.
    pub fn from_bytes(bytes: [u8; 96]) -> (r: Option<BBSplusPublicKey>)
        ensures
            r is Some <==> spec_g2_decodes(bytes@),
            r matches Some(k) ==> k.0.bytes == bytes,
    {
        match G2Point::from_bytes(bytes) {
            Some(p) => Some(BBSplusPublicKey(p)),
            None => None,
        }
    }

    /// Whether the key decodes to a point of G2.
    pub fn is_well_formed(&self) -> (r: bool)
        ensures
            r == self.wf(),
    {
        self.0.is_well_formed()
    }

    /// The compressed encoding of the key.
    pub fn to_bytes(&self) -> (r: Vec<u8>)
        ensures
            r@ == self.0.bytes@,
    {
        let mut v = Vec::new();
        let mut i: usize = 0;
        while i < 96
            invariant
                i <= 96,
                v@ == self.0.bytes@.subrange(0, i as int),
            decreases 96 - i,
        {
            v.push(self.0.bytes[i]);
            assert(self.0.bytes@.subrange(0, i + 1) == self.0.bytes@.subrange(0, i as int).push(
                self.0.bytes@[i as int],
            ));
            i = i + 1;
        }
        assert(self.0.bytes@.subrange(0, 96) == self.0.bytes@);
        v
    }
}

} // verus!
