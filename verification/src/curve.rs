//! BLS12-381 values as plain data, and the calls into `bls12_381_plus` and
//! `elliptic_curve::hash2curve` that compute on them.
//!
//! A scalar is held as its canonical 32-byte big-endian encoding, a point of
//! G1 (G2) as its 48-byte (96-byte) compressed encoding. Compressed encodings
//! are canonical: two points are equal exactly when their encodings are, so
//! equality of points is equality of these byte strings.
use crate::bytes::be_to_nat;
use bls12_381_plus::group::{Curve, Group};
use elliptic_curve::hash2curve::{ExpandMsg, Expander};
use vstd::prelude::*;

verus! {

/// The order `r` of the BLS12-381 groups: scalars are integers modulo `r`.
pub open spec fn scalar_modulus() -> nat {
    0x73eda753299d7d483339d80809a1d80553bda402fffe5bfeffffffff00000001nat
}

/// An element of the scalar field, as its big-endian encoding.
pub struct Scalar {
    pub bytes: [u8; 32],
}

/// A point of G1, as its compressed encoding.
pub struct G1Point {
    pub bytes: [u8; 48],
}

/// A point of G2, as its compressed encoding.
pub struct G2Point {
    pub bytes: [u8; 96],
}

/// Whether `bls12_381_plus::G1Affine::from_compressed` accepts these bytes.
pub uninterp spec fn spec_g1_decodes(bytes: Seq<u8>) -> bool;

/// Whether `bls12_381_plus::G2Affine::from_compressed` accepts these bytes.
pub uninterp spec fn spec_g2_decodes(bytes: Seq<u8>) -> bool;

/// The compressed encoding of the sum of two G1 points (`G1Projective + G1Projective`).
pub uninterp spec fn spec_g1_add(a: Seq<u8>, b: Seq<u8>) -> Seq<u8>;

/// The compressed encoding of the opposite of a G1 point (`-G1Projective`).
pub uninterp spec fn spec_g1_neg(a: Seq<u8>) -> Seq<u8>;

/// The compressed encoding of `k * P` (`G1Projective * Scalar`).
pub uninterp spec fn spec_g1_mul(p: Seq<u8>, k: nat) -> Seq<u8>;

/// `G1Projective::hash::<ExpandMsgXmd<Sha256>>(msg, dst)`, compressed.
pub uninterp spec fn spec_hash_to_g1_xmd_sha256(msg: Seq<u8>, dst: Seq<u8>) -> Seq<u8>;

/// `G1Projective::hash::<ExpandMsgXof<Shake256>>(msg, dst)`, compressed.
pub uninterp spec fn spec_hash_to_g1_xof_shake256(msg: Seq<u8>, dst: Seq<u8>) -> Seq<u8>;

/// Whether `e(A', PK) * e(A_bar, -P2)` is the identity of GT, with `P2` the
/// generator of G2.
pub uninterp spec fn spec_pairing_check(a_prime: Seq<u8>, pk: Seq<u8>, a_bar: Seq<u8>) -> bool;

/// The compressed encoding of the identity of G1: the compression and
/// infinity flags, then zeros.
pub open spec fn g1_identity_encoding() -> Seq<u8> {
    Seq::new(48, |i: int| if i == 0 { 0xc0u8 } else { 0u8 })
}

impl Scalar {
    /// The integer this scalar stands for.
    pub open spec fn value(&self) -> nat {
        be_to_nat(self.bytes@)
    }

    /// The encoding is canonical: the value is below the modulus.
    pub open spec fn wf(&self) -> bool {
        self.value() < scalar_modulus()
    }
}

impl G1Point {
    pub open spec fn wf(&self) -> bool {
        spec_g1_decodes(self.bytes@)
    }
}

impl G2Point {
    pub open spec fn wf(&self) -> bool {
        spec_g2_decodes(self.bytes@)
    }
}

proof fn lemma_be_to_nat_injective(a: Seq<u8>, b: Seq<u8>)
    requires
        a.len() == b.len(),
        be_to_nat(a) == be_to_nat(b),
    ensures
        a == b,
    decreases a.len(),
{
    if a.len() > 0 {
        let qa = be_to_nat(a.drop_last());
        let qb = be_to_nat(b.drop_last());
        let ra = a.last() as int;
        let rb = b.last() as int;
        assert(qa == qb && ra == rb) by (nonlinear_arith)
            requires
                qa * 256 + ra == qb * 256 + rb,
                0 <= ra < 256,
                0 <= rb < 256,
                qa >= 0,
                qb >= 0,
        ;
        lemma_be_to_nat_injective(a.drop_last(), b.drop_last());
        assert(a =~= a.drop_last().push(a.last()));
        assert(b =~= b.drop_last().push(b.last()));
    }
}

/// Equal byte strings of one length have equal values, and conversely.
pub proof fn lemma_be_eq_iff(a: Seq<u8>, b: Seq<u8>)
    requires
        a.len() == b.len(),
    ensures
        (a == b) <==> (be_to_nat(a) == be_to_nat(b)),
{
    if be_to_nat(a) == be_to_nat(b) {
        lemma_be_to_nat_injective(a, b);
    }
}

/// A byte string has value zero exactly when all its bytes are zero.
pub proof fn lemma_be_zero(s: Seq<u8>)
    ensures
        (be_to_nat(s) == 0) <==> (forall|i: int| 0 <= i < s.len() ==> s[i] == 0),
    decreases s.len(),
{
    if s.len() > 0 {
        lemma_be_zero(s.drop_last());
        if be_to_nat(s) == 0 {
            assert(be_to_nat(s.drop_last()) == 0 && s.last() == 0) by (nonlinear_arith)
                requires
                    be_to_nat(s.drop_last()) * 256 + s.last() as nat == 0,
            ;
            assert forall|i: int| 0 <= i < s.len() implies s[i] == 0 by {
                if i < s.len() - 1 {
                    assert(s.drop_last()[i] == s[i]);
                }
            }
        }
        if forall|i: int| 0 <= i < s.len() ==> s[i] == 0 {
            assert forall|i: int| 0 <= i < s.drop_last().len() implies s.drop_last()[i] == 0 by {
                assert(s.drop_last()[i] == s[i]);
            }
        }
    }
}

impl Scalar {
    /// Whether two scalars are equal.
    pub fn equals(&self, other: &Scalar) -> (r: bool)
        ensures
            r == (self.value() == other.value()),
            r == (self.bytes@ == other.bytes@),
    {
        let mut i: usize = 0;
        while i < 32
            invariant
                i <= 32,
                forall|j: int| 0 <= j < i ==> self.bytes@[j] == other.bytes@[j],
            decreases 32 - i,
        {
            if self.bytes[i] != other.bytes[i] {
                proof {
                    lemma_be_eq_iff(self.bytes@, other.bytes@);
                }
                return false;
            }
            i = i + 1;
        }
        proof {
            assert(self.bytes@ =~= other.bytes@);
            lemma_be_eq_iff(self.bytes@, other.bytes@);
        }
        true
    }

    /// Whether this scalar is zero.
    pub fn is_zero(&self) -> (r: bool)
        ensures
            r == (self.value() == 0),
    {
        proof {
            lemma_be_zero(self.bytes@);
        }
        let mut i: usize = 0;
        while i < 32
            invariant
                i <= 32,
                forall|j: int| 0 <= j < i ==> self.bytes@[j] == 0,
            decreases 32 - i,
        {
            if self.bytes[i] != 0 {
                proof {
                    lemma_be_zero(self.bytes@);
                    assert(self.bytes@[i as int] != 0);
                }
                return false;
            }
            i = i + 1;
        }
        true
    }

    /// The scalar that `bytes` encode big-endian, when its value is below
    /// the modulus.
    pub fn from_be_bytes(bytes: [u8; 32]) -> (r: Option<Scalar>)
        ensures
            r is Some <==> be_to_nat(bytes@) < scalar_modulus(),
            r matches Some(s) ==> s.bytes == bytes && s.wf(),
    {
        scalar_from_be_bytes(bytes)
    }

    /// Whether the encoding is canonical.
    pub fn is_well_formed(&self) -> (r: bool)
        ensures
            r == self.wf(),
    {
        scalar_from_be_bytes(self.bytes).is_some()
    }

    /// Copies this scalar.
    pub fn copy(&self) -> (r: Scalar)
        ensures
            r == *self,
    {
        Scalar { bytes: self.bytes }
    }
}

impl G1Point {
    /// Whether two points are equal.
    pub fn equals(&self, other: &G1Point) -> (r: bool)
        ensures
            r == (self.bytes@ == other.bytes@),
    {
        let mut i: usize = 0;
        while i < 48
            invariant
                i <= 48,
                forall|j: int| 0 <= j < i ==> self.bytes@[j] == other.bytes@[j],
            decreases 48 - i,
        {
            if self.bytes[i] != other.bytes[i] {
                return false;
            }
            i = i + 1;
        }
        assert(self.bytes@ =~= other.bytes@);
        true
    }

    /// The point that `bytes` encode compressed, when they decode to a
    /// point of G1.
    pub fn from_bytes(bytes: [u8; 48]) -> (r: Option<G1Point>)
        ensures
            r is Some <==> spec_g1_decodes(bytes@),
            r matches Some(p) ==> p.bytes == bytes,
    {
        if g1_decodes(&bytes) {
            Some(G1Point { bytes })
        } else {
            None
        }
    }

    /// Whether the encoding decodes to a point of G1.
    pub fn is_well_formed(&self) -> (r: bool)
        ensures
            r == self.wf(),
    {
        g1_decodes(&self.bytes)
    }

    /// Copies this point.
    pub fn copy(&self) -> (r: G1Point)
        ensures
            r == *self,
    {
        G1Point { bytes: self.bytes }
    }
}

impl G2Point {
    /// The point that `bytes` encode compressed, when they decode to a
    /// point of G2.
    pub fn from_bytes(bytes: [u8; 96]) -> (r: Option<G2Point>)
        ensures
            r is Some <==> spec_g2_decodes(bytes@),
            r matches Some(p) ==> p.bytes == bytes,
    {
        if g2_decodes(&bytes) {
            Some(G2Point { bytes })
        } else {
            None
        }
    }

    /// Whether the encoding decodes to a point of G2.
    pub fn is_well_formed(&self) -> (r: bool)
        ensures
            r == self.wf(),
    {
        g2_decodes(&self.bytes)
    }

    /// Copies this point.
    pub fn copy(&self) -> (r: G2Point)
        ensures
            r == *self,
    {
        G2Point { bytes: self.bytes }
    }
}

/// `bls12_381_plus::Scalar::from_be_bytes`: accepts exactly the encodings of
/// integers below the modulus, and keeps them as they are.
#[verifier::external_body]
pub(crate) fn scalar_from_be_bytes(bytes: [u8; 32]) -> (r: Option<Scalar>)
    ensures
        r is Some <==> be_to_nat(bytes@) < scalar_modulus(),
        r matches Some(s) ==> s.bytes == bytes,
{
    let s = bls12_381_plus::Scalar::from_be_bytes(&bytes);
    if bool::from(s.is_some()) {
        Some(Scalar { bytes: s.unwrap().to_be_bytes() })
    } else {
        None
    }
}

/// `bls12_381_plus::Scalar::from_okm`: reads 48 bytes as a big-endian integer
/// and reduces it modulo `r`.
#[verifier::external_body]
pub(crate) fn scalar_from_okm(okm: &[u8; 48]) -> (r: Scalar)
    ensures
        r.value() == be_to_nat(okm@) % scalar_modulus(),
        r.wf(),
{
    Scalar { bytes: bls12_381_plus::Scalar::from_okm(okm).to_be_bytes() }
}

/// `Scalar + Scalar` of `bls12_381_plus`: addition modulo `r`.
#[verifier::external_body]
pub(crate) fn scalar_add(a: &Scalar, b: &Scalar) -> (r: Scalar)
    requires
        a.wf(),
        b.wf(),
    ensures
        r.value() == (a.value() + b.value()) % scalar_modulus(),
        r.wf(),
{
    let x = bls12_381_plus::Scalar::from_be_bytes(&a.bytes).unwrap();
    let y = bls12_381_plus::Scalar::from_be_bytes(&b.bytes).unwrap();
    Scalar { bytes: (x + y).to_be_bytes() }
}

/// `Scalar * Scalar` of `bls12_381_plus`: multiplication modulo `r`.
#[verifier::external_body]
pub(crate) fn scalar_mul(a: &Scalar, b: &Scalar) -> (r: Scalar)
    requires
        a.wf(),
        b.wf(),
    ensures
        r.value() == (a.value() * b.value()) % scalar_modulus(),
        r.wf(),
{
    let x = bls12_381_plus::Scalar::from_be_bytes(&a.bytes).unwrap();
    let y = bls12_381_plus::Scalar::from_be_bytes(&b.bytes).unwrap();
    Scalar { bytes: (x * y).to_be_bytes() }
}

/// `-Scalar` of `bls12_381_plus`: the opposite modulo `r`.
#[verifier::external_body]
pub(crate) fn scalar_neg(a: &Scalar) -> (r: Scalar)
    requires
        a.wf(),
    ensures
        r.value() == (scalar_modulus() - a.value()) % (scalar_modulus() as int),
        r.wf(),
{
    let x = bls12_381_plus::Scalar::from_be_bytes(&a.bytes).unwrap();
    Scalar { bytes: (-x).to_be_bytes() }
}

/// The inverse of `a` modulo the prime `r`: `a` to the power `r - 2`.
pub open spec fn spec_scalar_inverse(a: nat) -> nat {
    (vstd::arithmetic::power::pow(a as int, (scalar_modulus() - 2) as nat) % (scalar_modulus() as int)) as nat
}

/// `bls12_381_plus::Scalar::invert`: `a` to the power `r - 2`, the inverse
/// modulo `r`, which exists exactly for nonzero scalars.
#[verifier::external_body]
pub(crate) fn scalar_invert(a: &Scalar) -> (r: Option<Scalar>)
    requires
        a.wf(),
    ensures
        r is Some <==> a.value() != 0,
        r matches Some(i) ==> i.wf() && i.value() == spec_scalar_inverse(a.value()) && (i.value()
            * a.value()) % scalar_modulus() == 1,
{
    let x = bls12_381_plus::Scalar::from_be_bytes(&a.bytes).unwrap();
    let i = x.invert();
    if bool::from(i.is_some()) {
        Some(Scalar { bytes: i.unwrap().to_be_bytes() })
    } else {
        None
    }
}

/// `bls12_381_plus::G1Affine::from_compressed(..).is_some()`.
#[verifier::external_body]
pub(crate) fn g1_decodes(bytes: &[u8; 48]) -> (r: bool)
    ensures
        r == spec_g1_decodes(bytes@),
{
    bool::from(bls12_381_plus::G1Affine::from_compressed(bytes).is_some())
}

/// `bls12_381_plus::G2Affine::from_compressed(..).is_some()`.
#[verifier::external_body]
pub(crate) fn g2_decodes(bytes: &[u8; 96]) -> (r: bool)
    ensures
        r == spec_g2_decodes(bytes@),
{
    bool::from(bls12_381_plus::G2Affine::from_compressed(bytes).is_some())
}

/// `G1Projective::IDENTITY`, compressed: the compression and infinity flags
/// followed by zeros, an encoding that `from_compressed` accepts.
#[verifier::external_body]
pub(crate) fn g1_identity() -> (r: G1Point)
    ensures
        r.bytes@ == g1_identity_encoding(),
        r.wf(),
{
    G1Point { bytes: bls12_381_plus::G1Projective::IDENTITY.to_affine().to_compressed() }
}

/// `G1Projective + G1Projective` on decoded points, compressed again.
#[verifier::external_body]
pub(crate) fn g1_add(a: &G1Point, b: &G1Point) -> (r: G1Point)
    requires
        a.wf(),
        b.wf(),
    ensures
        r.bytes@ == spec_g1_add(a.bytes@, b.bytes@),
        r.wf(),
{
    let x = bls12_381_plus::G1Projective::from(bls12_381_plus::G1Affine::from_compressed(&a.bytes).unwrap());
    let y = bls12_381_plus::G1Projective::from(bls12_381_plus::G1Affine::from_compressed(&b.bytes).unwrap());
    G1Point { bytes: (x + y).to_affine().to_compressed() }
}

/// `-G1Projective` on a decoded point, compressed again.
#[verifier::external_body]
pub(crate) fn g1_neg(a: &G1Point) -> (r: G1Point)
    requires
        a.wf(),
    ensures
        r.bytes@ == spec_g1_neg(a.bytes@),
        r.wf(),
{
    let x = bls12_381_plus::G1Projective::from(bls12_381_plus::G1Affine::from_compressed(&a.bytes).unwrap());
    G1Point { bytes: (-x).to_affine().to_compressed() }
}

/// `G1Projective * Scalar` on decoded values, compressed again.
#[verifier::external_body]
pub(crate) fn g1_mul(p: &G1Point, k: &Scalar) -> (r: G1Point)
    requires
        p.wf(),
        k.wf(),
    ensures
        r.bytes@ == spec_g1_mul(p.bytes@, k.value()),
        r.wf(),
{
    let x = bls12_381_plus::G1Projective::from(bls12_381_plus::G1Affine::from_compressed(&p.bytes).unwrap());
    let s = bls12_381_plus::Scalar::from_be_bytes(&k.bytes).unwrap();
    G1Point { bytes: (x * s).to_affine().to_compressed() }
}

/// `G1Projective::hash::<ExpandMsgXmd<Sha256>>`, compressed.
#[verifier::external_body]
pub(crate) fn hash_to_g1_xmd_sha256(msg: &[u8], dst: &[u8]) -> (r: G1Point)
    ensures
        r.bytes@ == spec_hash_to_g1_xmd_sha256(msg@, dst@),
        r.wf(),
{
    let p = bls12_381_plus::G1Projective::hash::<
        elliptic_curve::hash2curve::ExpandMsgXmd<sha2::Sha256>,
    >(msg, dst);
    G1Point { bytes: p.to_affine().to_compressed() }
}

/// `G1Projective::hash::<ExpandMsgXof<Shake256>>`, compressed.
#[verifier::external_body]
pub(crate) fn hash_to_g1_xof_shake256(msg: &[u8], dst: &[u8]) -> (r: G1Point)
    ensures
        r.bytes@ == spec_hash_to_g1_xof_shake256(msg@, dst@),
        r.wf(),
{
    let p = bls12_381_plus::G1Projective::hash::<
        elliptic_curve::hash2curve::ExpandMsgXof<sha3::Shake256>,
    >(msg, dst);
    G1Point { bytes: p.to_affine().to_compressed() }
}

/// `multi_miller_loop(&[(A', PK), (A_bar, -P2)]).final_exponentiation()`
/// tested with `is_identity`.
#[verifier::external_body]
pub(crate) fn pairing_check(a_prime: &G1Point, pk: &G2Point, a_bar: &G1Point) -> (r: bool)
    requires
        a_prime.wf(),
        pk.wf(),
        a_bar.wf(),
    ensures
        r == spec_pairing_check(a_prime.bytes@, pk.bytes@, a_bar.bytes@),
{
    let a = bls12_381_plus::G1Affine::from_compressed(&a_prime.bytes).unwrap();
    let b = bls12_381_plus::G1Affine::from_compressed(&a_bar.bytes).unwrap();
    let q = bls12_381_plus::G2Prepared::from(bls12_381_plus::G2Affine::from_compressed(&pk.bytes).unwrap());
    let p2 = bls12_381_plus::G2Prepared::from(-bls12_381_plus::G2Projective::GENERATOR.to_affine());
    let pairing = bls12_381_plus::multi_miller_loop(&[(&a, &q), (&b, &p2)]).final_exponentiation();
    bool::from(pairing.is_identity())
}

/// `ExpandMsgXmd::<Sha256>::expand_message(&[msg], &[dst], len)`, all bytes
/// read with `fill_bytes`.
pub uninterp spec fn spec_expand_xmd_sha256(msg: Seq<u8>, dst: Seq<u8>, len: nat) -> Seq<u8>;

/// `ExpandMsgXof::<Shake256>::expand_message(&[msg], &[dst], len)`, all bytes
/// read with `fill_bytes`.
pub uninterp spec fn spec_expand_xof_shake256(msg: Seq<u8>, dst: Seq<u8>, len: nat) -> Seq<u8>;

/// `expand_message` of `ExpandMsgXmd<Sha256>`; it fails on an empty `dst`, a
/// `len` of 0, or above 255 blocks of 32 bytes.
#[verifier::external_body]
pub(crate) fn expand_xmd_sha256(msg: &[u8], dst: &[u8], len: usize) -> (r: Vec<u8>)
    requires
        dst@.len() > 0,
        0 < len <= 8160,
    ensures
        r@ == spec_expand_xmd_sha256(msg@, dst@, len as nat),
        r@.len() == len,
{
    let dsts = [dst];
    let mut out = vec![0u8; len];
    elliptic_curve::hash2curve::ExpandMsgXmd::<sha2::Sha256>::expand_message(&[msg], &dsts, len)
        .unwrap()
        .fill_bytes(&mut out);
    out
}

/// `expand_message` of `ExpandMsgXof<Shake256>`; it fails on an empty `dst`,
/// a `len` of 0, or above `u16::MAX`.
#[verifier::external_body]
pub(crate) fn expand_xof_shake256(msg: &[u8], dst: &[u8], len: usize) -> (r: Vec<u8>)
    requires
        dst@.len() > 0,
        0 < len <= 65535,
    ensures
        r@ == spec_expand_xof_shake256(msg@, dst@, len as nat),
        r@.len() == len,
{
    let dsts = [dst];
    let mut out = vec![0u8; len];
    elliptic_curve::hash2curve::ExpandMsgXof::<sha3::Shake256>::expand_message(&[msg], &dsts, len)
        .unwrap()
        .fill_bytes(&mut out);
    out
}

} // verus!
