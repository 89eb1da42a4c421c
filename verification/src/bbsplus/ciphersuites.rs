//! The BBS+ ciphersuites: their identifiers, the constants derived from
//! them, and the `expand_message` and hash-to-curve functions they use.
use crate::bytes::append_bytes;
use crate::curve::{
    expand_xmd_sha256, expand_xof_shake256, hash_to_g1_xmd_sha256, hash_to_g1_xof_shake256,
    spec_expand_xmd_sha256, spec_expand_xof_shake256, spec_hash_to_g1_xmd_sha256,
    spec_hash_to_g1_xof_shake256, G1Point,
};
use vstd::prelude::*;
use vstd::string::StringSliceAdditionalSpecFns;

verus! {

/// A BBS+ ciphersuite over BLS12-381 G1.
pub trait BbsCiphersuite {
    /// The ciphersuite identifier.
    spec fn spec_id() -> Seq<u8>;

    /// The largest output length that `expand_message` accepts.
    spec fn max_expand_len() -> nat;

    /// What `expand_message` returns.
    spec fn spec_expand_message(msg: Seq<u8>, dst: Seq<u8>, len: nat) -> Seq<u8>;

    /// What `hash_to_g1` returns.
    spec fn spec_hash_to_g1(msg: Seq<u8>, dst: Seq<u8>) -> Seq<u8>;

    proof fn lemma_suite_facts()
        ensures
            8160 <= Self::max_expand_len() <= 65535,
            Self::spec_id().len() > 0,
    ;

    /// The largest output length that `expand_message` accepts.
    fn max_expand_length() -> (r: usize)
        ensures
            r == Self::max_expand_len(),
    ;

    /// The ciphersuite identifier.
    fn id() -> (r: Vec<u8>)
        ensures
            r@ == Self::spec_id(),
    ;

    /// `expand_message` with the expander of the ciphersuite.
    fn expand_message(msg: &[u8], dst: &[u8], len: usize) -> (r: Vec<u8>)
        requires
            dst@.len() > 0,
            0 < len <= Self::max_expand_len(),
        ensures
            r@ == Self::spec_expand_message(msg@, dst@, len as nat),
            r@.len() == len,
    ;

    /// Hash to G1 with the expander of the ciphersuite.
    fn hash_to_g1(msg: &[u8], dst: &[u8]) -> (r: G1Point)
        ensures
            r.bytes@ == Self::spec_hash_to_g1(msg@, dst@),
            r.wf(),
    ;
}

/// BLS12-381 with `expand_message_xmd` over SHA-256.
pub struct Bls12381Sha256;

/// BLS12-381 with `expand_message_xof` over SHAKE-256.
pub struct Bls12381Shake256;

impl BbsCiphersuite for Bls12381Sha256 {
    open spec fn spec_id() -> Seq<u8> {
        "BBS_BLS12381G1_XMD:SHA-256_SSWU_RO_".spec_bytes()
    }

    open spec fn max_expand_len() -> nat {
        8160
    }

    open spec fn spec_expand_message(msg: Seq<u8>, dst: Seq<u8>, len: nat) -> Seq<u8> {
        spec_expand_xmd_sha256(msg, dst, len)
    }

    open spec fn spec_hash_to_g1(msg: Seq<u8>, dst: Seq<u8>) -> Seq<u8> {
        spec_hash_to_g1_xmd_sha256(msg, dst)
    }

    proof fn lemma_suite_facts() {
        reveal_strlit("BBS_BLS12381G1_XMD:SHA-256_SSWU_RO_");
    }

    fn max_expand_length() -> (r: usize) {
        8160
    }

    fn id() -> (r: Vec<u8>) {
        let mut v = Vec::new();
        append_bytes(&mut v, "BBS_BLS12381G1_XMD:SHA-256_SSWU_RO_".as_bytes());
        v
    }

    fn expand_message(msg: &[u8], dst: &[u8], len: usize) -> (r: Vec<u8>) {
        expand_xmd_sha256(msg, dst, len)
    }

    fn hash_to_g1(msg: &[u8], dst: &[u8]) -> (r: G1Point) {
        hash_to_g1_xmd_sha256(msg, dst)
    }
}

impl BbsCiphersuite for Bls12381Shake256 {
    open spec fn spec_id() -> Seq<u8> {
        "BBS_BLS12381G1_XOF:SHAKE-256_SSWU_RO_".spec_bytes()
    }

    open spec fn max_expand_len() -> nat {
        65535
    }

    open spec fn spec_expand_message(msg: Seq<u8>, dst: Seq<u8>, len: nat) -> Seq<u8> {
        spec_expand_xof_shake256(msg, dst, len)
    }

    open spec fn spec_hash_to_g1(msg: Seq<u8>, dst: Seq<u8>) -> Seq<u8> {
        spec_hash_to_g1_xof_shake256(msg, dst)
    }

    proof fn lemma_suite_facts() {
        reveal_strlit("BBS_BLS12381G1_XOF:SHAKE-256_SSWU_RO_");
    }

    fn max_expand_length() -> (r: usize) {
        65535
    }

    fn id() -> (r: Vec<u8>) {
        let mut v = Vec::new();
        append_bytes(&mut v, "BBS_BLS12381G1_XOF:SHAKE-256_SSWU_RO_".as_bytes());
        v
    }

    fn expand_message(msg: &[u8], dst: &[u8], len: usize) -> (r: Vec<u8>) {
        expand_xof_shake256(msg, dst, len)
    }

    fn hash_to_g1(msg: &[u8], dst: &[u8]) -> (r: G1Point) {
        hash_to_g1_xof_shake256(msg, dst)
    }
}

/// The number of bytes that `expand_message` yields for one scalar or one
/// generator seed.
pub const EXPAND_LEN: usize = 48;

/// The identifier followed by a suffix.
pub open spec fn id_with<X: BbsCiphersuite>(suffix: Seq<u8>) -> Seq<u8> {
    X::spec_id() + suffix
}

/// The identifier followed by `suffix`.
pub fn id_with_suffix<X: BbsCiphersuite>(suffix: &str) -> (r: Vec<u8>)
    ensures
        r@ == id_with::<X>(suffix.spec_bytes()),
        r@.len() > 0,
{
    proof {
        X::lemma_suite_facts();
    }
    let mut v = X::id();
    append_bytes(&mut v, suffix.as_bytes());
    v
}

/// `GENERATOR_SEED`: the default seed of the message generators.
pub open spec fn spec_generator_seed<X: BbsCiphersuite>() -> Seq<u8> {
    id_with::<X>("MESSAGE_GENERATOR_SEED".spec_bytes())
}

/// `GENERATOR_SEED_BP`: the seed of the base point.
pub open spec fn spec_generator_seed_bp<X: BbsCiphersuite>() -> Seq<u8> {
    id_with::<X>("BP_MESSAGE_GENERATOR_SEED".spec_bytes())
}

/// `GENERATOR_SEED_DST`: the tag under which generator seeds are expanded.
pub open spec fn spec_generator_seed_dst<X: BbsCiphersuite>() -> Seq<u8> {
    id_with::<X>("SIG_GENERATOR_SEED_".spec_bytes())
}

/// `GENERATOR_DST`: the tag under which generators are hashed to G1.
pub open spec fn spec_generator_dst<X: BbsCiphersuite>() -> Seq<u8> {
    id_with::<X>("SIG_GENERATOR_DST_".spec_bytes())
}

pub fn generator_seed<X: BbsCiphersuite>() -> (r: Vec<u8>)
    ensures
        r@ == spec_generator_seed::<X>(),
        r@.len() > 0,
{
    id_with_suffix::<X>("MESSAGE_GENERATOR_SEED")
}

pub fn generator_seed_bp<X: BbsCiphersuite>() -> (r: Vec<u8>)
    ensures
        r@ == spec_generator_seed_bp::<X>(),
        r@.len() > 0,
{
    id_with_suffix::<X>("BP_MESSAGE_GENERATOR_SEED")
}

pub fn generator_seed_dst<X: BbsCiphersuite>() -> (r: Vec<u8>)
    ensures
        r@ == spec_generator_seed_dst::<X>(),
        r@.len() > 0,
{
    id_with_suffix::<X>("SIG_GENERATOR_SEED_")
}

pub fn generator_dst<X: BbsCiphersuite>() -> (r: Vec<u8>)
    ensures
        r@ == spec_generator_dst::<X>(),
        r@.len() > 0,
{
    id_with_suffix::<X>("SIG_GENERATOR_DST_")
}

} // verus!
