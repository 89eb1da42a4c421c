//! Proofs of knowledge of signatures with selective disclosure of the
//! signed messages: BBS+ (here) and CL03 (in `cl03_proof`).
use crate::bbsplus::ciphersuites::BbsCiphersuite;
use crate::bbsplus::generators::Generators;
use crate::bbsplus::keys::BBSplusPublicKey;
use crate::bbsplus::message::BBSplusMessage;
use crate::bytes::{append_bytes, flatten, lemma_be_roundtrip, nat_to_be, u64_to_be};
use crate::curve::{
    g1_add, g1_identity, g1_identity_encoding, g1_mul, g1_neg, pairing_check, scalar_add,
    scalar_invert, scalar_modulus, scalar_mul, scalar_neg, spec_g1_add, spec_g1_mul, spec_g1_neg,
    spec_pairing_check, spec_scalar_inverse, G1Point, Scalar,
};
use crate::schemes::algorithms::{BBSplus, CL03, Ciphersuite, Scheme};
use crate::cl03::ciphersuites::CLCiphersuite;
use crate::cl03::keys::{CL03CommitmentPublicKey, CL03PublicKey};
use crate::cl03::message::CL03Message;
use crate::signatures::cl03_proof::{is_nisp5_proof, nisp5_challenge, nisp5_generate_requires, nisp5_verify_requires, nisp5_verify_values, Nisp5Randomness};
use crate::signatures::signature::CL03Signature;
use crate::signatures::cl03_proof::CL03PoKSignature;
use crate::signatures::signature::BBSplusSignature;
use crate::utils::{
    calculate_domain, calculate_random_scalars, get_messages, get_remaining_indexes,
    hash_to_scalar, lemma_remaining_len, lemma_remaining_shape, point_encodings, scalar_values,
    spec_domain, spec_h2s_dst, spec_hash_to_scalars, spec_mock_random_dst, spec_remaining,
};
use core::marker::PhantomData;
use vstd::prelude::*;

verus! {

/// A proof of knowledge of a BBS+ signature.
pub struct BBSplusPoKSignature {
    pub a_prime: G1Point,
    pub a_bar: G1Point,
    pub d: G1Point,
    pub c: Scalar,
    pub e_cap: Scalar,
    pub r2_cap: Scalar,
    pub r3_cap: Scalar,
    pub s_cap: Scalar,
    pub m_cap: Vec<Scalar>,
}

impl BBSplusPoKSignature {
    pub open spec fn wf(&self) -> bool {
        &&& self.a_prime.wf()
        &&& self.a_bar.wf()
        &&& self.d.wf()
        &&& self.c.wf()
        &&& self.e_cap.wf()
        &&& self.r2_cap.wf()
        &&& self.r3_cap.wf()
        &&& self.s_cap.wf()
        &&& forall|i: int| 0 <= i < self.m_cap@.len() ==> (#[trigger] self.m_cap@[i]).wf()
    }

    /// Whether the points decode to points of G1 and the scalars are
    /// canonical.
    pub fn is_well_formed(&self) -> (r: bool)
        ensures
            r == self.wf(),
    {
        if !(self.a_prime.is_well_formed() && self.a_bar.is_well_formed() && self.d.is_well_formed()
            && self.c.is_well_formed() && self.e_cap.is_well_formed() && self.r2_cap.is_well_formed()
            && self.r3_cap.is_well_formed() && self.s_cap.is_well_formed()) {
            return false;
        }
        let n = self.m_cap.len();
        for i in 0..n
            invariant
                n == self.m_cap@.len(),
                forall|j: int| 0 <= j < i ==> (#[trigger] self.m_cap@[j]).wf(),
        {
            if !self.m_cap[i].is_well_formed() {
                return false;
            }
        }
        true
    }
}

/// A proof of knowledge of a signature of the scheme `S`.
pub enum PoKSignature<S: Scheme> {
    BBSplus(BBSplusPoKSignature),
    CL03(CL03PoKSignature),
    _Unreachable(PhantomData<S>),
}

/// `start + pts[0] * ks[0] + ... + pts[n - 1] * ks[n - 1]`, added from the left.
pub open spec fn spec_accumulate(start: Seq<u8>, pts: Seq<Seq<u8>>, ks: Seq<nat>, n: nat) -> Seq<u8>
    decreases n,
{
    if n == 0 {
        start
    } else {
        spec_g1_add(
            spec_accumulate(start, pts, ks, (n - 1) as nat),
            spec_g1_mul(pts[n - 1], ks[n - 1]),
        )
    }
}

/// `p * k + q * l`.
pub open spec fn spec_mul2(p: Seq<u8>, k: nat, q: Seq<u8>, l: nat) -> Seq<u8> {
    spec_g1_add(spec_g1_mul(p, k), spec_g1_mul(q, l))
}

/// The opposite of a scalar modulo `r`.
pub open spec fn spec_scalar_neg(k: nat) -> nat {
    ((scalar_modulus() - k) % (scalar_modulus() as int)) as nat
}

/// The values of the messages.
pub open spec fn message_values(m: Seq<BBSplusMessage>) -> Seq<nat> {
    m.map_values(|x: BBSplusMessage| x.value.value())
}

/// The elements of `s` at the given indexes.
pub open spec fn select<T>(s: Seq<T>, idx: Seq<usize>) -> Seq<T> {
    idx.map_values(|i: usize| s[i as int])
}

/// The bytes that the challenge is hashed from: the five points, the
/// number of disclosed indexes (8 bytes), the indexes (8 bytes each), the
/// disclosed messages (32 bytes each), the domain (32 bytes), the length of
/// the presentation header (8 bytes) and the header.
pub open spec fn challenge_input(
    a_prime: Seq<u8>,
    a_bar: Seq<u8>,
    d: Seq<u8>,
    c1: Seq<u8>,
    c2: Seq<u8>,
    i_array: Seq<usize>,
    msgs: Seq<nat>,
    domain: nat,
    ph: Seq<u8>,
) -> Seq<u8> {
    a_prime + a_bar + d + c1 + c2 + nat_to_be(i_array.len(), 8) + flatten(
        i_array.map_values(|i: usize| nat_to_be(i as nat, 8)),
    ) + flatten(msgs.map_values(|m: nat| nat_to_be(m, 32))) + nat_to_be(domain, 32) + nat_to_be(
        ph.len(),
        8,
    ) + ph
}

/// The challenge: `challenge_input` hashed to one scalar.
pub open spec fn spec_challenge<X: BbsCiphersuite>(
    a_prime: Seq<u8>,
    a_bar: Seq<u8>,
    d: Seq<u8>,
    c1: Seq<u8>,
    c2: Seq<u8>,
    i_array: Seq<usize>,
    msgs: Seq<nat>,
    domain: nat,
    ph: Seq<u8>,
) -> nat {
    spec_hash_to_scalars::<X>(
        challenge_input(a_prime, a_bar, d, c1, c2, i_array, msgs, domain, ph),
        1,
        spec_h2s_dst::<X>(),
    )[0]
}

/// The value of an optional byte string, empty when absent.
pub open spec fn or_empty(o: Option<&[u8]>) -> Seq<u8> {
    match o {
        Some(s) => s@,
        None => seq![],
    }
}

/// The value of an optional slice, empty when absent.
pub open spec fn slice_or_empty<T>(o: Option<&[T]>) -> Seq<T> {
    match o {
        Some(s) => s@,
        None => seq![],
    }
}

/// The random scalars that proof generation draws from its seed: six, and
/// one for each undisclosed message.
pub open spec fn proof_gen_random_scalars<X: BbsCiphersuite>(seed: Seq<u8>, u: nat) -> Seq<nat> {
    spec_hash_to_scalars::<X>(seed, 6 + u, spec_mock_random_dst::<X>())
}

/// `B = P1 + Q1 * s + Q2 * domain + H_1 * m_1 + ... + H_L * m_L`.
pub open spec fn spec_b(gens: Generators, s: nat, domain: nat, msgs: Seq<nat>) -> Seq<u8> {
    spec_accumulate(
        spec_g1_add(
            spec_g1_add(gens.g1_base_point.bytes@, spec_g1_mul(gens.q1.bytes@, s)),
            spec_g1_mul(gens.q2.bytes@, domain),
        ),
        point_encodings(gens.message_generators@),
        msgs,
        msgs.len(),
    )
}

/// `p` is the proof that `proof_gen` makes of `sig` on `messages` under
/// `pk` and `gens`, disclosing the messages at `revealed`, with header
/// `header`, presentation header `ph` and seed `seed`.
pub open spec fn is_generated_proof<X: BbsCiphersuite>(
    p: BBSplusPoKSignature,
    sig: BBSplusSignature,
    pk: BBSplusPublicKey,
    messages: Seq<BBSplusMessage>,
    gens: Generators,
    revealed: Seq<usize>,
    header: Seq<u8>,
    ph: Seq<u8>,
    seed: Seq<u8>,
) -> bool {
    let l = messages.len();
    let u = (l - revealed.len()) as nat;
    let unrevealed = spec_remaining(l, revealed);
    let m = message_values(messages);
    let h = point_encodings(gens.message_generators@);
    let q1 = gens.q1.bytes@;
    let domain = spec_domain::<X>(pk.0.bytes@, q1, gens.q2.bytes@, h, header);
    let rs = proof_gen_random_scalars::<X>(seed, u);
    let r1 = rs[0];
    let r2 = rs[1];
    let e_tilde = rs[2];
    let r2_tilde = rs[3];
    let r3_tilde = rs[4];
    let s_tilde = rs[5];
    let m_tilde = rs.subrange(6, 6 + u as int);
    let b = spec_b(gens, sig.s.value(), domain, m);
    let r3 = spec_scalar_inverse(r1);
    let a_prime = spec_g1_mul(sig.a.bytes@, r1);
    let a_bar = spec_mul2(a_prime, spec_scalar_neg(sig.e.value()), b, r1);
    let d = spec_mul2(b, r1, q1, r2);
    let s_prime = (r2 * r3 + sig.s.value()) % scalar_modulus();
    let c1 = spec_mul2(a_prime, e_tilde, q1, r2_tilde);
    let c2 = spec_accumulate(
        spec_mul2(d, spec_scalar_neg(r3_tilde), q1, s_tilde),
        select(h, unrevealed),
        m_tilde,
        u,
    );
    let c = spec_challenge::<X>(a_prime, a_bar, d, c1, c2, revealed, select(m, revealed), domain, ph);
    &&& p.wf()
    &&& p.a_prime.bytes@ == a_prime
    &&& p.a_bar.bytes@ == a_bar
    &&& p.d.bytes@ == d
    &&& p.c.value() == c
    &&& p.e_cap.value() == (c * sig.e.value() + e_tilde) % scalar_modulus()
    &&& p.r2_cap.value() == (c * r2 + r2_tilde) % scalar_modulus()
    &&& p.r3_cap.value() == (c * r3 + r3_tilde) % scalar_modulus()
    &&& p.s_cap.value() == (c * s_prime + s_tilde) % scalar_modulus()
    &&& p.m_cap@.len() == u
    &&& forall|i: int|
        0 <= i < u ==> (#[trigger] p.m_cap@[i]).value() == (c * m[unrevealed[i] as int] + m_tilde[i])
            % scalar_modulus()
}

/// What `proof_verify` decides for a proof `p`: the challenge recomputed
/// from the disclosed messages matches, `A'` is not the identity, and the
/// pairing equation holds.
pub open spec fn is_valid_proof<X: BbsCiphersuite>(
    p: BBSplusPoKSignature,
    pk: BBSplusPublicKey,
    revealed_messages: Seq<BBSplusMessage>,
    gens: Generators,
    revealed: Seq<usize>,
    header: Seq<u8>,
    ph: Seq<u8>,
) -> bool {
    let u = p.m_cap@.len();
    let l = revealed.len() + u;
    let unrevealed = spec_remaining(l, revealed);
    let h = point_encodings(gens.message_generators@);
    let q1 = gens.q1.bytes@;
    let domain = spec_domain::<X>(pk.0.bytes@, q1, gens.q2.bytes@, h, header);
    let c = p.c.value();
    let c1 = spec_g1_add(
        spec_mul2(
            spec_g1_add(p.a_bar.bytes@, spec_g1_neg(p.d.bytes@)),
            c,
            p.a_prime.bytes@,
            p.e_cap.value(),
        ),
        spec_g1_mul(q1, p.r2_cap.value()),
    );
    let t = spec_accumulate(
        spec_g1_add(gens.g1_base_point.bytes@, spec_g1_mul(gens.q2.bytes@, domain)),
        select(h, revealed),
        message_values(revealed_messages),
        revealed.len(),
    );
    let c2 = spec_accumulate(
        spec_g1_add(
            spec_mul2(t, c, p.d.bytes@, spec_scalar_neg(p.r3_cap.value())),
            spec_g1_mul(q1, p.s_cap.value()),
        ),
        select(h, unrevealed),
        scalar_values(p.m_cap@),
        u,
    );
    let cv = spec_challenge::<X>(
        p.a_prime.bytes@,
        p.a_bar.bytes@,
        p.d.bytes@,
        c1,
        c2,
        revealed,
        message_values(revealed_messages),
        domain,
        ph,
    );
    &&& c == cv
    &&& p.a_prime.bytes@ != g1_identity_encoding()
    &&& spec_pairing_check(p.a_prime.bytes@, pk.0.bytes@, p.a_bar.bytes@)
}

/// The bytes of a BBS+ proof: `A'`, `A_bar`, `D` (48 bytes each), then `c`,
/// `e^`, `r2^`, `r3^`, `s^` and the `m^` (32 bytes each).
pub open spec fn bbsplus_proof_bytes(p: BBSplusPoKSignature) -> Seq<u8> {
    p.a_prime.bytes@ + p.a_bar.bytes@ + p.d.bytes@ + p.c.bytes@ + p.e_cap.bytes@ + p.r2_cap.bytes@
        + p.r3_cap.bytes@ + p.s_cap.bytes@ + flatten(p.m_cap@.map_values(|s: Scalar| s.bytes@))
}

/// Proofs made from the same inputs and the same seed are identical: the
/// seed fixes every random scalar, so the proof's bytes are fixed.
pub proof fn lemma_proof_gen_deterministic<X: BbsCiphersuite>(
    p1: BBSplusPoKSignature,
    p2: BBSplusPoKSignature,
    sig: BBSplusSignature,
    pk: BBSplusPublicKey,
    messages: Seq<BBSplusMessage>,
    gens: Generators,
    revealed: Seq<usize>,
    header: Seq<u8>,
    ph: Seq<u8>,
    seed: Seq<u8>,
)
    requires
        is_generated_proof::<X>(p1, sig, pk, messages, gens, revealed, header, ph, seed),
        is_generated_proof::<X>(p2, sig, pk, messages, gens, revealed, header, ph, seed),
    ensures
        bbsplus_proof_bytes(p1) == bbsplus_proof_bytes(p2),
{
    lemma_scalar_bytes(p1.c);
    lemma_scalar_bytes(p2.c);
    lemma_scalar_bytes(p1.e_cap);
    lemma_scalar_bytes(p2.e_cap);
    lemma_scalar_bytes(p1.r2_cap);
    lemma_scalar_bytes(p2.r2_cap);
    lemma_scalar_bytes(p1.r3_cap);
    lemma_scalar_bytes(p2.r3_cap);
    lemma_scalar_bytes(p1.s_cap);
    lemma_scalar_bytes(p2.s_cap);
    let b1 = p1.m_cap@.map_values(|s: Scalar| s.bytes@);
    let b2 = p2.m_cap@.map_values(|s: Scalar| s.bytes@);
    assert forall|i: int| 0 <= i < b1.len() implies b1[i] == b2[i] by {
        lemma_scalar_bytes(p1.m_cap@[i]);
        lemma_scalar_bytes(p2.m_cap@[i]);
    }
    assert(b1 =~= b2);
}

/// The responses for the undisclosed messages: `c m_i + m~_i` modulo `r`.
fn message_responses(c: &Scalar, messages: &Vec<BBSplusMessage>, m_tilde: &Vec<Scalar>, u: usize) -> (m_cap: Vec<Scalar>)
    requires
        u <= messages@.len(),
        u == m_tilde@.len(),
        c.wf(),
        forall|i: int| 0 <= i < messages@.len() ==> (#[trigger] messages@[i]).wf(),
        forall|i: int| 0 <= i < m_tilde@.len() ==> (#[trigger] m_tilde@[i]).wf(),
    ensures
        m_cap@.len() == u,
        forall|i: int| 0 <= i < u ==> (#[trigger] m_cap@[i]).wf() && m_cap@[i].value() == (c.value()
            * messages@[i].value.value() + m_tilde@[i].value()) % scalar_modulus(),
{
    let mut m_cap: Vec<Scalar> = Vec::new();
    let mut idx: usize = 0;
    while idx < u
        invariant
            idx <= u,
            u <= messages@.len(),
            u == m_tilde@.len(),
            c.wf(),
            forall|i: int| 0 <= i < messages@.len() ==> (#[trigger] messages@[i]).wf(),
            forall|i: int| 0 <= i < m_tilde@.len() ==> (#[trigger] m_tilde@[i]).wf(),
            m_cap@.len() == idx,
            forall|i: int| 0 <= i < idx ==> (#[trigger] m_cap@[i]).wf() && m_cap@[i].value() == (c.value()
                * messages@[i].value.value() + m_tilde@[i].value()) % scalar_modulus(),
        decreases u - idx,
    {
        let v = scalar_mul_add(c, &messages[idx].value, &m_tilde[idx]);
        m_cap.push(v);
        idx = idx + 1;
    }
    m_cap
}

/// Whether every message is a canonical scalar.
fn messages_well_formed(m: &[BBSplusMessage]) -> (r: bool)
    ensures
        r == forall|i: int| 0 <= i < m@.len() ==> (#[trigger] m@[i]).wf(),
{
    let n = m.len();
    for i in 0..n
        invariant
            n == m@.len(),
            forall|j: int| 0 <= j < i ==> (#[trigger] m@[j]).wf(),
    {
        if !m[i].is_well_formed() {
            return false;
        }
    }
    true
}

/// Whether every index is below `bound`.
fn all_below(idx: &[usize], bound: usize) -> (r: bool)
    ensures
        r == forall|i: int| 0 <= i < idx@.len() ==> #[trigger] idx@[i] < bound,
{
    let n = idx.len();
    for i in 0..n
        invariant
            n == idx@.len(),
            forall|j: int| 0 <= j < i ==> #[trigger] idx@[j] < bound,
    {
        if idx[i] >= bound {
            return false;
        }
    }
    true
}

/// A proof is accepted only if the pairing equation
/// `e(A', pk) = e(A_bar, P2)` holds and `A'` is not the identity: whatever
/// the challenge, a proof whose `A'` and `A_bar` fail the pairing check
/// under `pk` is refused.
pub proof fn lemma_valid_proof_needs_pairing<X: BbsCiphersuite>(
    p: BBSplusPoKSignature,
    pk: BBSplusPublicKey,
    revealed_messages: Seq<BBSplusMessage>,
    gens: Generators,
    revealed: Seq<usize>,
    header: Seq<u8>,
    ph: Seq<u8>,
)
    ensures
        is_valid_proof::<X>(p, pk, revealed_messages, gens, revealed, header, ph) ==> spec_pairing_check(
            p.a_prime.bytes@,
            pk.0.bytes@,
            p.a_bar.bytes@,
        ),
        is_valid_proof::<X>(p, pk, revealed_messages, gens, revealed, header, ph) ==> p.a_prime.bytes@
            != g1_identity_encoding(),
{
}

/// The byte layout of a BBS+ proof: `A'` at 0, `A_bar` at 48, `D` at 96
/// (48 bytes each), then `c` at 144, `e^` at 176, `r2^` at 208, `r3^` at 240,
/// `s^` at 272 and the `i`-th `m^` at `304 + 32 i` (32 bytes each, big-endian),
/// `304 + 32 |m^|` bytes in all.
pub proof fn lemma_proof_bytes_layout(p: BBSplusPoKSignature)
    ensures
        bbsplus_proof_bytes(p).len() == 304 + 32 * p.m_cap@.len(),
        bbsplus_proof_bytes(p).subrange(0, 48) == p.a_prime.bytes@,
        bbsplus_proof_bytes(p).subrange(48, 96) == p.a_bar.bytes@,
        bbsplus_proof_bytes(p).subrange(96, 144) == p.d.bytes@,
        bbsplus_proof_bytes(p).subrange(144, 176) == p.c.bytes@,
        bbsplus_proof_bytes(p).subrange(176, 208) == p.e_cap.bytes@,
        bbsplus_proof_bytes(p).subrange(208, 240) == p.r2_cap.bytes@,
        bbsplus_proof_bytes(p).subrange(240, 272) == p.r3_cap.bytes@,
        bbsplus_proof_bytes(p).subrange(272, 304) == p.s_cap.bytes@,
        forall|i: int|
            0 <= i < p.m_cap@.len() ==> #[trigger] bbsplus_proof_bytes(p).subrange(304 + 32 * i, 336 + 32 * i)
                == p.m_cap@[i].bytes@,
{
    let parts = p.m_cap@.map_values(|s: Scalar| s.bytes@);
    crate::bytes::lemma_flatten_fixed(parts, 32);
    let head = p.a_prime.bytes@ + p.a_bar.bytes@ + p.d.bytes@ + p.c.bytes@ + p.e_cap.bytes@ + p.r2_cap.bytes@
        + p.r3_cap.bytes@ + p.s_cap.bytes@;
    let b = bbsplus_proof_bytes(p);
    assert(b == head + flatten(parts));
    assert(head.len() == 304);
    assert(b.subrange(0, 48) =~= p.a_prime.bytes@);
    assert(b.subrange(48, 96) =~= p.a_bar.bytes@);
    assert(b.subrange(96, 144) =~= p.d.bytes@);
    assert(b.subrange(144, 176) =~= p.c.bytes@);
    assert(b.subrange(176, 208) =~= p.e_cap.bytes@);
    assert(b.subrange(208, 240) =~= p.r2_cap.bytes@);
    assert(b.subrange(240, 272) =~= p.r3_cap.bytes@);
    assert(b.subrange(272, 304) =~= p.s_cap.bytes@);
    assert forall|i: int| 0 <= i < p.m_cap@.len() implies #[trigger] b.subrange(304 + 32 * i, 336 + 32 * i)
        == p.m_cap@[i].bytes@ by {
        assert(flatten(parts).subrange(32 * i, 32 * i + 32) == parts[i]);
        assert(b.subrange(304 + 32 * i, 336 + 32 * i) =~= flatten(parts).subrange(32 * i, 32 * i + 32));
    }
}

/// Two proofs with the same bytes are the same proof: every field can be
/// read back from its fixed place in the bytes.
pub proof fn lemma_proof_bytes_injective(p: BBSplusPoKSignature, q: BBSplusPoKSignature)
    requires
        bbsplus_proof_bytes(p) == bbsplus_proof_bytes(q),
    ensures
        p.a_prime.bytes@ == q.a_prime.bytes@,
        p.a_bar.bytes@ == q.a_bar.bytes@,
        p.d.bytes@ == q.d.bytes@,
        p.c.bytes@ == q.c.bytes@,
        p.e_cap.bytes@ == q.e_cap.bytes@,
        p.r2_cap.bytes@ == q.r2_cap.bytes@,
        p.r3_cap.bytes@ == q.r3_cap.bytes@,
        p.s_cap.bytes@ == q.s_cap.bytes@,
        p.m_cap@.len() == q.m_cap@.len(),
        forall|i: int| 0 <= i < p.m_cap@.len() ==> (#[trigger] p.m_cap@[i]).bytes@ == q.m_cap@[i].bytes@,
{
    lemma_proof_bytes_layout(p);
    lemma_proof_bytes_layout(q);
    let b = bbsplus_proof_bytes(p);
    assert forall|i: int| 0 <= i < p.m_cap@.len() implies (#[trigger] p.m_cap@[i]).bytes@ == q.m_cap@[i].bytes@ by {
        assert(b.subrange(304 + 32 * i, 336 + 32 * i) == p.m_cap@[i].bytes@);
        assert(b.subrange(304 + 32 * i, 336 + 32 * i) == q.m_cap@[i].bytes@);
    }
}

/// A scalar's bytes are the 32-byte encoding of its value.
pub proof fn lemma_scalar_bytes(s: Scalar)
    ensures
        s.bytes@ == nat_to_be(s.value(), 32),
{
    lemma_be_roundtrip(s.bytes@);
}

/// `start + pts[0] * ks[0] + ... + pts[n - 1] * ks[n - 1]`.
fn accumulate(start: G1Point, pts: &Vec<G1Point>, ks: &Vec<Scalar>, n: usize) -> (r: G1Point)
    requires
        start.wf(),
        n <= pts@.len(),
        n <= ks@.len(),
        forall|i: int| 0 <= i < pts@.len() ==> (#[trigger] pts@[i]).wf(),
        forall|i: int| 0 <= i < ks@.len() ==> (#[trigger] ks@[i]).wf(),
    ensures
        r.wf(),
        r.bytes@ == spec_accumulate(start.bytes@, point_encodings(pts@), scalar_values(ks@), n as nat),
{
    let mut acc = start;
    let mut i: usize = 0;
    while i < n
        invariant
            i <= n,
            n <= pts@.len(),
            n <= ks@.len(),
            forall|i: int| 0 <= i < pts@.len() ==> (#[trigger] pts@[i]).wf(),
            forall|i: int| 0 <= i < ks@.len() ==> (#[trigger] ks@[i]).wf(),
            acc.wf(),
            acc.bytes@ == spec_accumulate(start.bytes@, point_encodings(pts@), scalar_values(ks@), i as nat),
        decreases n - i,
    {
        let term = g1_mul(&pts[i], &ks[i]);
        acc = g1_add(&acc, &term);
        i = i + 1;
    }
    acc
}

/// The points at the given indexes.
fn select_points(points: &Vec<G1Point>, idx: &Vec<usize>) -> (r: Vec<G1Point>)
    requires
        forall|i: int| 0 <= i < idx@.len() ==> #[trigger] idx@[i] < points@.len(),
        forall|i: int| 0 <= i < points@.len() ==> (#[trigger] points@[i]).wf(),
    ensures
        r@.len() == idx@.len(),
        point_encodings(r@) == select(point_encodings(points@), idx@),
        forall|i: int| 0 <= i < r@.len() ==> (#[trigger] r@[i]).wf(),
{
    let mut r: Vec<G1Point> = Vec::new();
    let n = idx.len();
    for i in 0..n
        invariant
            n == idx@.len(),
            forall|i: int| 0 <= i < idx@.len() ==> #[trigger] idx@[i] < points@.len(),
            forall|i: int| 0 <= i < points@.len() ==> (#[trigger] points@[i]).wf(),
            r@.len() == i,
            forall|j: int| 0 <= j < i ==> #[trigger] r@[j] == points@[idx@[j] as int],
    {
        r.push(points[idx[i]].copy());
    }
    assert(point_encodings(r@) =~= select(point_encodings(points@), idx@));
    r
}

/// The values of the messages, as scalars.
fn message_scalars(messages: &[BBSplusMessage]) -> (r: Vec<Scalar>)
    requires
        forall|i: int| 0 <= i < messages@.len() ==> (#[trigger] messages@[i]).wf(),
    ensures
        scalar_values(r@) == message_values(messages@),
        r@.len() == messages@.len(),
        forall|i: int| 0 <= i < r@.len() ==> (#[trigger] r@[i]).wf(),
{
    let mut r: Vec<Scalar> = Vec::new();
    let n = messages.len();
    for i in 0..n
        invariant
            n == messages@.len(),
            forall|i: int| 0 <= i < messages@.len() ==> (#[trigger] messages@[i]).wf(),
            r@.len() == i,
            forall|j: int| 0 <= j < i ==> #[trigger] r@[j] == messages@[j].value,
    {
        r.push(messages[i].value.copy());
    }
    assert(scalar_values(r@) =~= message_values(messages@));
    r
}

proof fn lemma_mul_add_mod(c: nat, x: nat, y: nat)
    requires
        y < scalar_modulus(),
    ensures
        (((c * x) % scalar_modulus()) + y) % scalar_modulus() == (c * x + y) % scalar_modulus(),
{
    vstd::arithmetic::div_mod::lemma_add_mod_noop((c * x) as int, y as int, scalar_modulus() as int);
    vstd::arithmetic::div_mod::lemma_small_mod(y, scalar_modulus());
    vstd::arithmetic::div_mod::lemma_mod_twice((c * x) as int, scalar_modulus() as int);
}

/// `c * x + y` modulo `r`.
fn scalar_mul_add(c: &Scalar, x: &Scalar, y: &Scalar) -> (r: Scalar)
    requires
        c.wf(),
        x.wf(),
        y.wf(),
    ensures
        r.wf(),
        r.value() == (c.value() * x.value() + y.value()) % scalar_modulus(),
{
    let cx = scalar_mul(c, x);
    let r = scalar_add(&cx, y);
    proof {
        lemma_mul_add_mod(c.value(), x.value(), y.value());
    }
    r
}

impl<CS: BbsCiphersuite + Ciphersuite> PoKSignature<BBSplus<CS>> {
    /// The challenge: the points, the disclosed indexes and messages, the
    /// domain and the presentation header, hashed to a scalar.
    pub fn calculate_challenge(
        a_prime: &G1Point,
        a_bar: &G1Point,
        d: &G1Point,
        c1: &G1Point,
        c2: &G1Point,
        i_array: &[usize],
        msg_array: &[BBSplusMessage],
        domain: &Scalar,
        ph: Option<&[u8]>,
    ) -> (r: Scalar)
        requires
            i_array@.len() == msg_array@.len(),
            48 <= CS::max_expand_len(),
            domain.wf(),
            forall|i: int| 0 <= i < msg_array@.len() ==> (#[trigger] msg_array@[i]).wf(),
        ensures
            r.wf(),
            r.value() == spec_challenge::<CS>(
                a_prime.bytes@,
                a_bar.bytes@,
                d.bytes@,
                c1.bytes@,
                c2.bytes@,
                i_array@,
                message_values(msg_array@),
                domain.value(),
                or_empty(ph),
            ),
    {
        let empty: Vec<u8> = Vec::new();
        let ph: &[u8] = match ph {
            Some(p) => p,
            None => empty.as_slice(),
        };
        let r_len = i_array.len();
        let mut c_array: Vec<u8> = Vec::new();
        append_bytes(&mut c_array, &a_prime.bytes);
        append_bytes(&mut c_array, &a_bar.bytes);
        append_bytes(&mut c_array, &d.bytes);
        append_bytes(&mut c_array, &c1.bytes);
        append_bytes(&mut c_array, &c2.bytes);
        let r_bytes = u64_to_be(r_len as u64, 8);
        append_bytes(&mut c_array, r_bytes.as_slice());
        let ghost before_idx = c_array@;
        for k in 0..r_len
            invariant
                r_len == i_array@.len(),
                c_array@ == before_idx + flatten(
                    i_array@.subrange(0, k as int).map_values(|i: usize| nat_to_be(i as nat, 8)),
                ),
        {
            let b = u64_to_be(i_array[k] as u64, 8);
            append_bytes(&mut c_array, b.as_slice());
            assert(i_array@.subrange(0, k + 1).map_values(|i: usize| nat_to_be(i as nat, 8)).drop_last()
                =~= i_array@.subrange(0, k as int).map_values(|i: usize| nat_to_be(i as nat, 8)));
        }
        assert(i_array@.subrange(0, r_len as int) =~= i_array@);
        let ghost before_msg = c_array@;
        let ghost mv = message_values(msg_array@);
        for k in 0..r_len
            invariant
                r_len == msg_array@.len(),
                mv == message_values(msg_array@),
                c_array@ == before_msg + flatten(
                    mv.subrange(0, k as int).map_values(|m: nat| nat_to_be(m, 32)),
                ),
        {
            append_bytes(&mut c_array, &msg_array[k].value.bytes);
            proof {
                lemma_scalar_bytes(msg_array@[k as int].value);
                assert(mv.subrange(0, k + 1).map_values(|m: nat| nat_to_be(m, 32)).drop_last()
                    =~= mv.subrange(0, k as int).map_values(|m: nat| nat_to_be(m, 32)));
            }
        }
        assert(mv.subrange(0, r_len as int) =~= mv);
        append_bytes(&mut c_array, &domain.bytes);
        proof {
            lemma_scalar_bytes(*domain);
        }
        let ph_len = u64_to_be(ph.len() as u64, 8);
        append_bytes(&mut c_array, ph_len.as_slice());
        append_bytes(&mut c_array, ph);
        assert(c_array@ =~= challenge_input(
            a_prime.bytes@,
            a_bar.bytes@,
            d.bytes@,
            c1.bytes@,
            c2.bytes@,
            i_array@,
            mv,
            domain.value(),
            ph@,
        ));
        let challenge = hash_to_scalar::<CS>(c_array.as_slice(), 1, None);
        let r = challenge[0].copy();
        assert(scalar_values(challenge@)[0] == r.value());
        r
    }

    /// The requirements of `proof_gen` that the caller can check from its
    /// arguments: well-formed values, disclosed indexes below the number of
    /// messages, enough message generators, and few enough undisclosed
    /// messages for one `expand_message`.
    pub open spec fn proof_gen_requires(
        signature: BBSplusSignature,
        pk: BBSplusPublicKey,
        messages: Seq<BBSplusMessage>,
        generators: Generators,
        revealed: Seq<usize>,
    ) -> bool {
        &&& signature.wf()
        &&& pk.wf()
        &&& generators.wf()
        &&& forall|i: int| 0 <= i < messages.len() ==> (#[trigger] messages[i]).wf()
        &&& revealed.len() <= messages.len()
        &&& forall|i: int| 0 <= i < revealed.len() ==> #[trigger] revealed[i] < messages.len()
        &&& generators.message_generators@.len() >= messages.len()
        &&& (6 + messages.len() - revealed.len()) * 48 <= CS::max_expand_len()
    }

    /// A proof of knowledge of `signature` on `messages` (none when absent)
    /// that discloses the messages at `revealed_message_indexes`. Its random
    /// scalars come from `seed` (empty when absent); the first of them, `r1`,
    /// must be invertible.
    #[verifier::rlimit(80)]
    #[verifier::spinoff_prover]
    pub fn proof_gen(
        signature: &BBSplusSignature,
        pk: &BBSplusPublicKey,
        messages: Option<&[BBSplusMessage]>,
        generators: &Generators,
        revealed_message_indexes: Option<&[usize]>,
        header: Option<&[u8]>,
        ph: Option<&[u8]>,
        seed: Option<&[u8]>,
    ) -> (r: Self)
        requires
            Self::proof_gen_requires(
                *signature,
                *pk,
                slice_or_empty(messages),
                *generators,
                slice_or_empty(revealed_message_indexes),
            ),
            proof_gen_random_scalars::<CS>(
                or_empty(seed),
                (slice_or_empty(messages).len() - slice_or_empty(revealed_message_indexes).len()) as nat,
            )[0] != 0,
        ensures
            r matches PoKSignature::BBSplus(p) && is_generated_proof::<CS>(
                p,
                *signature,
                *pk,
                slice_or_empty(messages),
                *generators,
                slice_or_empty(revealed_message_indexes),
                or_empty(header),
                or_empty(ph),
                or_empty(seed),
            ),
    {
        proof {
            CS::lemma_suite_facts();
        }
        let no_messages: Vec<BBSplusMessage> = Vec::new();
        let no_indexes: Vec<usize> = Vec::new();
        let no_bytes: Vec<u8> = Vec::new();
        let messages: &[BBSplusMessage] = match messages {
            Some(m) => m,
            None => no_messages.as_slice(),
        };
        let revealed: &[usize] = match revealed_message_indexes {
            Some(m) => m,
            None => no_indexes.as_slice(),
        };
        let header: &[u8] = match header {
            Some(m) => m,
            None => no_bytes.as_slice(),
        };
        let ph: &[u8] = match ph {
            Some(m) => m,
            None => no_bytes.as_slice(),
        };
        let seed: &[u8] = match seed {
            Some(m) => m,
            None => no_bytes.as_slice(),
        };
        let l = messages.len();
        let u = l - revealed.len();
        let unrevealed = get_remaining_indexes(l, revealed);
        proof {
            lemma_remaining_len(l as nat, revealed@);
            lemma_remaining_shape(l as nat, revealed@);
        }
        let revealed_messages = get_messages(messages, revealed);
        let unrevealed_messages = get_messages(messages, unrevealed.as_slice());
        let h_j = select_points(&generators.message_generators, &unrevealed);
        let domain = calculate_domain::<CS>(
            pk,
            &generators.q1,
            &generators.q2,
            generators.message_generators.as_slice(),
            Some(header),
        );
        let random_scalars = calculate_random_scalars::<CS>(6 + u, seed);
        let ghost rs = scalar_values(random_scalars@);
        let r1 = random_scalars[0].copy();
        let r2 = random_scalars[1].copy();
        let e_tilde = random_scalars[2].copy();
        let r2_tilde = random_scalars[3].copy();
        let r3_tilde = random_scalars[4].copy();
        let s_tilde = random_scalars[5].copy();
        let m_tilde = copy_scalars(&random_scalars, 6, 6 + u);
        assert(scalar_values(m_tilde@) =~= rs.subrange(6, 6 + u as int));
        let msg_scalars = message_scalars(messages);
        let b0 = g1_add(
            &g1_add(&generators.g1_base_point, &g1_mul(&generators.q1, &signature.s)),
            &g1_mul(&generators.q2, &domain),
        );
        let b = accumulate(b0, &generators.message_generators, &msg_scalars, l);
        let r3 = scalar_invert(&r1).unwrap();
        let a_prime = g1_mul(&signature.a, &r1);
        let a_bar = g1_add(&g1_mul(&a_prime, &scalar_neg(&signature.e)), &g1_mul(&b, &r1));
        let d = g1_add(&g1_mul(&b, &r1), &g1_mul(&generators.q1, &r2));
        let s_prime = scalar_mul_add(&r2, &r3, &signature.s);
        let c1 = g1_add(&g1_mul(&a_prime, &e_tilde), &g1_mul(&generators.q1, &r2_tilde));
        let c2_0 = g1_add(&g1_mul(&d, &scalar_neg(&r3_tilde)), &g1_mul(&generators.q1, &s_tilde));
        let c2 = accumulate(c2_0, &h_j, &m_tilde, u);
        assert(message_values(revealed_messages@) =~= select(message_values(messages@), revealed@));
        let c = Self::calculate_challenge(
            &a_prime,
            &a_bar,
            &d,
            &c1,
            &c2,
            revealed,
            revealed_messages.as_slice(),
            &domain,
            Some(ph),
        );
        let e_cap = scalar_mul_add(&c, &signature.e, &e_tilde);
        let r2_cap = scalar_mul_add(&c, &r2, &r2_tilde);
        let r3_cap = scalar_mul_add(&c, &r3, &r3_tilde);
        let s_cap = scalar_mul_add(&c, &s_prime, &s_tilde);
        let m_cap = message_responses(&c, &unrevealed_messages, &m_tilde, u);
        let p = BBSplusPoKSignature { a_prime, a_bar, d, c, e_cap, r2_cap, r3_cap, s_cap, m_cap };
        PoKSignature::BBSplus(p)
    }

    /// Like `proof_gen`, but checked: `None` where the arguments do not meet
    /// what `proof_gen` needs of them (points that do not decode, scalars
    /// that are not canonical, indexes out of range, too few generators, too
    /// many undisclosed messages), or where the first random scalar that
    /// `seed` gives is zero, which has no inverse.
    pub fn proof_gen_checked(
        signature: &BBSplusSignature,
        pk: &BBSplusPublicKey,
        messages: Option<&[BBSplusMessage]>,
        generators: &Generators,
        revealed_message_indexes: Option<&[usize]>,
        header: Option<&[u8]>,
        ph: Option<&[u8]>,
        seed: Option<&[u8]>,
    ) -> (r: Option<Self>)
        ensures
            r is None <==> !Self::proof_gen_requires(
                *signature,
                *pk,
                slice_or_empty(messages),
                *generators,
                slice_or_empty(revealed_message_indexes),
            ) || proof_gen_random_scalars::<CS>(
                or_empty(seed),
                (slice_or_empty(messages).len() - slice_or_empty(revealed_message_indexes).len()) as nat,
            )[0] == 0,
            r matches Some(PoKSignature::BBSplus(p)) ==> is_generated_proof::<CS>(
                p,
                *signature,
                *pk,
                slice_or_empty(messages),
                *generators,
                slice_or_empty(revealed_message_indexes),
                or_empty(header),
                or_empty(ph),
                or_empty(seed),
            ),
            r matches Some(q) ==> q is BBSplus,
    {
        let no_bytes: Vec<u8> = Vec::new();
        let seed_bytes: &[u8] = match seed {
            Some(m) => m,
            None => no_bytes.as_slice(),
        };
        let l = match messages {
            Some(m) => m.len(),
            None => 0,
        };
        let rl = match revealed_message_indexes {
            Some(m) => m.len(),
            None => 0,
        };
        proof {
            CS::lemma_suite_facts();
        }
        assert(l == slice_or_empty(messages).len() && rl == slice_or_empty(revealed_message_indexes).len());
        let no_messages: Vec<BBSplusMessage> = Vec::new();
        let no_indexes: Vec<usize> = Vec::new();
        let msgs: &[BBSplusMessage] = match messages {
            Some(m) => m,
            None => no_messages.as_slice(),
        };
        let revealed: &[usize] = match revealed_message_indexes {
            Some(m) => m,
            None => no_indexes.as_slice(),
        };
        if !(signature.is_well_formed() && pk.is_well_formed() && generators.is_well_formed()
            && messages_well_formed(msgs) && rl <= l && all_below(revealed, l)
            && generators.message_generators.len() >= l) {
            return None;
        }
        let expand_ok = match (l - rl).checked_add(6) {
            Some(v) => match v.checked_mul(48) {
                Some(w) => w <= CS::max_expand_length(),
                None => false,
            },
            None => false,
        };
        if !expand_ok {
            return None;
        }
        let random_scalars = calculate_random_scalars::<CS>(6 + (l - rl), seed_bytes);
        assert(scalar_values(random_scalars@)[0] == random_scalars@[0].value());
        if random_scalars[0].is_zero() {
            return None;
        }
        Some(
            Self::proof_gen(
                signature,
                pk,
                messages,
                generators,
                revealed_message_indexes,
                header,
                ph,
                seed,
            ),
        )
    }

    /// The requirements of `proof_verify`: a BBS+ proof, well-formed
    /// values, as many disclosed messages as indexes, and a message generator
    /// for every index below the number of messages and every disclosed index.
    pub open spec fn proof_verify_requires(
        &self,
        pk: BBSplusPublicKey,
        revealed_messages: Seq<BBSplusMessage>,
        generators: Generators,
        revealed: Seq<usize>,
    ) -> bool {
        &&& self matches PoKSignature::BBSplus(p)
        &&& self->BBSplus_0.wf()
        &&& pk.wf()
        &&& generators.wf()
        &&& forall|i: int| 0 <= i < revealed_messages.len() ==> (#[trigger] revealed_messages[i]).wf()
        &&& revealed_messages.len() == revealed.len()
        &&& revealed.len() + self->BBSplus_0.m_cap@.len() <= usize::MAX
        &&& generators.message_generators@.len() >= revealed.len() + self->BBSplus_0.m_cap@.len()
        &&& forall|i: int| 0 <= i < revealed.len() ==> #[trigger] revealed[i] <= revealed.len() + self->BBSplus_0.m_cap@.len()
            && revealed[i] < generators.message_generators@.len()
    }

    /// Like `proof_verify`, but checked: `None` where the arguments do not
    /// meet what `proof_verify` needs of them (a proof of another scheme,
    /// points that do not decode, scalars that are not canonical, as many
    /// disclosed messages as indexes, indexes in range, enough generators).
    pub fn proof_verify_checked(
        &self,
        pk: &BBSplusPublicKey,
        revealed_messages: Option<&[BBSplusMessage]>,
        generators: &Generators,
        revealed_message_indexes: Option<&[usize]>,
        header: Option<&[u8]>,
        ph: Option<&[u8]>,
    ) -> (r: Option<bool>)
        ensures
            r is None <==> !self.proof_verify_requires(
                *pk,
                slice_or_empty(revealed_messages),
                *generators,
                slice_or_empty(revealed_message_indexes),
            ),
            r == Some(true) ==> spec_pairing_check(
                self->BBSplus_0.a_prime.bytes@,
                pk.0.bytes@,
                self->BBSplus_0.a_bar.bytes@,
            ),
            r matches Some(b) ==> b == is_valid_proof::<CS>(
                self->BBSplus_0,
                *pk,
                slice_or_empty(revealed_messages),
                *generators,
                slice_or_empty(revealed_message_indexes),
                or_empty(header),
                or_empty(ph),
            ),
    {
        let p = match self {
            PoKSignature::BBSplus(p) => p,
            _ => {
                return None;
            },
        };
        let no_messages: Vec<BBSplusMessage> = Vec::new();
        let no_indexes: Vec<usize> = Vec::new();
        let rm: &[BBSplusMessage] = match revealed_messages {
            Some(m) => m,
            None => no_messages.as_slice(),
        };
        let revealed: &[usize] = match revealed_message_indexes {
            Some(m) => m,
            None => no_indexes.as_slice(),
        };
        let rl = revealed.len();
        let total = match rl.checked_add(p.m_cap.len()) {
            Some(t) => t,
            None => {
                return None;
            },
        };
        let mg = generators.message_generators.len();
        if !(p.is_well_formed() && pk.is_well_formed() && generators.is_well_formed() && messages_well_formed(rm)
            && rm.len() == rl && mg >= total && all_below(revealed, mg)) {
            return None;
        }
        if total < usize::MAX && !all_below(revealed, total + 1) {
            return None;
        }
        Some(self.proof_verify(pk, revealed_messages, generators, revealed_message_indexes, header, ph))
    }

    /// Whether this proof shows knowledge of a signature under `pk` on
    /// messages that include `revealed_messages` at `revealed_message_indexes`.
    pub fn proof_verify(
        &self,
        pk: &BBSplusPublicKey,
        revealed_messages: Option<&[BBSplusMessage]>,
        generators: &Generators,
        revealed_message_indexes: Option<&[usize]>,
        header: Option<&[u8]>,
        ph: Option<&[u8]>,
    ) -> (r: bool)
        requires
            self.proof_verify_requires(
                *pk,
                slice_or_empty(revealed_messages),
                *generators,
                slice_or_empty(revealed_message_indexes),
            ),
        ensures
            r ==> spec_pairing_check(self->BBSplus_0.a_prime.bytes@, pk.0.bytes@, self->BBSplus_0.a_bar.bytes@),
            r ==> self->BBSplus_0.a_prime.bytes@ != g1_identity_encoding(),
            r == is_valid_proof::<CS>(
                self->BBSplus_0,
                *pk,
                slice_or_empty(revealed_messages),
                *generators,
                slice_or_empty(revealed_message_indexes),
                or_empty(header),
                or_empty(ph),
            ),
    {
        proof {
            CS::lemma_suite_facts();
        }
        let proof = self.to_bbsplus_proof();
        let no_messages: Vec<BBSplusMessage> = Vec::new();
        let no_indexes: Vec<usize> = Vec::new();
        let no_bytes: Vec<u8> = Vec::new();
        let revealed_messages: &[BBSplusMessage] = match revealed_messages {
            Some(m) => m,
            None => no_messages.as_slice(),
        };
        let revealed: &[usize] = match revealed_message_indexes {
            Some(m) => m,
            None => no_indexes.as_slice(),
        };
        let header: &[u8] = match header {
            Some(m) => m,
            None => no_bytes.as_slice(),
        };
        let ph: &[u8] = match ph {
            Some(m) => m,
            None => no_bytes.as_slice(),
        };
        let u = proof.m_cap.len();
        let rl = revealed.len();
        let l = rl + u;
        let unrevealed = get_remaining_indexes(l, revealed);
        proof {
            lemma_remaining_len(l as nat, revealed@);
            lemma_remaining_shape(l as nat, revealed@);
        }
        let revealed_vec = crate::utils::to_usize_vec(revealed);
        let h_i = select_points(&generators.message_generators, &revealed_vec);
        let h_j = select_points(&generators.message_generators, &unrevealed);
        let domain = calculate_domain::<CS>(
            pk,
            &generators.q1,
            &generators.q2,
            generators.message_generators.as_slice(),
            Some(header),
        );
        let c1 = g1_add(
            &g1_add(
                &g1_mul(&g1_add(&proof.a_bar, &g1_neg(&proof.d)), &proof.c),
                &g1_mul(&proof.a_prime, &proof.e_cap),
            ),
            &g1_mul(&generators.q1, &proof.r2_cap),
        );
        let t0 = g1_add(&generators.g1_base_point, &g1_mul(&generators.q2, &domain));
        let msg_scalars = message_scalars(revealed_messages);
        let t = accumulate(t0, &h_i, &msg_scalars, rl);
        let c2_0 = g1_add(
            &g1_add(&g1_mul(&t, &proof.c), &g1_mul(&proof.d, &scalar_neg(&proof.r3_cap))),
            &g1_mul(&generators.q1, &proof.s_cap),
        );
        let c2 = accumulate(c2_0, &h_j, &proof.m_cap, u);
        let cv = Self::calculate_challenge(
            &proof.a_prime,
            &proof.a_bar,
            &proof.d,
            &c1,
            &c2,
            revealed,
            revealed_messages,
            &domain,
            Some(ph),
        );
        if !proof.c.equals(&cv) {
            return false;
        }
        if proof.a_prime.equals(&g1_identity()) {
            return false;
        }
        pairing_check(&proof.a_prime, &pk.0, &proof.a_bar)
    }

    /// The bytes of the proof: `A'`, `A_bar`, `D`, compressed, then `c`,
    /// `e^`, `r2^`, `r3^`, `s^` and each `m^`, big-endian.
    pub fn to_bytes(&self) -> (r: Vec<u8>)
        requires
            self is BBSplus,
        ensures
            r@ == bbsplus_proof_bytes(self->BBSplus_0),
            r@.len() == 304 + 32 * self->BBSplus_0.m_cap@.len(),
            r@.subrange(0, 48) == self->BBSplus_0.a_prime.bytes@,
            r@.subrange(48, 96) == self->BBSplus_0.a_bar.bytes@,
            r@.subrange(96, 144) == self->BBSplus_0.d.bytes@,
            r@.subrange(144, 176) == self->BBSplus_0.c.bytes@,
            r@.subrange(176, 208) == self->BBSplus_0.e_cap.bytes@,
            r@.subrange(208, 240) == self->BBSplus_0.r2_cap.bytes@,
            r@.subrange(240, 272) == self->BBSplus_0.r3_cap.bytes@,
            r@.subrange(272, 304) == self->BBSplus_0.s_cap.bytes@,
            forall|i: int|
                0 <= i < self->BBSplus_0.m_cap@.len() ==> #[trigger] r@.subrange(304 + 32 * i, 336 + 32 * i)
                    == self->BBSplus_0.m_cap@[i].bytes@,
            r@.subrange(144, 176) == nat_to_be(self->BBSplus_0.c.value(), 32),
            r@.subrange(176, 208) == nat_to_be(self->BBSplus_0.e_cap.value(), 32),
            r@.subrange(208, 240) == nat_to_be(self->BBSplus_0.r2_cap.value(), 32),
            r@.subrange(240, 272) == nat_to_be(self->BBSplus_0.r3_cap.value(), 32),
            r@.subrange(272, 304) == nat_to_be(self->BBSplus_0.s_cap.value(), 32),
    {
        proof {
            lemma_proof_bytes_layout(self->BBSplus_0);
            lemma_scalar_bytes(self->BBSplus_0.c);
            lemma_scalar_bytes(self->BBSplus_0.e_cap);
            lemma_scalar_bytes(self->BBSplus_0.r2_cap);
            lemma_scalar_bytes(self->BBSplus_0.r3_cap);
            lemma_scalar_bytes(self->BBSplus_0.s_cap);
        }
        let signature = self.to_bbsplus_proof();
        let mut bytes: Vec<u8> = Vec::new();
        append_bytes(&mut bytes, &signature.a_prime.bytes);
        append_bytes(&mut bytes, &signature.a_bar.bytes);
        append_bytes(&mut bytes, &signature.d.bytes);
        append_bytes(&mut bytes, &signature.c.bytes);
        append_bytes(&mut bytes, &signature.e_cap.bytes);
        append_bytes(&mut bytes, &signature.r2_cap.bytes);
        append_bytes(&mut bytes, &signature.r3_cap.bytes);
        append_bytes(&mut bytes, &signature.s_cap.bytes);
        let ghost before = bytes@;
        let ghost m = signature.m_cap@;
        let n = signature.m_cap.len();
        for i in 0..n
            invariant
                n == m.len(),
                m == signature.m_cap@,
                bytes@ == before + flatten(m.subrange(0, i as int).map_values(|s: Scalar| s.bytes@)),
        {
            append_bytes(&mut bytes, &signature.m_cap[i].bytes);
            assert(m.subrange(0, i + 1).map_values(|s: Scalar| s.bytes@).drop_last() =~= m.subrange(
                0,
                i as int,
            ).map_values(|s: Scalar| s.bytes@));
        }
        assert(m.subrange(0, n as int) =~= m);
        bytes
    }

    /// The BBS+ proof inside.
    pub fn to_bbsplus_proof(&self) -> (r: &BBSplusPoKSignature)
        requires
            self is BBSplus,
        ensures
            *r == self->BBSplus_0,
    {
        match self {
            PoKSignature::BBSplus(inner) => inner,
            _ => vstd::pervasive::unreached(),
        }
    }
}

/// Copies `v[from..to]`.
fn copy_scalars(v: &Vec<Scalar>, from: usize, to: usize) -> (r: Vec<Scalar>)
    requires
        from <= to <= v@.len(),
        forall|i: int| 0 <= i < v@.len() ==> (#[trigger] v@[i]).wf(),
    ensures
        r@ == v@.subrange(from as int, to as int),
        forall|i: int| 0 <= i < r@.len() ==> (#[trigger] r@[i]).wf(),
{
    let mut r: Vec<Scalar> = Vec::new();
    let mut i = from;
    while i < to
        invariant
            from <= i <= to,
            to <= v@.len(),
            r@ == v@.subrange(from as int, i as int),
        decreases to - i,
    {
        r.push(v[i].copy());
        assert(v@.subrange(from as int, i + 1) =~= v@.subrange(from as int, i as int).push(v@[i as int]));
        i = i + 1;
    }
    r
}

impl<CS: CLCiphersuite + Ciphersuite> PoKSignature<CL03<CS>> {
    /// A proof of knowledge of a CL03 `signature` on `messages` that hides
    /// the messages at `unrevealed_message_indexes`.
    pub fn proof_gen(
        signature: &CL03Signature,
        commitment_pk: &CL03CommitmentPublicKey,
        signer_pk: &CL03PublicKey,
        messages: &[CL03Message],
        unrevealed_message_indexes: &[usize],
    ) -> (r: Self)
        requires
            nisp5_generate_requires(*signature, *commitment_pk, *signer_pk, messages@, unrevealed_message_indexes@),
        ensures
            r matches PoKSignature::CL03(p) && exists|rnd: Nisp5Randomness|
                rnd.within(vstd::arithmetic::power::pow(2, CS::spec_ln()), messages@.len())
                    && #[trigger] is_nisp5_proof::<CS>(
                    p,
                    *signature,
                    *commitment_pk,
                    *signer_pk,
                    messages@,
                    unrevealed_message_indexes@,
                    rnd,
                ),
    {
        let p = CL03PoKSignature::nisp5_MultiAttr_generate_proof::<CS>(
            signature,
            commitment_pk,
            signer_pk,
            messages,
            unrevealed_message_indexes,
        );
        let r = PoKSignature::CL03(p);
        assert(r->CL03_0 == p);
        r
    }

    /// Whether this CL03 proof verifies against the keys and the disclosed
    /// messages.
    pub fn proof_verify(
        &self,
        commitment_pk: &CL03CommitmentPublicKey,
        signer_pk: &CL03PublicKey,
        messages: &[CL03Message],
        unrevealed_message_indexes: &[usize],
    ) -> (r: bool)
        requires
            self is CL03,
            nisp5_verify_requires(self->CL03_0, *commitment_pk, *signer_pk, messages@, unrevealed_message_indexes@),
        ensures
            r == (nisp5_challenge::<CS>(
                nisp5_verify_values(self->CL03_0, *commitment_pk, *signer_pk, messages@, unrevealed_message_indexes@),
            ) == self->CL03_0.challenge.value()),
    {
        self.to_cl03_proof().nisp5_MultiAttr_verify_proof::<CS>(
            commitment_pk,
            signer_pk,
            messages,
            unrevealed_message_indexes,
        )
    }

    /// The CL03 proof inside.
    pub fn to_cl03_proof(&self) -> (r: &CL03PoKSignature)
        requires
            self is CL03,
        ensures
            *r == self->CL03_0,
    {
        match self {
            PoKSignature::CL03(inner) => inner,
            _ => vstd::pervasive::unreached(),
        }
    }
}

} // verus!
