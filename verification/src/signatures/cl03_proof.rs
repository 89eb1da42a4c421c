//! Proofs of knowledge of CL03 signatures on committed messages, with
//! selective disclosure (the NISP5 multi-attribute protocol).
use crate::bytes::be_to_nat;
use crate::cl03::ciphersuites::CLCiphersuite;
use crate::cl03::commitment::{
    commit_v, commit_v_value, commit_value, commit_with_commitment_pk, powers_exist,
    prod_pow_mod, product_pow_mod, values, CL03Commitment,
};
use crate::cl03::keys::{CL03CommitmentPublicKey, CL03PublicKey};
use crate::cl03::message::{cl03_message_values, CL03Message};
use crate::integer::{
    decimal, divm, integer_add, integer_decimal, integer_eq, integer_mul, integer_rem, invertible,
    lemma_invertible_mod, lemma_mod_inverse, mod_inverse, pow_mod_of, random_bits, spec_pow_mod,
    Integer,
};
use crate::signatures::signature::CL03Signature;
use vstd::arithmetic::power::pow;
use vstd::prelude::*;

verus! {

/// A proof of knowledge of a CL03 signature on committed messages.
pub struct CL03PoKSignature {
    pub challenge: Integer,
    pub s_1: Integer,
    pub s_2: Integer,
    pub s_3: Integer,
    pub s_4: Integer,
    pub s_5: Vec<Integer>,
    pub s_6: Integer,
    pub s_7: Integer,
    pub s_8: Integer,
    pub s_9: Integer,
    pub cx: CL03Commitment,
    pub cv: CL03Commitment,
    pub cw: CL03Commitment,
    pub ce: CL03Commitment,
}

/// The random values of one proof: the randomness of the commitments to
/// the messages (`r_x`), to `v` (`w`), to `w` (`r_w`) and to `e` (`r_e`),
/// and the blinding values `r_1` to `r_9` (`r_5` has one per message).
pub struct Nisp5Randomness {
    pub r_x: Integer,
    pub w: Integer,
    pub r_w: Integer,
    pub r_e: Integer,
    pub r_1: Integer,
    pub r_2: Integer,
    pub r_3: Integer,
    pub r_4: Integer,
    pub r_5: Vec<Integer>,
    pub r_6: Integer,
    pub r_7: Integer,
    pub r_8: Integer,
    pub r_9: Integer,
}

impl Nisp5Randomness {
    /// Every value is non-negative, with at least `k` values of `r_5`.
    pub open spec fn nonneg(&self, k: nat) -> bool {
        &&& self.r_x.value() >= 0
        &&& self.w.value() >= 0
        &&& self.r_w.value() >= 0
        &&& self.r_e.value() >= 0
        &&& self.r_5@.len() >= k
        &&& forall|i: int| 0 <= i < self.r_5@.len() ==> #[trigger] self.r_5@[i].value() >= 0
        &&& self.r_1.value() >= 0
        &&& self.r_2.value() >= 0
        &&& self.r_3.value() >= 0
        &&& self.r_4.value() >= 0
        &&& self.r_6.value() >= 0
        &&& self.r_7.value() >= 0
        &&& self.r_8.value() >= 0
        &&& self.r_9.value() >= 0
    }

    /// Every value lies in `[0, bound)`, with at least `k` values of `r_5`.
    pub open spec fn within(&self, bound: int, k: nat) -> bool {
        &&& 0 <= self.r_x.value() < bound
        &&& 0 <= self.w.value() < bound
        &&& 0 <= self.r_w.value() < bound
        &&& 0 <= self.r_e.value() < bound
        &&& 0 <= self.r_1.value() < bound
        &&& 0 <= self.r_2.value() < bound
        &&& 0 <= self.r_3.value() < bound
        &&& 0 <= self.r_4.value() < bound
        &&& 0 <= self.r_6.value() < bound
        &&& 0 <= self.r_7.value() < bound
        &&& 0 <= self.r_8.value() < bound
        &&& 0 <= self.r_9.value() < bound
        &&& self.r_5@.len() >= k
        &&& forall|i: int| 0 <= i < self.r_5@.len() ==> 0 <= #[trigger] self.r_5@[i].value() < bound
    }
}

/// `a` divided by `b` modulo `n`.
pub open spec fn spec_divm(a: int, b: int, n: int) -> int {
    (a * mod_inverse(b, n)) % n
}

/// The exponents of the bases in the first and fourth values: the random
/// `r_5[i]` for an undisclosed message, the message itself otherwise.
pub open spec fn nisp5_exponents(m: Seq<int>, r5: Seq<int>, unrevealed: Seq<usize>, k: nat) -> Seq<int> {
    Seq::new(k, |i: int| if unrevealed.contains(i as usize) { r5[i] } else { m[i] })
}

/// The five values that the prover commits to in the challenge.
pub open spec fn nisp5_t_values(
    a: Seq<int>,
    b: int,
    g: Seq<int>,
    h: int,
    n: int,
    k: nat,
    exps: Seq<int>,
    cv: int,
    cw: int,
    r: Seq<int>,
) -> Seq<int> {
    let g0 = g[0];
    let t_cx = prod_pow_mod(a, exps, n, k) % n;
    let t1 = (spec_pow_mod(cv, r[4], n) * spec_divm(1, t_cx, n) * spec_pow_mod(spec_divm(1, b, n), r[6], n)
        * spec_pow_mod(spec_divm(1, g0, n), r[8], n)) % n;
    let t2 = (spec_pow_mod(g0, r[7], n) * spec_pow_mod(h, r[1], n)) % n;
    let t3 = (spec_pow_mod(cw, r[4], n) * spec_pow_mod(spec_divm(1, g0, n), r[8], n) * spec_pow_mod(
        spec_divm(1, h, n),
        r[2],
        n,
    )) % n;
    let t4 = (prod_pow_mod(g, exps, n, k) * spec_pow_mod(h, r[3], n)) % n;
    let t5 = (spec_pow_mod(g0, r[4], n) * spec_pow_mod(h, r[9], n)) % n;
    seq![t1, t2, t3, t4, t5]
}

/// The decimal forms of five values, one after the other.
pub open spec fn decimal_concat(t: Seq<int>) -> Seq<u8> {
    decimal(t[0]) + decimal(t[1]) + decimal(t[2]) + decimal(t[3]) + decimal(t[4])
}

/// The challenge of five values: the digest of their decimal forms, read as
/// a big-endian integer.
pub open spec fn nisp5_challenge<CS: CLCiphersuite>(t: Seq<int>) -> int {
    be_to_nat(CS::spec_digest(decimal_concat(t))) as int
}

/// The blinding values `r_1` to `r_9` (index 0 and 5 unused).
pub open spec fn blinding(rnd: Nisp5Randomness) -> Seq<int> {
    seq![
        0,
        rnd.r_1.value(),
        rnd.r_2.value(),
        rnd.r_3.value(),
        rnd.r_4.value(),
        0,
        rnd.r_6.value(),
        rnd.r_7.value(),
        rnd.r_8.value(),
        rnd.r_9.value(),
    ]
}

/// What the prover needs of its inputs: the moduli exceed 1, there are
/// bases for every message, the undisclosed indexes name messages, and the
/// inverses and powers that the proof takes exist.
pub open spec fn nisp5_generate_requires(
    signature: CL03Signature,
    commitment_pk: CL03CommitmentPublicKey,
    signer_pk: CL03PublicKey,
    messages: Seq<CL03Message>,
    unrevealed: Seq<usize>,
) -> bool {
    let k = messages.len();
    let n = signer_pk.n.value();
    let cn = commitment_pk.n.value();
    let g = values(commitment_pk.g_bases@);
    let m = cl03_message_values(messages);
    &&& n > 1
    &&& cn > 1
    &&& k <= signer_pk.a_bases@.len()
    &&& k <= commitment_pk.g_bases@.len()
    &&& commitment_pk.g_bases@.len() >= 1
    &&& forall|j: int| 0 <= j < unrevealed.len() ==> #[trigger] unrevealed[j] < k
    &&& forall|i: int| 0 <= i < k && (unrevealed.contains(i as usize) || m[i] != 0) ==> invertible(
        #[trigger] values(signer_pk.a_bases@)[i],
        n,
    )
    &&& invertible(signer_pk.b.value(), n)
    &&& invertible(g[0], n)
    &&& invertible(commitment_pk.h.value(), n)
    &&& powers_exist(g, m, cn, k)
    &&& (signature.e.value() >= 0 || invertible(g[0], cn))
    &&& forall|i: int| 0 <= i < k && !unrevealed.contains(i as usize) ==> m[i] >= 0 || invertible(#[trigger] g[i], n)
}

/// `p` is the proof that the prover makes with the random values `rnd`.
pub open spec fn is_nisp5_proof<CS: CLCiphersuite>(
    p: CL03PoKSignature,
    signature: CL03Signature,
    commitment_pk: CL03CommitmentPublicKey,
    signer_pk: CL03PublicKey,
    messages: Seq<CL03Message>,
    unrevealed: Seq<usize>,
    rnd: Nisp5Randomness,
) -> bool {
    let k = messages.len();
    let n = signer_pk.n.value();
    let cn = commitment_pk.n.value();
    let g = values(commitment_pk.g_bases@);
    let h = commitment_pk.h.value();
    let m = cl03_message_values(messages);
    let e = signature.e.value();
    let w = rnd.w.value();
    let cx = commit_value(g, m, h, rnd.r_x.value(), cn);
    let cv = commit_v_value(signature.v.value(), g[0], w, cn);
    let cw = commit_value(g, seq![w], h, rnd.r_w.value(), cn);
    let ce = commit_value(g, seq![e], h, rnd.r_e.value(), cn);
    let exps = nisp5_exponents(m, values(rnd.r_5@), unrevealed, k);
    let r = blinding(rnd);
    let c = nisp5_challenge::<CS>(
        nisp5_t_values(values(signer_pk.a_bases@), signer_pk.b.value(), g, h, n, k, exps, cv, cw, r),
    );
    &&& p.cx.value.value() == cx && p.cx.randomness.value() == rnd.r_x.value()
    &&& p.cv.value.value() == cv && p.cv.randomness.value() == w
    &&& p.cw.value.value() == cw && p.cw.randomness.value() == rnd.r_w.value()
    &&& p.ce.value.value() == ce && p.ce.randomness.value() == rnd.r_e.value()
    &&& p.challenge.value() == c
    &&& p.s_1.value() == r[1] + rnd.r_w.value() * c
    &&& p.s_2.value() == r[2] + rnd.r_w.value() * e * c
    &&& p.s_3.value() == r[3] + rnd.r_x.value() * c
    &&& p.s_4.value() == r[4] + e * c
    &&& p.s_5@.len() == unrevealed.len()
    &&& forall|j: int| 0 <= j < unrevealed.len() ==> #[trigger] p.s_5@[j].value() == exps[unrevealed[j] as int] + m[unrevealed[j] as int] * c
    &&& p.s_6.value() == r[6] + signature.s.value() * c
    &&& p.s_7.value() == r[7] + w * c
    &&& p.s_8.value() == r[8] + w * e * c
    &&& p.s_9.value() == r[9] + rnd.r_e.value() * c
}

/// Whether `i` is among the indexes.
pub fn contains_index(s: &[usize], i: usize) -> (r: bool)
    ensures
        r == s@.contains(i),
{
    let n = s.len();
    for j in 0..n
        invariant
            n == s@.len(),
            forall|t: int| 0 <= t < j ==> s@[t] != i,
    {
        if s[j] == i {
            assert(s@[j as int] == i);
            return true;
        }
    }
    false
}

/// `(x * y) % n` for non-negative `x` and `y`.
fn mul_rem(x: &Integer, y: &Integer, n: &Integer) -> (r: Integer)
    requires
        n.value() > 0,
        x.value() >= 0,
        y.value() >= 0,
    ensures
        r.value() == (x.value() * y.value()) % n.value(),
        0 <= r.value() < n.value(),
{
    proof {
        assert(x.value() * y.value() >= 0) by (nonlinear_arith)
            requires
                x.value() >= 0,
                y.value() >= 0,
        ;
        vstd::arithmetic::div_mod::lemma_mod_bound(x.value() * y.value(), n.value());
    }
    integer_rem(&integer_mul(x, y), n)
}

/// The inverse of `b` modulo `n`, computed as `divm(1, b, n)`.
fn inverse_of(b: &Integer, n: &Integer) -> (r: Integer)
    requires
        n.value() > 1,
        invertible(b.value(), n.value()),
    ensures
        r.value() == spec_divm(1, b.value(), n.value()),
        0 <= r.value() < n.value(),
        invertible(r.value(), n.value()),
{
    let one = Integer::from_u64(1);
    let r = divm(&one, b, n);
    proof {
        lemma_mod_inverse(b.value(), n.value());
        vstd::arithmetic::div_mod::lemma_small_mod(mod_inverse(b.value(), n.value()) as nat, n.value() as nat);
        assert(1 * mod_inverse(b.value(), n.value()) == mod_inverse(b.value(), n.value()));
    }
    r
}

/// The five values that the prover commits to.
fn nisp5_t(
    signer_pk: &CL03PublicKey,
    commitment_pk: &CL03CommitmentPublicKey,
    k: usize,
    exps: &Vec<Integer>,
    cv: &Integer,
    cw: &Integer,
    rnd: &Nisp5Randomness,
) -> (r: Vec<Integer>)
    requires
        signer_pk.n.value() > 1,
        k <= signer_pk.a_bases@.len(),
        k <= commitment_pk.g_bases@.len(),
        k <= exps@.len(),
        commitment_pk.g_bases@.len() >= 1,
        forall|i: int|
            0 <= i < k ==> values(exps@)[i] == 0 || invertible(#[trigger] values(signer_pk.a_bases@)[i], signer_pk.n.value()),
        invertible(signer_pk.b.value(), signer_pk.n.value()),
        invertible(commitment_pk.g_bases@[0].value(), signer_pk.n.value()),
        invertible(commitment_pk.h.value(), signer_pk.n.value()),
        powers_exist(values(commitment_pk.g_bases@), values(exps@), signer_pk.n.value(), k as nat),
        cv.value() >= 0,
        cw.value() >= 0,
        rnd.nonneg(0),
    ensures
        r@.len() == 5,
        values(r@) == nisp5_t_values(
            values(signer_pk.a_bases@),
            signer_pk.b.value(),
            values(commitment_pk.g_bases@),
            commitment_pk.h.value(),
            signer_pk.n.value(),
            k as nat,
            values(exps@),
            cv.value(),
            cw.value(),
            blinding(*rnd),
        ),
{
    let n = &signer_pk.n;
    let ghost nv = n.value();
    let g0 = &commitment_pk.g_bases[0];
    let h = &commitment_pk.h;
    assert(powers_exist(values(signer_pk.a_bases@), values(exps@), nv, k as nat));
    let prod_a = product_pow_mod(&signer_pk.a_bases, exps, n, k);
    proof {
        vstd::arithmetic::div_mod::lemma_mod_bound(prod_a.value(), nv);
    }
    let t_cx = integer_rem(&prod_a, n);
    proof {
        lemma_invertible_mod(prod_a.value(), nv);
    }
    let inv_t_cx = inverse_of(&t_cx, n);
    let inv_b = inverse_of(&signer_pk.b, n);
    let inv_g0 = inverse_of(g0, n);
    let inv_h = inverse_of(h, n);
    let cv_r4 = pow_mod_of(cv, &rnd.r_4, n);
    let b_r6 = pow_mod_of(&inv_b, &rnd.r_6, n);
    let g0_r8 = pow_mod_of(&inv_g0, &rnd.r_8, n);
    let t1 = integer_rem(&integer_mul(&integer_mul(&integer_mul(&cv_r4, &inv_t_cx), &b_r6), &g0_r8), n);
    let t2 = mul_rem(&pow_mod_of(g0, &rnd.r_7, n), &pow_mod_of(h, &rnd.r_1, n), n);
    let cw_r4 = pow_mod_of(cw, &rnd.r_4, n);
    let h_r2 = pow_mod_of(&inv_h, &rnd.r_2, n);
    let t3 = integer_rem(&integer_mul(&integer_mul(&cw_r4, &g0_r8), &h_r2), n);
    let prod_g = product_pow_mod(&commitment_pk.g_bases, exps, n, k);
    let t4 = mul_rem(&prod_g, &pow_mod_of(h, &rnd.r_3, n), n);
    let t5 = mul_rem(&pow_mod_of(g0, &rnd.r_4, n), &pow_mod_of(h, &rnd.r_9, n), n);
    proof {
        let x1 = cv_r4.value() * inv_t_cx.value();
        assert(x1 >= 0 && x1 * b_r6.value() >= 0 && x1 * b_r6.value() * g0_r8.value() >= 0) by (nonlinear_arith)
            requires
                cv_r4.value() >= 0,
                inv_t_cx.value() >= 0,
                b_r6.value() >= 0,
                g0_r8.value() >= 0,
                x1 == cv_r4.value() * inv_t_cx.value(),
        ;
        assert(cw_r4.value() * g0_r8.value() * h_r2.value() >= 0) by (nonlinear_arith)
            requires
                cw_r4.value() >= 0,
                g0_r8.value() >= 0,
                h_r2.value() >= 0,
        ;
    }
    let mut r: Vec<Integer> = Vec::new();
    r.push(t1);
    r.push(t2);
    r.push(t3);
    r.push(t4);
    r.push(t5);
    assert(values(r@) =~= nisp5_t_values(
        values(signer_pk.a_bases@),
        signer_pk.b.value(),
        values(commitment_pk.g_bases@),
        commitment_pk.h.value(),
        nv,
        k as nat,
        values(exps@),
        cv.value(),
        cw.value(),
        blinding(*rnd),
    ));
    r
}

/// The decimal forms of five integers, one after the other.
fn decimal_concat_of(t: &Vec<Integer>) -> (r: Vec<u8>)
    requires
        t@.len() == 5,
    ensures
        r@ == decimal_concat(values(t@)),
{
    let mut data = integer_decimal(&t[0]);
    crate::bytes::append_bytes(&mut data, integer_decimal(&t[1]).as_slice());
    crate::bytes::append_bytes(&mut data, integer_decimal(&t[2]).as_slice());
    crate::bytes::append_bytes(&mut data, integer_decimal(&t[3]).as_slice());
    crate::bytes::append_bytes(&mut data, integer_decimal(&t[4]).as_slice());
    data
}

/// `r + x * c`.
fn response(r: &Integer, x: &Integer, c: &Integer) -> (s: Integer)
    ensures
        s.value() == r.value() + x.value() * c.value(),
{
    integer_add(r, &integer_mul(x, c))
}

/// The exponents of the bases: `r_5[i]` for an undisclosed message, the
/// message otherwise.
fn exponents(messages: &[CL03Message], r_5: &Vec<Integer>, unrevealed: &[usize]) -> (r: Vec<Integer>)
    requires
        r_5@.len() >= messages@.len(),
    ensures
        r@.len() == messages@.len(),
        values(r@) == nisp5_exponents(cl03_message_values(messages@), values(r_5@), unrevealed@, messages@.len()),
{
    let k = messages.len();
    let mut r: Vec<Integer> = Vec::new();
    for i in 0..k
        invariant
            k == messages@.len(),
            r_5@.len() >= k,
            r@.len() == i,
            forall|j: int| 0 <= j < i ==> #[trigger] values(r@)[j] == nisp5_exponents(
                cl03_message_values(messages@),
                values(r_5@),
                unrevealed@,
                k as nat,
            )[j],
    {
        let ghost prev = r@;
        if contains_index(unrevealed, i) {
            r.push(r_5[i].copy());
        } else {
            r.push(messages[i].value.copy());
        }
        proof {
            assert(values(r@)[i as int] == nisp5_exponents(cl03_message_values(messages@), values(r_5@), unrevealed@, k as nat)[i as int]);
            assert forall|j: int| 0 <= j < i implies #[trigger] values(r@)[j] == values(prev)[j] by {
                assert(r@[j] == prev[j]);
            }
        }
    }
    assert(values(r@) =~= nisp5_exponents(cl03_message_values(messages@), values(r_5@), unrevealed@, k as nat));
    r
}

impl CL03PoKSignature {
    /// The proof that the prover makes with the random values `rnd`: it
    /// commits to the messages, to `v`, to `w` and to `e`, computes the five
    /// values of the protocol, hashes their decimal forms into the
    /// challenge, and answers with `r + secret * challenge` for each secret.
    #[verifier::rlimit(40)]
    pub fn nisp5_generate_proof_with<CS: CLCiphersuite>(
        signature: &CL03Signature,
        commitment_pk: &CL03CommitmentPublicKey,
        signer_pk: &CL03PublicKey,
        messages: &[CL03Message],
        unrevealed_message_indexes: &[usize],
        rnd: &Nisp5Randomness,
    ) -> (r: CL03PoKSignature)
        requires
            nisp5_generate_requires(*signature, *commitment_pk, *signer_pk, messages@, unrevealed_message_indexes@),
            rnd.nonneg(messages@.len()),
        ensures
            is_nisp5_proof::<CS>(r, *signature, *commitment_pk, *signer_pk, messages@, unrevealed_message_indexes@, *rnd),
    {
        let k = messages.len();
        let cx = commit_with_commitment_pk::<CS>(messages, commitment_pk, Some(&rnd.r_x));
        let cv = commit_v::<CS>(&signature.v, commitment_pk, Some(&rnd.w));
        let mut w_msg: Vec<CL03Message> = Vec::new();
        w_msg.push(CL03Message::new(rnd.w.copy()));
        proof {
            assert(cl03_message_values(w_msg@) =~= seq![rnd.w.value()]);
            assert(powers_exist(values(commitment_pk.g_bases@), cl03_message_values(w_msg@), commitment_pk.n.value(), 1));
        }
        let cw = commit_with_commitment_pk::<CS>(w_msg.as_slice(), commitment_pk, Some(&rnd.r_w));
        let mut e_msg: Vec<CL03Message> = Vec::new();
        e_msg.push(CL03Message::new(signature.e.copy()));
        proof {
            assert(cl03_message_values(e_msg@) =~= seq![signature.e.value()]);
            assert(powers_exist(values(commitment_pk.g_bases@), cl03_message_values(e_msg@), commitment_pk.n.value(), 1));
        }
        let ce = commit_with_commitment_pk::<CS>(e_msg.as_slice(), commitment_pk, Some(&rnd.r_e));
        let exps = exponents(messages, &rnd.r_5, unrevealed_message_indexes);
        proof {
            let m = cl03_message_values(messages@);
            assert forall|i: int| 0 <= i < k implies values(exps@)[i] >= 0 || invertible(
                #[trigger] values(commitment_pk.g_bases@)[i],
                signer_pk.n.value(),
            ) by {
                if unrevealed_message_indexes@.contains(i as usize) {
                    assert(rnd.r_5@[i].value() >= 0);
                }
            }
            assert forall|i: int| 0 <= i < k implies values(exps@)[i] == 0 || invertible(
                #[trigger] values(signer_pk.a_bases@)[i],
                signer_pk.n.value(),
            ) by {
                if !unrevealed_message_indexes@.contains(i as usize) && m[i] == 0 {
                    assert(values(exps@)[i] == m[i]);
                }
            }
        }
        proof {
            vstd::arithmetic::div_mod::lemma_mod_bound(
                prod_pow_mod(values(commitment_pk.g_bases@), cl03_message_values(messages@), commitment_pk.n.value(), k as nat) * spec_pow_mod(commitment_pk.h.value(), rnd.r_x.value(), commitment_pk.n.value()),
                commitment_pk.n.value(),
            );
            vstd::arithmetic::div_mod::lemma_mod_bound(
                signature.v.value() * spec_pow_mod(values(commitment_pk.g_bases@)[0], rnd.w.value(), commitment_pk.n.value()),
                commitment_pk.n.value(),
            );
            vstd::arithmetic::div_mod::lemma_mod_bound(
                prod_pow_mod(values(commitment_pk.g_bases@), seq![rnd.w.value()], commitment_pk.n.value(), 1) * spec_pow_mod(commitment_pk.h.value(), rnd.r_w.value(), commitment_pk.n.value()),
                commitment_pk.n.value(),
            );
        }
        let t = nisp5_t(signer_pk, commitment_pk, k, &exps, &cv.value, &cw.value, rnd);
        let data = decimal_concat_of(&t);
        let hash = CS::digest(data.as_slice());
        let challenge = Integer::from_digits_be(hash.as_slice());
        let s_1 = response(&rnd.r_1, &rnd.r_w, &challenge);
        let s_2 = response(&rnd.r_2, &integer_mul(&rnd.r_w, &signature.e), &challenge);
        let s_3 = response(&rnd.r_3, &rnd.r_x, &challenge);
        let s_4 = response(&rnd.r_4, &signature.e, &challenge);
        let mut s_5: Vec<Integer> = Vec::new();
        let u = unrevealed_message_indexes.len();
        for j in 0..u
            invariant
                u == unrevealed_message_indexes@.len(),
                forall|j: int| 0 <= j < u ==> #[trigger] unrevealed_message_indexes@[j] < k,
                k == messages@.len(),
                exps@.len() == k,
                s_5@.len() == j,
                forall|t: int| 0 <= t < j ==> #[trigger] s_5@[t].value() == values(exps@)[unrevealed_message_indexes@[t] as int]
                    + cl03_message_values(messages@)[unrevealed_message_indexes@[t] as int] * challenge.value(),
        {
            let i = unrevealed_message_indexes[j];
            s_5.push(response(&exps[i], &messages[i].value, &challenge));
        }
        let s_6 = response(&rnd.r_6, &signature.s, &challenge);
        let s_7 = response(&rnd.r_7, &rnd.w, &challenge);
        let s_8 = response(&rnd.r_8, &integer_mul(&rnd.w, &signature.e), &challenge);
        let s_9 = response(&rnd.r_9, &rnd.r_e, &challenge);
        CL03PoKSignature { challenge, s_1, s_2, s_3, s_4, s_5, s_6, s_7, s_8, s_9, cx, cv, cw, ce }
    }
}

/// The number of undisclosed indexes below `i`.
pub open spec fn rank(unrevealed: Seq<usize>, i: nat) -> nat
    decreases i,
{
    if i == 0 {
        0
    } else {
        rank(unrevealed, (i - 1) as nat) + if unrevealed.contains((i - 1) as usize) {
            1nat
        } else {
            0nat
        }
    }
}

/// The exponents of the `a_i` that the verifier uses: the next response
/// for an undisclosed message, `m + m * c` for a disclosed one.
pub open spec fn verify_exponents(m: Seq<int>, s5: Seq<int>, unrevealed: Seq<usize>, c: int, k: nat) -> Seq<int> {
    Seq::new(
        k,
        |i: int|
            if unrevealed.contains(i as usize) {
                s5[rank(unrevealed, i as nat) as int]
            } else {
                m[i] + m[i] * c
            },
    )
}

/// The product of `g_i` to the next response, over the undisclosed `i`
/// below `k`, each power modulo `n`.
pub open spec fn prod_undisclosed(g: Seq<int>, s5: Seq<int>, unrevealed: Seq<usize>, n: int, k: nat) -> int
    decreases k,
{
    if k == 0 {
        1
    } else {
        let p = prod_undisclosed(g, s5, unrevealed, n, (k - 1) as nat);
        if unrevealed.contains((k - 1) as usize) {
            p * spec_pow_mod(g[k - 1], s5[rank(unrevealed, (k - 1) as nat) as int], n)
        } else {
            p
        }
    }
}

/// The five values that the verifier recomputes from a proof.
pub open spec fn nisp5_verify_values(
    p: CL03PoKSignature,
    commitment_pk: CL03CommitmentPublicKey,
    signer_pk: CL03PublicKey,
    messages: Seq<CL03Message>,
    unrevealed: Seq<usize>,
) -> Seq<int> {
    let k = messages.len();
    let n = signer_pk.n.value();
    let g = values(commitment_pk.g_bases@);
    let g0 = g[0];
    let h = commitment_pk.h.value();
    let m = cl03_message_values(messages);
    let c = p.challenge.value();
    let s5 = values(p.s_5@);
    let t_cx = prod_pow_mod(values(signer_pk.a_bases@), verify_exponents(m, s5, unrevealed, c, k), n, k) % n;
    let in1 = (spec_pow_mod(p.cv.value.value(), p.s_4.value(), n) * spec_divm(1, t_cx, n) * spec_pow_mod(
        spec_divm(1, signer_pk.b.value(), n),
        p.s_6.value(),
        n,
    ) * spec_pow_mod(spec_divm(1, g0, n), p.s_8.value(), n) * spec_pow_mod(signer_pk.c.value(), -1 * c, n)) % n;
    let in2 = (spec_pow_mod(g0, p.s_7.value(), n) * spec_pow_mod(h, p.s_1.value(), n) * spec_pow_mod(
        p.cw.value.value(),
        -1 * c,
        n,
    )) % n;
    let in3 = (spec_pow_mod(p.cw.value.value(), p.s_4.value(), n) * spec_pow_mod(spec_divm(1, g0, n), p.s_8.value(), n)
        * spec_pow_mod(spec_divm(1, h, n), p.s_2.value(), n)) % n;
    let in4 = (prod_undisclosed(g, s5, unrevealed, n, k) * spec_pow_mod(h, p.s_3.value(), n) * spec_pow_mod(
        p.cx.value.value(),
        -1 * c,
        n,
    )) % n;
    let in5 = (spec_pow_mod(g0, p.s_4.value(), n) * spec_pow_mod(h, p.s_9.value(), n) * spec_pow_mod(
        p.ce.value.value(),
        -1 * c,
        n,
    )) % n;
    seq![in1, in2, in3, in4, in5]
}

/// What the verifier needs of its inputs: the modulus exceeds 1, there are
/// bases for every message and responses for every undisclosed one, and the
/// inverses and powers that verification takes exist.
pub open spec fn nisp5_verify_requires(
    p: CL03PoKSignature,
    commitment_pk: CL03CommitmentPublicKey,
    signer_pk: CL03PublicKey,
    messages: Seq<CL03Message>,
    unrevealed: Seq<usize>,
) -> bool {
    let k = messages.len();
    let n = signer_pk.n.value();
    let g = values(commitment_pk.g_bases@);
    let m = cl03_message_values(messages);
    let c = p.challenge.value();
    &&& n > 1
    &&& k <= signer_pk.a_bases@.len()
    &&& k <= commitment_pk.g_bases@.len()
    &&& commitment_pk.g_bases@.len() >= 1
    &&& rank(unrevealed, k) <= p.s_5@.len()
    &&& forall|i: int|
        0 <= i < k ==> verify_exponents(m, values(p.s_5@), unrevealed, c, k)[i] == 0 || invertible(
            #[trigger] values(signer_pk.a_bases@)[i],
            n,
        )
    &&& invertible(signer_pk.b.value(), n)
    &&& invertible(g[0], n)
    &&& invertible(commitment_pk.h.value(), n)
    &&& (c <= 0 || invertible(signer_pk.c.value(), n))
    &&& (c <= 0 || invertible(p.cw.value.value(), n))
    &&& (c <= 0 || invertible(p.cx.value.value(), n))
    &&& (c <= 0 || invertible(p.ce.value.value(), n))
    &&& (p.s_4.value() >= 0 || (invertible(p.cv.value.value(), n) && invertible(p.cw.value.value(), n)))
    &&& forall|i: int|
        0 <= i < k ==> (#[trigger] verify_exponents(m, values(p.s_5@), unrevealed, c, k)[i] >= 0 || invertible(g[i], n))
}

/// The product of the powers of the `a_i` that the verifier computes, and
/// the product of the powers of the undisclosed `g_i`.
fn verify_products(
    proof: &CL03PoKSignature,
    commitment_pk: &CL03CommitmentPublicKey,
    signer_pk: &CL03PublicKey,
    messages: &[CL03Message],
    unrevealed: &[usize],
) -> (r: (Integer, Integer))
    requires
        nisp5_verify_requires(*proof, *commitment_pk, *signer_pk, messages@, unrevealed@),
    ensures
        r.0.value() == prod_pow_mod(
            values(signer_pk.a_bases@),
            verify_exponents(cl03_message_values(messages@), values(proof.s_5@), unrevealed@, proof.challenge.value(), messages@.len()),
            signer_pk.n.value(),
            messages@.len(),
        ),
        r.0.value() >= 0,
        invertible(r.0.value(), signer_pk.n.value()),
        r.1.value() == prod_undisclosed(values(commitment_pk.g_bases@), values(proof.s_5@), unrevealed@, signer_pk.n.value(), messages@.len()),
        r.1.value() >= 0,
{
    let k = messages.len();
    let n = &signer_pk.n;
    let c = &proof.challenge;
    let ghost m = cl03_message_values(messages@);
    let ghost s5 = values(proof.s_5@);
    let ghost ex = verify_exponents(m, s5, unrevealed@, c.value(), k as nat);
    let s5len = proof.s_5.len();
    let mut exps: Vec<Integer> = Vec::new();
    let mut idx: usize = 0;
    let mut i: usize = 0;
    while i < k
        invariant
            i <= k,
            s5len == proof.s_5@.len(),
            k == messages@.len(),
            m == cl03_message_values(messages@),
            s5 == values(proof.s_5@),
            ex == verify_exponents(m, s5, unrevealed@, c.value(), k as nat),
            idx == rank(unrevealed@, i as nat),
            rank(unrevealed@, k as nat) <= proof.s_5@.len(),
            exps@.len() == i,
            forall|j: int| 0 <= j < i ==> #[trigger] values(exps@)[j] == ex[j],
        decreases k - i,
    {
        proof {
            lemma_rank_monotone(unrevealed@, (i + 1) as nat, k as nat);
        }
        let ghost prev = exps@;
        if contains_index(unrevealed, i) {
            assert(rank(unrevealed@, (i + 1) as nat) == idx + 1);
            exps.push(proof.s_5[idx].copy());
            assert(values(exps@)[i as int] == ex[i as int]);
            idx = idx + 1;
        } else {
            let v = &messages[i].value;
            exps.push(integer_add(v, &integer_mul(v, c)));
            assert(values(exps@)[i as int] == ex[i as int]);
        }
        proof {
            assert forall|j: int| 0 <= j < i + 1 implies #[trigger] values(exps@)[j] == ex[j] by {
                if j < i {
                    assert(exps@[j] == prev[j]);
                    assert(values(prev)[j] == ex[j]);
                    assert(values(exps@)[j] == values(prev)[j]);
                }
            }
        }
        i = i + 1;
    }
    proof {
        assert(values(exps@) =~= ex);
    }
    assert(powers_exist(values(signer_pk.a_bases@), values(exps@), n.value(), k as nat));
    let t = product_pow_mod(&signer_pk.a_bases, &exps, n, k);
    let mut input4 = Integer::from_u64(1);
    let mut dead = Integer::from_u64(1);
    let mut idx: usize = 0;
    let mut i: usize = 0;
    while i < k
        invariant
            i <= k,
            s5len == proof.s_5@.len(),
            k == messages@.len(),
            k <= commitment_pk.g_bases@.len(),
            m == cl03_message_values(messages@),
            s5 == values(proof.s_5@),
            ex == verify_exponents(m, s5, unrevealed@, c.value(), k as nat),
            n.value() > 1,
            forall|j: int| 0 <= j < k ==> (#[trigger] ex[j] >= 0 || invertible(values(commitment_pk.g_bases@)[j], n.value())),
            idx == rank(unrevealed@, i as nat),
            rank(unrevealed@, k as nat) <= proof.s_5@.len(),
            input4.value() == prod_undisclosed(values(commitment_pk.g_bases@), s5, unrevealed@, n.value(), i as nat),
            input4.value() >= 0,
        decreases k - i,
    {
        proof {
            lemma_rank_monotone(unrevealed@, (i + 1) as nat, k as nat);
        }
        assert(ex[i as int] >= 0 || invertible(values(commitment_pk.g_bases@)[i as int], n.value()));
        if contains_index(unrevealed, i) {
            assert(rank(unrevealed@, (i + 1) as nat) == idx + 1);
            let p = pow_mod_of(&commitment_pk.g_bases[i], &proof.s_5[idx], n);
            proof {
                assert(input4.value() * p.value() >= 0) by (nonlinear_arith)
                    requires
                        input4.value() >= 0,
                        p.value() >= 0,
                ;
            }
            input4 = integer_mul(&input4, &p);
            idx = idx + 1;
        } else {
            let v = &messages[i].value;
            let e = integer_add(v, &integer_mul(v, c));
            dead = integer_mul(&dead, &pow_mod_of(&commitment_pk.g_bases[i], &e, n));
        }
        i = i + 1;
    }
    (t, input4)
}

proof fn lemma_rank_monotone(unrevealed: Seq<usize>, i: nat, k: nat)
    requires
        i <= k,
    ensures
        rank(unrevealed, i) <= rank(unrevealed, k),
    decreases k - i,
{
    if i < k {
        lemma_rank_monotone(unrevealed, i, (k - 1) as nat);
    }
}

/// `x * y` for non-negative `x` and `y`.
fn mul_nn(x: &Integer, y: &Integer) -> (r: Integer)
    requires
        x.value() >= 0,
        y.value() >= 0,
    ensures
        r.value() == x.value() * y.value(),
        r.value() >= 0,
{
    proof {
        assert(x.value() * y.value() >= 0) by (nonlinear_arith)
            requires
                x.value() >= 0,
                y.value() >= 0,
        ;
    }
    integer_mul(x, y)
}

/// `x % n` for non-negative `x`.
fn rem_nn(x: &Integer, n: &Integer) -> (r: Integer)
    requires
        x.value() >= 0,
        n.value() > 0,
    ensures
        r.value() == x.value() % n.value(),
        0 <= r.value() < n.value(),
{
    proof {
        vstd::arithmetic::div_mod::lemma_mod_bound(x.value(), n.value());
    }
    integer_rem(x, n)
}

impl CL03PoKSignature {
    /// A proof of knowledge of `signature` on `messages` that hides the
    /// messages at `unrevealed_message_indexes`, with fresh random values
    /// below `2^ln`.
    #[allow(non_snake_case)]
    pub fn nisp5_MultiAttr_generate_proof<CS: CLCiphersuite>(
        signature: &CL03Signature,
        commitment_pk: &CL03CommitmentPublicKey,
        signer_pk: &CL03PublicKey,
        messages: &[CL03Message],
        unrevealed_message_indexes: &[usize],
    ) -> (r: CL03PoKSignature)
        requires
            nisp5_generate_requires(*signature, *commitment_pk, *signer_pk, messages@, unrevealed_message_indexes@),
        ensures
            exists|rnd: Nisp5Randomness|
                rnd.within(pow(2, CS::spec_ln()), messages@.len()) && #[trigger] is_nisp5_proof::<CS>(
                    r,
                    *signature,
                    *commitment_pk,
                    *signer_pk,
                    messages@,
                    unrevealed_message_indexes@,
                    rnd,
                ),
    {
        let ln = CS::ln();
        let r_x = random_bits(ln);
        let w = random_bits(ln);
        let r_w = random_bits(ln);
        let r_e = random_bits(ln);
        let r_1 = random_bits(ln);
        let r_2 = random_bits(ln);
        let r_3 = random_bits(ln);
        let r_4 = random_bits(ln);
        let r_6 = random_bits(ln);
        let r_7 = random_bits(ln);
        let r_8 = random_bits(ln);
        let r_9 = random_bits(ln);
        let k = messages.len();
        let mut r_5: Vec<Integer> = Vec::new();
        for i in 0..k
            invariant
                k == messages@.len(),
                ln == CS::spec_ln(),
                r_5@.len() == i,
                forall|j: int| 0 <= j < i ==> 0 <= #[trigger] r_5@[j].value() < pow(2, CS::spec_ln()),
        {
            if contains_index(unrevealed_message_indexes, i) {
                r_5.push(random_bits(ln));
            } else {
                proof {
                    vstd::arithmetic::power::lemma_pow_positive(2, CS::spec_ln());
                }
                r_5.push(Integer::from_u64(0));
            }
        }
        let rnd = Nisp5Randomness { r_x, w, r_w, r_e, r_1, r_2, r_3, r_4, r_5, r_6, r_7, r_8, r_9 };
        let r = Self::nisp5_generate_proof_with::<CS>(
            signature,
            commitment_pk,
            signer_pk,
            messages,
            unrevealed_message_indexes,
            &rnd,
        );
        assert(rnd.within(pow(2, CS::spec_ln()), messages@.len()));
        r
    }

    /// Whether the challenge that the verifier recomputes from the proof,
    /// the keys and the disclosed messages equals the one in the proof.
    #[allow(non_snake_case)]
    pub fn nisp5_MultiAttr_verify_proof<CS: CLCiphersuite>(
        &self,
        commitment_pk: &CL03CommitmentPublicKey,
        signer_pk: &CL03PublicKey,
        messages: &[CL03Message],
        unrevealed_message_indexes: &[usize],
    ) -> (r: bool)
        requires
            nisp5_verify_requires(*self, *commitment_pk, *signer_pk, messages@, unrevealed_message_indexes@),
        ensures
            r == (nisp5_challenge::<CS>(
                nisp5_verify_values(*self, *commitment_pk, *signer_pk, messages@, unrevealed_message_indexes@),
            ) == self.challenge.value()),
    {
        let t = verify_values(self, commitment_pk, signer_pk, messages, unrevealed_message_indexes);
        let data = decimal_concat_of(&t);
        let hash = CS::digest(data.as_slice());
        let challenge = Integer::from_digits_be(hash.as_slice());
        integer_eq(&challenge, &self.challenge)
    }
}

/// `-c`.
fn minus(c: &Integer) -> (r: Integer)
    ensures
        r.value() == -1 * c.value(),
{
    integer_mul(&Integer::from_u64(1).negated(), c)
}

/// `(x * y * z) % n` for non-negative factors.
fn mul3_rem(x: &Integer, y: &Integer, z: &Integer, n: &Integer) -> (r: Integer)
    requires
        x.value() >= 0,
        y.value() >= 0,
        z.value() >= 0,
        n.value() > 0,
    ensures
        r.value() == (x.value() * y.value() * z.value()) % n.value(),
        0 <= r.value() < n.value(),
{
    rem_nn(&mul_nn(&mul_nn(x, y), z), n)
}

/// The five values that the verifier recomputes.
fn verify_values(
    proof: &CL03PoKSignature,
    commitment_pk: &CL03CommitmentPublicKey,
    signer_pk: &CL03PublicKey,
    messages: &[CL03Message],
    unrevealed: &[usize],
) -> (r: Vec<Integer>)
    requires
        nisp5_verify_requires(*proof, *commitment_pk, *signer_pk, messages@, unrevealed@),
    ensures
        r@.len() == 5,
        values(r@) == nisp5_verify_values(*proof, *commitment_pk, *signer_pk, messages@, unrevealed@),
{
    let (prod_a, prod_g) = verify_products(proof, commitment_pk, signer_pk, messages, unrevealed);
    let n = &signer_pk.n;
    let ghost nv = n.value();
    let g0 = &commitment_pk.g_bases[0];
    let h = &commitment_pk.h;
    let minus_c = minus(&proof.challenge);
    let t_cx = rem_nn(&prod_a, n);
    proof {
        lemma_invertible_mod(prod_a.value(), nv);
    }
    let inv_t_cx = inverse_of(&t_cx, n);
    let inv_b = inverse_of(&signer_pk.b, n);
    let inv_g0 = inverse_of(g0, n);
    let inv_h = inverse_of(h, n);
    let in1 = verify_in1(proof, signer_pk, &inv_t_cx, &inv_b, &inv_g0, &minus_c);
    let in2 = mul3_rem(
        &pow_mod_of(g0, &proof.s_7, n),
        &pow_mod_of(h, &proof.s_1, n),
        &pow_mod_of(&proof.cw.value, &minus_c, n),
        n,
    );
    let in3 = mul3_rem(
        &pow_mod_of(&proof.cw.value, &proof.s_4, n),
        &pow_mod_of(&inv_g0, &proof.s_8, n),
        &pow_mod_of(&inv_h, &proof.s_2, n),
        n,
    );
    let in4 = mul3_rem(&prod_g, &pow_mod_of(h, &proof.s_3, n), &pow_mod_of(&proof.cx.value, &minus_c, n), n);
    let in5 = mul3_rem(
        &pow_mod_of(g0, &proof.s_4, n),
        &pow_mod_of(h, &proof.s_9, n),
        &pow_mod_of(&proof.ce.value, &minus_c, n),
        n,
    );
    let mut t: Vec<Integer> = Vec::new();
    t.push(in1);
    t.push(in2);
    t.push(in3);
    t.push(in4);
    t.push(in5);
    assert(values(t@) =~= nisp5_verify_values(*proof, *commitment_pk, *signer_pk, messages@, unrevealed@));
    t
}

/// The first value that the verifier recomputes.
fn verify_in1(
    proof: &CL03PoKSignature,
    signer_pk: &CL03PublicKey,
    inv_t_cx: &Integer,
    inv_b: &Integer,
    inv_g0: &Integer,
    minus_c: &Integer,
) -> (r: Integer)
    requires
        signer_pk.n.value() > 1,
        inv_t_cx.value() >= 0,
        invertible(inv_b.value(), signer_pk.n.value()),
        invertible(inv_g0.value(), signer_pk.n.value()),
        minus_c.value() >= 0 || invertible(signer_pk.c.value(), signer_pk.n.value()),
        proof.s_4.value() >= 0 || invertible(proof.cv.value.value(), signer_pk.n.value()),
    ensures
        r.value() == (spec_pow_mod(proof.cv.value.value(), proof.s_4.value(), signer_pk.n.value()) * inv_t_cx.value()
            * spec_pow_mod(inv_b.value(), proof.s_6.value(), signer_pk.n.value()) * spec_pow_mod(
            inv_g0.value(),
            proof.s_8.value(),
            signer_pk.n.value(),
        ) * spec_pow_mod(signer_pk.c.value(), minus_c.value(), signer_pk.n.value())) % signer_pk.n.value(),
{
    let n = &signer_pk.n;
    let a1 = mul_nn(&pow_mod_of(&proof.cv.value, &proof.s_4, n), inv_t_cx);
    let a2 = mul_nn(&a1, &pow_mod_of(inv_b, &proof.s_6, n));
    let a3 = mul_nn(&a2, &pow_mod_of(inv_g0, &proof.s_8, n));
    rem_nn(&mul_nn(&a3, &pow_mod_of(&signer_pk.c, minus_c, n)), n)
}

} // verus!
