//! CL03 commitments: `g_1^m_1 ... g_k^m_k * h^r` modulo `N`.
use crate::cl03::ciphersuites::CLCiphersuite;
use crate::cl03::keys::CL03CommitmentPublicKey;
use crate::cl03::message::{cl03_message_values, CL03Message};
use crate::integer::{
    integer_mul, invertible, lemma_invertible_mul, lemma_pow_mod_invertible, modulo, pow_mod_of,
    random_bits, spec_pow_mod, Integer,
};
use vstd::arithmetic::power::pow;
use vstd::prelude::*;

verus! {

/// A commitment: its value and the randomness it was made with.
pub struct CL03Commitment {
    pub value: Integer,
    pub randomness: Integer,
}

/// The values of a list of integers.
pub open spec fn values(s: Seq<Integer>) -> Seq<int> {
    s.map_values(|x: Integer| x.value())
}

/// `bases[0]^exps[0] * ... * bases[k-1]^exps[k-1]`, each power taken
/// modulo `n`, the product not reduced.
pub open spec fn prod_pow_mod(bases: Seq<int>, exps: Seq<int>, n: int, k: nat) -> int
    decreases k,
{
    if k == 0 {
        1
    } else {
        prod_pow_mod(bases, exps, n, (k - 1) as nat) * spec_pow_mod(bases[k - 1], exps[k - 1], n)
    }
}

/// The powers exist: each exponent is non-negative or its base invertible.
pub open spec fn powers_exist(bases: Seq<int>, exps: Seq<int>, n: int, k: nat) -> bool {
    forall|i: int| 0 <= i < k ==> exps[i] >= 0 || invertible(#[trigger] bases[i], n)
}

/// The product of the powers, computed factor by factor.
pub fn product_pow_mod(bases: &Vec<Integer>, exps: &Vec<Integer>, n: &Integer, k: usize) -> (r: Integer)
    requires
        n.value() > 1,
        k <= bases@.len(),
        k <= exps@.len(),
        powers_exist(values(bases@), values(exps@), n.value(), k as nat),
    ensures
        r.value() == prod_pow_mod(values(bases@), values(exps@), n.value(), k as nat),
        r.value() >= 0,
        (forall|i: int| 0 <= i < k ==> values(exps@)[i] == 0 || invertible(#[trigger] values(bases@)[i], n.value()))
            ==> invertible(r.value(), n.value()),
{
    let mut acc = Integer::from_u64(1);
    let ghost nb = n.value();
    proof {
        vstd::arithmetic::div_mod::lemma_small_mod(1, nb as nat);
        assert((1int * 1int) % nb == 1);
    }
    let mut i: usize = 0;
    while i < k
        invariant
            i <= k,
            nb == n.value(),
            nb > 1,
            k <= bases@.len(),
            k <= exps@.len(),
            powers_exist(values(bases@), values(exps@), nb, k as nat),
            acc.value() == prod_pow_mod(values(bases@), values(exps@), nb, i as nat),
            acc.value() >= 0,
            (forall|j: int| 0 <= j < k ==> values(exps@)[j] == 0 || invertible(#[trigger] values(bases@)[j], nb))
                ==> invertible(acc.value(), nb),
        decreases k - i,
    {
        assert(values(exps@)[i as int] >= 0 || invertible(values(bases@)[i as int], nb));
        let p = pow_mod_of(&bases[i], &exps[i], n);
        proof {
            if forall|j: int| 0 <= j < k ==> values(exps@)[j] == 0 || invertible(#[trigger] values(bases@)[j], nb) {
                assert(values(exps@)[i as int] == 0 || invertible(values(bases@)[i as int], nb));
                if values(exps@)[i as int] == 0 {
                    vstd::arithmetic::power::lemma_pow0(bases@[i as int].value());
                    vstd::arithmetic::div_mod::lemma_small_mod(1, nb as nat);
                    assert(exps@[i as int].value() == 0);
                    assert(p.value() == 1);
                    assert(acc.value() * p.value() == acc.value()) by (nonlinear_arith)
                        requires
                            p.value() == 1,
                    ;
                } else {
                    lemma_pow_mod_invertible(bases@[i as int].value(), exps@[i as int].value(), nb);
                    lemma_invertible_mul(acc.value(), p.value(), nb);
                }
            }
            assert(acc.value() * p.value() >= 0) by (nonlinear_arith)
                requires
                    acc.value() >= 0,
                    p.value() >= 0,
            ;
        }
        acc = integer_mul(&acc, &p);
        i = i + 1;
    }
    acc
}

/// The value of a commitment to `messages` with randomness `r`.
pub open spec fn commit_value(g: Seq<int>, m: Seq<int>, h: int, r: int, n: int) -> int {
    (prod_pow_mod(g, m, n, m.len()) * spec_pow_mod(h, r, n)) % n
}

/// A commitment to `messages` under `pk`: the product of `g_i^m_i` and
/// `h^r` modulo `N`, with `r` given or drawn at random below `2^ln`.
pub fn commit_with_commitment_pk<CS: CLCiphersuite>(
    messages: &[CL03Message],
    pk: &CL03CommitmentPublicKey,
    randomness: Option<&Integer>,
) -> (r: CL03Commitment)
    requires
        pk.n.value() > 1,
        messages@.len() <= pk.g_bases@.len(),
        powers_exist(values(pk.g_bases@), cl03_message_values(messages@), pk.n.value(), messages@.len()),
        randomness matches Some(x) ==> x.value() >= 0,
    ensures
        match randomness {
            Some(x) => r.randomness.value() == x.value(),
            None => 0 <= r.randomness.value() < pow(2, CS::spec_ln()),
        },
        r.value.value() == commit_value(
            values(pk.g_bases@),
            cl03_message_values(messages@),
            pk.h.value(),
            r.randomness.value(),
            pk.n.value(),
        ),
{
    let rnd = match randomness {
        Some(x) => x.copy(),
        None => random_bits(CS::ln()),
    };
    let mut exps: Vec<Integer> = Vec::new();
    let k = messages.len();
    for i in 0..k
        invariant
            k == messages@.len(),
            exps@.len() == i,
            forall|j: int| 0 <= j < i ==> #[trigger] exps@[j].value() == messages@[j].value.value(),
    {
        exps.push(messages[i].value.copy());
    }
    assert(values(exps@) =~= cl03_message_values(messages@));
    let prod = product_pow_mod(&pk.g_bases, &exps, &pk.n, k);
    proof {
        crate::integer::lemma_pow_mod_range(pk.h.value(), rnd.value(), pk.n.value());
    }
    let hr = pow_mod_of(&pk.h, &rnd, &pk.n);
    let value = modulo(&integer_mul(&prod, &hr), &pk.n);
    CL03Commitment { value, randomness: rnd }
}

/// The value of a commitment to a signature's `v` with randomness `w`:
/// `v * g_1^w` modulo `N`.
pub open spec fn commit_v_value(v: int, g0: int, w: int, n: int) -> int {
    (v * spec_pow_mod(g0, w, n)) % n
}

/// A commitment to a signature's `v` under `pk`, with randomness drawn below
/// `2^ln`.
pub fn commit_v<CS: CLCiphersuite>(v: &Integer, pk: &CL03CommitmentPublicKey, w: Option<&Integer>) -> (r: CL03Commitment)
    requires
        pk.n.value() > 1,
        pk.g_bases@.len() >= 1,
        w matches Some(x) ==> x.value() >= 0,
    ensures
        match w {
            Some(x) => r.randomness.value() == x.value(),
            None => 0 <= r.randomness.value() < pow(2, CS::spec_ln()),
        },
        r.value.value() == commit_v_value(v.value(), pk.g_bases@[0].value(), r.randomness.value(), pk.n.value()),
{
    let rnd = match w {
        Some(x) => x.copy(),
        None => random_bits(CS::ln()),
    };
    let gw = pow_mod_of(&pk.g_bases[0], &rnd, &pk.n);
    let value = modulo(&integer_mul(v, &gw), &pk.n);
    CL03Commitment { value, randomness: rnd }
}

} // verus!
