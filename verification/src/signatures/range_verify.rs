//! Verification of range proofs after Boudot (2000).
use crate::hash::HashAlgorithm;
use crate::integer::{
    decimal, divm, integer_eq, integer_le, integer_mul, integer_rem, integer_sub, invertible,
    mod_inverse, pow_mod_of, spec_pow_mod, trunc_rem, u32_bits, Integer,
};
use crate::signatures::range_proof::{
    hash_decimals, hash_int, mul3_mod, p2, range_exponent, tolerance_bounds, tolerance_hi,
    tolerance_lo, two_pow, Boudot2000RangeProof, ProofLi, ProofOfS, ProofSs, ProofWt, SECURITY_L,
    SECURITY_T,
};
use vstd::prelude::*;

verus! {

/// `base^exp` modulo `n` exists: the power is non-negative or the base has
/// an inverse.
pub open spec fn has_pow(base: int, exp: int, n: int) -> bool {
    exp >= 0 || invertible(base, n)
}

/// `(x^a * y^b * z^c) % n`, each power taken modulo `n`.
pub open spec fn pow3(x: int, a: int, y: int, b: int, z: int, c: int, n: int) -> int {
    (spec_pow_mod(x, a, n) * spec_pow_mod(y, b, n) * spec_pow_mod(z, c, n)) % n
}

/// The powers that checking a same-secret proof takes exist.
pub open spec fn same_secret_defined(e: int, f: int, g1: int, h1: int, g2: int, h2: int, n: int, p: ProofSs) -> bool {
    &&& has_pow(e, -p.challenge.value(), n)
    &&& has_pow(f, -p.challenge.value(), n)
    &&& has_pow(g1, p.d.value(), n)
    &&& has_pow(h1, p.d_1.value(), n)
    &&& has_pow(g2, p.d.value(), n)
    &&& has_pow(h2, p.d_2.value(), n)
}

/// A same-secret proof for `e` (under `g1, h1`) and `f` (under `g2, h2`) is
/// accepted: its challenge is the digest of the decimal forms of
/// `g1^d h1^d1 e^-c` and `g2^d h2^d2 f^-c` modulo `n`.
pub open spec fn same_secret_accepts<H: HashAlgorithm>(
    e: int,
    f: int,
    g1: int,
    h1: int,
    g2: int,
    h2: int,
    n: int,
    p: ProofSs,
) -> bool {
    let c = p.challenge.value();
    let lhs = pow3(g1, p.d.value(), h1, p.d_1.value(), e, -c, n);
    let rhs = pow3(g2, p.d.value(), h2, p.d_2.value(), f, -c, n);
    c == hash_int::<H>(decimal(lhs) + decimal(rhs))
}

/// The powers that checking a proof of square take exist.
pub open spec fn square_defined(p: ProofOfS, g: int, h: int, n: int) -> bool {
    same_secret_defined(p.f.value(), p.e.value(), g, h, p.f.value(), h, n, p.proof_ss)
}

/// A proof of square is accepted: its same-secret proof shows that `F`
/// (under `g, h`) and `E` (under `F, h`) hide the same value.
pub open spec fn square_accepts<H: HashAlgorithm>(p: ProofOfS, g: int, h: int, n: int) -> bool {
    same_secret_accepts::<H>(p.f.value(), p.e.value(), g, h, p.f.value(), h, n, p.proof_ss)
}

/// The challenge of a large-interval proof: `C` truncated modulo `2^t`.
pub open spec fn interval_challenge(p: ProofLi, t: nat) -> int {
    trunc_rem(p.c.value(), p2(t))
}

/// The powers that checking a large-interval proof for `e` takes exist.
pub open spec fn interval_defined(p: ProofLi, e: int, g: int, h: int, n: int, t: nat) -> bool {
    &&& has_pow(e, -interval_challenge(p, t), n)
    &&& has_pow(g, p.d_1.value(), n)
    &&& has_pow(h, p.d_2.value(), n)
}

/// A large-interval proof for `e` is accepted: `c b <= D_1 <= 2^T (2^(t+l) b - 1)`
/// and `C` is the digest of the decimal form of `g^D_1 h^D_2 e^-c` modulo `n`.
pub open spec fn interval_accepts<H: HashAlgorithm>(
    p: ProofLi,
    e: int,
    g: int,
    h: int,
    n: int,
    t: nat,
    l: nat,
    b: nat,
    tt: nat,
) -> bool {
    let c = interval_challenge(p, t);
    let commit = pow3(g, p.d_1.value(), h, p.d_2.value(), e, -c, n);
    &&& c * b <= p.d_1.value()
    &&& p.d_1.value() <= p2(tt) * (p2(t + l) * b - 1)
    &&& p.c.value() == hash_int::<H>(decimal(commit))
}

/// `E_a = e / g^lo` modulo `n`.
pub open spec fn tolerance_e_a(e: int, g: int, n: int, a: nat, b: nat, t: nat, l: nat, tt: nat) -> int {
    (e * mod_inverse(spec_pow_mod(g, tolerance_lo(a, b, t, l, tt), n), n)) % n
}

/// `E_b = g^hi / e` modulo `n`.
pub open spec fn tolerance_e_b(e: int, g: int, n: int, a: nat, b: nat, t: nat, l: nat, tt: nat) -> int {
    (spec_pow_mod(g, tolerance_hi(a, b, t, l, tt), n) * mod_inverse(e, n)) % n
}

/// The commitments of a proof with tolerance split `E_a` and `E_b`:
/// `E_a_2 = E_a / E_a_1` and `E_b_2 = E_b / E_b_1` modulo `n`.
pub open spec fn tolerance_splits_match(p: ProofWt, e: int, g: int, n: int, a: nat, b: nat, t: nat, l: nat, tt: nat) -> bool {
    &&& p.e_a_2.value() == (tolerance_e_a(e, g, n, a, b, t, l, tt) * mod_inverse(p.e_a_1.value(), n)) % n
    &&& p.e_b_2.value() == (tolerance_e_b(e, g, n, a, b, t, l, tt) * mod_inverse(p.e_b_1.value(), n)) % n
}

/// The powers and inverses that checking a proof with tolerance takes
/// exist, as far as the checks are made: the second proof of square and the
/// second large-interval proof are checked only when the first passed.
pub open spec fn tolerance_defined<H: HashAlgorithm>(
    p: ProofWt,
    g: int,
    h: int,
    e: int,
    n: int,
    a: nat,
    b: nat,
    t: nat,
    l: nat,
    tt: nat,
) -> bool {
    let lo = tolerance_lo(a, b, t, l, tt);
    let hi = tolerance_hi(a, b, t, l, tt);
    &&& has_pow(g, lo, n)
    &&& invertible(spec_pow_mod(g, lo, n), n)
    &&& has_pow(g, hi, n)
    &&& invertible(e, n)
    &&& invertible(p.e_a_1.value(), n)
    &&& invertible(p.e_b_1.value(), n)
    &&& tolerance_splits_match(p, e, g, n, a, b, t, l, tt) ==> {
        &&& square_defined(p.proof_of_square_a, g, h, n)
        &&& square_accepts::<H>(p.proof_of_square_a, g, h, n) ==> square_defined(p.proof_of_square_b, g, h, n)
        &&& interval_defined(p.proof_large_i_a, p.e_a_2.value(), g, h, n, t)
        &&& interval_accepts::<H>(p.proof_large_i_a, p.e_a_2.value(), g, h, n, t, l, b, tt) ==> interval_defined(
            p.proof_large_i_b,
            p.e_b_2.value(),
            g,
            h,
            n,
            t,
        )
    }
}

/// A proof with tolerance for `e` is accepted: its commitments split `E_a`
/// and `E_b`, both proofs of square and both large-interval proofs pass.
pub open spec fn tolerance_accepts<H: HashAlgorithm>(
    p: ProofWt,
    g: int,
    h: int,
    e: int,
    n: int,
    a: nat,
    b: nat,
    t: nat,
    l: nat,
    tt: nat,
) -> bool {
    &&& tolerance_splits_match(p, e, g, n, a, b, t, l, tt)
    &&& square_accepts::<H>(p.proof_of_square_a, g, h, n)
    &&& square_accepts::<H>(p.proof_of_square_b, g, h, n)
    &&& interval_accepts::<H>(p.proof_large_i_a, p.e_a_2.value(), g, h, n, t, l, b, tt)
    &&& interval_accepts::<H>(p.proof_large_i_b, p.e_b_2.value(), g, h, n, t, l, b, tt)
}

/// The powers and inverses that checking a range proof takes exist.
pub open spec fn range_defined<H: HashAlgorithm>(
    p: Boudot2000RangeProof,
    g: int,
    h: int,
    n: int,
    a: nat,
    b: nat,
    t: nat,
    l: nat,
    tt: nat,
) -> bool {
    p.e_prime.value() == spec_pow_mod(p.e.value(), p2(tt), n) ==> tolerance_defined::<H>(
        p.proof_of_tolerance,
        g,
        h,
        p.e_prime.value(),
        n,
        a,
        b,
        t,
        l,
        tt,
    )
}

/// A range proof is accepted: `E' = E^(2^T) mod n` and its proof with
/// tolerance for `E'` passes.
pub open spec fn range_accepts<H: HashAlgorithm>(
    p: Boudot2000RangeProof,
    g: int,
    h: int,
    n: int,
    a: nat,
    b: nat,
    t: nat,
    l: nat,
    tt: nat,
) -> bool {
    &&& p.e_prime.value() == spec_pow_mod(p.e.value(), p2(tt), n)
    &&& tolerance_accepts::<H>(p.proof_of_tolerance, g, h, p.e_prime.value(), n, a, b, t, l, tt)
}

impl Boudot2000RangeProof {
    /// Checks a same-secret proof for `e` (under `g_1, h_1`) and `f` (under
    /// `g_2, h_2`).
    pub fn verify_same_secret<H: HashAlgorithm>(
        e: &Integer,
        f: &Integer,
        g_1: &Integer,
        h_1: &Integer,
        g_2: &Integer,
        h_2: &Integer,
        n: &Integer,
        proof_ss: &ProofSs,
    ) -> (ok: bool)
        requires
            n.value() > 1,
            same_secret_defined(e.value(), f.value(), g_1.value(), h_1.value(), g_2.value(), h_2.value(), n.value(), *proof_ss),
        ensures
            ok == same_secret_accepts::<H>(
                e.value(),
                f.value(),
                g_1.value(),
                h_1.value(),
                g_2.value(),
                h_2.value(),
                n.value(),
                *proof_ss,
            ),
    {
        let neg_c = proof_ss.challenge.negated();
        let inv_e = pow_mod_of(e, &neg_c, n);
        let inv_f = pow_mod_of(f, &neg_c, n);
        let lhs = mul3_mod(&pow_mod_of(g_1, &proof_ss.d, n), &pow_mod_of(h_1, &proof_ss.d_1, n), &inv_e, n);
        let rhs = mul3_mod(&pow_mod_of(g_2, &proof_ss.d, n), &pow_mod_of(h_2, &proof_ss.d_2, n), &inv_f, n);
        let output = hash_decimals::<H>(&lhs, Some(&rhs));
        integer_eq(&proof_ss.challenge, &output)
    }

    /// Checks a proof of square.
    pub fn verify_of_square<H: HashAlgorithm>(proof_of_s: &ProofOfS, g: &Integer, h: &Integer, n: &Integer) -> (ok: bool)
        requires
            n.value() > 1,
            square_defined(*proof_of_s, g.value(), h.value(), n.value()),
        ensures
            ok == square_accepts::<H>(*proof_of_s, g.value(), h.value(), n.value()),
    {
        Self::verify_same_secret::<H>(&proof_of_s.f, &proof_of_s.e, g, h, &proof_of_s.f, h, n, &proof_of_s.proof_ss)
    }

    /// Checks a large-interval proof for the commitment `e`.
    pub fn verify_large_interval_specific<H: HashAlgorithm>(
        proof_li: &ProofLi,
        e: &Integer,
        g: &Integer,
        h: &Integer,
        n: &Integer,
        t: u32,
        l: u32,
        b: u32,
        tt: u32,
    ) -> (ok: bool)
        requires
            n.value() > 1,
            t + l <= u32::MAX,
            interval_defined(*proof_li, e.value(), g.value(), h.value(), n.value(), t as nat),
        ensures
            ok == interval_accepts::<H>(
                *proof_li,
                e.value(),
                g.value(),
                h.value(),
                n.value(),
                t as nat,
                l as nat,
                b as nat,
                tt as nat,
            ),
    {
        proof {
            vstd::arithmetic::power::lemma_pow_positive(2, t as nat);
        }
        let c = integer_rem(&proof_li.c, &two_pow(t));
        let inv_e = pow_mod_of(e, &c.negated(), n);
        let commit = mul3_mod(&pow_mod_of(g, &proof_li.d_1, n), &pow_mod_of(h, &proof_li.d_2, n), &inv_e, n);
        let output = hash_decimals::<H>(&commit, None);
        let b_int = Integer::from_u64(b as u64);
        let one = Integer::from_u64(1);
        let hi = integer_mul(&two_pow(tt), &integer_sub(&integer_mul(&two_pow(t + l), &b_int), &one));
        integer_le(&integer_mul(&c, &b_int), &proof_li.d_1) && integer_le(&proof_li.d_1, &hi)
            && integer_eq(&proof_li.c, &output)
    }

    /// Checks a proof with tolerance for the commitment `e`: `E_a = e / g^lo`
    /// and `E_b = g^hi / e` are recomputed, their splits checked, then the
    /// proofs of square and the large-interval proofs.
    pub fn verify_of_tolerance_specific<H: HashAlgorithm>(
        proof_wt: &ProofWt,
        g: &Integer,
        h: &Integer,
        e: &Integer,
        n: &Integer,
        a: u32,
        b: u32,
        t: u32,
        l: u32,
        tt: u32,
    ) -> (ok: bool)
        requires
            n.value() > 1,
            a <= b,
            l + t + tt / 2 + 1 <= u32::MAX,
            tolerance_defined::<H>(
                *proof_wt,
                g.value(),
                h.value(),
                e.value(),
                n.value(),
                a as nat,
                b as nat,
                t as nat,
                l as nat,
                tt as nat,
            ),
        ensures
            ok == tolerance_accepts::<H>(
                *proof_wt,
                g.value(),
                h.value(),
                e.value(),
                n.value(),
                a as nat,
                b as nat,
                t as nat,
                l as nat,
                tt as nat,
            ),
    {
        let (aa, bb) = tolerance_bounds(a, b, t, l, tt);
        let e_a = divm(e, &pow_mod_of(g, &aa, n), n);
        let e_b = divm(&pow_mod_of(g, &bb, n), e, n);
        let div_a = divm(&e_a, &proof_wt.e_a_1, n);
        let div_b = divm(&e_b, &proof_wt.e_b_1, n);
        if integer_eq(&proof_wt.e_a_2, &div_a) && integer_eq(&proof_wt.e_b_2, &div_b) {
            let b_s = Self::verify_of_square::<H>(&proof_wt.proof_of_square_a, g, h, n)
                && Self::verify_of_square::<H>(&proof_wt.proof_of_square_b, g, h, n);
            let b_li = Self::verify_large_interval_specific::<H>(&proof_wt.proof_large_i_a, &proof_wt.e_a_2, g, h, n, t, l, b, tt)
                && Self::verify_large_interval_specific::<H>(
                &proof_wt.proof_large_i_b,
                &proof_wt.e_b_2,
                g,
                h,
                n,
                t,
                l,
                b,
                tt,
            );
            return b_s && b_li;
        }
        false
    }

    /// Checks this range proof: `E' = E^(2^T) mod n` and the proof with
    /// tolerance for `E'`.
    pub fn verify_of_square_decomposition_range<H: HashAlgorithm>(
        &self,
        g: &Integer,
        h: &Integer,
        n: &Integer,
        a: u32,
        b: u32,
        t: u32,
        l: u32,
        tt: u32,
    ) -> (ok: bool)
        requires
            n.value() > 1,
            a <= b,
            l + t + tt / 2 + 1 <= u32::MAX,
            range_defined::<H>(*self, g.value(), h.value(), n.value(), a as nat, b as nat, t as nat, l as nat, tt as nat),
        ensures
            ok == range_accepts::<H>(*self, g.value(), h.value(), n.value(), a as nat, b as nat, t as nat, l as nat, tt as nat),
    {
        proof {
            vstd::arithmetic::power::lemma_pow_positive(2, tt as nat);
        }
        let e_prime = pow_mod_of(&self.e, &two_pow(tt), n);
        if integer_eq(&self.e_prime, &e_prime) {
            return Self::verify_of_tolerance_specific::<H>(&self.proof_of_tolerance, g, h, &self.e_prime, n, a, b, t, l, tt);
        }
        false
    }

    /// Checks that this range proof shows, under the bases `base1` and
    /// `base2` modulo `module`, that its committed value lies in
    /// `[rmin, rmax]`, with the security parameters of `prove`.
    pub fn verify<H: HashAlgorithm>(&self, base1: &Integer, base2: &Integer, module: &Integer, rmin: u32, rmax: u32) -> (ok: bool)
        requires
            rmin < rmax,
            module.value() > 1,
            range_defined::<H>(
                *self,
                base1.value(),
                base2.value(),
                module.value(),
                rmin as nat,
                rmax as nat,
                SECURITY_T as nat,
                SECURITY_L as nat,
                range_exponent(rmin, rmax),
            ),
        ensures
            ok == range_accepts::<H>(
                *self,
                base1.value(),
                base2.value(),
                module.value(),
                rmin as nat,
                rmax as nat,
                SECURITY_T as nat,
                SECURITY_L as nat,
                range_exponent(rmin, rmax),
            ),
    {
        let tt = 2 * (SECURITY_T + SECURITY_L + 1) + u32_bits(rmax - rmin);
        self.verify_of_square_decomposition_range::<H>(base1, base2, module, rmin, rmax, SECURITY_T, SECURITY_L, tt)
    }
}

} // verus!
