//! Range proofs for committed integers after Boudot (2000): a committed
//! value lies in `[rmin, rmax]`, shown through the decomposition of its
//! distances to both ends into a square and a small remainder.
use crate::bytes::be_to_nat;
use crate::cl03::commitment::CL03Commitment;
use crate::hash::HashAlgorithm;
use crate::integer::{
    bit_length, decimal, integer_add, integer_decimal, integer_isqrt, integer_le, integer_mul, integer_pow,
    integer_rem, integer_sub, invertible, isqrt, pow_mod_of, rand_int, spec_pow_mod, u32_bits, Integer,
};
use vstd::arithmetic::power::pow;
use vstd::prelude::*;

verus! {

/// A proof that two commitments hide the same secret.
pub struct ProofSs {
    pub challenge: Integer,
    pub d: Integer,
    pub d_1: Integer,
    pub d_2: Integer,
}

/// A proof that a commitment `E` hides a square, with the auxiliary
/// commitment `F` to its root.
pub struct ProofOfS {
    pub e: Integer,
    pub f: Integer,
    pub proof_ss: ProofSs,
}

/// A proof that a committed value lies in a large interval.
pub struct ProofLi {
    pub c: Integer,
    pub d_1: Integer,
    pub d_2: Integer,
}

/// A proof with tolerance: the commitments to the square parts and
/// remainders of both distances, and their proofs.
pub struct ProofWt {
    pub e_a_1: Integer,
    pub e_a_2: Integer,
    pub e_b_1: Integer,
    pub e_b_2: Integer,
    pub proof_of_square_a: ProofOfS,
    pub proof_of_square_b: ProofOfS,
    pub proof_large_i_a: ProofLi,
    pub proof_large_i_b: ProofLi,
}

/// A range proof after Boudot (2000).
pub struct Boudot2000RangeProof {
    pub proof_of_tolerance: ProofWt,
    pub e_prime: Integer,
    pub e: Integer,
}

/// The kinds of range proof.
pub enum RangeProof {
    Boudot2000,
}

/// The random values of a same-secret proof.
pub struct SameSecretRandomness {
    pub omega: Integer,
    pub mu_1: Integer,
    pub mu_2: Integer,
}

/// The random values of a proof of square: the randomness of `F` and of the
/// same-secret proof.
pub struct SquareRandomness {
    pub r_2: Integer,
    pub same_secret: SameSecretRandomness,
}

/// The random values of one attempt of a large-interval proof.
pub struct IntervalRandomness {
    pub w: Integer,
    pub nu: Integer,
}

/// The random splits of a proof with tolerance: the randomness of the
/// commitments to the square parts of both distances.
pub struct ToleranceRandomness {
    pub r_a_1: Integer,
    pub r_b_1: Integer,
}

/// `2^e`.
pub open spec fn p2(e: nat) -> int {
    pow(2, e)
}

/// A digest read as a big-endian integer.
pub open spec fn hash_int<H: HashAlgorithm>(data: Seq<u8>) -> int {
    be_to_nat(H::spec_digest(data)) as int
}

/// The challenge of a same-secret proof: the digest of the decimal forms of
/// `g1^omega h1^mu1` and `g2^omega h2^mu2` modulo `n`.
pub open spec fn same_secret_challenge<H: HashAlgorithm>(
    g1: int,
    h1: int,
    g2: int,
    h2: int,
    n: int,
    omega: int,
    mu1: int,
    mu2: int,
) -> int {
    let w1 = (spec_pow_mod(g1, omega, n) * spec_pow_mod(h1, mu1, n)) % n;
    let w2 = (spec_pow_mod(g2, omega, n) * spec_pow_mod(h2, mu2, n)) % n;
    hash_int::<H>(decimal(w1) + decimal(w2))
}

/// `p` is the same-secret proof for `x` with randomness `r1` and `r2` that
/// the random values `rnd` give.
pub open spec fn is_same_secret_proof<H: HashAlgorithm>(
    p: ProofSs,
    x: int,
    r1: int,
    r2: int,
    g1: int,
    h1: int,
    g2: int,
    h2: int,
    n: int,
    rnd: SameSecretRandomness,
) -> bool {
    let c = same_secret_challenge::<H>(g1, h1, g2, h2, n, rnd.omega.value(), rnd.mu_1.value(), rnd.mu_2.value());
    &&& p.challenge.value() == c
    &&& p.d.value() == rnd.omega.value() + c * x
    &&& p.d_1.value() == rnd.mu_1.value() + c * r1
    &&& p.d_2.value() == rnd.mu_2.value() + c * r2
}

/// The ranges that the random values of a same-secret proof are drawn from.
pub open spec fn same_secret_within(rnd: SameSecretRandomness, l: nat, t: nat, b: nat, s1: nat, s2: nat, n: int) -> bool {
    &&& 1 <= rnd.omega.value() <= p2(l + t) * b - 1
    &&& 1 <= rnd.mu_1.value() <= p2(l + t + s1) * n - 1
    &&& 1 <= rnd.mu_2.value() <= p2(l + t + s2) * n - 1
}

/// `p` is the proof of square of `x` (committed in `e` with randomness
/// `r1`) that the random values `rnd` give.
pub open spec fn is_square_proof<H: HashAlgorithm>(
    p: ProofOfS,
    x: int,
    r1: int,
    g: int,
    h: int,
    e: int,
    n: int,
    rnd: SquareRandomness,
) -> bool {
    let r2 = rnd.r_2.value();
    let f = (spec_pow_mod(g, x, n) * spec_pow_mod(h, r2, n)) % n;
    &&& p.e.value() == e
    &&& p.f.value() == f
    &&& is_same_secret_proof::<H>(p.proof_ss, x, r2, r1 - r2 * x, g, h, f, h, n, rnd.same_secret)
}

/// The ranges that the random values of a proof of square are drawn from.
pub open spec fn square_within(
    rnd: SquareRandomness,
    l: nat,
    t: nat,
    b: nat,
    s: nat,
    s1: nat,
    s2: nat,
    n: int,
) -> bool {
    &&& -(p2(s) * n) + 1 <= rnd.r_2.value() <= p2(s) * n - 1
    &&& same_secret_within(rnd.same_secret, l, t, b, s1, s2, n)
}

/// `g^x h^r` modulo `n`: a commitment to `x` with randomness `r`.
pub open spec fn commit_int(g: int, h: int, x: int, r: int, n: int) -> int {
    (spec_pow_mod(g, x, n) * spec_pow_mod(h, r, n)) % n
}

/// The largest `w` of a large-interval proof: `2^T * 2^(t + l) * b - 1`.
pub open spec fn interval_hi(t: nat, l: nat, b: nat, tt: nat) -> int {
    p2(tt) * p2(t + l) * b - 1
}

/// The bound on `nu` of a large-interval proof: `2^T * 2^(t + l + s) * n - 1`.
pub open spec fn interval_nu_hi(t: nat, l: nat, s: nat, n: int, tt: nat) -> int {
    p2(tt) * p2(t + l + s) * n - 1
}

/// `p` is the large-interval proof for `x`, committed with randomness `r`,
/// that one attempt with the random values `rnd` gives.
pub open spec fn is_interval_proof<H: HashAlgorithm>(
    p: ProofLi,
    x: int,
    r: int,
    g: int,
    h: int,
    n: int,
    t: nat,
    rnd: IntervalRandomness,
) -> bool {
    let c = hash_int::<H>(decimal(commit_int(g, h, rnd.w.value(), rnd.nu.value(), n)));
    let ch = c % p2(t);
    &&& p.c.value() == c
    &&& p.d_1.value() == rnd.w.value() + ch * x
    &&& p.d_2.value() == rnd.nu.value() + ch * r
}

/// The ranges that the random values of a large-interval attempt are drawn
/// from.
pub open spec fn interval_within(rnd: IntervalRandomness, t: nat, l: nat, b: nat, s: nat, n: int, tt: nat) -> bool {
    &&& 0 <= rnd.w.value() <= interval_hi(t, l, b, tt)
    &&& -interval_nu_hi(t, l, s, n, tt) <= rnd.nu.value() <= interval_nu_hi(t, l, s, n, tt)
}

/// The prover keeps an attempt whose `D_1` lies in `[c * b, 2^T 2^(t+l) b - 1]`.
pub open spec fn interval_accepted(p: ProofLi, t: nat, l: nat, b: nat, tt: nat) -> bool {
    (p.c.value() % p2(t)) * b <= p.d_1.value() <= interval_hi(t, l, b, tt)
}

/// `p` is an accepted large-interval proof for `x`, committed with
/// randomness `r`, from random values drawn in their ranges.
pub open spec fn is_interval_proof_for<H: HashAlgorithm>(
    p: ProofLi,
    x: int,
    r: int,
    g: int,
    h: int,
    n: int,
    t: nat,
    l: nat,
    b: nat,
    s: nat,
    tt: nat,
) -> bool {
    &&& exists|rnd: IntervalRandomness|
        interval_within(rnd, t, l, b, s, n, tt) && #[trigger] is_interval_proof::<H>(p, x, r, g, h, n, t, rnd)
    &&& interval_accepted(p, t, l, b, tt)
}

/// The widening `2^(l + t + floor(T/2) + 1) * isqrt(b - a)` of the interval
/// `[2^T a, 2^T b]` that a proof with tolerance shows.
pub open spec fn tolerance_slack(a: nat, b: nat, t: nat, l: nat, tt: nat) -> int {
    p2(l + t + tt / 2 + 1) * isqrt(b - a)
}

/// The lower end of the interval that a proof with tolerance shows.
pub open spec fn tolerance_lo(a: nat, b: nat, t: nat, l: nat, tt: nat) -> int {
    p2(tt) * a - tolerance_slack(a, b, t, l, tt)
}

/// The upper end of the interval that a proof with tolerance shows.
pub open spec fn tolerance_hi(a: nat, b: nat, t: nat, l: nat, tt: nat) -> int {
    p2(tt) * b + tolerance_slack(a, b, t, l, tt)
}

/// The bound `2^s * 2^T * n - 1` on each part of a split randomness.
pub open spec fn split_bound(s: nat, n: int, tt: nat) -> int {
    p2(s) * p2(tt) * n - 1
}

/// The ranges of the random splits of a proof with tolerance for the
/// randomness `r`: both parts of `r` and both parts of `-r` lie in
/// `[-k, k]` for `k = 2^s * 2^T * n - 1`.
pub open spec fn tolerance_within(rnd: ToleranceRandomness, r: int, s: nat, n: int, tt: nat) -> bool {
    let k = split_bound(s, n, tt);
    &&& -k <= rnd.r_a_1.value() <= k
    &&& -k <= r - rnd.r_a_1.value() <= k
    &&& -k <= rnd.r_b_1.value() <= k
    &&& -k <= -r - rnd.r_b_1.value() <= k
}

/// One side of a proof with tolerance for a distance `d`: with
/// `x_1 = isqrt(d)` and `x_2 = d - x_1^2`, `e_1` commits to `x_1^2` with
/// randomness `r_1`, `e_2` to `x_2` with `r_2`, `sq` proves that `e_1` hides a
/// square and `li` that `x_2` lies in the large interval.
pub open spec fn is_side_proof<H: HashAlgorithm>(
    e_1: int,
    e_2: int,
    sq: ProofOfS,
    li: ProofLi,
    d: int,
    r_1: int,
    r_2: int,
    g: int,
    h: int,
    n: int,
    t: nat,
    l: nat,
    b: nat,
    s: nat,
    s1: nat,
    s2: nat,
    tt: nat,
) -> bool {
    let x_1 = isqrt(d);
    let x_2 = d - x_1 * x_1;
    &&& e_1 == commit_int(g, h, x_1 * x_1, r_1, n)
    &&& e_2 == commit_int(g, h, x_2, r_2, n)
    &&& exists|rnd: SquareRandomness|
        square_within(rnd, l, t, b, s, s1, s2, n) && #[trigger] is_square_proof::<H>(sq, x_1, r_1, g, h, e_1, n, rnd)
    &&& is_interval_proof_for::<H>(li, x_2, r_2, g, h, n, t, l, b, s, tt)
}

/// `p` is the proof with tolerance for `x`, committed with randomness `r`,
/// that the random splits `rnd` give: one side for `x - lo` with the parts of
/// `r`, one for `hi - x` with the parts of `-r`.
pub open spec fn is_tolerance_proof<H: HashAlgorithm>(
    p: ProofWt,
    x: int,
    r: int,
    g: int,
    h: int,
    n: int,
    a: nat,
    b: nat,
    t: nat,
    l: nat,
    s: nat,
    s1: nat,
    s2: nat,
    tt: nat,
    rnd: ToleranceRandomness,
) -> bool {
    &&& is_side_proof::<H>(
        p.e_a_1.value(),
        p.e_a_2.value(),
        p.proof_of_square_a,
        p.proof_large_i_a,
        x - tolerance_lo(a, b, t, l, tt),
        rnd.r_a_1.value(),
        r - rnd.r_a_1.value(),
        g,
        h,
        n,
        t,
        l,
        b,
        s,
        s1,
        s2,
        tt,
    )
    &&& is_side_proof::<H>(
        p.e_b_1.value(),
        p.e_b_2.value(),
        p.proof_of_square_b,
        p.proof_large_i_b,
        tolerance_hi(a, b, t, l, tt) - x,
        rnd.r_b_1.value(),
        -r - rnd.r_b_1.value(),
        g,
        h,
        n,
        t,
        l,
        b,
        s,
        s1,
        s2,
        tt,
    )
}

/// `p` is a proof with tolerance for `x`, committed with randomness `r`,
/// from random values drawn in their ranges.
pub open spec fn is_tolerance_proof_for<H: HashAlgorithm>(
    p: ProofWt,
    x: int,
    r: int,
    g: int,
    h: int,
    n: int,
    a: nat,
    b: nat,
    t: nat,
    l: nat,
    s: nat,
    s1: nat,
    s2: nat,
    tt: nat,
) -> bool {
    exists|rnd: ToleranceRandomness|
        tolerance_within(rnd, r, s, n, tt) && #[trigger] is_tolerance_proof::<H>(
            p,
            x,
            r,
            g,
            h,
            n,
            a,
            b,
            t,
            l,
            s,
            s1,
            s2,
            tt,
            rnd,
        )
}

/// The security parameter `t`: the soundness of a range proof is about
/// `2^(t - 1)`, and `2t = 256` is the length of a SHA-256 digest.
pub const SECURITY_T: u32 = 128;

/// The security parameter `l`: zero knowledge holds as `1 / l` is negligible.
pub const SECURITY_L: u32 = 40;

/// The security parameter `s` of the commitments: `2^-s` is negligible.
pub const SECURITY_S: u32 = 40;

/// The security parameter `s1` of the commitments: `2^-s1` is negligible.
pub const SECURITY_S1: u32 = 40;

/// The security parameter `s2` of the commitments: `2^-s2` is negligible.
pub const SECURITY_S2: u32 = 552;

/// The exponent `T = 2 (t + l + 1) + |rmax - rmin|` of a range proof for
/// `[rmin, rmax]`, with `|v|` the number of bits of `v`.
pub open spec fn range_exponent(rmin: u32, rmax: u32) -> nat {
    (2 * (SECURITY_T + SECURITY_L + 1) + bit_length((rmax - rmin) as nat)) as nat
}

/// `p` is a range proof, from random values drawn in their ranges, that the
/// value `x` committed in `e` with randomness `r` lies in `[a, b]`: it holds
/// `e`, `E' = e^(2^T) mod n`, and a proof with tolerance for `2^T x`
/// committed with randomness `2^T r`.
pub open spec fn is_range_proof_for<H: HashAlgorithm>(
    p: Boudot2000RangeProof,
    x: int,
    r: int,
    g: int,
    h: int,
    e: int,
    n: int,
    a: nat,
    b: nat,
    t: nat,
    l: nat,
    s: nat,
    s1: nat,
    s2: nat,
    tt: nat,
) -> bool {
    &&& p.e.value() == e
    &&& p.e_prime.value() == spec_pow_mod(e, p2(tt), n)
    &&& is_tolerance_proof_for::<H>(p.proof_of_tolerance, p2(tt) * x, p2(tt) * r, g, h, n, a, b, t, l, s, s1, s2, tt)
}

/// `2^e`.
pub(crate) fn two_pow(e: u32) -> (r: Integer)
    ensures
        r.value() == p2(e as nat),
{
    integer_pow(&Integer::from_u64(2), e)
}

/// `(x * y) % n` for non-negative `x` and `y`.
pub(crate) fn mul_mod(x: &Integer, y: &Integer, n: &Integer) -> (r: Integer)
    requires
        n.value() > 0,
        x.value() >= 0,
        y.value() >= 0,
    ensures
        r.value() == (x.value() * y.value()) % n.value(),
        0 <= r.value() < n.value(),
{
    proof {
        assert(x.value() * y.value() >= 0) by (nonlinear_arith)
            requires
                x.value() >= 0,
                y.value() >= 0,
        ;
        vstd::arithmetic::div_mod::lemma_mod_bound(x.value() * y.value(), n.value());
    }
    integer_rem(&integer_mul(x, y), n)
}

/// `(x * y * z) % n` for non-negative factors.
pub(crate) fn mul3_mod(x: &Integer, y: &Integer, z: &Integer, n: &Integer) -> (r: Integer)
    requires
        n.value() > 0,
        x.value() >= 0,
        y.value() >= 0,
        z.value() >= 0,
    ensures
        r.value() == (x.value() * y.value() * z.value()) % n.value(),
        0 <= r.value() < n.value(),
{
    proof {
        assert(x.value() * y.value() >= 0 && x.value() * y.value() * z.value() >= 0) by (nonlinear_arith)
            requires
                x.value() >= 0,
                y.value() >= 0,
                z.value() >= 0,
        ;
        vstd::arithmetic::div_mod::lemma_mod_bound(x.value() * y.value() * z.value(), n.value());
    }
    integer_rem(&integer_mul(&integer_mul(x, y), z), n)
}

/// The digest of the decimal forms of `a` and `b`, read as an integer.
pub(crate) fn hash_decimals<H: HashAlgorithm>(a: &Integer, b: Option<&Integer>) -> (r: Integer)
    ensures
        r.value() == hash_int::<H>(
            match b {
                Some(b) => decimal(a.value()) + decimal(b.value()),
                None => decimal(a.value()),
            },
        ),
{
    let mut data = integer_decimal(a);
    match b {
        Some(b) => crate::bytes::append_bytes(&mut data, integer_decimal(b).as_slice()),
        None => {},
    }
    let hash = H::digest(data.as_slice());
    Integer::from_digits_be(hash.as_slice())
}

/// `r + c * x`.
fn add_mul(r: &Integer, c: &Integer, x: &Integer) -> (s: Integer)
    ensures
        s.value() == r.value() + c.value() * x.value(),
{
    integer_add(r, &integer_mul(c, x))
}

/// `lo` and `hi` as integers: `-(2^e1 * n) + 1` and `2^e1 * n - 1`.
fn symmetric_range(e1: u32, n: &Integer) -> (r: (Integer, Integer))
    ensures
        r.0.value() == -(p2(e1 as nat) * n.value()) + 1,
        r.1.value() == p2(e1 as nat) * n.value() - 1,
{
    let k = integer_mul(&two_pow(e1), n);
    let one = Integer::from_u64(1);
    (integer_add(&k.negated(), &one), integer_sub(&k, &one))
}

/// The larger of `a` and `b`.
fn larger(a: &Integer, b: &Integer) -> (r: Integer)
    ensures
        r.value() == if a.value() <= b.value() { b.value() } else { a.value() },
{
    if integer_le(a, b) {
        b.copy()
    } else {
        a.copy()
    }
}

/// The smaller of `a` and `b`.
fn smaller(a: &Integer, b: &Integer) -> (r: Integer)
    ensures
        r.value() == if a.value() <= b.value() { a.value() } else { b.value() },
{
    if integer_le(a, b) {
        a.copy()
    } else {
        b.copy()
    }
}

/// The ends of the interval that a proof with tolerance shows.
pub(crate) fn tolerance_bounds(a: u32, b: u32, t: u32, l: u32, tt: u32) -> (r: (Integer, Integer))
    requires
        a <= b,
        l + t + tt / 2 + 1 <= u32::MAX,
    ensures
        r.0.value() == tolerance_lo(a as nat, b as nat, t as nat, l as nat, tt as nat),
        r.1.value() == tolerance_hi(a as nat, b as nat, t as nat, l as nat, tt as nat),
{
    let root = integer_isqrt(&Integer::from_u64((b - a) as u64));
    let slack = integer_mul(&two_pow(l + t + tt / 2 + 1), &root);
    let base = two_pow(tt);
    let lo = integer_sub(&integer_mul(&base, &Integer::from_u64(a as u64)), &slack);
    let hi = integer_add(&integer_mul(&base, &Integer::from_u64(b as u64)), &slack);
    (lo, hi)
}

/// A random part `r_1` of `r` such that `r_1` and `r - r_1` both lie in
/// `[-k, k]`: drawn from the values for which both do.
fn split_randomness(r: &Integer, k: &Integer) -> (r_1: Integer)
    requires
        -2 * k.value() <= r.value() <= 2 * k.value(),
    ensures
        -k.value() <= r_1.value() <= k.value(),
        -k.value() <= r.value() - r_1.value() <= k.value(),
{
    let neg_k = k.negated();
    let lo = larger(&neg_k, &integer_sub(r, k));
    let hi = smaller(k, &integer_add(r, k));
    rand_int(&lo, &hi)
}

impl Boudot2000RangeProof {
    /// The same-secret proof for `x` that the random values `rnd` give.
    pub fn proof_same_secret_with<H: HashAlgorithm>(
        x: &Integer,
        r_1: &Integer,
        r_2: &Integer,
        g_1: &Integer,
        h_1: &Integer,
        g_2: &Integer,
        h_2: &Integer,
        n: &Integer,
        rnd: &SameSecretRandomness,
    ) -> (r: ProofSs)
        requires
            n.value() > 1,
            rnd.omega.value() >= 0,
            rnd.mu_1.value() >= 0,
            rnd.mu_2.value() >= 0,
        ensures
            is_same_secret_proof::<H>(
                r,
                x.value(),
                r_1.value(),
                r_2.value(),
                g_1.value(),
                h_1.value(),
                g_2.value(),
                h_2.value(),
                n.value(),
                *rnd,
            ),
    {
        let w_1 = mul_mod(&pow_mod_of(g_1, &rnd.omega, n), &pow_mod_of(h_1, &rnd.mu_1, n), n);
        let w_2 = mul_mod(&pow_mod_of(g_2, &rnd.omega, n), &pow_mod_of(h_2, &rnd.mu_2, n), n);
        let challenge = hash_decimals::<H>(&w_1, Some(&w_2));
        let d = add_mul(&rnd.omega, &challenge, x);
        let d_1 = add_mul(&rnd.mu_1, &challenge, r_1);
        let d_2 = add_mul(&rnd.mu_2, &challenge, r_2);
        ProofSs { challenge, d, d_1, d_2 }
    }

    /// A same-secret proof for `x`, committed with randomness `r_1` under
    /// `g_1, h_1` and with `r_2` under `g_2, h_2`, with fresh random values.
    pub fn proof_same_secret<H: HashAlgorithm>(
        x: &Integer,
        r_1: &Integer,
        r_2: &Integer,
        g_1: &Integer,
        h_1: &Integer,
        g_2: &Integer,
        h_2: &Integer,
        l: u32,
        t: u32,
        b: u32,
        s1: u32,
        s2: u32,
        n: &Integer,
    ) -> (r: ProofSs)
        requires
            n.value() > 1,
            l + t + s1 <= u32::MAX,
            l + t + s2 <= u32::MAX,
            p2((l + t) as nat) * b >= 2,
        ensures
            exists|rnd: SameSecretRandomness|
                same_secret_within(rnd, l as nat, t as nat, b as nat, s1 as nat, s2 as nat, n.value())
                    && #[trigger] is_same_secret_proof::<H>(
                    r,
                    x.value(),
                    r_1.value(),
                    r_2.value(),
                    g_1.value(),
                    h_1.value(),
                    g_2.value(),
                    h_2.value(),
                    n.value(),
                    rnd,
                ),
    {
        let one = Integer::from_u64(1);
        let hi_omega = integer_sub(&integer_mul(&two_pow(l + t), &Integer::from_u64(b as u64)), &one);
        proof {
            vstd::arithmetic::power::lemma_pow_positive(2, (l + t + s1) as nat);
            vstd::arithmetic::power::lemma_pow_positive(2, (l + t + s2) as nat);
            assert(p2((l + t + s1) as nat) * n.value() >= 2) by (nonlinear_arith)
                requires
                    p2((l + t + s1) as nat) >= 1,
                    n.value() > 1,
            ;
            assert(p2((l + t + s2) as nat) * n.value() >= 2) by (nonlinear_arith)
                requires
                    p2((l + t + s2) as nat) >= 1,
                    n.value() > 1,
            ;
        }
        let omega = rand_int(&one, &hi_omega);
        let hi_mu_1 = integer_sub(&integer_mul(&two_pow(l + t + s1), n), &one);
        let mu_1 = rand_int(&one, &hi_mu_1);
        let hi_mu_2 = integer_sub(&integer_mul(&two_pow(l + t + s2), n), &one);
        let mu_2 = rand_int(&one, &hi_mu_2);
        let rnd = SameSecretRandomness { omega, mu_1, mu_2 };
        let r = Self::proof_same_secret_with::<H>(x, r_1, r_2, g_1, h_1, g_2, h_2, n, &rnd);
        assert(same_secret_within(rnd, l as nat, t as nat, b as nat, s1 as nat, s2 as nat, n.value()));
        r
    }

    /// The proof of square of `x` that the random values `rnd` give.
    pub fn proof_of_square_with<H: HashAlgorithm>(
        x: &Integer,
        r_1: &Integer,
        g: &Integer,
        h: &Integer,
        e: &Integer,
        n: &Integer,
        rnd: &SquareRandomness,
    ) -> (r: ProofOfS)
        requires
            n.value() > 1,
            x.value() >= 0 || invertible(g.value(), n.value()),
            rnd.r_2.value() >= 0 || invertible(h.value(), n.value()),
            rnd.same_secret.omega.value() >= 0,
            rnd.same_secret.mu_1.value() >= 0,
            rnd.same_secret.mu_2.value() >= 0,
        ensures
            is_square_proof::<H>(r, x.value(), r_1.value(), g.value(), h.value(), e.value(), n.value(), *rnd),
    {
        let f = mul_mod(&pow_mod_of(g, x, n), &pow_mod_of(h, &rnd.r_2, n), n);
        let r_3 = integer_sub(r_1, &integer_mul(&rnd.r_2, x));
        let proof_ss = Self::proof_same_secret_with::<H>(x, &rnd.r_2, &r_3, g, h, &f, h, n, &rnd.same_secret);
        ProofOfS { e: e.copy(), f, proof_ss }
    }

    /// A proof that `e`, a commitment to `x` with randomness `r_1`, hides a
    /// square, with fresh random values.
    pub fn proof_of_square<H: HashAlgorithm>(
        x: &Integer,
        r_1: &Integer,
        g: &Integer,
        h: &Integer,
        e: &Integer,
        l: u32,
        t: u32,
        b: u32,
        s: u32,
        s1: u32,
        s2: u32,
        n: &Integer,
    ) -> (r: ProofOfS)
        requires
            n.value() > 1,
            x.value() >= 0 || invertible(g.value(), n.value()),
            invertible(h.value(), n.value()),
            l + t + s1 <= u32::MAX,
            l + t + s2 <= u32::MAX,
            p2((l + t) as nat) * b >= 2,
        ensures
            exists|rnd: SquareRandomness|
                square_within(rnd, l as nat, t as nat, b as nat, s as nat, s1 as nat, s2 as nat, n.value())
                    && #[trigger] is_square_proof::<H>(
                    r,
                    x.value(),
                    r_1.value(),
                    g.value(),
                    h.value(),
                    e.value(),
                    n.value(),
                    rnd,
                ),
    {
        let (lo, hi) = symmetric_range(s, n);
        proof {
            vstd::arithmetic::power::lemma_pow_positive(2, s as nat);
            assert(p2(s as nat) * n.value() >= 1) by (nonlinear_arith)
                requires
                    p2(s as nat) >= 1,
                    n.value() > 1,
            ;
        }
        let r_2 = rand_int(&lo, &hi);
        let f = mul_mod(&pow_mod_of(g, x, n), &pow_mod_of(h, &r_2, n), n);
        let r_3 = integer_sub(r_1, &integer_mul(&r_2, x));
        let proof_ss = Self::proof_same_secret::<H>(x, &r_2, &r_3, g, h, &f, h, l, t, b, s1, s2, n);
        let ghost ss_rnd = choose|rnd: SameSecretRandomness|
            same_secret_within(rnd, l as nat, t as nat, b as nat, s1 as nat, s2 as nat, n.value())
                && #[trigger] is_same_secret_proof::<H>(
                proof_ss,
                x.value(),
                r_2.value(),
                r_3.value(),
                g.value(),
                h.value(),
                f.value(),
                h.value(),
                n.value(),
                rnd,
            );
        let ghost rnd = SquareRandomness { r_2, same_secret: ss_rnd };
        let r = ProofOfS { e: e.copy(), f, proof_ss };
        assert(square_within(rnd, l as nat, t as nat, b as nat, s as nat, s1 as nat, s2 as nat, n.value()));
        assert(is_square_proof::<H>(r, x.value(), r_1.value(), g.value(), h.value(), e.value(), n.value(), rnd));
        r
    }

    /// The large-interval proof for `x` that one attempt with the random
    /// values `rnd` gives, accepted or not.
    pub fn proof_large_interval_with<H: HashAlgorithm>(
        x: &Integer,
        r: &Integer,
        g: &Integer,
        h: &Integer,
        t: u32,
        n: &Integer,
        rnd: &IntervalRandomness,
    ) -> (p: ProofLi)
        requires
            n.value() > 1,
            rnd.w.value() >= 0,
            rnd.nu.value() >= 0 || invertible(h.value(), n.value()),
        ensures
            is_interval_proof::<H>(p, x.value(), r.value(), g.value(), h.value(), n.value(), t as nat, *rnd),
    {
        let omega = mul_mod(&pow_mod_of(g, &rnd.w, n), &pow_mod_of(h, &rnd.nu, n), n);
        let c = hash_decimals::<H>(&omega, None);
        proof {
            vstd::arithmetic::power::lemma_pow_positive(2, t as nat);
        }
        let ch = integer_rem(&c, &two_pow(t));
        let d_1 = add_mul(&rnd.w, &ch, x);
        let d_2 = add_mul(&rnd.nu, &ch, r);
        ProofLi { c, d_1, d_2 }
    }

    /// Whether an attempt at a large-interval proof is kept.
    pub fn interval_attempt_accepted(p: &ProofLi, t: u32, b: u32, hi: &Integer) -> (ok: bool)
        requires
            p.c.value() >= 0,
        ensures
            ok == ((p.c.value() % p2(t as nat)) * b <= p.d_1.value() <= hi.value()),
    {
        proof {
            vstd::arithmetic::power::lemma_pow_positive(2, t as nat);
        }
        let ch = integer_rem(&p.c, &two_pow(t));
        let lo = integer_mul(&ch, &Integer::from_u64(b as u64));
        integer_le(&lo, &p.d_1) && integer_le(&p.d_1, hi)
    }

    /// A large-interval proof for `x`, committed with randomness `r`: fresh
    /// attempts until one is accepted. `None` only when every one of
    /// `u64::MAX` attempts was refused.
    pub fn proof_large_interval_specific<H: HashAlgorithm>(
        x: &Integer,
        r: &Integer,
        g: &Integer,
        h: &Integer,
        t: u32,
        l: u32,
        b: u32,
        s: u32,
        n: &Integer,
        tt: u32,
    ) -> (res: Option<ProofLi>)
        requires
            n.value() > 1,
            invertible(h.value(), n.value()),
            b >= 1,
            t + l + s <= u32::MAX,
        ensures
            res matches Some(p) ==> is_interval_proof_for::<H>(
                p,
                x.value(),
                r.value(),
                g.value(),
                h.value(),
                n.value(),
                t as nat,
                l as nat,
                b as nat,
                s as nat,
                tt as nat,
            ),
    {
        let one = Integer::from_u64(1);
        let zero = Integer::from_u64(0);
        let hi_w = integer_sub(
            &integer_mul(&integer_mul(&two_pow(tt), &two_pow(t + l)), &Integer::from_u64(b as u64)),
            &one,
        );
        let hi_nu = integer_sub(&integer_mul(&integer_mul(&two_pow(tt), &two_pow(t + l + s)), n), &one);
        let lo_nu = hi_nu.negated();
        proof {
            vstd::arithmetic::power::lemma_pow_positive(2, tt as nat);
            vstd::arithmetic::power::lemma_pow_positive(2, (t + l) as nat);
            vstd::arithmetic::power::lemma_pow_positive(2, (t + l + s) as nat);
            assert(p2(tt as nat) * p2((t + l) as nat) * b >= 1) by (nonlinear_arith)
                requires
                    p2(tt as nat) >= 1,
                    p2((t + l) as nat) >= 1,
                    b >= 1,
            ;
            assert(p2(tt as nat) * p2((t + l + s) as nat) * n.value() >= 1) by (nonlinear_arith)
                requires
                    p2(tt as nat) >= 1,
                    p2((t + l + s) as nat) >= 1,
                    n.value() > 1,
            ;
        }
        let mut attempt: u64 = 0;
        while attempt < u64::MAX
            invariant
                n.value() > 1,
                invertible(h.value(), n.value()),
                hi_w.value() == interval_hi(t as nat, l as nat, b as nat, tt as nat),
                hi_w.value() >= 0,
                hi_nu.value() == interval_nu_hi(t as nat, l as nat, s as nat, n.value(), tt as nat),
                lo_nu.value() == -hi_nu.value(),
                hi_nu.value() >= 0,
                zero.value() == 0,
            decreases u64::MAX - attempt,
        {
            let w = rand_int(&zero, &hi_w);
            let nu = rand_int(&lo_nu, &hi_nu);
            let rnd = IntervalRandomness { w, nu };
            let p = Self::proof_large_interval_with::<H>(x, r, g, h, t, n, &rnd);
            if Self::interval_attempt_accepted(&p, t, b, &hi_w) {
                assert(interval_within(rnd, t as nat, l as nat, b as nat, s as nat, n.value(), tt as nat));
                assert(is_interval_proof::<H>(p, x.value(), r.value(), g.value(), h.value(), n.value(), t as nat, rnd));
                return Some(p);
            }
            attempt = attempt + 1;
        }
        None
    }

    /// One side of a proof with tolerance for the distance `d >= 0`: the
    /// commitments `E_1` to `isqrt(d)^2` (randomness `r_1`) and `E_2` to the
    /// rest (randomness `r_2`), a proof of square for `E_1` and a
    /// large-interval proof for the rest.
    pub fn tolerance_side<H: HashAlgorithm>(
        d: &Integer,
        r_1: &Integer,
        r_2: &Integer,
        g: &Integer,
        h: &Integer,
        n: &Integer,
        t: u32,
        l: u32,
        b: u32,
        s: u32,
        s1: u32,
        s2: u32,
        tt: u32,
    ) -> (res: Option<(Integer, Integer, ProofOfS, ProofLi)>)
        requires
            n.value() > 1,
            invertible(h.value(), n.value()),
            d.value() >= 0,
            b >= 1,
            t + l + s <= u32::MAX,
            l + t + s1 <= u32::MAX,
            l + t + s2 <= u32::MAX,
            p2((l + t) as nat) * b >= 2,
        ensures
            res matches Some(v) ==> is_side_proof::<H>(
                v.0.value(),
                v.1.value(),
                v.2,
                v.3,
                d.value(),
                r_1.value(),
                r_2.value(),
                g.value(),
                h.value(),
                n.value(),
                t as nat,
                l as nat,
                b as nat,
                s as nat,
                s1 as nat,
                s2 as nat,
                tt as nat,
            ),
    {
        let x_1 = integer_isqrt(d);
        let sq = integer_mul(&x_1, &x_1);
        let x_2 = integer_sub(d, &sq);
        proof {
            assert(x_1.value() * x_1.value() >= 0) by (nonlinear_arith)
                requires
                    x_1.value() >= 0,
            ;
        }
        let e_1 = mul_mod(&pow_mod_of(g, &sq, n), &pow_mod_of(h, r_1, n), n);
        let e_2 = mul_mod(&pow_mod_of(g, &x_2, n), &pow_mod_of(h, r_2, n), n);
        let proof_sq = Self::proof_of_square::<H>(&x_1, r_1, g, h, &e_1, l, t, b, s, s1, s2, n);
        match Self::proof_large_interval_specific::<H>(&x_2, r_2, g, h, t, l, b, s, n, tt) {
            Some(li) => Some((e_1, e_2, proof_sq, li)),
            None => None,
        }
    }

    /// A proof that `x`, committed with randomness `r`, lies in
    /// `[2^T a - w, 2^T b + w]` for the widening `w` of `tolerance_slack`:
    /// `x - lo` and `hi - x` are each shown to be a square plus a rest in a
    /// large interval. The parts of `r` (and of `-r`) are drawn from the
    /// values for which both parts lie in `[-k, k]`, `k = 2^s 2^T n - 1`.
    /// `None` only when a large-interval proof found no accepted attempt.
    pub fn proof_of_tolerance_specific<H: HashAlgorithm>(
        x: Integer,
        r: Integer,
        g: &Integer,
        h: &Integer,
        n: &Integer,
        a: u32,
        b: u32,
        t: u32,
        l: u32,
        s: u32,
        s1: u32,
        s2: u32,
        tt: u32,
    ) -> (res: Option<ProofWt>)
        requires
            n.value() > 1,
            invertible(h.value(), n.value()),
            a <= b,
            b >= 1,
            l + t + tt / 2 + 1 <= u32::MAX,
            t + l + s <= u32::MAX,
            l + t + s1 <= u32::MAX,
            l + t + s2 <= u32::MAX,
            p2((l + t) as nat) * b >= 2,
            tolerance_lo(a as nat, b as nat, t as nat, l as nat, tt as nat) <= x.value() <= tolerance_hi(
                a as nat,
                b as nat,
                t as nat,
                l as nat,
                tt as nat,
            ),
            -2 * split_bound(s as nat, n.value(), tt as nat) <= r.value() <= 2 * split_bound(
                s as nat,
                n.value(),
                tt as nat,
            ),
        ensures
            res matches Some(p) ==> is_tolerance_proof_for::<H>(
                p,
                x.value(),
                r.value(),
                g.value(),
                h.value(),
                n.value(),
                a as nat,
                b as nat,
                t as nat,
                l as nat,
                s as nat,
                s1 as nat,
                s2 as nat,
                tt as nat,
            ),
    {
        let (aa, bb) = tolerance_bounds(a, b, t, l, tt);
        let x_a = integer_sub(&x, &aa);
        let x_b = integer_sub(&bb, &x);
        let k = integer_sub(
            &integer_mul(&integer_mul(&two_pow(s), &two_pow(tt)), n),
            &Integer::from_u64(1),
        );
        let r_a_1 = split_randomness(&r, &k);
        let r_a_2 = integer_sub(&r, &r_a_1);
        let neg_r = r.negated();
        let r_b_1 = split_randomness(&neg_r, &k);
        let r_b_2 = integer_sub(&neg_r, &r_b_1);
        let side_a = Self::tolerance_side::<H>(&x_a, &r_a_1, &r_a_2, g, h, n, t, l, b, s, s1, s2, tt);
        let (e_a_1, e_a_2, proof_of_square_a, proof_large_i_a) = match side_a {
            Some(v) => v,
            None => {
                return None;
            },
        };
        let side_b = Self::tolerance_side::<H>(&x_b, &r_b_1, &r_b_2, g, h, n, t, l, b, s, s1, s2, tt);
        let (e_b_1, e_b_2, proof_of_square_b, proof_large_i_b) = match side_b {
            Some(v) => v,
            None => {
                return None;
            },
        };
        let p = ProofWt {
            e_a_1,
            e_a_2,
            e_b_1,
            e_b_2,
            proof_of_square_a,
            proof_of_square_b,
            proof_large_i_a,
            proof_large_i_b,
        };
        let ghost rnd = ToleranceRandomness { r_a_1, r_b_1 };
        assert(tolerance_within(rnd, r.value(), s as nat, n.value(), tt as nat));
        assert(is_tolerance_proof::<H>(
            p,
            x.value(),
            r.value(),
            g.value(),
            h.value(),
            n.value(),
            a as nat,
            b as nat,
            t as nat,
            l as nat,
            s as nat,
            s1 as nat,
            s2 as nat,
            tt as nat,
            rnd,
        ));
        Some(p)
    }

    /// A range proof for `x`, committed in `e` with randomness `r`, shown
    /// for `2^T x` with randomness `2^T r` and `E' = e^(2^T) mod n`.
    /// `None` only when a large-interval proof found no accepted attempt.
    pub fn proof_of_square_decomposition_range<H: HashAlgorithm>(
        x: &Integer,
        r: &Integer,
        g: &Integer,
        h: &Integer,
        e: &Integer,
        n: &Integer,
        a: u32,
        b: u32,
        t: u32,
        l: u32,
        s: u32,
        s1: u32,
        s2: u32,
        tt: u32,
    ) -> (res: Option<Self>)
        requires
            n.value() > 1,
            invertible(h.value(), n.value()),
            a <= b,
            b >= 1,
            l + t + tt / 2 + 1 <= u32::MAX,
            t + l + s <= u32::MAX,
            l + t + s1 <= u32::MAX,
            l + t + s2 <= u32::MAX,
            p2((l + t) as nat) * b >= 2,
            tolerance_lo(a as nat, b as nat, t as nat, l as nat, tt as nat) <= p2(tt as nat) * x.value()
                <= tolerance_hi(a as nat, b as nat, t as nat, l as nat, tt as nat),
            -2 * split_bound(s as nat, n.value(), tt as nat) <= p2(tt as nat) * r.value() <= 2 * split_bound(
                s as nat,
                n.value(),
                tt as nat,
            ),
        ensures
            res matches Some(p) ==> is_range_proof_for::<H>(
                p,
                x.value(),
                r.value(),
                g.value(),
                h.value(),
                e.value(),
                n.value(),
                a as nat,
                b as nat,
                t as nat,
                l as nat,
                s as nat,
                s1 as nat,
                s2 as nat,
                tt as nat,
            ),
    {
        let scale = two_pow(tt);
        let x_prime = integer_mul(&scale, x);
        let r_prime = integer_mul(&scale, r);
        proof {
            vstd::arithmetic::power::lemma_pow_positive(2, tt as nat);
        }
        let e_prime = pow_mod_of(e, &scale, n);
        match Self::proof_of_tolerance_specific::<H>(x_prime, r_prime, g, h, n, a, b, t, l, s, s1, s2, tt) {
            Some(proof_of_tolerance) => Some(Boudot2000RangeProof { proof_of_tolerance, e_prime, e: e.copy() }),
            None => None,
        }
    }

    /// A range proof that `value`, committed in `commitment` under the bases
    /// `base1` (for the value) and `base2` (for the randomness) modulo
    /// `module`, lies in `[rmin, rmax]`, with the security parameters
    /// `t = 128`, `l = 40`, `s = 40`, `s1 = 40`, `s2 = 552`. `None` only when
    /// a large-interval proof found no accepted attempt.
    pub fn prove<H: HashAlgorithm>(
        value: &Integer,
        commitment: &CL03Commitment,
        base1: &Integer,
        base2: &Integer,
        module: &Integer,
        rmin: u32,
        rmax: u32,
    ) -> (res: Option<Self>)
        requires
            rmin < rmax,
            module.value() > 1,
            invertible(base2.value(), module.value()),
            tolerance_lo(
                rmin as nat,
                rmax as nat,
                SECURITY_T as nat,
                SECURITY_L as nat,
                range_exponent(rmin, rmax),
            ) <= p2(range_exponent(rmin, rmax)) * value.value() <= tolerance_hi(
                rmin as nat,
                rmax as nat,
                SECURITY_T as nat,
                SECURITY_L as nat,
                range_exponent(rmin, rmax),
            ),
            -2 * split_bound(SECURITY_S as nat, module.value(), range_exponent(rmin, rmax)) <= p2(
                range_exponent(rmin, rmax),
            ) * commitment.randomness.value() <= 2 * split_bound(
                SECURITY_S as nat,
                module.value(),
                range_exponent(rmin, rmax),
            ),
        ensures
            res matches Some(p) ==> is_range_proof_for::<H>(
                p,
                value.value(),
                commitment.randomness.value(),
                base1.value(),
                base2.value(),
                commitment.value.value(),
                module.value(),
                rmin as nat,
                rmax as nat,
                SECURITY_T as nat,
                SECURITY_L as nat,
                SECURITY_S as nat,
                SECURITY_S1 as nat,
                SECURITY_S2 as nat,
                range_exponent(rmin, rmax),
            ),
    {
        let tt = 2 * (SECURITY_T + SECURITY_L + 1) + u32_bits(rmax - rmin);
        proof {
            vstd::arithmetic::power::lemma_pow_strictly_increases(2, 0, (SECURITY_L + SECURITY_T) as nat);
            vstd::arithmetic::power::lemma_pow0(2);
            assert(p2((SECURITY_L + SECURITY_T) as nat) * rmax >= 2) by (nonlinear_arith)
                requires
                    p2((SECURITY_L + SECURITY_T) as nat) >= 2,
                    rmax >= 1,
            ;
        }
        Self::proof_of_square_decomposition_range::<H>(
            value,
            &commitment.randomness,
            base1,
            base2,
            &commitment.value,
            module,
            rmin,
            rmax,
            SECURITY_T,
            SECURITY_L,
            SECURITY_S,
            SECURITY_S1,
            SECURITY_S2,
            tt,
        )
    }
}

} // verus!
