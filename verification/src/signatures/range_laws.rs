//! Completeness of the range proofs: what the prover makes for a value
//! committed as `g^x h^r mod n` is accepted by the verifier.
use crate::hash::HashAlgorithm;
use crate::integer::{invertible, isqrt, lemma_mod_inverse_unique, lemma_pow_mod_range, mod_inverse, spec_pow_mod};
use crate::modular::{
    lemma_mul3_mod, lemma_mul_mod_unit, lemma_pow_mod_add, lemma_pow_mod_mul_base, lemma_pow_mod_pow,
    lemma_pow_mod_unit, lemma_pow_mod_zero,
};
use crate::signatures::range_proof::{
    commit_int, is_interval_proof, is_interval_proof_for, is_range_proof_for, is_same_secret_proof,
    is_side_proof, is_square_proof, is_tolerance_proof, is_tolerance_proof_for, p2, range_exponent,
    square_within, tolerance_hi, tolerance_lo, tolerance_within, Boudot2000RangeProof,
    IntervalRandomness, ProofLi, ProofOfS, ProofSs, ProofWt, SameSecretRandomness, SquareRandomness,
    ToleranceRandomness, SECURITY_L, SECURITY_S, SECURITY_S1, SECURITY_S2, SECURITY_T,
};
use crate::signatures::range_verify::{
    interval_accepts, interval_defined, range_accepts, range_defined, same_secret_accepts,
    same_secret_defined, square_accepts, square_defined, tolerance_accepts, tolerance_defined,
};
use vstd::arithmetic::div_mod::{lemma_mul_mod_noop, lemma_small_mod};
use vstd::prelude::*;

verus! {

/// A commitment to units is a unit in `[0, n)`.
pub proof fn lemma_commit_unit(g: int, h: int, a: int, b: int, n: int)
    requires
        n > 1,
        invertible(g, n),
        invertible(h, n),
    ensures
        0 <= commit_int(g, h, a, b, n) < n,
        invertible(commit_int(g, h, a, b, n), n),
{
    lemma_pow_mod_unit(g, a, n);
    lemma_pow_mod_unit(h, b, n);
    lemma_mul_mod_unit(spec_pow_mod(g, a, n), spec_pow_mod(h, b, n), n);
}

/// Commitments multiply componentwise: `C(a1, b1) C(a2, b2) = C(a1 + a2, b1 + b2)`.
pub proof fn lemma_commit_mul(g: int, h: int, a1: int, b1: int, a2: int, b2: int, n: int)
    requires
        n > 1,
        invertible(g, n),
        invertible(h, n),
    ensures
        (commit_int(g, h, a1, b1, n) * commit_int(g, h, a2, b2, n)) % n == commit_int(g, h, a1 + a2, b1 + b2, n),
{
    let x1 = spec_pow_mod(g, a1, n);
    let y1 = spec_pow_mod(h, b1, n);
    let x2 = spec_pow_mod(g, a2, n);
    let y2 = spec_pow_mod(h, b2, n);
    lemma_mul_mod_noop(x1 * y1, x2 * y2, n);
    assert((x1 * y1) * (x2 * y2) == (x1 * x2) * (y1 * y2)) by (nonlinear_arith);
    lemma_mul_mod_noop(x1 * x2, y1 * y2, n);
    lemma_pow_mod_add(g, a1, a2, n);
    lemma_pow_mod_add(h, b1, b2, n);
}

/// Powers of a commitment: `C(a, b)^k = C(k a, k b)`.
pub proof fn lemma_commit_pow(g: int, h: int, a: int, b: int, k: int, n: int)
    requires
        n > 1,
        invertible(g, n),
        invertible(h, n),
    ensures
        spec_pow_mod(commit_int(g, h, a, b, n), k, n) == commit_int(g, h, k * a, k * b, n),
{
    lemma_pow_mod_unit(g, a, n);
    lemma_pow_mod_unit(h, b, n);
    lemma_pow_mod_mul_base(spec_pow_mod(g, a, n), spec_pow_mod(h, b, n), k, n);
    lemma_pow_mod_pow(g, a, k, n);
    lemma_pow_mod_pow(h, b, k, n);
}

/// `g^a = C(a, 0)`.
pub proof fn lemma_commit_g(g: int, h: int, a: int, n: int)
    requires
        n > 1,
    ensures
        spec_pow_mod(g, a, n) == commit_int(g, h, a, 0, n),
{
    lemma_pow_mod_zero(h, n);
    lemma_pow_mod_range(g, a, n);
    lemma_small_mod(spec_pow_mod(g, a, n) as nat, n as nat);
    assert(spec_pow_mod(g, a, n) * 1 == spec_pow_mod(g, a, n));
}

/// `h^b = C(0, b)`.
pub proof fn lemma_commit_h(g: int, h: int, b: int, n: int)
    requires
        n > 1,
    ensures
        spec_pow_mod(h, b, n) == commit_int(g, h, 0, b, n),
{
    lemma_pow_mod_zero(g, n);
    lemma_pow_mod_range(h, b, n);
    lemma_small_mod(spec_pow_mod(h, b, n) as nat, n as nat);
    assert(1 * spec_pow_mod(h, b, n) == spec_pow_mod(h, b, n));
}

/// Dividing commitments: `C(a1, b1) / C(a2, b2) = C(a1 - a2, b1 - b2)`.
pub proof fn lemma_commit_div(g: int, h: int, a1: int, b1: int, a2: int, b2: int, n: int)
    requires
        n > 1,
        invertible(g, n),
        invertible(h, n),
    ensures
        (commit_int(g, h, a1, b1, n) * mod_inverse(commit_int(g, h, a2, b2, n), n)) % n == commit_int(
            g,
            h,
            a1 - a2,
            b1 - b2,
            n,
        ),
{
    lemma_commit_mul(g, h, a2, b2, -a2, -b2, n);
    lemma_pow_mod_zero(g, n);
    lemma_pow_mod_zero(h, n);
    lemma_small_mod(1, n as nat);
    assert(commit_int(g, h, 0, 0, n) == 1);
    lemma_commit_unit(g, h, -a2, -b2, n);
    lemma_mod_inverse_unique(commit_int(g, h, a2, b2, n), n, commit_int(g, h, -a2, -b2, n));
    lemma_commit_mul(g, h, a1, b1, -a2, -b2, n);
}

/// `(C(a, b) * z) % n` with the commitment written out.
proof fn lemma_pow3_commit(g: int, a: int, h: int, b: int, z: int, n: int)
    requires
        n > 0,
    ensures
        (spec_pow_mod(g, a, n) * spec_pow_mod(h, b, n) * z) % n == (commit_int(g, h, a, b, n) * z) % n,
{
    lemma_mul3_mod(spec_pow_mod(g, a, n), spec_pow_mod(h, b, n), z, n);
}

/// Completeness of same-secret proofs: the proof for `x`, committed as
/// `C(x, r1)` under `g1, h1` and as `C(x, r2)` under `g2, h2`, is accepted.
pub proof fn lemma_same_secret_complete<H: HashAlgorithm>(
    p: ProofSs,
    x: int,
    r1: int,
    r2: int,
    g1: int,
    h1: int,
    g2: int,
    h2: int,
    n: int,
    rnd: SameSecretRandomness,
)
    requires
        n > 1,
        invertible(g1, n),
        invertible(h1, n),
        invertible(g2, n),
        invertible(h2, n),
        is_same_secret_proof::<H>(p, x, r1, r2, g1, h1, g2, h2, n, rnd),
    ensures
        same_secret_defined(commit_int(g1, h1, x, r1, n), commit_int(g2, h2, x, r2, n), g1, h1, g2, h2, n, p),
        same_secret_accepts::<H>(commit_int(g1, h1, x, r1, n), commit_int(g2, h2, x, r2, n), g1, h1, g2, h2, n, p),
{
    let c = p.challenge.value();
    let e = commit_int(g1, h1, x, r1, n);
    let f = commit_int(g2, h2, x, r2, n);
    lemma_commit_unit(g1, h1, x, r1, n);
    lemma_commit_unit(g2, h2, x, r2, n);
    assert((-c) * x == -(c * x) && (-c) * r1 == -(c * r1) && (-c) * r2 == -(c * r2)) by (nonlinear_arith);
    lemma_commit_pow(g1, h1, x, r1, -c, n);
    lemma_pow3_commit(g1, p.d.value(), h1, p.d_1.value(), spec_pow_mod(e, -c, n), n);
    lemma_commit_mul(g1, h1, p.d.value(), p.d_1.value(), (-c) * x, (-c) * r1, n);
    lemma_commit_pow(g2, h2, x, r2, -c, n);
    lemma_pow3_commit(g2, p.d.value(), h2, p.d_2.value(), spec_pow_mod(f, -c, n), n);
    lemma_commit_mul(g2, h2, p.d.value(), p.d_2.value(), (-c) * x, (-c) * r2, n);
}

/// Completeness of proofs of square: the proof for `x`, with `e = C(x^2, r1)`,
/// is accepted.
pub proof fn lemma_square_complete<H: HashAlgorithm>(
    p: ProofOfS,
    x: int,
    r1: int,
    g: int,
    h: int,
    n: int,
    rnd: SquareRandomness,
)
    requires
        n > 1,
        invertible(g, n),
        invertible(h, n),
        is_square_proof::<H>(p, x, r1, g, h, commit_int(g, h, x * x, r1, n), n, rnd),
    ensures
        square_defined(p, g, h, n),
        square_accepts::<H>(p, g, h, n),
{
    let r2 = rnd.r_2.value();
    let r3 = r1 - r2 * x;
    let f = commit_int(g, h, x, r2, n);
    lemma_commit_unit(g, h, x, r2, n);
    // e = f^x h^r3
    lemma_commit_pow(g, h, x, r2, x, n);
    lemma_commit_h(g, h, r3, n);
    lemma_commit_mul(g, h, x * x, x * r2, 0, r3, n);
    assert(x * r2 + r3 == r1) by (nonlinear_arith)
        requires
            r3 == r1 - r2 * x,
    ;
    assert(commit_int(f, h, x, r3, n) == commit_int(g, h, x * x, r1, n));
    lemma_same_secret_complete::<H>(p.proof_ss, x, r2, r3, g, h, f, h, n, rnd.same_secret);
}

/// The verifier's bound on `D_1` of a large-interval proof:
/// `D_1 <= 2^T (2^(t + l) b - 1)`, below the prover's `2^T 2^(t + l) b - 1`.
pub open spec fn within_verifier_bound(p: ProofLi, t: nat, l: nat, b: nat, tt: nat) -> bool {
    p.d_1.value() <= p2(tt) * (p2(t + l) * b - 1)
}

/// Completeness of large-interval proofs: an accepted attempt for `x`, with
/// `e = C(x, r)`, passes the verifier when its `D_1` is within the
/// verifier's bound.
pub proof fn lemma_interval_complete<H: HashAlgorithm>(
    p: ProofLi,
    x: int,
    r: int,
    g: int,
    h: int,
    n: int,
    t: nat,
    l: nat,
    b: nat,
    s: nat,
    tt: nat,
)
    requires
        n > 1,
        invertible(g, n),
        invertible(h, n),
        is_interval_proof_for::<H>(p, x, r, g, h, n, t, l, b, s, tt),
        within_verifier_bound(p, t, l, b, tt),
    ensures
        interval_defined(p, commit_int(g, h, x, r, n), g, h, n, t),
        interval_accepts::<H>(p, commit_int(g, h, x, r, n), g, h, n, t, l, b, tt),
{
    let rnd = choose|rnd: IntervalRandomness|
        crate::signatures::range_proof::interval_within(rnd, t, l, b, s, n, tt) && #[trigger] is_interval_proof::<H>(
            p,
            x,
            r,
            g,
            h,
            n,
            t,
            rnd,
        );
    let e = commit_int(g, h, x, r, n);
    let c = p.c.value() % p2(t);
    assert(p.c.value() >= 0);
    lemma_commit_unit(g, h, x, r, n);
    assert((-c) * x == -(c * x) && (-c) * r == -(c * r)) by (nonlinear_arith);
    assert(c * x == x * c && c * r == r * c) by (nonlinear_arith);
    lemma_commit_pow(g, h, x, r, -c, n);
    lemma_pow3_commit(g, p.d_1.value(), h, p.d_2.value(), spec_pow_mod(e, -c, n), n);
    lemma_commit_mul(g, h, p.d_1.value(), p.d_2.value(), (-c) * x, (-c) * r, n);
}

/// Completeness of one side of a proof with tolerance: its commitments
/// split `C(d, r_1 + r_2)`, its proof of square and its large-interval proof
/// are accepted.
proof fn lemma_side_complete<H: HashAlgorithm>(
    e_1: int,
    e_2: int,
    sq: ProofOfS,
    li: ProofLi,
    d: int,
    r_1: int,
    r_2: int,
    g: int,
    h: int,
    n: int,
    t: nat,
    l: nat,
    b: nat,
    s: nat,
    s1: nat,
    s2: nat,
    tt: nat,
)
    requires
        n > 1,
        invertible(g, n),
        invertible(h, n),
        is_side_proof::<H>(e_1, e_2, sq, li, d, r_1, r_2, g, h, n, t, l, b, s, s1, s2, tt),
        within_verifier_bound(li, t, l, b, tt),
    ensures
        invertible(e_1, n),
        (commit_int(g, h, d, r_1 + r_2, n) * mod_inverse(e_1, n)) % n == e_2,
        square_defined(sq, g, h, n),
        square_accepts::<H>(sq, g, h, n),
        interval_defined(li, e_2, g, h, n, t),
        interval_accepts::<H>(li, e_2, g, h, n, t, l, b, tt),
{
    let x_1 = isqrt(d);
    let x_2 = d - x_1 * x_1;
    let rnd = choose|rnd: SquareRandomness|
        square_within(rnd, l, t, b, s, s1, s2, n) && #[trigger] is_square_proof::<H>(sq, x_1, r_1, g, h, e_1, n, rnd);
    lemma_commit_unit(g, h, x_1 * x_1, r_1, n);
    lemma_commit_div(g, h, d, r_1 + r_2, x_1 * x_1, r_1, n);
    lemma_square_complete::<H>(sq, x_1, r_1, g, h, n, rnd);
    lemma_interval_complete::<H>(li, x_2, r_2, g, h, n, t, l, b, s, tt);
}

/// Completeness of proofs with tolerance: the proof for `x`, with
/// `e = C(x, r)`, passes the verifier when the `D_1` of both large-interval
/// proofs are within the verifier's bound.
pub proof fn lemma_tolerance_complete<H: HashAlgorithm>(
    p: ProofWt,
    x: int,
    r: int,
    g: int,
    h: int,
    n: int,
    a: nat,
    b: nat,
    t: nat,
    l: nat,
    s: nat,
    s1: nat,
    s2: nat,
    tt: nat,
)
    requires
        n > 1,
        invertible(g, n),
        invertible(h, n),
        is_tolerance_proof_for::<H>(p, x, r, g, h, n, a, b, t, l, s, s1, s2, tt),
        within_verifier_bound(p.proof_large_i_a, t, l, b, tt),
        within_verifier_bound(p.proof_large_i_b, t, l, b, tt),
    ensures
        tolerance_defined::<H>(p, g, h, commit_int(g, h, x, r, n), n, a, b, t, l, tt),
        tolerance_accepts::<H>(p, g, h, commit_int(g, h, x, r, n), n, a, b, t, l, tt),
{
    let rnd = choose|rnd: ToleranceRandomness|
        tolerance_within(rnd, r, s, n, tt) && #[trigger] is_tolerance_proof::<H>(
            p,
            x,
            r,
            g,
            h,
            n,
            a,
            b,
            t,
            l,
            s,
            s1,
            s2,
            tt,
            rnd,
        );
    let lo = tolerance_lo(a, b, t, l, tt);
    let hi = tolerance_hi(a, b, t, l, tt);
    let e = commit_int(g, h, x, r, n);
    let r_a_1 = rnd.r_a_1.value();
    let r_b_1 = rnd.r_b_1.value();
    lemma_commit_unit(g, h, x, r, n);
    lemma_pow_mod_unit(g, lo, n);
    // E_a = e / g^lo = C(x - lo, r)
    lemma_commit_g(g, h, lo, n);
    lemma_commit_div(g, h, x, r, lo, 0, n);
    lemma_side_complete::<H>(
        p.e_a_1.value(),
        p.e_a_2.value(),
        p.proof_of_square_a,
        p.proof_large_i_a,
        x - lo,
        r_a_1,
        r - r_a_1,
        g,
        h,
        n,
        t,
        l,
        b,
        s,
        s1,
        s2,
        tt,
    );
    assert(r_a_1 + (r - r_a_1) == r);
    // E_b = g^hi / e = C(hi - x, -r)
    lemma_commit_g(g, h, hi, n);
    lemma_commit_div(g, h, hi, 0, x, r, n);
    lemma_side_complete::<H>(
        p.e_b_1.value(),
        p.e_b_2.value(),
        p.proof_of_square_b,
        p.proof_large_i_b,
        hi - x,
        r_b_1,
        -r - r_b_1,
        g,
        h,
        n,
        t,
        l,
        b,
        s,
        s1,
        s2,
        tt,
    );
    assert(r_b_1 + (-r - r_b_1) == 0 - r);
}

/// Completeness of range proofs: a proof that `prove` makes for a value `x`
/// committed as `e = g^x h^r mod n`, with invertible bases, is accepted by
/// `verify` for the same range, unless the `D_1` of one of its
/// large-interval proofs lies above the verifier's bound (the prover keeps
/// `D_1 <= 2^T 2^(t+l) b - 1`, the verifier asks `D_1 <= 2^T (2^(t+l) b - 1)`).
pub proof fn lemma_range_proof_complete<H: HashAlgorithm>(
    p: Boudot2000RangeProof,
    x: int,
    r: int,
    g: int,
    h: int,
    n: int,
    rmin: u32,
    rmax: u32,
)
    requires
        n > 1,
        invertible(g, n),
        invertible(h, n),
        is_range_proof_for::<H>(
            p,
            x,
            r,
            g,
            h,
            commit_int(g, h, x, r, n),
            n,
            rmin as nat,
            rmax as nat,
            SECURITY_T as nat,
            SECURITY_L as nat,
            SECURITY_S as nat,
            SECURITY_S1 as nat,
            SECURITY_S2 as nat,
            range_exponent(rmin, rmax),
        ),
        within_verifier_bound(
            p.proof_of_tolerance.proof_large_i_a,
            SECURITY_T as nat,
            SECURITY_L as nat,
            rmax as nat,
            range_exponent(rmin, rmax),
        ),
        within_verifier_bound(
            p.proof_of_tolerance.proof_large_i_b,
            SECURITY_T as nat,
            SECURITY_L as nat,
            rmax as nat,
            range_exponent(rmin, rmax),
        ),
    ensures
        range_defined::<H>(
            p,
            g,
            h,
            n,
            rmin as nat,
            rmax as nat,
            SECURITY_T as nat,
            SECURITY_L as nat,
            range_exponent(rmin, rmax),
        ),
        range_accepts::<H>(
            p,
            g,
            h,
            n,
            rmin as nat,
            rmax as nat,
            SECURITY_T as nat,
            SECURITY_L as nat,
            range_exponent(rmin, rmax),
        ),
{
    let tt = range_exponent(rmin, rmax);
    let k = p2(tt);
    lemma_commit_pow(g, h, x, r, k, n);
    lemma_tolerance_complete::<H>(
        p.proof_of_tolerance,
        k * x,
        k * r,
        g,
        h,
        n,
        rmin as nat,
        rmax as nat,
        SECURITY_T as nat,
        SECURITY_L as nat,
        SECURITY_S as nat,
        SECURITY_S1 as nat,
        SECURITY_S2 as nat,
        tt,
    );
}

} // verus!
