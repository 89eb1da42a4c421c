//! Completeness of the CL03 proofs of knowledge: a proof made from a valid
//! signature, hiding every message in order, is accepted.
use crate::cl03::ciphersuites::CLCiphersuite;
use crate::cl03::commitment::{prod_pow_mod, values};
use crate::cl03::keys::{CL03CommitmentPublicKey, CL03PublicKey};
use crate::cl03::message::{cl03_message_values, CL03Message};
use crate::integer::{invertible, lemma_invertible_mod, lemma_invertible_mul, lemma_mod_inverse, mod_inverse, spec_pow_mod};
use crate::modular::{
    lemma_mod_idem, lemma_mul_congr, lemma_mul_mod_unit, lemma_mul_unit_mod, lemma_pow_cancel, lemma_pow_mod_add,
    lemma_pow_mod_mul_base, lemma_pow_mod_pow, lemma_pow_mod_unit, lemma_unit_one,
};
use crate::signatures::cl03_proof::{
    blinding, is_nisp5_proof, nisp5_challenge, nisp5_exponents, nisp5_generate_requires, nisp5_t_values,
    nisp5_verify_requires, nisp5_verify_values, prod_undisclosed, rank, spec_divm, verify_exponents,
    CL03PoKSignature, Nisp5Randomness,
};
use crate::signatures::signature::CL03Signature;
use crate::signatures::range_laws::{lemma_commit_g, lemma_commit_h, lemma_commit_mul, lemma_commit_pow, lemma_commit_unit};
use crate::signatures::range_proof::commit_int;
use vstd::arithmetic::div_mod::{lemma_mod_bound, lemma_mul_mod_noop, lemma_mul_mod_noop_left, lemma_small_mod};
use vstd::arithmetic::power::lemma_pow1;
use vstd::prelude::*;

verus! {

/// Pointwise sum of two exponent lists.
pub open spec fn seq_add(x: Seq<int>, y: Seq<int>) -> Seq<int> {
    Seq::new(x.len(), |i: int| x[i] + y[i])
}

/// Every exponent multiplied by `c`.
pub open spec fn seq_scale(c: int, x: Seq<int>) -> Seq<int> {
    Seq::new(x.len(), |i: int| c * x[i])
}

/// The first `k` bases are units modulo `n`.
pub open spec fn units(b: Seq<int>, n: int, k: nat) -> bool {
    forall|i: int| 0 <= i < k ==> invertible(#[trigger] b[i], n)
}

/// A product of powers of units is a unit.
pub proof fn lemma_prod_unit(b: Seq<int>, x: Seq<int>, n: int, k: nat)
    requires
        n > 1,
        units(b, n, k),
    ensures
        invertible(prod_pow_mod(b, x, n, k), n),
        invertible(prod_pow_mod(b, x, n, k) % n, n),
        0 <= prod_pow_mod(b, x, n, k) % n < n,
    decreases k,
{
    if k == 0 {
        lemma_small_mod(1, n as nat);
        assert((1int * 1int) % n == 1);
    } else {
        lemma_prod_unit(b, x, n, (k - 1) as nat);
        assert(invertible(b[k - 1], n));
        lemma_pow_mod_unit(b[k - 1], x[k - 1], n);
        lemma_invertible_mul(prod_pow_mod(b, x, n, (k - 1) as nat), spec_pow_mod(b[k - 1], x[k - 1], n), n);
    }
    lemma_invertible_mod(prod_pow_mod(b, x, n, k), n);
    lemma_mod_bound(prod_pow_mod(b, x, n, k), n);
}

/// `prod b^(x + y) = prod b^x * prod b^y` modulo `n`.
pub proof fn lemma_prod_add(b: Seq<int>, x: Seq<int>, y: Seq<int>, n: int, k: nat)
    requires
        n > 1,
        units(b, n, k),
        k <= x.len(),
    ensures
        prod_pow_mod(b, seq_add(x, y), n, k) % n == (prod_pow_mod(b, x, n, k) * prod_pow_mod(b, y, n, k)) % n,
    decreases k,
{
    if k == 0 {
        assert(1int * 1int == 1);
    } else {
        let j = (k - 1) as nat;
        lemma_prod_add(b, x, y, n, j);
        let z = seq_add(x, y);
        let pz = prod_pow_mod(b, z, n, j);
        let px = prod_pow_mod(b, x, n, j);
        let py = prod_pow_mod(b, y, n, j);
        let sx = spec_pow_mod(b[k - 1], x[k - 1], n);
        let sy = spec_pow_mod(b[k - 1], y[k - 1], n);
        assert(invertible(b[k - 1], n));
        lemma_pow_mod_add(b[k - 1], x[k - 1], y[k - 1], n);
        assert(z[k - 1] == x[k - 1] + y[k - 1]);
        // pz * s(x+y) = (px py) (sx sy) = (px sx) (py sy) modulo n
        let sz = spec_pow_mod(b[k - 1], z[k - 1], n);
        lemma_pow_mod_unit(b[k - 1], z[k - 1], n);
        lemma_small_mod(sz as nat, n as nat);
        lemma_mul_mod_noop(pz, sz, n);
        lemma_mul_mod_noop(px * py, sx * sy, n);
        assert((px * py) * (sx * sy) == (px * sx) * (py * sy)) by (nonlinear_arith);
    }
}

/// `(prod b^x)^c = prod b^(c x)` modulo `n`.
pub proof fn lemma_prod_scale(b: Seq<int>, x: Seq<int>, c: int, n: int, k: nat)
    requires
        n > 1,
        units(b, n, k),
        k <= x.len(),
    ensures
        spec_pow_mod(prod_pow_mod(b, x, n, k) % n, c, n) == prod_pow_mod(b, seq_scale(c, x), n, k) % n,
    decreases k,
{
    if k == 0 {
        lemma_small_mod(1, n as nat);
        lemma_unit_one(c, n);
    } else {
        let j = (k - 1) as nat;
        lemma_prod_scale(b, x, c, n, j);
        lemma_prod_unit(b, x, n, j);
        let p = prod_pow_mod(b, x, n, j);
        let s = spec_pow_mod(b[k - 1], x[k - 1], n);
        assert(invertible(b[k - 1], n));
        lemma_pow_mod_unit(b[k - 1], x[k - 1], n);
        lemma_mul_mod_noop_left(p, s, n);
        lemma_pow_mod_mul_base(p % n, s, c, n);
        lemma_pow_mod_pow(b[k - 1], x[k - 1], c, n);
        assert(seq_scale(c, x)[k - 1] == c * x[k - 1]);
        lemma_mul_mod_noop_left(prod_pow_mod(b, seq_scale(c, x), n, j), spec_pow_mod(b[k - 1], c * x[k - 1], n), n);
        lemma_mul_mod_noop(prod_pow_mod(b, seq_scale(c, x), n, j), spec_pow_mod(b[k - 1], c * x[k - 1], n), n);
        lemma_pow_mod_unit(b[k - 1], c * x[k - 1], n);
        lemma_small_mod(spec_pow_mod(b[k - 1], c * x[k - 1], n) as nat, n as nat);
    }
}

/// The inverse of a unit in `[0, n)` is its power -1, and `divm(1, u)` is
/// that inverse.
pub proof fn lemma_inverse_is_pow(u: int, n: int)
    requires
        n > 1,
        invertible(u, n),
    ensures
        spec_pow_mod(u, -1, n) == mod_inverse(u, n),
        spec_divm(1, u, n) == mod_inverse(u, n),
        invertible(mod_inverse(u, n), n),
{
    lemma_mod_inverse(u, n);
    lemma_pow1(mod_inverse(u, n));
    lemma_small_mod(mod_inverse(u, n) as nat, n as nat);
    assert(1 * mod_inverse(u, n) == mod_inverse(u, n));
}

/// A power of `divm(1, u)` is a negative power of `u`.
pub proof fn lemma_pow_of_inverse(u: int, k: int, n: int)
    requires
        n > 1,
        invertible(u, n),
    ensures
        spec_pow_mod(spec_divm(1, u, n), k, n) == spec_pow_mod(u, -k, n),
{
    lemma_inverse_is_pow(u, n);
    lemma_pow_mod_pow(u, -1, k, n);
    assert(k * -1 == -k);
}

/// A commitment whose challenge part cancels: `C(a, b)` times
/// `C(x, y)^-c` is `C(a - c x, b - c y)`.
pub proof fn lemma_commit_response(g: int, h: int, a: int, b: int, x: int, y: int, c: int, n: int)
    requires
        n > 1,
        invertible(g, n),
        invertible(h, n),
    ensures
        (spec_pow_mod(g, a, n) * spec_pow_mod(h, b, n) * spec_pow_mod(commit_int(g, h, x, y, n), -1 * c, n)) % n
            == commit_int(g, h, a - c * x, b - c * y, n),
{
    lemma_commit_pow(g, h, x, y, -1 * c, n);
    crate::modular::lemma_mul3_mod(
        spec_pow_mod(g, a, n),
        spec_pow_mod(h, b, n),
        spec_pow_mod(commit_int(g, h, x, y, n), -1 * c, n),
        n,
    );
    lemma_commit_mul(g, h, a, b, (-1 * c) * x, (-1 * c) * y, n);
    assert((-1 * c) * x == -(c * x) && (-1 * c) * y == -(c * y)) by (nonlinear_arith);
}

/// The second and fifth values: `g0^(r + x c) h^(q + y c) C(x, y)^-c = C(r, q)`.
pub proof fn lemma_commit_response_cancels(g: int, h: int, r: int, q: int, x: int, y: int, c: int, n: int)
    requires
        n > 1,
        invertible(g, n),
        invertible(h, n),
    ensures
        (spec_pow_mod(g, r + x * c, n) * spec_pow_mod(h, q + y * c, n) * spec_pow_mod(
            commit_int(g, h, x, y, n),
            -1 * c,
            n,
        )) % n == commit_int(g, h, r, q, n),
{
    lemma_commit_response(g, h, r + x * c, q + y * c, x, y, c, n);
    assert(r + x * c - c * x == r && q + y * c - c * y == q) by (nonlinear_arith);
}

/// The third value: `cw^s4 (1/g0)^s8 (1/h)^s2` with `s4 = r4 + e c`,
/// `s8 = r8 + w e c`, `s2 = r2 + y e c` and `cw = C(w, y)` equals the same
/// with `r4, r8, r2`.
pub proof fn lemma_third_value(g: int, h: int, w: int, y: int, e: int, c: int, r4: int, r8: int, r2: int, n: int)
    requires
        n > 1,
        invertible(g, n),
        invertible(h, n),
    ensures
        ({
            let cw = commit_int(g, h, w, y, n);
            (spec_pow_mod(cw, r4 + e * c, n) * spec_pow_mod(spec_divm(1, g, n), r8 + w * e * c, n) * spec_pow_mod(
                spec_divm(1, h, n),
                r2 + y * e * c,
                n,
            )) % n == (spec_pow_mod(cw, r4, n) * spec_pow_mod(spec_divm(1, g, n), r8, n) * spec_pow_mod(
                spec_divm(1, h, n),
                r2,
                n,
            )) % n
        }),
{
    let cw = commit_int(g, h, w, y, n);
    let s4 = r4 + e * c;
    let s8 = r8 + w * e * c;
    let s2 = r2 + y * e * c;
    // each side is C((power of cw) w - (power of 1/g), (power of cw) y - (power of 1/h))
    assert forall|p4: int, p8: int, p2: int|
        #![trigger spec_pow_mod(cw, p4, n), spec_pow_mod(spec_divm(1, g, n), p8, n), spec_pow_mod(spec_divm(1, h, n), p2, n)]
        true implies (spec_pow_mod(cw, p4, n) * spec_pow_mod(spec_divm(1, g, n), p8, n) * spec_pow_mod(
        spec_divm(1, h, n),
        p2,
        n,
    )) % n == commit_int(g, h, p4 * w - p8, p4 * y - p2, n) by {
        lemma_commit_pow(g, h, w, y, p4, n);
        lemma_pow_of_inverse(g, p8, n);
        lemma_pow_of_inverse(h, p2, n);
        lemma_commit_g(g, h, -p8, n);
        lemma_commit_h(g, h, -p2, n);
        crate::modular::lemma_mul3_mod(
            commit_int(g, h, p4 * w, p4 * y, n),
            commit_int(g, h, -p8, 0, n),
            commit_int(g, h, 0, -p2, n),
            n,
        );
        lemma_commit_mul(g, h, p4 * w, p4 * y, -p8, 0, n);
        lemma_commit_mul(g, h, p4 * w + -p8, p4 * y + 0, 0, -p2, n);
        assert(w * p4 == p4 * w && y * p4 == p4 * y) by (nonlinear_arith);
    }
    assert(s4 * w - s8 == r4 * w - r8 && s4 * y - s2 == r4 * y - r2) by (nonlinear_arith)
        requires
            s4 == r4 + e * c,
            s8 == r8 + w * e * c,
            s2 == r2 + y * e * c,
    ;
}

/// The fourth value: `prod g^(x + c m) h^(r3 + rx c) cx^-c` with
/// `cx = prod g^m h^rx` equals `prod g^x h^r3`.
pub proof fn lemma_fourth_value(g: Seq<int>, x: Seq<int>, m: Seq<int>, h: int, rx: int, r3: int, c: int, n: int, k: nat)
    requires
        n > 1,
        units(g, n, k),
        invertible(h, n),
        k == x.len(),
        k == m.len(),
    ensures
        (prod_pow_mod(g, seq_add(x, seq_scale(c, m)), n, k) * spec_pow_mod(h, r3 + rx * c, n) * spec_pow_mod(
            (prod_pow_mod(g, m, n, k) * spec_pow_mod(h, rx, n)) % n,
            -1 * c,
            n,
        )) % n == (prod_pow_mod(g, x, n, k) * spec_pow_mod(h, r3, n)) % n,
{
    let p5 = prod_pow_mod(g, seq_add(x, seq_scale(c, m)), n, k);
    let pe = prod_pow_mod(g, x, n, k);
    let pc = prod_pow_mod(g, seq_scale(c, m), n, k);
    let pm = prod_pow_mod(g, m, n, k) % n;
    let hr3 = spec_pow_mod(h, r3, n);
    let hrxc = spec_pow_mod(h, rx * c, n);
    let hrx = spec_pow_mod(h, rx, n);
    let s3 = spec_pow_mod(h, r3 + rx * c, n);
    let y3 = spec_pow_mod((prod_pow_mod(g, m, n, k) * hrx) % n, -1 * c, n);
    let ypm = spec_pow_mod(pm, -1 * c, n);
    let yh = spec_pow_mod(h, (-1 * c) * rx, n);
    // p5 = pe pc, pc = pm^c
    lemma_prod_add(g, x, seq_scale(c, m), n, k);
    lemma_prod_scale(g, m, c, n, k);
    lemma_prod_unit(g, m, n, k);
    // s3 = h^r3 h^(rx c)
    lemma_pow_mod_add(h, r3, rx * c, n);
    lemma_mod_idem(hr3 * hrxc, n);
    // y3 = pm^-c h^(-c rx)
    lemma_mul_mod_noop_left(prod_pow_mod(g, m, n, k), hrx, n);
    lemma_pow_mod_unit(h, rx, n);
    lemma_pow_mod_mul_base(pm, hrx, -1 * c, n);
    lemma_pow_mod_pow(h, rx, -1 * c, n);
    lemma_mod_idem(ypm * yh, n);
    // (p5 s3 y3) = (pe hr3) (pc ypm) (hrxc yh) modulo n
    lemma_mul_congr(p5, pe * pc, s3, hr3 * hrxc, n);
    lemma_mul_congr(p5 * s3, (pe * pc) * (hr3 * hrxc), y3, ypm * yh, n);
    lemma_regroup6(pe, pc, hr3, hrxc, ypm, yh);
    // pc ypm = 1 and hrxc yh = 1 modulo n
    lemma_mod_idem(ypm, n);
    lemma_mod_idem(pc, n);
    lemma_mul_congr(pc, spec_pow_mod(pm, c, n), ypm, ypm, n);
    assert(-1 * c == -c);
    lemma_pow_cancel(pm, c, n);
    assert((-1 * c) * rx == -(rx * c)) by (nonlinear_arith);
    lemma_pow_cancel(h, rx * c, n);
    lemma_mul_unit_mod(pc * ypm, hrxc * yh, n);
    lemma_mul_unit_mod(pe * hr3, (pc * ypm) * (hrxc * yh), n);
}

/// `((x y) % n * z * u) % n = (x y z u) % n`.
proof fn lemma_mul4_mod(x: int, y: int, z: int, u: int, n: int)
    requires
        n > 0,
    ensures
        ((((x * y) % n) * z) % n * u) % n == (x * y * z * u) % n,
{
    lemma_mul_mod_noop_left(x * y, z, n);
    lemma_mul_mod_noop_left(x * y * z, u, n);
    lemma_mul_mod_noop_left(((x * y) % n) * z, u, n);
}

/// The part of the first value that the challenge brings cancels: with
/// `v^e = prod a^m b^s C`, `cv = v g0^w`,
/// `cv^(e c) (prod a^m)^-c b^-(s c) g0^-(w e c) C^-c = 1` modulo `n`.
pub proof fn lemma_first_residual(
    a: Seq<int>,
    m: Seq<int>,
    b: int,
    g0: int,
    cpk: int,
    v: int,
    e: int,
    s: int,
    w: int,
    c: int,
    n: int,
    k: nat,
)
    requires
        n > 1,
        units(a, n, k),
        invertible(b, n),
        invertible(g0, n),
        invertible(cpk, n),
        invertible(v, n),
        spec_pow_mod(v, e, n) == (prod_pow_mod(a, m, n, k) * spec_pow_mod(b, s, n) * cpk) % n,
    ensures
        ({
            let cv = (v * spec_pow_mod(g0, w, n)) % n;
            let am = prod_pow_mod(a, m, n, k) % n;
            (spec_pow_mod(cv, e * c, n) * spec_pow_mod(am, -1 * c, n) * spec_pow_mod(b, -(s * c), n) * spec_pow_mod(
                g0,
                -(w * e * c),
                n,
            ) * spec_pow_mod(cpk, -1 * c, n)) % n == 1
        }),
{
    let gw = spec_pow_mod(g0, w, n);
    let cv = (v * gw) % n;
    let am = prod_pow_mod(a, m, n, k) % n;
    let sb = spec_pow_mod(b, s, n);
    let gew = spec_pow_mod(g0, e * w, n);
    lemma_prod_unit(a, m, n, k);
    lemma_pow_mod_unit(g0, w, n);
    lemma_pow_mod_unit(b, s, n);
    lemma_pow_mod_unit(g0, e * w, n);
    // v^e = (am sb) cpk
    let x1 = (am * sb) % n;
    let x2 = (x1 * cpk) % n;
    lemma_mul_mod_unit(am, sb, n);
    lemma_mul_mod_unit(x1, cpk, n);
    lemma_mul_mod_noop_left(prod_pow_mod(a, m, n, k), sb, n);
    lemma_mul_mod_noop_left(prod_pow_mod(a, m, n, k) * sb, cpk, n);
    lemma_mul_mod_noop_left(am * sb, cpk, n);
    assert(spec_pow_mod(v, e, n) == x2);
    // cv^e = x2 g0^(e w)
    lemma_pow_mod_mul_base(v, gw, e, n);
    lemma_pow_mod_pow(g0, w, e, n);
    lemma_mul_mod_unit(x2, gew, n);
    // cv^(e c) = (cv^e)^c = am^c b^(c s) cpk^c g0^(c e w)
    lemma_mul_mod_unit(v, gw, n);
    lemma_pow_mod_pow(cv, e, c, n);
    assert(c * e == e * c) by (nonlinear_arith);
    lemma_pow_mod_mul_base(x2, gew, c, n);
    lemma_pow_mod_mul_base(x1, cpk, c, n);
    lemma_pow_mod_mul_base(am, sb, c, n);
    lemma_pow_mod_pow(b, s, c, n);
    lemma_pow_mod_pow(g0, e * w, c, n);
    let ya = spec_pow_mod(am, c, n);
    let yb = spec_pow_mod(b, c * s, n);
    let yc = spec_pow_mod(cpk, c, n);
    let yg = spec_pow_mod(g0, c * (e * w), n);
    let ay = spec_pow_mod(cv, e * c, n);
    assert(ay == ((((ya * yb) % n) * yc) % n * yg) % n);
    lemma_mul4_mod(ya, yb, yc, yg, n);
    // the factors cancel in pairs
    let za = spec_pow_mod(am, -1 * c, n);
    let zb = spec_pow_mod(b, -(s * c), n);
    let zg = spec_pow_mod(g0, -(w * e * c), n);
    let zc = spec_pow_mod(cpk, -1 * c, n);
    assert(-1 * c == -c);
    assert(-(s * c) == -(c * s) && -(w * e * c) == -(c * (e * w))) by (nonlinear_arith);
    lemma_pow_cancel(am, c, n);
    lemma_pow_cancel(b, c * s, n);
    lemma_pow_cancel(cpk, c, n);
    lemma_pow_cancel(g0, c * (e * w), n);
    lemma_mod_idem(ya * yb * yc * yg, n);
    lemma_mul_congr(ay, ya * yb * yc * yg, za * zb * zg * zc, za * zb * zg * zc, n);
    lemma_regroup8(ya, yb, yc, yg, za, zb, zg, zc);
    lemma_mul_unit_mod(ya * za, yb * zb, n);
    lemma_mul_unit_mod(yc * zc, yg * zg, n);
    lemma_mul_unit_mod((ya * za) * (yb * zb), (yc * zc) * (yg * zg), n);
    lemma_small_mod(1, n as nat);
    vstd::arithmetic::mul::lemma_mul_is_associative(ay, za, zb);
    vstd::arithmetic::mul::lemma_mul_is_associative(ay * za * zb, zg, zc);
    assert(ay * za * zb * zg * zc == ay * (za * zb * zg * zc)) by {
        vstd::arithmetic::mul::lemma_mul_is_associative(ay, za * zb, zg);
        vstd::arithmetic::mul::lemma_mul_is_associative(ay, za * zb * zg, zc);
    }
}

/// `(a b)(c d) = (a c)(b d)`.
proof fn lemma_swap_middle(a: int, b: int, c: int, d: int)
    ensures
        (a * b) * (c * d) == (a * c) * (b * d),
{
    vstd::arithmetic::mul::lemma_mul_is_associative(a, b, c * d);
    vstd::arithmetic::mul::lemma_mul_is_associative(b, c, d);
    vstd::arithmetic::mul::lemma_mul_is_associative(c, b, d);
    vstd::arithmetic::mul::lemma_mul_is_associative(a, c, b * d);
    assert(b * c == c * b);
}

/// `(p q)(r s)(t u) = (p r)((q t)(s u))`.
proof fn lemma_regroup6(p: int, q: int, r: int, s: int, t: int, u: int)
    ensures
        (p * q) * (r * s) * (t * u) == (p * r) * ((q * t) * (s * u)),
{
    lemma_swap_middle(p, q, r, s);
    vstd::arithmetic::mul::lemma_mul_is_associative(p * r, q * s, t * u);
    lemma_swap_middle(q, s, t, u);
}

/// `(a b c d)(e f g h) = ((a e)(b f))((c h)(d g))`.
proof fn lemma_regroup8(a: int, b: int, c: int, d: int, e: int, f: int, g: int, h: int)
    ensures
        (a * b * c * d) * (e * f * g * h) == ((a * e) * (b * f)) * ((c * h) * (d * g)),
{
    vstd::arithmetic::mul::lemma_mul_is_associative(a * b, c, d);
    vstd::arithmetic::mul::lemma_mul_is_associative(e * f, g, h);
    assert(g * h == h * g);
    lemma_swap_middle(a * b, c * d, e * f, h * g);
    lemma_swap_middle(a, b, e, f);
    lemma_swap_middle(c, d, h, g);
}

/// `(a0 ay)(b0 by)(c0 cy)(d0 dy) e = (a0 b0 c0 d0)(ay by cy dy e)`.
proof fn lemma_regroup9(a0: int, ay: int, b0: int, by: int, c0: int, cy: int, d0: int, dy: int, e: int)
    ensures
        (a0 * ay) * (b0 * by) * (c0 * cy) * (d0 * dy) * e == (a0 * b0 * c0 * d0) * (ay * by * cy * dy * e),
{
    let x = a0 * ay;
    let y = b0 * by;
    let z = c0 * cy;
    let w = d0 * dy;
    vstd::arithmetic::mul::lemma_mul_is_associative(x * y, z, w);
    lemma_swap_middle(a0, ay, b0, by);
    lemma_swap_middle(c0, cy, d0, dy);
    lemma_swap_middle(a0 * b0, ay * by, c0 * d0, cy * dy);
    vstd::arithmetic::mul::lemma_mul_is_associative(a0 * b0, c0, d0);
    vstd::arithmetic::mul::lemma_mul_is_associative(ay * by, cy, dy);
    vstd::arithmetic::mul::lemma_mul_is_associative((a0 * b0) * (c0 * d0), (ay * by) * (cy * dy), e);
}

/// The first value: with `s4 = r4 + e c`, `s6 = r6 + s c`, `s8 = r8 + w e c`
/// and responses `x + c m` for the messages,
/// `cv^s4 / prod a^(x + c m) (1/b)^s6 (1/g0)^s8 C^-c` equals
/// `cv^r4 / prod a^x (1/b)^r6 (1/g0)^r8` modulo `n`, for a valid signature.
pub proof fn lemma_first_value(
    a: Seq<int>,
    x: Seq<int>,
    m: Seq<int>,
    b: int,
    g0: int,
    cpk: int,
    v: int,
    e: int,
    s: int,
    w: int,
    c: int,
    r4: int,
    r6: int,
    r8: int,
    n: int,
    k: nat,
)
    requires
        n > 1,
        units(a, n, k),
        invertible(b, n),
        invertible(g0, n),
        invertible(cpk, n),
        invertible(v, n),
        k == x.len(),
        k == m.len(),
        spec_pow_mod(v, e, n) == (prod_pow_mod(a, m, n, k) * spec_pow_mod(b, s, n) * cpk) % n,
    ensures
        ({
            let cv = (v * spec_pow_mod(g0, w, n)) % n;
            (spec_pow_mod(cv, r4 + e * c, n) * spec_divm(1, prod_pow_mod(a, seq_add(x, seq_scale(c, m)), n, k) % n, n)
                * spec_pow_mod(spec_divm(1, b, n), r6 + s * c, n) * spec_pow_mod(spec_divm(1, g0, n), r8 + w * e * c, n)
                * spec_pow_mod(cpk, -1 * c, n)) % n == (spec_pow_mod(cv, r4, n) * spec_divm(1, prod_pow_mod(a, x, n, k) % n, n)
                * spec_pow_mod(spec_divm(1, b, n), r6, n) * spec_pow_mod(spec_divm(1, g0, n), r8, n)) % n
        }),
{
    let gw = spec_pow_mod(g0, w, n);
    let cv = (v * gw) % n;
    lemma_pow_mod_unit(g0, w, n);
    lemma_mul_mod_unit(v, gw, n);
    let sq = seq_add(x, seq_scale(c, m));
    let am = prod_pow_mod(a, m, n, k) % n;
    // A = A0 Ay
    let a_full = spec_pow_mod(cv, r4 + e * c, n);
    let a0 = spec_pow_mod(cv, r4, n);
    let ay = spec_pow_mod(cv, e * c, n);
    lemma_pow_mod_add(cv, r4, e * c, n);
    lemma_mod_idem(a0 * ay, n);
    // B = B0 By
    let t = prod_pow_mod(a, sq, n, k) % n;
    let te = prod_pow_mod(a, x, n, k) % n;
    let tc = prod_pow_mod(a, seq_scale(c, m), n, k) % n;
    lemma_prod_unit(a, sq, n, k);
    lemma_prod_unit(a, x, n, k);
    lemma_prod_unit(a, seq_scale(c, m), n, k);
    lemma_prod_unit(a, m, n, k);
    lemma_prod_add(a, x, seq_scale(c, m), n, k);
    lemma_mul_mod_noop(prod_pow_mod(a, x, n, k), prod_pow_mod(a, seq_scale(c, m), n, k), n);
    assert(t == (te * tc) % n);
    let b_full = spec_divm(1, t, n);
    let b0 = spec_divm(1, te, n);
    lemma_inverse_is_pow(t, n);
    lemma_inverse_is_pow(te, n);
    lemma_pow_mod_mul_base(te, tc, -1, n);
    lemma_prod_scale(a, m, c, n, k);
    lemma_pow_mod_pow(am, c, -1, n);
    let by = spec_pow_mod(am, -1 * c, n);
    assert(b_full == (b0 * by) % n);
    lemma_mod_idem(b0 * by, n);
    // C = C0 Cy
    let c_full = spec_pow_mod(spec_divm(1, b, n), r6 + s * c, n);
    let c0 = spec_pow_mod(spec_divm(1, b, n), r6, n);
    let cy = spec_pow_mod(b, -(s * c), n);
    lemma_pow_of_inverse(b, r6 + s * c, n);
    lemma_pow_of_inverse(b, r6, n);
    lemma_pow_mod_add(b, -r6, -(s * c), n);
    assert(-(r6 + s * c) == -r6 + -(s * c));
    lemma_mod_idem(c0 * cy, n);
    // D = D0 Dy
    let d_full = spec_pow_mod(spec_divm(1, g0, n), r8 + w * e * c, n);
    let d0 = spec_pow_mod(spec_divm(1, g0, n), r8, n);
    let dy = spec_pow_mod(g0, -(w * e * c), n);
    lemma_pow_of_inverse(g0, r8 + w * e * c, n);
    lemma_pow_of_inverse(g0, r8, n);
    lemma_pow_mod_add(g0, -r8, -(w * e * c), n);
    assert(-(r8 + w * e * c) == -r8 + -(w * e * c));
    lemma_mod_idem(d0 * dy, n);
    let ez = spec_pow_mod(cpk, -1 * c, n);
    // the product of the five is the product of the parts
    lemma_mul_congr(a_full, a0 * ay, b_full, b0 * by, n);
    lemma_mul_congr(a_full * b_full, (a0 * ay) * (b0 * by), c_full, c0 * cy, n);
    lemma_mul_congr(a_full * b_full * c_full, (a0 * ay) * (b0 * by) * (c0 * cy), d_full, d0 * dy, n);
    lemma_mul_congr(a_full * b_full * c_full * d_full, (a0 * ay) * (b0 * by) * (c0 * cy) * (d0 * dy), ez, ez, n);
    lemma_regroup9(a0, ay, b0, by, c0, cy, d0, dy, ez);
    lemma_first_residual(a, m, b, g0, cpk, v, e, s, w, c, n, k);
    lemma_mul_unit_mod(a0 * b0 * c0 * d0, ay * by * cy * dy * ez, n);
}

/// The undisclosed indexes are all indexes below `k`, in order.
pub open spec fn all_in_order(unrevealed: Seq<usize>, k: nat) -> bool {
    &&& unrevealed.len() == k
    &&& forall|i: int| 0 <= i < k ==> #[trigger] unrevealed[i] as int == i
}

/// The signature `(e, s, v)` is valid under `pk` for the messages:
/// `v^e = a_1^m_1 ... a_k^m_k b^s c` modulo `N`.
pub open spec fn cl03_signature_valid(sig: CL03Signature, pk: CL03PublicKey, messages: Seq<CL03Message>) -> bool {
    let n = pk.n.value();
    spec_pow_mod(sig.v.value(), sig.e.value(), n) == (prod_pow_mod(
        values(pk.a_bases@),
        cl03_message_values(messages),
        n,
        messages.len(),
    ) * spec_pow_mod(pk.b.value(), sig.s.value(), n) * pk.c.value()) % n
}

/// With every index undisclosed in order, index `i` comes `i`-th.
proof fn lemma_rank_in_order(unrevealed: Seq<usize>, k: nat, i: nat)
    requires
        all_in_order(unrevealed, k),
        i <= k,
    ensures
        rank(unrevealed, i) == i,
        i < k ==> unrevealed.contains(i as usize),
    decreases i,
{
    if i < k {
        assert(unrevealed[i as int] as int == i);
    }
    if i > 0 {
        lemma_rank_in_order(unrevealed, k, (i - 1) as nat);
        assert(unrevealed[i - 1] as int == i - 1);
    }
}

/// With every index undisclosed in order, the product over the undisclosed
/// indexes is the whole product.
proof fn lemma_undisclosed_in_order(g: Seq<int>, s5: Seq<int>, unrevealed: Seq<usize>, n: int, k: nat, j: nat)
    requires
        all_in_order(unrevealed, k),
        j <= k,
    ensures
        prod_undisclosed(g, s5, unrevealed, n, j) == prod_pow_mod(g, s5, n, j),
    decreases j,
{
    if j > 0 {
        lemma_undisclosed_in_order(g, s5, unrevealed, n, k, (j - 1) as nat);
        lemma_rank_in_order(unrevealed, k, (j - 1) as nat);
    }
}

/// With every index undisclosed in order, the responses for the messages
/// are `x + c m` in both readings of the verifier, and the product over the
/// undisclosed indexes is the whole product.
proof fn lemma_responses_in_order(
    s5: Seq<int>,
    x: Seq<int>,
    m: Seq<int>,
    c: int,
    unrevealed: Seq<usize>,
    g: Seq<int>,
    n: int,
    k: nat,
)
    requires
        all_in_order(unrevealed, k),
        s5.len() == k,
        x.len() == k,
        m.len() == k,
        forall|j: int| 0 <= j < unrevealed.len() ==> #[trigger] s5[j] == x[unrevealed[j] as int] + m[unrevealed[j] as int] * c,
    ensures
        s5 == seq_add(x, seq_scale(c, m)),
        verify_exponents(m, s5, unrevealed, c, k) == seq_add(x, seq_scale(c, m)),
        prod_undisclosed(g, s5, unrevealed, n, k) == prod_pow_mod(g, s5, n, k),
{
    let sq = seq_add(x, seq_scale(c, m));
    assert forall|i: int| 0 <= i < k implies #[trigger] s5[i] == sq[i] by {
        assert(unrevealed[i] as int == i);
        assert(m[i] * c == c * m[i]) by (nonlinear_arith);
    }
    assert(s5 =~= sq);
    assert forall|i: int| 0 <= i < k implies #[trigger] verify_exponents(m, s5, unrevealed, c, k)[i] == sq[i] by {
        lemma_rank_in_order(unrevealed, k, i as nat);
    }
    assert(verify_exponents(m, s5, unrevealed, c, k) =~= sq);
    lemma_undisclosed_in_order(g, s5, unrevealed, n, k, k);
}

/// Completeness of CL03 proofs of knowledge: a proof made from a valid
/// signature on the messages, under a signer's key and a commitment key with
/// the same modulus and unit bases, that hides every message (the
/// undisclosed indexes being `0, 1, ..., k - 1` in order), passes the
/// verifier: the values it recomputes hash to the proof's challenge.
#[verifier::rlimit(60)]
pub proof fn lemma_nisp5_complete<CS: CLCiphersuite>(
    p: CL03PoKSignature,
    signature: CL03Signature,
    commitment_pk: CL03CommitmentPublicKey,
    signer_pk: CL03PublicKey,
    messages: Seq<CL03Message>,
    unrevealed: Seq<usize>,
    rnd: Nisp5Randomness,
)
    requires
        nisp5_generate_requires(signature, commitment_pk, signer_pk, messages, unrevealed),
        is_nisp5_proof::<CS>(p, signature, commitment_pk, signer_pk, messages, unrevealed, rnd),
        commitment_pk.n.value() == signer_pk.n.value(),
        all_in_order(unrevealed, messages.len()),
        units(values(commitment_pk.g_bases@), signer_pk.n.value(), messages.len()),
        invertible(signature.v.value(), signer_pk.n.value()),
        invertible(signer_pk.c.value(), signer_pk.n.value()),
        cl03_signature_valid(signature, signer_pk, messages),
    ensures
        nisp5_verify_requires(p, commitment_pk, signer_pk, messages, unrevealed),
        nisp5_challenge::<CS>(nisp5_verify_values(p, commitment_pk, signer_pk, messages, unrevealed))
            == p.challenge.value(),
{
    let k = messages.len();
    let n = signer_pk.n.value();
    let a = values(signer_pk.a_bases@);
    let g = values(commitment_pk.g_bases@);
    let g0 = g[0];
    let h = commitment_pk.h.value();
    let m = cl03_message_values(messages);
    let e = signature.e.value();
    let w = rnd.w.value();
    let c = p.challenge.value();
    let exps = nisp5_exponents(m, values(rnd.r_5@), unrevealed, k);
    let r = blinding(rnd);
    let s5 = values(p.s_5@);
    let sq = seq_add(exps, seq_scale(c, m));
    assert forall|i: int| 0 <= i < k implies invertible(#[trigger] a[i], n) by {
        lemma_rank_in_order(unrevealed, k, i as nat);
    }
    assert(units(a, n, k));
    assert(forall|j: int| 0 <= j < unrevealed.len() ==> #[trigger] s5[j] == exps[unrevealed[j] as int] + m[unrevealed[j] as int] * c);
    lemma_responses_in_order(s5, exps, m, c, unrevealed, g, n, k);
    lemma_rank_in_order(unrevealed, k, k);
    // the commitments
    assert(seq![w][0] == w);
    assert(seq![e][0] == e);
    assert(prod_pow_mod(g, seq![w], n, 0) == 1);
    assert(prod_pow_mod(g, seq![e], n, 0) == 1);
    assert(prod_pow_mod(g, seq![w], n, 1) == spec_pow_mod(g0, w, n));
    assert(prod_pow_mod(g, seq![e], n, 1) == spec_pow_mod(g0, e, n));
    let cw = commit_int(g0, h, w, rnd.r_w.value(), n);
    let ce = commit_int(g0, h, e, rnd.r_e.value(), n);
    assert(p.cw.value.value() == cw);
    assert(p.ce.value.value() == ce);
    let cx = (prod_pow_mod(g, m, n, k) * spec_pow_mod(h, rnd.r_x.value(), n)) % n;
    assert(p.cx.value.value() == cx);
    let cv = (signature.v.value() * spec_pow_mod(g0, w, n)) % n;
    assert(p.cv.value.value() == cv);
    lemma_commit_unit(g0, h, w, rnd.r_w.value(), n);
    lemma_commit_unit(g0, h, e, rnd.r_e.value(), n);
    lemma_prod_unit(g, m, n, k);
    lemma_pow_mod_unit(h, rnd.r_x.value(), n);
    lemma_mul_mod_unit(prod_pow_mod(g, m, n, k), spec_pow_mod(h, rnd.r_x.value(), n), n);
    lemma_pow_mod_unit(g0, w, n);
    lemma_mul_mod_unit(signature.v.value(), spec_pow_mod(g0, w, n), n);
    // the five values
    let t = nisp5_t_values(a, signer_pk.b.value(), g, h, n, k, exps, cv, p.cw.value.value(), r);
    let vv = nisp5_verify_values(p, commitment_pk, signer_pk, messages, unrevealed);
    lemma_first_value(
        a,
        exps,
        m,
        signer_pk.b.value(),
        g0,
        signer_pk.c.value(),
        signature.v.value(),
        e,
        signature.s.value(),
        w,
        c,
        r[4],
        r[6],
        r[8],
        n,
        k,
    );
    assert(vv[0] == t[0]);
    lemma_commit_response_cancels(g0, h, r[7], r[1], w, rnd.r_w.value(), c, n);
    assert(vv[1] == t[1]);
    lemma_third_value(g0, h, w, rnd.r_w.value(), e, c, r[4], r[8], r[2], n);
    assert(vv[2] == t[2]);
    lemma_fourth_value(g, exps, m, h, rnd.r_x.value(), r[3], c, n, k);
    assert(vv[3] == t[3]);
    lemma_commit_response_cancels(g0, h, r[4], r[9], e, rnd.r_e.value(), c, n);
    assert(vv[4] == t[4]);
    assert(vv =~= t);
}

} // verus!
