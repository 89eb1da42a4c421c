//! Powers of units modulo `n`: `spec_pow_mod` of an invertible base is a
//! homomorphism from the integers into the units modulo `n`.
use crate::integer::{
    invertible, lemma_invertible_mod, lemma_invertible_mul, lemma_mod_inverse, lemma_mod_inverse_unique,
    lemma_pow_mod_invertible, lemma_pow_mod_range, mod_inverse, spec_pow_mod,
};
use vstd::arithmetic::div_mod::{lemma_mod_bound, lemma_mul_mod_noop, lemma_mul_mod_noop_left, lemma_mul_mod_noop_right, lemma_small_mod};
use vstd::arithmetic::power::{lemma1_pow, lemma_pow0, lemma_pow_adds, lemma_pow_distributes, lemma_pow_mod_noop, lemma_pow_multiplies, pow};
use vstd::prelude::*;

verus! {

/// A factor that is 1 modulo `n` drops out.
pub proof fn lemma_mul_unit_mod(x: int, y: int, n: int)
    requires
        n > 0,
        y % n == 1,
    ensures
        (x * y) % n == x % n,
{
    lemma_mul_mod_noop_right(x, y, n);
    assert(x * 1 == x);
}

/// `g^k * (g^-1)^k` is 1 modulo `n`.
pub proof fn lemma_pow_inverse_cancel(g: int, k: nat, n: int)
    requires
        n > 1,
        invertible(g, n),
    ensures
        (pow(g, k) * pow(mod_inverse(g, n), k)) % n == 1,
{
    let i = mod_inverse(g, n);
    lemma_mod_inverse(g, n);
    lemma_pow_distributes(g, i, k);
    lemma_pow_mod_noop(g * i, k, n);
    lemma1_pow(k);
    lemma_small_mod(1, n as nat);
}

/// The power 0 is 1.
pub proof fn lemma_pow_mod_zero(g: int, n: int)
    requires
        n > 1,
    ensures
        spec_pow_mod(g, 0, n) == 1,
{
    lemma_pow0(g);
    lemma_small_mod(1, n as nat);
}

/// `g^(a + b) = g^a g^b` for `a >= 0 > b`.
proof fn lemma_pow_mod_add_mixed(g: int, a: int, b: int, n: int)
    requires
        n > 1,
        invertible(g, n),
        a >= 0,
        b < 0,
    ensures
        spec_pow_mod(g, a + b, n) == (spec_pow_mod(g, a, n) * spec_pow_mod(g, b, n)) % n,
{
    let i = mod_inverse(g, n);
    let k = (-b) as nat;
    let pa = pow(g, a as nat);
    let qk = pow(i, k);
    lemma_mul_mod_noop(pa, qk, n);
    assert(spec_pow_mod(g, b, n) == qk % n);
    assert((spec_pow_mod(g, a, n) * spec_pow_mod(g, b, n)) % n == (pa * qk) % n);
    if a + b >= 0 {
        let m = (a + b) as nat;
        lemma_pow_adds(g, m, k);
        assert(pa == pow(g, m) * pow(g, k));
        lemma_pow_inverse_cancel(g, k, n);
        assert(pa * qk == pow(g, m) * (pow(g, k) * qk)) by (nonlinear_arith)
            requires
                pa == pow(g, m) * pow(g, k),
        ;
        lemma_mul_unit_mod(pow(g, m), pow(g, k) * qk, n);
    } else {
        let j = (-(a + b)) as nat;
        lemma_pow_adds(i, a as nat, j);
        assert(qk == pow(i, a as nat) * pow(i, j));
        lemma_pow_inverse_cancel(g, a as nat, n);
        assert(pa * qk == pow(i, j) * (pa * pow(i, a as nat))) by (nonlinear_arith)
            requires
                qk == pow(i, a as nat) * pow(i, j),
        ;
        lemma_mul_unit_mod(pow(i, j), pa * pow(i, a as nat), n);
    }
}

/// `g^(a + b) = g^a g^b` modulo `n` for an invertible `g` and any powers.
pub proof fn lemma_pow_mod_add(g: int, a: int, b: int, n: int)
    requires
        n > 1,
        invertible(g, n),
    ensures
        spec_pow_mod(g, a + b, n) == (spec_pow_mod(g, a, n) * spec_pow_mod(g, b, n)) % n,
{
    let i = mod_inverse(g, n);
    if a >= 0 && b >= 0 {
        lemma_pow_adds(g, a as nat, b as nat);
        lemma_mul_mod_noop(pow(g, a as nat), pow(g, b as nat), n);
    } else if a < 0 && b < 0 {
        lemma_pow_adds(i, (-a) as nat, (-b) as nat);
        assert((-(a + b)) as nat == (-a) as nat + (-b) as nat);
        lemma_mul_mod_noop(pow(i, (-a) as nat), pow(i, (-b) as nat), n);
    } else if a >= 0 {
        lemma_pow_mod_add_mixed(g, a, b, n);
    } else {
        lemma_pow_mod_add_mixed(g, b, a, n);
        assert(spec_pow_mod(g, a, n) * spec_pow_mod(g, b, n) == spec_pow_mod(g, b, n) * spec_pow_mod(g, a, n))
            by (nonlinear_arith);
    }
}

/// `g^x` and `g^-x` are inverses modulo `n`.
pub proof fn lemma_pow_mod_neg(g: int, x: int, n: int)
    requires
        n > 1,
        invertible(g, n),
    ensures
        (spec_pow_mod(g, x, n) * spec_pow_mod(g, -x, n)) % n == 1,
        invertible(spec_pow_mod(g, x, n), n),
        mod_inverse(spec_pow_mod(g, x, n), n) == spec_pow_mod(g, -x, n),
{
    lemma_pow_mod_add(g, x, -x, n);
    lemma_pow_mod_zero(g, n);
    lemma_pow_mod_range(g, -x, n);
    lemma_mod_inverse_unique(spec_pow_mod(g, x, n), n, spec_pow_mod(g, -x, n));
}

/// `(g^x)^c = g^(c x)` modulo `n` for `c >= 0`.
proof fn lemma_pow_mod_pow_nonneg(g: int, x: int, c: int, n: int)
    requires
        n > 1,
        invertible(g, n),
        c >= 0,
    ensures
        spec_pow_mod(spec_pow_mod(g, x, n), c, n) == spec_pow_mod(g, c * x, n),
{
    let i = mod_inverse(g, n);
    let cn = c as nat;
    if x >= 0 {
        let xn = x as nat;
        lemma_pow_mod_noop(pow(g, xn), cn, n);
        lemma_pow_multiplies(g, xn, cn);
        assert(c * x == xn * cn) by (nonlinear_arith)
            requires
                c == cn,
                x == xn,
        ;
        assert(c * x >= 0);
    } else {
        let yn = (-x) as nat;
        lemma_pow_mod_noop(pow(i, yn), cn, n);
        lemma_pow_multiplies(i, yn, cn);
        if c == 0 {
            lemma_pow0(pow(i, yn));
            lemma_pow0(g);
            assert(c * x == 0) by (nonlinear_arith)
                requires
                    c == 0,
            ;
        } else {
            assert(c * x < 0 && -(c * x) == yn * cn) by (nonlinear_arith)
                requires
                    c == cn,
                    -x == yn,
                    c > 0,
                    x < 0,
            ;
        }
    }
}

/// `(g^x)^c = g^(c x)` modulo `n` for an invertible `g` and any integers.
pub proof fn lemma_pow_mod_pow(g: int, x: int, c: int, n: int)
    requires
        n > 1,
        invertible(g, n),
    ensures
        spec_pow_mod(spec_pow_mod(g, x, n), c, n) == spec_pow_mod(g, c * x, n),
{
    if c >= 0 {
        lemma_pow_mod_pow_nonneg(g, x, c, n);
    } else {
        let y = spec_pow_mod(g, x, n);
        lemma_pow_mod_neg(g, x, n);
        // (g^x)^c = ((g^x)^-1)^-c = (g^-x)^-c = g^(c x)
        assert(spec_pow_mod(y, c, n) == pow(spec_pow_mod(g, -x, n), (-c) as nat) % n);
        lemma_pow_mod_pow_nonneg(g, -x, -c, n);
        assert((-c) * (-x) == c * x) by (nonlinear_arith);
    }
}

/// `((a b) mod n)^k = a^k b^k` modulo `n` for invertible `a` and `b`.
pub proof fn lemma_pow_mod_mul_base(a: int, b: int, k: int, n: int)
    requires
        n > 1,
        invertible(a, n),
        invertible(b, n),
    ensures
        spec_pow_mod((a * b) % n, k, n) == (spec_pow_mod(a, k, n) * spec_pow_mod(b, k, n)) % n,
{
    if k >= 0 {
        let kn = k as nat;
        lemma_pow_mod_noop(a * b, kn, n);
        lemma_pow_distributes(a, b, kn);
        lemma_mul_mod_noop(pow(a, kn), pow(b, kn), n);
    } else {
        let kn = (-k) as nat;
        let ia = mod_inverse(a, n);
        let ib = mod_inverse(b, n);
        lemma_mod_inverse(a, n);
        lemma_mod_inverse(b, n);
        let ab = (a * b) % n;
        let iab = (ia * ib) % n;
        // (a b) (ia ib) = (a ia) (b ib) = 1 modulo n
        assert((a * b) * (ia * ib) == (a * ia) * (b * ib)) by (nonlinear_arith);
        lemma_mul_mod_noop(a * b, ia * ib, n);
        lemma_mul_mod_noop(a * ia, b * ib, n);
        lemma_small_mod(1, n as nat);
        assert((ab * iab) % n == 1);
        vstd::arithmetic::div_mod::lemma_mod_bound(ia * ib, n);
        lemma_mod_inverse_unique(ab, n, iab);
        lemma_pow_mod_noop(ia * ib, kn, n);
        lemma_pow_distributes(ia, ib, kn);
        lemma_mul_mod_noop(pow(ia, kn), pow(ib, kn), n);
    }
}

/// `g^a` modulo `n` is in `[0, n)` and invertible.
pub proof fn lemma_pow_mod_unit(g: int, a: int, n: int)
    requires
        n > 1,
        invertible(g, n),
    ensures
        0 <= spec_pow_mod(g, a, n) < n,
        invertible(spec_pow_mod(g, a, n), n),
{
    lemma_pow_mod_range(g, a, n);
    lemma_pow_mod_invertible(g, a, n);
}

/// A product of units reduced modulo `n` is a unit.
pub proof fn lemma_mul_mod_unit(x: int, y: int, n: int)
    requires
        n > 1,
        invertible(x, n),
        invertible(y, n),
    ensures
        invertible((x * y) % n, n),
        0 <= (x * y) % n < n,
{
    lemma_invertible_mul(x, y, n);
    lemma_invertible_mod(x * y, n);
    vstd::arithmetic::div_mod::lemma_mod_bound(x * y, n);
}

/// Reducing the left factor of a product of three does not change it
/// modulo `n`.
pub proof fn lemma_mul3_mod(x: int, y: int, z: int, n: int)
    requires
        n > 0,
    ensures
        (x * y * z) % n == (((x * y) % n) * z) % n,
{
    lemma_mul_mod_noop_left(x * y, z, n);
}

/// Every power of 1 is 1.
pub proof fn lemma_unit_one(c: int, n: int)
    requires
        n > 1,
    ensures
        spec_pow_mod(1, c, n) == 1,
{
    lemma_small_mod(1, n as nat);
    if c >= 0 {
        lemma1_pow(c as nat);
    } else {
        assert((1int * 1int) % n == 1);
        lemma_mod_inverse_unique(1, n, 1);
        lemma1_pow((-c) as nat);
    }
}

/// Products of congruent factors are congruent.
pub proof fn lemma_mul_congr(a: int, a2: int, b: int, b2: int, n: int)
    requires
        n > 0,
        a % n == a2 % n,
        b % n == b2 % n,
    ensures
        (a * b) % n == (a2 * b2) % n,
{
    lemma_mul_mod_noop(a, b, n);
    lemma_mul_mod_noop(a2, b2, n);
}

/// A value reduced modulo `n` is congruent to itself.
pub proof fn lemma_mod_idem(a: int, n: int)
    requires
        n > 0,
    ensures
        (a % n) % n == a % n,
{
    lemma_mod_bound(a, n);
    lemma_small_mod((a % n) as nat, n as nat);
}

/// `u^c u^-c = 1` for a unit `u`.
pub proof fn lemma_pow_cancel(u: int, c: int, n: int)
    requires
        n > 1,
        invertible(u, n),
    ensures
        (spec_pow_mod(u, c, n) * spec_pow_mod(u, -c, n)) % n == 1,
{
    lemma_pow_mod_neg(u, c, n);
}

} // verus!
