//! Integers of any size, as a sign and a big-endian magnitude, and the
//! arithmetic on them that `num-bigint` computes.
use crate::bytes::{be_to_nat, nat_to_be, to_vec, u64_to_be};
use num_bigint::{BigInt, RandBigInt, Sign};
use vstd::arithmetic::power::pow;
use vstd::prelude::*;

verus! {

/// An integer: a sign and the big-endian bytes of its absolute value.
pub struct Integer {
    pub negative: bool,
    pub magnitude: Vec<u8>,
}

impl Integer {
    /// The integer this value stands for.
    pub open spec fn value(&self) -> int {
        if self.negative {
            -(be_to_nat(self.magnitude@) as int)
        } else {
            be_to_nat(self.magnitude@) as int
        }
    }
}

/// The remainder of `a` by `m` truncated towards zero: it takes the sign of
/// `a`, as Rust's `%` does.
pub open spec fn trunc_rem(a: int, m: int) -> int {
    if a >= 0 {
        a % m
    } else {
        -((-a) % m)
    }
}

/// Whether `a` has an inverse modulo `m`.
pub open spec fn invertible(a: int, m: int) -> bool {
    exists|y: int| #[trigger] ((a * y) % m) == 1
}

/// The inverse of `a` modulo `m`, in `[0, m)`.
pub open spec fn mod_inverse(a: int, m: int) -> int {
    choose|y: int| 0 <= y < m && #[trigger] ((a * y) % m) == 1
}

/// `base` to the power `exp` modulo `m`; a negative power is a power of the
/// inverse.
pub open spec fn spec_pow_mod(base: int, exp: int, m: int) -> int {
    if exp >= 0 {
        pow(base, exp as nat) % m
    } else {
        pow(mod_inverse(base, m), (-exp) as nat) % m
    }
}

/// The ASCII byte of a decimal digit.
pub open spec fn digit_byte(d: nat) -> u8 {
    (48 + d) as u8
}

/// The decimal digits of `n`, most significant first, without leading zeros.
pub open spec fn nat_decimal(n: nat) -> Seq<u8>
    decreases n,
{
    if n < 10 {
        seq![digit_byte(n)]
    } else {
        nat_decimal(n / 10).push(digit_byte(n % 10))
    }
}

/// The decimal form of `n` in ASCII, with a leading `-` when negative.
pub open spec fn decimal(n: int) -> Seq<u8> {
    if n < 0 {
        seq![45u8] + nat_decimal((-n) as nat)
    } else {
        nat_decimal(n as nat)
    }
}

/// Decoding the `len`-byte encoding of `n` gives `n` modulo `256^len`.
pub proof fn lemma_be_of_nat_to_be(n: nat, len: nat)
    ensures
        be_to_nat(nat_to_be(n, len)) == n % pow(256, len) as nat,
    decreases len,
{
    vstd::arithmetic::power::lemma_pow_positive(256, len);
    if len == 0 {
        assert(pow(256, 0) == 1) by {
            vstd::arithmetic::power::lemma_pow0(256);
        }
    } else {
        let l1 = (len - 1) as nat;
        lemma_be_of_nat_to_be(n / 256, l1);
        crate::bytes::lemma_nat_to_be_len(n / 256, l1);
        let s = nat_to_be(n / 256, l1).push((n % 256) as u8);
        assert(s.drop_last() =~= nat_to_be(n / 256, l1));
        let p = pow(256, l1);
        vstd::arithmetic::power::lemma_pow_positive(256, l1);
        assert(pow(256, len) == 256 * p) by {
            vstd::arithmetic::power::lemma_pow_adds(256, 1, l1);
            vstd::arithmetic::power::lemma_pow1(256);
        }
        assert((((n / 256) as int) % p) * 256 + (n as int) % 256 == (n as int) % (256 * p)) by {
            vstd::arithmetic::div_mod::lemma_breakdown(n as int, 256, p);
        }
    }
}

/// The inverse modulo `m` is unique in `[0, m)`.
pub proof fn lemma_mod_inverse_unique(a: int, m: int, x: int)
    requires
        m > 1,
        0 <= x < m,
        (a * x) % m == 1,
    ensures
        invertible(a, m),
        mod_inverse(a, m) == x,
{
    assert((a * x) % m == 1);
    let y = mod_inverse(a, m);
    assert(0 <= y < m && (a * y) % m == 1);
    // x = x * (a * y) = (a * x) * y = y modulo m
    assert((x * (a * y)) % m == x % m) by {
        vstd::arithmetic::div_mod::lemma_mul_mod_noop_right(x, a * y, m);
        vstd::arithmetic::div_mod::lemma_small_mod(x as nat, m as nat);
    }
    assert(((a * x) * y) % m == y % m) by {
        vstd::arithmetic::div_mod::lemma_mul_mod_noop_left(a * x, y, m);
        vstd::arithmetic::div_mod::lemma_small_mod(y as nat, m as nat);
    }
    assert(x * (a * y) == (a * x) * y) by (nonlinear_arith);
    vstd::arithmetic::div_mod::lemma_small_mod(x as nat, m as nat);
    vstd::arithmetic::div_mod::lemma_small_mod(y as nat, m as nat);
}

impl Integer {
    /// The integer `v`.
    pub fn from_u64(v: u64) -> (r: Integer)
        ensures
            r.value() == v as int,
    {
        let magnitude = u64_to_be(v, 8);
        proof {
            lemma_be_of_nat_to_be(v as nat, 8);
            assert(pow(256, 8) == 0x1_0000_0000_0000_0000) by {
                reveal_with_fuel(pow, 9);
            }
            vstd::arithmetic::div_mod::lemma_small_mod(v as nat, 0x1_0000_0000_0000_0000);
        }
        Integer { negative: false, magnitude }
    }

    /// The non-negative integer that `bytes` encode, most significant first.
    pub fn from_digits_be(bytes: &[u8]) -> (r: Integer)
        ensures
            r.value() == be_to_nat(bytes@) as int,
    {
        Integer { negative: false, magnitude: to_vec(bytes) }
    }

    /// The opposite of this integer.
    pub fn negated(&self) -> (r: Integer)
        ensures
            r.value() == -self.value(),
    {
        Integer { negative: !self.negative, magnitude: self.magnitude.clone() }
    }

    /// A copy of this integer.
    pub fn copy(&self) -> (r: Integer)
        ensures
            r.value() == self.value(),
    {
        Integer { negative: self.negative, magnitude: self.magnitude.clone() }
    }
}

/// `BigInt + BigInt`.
#[verifier::external_body]
pub(crate) fn integer_add(a: &Integer, b: &Integer) -> (r: Integer)
    ensures
        r.value() == a.value() + b.value(),
{
    let x = BigInt::from_bytes_be(if a.negative { Sign::Minus } else { Sign::Plus }, &a.magnitude);
    let y = BigInt::from_bytes_be(if b.negative { Sign::Minus } else { Sign::Plus }, &b.magnitude);
    let (s, m) = (x + y).to_bytes_be();
    Integer { negative: s == Sign::Minus, magnitude: m }
}

/// `BigInt - BigInt`.
#[verifier::external_body]
pub(crate) fn integer_sub(a: &Integer, b: &Integer) -> (r: Integer)
    ensures
        r.value() == a.value() - b.value(),
{
    let x = BigInt::from_bytes_be(if a.negative { Sign::Minus } else { Sign::Plus }, &a.magnitude);
    let y = BigInt::from_bytes_be(if b.negative { Sign::Minus } else { Sign::Plus }, &b.magnitude);
    let (s, m) = (x - y).to_bytes_be();
    Integer { negative: s == Sign::Minus, magnitude: m }
}

/// `BigInt * BigInt`.
#[verifier::external_body]
pub(crate) fn integer_mul(a: &Integer, b: &Integer) -> (r: Integer)
    ensures
        r.value() == a.value() * b.value(),
{
    let x = BigInt::from_bytes_be(if a.negative { Sign::Minus } else { Sign::Plus }, &a.magnitude);
    let y = BigInt::from_bytes_be(if b.negative { Sign::Minus } else { Sign::Plus }, &b.magnitude);
    let (s, m) = (x * y).to_bytes_be();
    Integer { negative: s == Sign::Minus, magnitude: m }
}

/// `BigInt % BigInt`: the remainder truncated towards zero.
#[verifier::external_body]
pub(crate) fn integer_rem(a: &Integer, m: &Integer) -> (r: Integer)
    requires
        m.value() > 0,
    ensures
        r.value() == trunc_rem(a.value(), m.value()),
{
    let x = BigInt::from_bytes_be(if a.negative { Sign::Minus } else { Sign::Plus }, &a.magnitude);
    let y = BigInt::from_bytes_be(if m.negative { Sign::Minus } else { Sign::Plus }, &m.magnitude);
    let (s, b) = (x % y).to_bytes_be();
    Integer { negative: s == Sign::Minus, magnitude: b }
}

/// `BigInt::pow`.
#[verifier::external_body]
pub(crate) fn integer_pow(a: &Integer, e: u32) -> (r: Integer)
    ensures
        r.value() == pow(a.value(), e as nat),
{
    let x = BigInt::from_bytes_be(if a.negative { Sign::Minus } else { Sign::Plus }, &a.magnitude);
    let (s, m) = x.pow(e).to_bytes_be();
    Integer { negative: s == Sign::Minus, magnitude: m }
}

/// `BigInt::modpow`: a non-negative power modulo a positive modulus, in
/// `[0, m)`.
#[verifier::external_body]
pub(crate) fn integer_modpow(a: &Integer, e: &Integer, m: &Integer) -> (r: Integer)
    requires
        e.value() >= 0,
        m.value() > 0,
    ensures
        r.value() == pow(a.value(), e.value() as nat) % m.value(),
{
    let x = BigInt::from_bytes_be(if a.negative { Sign::Minus } else { Sign::Plus }, &a.magnitude);
    let y = BigInt::from_bytes_be(if e.negative { Sign::Minus } else { Sign::Plus }, &e.magnitude);
    let z = BigInt::from_bytes_be(if m.negative { Sign::Minus } else { Sign::Plus }, &m.magnitude);
    let (s, b) = x.modpow(&y, &z).to_bytes_be();
    Integer { negative: s == Sign::Minus, magnitude: b }
}

/// `BigInt::modinv`: the inverse in `[0, m)`, which exists exactly when
/// some `y` has `a * y = 1` modulo `m`.
#[verifier::external_body]
pub(crate) fn integer_modinv(a: &Integer, m: &Integer) -> (r: Option<Integer>)
    requires
        m.value() > 1,
    ensures
        r matches Some(x) ==> 0 <= x.value() < m.value() && (a.value() * x.value()) % m.value() == 1,
        r is None ==> !invertible(a.value(), m.value()),
{
    let x = BigInt::from_bytes_be(if a.negative { Sign::Minus } else { Sign::Plus }, &a.magnitude);
    let z = BigInt::from_bytes_be(if m.negative { Sign::Minus } else { Sign::Plus }, &m.magnitude);
    match x.modinv(&z) {
        Some(i) => {
            let (s, b) = i.to_bytes_be();
            Some(Integer { negative: s == Sign::Minus, magnitude: b })
        },
        None => None,
    }
}

/// `BigInt::sqrt`: the integer square root of a non-negative integer.
#[verifier::external_body]
pub(crate) fn integer_sqrt(a: &Integer) -> (r: Integer)
    requires
        a.value() >= 0,
    ensures
        r.value() >= 0,
        r.value() * r.value() <= a.value() < (r.value() + 1) * (r.value() + 1),
{
    let x = BigInt::from_bytes_be(if a.negative { Sign::Minus } else { Sign::Plus }, &a.magnitude);
    let (s, b) = x.sqrt().to_bytes_be();
    Integer { negative: s == Sign::Minus, magnitude: b }
}

/// `BigInt == BigInt`.
#[verifier::external_body]
pub(crate) fn integer_eq(a: &Integer, b: &Integer) -> (r: bool)
    ensures
        r == (a.value() == b.value()),
{
    let x = BigInt::from_bytes_be(if a.negative { Sign::Minus } else { Sign::Plus }, &a.magnitude);
    let y = BigInt::from_bytes_be(if b.negative { Sign::Minus } else { Sign::Plus }, &b.magnitude);
    x == y
}

/// `BigInt <= BigInt`.
#[verifier::external_body]
pub(crate) fn integer_le(a: &Integer, b: &Integer) -> (r: bool)
    ensures
        r == (a.value() <= b.value()),
{
    let x = BigInt::from_bytes_be(if a.negative { Sign::Minus } else { Sign::Plus }, &a.magnitude);
    let y = BigInt::from_bytes_be(if b.negative { Sign::Minus } else { Sign::Plus }, &b.magnitude);
    x <= y
}

/// `BigInt::to_string`, as ASCII bytes: the decimal form.
#[verifier::external_body]
pub(crate) fn integer_decimal(a: &Integer) -> (r: Vec<u8>)
    ensures
        r@ == decimal(a.value()),
{
    let x = BigInt::from_bytes_be(if a.negative { Sign::Minus } else { Sign::Plus }, &a.magnitude);
    x.to_string().into_bytes()
}

/// `RandBigInt::gen_biguint` on the thread's generator: a random integer of
/// at most `bits` bits.
#[verifier::external_body]
pub(crate) fn random_bits(bits: u32) -> (r: Integer)
    ensures
        0 <= r.value() < pow(2, bits as nat),
{
    let x = rand::thread_rng().gen_biguint(bits as u64);
    Integer { negative: false, magnitude: x.to_bytes_be() }
}

/// `RandBigInt::gen_bigint_range` on the thread's generator: a random
/// integer in `[lo, hi]`.
#[verifier::external_body]
pub(crate) fn rand_int(lo: &Integer, hi: &Integer) -> (r: Integer)
    requires
        lo.value() <= hi.value(),
    ensures
        lo.value() <= r.value() <= hi.value(),
{
    let x = BigInt::from_bytes_be(if lo.negative { Sign::Minus } else { Sign::Plus }, &lo.magnitude);
    let y = BigInt::from_bytes_be(if hi.negative { Sign::Minus } else { Sign::Plus }, &hi.magnitude);
    let (s, b) = rand::thread_rng().gen_bigint_range(&x, &(y + 1)).to_bytes_be();
    Integer { negative: s == Sign::Minus, magnitude: b }
}

/// `base` to the power `exp` modulo `m`, in `[0, m)`: a
/// negative power is a power of the inverse, and there is none when the
/// power is negative and `base` has no inverse.
pub fn pow_mod(base: &Integer, exp: &Integer, m: &Integer) -> (r: Option<Integer>)
    requires
        m.value() > 1,
    ensures
        r is None <==> (exp.value() < 0 && !invertible(base.value(), m.value())),
        r matches Some(x) ==> x.value() == spec_pow_mod(base.value(), exp.value(), m.value())
            && 0 <= x.value() < m.value(),
{
    let zero = Integer::from_u64(0);
    if integer_le(&zero, exp) {
        let x = integer_modpow(base, exp, m);
        proof {
            vstd::arithmetic::div_mod::lemma_mod_bound(pow(base.value(), exp.value() as nat), m.value());
        }
        Some(x)
    } else {
        match integer_modinv(base, m) {
            Some(inv) => {
                proof {
                    lemma_mod_inverse_unique(base.value(), m.value(), inv.value());
                }
                let e = exp.negated();
                let x = integer_modpow(&inv, &e, m);
                proof {
                    vstd::arithmetic::div_mod::lemma_mod_bound(pow(inv.value(), e.value() as nat), m.value());
                }
                Some(x)
            },
            None => None,
        }
    }
}

/// `a` divided by `b` modulo `m`: `a` times the inverse of `b`, reduced.
pub fn divm(a: &Integer, b: &Integer, m: &Integer) -> (r: Integer)
    requires
        m.value() > 1,
        invertible(b.value(), m.value()),
    ensures
        r.value() == (a.value() * mod_inverse(b.value(), m.value())) % m.value(),
        0 <= r.value() < m.value(),
{
    let inv = integer_modinv(b, m).unwrap();
    proof {
        lemma_mod_inverse_unique(b.value(), m.value(), inv.value());
    }
    let p = integer_mul(a, &inv);
    let r = modulo(&p, m);
    r
}

/// `a` reduced into `[0, m)`.
pub fn modulo(a: &Integer, m: &Integer) -> (r: Integer)
    requires
        m.value() > 0,
    ensures
        r.value() == a.value() % m.value(),
        0 <= r.value() < m.value(),
{
    let t = integer_rem(a, m);
    let zero = Integer::from_u64(0);
    proof {
        vstd::arithmetic::div_mod::lemma_mod_bound(a.value(), m.value());
        vstd::arithmetic::div_mod::lemma_mod_bound(-a.value(), m.value());
    }
    if integer_le(&zero, &t) {
        proof {
            lemma_trunc_rem_nonneg(a.value(), m.value());
        }
        t
    } else {
        proof {
            lemma_trunc_rem_neg(a.value(), m.value());
        }
        integer_add(&t, m)
    }
}

proof fn lemma_trunc_rem_nonneg(a: int, m: int)
    requires
        m > 0,
        trunc_rem(a, m) >= 0,
    ensures
        trunc_rem(a, m) == a % m,
{
    if a < 0 {
        vstd::arithmetic::div_mod::lemma_mod_bound(-a, m);
        assert((-a) % m == 0);
        vstd::arithmetic::div_mod::lemma_fundamental_div_mod(-a, m);
        let q = (-a) / m;
        assert(a == (-q) * m) by (nonlinear_arith)
            requires
                -a == m * q + 0,
        ;
        vstd::arithmetic::div_mod::lemma_mod_multiples_basic(-q, m);
    }
}

proof fn lemma_trunc_rem_neg(a: int, m: int)
    requires
        m > 0,
        trunc_rem(a, m) < 0,
    ensures
        trunc_rem(a, m) + m == a % m,
{
    let q = (-a) / m;
    let t = (-a) % m;
    vstd::arithmetic::div_mod::lemma_fundamental_div_mod(-a, m);
    vstd::arithmetic::div_mod::lemma_mod_bound(-a, m);
    // a = -(q * m + t) = (-q - 1) * m + (m - t), with 0 < m - t < m
    assert(a == (-q - 1) * m + (m - t)) by (nonlinear_arith)
        requires
            -a == m * q + t,
    ;
    vstd::arithmetic::div_mod::lemma_fundamental_div_mod_converse(a, m, -q - 1, m - t);
}

/// A product of invertible integers is invertible.
pub proof fn lemma_invertible_mul(x: int, y: int, n: int)
    requires
        n > 1,
        invertible(x, n),
        invertible(y, n),
    ensures
        invertible(x * y, n),
{
    let ix = choose|z: int| #[trigger] ((x * z) % n) == 1;
    let iy = choose|z: int| #[trigger] ((y * z) % n) == 1;
    assert((x * y) * (ix * iy) == (x * ix) * (y * iy)) by (nonlinear_arith);
    vstd::arithmetic::div_mod::lemma_mul_mod_noop(x * ix, y * iy, n);
    vstd::arithmetic::div_mod::lemma_small_mod(1, n as nat);
    assert(((x * y) * (ix * iy)) % n == 1);
}

/// A power of an invertible integer is invertible.
pub proof fn lemma_invertible_pow(b: int, e: nat, n: int)
    requires
        n > 1,
        invertible(b, n),
    ensures
        invertible(pow(b, e), n),
    decreases e,
{
    if e == 0 {
        vstd::arithmetic::power::lemma_pow0(b);
        vstd::arithmetic::div_mod::lemma_small_mod(1, n as nat);
        assert((1int * 1int) % n == 1);
    } else {
        lemma_invertible_pow(b, (e - 1) as nat, n);
        vstd::arithmetic::power::lemma_pow_adds(b, 1, (e - 1) as nat);
        vstd::arithmetic::power::lemma_pow1(b);
        lemma_invertible_mul(b, pow(b, (e - 1) as nat), n);
    }
}

/// Reducing an invertible integer keeps it invertible.
pub proof fn lemma_invertible_mod(x: int, n: int)
    requires
        n > 1,
        invertible(x, n),
    ensures
        invertible(x % n, n),
{
    let y = choose|z: int| #[trigger] ((x * z) % n) == 1;
    vstd::arithmetic::div_mod::lemma_mul_mod_noop_left(x, y, n);
    assert(((x % n) * y) % n == 1);
}

/// The inverse of an invertible integer exists in `[0, n)` and is
/// invertible.
pub proof fn lemma_mod_inverse(b: int, n: int)
    requires
        n > 1,
        invertible(b, n),
    ensures
        0 <= mod_inverse(b, n) < n,
        (b * mod_inverse(b, n)) % n == 1,
        invertible(mod_inverse(b, n), n),
{
    let y = choose|z: int| #[trigger] ((b * z) % n) == 1;
    vstd::arithmetic::div_mod::lemma_mul_mod_noop_right(b, y, n);
    vstd::arithmetic::div_mod::lemma_mod_bound(y, n);
    assert(0 <= y % n < n && (b * (y % n)) % n == 1);
    let i = mod_inverse(b, n);
    assert((i * b) == (b * i)) by (nonlinear_arith);
    assert((i * b) % n == 1);
}

/// A power modulo `n` of an invertible integer is invertible.
pub proof fn lemma_pow_mod_invertible(b: int, e: int, n: int)
    requires
        n > 1,
        invertible(b, n),
    ensures
        invertible(spec_pow_mod(b, e, n), n),
{
    if e >= 0 {
        lemma_invertible_pow(b, e as nat, n);
        lemma_invertible_mod(pow(b, e as nat), n);
    } else {
        lemma_mod_inverse(b, n);
        lemma_invertible_pow(mod_inverse(b, n), (-e) as nat, n);
        lemma_invertible_mod(pow(mod_inverse(b, n), (-e) as nat), n);
    }
}

/// `base` to the power `exp` modulo `m`, where it exists.
pub fn pow_mod_of(base: &Integer, exp: &Integer, m: &Integer) -> (r: Integer)
    requires
        m.value() > 1,
        exp.value() >= 0 || invertible(base.value(), m.value()),
    ensures
        r.value() == spec_pow_mod(base.value(), exp.value(), m.value()),
        0 <= r.value() < m.value(),
{
    pow_mod(base, exp, m).unwrap()
}

/// A power modulo `n` lies in `[0, n)`.
pub proof fn lemma_pow_mod_range(b: int, e: int, n: int)
    requires
        n > 0,
    ensures
        0 <= spec_pow_mod(b, e, n) < n,
{
    if e >= 0 {
        vstd::arithmetic::div_mod::lemma_mod_bound(pow(b, e as nat), n);
    } else {
        vstd::arithmetic::div_mod::lemma_mod_bound(pow(mod_inverse(b, n), (-e) as nat), n);
    }
}

/// The integer square root of a non-negative `n`.
pub open spec fn isqrt(n: int) -> int {
    choose|r: int| #[trigger] is_isqrt(n, r)
}

/// `r` is the integer square root of `n`.
pub open spec fn is_isqrt(n: int, r: int) -> bool {
    r >= 0 && r * r <= n < (r + 1) * (r + 1)
}

/// The integer square root is the only non-negative `r` with
/// `r^2 <= n < (r + 1)^2`.
pub proof fn lemma_isqrt_unique(n: int, r: int)
    requires
        r >= 0,
        r * r <= n < (r + 1) * (r + 1),
    ensures
        isqrt(n) == r,
{
    assert(is_isqrt(n, r));
    let q = isqrt(n);
    assert(q >= 0 && q * q <= n < (q + 1) * (q + 1));
    if q < r {
        assert((q + 1) * (q + 1) <= r * r) by (nonlinear_arith)
            requires
                0 <= q < r,
        ;
    }
    if r < q {
        assert((r + 1) * (r + 1) <= q * q) by (nonlinear_arith)
            requires
                0 <= r < q,
        ;
    }
}

/// The integer square root of a non-negative integer.
pub fn integer_isqrt(a: &Integer) -> (r: Integer)
    requires
        a.value() >= 0,
    ensures
        r.value() == isqrt(a.value()),
        r.value() >= 0,
        r.value() * r.value() <= a.value(),
{
    let r = integer_sqrt(a);
    proof {
        lemma_isqrt_unique(a.value(), r.value());
    }
    r
}

/// The number of bits of `n`: 0 for 0, else one more than for `n / 2`.
pub open spec fn bit_length(n: nat) -> nat
    decreases n,
{
    if n == 0 {
        0
    } else {
        1 + bit_length(n / 2)
    }
}

/// `num_prime::BitTest::bits` on a `u32`: `32 - leading_zeros`.
#[verifier::external_body]
pub(crate) fn u32_bits(n: u32) -> (r: u32)
    ensures
        r == bit_length(n as nat),
        r <= 32,
{
    num_prime::BitTest::bits(&n) as u32
}

} // verus!
