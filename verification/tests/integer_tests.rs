use num_bigint::{BigInt, Sign};
use zkryptium::integer::{divm, integer_isqrt, modulo, pow_mod, Integer};

fn integer(v: i64) -> Integer {
    let b = BigInt::from(v);
    Integer { negative: b.sign() == Sign::Minus, magnitude: b.magnitude().to_bytes_be() }
}

fn big(x: &Integer) -> BigInt {
    BigInt::from_bytes_be(if x.negative { Sign::Minus } else { Sign::Plus }, &x.magnitude)
}

#[test]
fn from_u64_keeps_the_value() {
    assert_eq!(big(&Integer::from_u64(0)), BigInt::from(0));
    assert_eq!(big(&Integer::from_u64(u64::MAX)), BigInt::from(u64::MAX));
    assert_eq!(big(&Integer::from_digits_be(&[1, 0])), BigInt::from(256));
    assert_eq!(big(&integer(42).negated()), BigInt::from(-42));
}

#[test]
fn pow_mod_of_a_positive_power() {
    let r = pow_mod(&integer(3), &integer(5), &integer(7)).unwrap();
    assert_eq!(big(&r), BigInt::from(5));
}

#[test]
fn pow_mod_of_a_negative_base_is_reduced() {
    // (-2)^3 = -8, which is 6 modulo 7
    let r = pow_mod(&integer(-2), &integer(3), &integer(7)).unwrap();
    assert_eq!(big(&r), BigInt::from(6));
}

#[test]
fn pow_mod_of_a_negative_power_uses_the_inverse() {
    // 3 * 5 = 15 = 1 modulo 7
    assert_eq!(big(&pow_mod(&integer(3), &integer(-1), &integer(7)).unwrap()), BigInt::from(5));
    assert_eq!(big(&pow_mod(&integer(3), &integer(-2), &integer(7)).unwrap()), BigInt::from(4));
}

#[test]
fn pow_mod_without_an_inverse_is_none() {
    assert!(pow_mod(&integer(2), &integer(-1), &integer(4)).is_none());
    assert!(pow_mod(&integer(2), &integer(3), &integer(4)).is_some());
}

#[test]
fn divm_multiplies_by_the_inverse() {
    // 4 / 3 = 4 * 5 = 20 = 6 modulo 7
    assert_eq!(big(&divm(&integer(4), &integer(3), &integer(7))), BigInt::from(6));
    assert_eq!(big(&divm(&integer(-4), &integer(3), &integer(7))), BigInt::from(1));
}

#[test]
fn modulo_is_never_negative() {
    assert_eq!(big(&modulo(&integer(-3), &integer(7))), BigInt::from(4));
    assert_eq!(big(&modulo(&integer(10), &integer(7))), BigInt::from(3));
    assert_eq!(big(&modulo(&integer(-14), &integer(7))), BigInt::from(0));
}

#[test]
fn integer_square_roots() {
    assert_eq!(big(&integer_isqrt(&integer(0))), BigInt::from(0));
    assert_eq!(big(&integer_isqrt(&integer(16))), BigInt::from(4));
    assert_eq!(big(&integer_isqrt(&integer(17))), BigInt::from(4));
    assert_eq!(big(&integer_isqrt(&integer(24))), BigInt::from(4));
    assert_eq!(big(&integer_isqrt(&integer(25))), BigInt::from(5));
}
