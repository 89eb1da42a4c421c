use num_bigint::{BigInt, Sign};
use zkryptium::cl03::commitment::CL03Commitment;
use zkryptium::hash::Sha256;
use zkryptium::integer::Integer;
use zkryptium::signatures::range_proof::Boudot2000RangeProof;

fn integer(b: &BigInt) -> Integer {
    Integer { negative: b.sign() == Sign::Minus, magnitude: b.magnitude().to_bytes_be() }
}

fn big(x: &Integer) -> BigInt {
    BigInt::from_bytes_be(if x.negative { Sign::Minus } else { Sign::Plus }, &x.magnitude)
}

fn modulus() -> BigInt {
    BigInt::from(2305843009213693951u64) * BigInt::from(1000000007u64)
}

/// `g^x h^r` modulo `n`, with `g = 4` and `h = 9`.
fn commit(x: i64, r: i64) -> CL03Commitment {
    let n = modulus();
    let g = BigInt::from(4);
    let h = BigInt::from(9);
    let gx = g.modpow(&BigInt::from(x), &n);
    let hr = if r >= 0 {
        h.modpow(&BigInt::from(r), &n)
    } else {
        h.modinv(&n).unwrap().modpow(&BigInt::from(-r), &n)
    };
    CL03Commitment { value: integer(&((gx * hr) % &n)), randomness: integer(&BigInt::from(r)) }
}

#[test]
fn a_range_proof_verifies() {
    let n = integer(&modulus());
    let g = integer(&BigInt::from(4));
    let h = integer(&BigInt::from(9));
    let c = commit(25, 1234567);
    let proof = Boudot2000RangeProof::prove::<Sha256>(&integer(&BigInt::from(25)), &c, &g, &h, &n, 18, 60).unwrap();
    assert_eq!(big(&proof.e), big(&c.value));
    assert!(proof.verify::<Sha256>(&g, &h, &n, 18, 60));
}

#[test]
fn a_range_proof_at_the_ends_verifies() {
    let n = integer(&modulus());
    let g = integer(&BigInt::from(4));
    let h = integer(&BigInt::from(9));
    for x in [10i64, 20] {
        let c = commit(x, -99);
        let proof = Boudot2000RangeProof::prove::<Sha256>(&integer(&BigInt::from(x)), &c, &g, &h, &n, 10, 20).unwrap();
        assert!(proof.verify::<Sha256>(&g, &h, &n, 10, 20));
    }
}

#[test]
fn a_range_proof_fails_for_another_range() {
    let n = integer(&modulus());
    let g = integer(&BigInt::from(4));
    let h = integer(&BigInt::from(9));
    let c = commit(25, 42);
    let proof = Boudot2000RangeProof::prove::<Sha256>(&integer(&BigInt::from(25)), &c, &g, &h, &n, 18, 60).unwrap();
    assert!(!proof.verify::<Sha256>(&g, &h, &n, 19, 60));
    assert!(!proof.verify::<Sha256>(&g, &h, &n, 18, 61));
}

#[test]
fn a_tampered_range_proof_fails() {
    let n = integer(&modulus());
    let g = integer(&BigInt::from(4));
    let h = integer(&BigInt::from(9));
    let c = commit(30, 7);
    let mut proof = Boudot2000RangeProof::prove::<Sha256>(&integer(&BigInt::from(30)), &c, &g, &h, &n, 18, 60).unwrap();
    proof.e_prime = integer(&(big(&proof.e_prime) + 1));
    assert!(!proof.verify::<Sha256>(&g, &h, &n, 18, 60));
}

#[test]
fn a_same_secret_proof_verifies() {
    let nb = modulus();
    let n = integer(&nb);
    let (g1, h1, g2, h2) = (BigInt::from(4), BigInt::from(9), BigInt::from(25), BigInt::from(49));
    let (x, r1, r2) = (BigInt::from(1234), BigInt::from(55), BigInt::from(66));
    let e = (g1.modpow(&x, &nb) * h1.modpow(&r1, &nb)) % &nb;
    let f = (g2.modpow(&x, &nb) * h2.modpow(&r2, &nb)) % &nb;
    let p = Boudot2000RangeProof::proof_same_secret::<Sha256>(
        &integer(&x),
        &integer(&r1),
        &integer(&r2),
        &integer(&g1),
        &integer(&h1),
        &integer(&g2),
        &integer(&h2),
        40,
        128,
        60,
        40,
        552,
        &n,
    );
    assert!(Boudot2000RangeProof::verify_same_secret::<Sha256>(
        &integer(&e),
        &integer(&f),
        &integer(&g1),
        &integer(&h1),
        &integer(&g2),
        &integer(&h2),
        &n,
        &p,
    ));
    // the same secret is not shown for another value in `f`
    let f2 = (g2.modpow(&(x + 1), &nb) * h2.modpow(&r2, &nb)) % &nb;
    assert!(!Boudot2000RangeProof::verify_same_secret::<Sha256>(
        &integer(&e),
        &integer(&f2),
        &integer(&g1),
        &integer(&h1),
        &integer(&g2),
        &integer(&h2),
        &n,
        &p,
    ));
}

#[test]
fn a_proof_of_square_verifies() {
    let nb = modulus();
    let n = integer(&nb);
    let (g, h) = (BigInt::from(4), BigInt::from(9));
    let (x, r) = (BigInt::from(77), BigInt::from(1001));
    let e = (g.modpow(&(&x * &x), &nb) * h.modpow(&r, &nb)) % &nb;
    let p = Boudot2000RangeProof::proof_of_square::<Sha256>(&integer(&x), &integer(&r), &integer(&g), &integer(&h), &integer(&e), 40, 128, 60, 40, 40, 552, &n);
    assert_eq!(big(&p.e), e);
    assert!(Boudot2000RangeProof::verify_of_square::<Sha256>(&p, &integer(&g), &integer(&h), &n));
}

#[test]
fn a_large_interval_proof_verifies() {
    let nb = modulus();
    let n = integer(&nb);
    let (g, h) = (BigInt::from(4), BigInt::from(9));
    let (x, r) = (BigInt::from(500), BigInt::from(-321));
    let hr = h.modinv(&nb).unwrap().modpow(&BigInt::from(321), &nb);
    let e = (g.modpow(&x, &nb) * hr) % &nb;
    let tt = 350u32;
    let p = Boudot2000RangeProof::proof_large_interval_specific::<Sha256>(&integer(&x), &integer(&r), &integer(&g), &integer(&h), 128, 40, 60, 40, &n, tt).unwrap();
    let c: BigInt = big(&p.c) % (BigInt::from(1) << 128u32);
    assert!(c.clone() * 60 <= big(&p.d_1));
    assert!(Boudot2000RangeProof::verify_large_interval_specific::<Sha256>(&p, &integer(&e), &integer(&g), &integer(&h), &n, 128, 40, 60, tt));
}
