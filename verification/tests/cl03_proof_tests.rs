use num_bigint::{BigInt, Sign};
use zkryptium::cl03::ciphersuites::CL1024Sha256;
use zkryptium::cl03::keys::{CL03CommitmentPublicKey, CL03PublicKey};
use zkryptium::cl03::message::CL03Message;
use zkryptium::integer::Integer;
use zkryptium::schemes::algorithms::CL03_CL1024_SHA256;
use zkryptium::signatures::cl03_proof::CL03PoKSignature;
use zkryptium::signatures::proofs::PoKSignature;
use zkryptium::signatures::signature::CL03Signature;

fn integer(b: &BigInt) -> Integer {
    Integer { negative: b.sign() == Sign::Minus, magnitude: b.magnitude().to_bytes_be() }
}

fn small(v: u64) -> Integer {
    integer(&BigInt::from(v))
}

struct Setup {
    signer_pk: CL03PublicKey,
    commitment_pk: CL03CommitmentPublicKey,
    messages: Vec<CL03Message>,
    signature: CL03Signature,
}

/// A signature `(e, s, v)` on three messages, with the key's `c` chosen so
/// that `v^e = a_1^m_1 a_2^m_2 a_3^m_3 b^s c` modulo `N`.
fn setup() -> Setup {
    let p = BigInt::from(2305843009213693951u64);
    let q = BigInt::from(1000000007u64);
    let n = &p * &q;
    let a: Vec<BigInt> = vec![BigInt::from(4), BigInt::from(9), BigInt::from(25)];
    let b = BigInt::from(49);
    let m: Vec<BigInt> = vec![BigInt::from(5), BigInt::from(6), BigInt::from(7)];
    let e = BigInt::from(65537);
    let s = BigInt::from(12345);
    let v = BigInt::from(777777);
    let mut prod = b.modpow(&s, &n);
    for (ai, mi) in a.iter().zip(m.iter()) {
        prod = (prod * ai.modpow(mi, &n)) % &n;
    }
    let c = (v.modpow(&e, &n) * prod.modinv(&n).unwrap()) % &n;
    let signer_pk = CL03PublicKey { n: integer(&n), a_bases: a.iter().map(integer).collect(), b: integer(&b), c: integer(&c) };
    let commitment_pk = CL03CommitmentPublicKey {
        n: integer(&n),
        g_bases: vec![small(16), small(81), small(121)],
        h: small(169),
    };
    let messages = m.iter().map(|x| CL03Message::new(integer(x))).collect();
    let signature = CL03Signature { e: integer(&e), s: integer(&s), v: integer(&v) };
    Setup { signer_pk, commitment_pk, messages, signature }
}

#[test]
fn a_proof_hiding_every_message_verifies() {
    let s = setup();
    let idx = [0usize, 1, 2];
    let proof = CL03PoKSignature::nisp5_MultiAttr_generate_proof::<CL1024Sha256>(
        &s.signature,
        &s.commitment_pk,
        &s.signer_pk,
        &s.messages,
        &idx,
    );
    assert_eq!(proof.s_5.len(), 3);
    assert!(proof.nisp5_MultiAttr_verify_proof::<CL1024Sha256>(&s.commitment_pk, &s.signer_pk, &s.messages, &idx));
}

#[test]
fn a_proof_fails_for_another_key() {
    let s = setup();
    let idx = [0usize, 1, 2];
    let proof = CL03PoKSignature::nisp5_MultiAttr_generate_proof::<CL1024Sha256>(
        &s.signature,
        &s.commitment_pk,
        &s.signer_pk,
        &s.messages,
        &idx,
    );
    let mut other = setup().signer_pk;
    other.b = small(64);
    assert!(!proof.nisp5_MultiAttr_verify_proof::<CL1024Sha256>(&s.commitment_pk, &other, &s.messages, &idx));
}

#[test]
fn the_scheme_level_proof_verifies() {
    let s = setup();
    let idx = [0usize, 1, 2];
    let proof = PoKSignature::<CL03_CL1024_SHA256>::proof_gen(
        &s.signature,
        &s.commitment_pk,
        &s.signer_pk,
        &s.messages,
        &idx,
    );
    assert_eq!(proof.to_cl03_proof().s_5.len(), 3);
    assert!(proof.proof_verify(&s.commitment_pk, &s.signer_pk, &s.messages, &idx));
}

#[test]
fn a_tampered_proof_fails() {
    let s = setup();
    let idx = [0usize, 1, 2];
    let mut proof = CL03PoKSignature::nisp5_MultiAttr_generate_proof::<CL1024Sha256>(
        &s.signature,
        &s.commitment_pk,
        &s.signer_pk,
        &s.messages,
        &idx,
    );
    proof.s_1 = small(1);
    assert!(!proof.nisp5_MultiAttr_verify_proof::<CL1024Sha256>(&s.commitment_pk, &s.signer_pk, &s.messages, &idx));
}

#[test]
fn a_non_unit_base_of_a_disclosed_zero_message_is_accepted_by_the_prover() {
    let mut s = setup();
    // 2305843009213693951 divides the modulus, so it has no inverse
    s.signer_pk.a_bases[0] = small(2305843009213693951);
    s.messages[0] = CL03Message::new(small(0));
    let idx = [1usize, 2];
    let proof = CL03PoKSignature::nisp5_MultiAttr_generate_proof::<CL1024Sha256>(
        &s.signature,
        &s.commitment_pk,
        &s.signer_pk,
        &s.messages,
        &idx,
    );
    assert_eq!(proof.s_5.len(), 2);
}
