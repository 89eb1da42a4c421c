use bls12_381_plus::group::Curve;
use bls12_381_plus::{G1Affine, G1Projective, G2Projective};
use zkryptium::bbsplus::ciphersuites::Bls12381Sha256;
use zkryptium::bbsplus::generators::{make_generators, Generators};
use zkryptium::bbsplus::keys::BBSplusPublicKey;
use zkryptium::bbsplus::message::BBSplusMessage;
use zkryptium::curve::{G1Point, G2Point, Scalar};
use zkryptium::schemes::algorithms::BBS_BLS12381_SHA256;
use zkryptium::signatures::proofs::PoKSignature;
use zkryptium::signatures::signature::BBSplusSignature;
use zkryptium::utils::calculate_domain;

type Bls = bls12_381_plus::Scalar;

fn scalar(s: Bls) -> Scalar {
    Scalar { bytes: s.to_be_bytes() }
}

fn bls(s: &Scalar) -> Bls {
    Bls::from_be_bytes(&s.bytes).unwrap()
}

fn point(p: &G1Point) -> G1Projective {
    G1Projective::from(G1Affine::from_compressed(&p.bytes).unwrap())
}

fn message(v: u64) -> BBSplusMessage {
    BBSplusMessage { value: scalar(Bls::from(v)) }
}

struct Setup {
    pk: BBSplusPublicKey,
    generators: Generators,
    messages: Vec<BBSplusMessage>,
    signature: BBSplusSignature,
}

const HEADER: &[u8] = b"a header";

/// A signature `(A, e, s)` with `A = B / (sk + e)` on five messages.
fn setup() -> Setup {
    let sk = Bls::from(123456789u64);
    let pk = BBSplusPublicKey(G2Point { bytes: (G2Projective::GENERATOR * sk).to_affine().to_compressed() });
    let generators = make_generators::<Bls12381Sha256>(None, 7).unwrap();
    let messages: Vec<BBSplusMessage> = (0..5).map(|i| message(1000 + i)).collect();
    let domain = calculate_domain::<Bls12381Sha256>(
        &pk,
        &generators.q1,
        &generators.q2,
        &generators.message_generators,
        Some(HEADER),
    );
    let e = Bls::from(42u64);
    let s = Bls::from(99u64);
    let mut b = point(&generators.g1_base_point) + point(&generators.q1) * s + point(&generators.q2) * bls(&domain);
    for (h, m) in generators.message_generators.iter().zip(messages.iter()) {
        b += point(h) * bls(&m.value);
    }
    let a = b * (sk + e).invert().unwrap();
    let signature = BBSplusSignature {
        a: G1Point { bytes: a.to_affine().to_compressed() },
        e: scalar(e),
        s: scalar(s),
    };
    Setup { pk, generators, messages, signature }
}

fn revealed(setup: &Setup, idx: &[usize]) -> Vec<BBSplusMessage> {
    idx.iter().map(|i| BBSplusMessage { value: Scalar { bytes: setup.messages[*i].value.bytes } }).collect()
}

#[test]
fn a_generated_proof_verifies() {
    let s = setup();
    let idx = [0usize, 2];
    let proof = PoKSignature::<BBS_BLS12381_SHA256>::proof_gen(
        &s.signature,
        &s.pk,
        Some(s.messages.as_slice()),
        &s.generators,
        Some(&idx[..]),
        Some(HEADER),
        Some(b"presentation".as_slice()),
        Some(b"seed".as_slice()),
    );
    let shown = revealed(&s, &idx);
    assert!(proof.proof_verify(
        &s.pk,
        Some(shown.as_slice()),
        &s.generators,
        Some(&idx[..]),
        Some(HEADER),
        Some(b"presentation".as_slice()),
    ));
}

#[test]
fn a_proof_disclosing_nothing_verifies() {
    let s = setup();
    let proof = PoKSignature::<BBS_BLS12381_SHA256>::proof_gen(
        &s.signature,
        &s.pk,
        Some(s.messages.as_slice()),
        &s.generators,
        None,
        Some(HEADER),
        None,
        Some(b"another seed".as_slice()),
    );
    assert_eq!(proof.to_bbsplus_proof().m_cap.len(), 5);
    assert!(proof.proof_verify(&s.pk, None, &s.generators, None, Some(HEADER), None));
}

#[test]
fn a_proof_fails_for_another_message() {
    let s = setup();
    let idx = [1usize];
    let proof = PoKSignature::<BBS_BLS12381_SHA256>::proof_gen(
        &s.signature,
        &s.pk,
        Some(s.messages.as_slice()),
        &s.generators,
        Some(&idx[..]),
        Some(HEADER),
        None,
        Some(b"seed".as_slice()),
    );
    let wrong = vec![message(5)];
    assert!(!proof.proof_verify(&s.pk, Some(wrong.as_slice()), &s.generators, Some(&idx[..]), Some(HEADER), None));
    let right = revealed(&s, &idx);
    assert!(proof.proof_verify(&s.pk, Some(right.as_slice()), &s.generators, Some(&idx[..]), Some(HEADER), None));
}

#[test]
fn a_proof_fails_for_another_header_or_presentation_header() {
    let s = setup();
    let idx = [3usize, 4];
    let proof = PoKSignature::<BBS_BLS12381_SHA256>::proof_gen(
        &s.signature,
        &s.pk,
        Some(s.messages.as_slice()),
        &s.generators,
        Some(&idx[..]),
        Some(HEADER),
        Some(b"ph".as_slice()),
        Some(b"seed".as_slice()),
    );
    let shown = revealed(&s, &idx);
    assert!(!proof.proof_verify(&s.pk, Some(shown.as_slice()), &s.generators, Some(&idx[..]), Some(b"other".as_slice()), Some(b"ph".as_slice())));
    assert!(!proof.proof_verify(&s.pk, Some(shown.as_slice()), &s.generators, Some(&idx[..]), Some(HEADER), Some(b"pH".as_slice())));
}

#[test]
fn a_proof_fails_under_another_key() {
    let s = setup();
    let proof = PoKSignature::<BBS_BLS12381_SHA256>::proof_gen(
        &s.signature,
        &s.pk,
        Some(s.messages.as_slice()),
        &s.generators,
        None,
        None,
        None,
        Some(b"seed".as_slice()),
    );
    let other = BBSplusPublicKey(G2Point {
        bytes: (G2Projective::GENERATOR * Bls::from(5u64)).to_affine().to_compressed(),
    });
    assert!(!proof.proof_verify(&other, None, &s.generators, None, None, None));
}

#[test]
fn proofs_from_the_same_seed_are_equal() {
    let s = setup();
    let make = || {
        PoKSignature::<BBS_BLS12381_SHA256>::proof_gen(
            &s.signature,
            &s.pk,
            Some(s.messages.as_slice()),
            &s.generators,
            Some(&[4usize][..]),
            None,
            None,
            Some(b"fixed".as_slice()),
        )
    };
    assert_eq!(make().to_bytes(), make().to_bytes());
}

#[test]
fn proof_bytes_are_points_then_scalars() {
    let s = setup();
    let idx = [0usize, 1, 2];
    let proof = PoKSignature::<BBS_BLS12381_SHA256>::proof_gen(
        &s.signature,
        &s.pk,
        Some(s.messages.as_slice()),
        &s.generators,
        Some(&idx[..]),
        None,
        None,
        Some(b"seed".as_slice()),
    );
    let bytes = proof.to_bytes();
    let p = proof.to_bbsplus_proof();
    assert_eq!(bytes.len(), 3 * 48 + 5 * 32 + 2 * 32);
    assert_eq!(&bytes[0..48], &p.a_prime.bytes[..]);
    assert_eq!(&bytes[48..96], &p.a_bar.bytes[..]);
    assert_eq!(&bytes[96..144], &p.d.bytes[..]);
    assert_eq!(&bytes[144..176], &p.c.bytes[..]);
    assert_eq!(&bytes[bytes.len() - 32..], &p.m_cap[1].bytes[..]);
}

#[test]
fn the_challenge_depends_on_the_disclosed_messages() {
    let g = G1Point { bytes: G1Projective::GENERATOR.to_affine().to_compressed() };
    let d = scalar(Bls::from(3u64));
    let m1 = vec![message(1)];
    let m2 = vec![message(2)];
    let c1 = PoKSignature::<BBS_BLS12381_SHA256>::calculate_challenge(&g, &g, &g, &g, &g, &[0], &m1, &d, None);
    let c2 = PoKSignature::<BBS_BLS12381_SHA256>::calculate_challenge(&g, &g, &g, &g, &g, &[0], &m2, &d, None);
    let c3 = PoKSignature::<BBS_BLS12381_SHA256>::calculate_challenge(&g, &g, &g, &g, &g, &[0], &m1, &d, None);
    assert_ne!(c1.bytes, c2.bytes);
    assert_eq!(c1.bytes, c3.bytes);
}

#[test]
fn checked_verification_refuses_malformed_arguments() {
    let s = setup();
    let idx = [0usize, 2];
    let proof = PoKSignature::<BBS_BLS12381_SHA256>::proof_gen_checked(
        &s.signature,
        &s.pk,
        Some(s.messages.as_slice()),
        &s.generators,
        Some(&idx[..]),
        Some(HEADER),
        None,
        Some(b"seed".as_slice()),
    )
    .unwrap();
    let shown = revealed(&s, &idx);
    assert_eq!(
        proof.proof_verify_checked(&s.pk, Some(shown.as_slice()), &s.generators, Some(&idx[..]), Some(HEADER), None),
        Some(true)
    );
    // one disclosed message for two indexes
    assert_eq!(
        proof.proof_verify_checked(&s.pk, Some(&shown[..1]), &s.generators, Some(&idx[..]), Some(HEADER), None),
        None
    );
    // a key that does not decode
    let bad_key = BBSplusPublicKey(G2Point { bytes: [0u8; 96] });
    assert_eq!(
        proof.proof_verify_checked(&bad_key, Some(shown.as_slice()), &s.generators, Some(&idx[..]), Some(HEADER), None),
        None
    );
}

#[test]
fn checked_generation_refuses_malformed_arguments() {
    let s = setup();
    let out_of_range = [7usize];
    assert!(PoKSignature::<BBS_BLS12381_SHA256>::proof_gen_checked(
        &s.signature,
        &s.pk,
        Some(s.messages.as_slice()),
        &s.generators,
        Some(&out_of_range[..]),
        None,
        None,
        Some(b"seed".as_slice()),
    )
    .is_none());
    let bad_sig = BBSplusSignature { a: G1Point { bytes: [0u8; 48] }, e: scalar(Bls::from(1u64)), s: scalar(Bls::from(1u64)) };
    assert!(PoKSignature::<BBS_BLS12381_SHA256>::proof_gen_checked(
        &bad_sig,
        &s.pk,
        Some(s.messages.as_slice()),
        &s.generators,
        None,
        None,
        None,
        Some(b"seed".as_slice()),
    )
    .is_none());
}
