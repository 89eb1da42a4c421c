use bls12_381_plus::group::Curve;
use zkryptium::bbsplus::ciphersuites::{Bls12381Sha256, Bls12381Shake256};
use zkryptium::bbsplus::generators::make_generators;
use zkryptium::bbsplus::keys::BBSplusPublicKey;
use zkryptium::bbsplus::message::BBSplusMessage;
use zkryptium::curve::{G2Point, Scalar};
use zkryptium::utils::{calculate_domain, calculate_random_scalars, get_messages, get_remaining_indexes, hash_to_scalar};

fn scalar(v: u64) -> Scalar {
    Scalar { bytes: bls12_381_plus::Scalar::from(v).to_be_bytes() }
}

fn pk() -> BBSplusPublicKey {
    let sk = bls12_381_plus::Scalar::from(777u64);
    BBSplusPublicKey(G2Point { bytes: (bls12_381_plus::G2Projective::GENERATOR * sk).to_affine().to_compressed() })
}

#[test]
fn remaining_indexes_are_the_others_in_order() {
    assert_eq!(get_remaining_indexes(5, &[1, 3]), vec![0, 2, 4]);
    assert_eq!(get_remaining_indexes(4, &[3, 0, 3]), vec![1, 2]);
    assert_eq!(get_remaining_indexes(3, &[]), vec![0, 1, 2]);
    assert_eq!(get_remaining_indexes(0, &[2]), Vec::<usize>::new());
    assert_eq!(get_remaining_indexes(3, &[7]), vec![0, 1, 2]);
}

#[test]
fn get_messages_follows_the_indexes() {
    let msgs: Vec<BBSplusMessage> = (10..14).map(|v| BBSplusMessage { value: scalar(v) }).collect();
    let picked = get_messages(&msgs, &[2, 0, 2]);
    assert_eq!(picked.len(), 3);
    assert_eq!(picked[0].value.bytes, scalar(12).bytes);
    assert_eq!(picked[1].value.bytes, scalar(10).bytes);
    assert_eq!(picked[2].value.bytes, scalar(12).bytes);
}

#[test]
fn hash_to_scalar_is_deterministic_and_sized() {
    let a = hash_to_scalar::<Bls12381Sha256>(b"message", 3, None);
    let b = hash_to_scalar::<Bls12381Sha256>(b"message", 3, None);
    assert_eq!(a.len(), 3);
    for i in 0..3 {
        assert_eq!(a[i].bytes, b[i].bytes);
        assert!(bool::from(bls12_381_plus::Scalar::from_be_bytes(&a[i].bytes).is_some()));
    }
    let c = hash_to_scalar::<Bls12381Sha256>(b"message", 3, Some(b"another dst".as_slice()));
    assert_ne!(a[0].bytes, c[0].bytes);
    let d = hash_to_scalar::<Bls12381Shake256>(b"message", 1, None);
    assert_ne!(a[0].bytes, d[0].bytes);
}

#[test]
fn random_scalars_depend_on_the_seed() {
    let a = calculate_random_scalars::<Bls12381Sha256>(4, b"seed one");
    let b = calculate_random_scalars::<Bls12381Sha256>(4, b"seed one");
    let c = calculate_random_scalars::<Bls12381Sha256>(4, b"seed two");
    assert_eq!(a.len(), 4);
    assert_eq!(a[3].bytes, b[3].bytes);
    assert_ne!(a[0].bytes, c[0].bytes);
    assert_ne!(a[0].bytes, a[1].bytes);
}

#[test]
fn the_domain_depends_on_the_header() {
    let g = make_generators::<Bls12381Sha256>(None, 4).unwrap();
    let key = pk();
    let d1 = calculate_domain::<Bls12381Sha256>(&key, &g.q1, &g.q2, &g.message_generators, None);
    let d2 = calculate_domain::<Bls12381Sha256>(&key, &g.q1, &g.q2, &g.message_generators, Some(b"".as_slice()));
    let d3 = calculate_domain::<Bls12381Sha256>(&key, &g.q1, &g.q2, &g.message_generators, Some(b"header".as_slice()));
    assert_eq!(d1.bytes, d2.bytes);
    assert_ne!(d1.bytes, d3.bytes);
}
