use bls12_381_plus::group::Curve;
use bls12_381_plus::{G1Projective, G2Projective, Scalar};
use zkryptium::bbsplus::ciphersuites::{Bls12381Sha256, Bls12381Shake256};
use zkryptium::bbsplus::generators::{
    global_generators, make_g1_base_point, make_generators, signer_specific_generators, Generators,
};
use zkryptium::bbsplus::keys::BBSplusPublicKey;
use zkryptium::curve::{G1Point, G2Point};

fn all_points(g: &Generators) -> Vec<[u8; 48]> {
    let mut v = vec![g.q1.bytes, g.q2.bytes];
    for p in g.message_generators.iter() {
        v.push(p.bytes);
    }
    v
}

#[test]
fn make_generators_gives_the_count_asked_for() {
    let g = make_generators::<Bls12381Sha256>(None, 5).unwrap();
    assert_eq!(g.message_generators.len(), 3);
    let g = make_generators::<Bls12381Sha256>(None, 2).unwrap();
    assert_eq!(g.message_generators.len(), 0);
}

#[test]
fn generators_are_pairwise_distinct() {
    let g = make_generators::<Bls12381Sha256>(None, 10).unwrap();
    let pts = all_points(&g);
    for i in 0..pts.len() {
        for j in 0..pts.len() {
            if i != j {
                assert_ne!(pts[i], pts[j]);
            }
        }
    }
}

#[test]
fn generators_are_deterministic() {
    let a = make_generators::<Bls12381Shake256>(Some(b"a seed".as_slice()), 4).unwrap();
    let b = make_generators::<Bls12381Shake256>(Some(b"a seed".as_slice()), 4).unwrap();
    assert_eq!(all_points(&a), all_points(&b));
    assert_eq!(a.g1_base_point.bytes, b.g1_base_point.bytes);
}

#[test]
fn a_longer_list_extends_a_shorter_one() {
    let a = make_generators::<Bls12381Sha256>(None, 3).unwrap();
    let b = make_generators::<Bls12381Sha256>(None, 6).unwrap();
    assert_eq!(all_points(&a)[..], all_points(&b)[..3]);
}

#[test]
fn the_seed_changes_the_generators_but_not_the_base_point() {
    let a = make_generators::<Bls12381Sha256>(None, 3).unwrap();
    let b = make_generators::<Bls12381Sha256>(Some(b"other".as_slice()), 3).unwrap();
    assert_ne!(a.q1.bytes, b.q1.bytes);
    assert_eq!(a.g1_base_point.bytes, b.g1_base_point.bytes);
    assert_eq!(a.g1_base_point.bytes, make_g1_base_point::<Bls12381Sha256>().bytes);
}

#[test]
fn the_suites_give_different_generators() {
    let a = make_generators::<Bls12381Sha256>(None, 2).unwrap();
    let b = make_generators::<Bls12381Shake256>(None, 2).unwrap();
    assert_ne!(a.q1.bytes, b.q1.bytes);
    assert_ne!(a.g1_base_point.bytes, b.g1_base_point.bytes);
}

#[test]
fn generators_are_points_of_g1() {
    let g = make_generators::<Bls12381Sha256>(None, 3).unwrap();
    for p in all_points(&g) {
        assert!(bool::from(bls12_381_plus::G1Affine::from_compressed(&p).is_some()));
    }
}

#[test]
fn global_generators_raise_the_length_to_two() {
    let g = global_generators(|s: Option<&[u8]>, n: usize| make_generators::<Bls12381Sha256>(s, n), 0).unwrap();
    assert_eq!(g.message_generators.len(), 0);
    let h = make_generators::<Bls12381Sha256>(None, 2).unwrap();
    assert_eq!(all_points(&g), all_points(&h));
    let g = global_generators(|s: Option<&[u8]>, n: usize| make_generators::<Bls12381Sha256>(s, n), 4).unwrap();
    assert_eq!(g.message_generators.len(), 2);
}

#[test]
fn signer_specific_generators_are_seeded_by_the_key() {
    let sk = Scalar::from(12345u64);
    let pk_bytes = (G2Projective::GENERATOR * sk).to_affine().to_compressed();
    let pk = BBSplusPublicKey(G2Point { bytes: pk_bytes });
    let g = signer_specific_generators(
        &pk,
        |s: Option<&[u8]>, n: usize| make_generators::<Bls12381Sha256>(s, n),
        1,
    )
    .unwrap();
    let h = make_generators::<Bls12381Sha256>(Some(pk_bytes.as_slice()), 2).unwrap();
    assert_eq!(all_points(&g), all_points(&h));
    let global = make_generators::<Bls12381Sha256>(None, 2).unwrap();
    assert_ne!(all_points(&g), all_points(&global));
}

#[test]
fn hex_encodings_are_lower_case_hex_of_the_compressed_points() {
    let p = G1Point { bytes: G1Projective::GENERATOR.to_affine().to_compressed() };
    let q = G1Point { bytes: (G1Projective::GENERATOR * Scalar::from(2u64)).to_affine().to_compressed() };
    let g = Generators {
        g1_base_point: G1Point { bytes: p.bytes },
        q1: G1Point { bytes: q.bytes },
        q2: G1Point { bytes: p.bytes },
        message_generators: vec![G1Point { bytes: q.bytes }],
    };
    let h = g.hex_encodings();
    assert_eq!(h.len(), 4);
    let expected = "97f1d3a73197d7942695638c4fa9ac0fc3688c4f9774b905a14e3a3f171bac586c55e83ff97a1aeffb3af00adb22c6bb";
    assert_eq!(String::from_utf8(h[0].clone()).unwrap(), expected);
    assert_eq!(String::from_utf8(h[2].clone()).unwrap(), expected);
    assert_eq!(String::from_utf8(h[1].clone()).unwrap(), hex::encode(q.bytes));
    assert_eq!(h[3], h[1]);
}
