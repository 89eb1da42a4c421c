use bls12_381_plus::group::Curve;
use bls12_381_plus::{G1Projective, G2Projective};
use zkryptium::bbsplus::keys::BBSplusPublicKey;
use zkryptium::curve::{G1Point, G2Point, Scalar};

#[test]
fn g1_points_decode_only_from_valid_encodings() {
    let good = G1Projective::GENERATOR.to_affine().to_compressed();
    let p = G1Point::from_bytes(good).unwrap();
    assert_eq!(p.bytes, good);
    assert!(p.is_well_formed());
    let mut bad = good;
    bad[0] &= 0x7f; // drop the compression flag
    assert!(G1Point::from_bytes(bad).is_none());
    assert!(!G1Point { bytes: bad }.is_well_formed());
    assert!(G1Point::from_bytes([0u8; 48]).is_none());
}

#[test]
fn g2_points_and_keys_decode_only_from_valid_encodings() {
    let good = (G2Projective::GENERATOR * bls12_381_plus::Scalar::from(9u64)).to_affine().to_compressed();
    assert_eq!(G2Point::from_bytes(good).unwrap().bytes, good);
    let key = BBSplusPublicKey::from_bytes(good).unwrap();
    assert!(key.is_well_formed());
    assert_eq!(key.to_bytes(), good.to_vec());
    assert!(BBSplusPublicKey::from_bytes([0xffu8; 96]).is_none());
    assert!(G2Point::from_bytes([0u8; 96]).is_none());
}

#[test]
fn scalars_are_canonical_only_below_the_modulus() {
    let one = Scalar::from_be_bytes({
        let mut b = [0u8; 32];
        b[31] = 1;
        b
    })
    .unwrap();
    assert!(one.is_well_formed());
    assert!(Scalar::from_be_bytes([0xffu8; 32]).is_none());
    assert!(!Scalar { bytes: [0xffu8; 32] }.is_well_formed());
    // the modulus itself is not canonical
    let r = hex::decode("73eda753299d7d483339d80809a1d80553bda402fffe5bfeffffffff00000001").unwrap();
    let mut rb = [0u8; 32];
    rb.copy_from_slice(&r);
    assert!(Scalar::from_be_bytes(rb).is_none());
}
