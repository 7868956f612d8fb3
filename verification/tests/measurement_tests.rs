use pairing_plus::bls12_381::{G1, G2};
use pairing_plus::{CurveAffine, CurveProjective, EncodedPoint};
use threshold_bbs_plus::fhks_bbs_plus::keys::PublicKey;
use threshold_bbs_plus::field::Scalar;
use threshold_bbs_plus::measurements::curve_arithmetic_benchmarking::{
    fr_add, fr_inv, fr_mul, g1_add, g1_mul, g2_add, g2_mul, pair,
};

const SEED: [u8; 16] = [7u8; 16];

#[test]
fn single_operations_run() {
    let pk = PublicKey::generate(SEED, Scalar::from_u64(12), 2);
    g1_add(pk.h0, pk.h[0]);
    g2_add(pk.w, pk.w);
    g1_mul(pk.h[1], Scalar::from_u64(99));
    g2_mul(pk.w, Scalar::from_u64(3));
    fr_add(Scalar::from_u64(1), Scalar::from_u64(2));
    fr_mul(Scalar::from_u64(3), Scalar::from_u64(4));
    fr_inv(Scalar::from_u64(5));
    pair(pk.h0, pk.w);
}

#[test]
fn g1_points_are_uncompressed_encodings() {
    let pk = PublicKey::generate(SEED, Scalar::one(), 1);
    let mut enc = pairing_plus::bls12_381::G1Uncompressed::empty();
    enc.as_mut().copy_from_slice(&pk.h0.to_bytes());
    let point = enc.into_affine().unwrap();
    assert_eq!(point.into_uncompressed().as_ref().to_vec(), pk.h0.to_bytes().to_vec());
    assert_ne!(point, G1::zero().into_affine());
}

#[test]
fn g2_generator_encoding_starts_as_documented() {
    let g2 = G2::one().into_affine().into_uncompressed();
    assert_eq!(&g2.as_ref()[..4], &[0x13, 0xe0, 0x2b, 0x60]);
    let g1 = G1::one().into_affine().into_uncompressed();
    assert_eq!(&g1.as_ref()[..4], &[0x17, 0xf1, 0xd3, 0xa7]);
    let zero = G1::zero().into_affine().into_uncompressed();
    assert_eq!(zero.as_ref()[0], 0x40);
    assert!(zero.as_ref()[1..].iter().all(|&b| b == 0));
}
