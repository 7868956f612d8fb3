use threshold_bbs_plus::field::Scalar;

#[test]
fn scalar_constants() {
    assert_eq!(Scalar::zero().to_limbs(), [0, 0, 0, 0]);
    assert_eq!(Scalar::one().to_limbs(), [1, 0, 0, 0]);
    assert_eq!(Scalar::from_u64(7).to_limbs(), [7, 0, 0, 0]);
}

#[test]
fn scalar_from_u64_is_canonical() {
    assert_eq!(Scalar::from_u64(u64::MAX).to_limbs(), [u64::MAX, 0, 0, 0]);
    assert_ne!(Scalar::from_u64(1), Scalar::from_u64(2));
    assert_eq!(Scalar::from_u64(1), Scalar::one());
    assert_eq!(Scalar::from_u64(0), Scalar::zero());
}
