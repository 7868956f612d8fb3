use ff_zeroize::{Field, PrimeField};
use pairing_plus::bls12_381::{Fr, FrRepr};
use rand_core::SeedableRng;
use rand_xorshift::XorShiftRng;
use threshold_bbs_plus::field::Scalar;
use threshold_bbs_plus::helpers::secret_sharing::{
    get_0_lagrange_coefficient_fr, get_0_lagrange_coefficient_set_fr,
    get_lagrange_coefficient_fr, get_shamir_shared_random_element,
};

const SEED: [u8; 16] = [
    0x59, 0x62, 0xbe, 0x5d, 0x76, 0x3d, 0x31, 0x8d, 0x17, 0xdb, 0x37, 0x32, 0x54, 0x06, 0xbc, 0xe5,
];

fn fr(s: &Scalar) -> Fr {
    Fr::from_repr(FrRepr(s.to_limbs())).unwrap()
}

fn small(x: u64) -> Fr {
    Fr::from_repr(FrRepr::from(x)).unwrap()
}

fn fraction(num: u64, den: u64, negative: bool) -> Fr {
    let mut r = small(num);
    r.mul_assign(&small(den).inverse().unwrap());
    if negative {
        r.negate();
    }
    r
}

fn interpolate_at_zero(shares: &Vec<Scalar>, indices: &Vec<usize>) -> Fr {
    let mut result = Fr::zero();
    for &i in indices {
        let mut tmp = fr(&shares[i - 1]);
        tmp.mul_assign(&fr(&get_0_lagrange_coefficient_fr(indices, i)));
        result.add_assign(&tmp);
    }
    result
}

#[test]
fn lagrange_coefficients_of_one_three_five() {
    let indices = vec![1, 3, 5];
    assert_eq!(fr(&get_0_lagrange_coefficient_fr(&indices, 1)), fraction(15, 8, false));
    assert_eq!(fr(&get_0_lagrange_coefficient_fr(&indices, 3)), fraction(5, 4, true));
    assert_eq!(fr(&get_0_lagrange_coefficient_fr(&indices, 5)), fraction(3, 8, false));
}

#[test]
fn lagrange_coefficient_to_nonzero_point() {
    // (3 - 2) / (1 - 2) = -1
    let indices = vec![1, 2];
    assert_eq!(fr(&get_lagrange_coefficient_fr(&indices, 1, 3)), fraction(1, 1, true));
    // (3 - 1) / (2 - 1) = 2
    assert_eq!(fr(&get_lagrange_coefficient_fr(&indices, 2, 3)), small(2));
    // interpolating to an evaluated point selects that point
    assert_eq!(fr(&get_lagrange_coefficient_fr(&indices, 2, 2)), small(1));
    assert_eq!(fr(&get_lagrange_coefficient_fr(&indices, 1, 2)), small(0));
}

#[test]
fn lagrange_coefficient_of_single_signer_is_one() {
    let indices = vec![4];
    assert_eq!(get_0_lagrange_coefficient_fr(&indices, 4), Scalar::one());
}

#[test]
fn lagrange_coefficient_set_matches_single_coefficients() {
    let indices = vec![2, 7, 4, 9];
    let set = get_0_lagrange_coefficient_set_fr(&indices);
    assert_eq!(set.len(), indices.len());
    for (p, &i) in indices.iter().enumerate() {
        assert_eq!(set[p], get_0_lagrange_coefficient_fr(&indices, i));
    }
    // the coefficients of an interpolation to zero sum to one
    let mut sum = Fr::zero();
    for c in &set {
        sum.add_assign(&fr(c));
    }
    assert_eq!(sum, Fr::one());
}

#[test]
fn shamir_sharing_interpolates_to_secret() {
    let mut rng = XorShiftRng::from_seed(SEED);
    let (secret, shares) = get_shamir_shared_random_element(&mut rng, 3, 6);
    assert_eq!(shares.len(), 6);
    for indices in [vec![1, 3, 5], vec![1, 5, 2], vec![2, 4, 5], vec![6, 1, 2, 3]] {
        assert_eq!(interpolate_at_zero(&shares, &indices), fr(&secret));
    }
}

#[test]
fn shamir_sharing_needs_threshold_many_shares() {
    let mut rng = XorShiftRng::from_seed(SEED);
    let (secret, shares) = get_shamir_shared_random_element(&mut rng, 3, 6);
    assert_ne!(interpolate_at_zero(&shares, &vec![1, 2]), fr(&secret));
}

#[test]
fn shamir_sharing_of_threshold_one_repeats_secret() {
    let mut rng = XorShiftRng::from_seed(SEED);
    let (secret, shares) = get_shamir_shared_random_element(&mut rng, 1, 4);
    assert_eq!(shares.len(), 4);
    for share in &shares {
        assert_eq!(*share, secret);
    }
}

#[test]
fn shamir_sharing_without_parties_is_empty() {
    let mut rng = XorShiftRng::from_seed(SEED);
    let (_secret, shares) = get_shamir_shared_random_element(&mut rng, 2, 0);
    assert!(shares.is_empty());
}

#[test]
fn shamir_shares_interpolate_to_other_shares() {
    let mut rng = XorShiftRng::from_seed(SEED);
    let (_secret, shares) = get_shamir_shared_random_element(&mut rng, 3, 6);
    let indices = vec![1, 3, 5];
    for target in [2usize, 4, 6] {
        let mut result = Fr::zero();
        for &i in &indices {
            let mut tmp = fr(&shares[i - 1]);
            tmp.mul_assign(&fr(&get_lagrange_coefficient_fr(&indices, i, target)));
            result.add_assign(&tmp);
        }
        assert_eq!(result, fr(&shares[target - 1]));
    }
}
