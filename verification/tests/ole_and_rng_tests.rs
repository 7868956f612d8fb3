use ff_zeroize::{Field, PrimeField};
use pairing_plus::bls12_381::{Fr, FrRepr};
use rand_core::SeedableRng;
use rand_xorshift::XorShiftRng;
use threshold_bbs_plus::field::Scalar;
use threshold_bbs_plus::helpers::non_core_rng::random_signer_set;
use threshold_bbs_plus::helpers::ole_correlation::{
    make_all_parties_ole, make_all_parties_vole, make_ole_single,
};
use threshold_bbs_plus::helpers::rng::{
    get_random_elements, get_random_messages_from_seed, get_random_messages_from_seed_one_dim,
};

const SEED: [u8; 16] = [
    0x59, 0x62, 0xbe, 0x5d, 0x76, 0xaa, 0x31, 0x8d, 0x17, 0x14, 0x37, 0x32, 0x37, 0x06, 0xac, 0xe5,
];

fn fr(s: &Scalar) -> Fr {
    Fr::from_repr(FrRepr(s.to_limbs())).unwrap()
}

fn product(x: &Scalar, y: &Scalar) -> Fr {
    let mut p = fr(x);
    p.mul_assign(&fr(y));
    p
}

fn sum(x: &Scalar, y: &Scalar) -> Fr {
    let mut s = fr(x);
    s.add_assign(&fr(y));
    s
}

#[test]
fn ole_single_shares_product() {
    let mut rng = XorShiftRng::from_seed(SEED);
    let x = Scalar::from_u64(6);
    let y = Scalar::from_u64(7);
    let (u, v) = make_ole_single(&mut rng, x, y);
    assert_eq!(sum(&u, &v), fr(&Scalar::from_u64(42)));
    // the first share is random, so the second is not the product itself
    assert_ne!(v, Scalar::from_u64(42));
}

#[test]
fn ole_single_with_zero_factor_shares_zero() {
    let mut rng = XorShiftRng::from_seed(SEED);
    let (u, v) = make_ole_single(&mut rng, Scalar::zero(), Scalar::from_u64(9));
    assert_eq!(sum(&u, &v), Fr::zero());
}

#[test]
fn ole_table_shares_all_products() {
    let (n, k) = (4, 2);
    let x = get_random_messages_from_seed(SEED, n, k);
    let y = get_random_messages_from_seed([7u8; 16], n, k);
    let mut rng = XorShiftRng::from_seed(SEED);
    let table = make_all_parties_ole(&mut rng, n, k, x.clone(), y.clone());
    assert_eq!(table.len(), k);
    for i_k in 0..k {
        assert_eq!(table[i_k].len(), n);
        for i in 0..n {
            assert_eq!(table[i_k][i].len(), n);
            for j in 0..n {
                let (u, v) = table[i_k][i][j];
                assert_eq!(sum(&u, &v), product(&x[i_k][i], &y[i_k][j]));
            }
        }
    }
}

#[test]
fn vole_table_shares_all_products() {
    let (n, k) = (3, 2);
    let x = get_random_messages_from_seed(SEED, n, k);
    let y = get_random_messages_from_seed_one_dim([9u8; 16], n);
    let mut rng = XorShiftRng::from_seed(SEED);
    let table = make_all_parties_vole(&mut rng, n, k, x.clone(), y.clone());
    assert_eq!(table.len(), k);
    for i_k in 0..k {
        assert_eq!(table[i_k].len(), n);
        for i in 0..n {
            assert_eq!(table[i_k][i].len(), n);
            for j in 0..n {
                let (u, v) = table[i_k][i][j];
                assert_eq!(sum(&u, &v), product(&x[i_k][i], &y[j]));
            }
        }
    }
}

#[test]
fn random_elements_have_requested_shape() {
    let mut rng = XorShiftRng::from_seed(SEED);
    let m = get_random_elements(&mut rng, 5, 3);
    assert_eq!(m.len(), 3);
    assert!(m.iter().all(|row| row.len() == 5));
    assert_ne!(m[0][0], m[0][1]);
    assert!(get_random_elements(&mut rng, 5, 0).is_empty());
}

#[test]
fn seeded_messages_are_reproducible() {
    let a = get_random_messages_from_seed(SEED, 2, 3);
    let b = get_random_messages_from_seed(SEED, 2, 3);
    assert_eq!(a, b);
    assert_eq!(a.len(), 3);
    assert!(a.iter().all(|row| row.len() == 2));
    let one_dim = get_random_messages_from_seed_one_dim(SEED, 4);
    assert_eq!(one_dim.len(), 4);
    // both draw from the same seeded generator, in the same order
    assert_eq!(one_dim[0], a[0][0]);
    assert_eq!(one_dim[1], a[0][1]);
    assert_eq!(one_dim[2], a[1][0]);
}

#[test]
fn signer_set_is_distinct_and_in_range() {
    let set = random_signer_set(SEED, 3, 6);
    assert_eq!(set.len(), 3);
    for (p, &i) in set.iter().enumerate() {
        assert!(1 <= i && i <= 6);
        assert!(!set[..p].contains(&i));
    }
}

#[test]
fn signer_set_larger_than_parties_takes_all() {
    let mut set = random_signer_set(SEED, 9, 5);
    set.sort();
    assert_eq!(set, vec![1, 2, 3, 4, 5]);
    assert!(random_signer_set(SEED, 0, 5).is_empty());
}
