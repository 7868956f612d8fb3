use ff_zeroize::{Field, PrimeField};
use pairing_plus::bls12_381::{Fr, FrRepr, G1, G2};
use pairing_plus::hash_to_field::{hash_to_field, ExpandMsgXmd};
use pairing_plus::{CurveAffine, CurveProjective, EncodedPoint};
use sha2::Sha256;
use threshold_bbs_plus::fhks_bbs_plus::keys::PublicKey;
use threshold_bbs_plus::fhks_bbs_plus::partial_threshold_signature::PartialThresholdSignature;
use threshold_bbs_plus::fhks_bbs_plus::precomputation::LivePreSignature;
use threshold_bbs_plus::fhks_bbs_plus::threshold_signature::ThresholdSignature;
use threshold_bbs_plus::field::Scalar;
use threshold_bbs_plus::helpers::rng;
use threshold_bbs_plus::precomputation_mockup::precomputation_generation;
use threshold_bbs_plus::rom_e_with_s::partial_threshold_signature::PartialThresholdSignature as NoncePartialSignature;
use threshold_bbs_plus::rom_e_with_s::precomputation::LivePreSignature as NonceLivePreSignature;

const SEED_PRESIGNATURES: [u8; 16] = [
    0x59, 0x62, 0xbe, 0x5d, 0x76, 0x3d, 0x31, 0x8d, 0x17, 0xdb, 0x37, 0x32, 0x54, 0x06, 0xbc, 0xe5,
];
const SEED_MESSAGES: [u8; 16] = [
    0x59, 0x62, 0xbe, 0x5d, 0x76, 0xaa, 0x31, 0x8d, 0x17, 0x14, 0x37, 0x32, 0x37, 0x06, 0xac, 0xe5,
];
const SEED_KEYS: [u8; 16] = [
    0x59, 0x62, 0xaa, 0x5d, 0x76, 0xaa, 0xbb, 0x8d, 0x17, 0x14, 0x37, 0x32, 0x37, 0xcc, 0xac, 0xe5,
];

fn fr(s: &Scalar) -> Fr {
    Fr::from_repr(FrRepr(s.to_limbs())).unwrap()
}

fn g1_bytes(p: G1) -> Vec<u8> {
    p.into_affine().into_uncompressed().as_ref().to_vec()
}

fn g2_bytes(p: G2) -> Vec<u8> {
    p.into_affine().into_uncompressed().as_ref().to_vec()
}

fn sign_with_signers(
    messages: &Vec<Scalar>,
    pk: &PublicKey,
    indices: &Vec<usize>,
    pre_computation: &Vec<threshold_bbs_plus::fhks_bbs_plus::precomputation::PerPartyPrecomputations>,
    i_k: usize,
) -> ThresholdSignature {
    let partials = indices
        .iter()
        .map(|&own_index| {
            PartialThresholdSignature::new(
                messages,
                pk,
                &LivePreSignature::from_presignature(
                    own_index,
                    indices,
                    &pre_computation[own_index - 1].pre_signatures[i_k],
                ),
            )
        })
        .collect::<Vec<PartialThresholdSignature>>();
    ThresholdSignature::from_partial_signatures(&partials)
}

#[test]
fn simple_signing() {
    let t = 3;
    let n = 6;
    let k = 3;
    let message_count = 5;
    let indices = vec![vec![1, 3, 5], vec![1, 5, 2], vec![2, 4, 5]];
    let messages = rng::get_random_messages_from_seed(SEED_MESSAGES, message_count, k);

    let (sk, pre_computation) =
        precomputation_generation::generate_pp_precomputation(SEED_PRESIGNATURES, t, n, k);
    let pk = PublicKey::generate(SEED_KEYS, sk, message_count);

    for i_k in 0..k {
        let signature = sign_with_signers(&messages[i_k], &pk, &indices[i_k], &pre_computation, i_k);
        assert!(
            ThresholdSignature::verify(&signature, &messages[i_k], &pk),
            "Signature verification failed"
        );
    }
}

#[test]
fn threshold_signature_rejects_other_messages() {
    let (t, n, k, message_count) = (2, 3, 1, 3);
    let messages = rng::get_random_messages_from_seed(SEED_MESSAGES, message_count, 2);
    let (sk, pre_computation) =
        precomputation_generation::generate_pp_precomputation(SEED_PRESIGNATURES, t, n, k);
    let pk = PublicKey::generate(SEED_KEYS, sk, message_count);
    let signature = sign_with_signers(&messages[0], &pk, &vec![3, 1], &pre_computation, 0);
    assert!(signature.verify(&messages[0], &pk));
    assert!(!signature.verify(&messages[1], &pk));
    assert_eq!(signature.s, Scalar::zero());
}

#[test]
fn threshold_signature_with_too_few_signers_fails() {
    let (t, n, k, message_count) = (3, 4, 1, 2);
    let messages = rng::get_random_messages_from_seed(SEED_MESSAGES, message_count, 1);
    let (sk, pre_computation) =
        precomputation_generation::generate_pp_precomputation(SEED_PRESIGNATURES, t, n, k);
    let pk = PublicKey::generate(SEED_KEYS, sk, message_count);
    let signature = sign_with_signers(&messages[0], &pk, &vec![1, 2], &pre_computation, 0);
    assert!(!signature.verify(&messages[0], &pk));
}

#[test]
fn threshold_signature_combines_shares() {
    let (t, n, k, message_count) = (2, 3, 1, 2);
    let messages = rng::get_random_messages_from_seed(SEED_MESSAGES, message_count, 1);
    let (sk, pre_computation) =
        precomputation_generation::generate_pp_precomputation(SEED_PRESIGNATURES, t, n, k);
    let pk = PublicKey::generate(SEED_KEYS, sk, message_count);
    let indices = vec![2, 3];
    let partials = indices
        .iter()
        .map(|&i| {
            let pre = &pre_computation[i - 1].pre_signatures[0];
            let live = LivePreSignature::from_presignature(i, &indices, pre);
            let partial = PartialThresholdSignature::new(&messages[0], &pk, &live);
            assert_eq!(partial.delta_share, live.delta_share);
            assert_eq!(partial.e_share, live.e_share);
            partial
        })
        .collect::<Vec<PartialThresholdSignature>>();
    let signature = ThresholdSignature::from_partial_signatures(&partials);
    let mut e = fr(&partials[0].e_share);
    e.add_assign(&fr(&partials[1].e_share));
    assert_eq!(fr(&signature.e), e);
    // the shares of delta add up to a * (e + sk)
    let mut a = Fr::zero();
    let mut delta = Fr::zero();
    for (p, &i) in indices.iter().enumerate() {
        a.add_assign(&fr(&pre_computation[i - 1].pre_signatures[0].a_share));
        delta.add_assign(&fr(&partials[p].delta_share));
    }
    let mut e_sk = e;
    e_sk.add_assign(&fr(&sk));
    a.mul_assign(&e_sk);
    assert_eq!(delta, a);
}

#[test]
fn partial_signature_scales_message_basis() {
    let message_count = 2;
    let messages = rng::get_random_messages_from_seed(SEED_MESSAGES, message_count, 1);
    let pk = PublicKey::generate(SEED_KEYS, Scalar::from_u64(5), message_count);
    let live = LivePreSignature {
        a_share: Scalar::from_u64(3),
        e_share: Scalar::from_u64(4),
        delta_share: Scalar::from_u64(11),
    };
    let partial = PartialThresholdSignature::new(&messages[0], &pk, &live);
    // (g1 + h1 * m1 + h2 * m2) * 3, recomputed with pairing_plus
    let mut basis = G1::one();
    let decode = |p: &threshold_bbs_plus::curve::G1Point| {
        let mut enc = pairing_plus::bls12_381::G1Uncompressed::empty();
        enc.as_mut().copy_from_slice(&p.to_bytes());
        enc.into_affine().unwrap().into_projective()
    };
    for i in 0..message_count {
        let mut tmp = decode(&pk.h[i]);
        tmp.mul_assign(FrRepr(messages[0][i].to_limbs()));
        basis.add_assign(&tmp);
    }
    basis.mul_assign(FrRepr::from(3));
    assert_eq!(partial.capital_a_share.to_bytes().to_vec(), g1_bytes(basis));
    assert_eq!(partial.delta_share, Scalar::from_u64(11));
    assert_eq!(partial.e_share, Scalar::from_u64(4));
}

#[test]
fn public_key_holds_generator_times_secret_key() {
    let sk = rng::get_random_messages_from_seed_one_dim(SEED_KEYS, 1)[0];
    let pk = PublicKey::generate(SEED_KEYS, sk, 4);
    assert_eq!(pk.h.len(), 4);
    let mut w = G2::one();
    w.mul_assign(FrRepr(sk.to_limbs()));
    assert_eq!(pk.w.to_bytes().to_vec(), g2_bytes(w));
    assert_ne!(pk.h0, pk.h[0]);
    let again = PublicKey::generate(SEED_KEYS, sk, 4);
    assert_eq!(again.h, pk.h);
    assert_eq!(again.h0, pk.h0);
    assert!(PublicKey::generate(SEED_KEYS, sk, 0).h.is_empty());
}

#[test]
fn public_key_of_one_holds_the_g2_generator() {
    let pk = PublicKey::generate(SEED_KEYS, Scalar::one(), 1);
    assert_eq!(pk.w.to_bytes().to_vec(), g2_bytes(G2::one()));
}

#[test]
fn directly_signed_signature_verifies() {
    let message_count = 3;
    let sk = rng::get_random_messages_from_seed_one_dim(SEED_KEYS, 1)[0];
    let pk = PublicKey::generate(SEED_KEYS, sk, message_count);
    let messages = rng::get_random_messages_from_seed(SEED_MESSAGES, message_count, 2);
    let e_s = rng::get_random_messages_from_seed(SEED_PRESIGNATURES, 2, 1);
    let signature = ThresholdSignature::from_secret_key(&pk, sk, e_s[0][0], e_s[0][1], &messages[0]);
    assert_eq!(signature.e, e_s[0][0]);
    assert_eq!(signature.s, e_s[0][1]);
    assert!(signature.verify(&messages[0], &pk));
    assert!(!signature.verify(&messages[1], &pk));
    // fewer messages than generators: the remaining generators are not used
    let short = vec![messages[0][0]];
    let signature = ThresholdSignature::from_secret_key(&pk, sk, e_s[0][0], e_s[0][1], &short);
    assert!(signature.verify(&short, &pk));
}

#[test]
fn directly_signed_signature_with_other_key_fails() {
    let message_count = 1;
    let sk = rng::get_random_messages_from_seed_one_dim(SEED_KEYS, 2);
    let pk = PublicKey::generate(SEED_KEYS, sk[0], message_count);
    let messages = vec![Scalar::from_u64(17)];
    let signature =
        ThresholdSignature::from_secret_key(&pk, sk[1], Scalar::from_u64(2), Scalar::from_u64(3), &messages);
    assert!(!signature.verify(&messages, &pk));
}

#[test]
fn nonce_partial_signature_hashes_e_and_shifts_delta() {
    let message_count = 2;
    let messages = rng::get_random_messages_from_seed(SEED_MESSAGES, message_count, 1);
    let pk = PublicKey::generate(SEED_KEYS, Scalar::from_u64(5), message_count);
    let live = NonceLivePreSignature {
        a_share: Scalar::from_u64(3),
        alpha_share: Scalar::from_u64(0),
        delta_share: Scalar::from_u64(10),
        s_share: Scalar::from_u64(8),
    };
    let nonce = String::from("signing session 7");
    let partial = NoncePartialSignature::new(&messages[0], &pk, &live, nonce.clone());
    let e = hash_to_field::<Fr, ExpandMsgXmd<Sha256>>(nonce.as_bytes(), b"asdfqwerzxcv", 1)[0];
    assert_eq!(fr(&partial.e), e);
    let mut delta = e;
    delta.mul_assign(&fr(&Scalar::from_u64(3)));
    delta.add_assign(&fr(&Scalar::from_u64(10)));
    assert_eq!(fr(&partial.delta_share), delta);
    assert_eq!(partial.s_share, Scalar::from_u64(8));
    // with alpha zero, the share of A is the one without blinding
    let plain = PartialThresholdSignature::new(
        &messages[0],
        &pk,
        &LivePreSignature { a_share: Scalar::from_u64(3), e_share: e_zero(), delta_share: e_zero() },
    );
    assert_eq!(partial.capital_a_share, plain.capital_a_share);
    let other = NoncePartialSignature::new(&messages[0], &pk, &live, String::from("another nonce"));
    assert_ne!(other.e, partial.e);
}

fn e_zero() -> Scalar {
    Scalar::zero()
}

#[test]
fn nonce_partial_signature_for_given_e() {
    let messages = rng::get_random_messages_from_seed(SEED_MESSAGES, 1, 1);
    let pk = PublicKey::generate(SEED_KEYS, Scalar::from_u64(5), 1);
    let live = NonceLivePreSignature {
        a_share: Scalar::from_u64(3),
        alpha_share: Scalar::from_u64(2),
        delta_share: Scalar::from_u64(10),
        s_share: Scalar::from_u64(8),
    };
    let partial = NoncePartialSignature::new_with_e(&messages[0], &pk, &live, Scalar::from_u64(5));
    assert_eq!(partial.e, Scalar::from_u64(5));
    assert_eq!(partial.delta_share, Scalar::from_u64(25));
    assert_eq!(partial.s_share, Scalar::from_u64(8));
    let hashed = NoncePartialSignature::new(&messages[0], &pk, &live, String::from("n"));
    let same = NoncePartialSignature::new_with_e(&messages[0], &pk, &live, hashed.e);
    assert_eq!(hashed.capital_a_share, same.capital_a_share);
    assert_eq!(hashed.delta_share, same.delta_share);
}

#[test]
fn nonce_partial_signatures_combine_delta() {
    let messages = rng::get_random_messages_from_seed(SEED_MESSAGES, 1, 1);
    let pk = PublicKey::generate(SEED_KEYS, Scalar::from_u64(5), 1);
    let pres = [(3u64, 10u64), (4, 20), (6, 1)].map(|(a, d)| NonceLivePreSignature {
        a_share: Scalar::from_u64(a),
        alpha_share: Scalar::from_u64(a + 1),
        delta_share: Scalar::from_u64(d),
        s_share: Scalar::zero(),
    });
    let e = Scalar::from_u64(7);
    let mut delta = Fr::zero();
    for pre in &pres {
        delta.add_assign(&fr(&NoncePartialSignature::new_with_e(&messages[0], &pk, pre, e).delta_share));
    }
    // 10 + 20 + 1 + 7 * (3 + 4 + 6) = 122
    assert_eq!(delta, fr(&Scalar::from_u64(122)));
}

fn scalar_of(x: Fr) -> Scalar {
    Scalar::from_limbs(x.into_repr().0).unwrap()
}

#[test]
fn common_factor_of_shares_cancels() {
    let (t, n, k, message_count) = (2, 3, 1, 2);
    let messages = rng::get_random_messages_from_seed(SEED_MESSAGES, message_count, 1);
    let (sk, pre_computation) =
        precomputation_generation::generate_pp_precomputation(SEED_PRESIGNATURES, t, n, k);
    let pk = PublicKey::generate(SEED_KEYS, sk, message_count);
    let indices = vec![1, 3];
    let partials = indices
        .iter()
        .map(|&i| {
            let pre = &pre_computation[i - 1].pre_signatures[0];
            PartialThresholdSignature::new(&messages[0], &pk, &LivePreSignature::from_presignature(i, &indices, pre))
        })
        .collect::<Vec<PartialThresholdSignature>>();
    let c = fr(&Scalar::from_u64(7));
    let blinded = partials
        .iter()
        .map(|p| {
            let mut enc = pairing_plus::bls12_381::G1Uncompressed::empty();
            enc.as_mut().copy_from_slice(&p.capital_a_share.to_bytes());
            let mut a = enc.into_affine().unwrap().into_projective();
            a.mul_assign(c.into_repr());
            let mut bytes = [0u8; 96];
            bytes.copy_from_slice(a.into_affine().into_uncompressed().as_ref());
            let mut delta = fr(&p.delta_share);
            delta.mul_assign(&c);
            PartialThresholdSignature {
                capital_a_share: threshold_bbs_plus::curve::G1Point::from_bytes(bytes).unwrap(),
                delta_share: scalar_of(delta),
                e_share: p.e_share,
            }
        })
        .collect::<Vec<PartialThresholdSignature>>();
    let signature = ThresholdSignature::from_partial_signatures(&partials);
    let blinded_signature = ThresholdSignature::from_partial_signatures(&blinded);
    assert_eq!(signature.capital_a, blinded_signature.capital_a);
    assert_eq!(signature.e, blinded_signature.e);
    assert!(blinded_signature.verify(&messages[0], &pk));
}

#[test]
fn points_and_scalars_decode_only_valid_encodings() {
    let pk = PublicKey::generate(SEED_KEYS, Scalar::from_u64(3), 1);
    assert_eq!(threshold_bbs_plus::curve::G1Point::from_bytes(pk.h0.to_bytes()), Some(pk.h0));
    assert_eq!(threshold_bbs_plus::curve::G2Point::from_bytes(pk.w.to_bytes()), Some(pk.w));
    let mut bad = pk.h0.to_bytes();
    bad[95] ^= 1;
    assert_eq!(threshold_bbs_plus::curve::G1Point::from_bytes(bad), None);
    assert_eq!(threshold_bbs_plus::curve::G1Point::from_bytes([0u8; 96]), None);
    assert_eq!(Scalar::from_limbs([5, 0, 0, 0]), Some(Scalar::from_u64(5)));
    let r = [0xffffffff00000001u64, 0x53bda402fffe5bfe, 0x3339d80809a1d805, 0x73eda753299d7d48];
    assert_eq!(Scalar::from_limbs(r), None);
    let below = [0xffffffff00000000u64, 0x53bda402fffe5bfe, 0x3339d80809a1d805, 0x73eda753299d7d48];
    assert!(Scalar::from_limbs(below).is_some());
}

#[test]
fn order_of_partial_signatures_does_not_matter() {
    let (t, n, k, message_count) = (3, 5, 1, 2);
    let messages = rng::get_random_messages_from_seed(SEED_MESSAGES, message_count, 1);
    let (sk, pre_computation) =
        precomputation_generation::generate_pp_precomputation(SEED_PRESIGNATURES, t, n, k);
    let pk = PublicKey::generate(SEED_KEYS, sk, message_count);
    let indices = vec![5, 2, 4];
    let mut partials = indices
        .iter()
        .map(|&i| {
            let pre = &pre_computation[i - 1].pre_signatures[0];
            PartialThresholdSignature::new(&messages[0], &pk, &LivePreSignature::from_presignature(i, &indices, pre))
        })
        .collect::<Vec<PartialThresholdSignature>>();
    let first = ThresholdSignature::from_partial_signatures(&partials);
    partials.reverse();
    let second = ThresholdSignature::from_partial_signatures(&partials);
    assert_eq!(first.capital_a, second.capital_a);
    assert_eq!(first.e, second.e);
    assert!(second.verify(&messages[0], &pk));
}
