use ff_zeroize::{Field, PrimeField};
use pairing_plus::bls12_381::{Fr, FrRepr};
use threshold_bbs_plus::fhks_bbs_plus::precomputation::{LivePreSignature, PerPartyPrecomputations};
use threshold_bbs_plus::field::Scalar;
use threshold_bbs_plus::helpers::secret_sharing::{
    get_0_lagrange_coefficient_fr, get_0_lagrange_coefficient_set_fr,
};
use threshold_bbs_plus::precomputation_mockup::precomputation_generation::{
    create_pp_precomputation_from_all_v_ole_evaluations, generate_pcf_pcg_output,
    generate_pp_precomputation,
};
use threshold_bbs_plus::rom_e_no_s::precomputation::{
    LivePreSignature as BetaLivePreSignature, PerPartyPrecomputations as BetaPrecomputations,
};

const SEED_PRE: [u8; 16] = [
    0x59, 0x62, 0xbe, 0x5d, 0x76, 0x3d, 0x31, 0x8d, 0x17, 0xdb, 0x37, 0x32, 0x54, 0x06, 0xbc, 0xe5,
];

fn fr(s: &Scalar) -> Fr {
    Fr::from_repr(FrRepr(s.to_limbs())).unwrap()
}

fn check_pcf_pcg_output_ae_as_ask(
    k: usize,
    indices: &Vec<Vec<usize>>,
    sk: Scalar,
    a_shares: &Vec<Vec<Scalar>>,
    e_shares: &Vec<Vec<Scalar>>,
    ae_terms: &Vec<Vec<Vec<(Scalar, Scalar)>>>,
    ask_terms: &Vec<Vec<Vec<(Scalar, Scalar)>>>,
) {
    for i_k in 0..k {
        let mut a = Fr::zero();
        let mut e = Fr::zero();
        let mut ae_direct = Fr::one();
        let mut ask_direct = Fr::one();
        let mut ae_indirect = Fr::zero();
        let mut ask_indirect = Fr::zero();

        for i_n in &indices[i_k] {
            a.add_assign(&fr(&a_shares[i_k][i_n - 1]));
            e.add_assign(&fr(&e_shares[i_k][i_n - 1]));
        }
        ae_direct.mul_assign(&a);
        ae_direct.mul_assign(&e);
        ask_direct.mul_assign(&a);
        ask_direct.mul_assign(&fr(&sk));

        for i_n in &indices[i_k] {
            for j_n in &indices[i_k] {
                let mut tmp_ae = Fr::zero();
                let mut tmp_ask = Fr::zero();
                tmp_ae.add_assign(&fr(&ae_terms[i_k][i_n - 1][j_n - 1].0));
                tmp_ae.add_assign(&fr(&ae_terms[i_k][i_n - 1][j_n - 1].1));
                tmp_ask.add_assign(&fr(&ask_terms[i_k][i_n - 1][j_n - 1].0));
                tmp_ask.add_assign(&fr(&ask_terms[i_k][i_n - 1][j_n - 1].1));
                tmp_ask.mul_assign(&fr(&get_0_lagrange_coefficient_fr(&indices[i_k], *j_n)));
                ae_indirect.add_assign(&tmp_ae);
                ask_indirect.add_assign(&tmp_ask);
            }
        }

        assert_eq!(ae_direct, ae_indirect, "Computation of AE is not consistent");
        assert_eq!(ask_direct, ask_indirect, "Computation of ASK is not consistent");
    }
}

fn check_interpolation_for_sk(sk: Scalar, sk_shares: &Vec<Scalar>, indices: &Vec<usize>) {
    let mut interpolation_result = Fr::zero();
    for &i in indices {
        let mut tmp = fr(&sk_shares[i - 1]);
        tmp.mul_assign(&fr(&get_0_lagrange_coefficient_fr(indices, i)));
        interpolation_result.add_assign(&tmp)
    }
    assert_eq!(fr(&sk), interpolation_result, "Problems with interpolation");
}

fn check_per_party_precomputations_with_coefficients(
    k: usize,
    indices: &Vec<Vec<usize>>,
    coefficients: &Vec<Vec<Scalar>>,
    precomputations: &Vec<PerPartyPrecomputations>,
    sk: Scalar,
    a_shares: &Vec<Vec<Scalar>>,
    e_shares: &Vec<Vec<Scalar>>,
) {
    for i_k in 0..k {
        let mut a_direct = Fr::zero();
        let mut e_direct = Fr::zero();
        let mut a_indirect = Fr::zero();
        let mut e_indirect = Fr::zero();
        let mut ae_indirect = Fr::zero();
        let mut ask_indirect = Fr::zero();

        for &el_i in &indices[i_k] {
            a_direct.add_assign(&fr(&a_shares[i_k][el_i - 1]));
            e_direct.add_assign(&fr(&e_shares[i_k][el_i - 1]));
            a_indirect.add_assign(&fr(&precomputations[el_i - 1].pre_signatures[i_k].a_share));
            e_indirect.add_assign(&fr(&precomputations[el_i - 1].pre_signatures[i_k].e_share));
        }

        let mut ae_direct = a_direct;
        ae_direct.mul_assign(&e_direct);
        let mut ask_direct = a_direct;
        ask_direct.mul_assign(&fr(&sk));

        for (ind_i, &el_i) in indices[i_k].iter().enumerate() {
            let pre = &precomputations[el_i - 1].pre_signatures[i_k];
            let mut share_of_ae = fr(&pre.ae_term_own);
            let mut share_of_ask = Fr::zero();
            let mut tmp_ask_own_lagrange = fr(&pre.ask_term_own);
            for (ind_j, &el_j) in indices[i_k].iter().enumerate() {
                if el_j != el_i {
                    share_of_ae.add_assign(&fr(&pre.ae_terms_a[el_j - 1]));
                    share_of_ae.add_assign(&fr(&pre.ae_terms_e[el_j - 1]));
                    let mut tmp = fr(&pre.ask_terms_a[el_j - 1]);
                    tmp.mul_assign(&fr(&coefficients[i_k][ind_j]));
                    share_of_ask.add_assign(&tmp);
                    tmp_ask_own_lagrange.add_assign(&fr(&pre.ask_terms_sk[el_j - 1]));
                }
            }
            tmp_ask_own_lagrange.mul_assign(&fr(&coefficients[i_k][ind_i]));
            share_of_ask.add_assign(&tmp_ask_own_lagrange);
            ae_indirect.add_assign(&share_of_ae);
            ask_indirect.add_assign(&share_of_ask);
        }

        assert_eq!(a_direct, a_indirect, "Computation of A is not consistent");
        assert_eq!(e_direct, e_indirect, "Computation of E is not consistent");
        assert_eq!(ae_direct, ae_indirect, "Computation of AE is not consistent");
        assert_eq!(ask_direct, ask_indirect, "Computation of ASK is not consistent");
    }
}

#[test]
fn test_all_precomputation_generation() {
    let t = 3;
    let n = 6;
    let k = 3;
    let indices = vec![vec![1, 3, 5], vec![1, 5, 2], vec![2, 4, 5]];

    let (sk, sk_shares, a_shares, e_shares, s_shares, ae_terms, as_terms, ask_terms) =
        generate_pcf_pcg_output(SEED_PRE, t, n, k);

    let per_party_precomputation = create_pp_precomputation_from_all_v_ole_evaluations(
        k, n, &sk_shares, &a_shares, &e_shares, &s_shares, &ae_terms, &as_terms, &ask_terms,
    );

    check_pcf_pcg_output_ae_as_ask(k, &indices, sk, &a_shares, &e_shares, &ae_terms, &ask_terms);

    for i_k in 0..k {
        check_interpolation_for_sk(sk, &sk_shares, &indices[i_k]);
    }

    let coefficients = indices
        .iter()
        .map(|indices| get_0_lagrange_coefficient_set_fr(indices))
        .collect::<Vec<Vec<Scalar>>>();
    check_per_party_precomputations_with_coefficients(
        k,
        &indices,
        &coefficients,
        &per_party_precomputation,
        sk,
        &a_shares,
        &e_shares,
    );
}

#[test]
fn dealt_precomputation_has_requested_shape() {
    let (t, n, k) = (2, 4, 5);
    let (sk, parties) = generate_pp_precomputation(SEED_PRE, t, n, k);
    assert_eq!(parties.len(), n);
    for (i, party) in parties.iter().enumerate() {
        assert_eq!(party.index, i + 1);
        assert_eq!(party.pre_signatures.len(), k);
        for pre in &party.pre_signatures {
            assert_eq!(pre.ae_terms_a.len(), n);
            assert_eq!(pre.ask_terms_sk.len(), n);
            let mut own = fr(&pre.a_share);
            own.mul_assign(&fr(&pre.e_share));
            assert_eq!(fr(&pre.ae_term_own), own);
            let mut own = fr(&pre.a_share);
            own.mul_assign(&fr(&pre.s_share));
            assert_eq!(fr(&pre.as_term_own), own);
        }
    }
    // the key shares are a 2-out-of-4 sharing of sk
    check_interpolation_for_sk(sk, &parties.iter().map(|p| p.sk_share).collect(), &vec![4, 2]);
}

#[test]
fn dealt_precomputation_correlates_blinding_terms() {
    let (t, n, k) = (2, 3, 1);
    let (_sk, parties) = generate_pp_precomputation(SEED_PRE, t, n, k);
    for i in 0..n {
        for j in 0..n {
            let pi = &parties[i].pre_signatures[0];
            let pj = &parties[j].pre_signatures[0];
            let mut shared = fr(&pi.as_terms_a[j]);
            shared.add_assign(&fr(&pj.as_terms_s[i]));
            let mut product = fr(&pi.a_share);
            product.mul_assign(&fr(&pj.s_share));
            assert_eq!(shared, product);
        }
    }
}

#[test]
fn live_delta_shares_add_up_to_a_times_e_plus_sk() {
    let (t, n, k) = (3, 6, 3);
    let (sk, parties) = generate_pp_precomputation(SEED_PRE, t, n, k);
    let indices = vec![vec![1, 3, 5], vec![1, 5, 2], vec![2, 4, 5, 6]];
    for i_k in 0..k {
        let (mut a, mut e, mut delta) = (Fr::zero(), Fr::zero(), Fr::zero());
        for &i in &indices[i_k] {
            let pre = &parties[i - 1].pre_signatures[i_k];
            let live = LivePreSignature::from_presignature(i, &indices[i_k], pre);
            assert_eq!(live.a_share, pre.a_share);
            assert_eq!(live.e_share, pre.e_share);
            a.add_assign(&fr(&live.a_share));
            e.add_assign(&fr(&live.e_share));
            delta.add_assign(&fr(&live.delta_share));
        }
        e.add_assign(&fr(&sk));
        a.mul_assign(&e);
        assert_eq!(delta, a);
    }
}

#[test]
fn live_pre_signature_with_given_coefficients_matches_lagrange_version() {
    let (t, n, k) = (2, 4, 1);
    let (_sk, parties) = generate_pp_precomputation(SEED_PRE, t, n, k);
    let indices = vec![3, 1];
    let coefficients = get_0_lagrange_coefficient_set_fr(&indices);
    for &i in &indices {
        let pre = &parties[i - 1].pre_signatures[0];
        let a = LivePreSignature::from_presignature(i, &indices, pre);
        let b = LivePreSignature::from_presignature_with_coefficients(i, &indices, pre, &coefficients);
        assert_eq!(a.delta_share, b.delta_share);
    }
    // with all coefficients one, delta shares add up to a * (e + sk_3 + sk_1)
    let ones = vec![Scalar::one(), Scalar::one()];
    let (mut a, mut e, mut delta) = (Fr::zero(), Fr::zero(), Fr::zero());
    for &i in &indices {
        let pre = &parties[i - 1].pre_signatures[0];
        let live = LivePreSignature::from_presignature_with_coefficients(i, &indices, pre, &ones);
        a.add_assign(&fr(&pre.a_share));
        e.add_assign(&fr(&pre.e_share));
        e.add_assign(&fr(&parties[i - 1].sk_share));
        delta.add_assign(&fr(&live.delta_share));
    }
    a.mul_assign(&e);
    assert_eq!(delta, a);
}

#[test]
fn live_beta_shares_add_up_to_a_times_sk() {
    let (t, n, k) = (3, 5, 2);
    let (sk, full_parties) = generate_pp_precomputation(SEED_PRE, t, n, k);
    let parties: Vec<BetaPrecomputations> =
        full_parties.iter().map(|p| BetaPrecomputations::from_full(p)).collect();
    assert_eq!(parties[2].index, 3);
    assert_eq!(parties[2].pre_signatures[1].ask_terms_a, full_parties[2].pre_signatures[1].ask_terms_a);
    let indices = vec![vec![5, 2, 3], vec![1, 2, 3, 4]];
    for i_k in 0..k {
        let (mut a, mut beta) = (Fr::zero(), Fr::zero());
        for &i in &indices[i_k] {
            let pre = &parties[i - 1].pre_signatures[i_k];
            let live = BetaLivePreSignature::from_presignature(i, &indices[i_k], pre);
            assert_eq!(live.a_share, pre.a_share);
            a.add_assign(&fr(&live.a_share));
            beta.add_assign(&fr(&live.beta_share));
        }
        a.mul_assign(&fr(&sk));
        assert_eq!(beta, a);
        let coefficients = get_0_lagrange_coefficient_set_fr(&indices[i_k]);
        let first = indices[i_k][0];
        let pre = &parties[first - 1].pre_signatures[i_k];
        assert_eq!(
            BetaLivePreSignature::from_presignature_with_coefficients(first, &indices[i_k], pre, &coefficients)
                .beta_share,
            BetaLivePreSignature::from_presignature(first, &indices[i_k], pre).beta_share
        );
    }
}
