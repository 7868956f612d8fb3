//! BBS+ signatures `(A, e, s)`: from partial signatures, directly from the
//! secret key, and their verification by pairings.
use crate::curve::{
    compute_pairing, g1_add_points, g1_generator, g1_log, g1_one, g1_point, g1_scalar_mul,
    g1_scaled, g1_sum, g1_zero, g2_add_points, g2_generator, g2_one, g2_point, g2_scalar_mul,
    g2_scaled, g2_sum, gt_equal, identity_encoding, pairing_value, G1Point,
};
use crate::fhks_bbs_plus::keys::{
    accumulate_messages, is_valid_key, lemma_message_log_bound, lemma_message_log_sum,
    message_basis, message_log, PublicKey,
};
use crate::fhks_bbs_plus::partial_threshold_signature::PartialThresholdSignature;
use crate::field::{
    fadd, field_order, finv, fmul, lemma_modr_add, lemma_modr_idem, lemma_modr_mul,
    lemma_modr_small, lemma_scalar_in_field, modr, scalar_add, scalar_inverse, Scalar,
};
use crate::summation::{
    lemma_sum_congruent, lemma_sum_ext, lemma_sum_permutation, lemma_sum_scale, sum_range,
};
use vstd::prelude::*;

verus! {

broadcast use lemma_scalar_in_field;

/// A BBS+ signature.
pub struct ThresholdSignature {
    pub capital_a: G1Point,
    pub e: Scalar,
    pub s: Scalar,
}

/// Sum of the `delta` shares of the first `count` partial signatures.
pub open spec fn delta_sum(ps: Seq<PartialThresholdSignature>, count: int) -> int {
    sum_range(count, |i: int| ps[i].delta_share@ as int)
}

/// Sum of the `e` shares of the first `count` partial signatures.
pub open spec fn e_sum(ps: Seq<PartialThresholdSignature>, count: int) -> int {
    sum_range(count, |i: int| ps[i].e_share@ as int)
}

/// Sum in G1 of the shares of `A` of the first `count` partial signatures.
pub open spec fn capital_a_sum(ps: Seq<PartialThresholdSignature>, count: int) -> Seq<u8>
    decreases count,
{
    if count <= 0 {
        identity_encoding(96)
    } else {
        g1_sum(capital_a_sum(ps, count - 1), ps[count - 1].capital_a_share@)
    }
}

/// The point that a signature with blinding value `s` signs for `messages`:
/// `g1 + h0 * s + sum_i h_i * m_i`.
pub open spec fn signed_basis(pk: PublicKey, s: Scalar, messages: Seq<Scalar>) -> Seq<u8> {
    message_basis(
        g1_sum(g1_generator(), g1_scaled(pk.h0@, s@)),
        pk.h@,
        messages,
        messages.len() as int,
    )
}

/// The discrete logarithm of `signed_basis`: `1 + log(h0) * s + sum_i log(h_i) * m_i`
/// modulo `r`.
pub open spec fn signed_log(pk: PublicKey, s: Scalar, messages: Seq<Scalar>) -> nat {
    message_log(
        fadd(1, fmul(g1_log(pk.h0@) as int, s@ as int)) as nat,
        pk.h@,
        messages,
        messages.len() as int,
    )
}

/// The discrete logarithm of the signed basis is
/// `1 + log(h0) * s + sum_i log(h_i) * m_i`, each message paired with the
/// generator at its own position, modulo `r`.
pub proof fn lemma_signed_log_sum(pk: PublicKey, s: Scalar, messages: Seq<Scalar>)
    ensures
        signed_log(pk, s, messages) == modr(
            1 + g1_log(pk.h0@) as int * s@ as int + sum_range(
                messages.len() as int,
                |i: int| g1_log(pk.h@[i]@) as int * messages[i]@ as int,
            ),
        ),
{
    let l0 = g1_log(pk.h0@) as int * s@ as int;
    let start = fadd(1, fmul(g1_log(pk.h0@) as int, s@ as int));
    lemma_modr_idem(1 + fmul(g1_log(pk.h0@) as int, s@ as int));
    lemma_message_log_sum(start as nat, pk.h@, messages, messages.len() as int);
    let sum = sum_range(
        messages.len() as int,
        |i: int| g1_log(pk.h@[i]@) as int * messages[i]@ as int,
    );
    lemma_modr_add(1, l0);
    lemma_modr_small(1);
    lemma_modr_add(1 + modr(l0), sum);
    lemma_modr_add(1 + l0, sum);
    assert(modr(modr(1 + modr(l0)) + sum) == modr(1 + modr(l0) + sum));
    lemma_modr_add(1 + sum, l0);
    assert(modr(1 + modr(l0) + sum) == modr((1 + sum) + modr(l0)));
    assert(modr((1 + sum) + modr(l0)) == modr(1 + sum + l0));
}

/// `sig` is a BBS+ signature on `messages` for the secret key `sk`:
/// `A * (e + sk) = g1 + h0 * s + sum_i h_i * m_i`, in discrete logarithms.
pub open spec fn signs(sig: ThresholdSignature, messages: Seq<Scalar>, pk: PublicKey, sk: nat) -> bool {
    exists|alpha: nat|
        alpha < field_order() && sig.capital_a@ == #[trigger] g1_point(alpha) && fmul(
            alpha as int,
            fadd(sig.e@ as int, sk as int),
        ) == signed_log(pk, sig.s, messages)
}

/// Sum of the first `n` entries of `logs`.
pub open spec fn log_sum(logs: Seq<nat>, n: int) -> int {
    sum_range(n, |i: int| logs[i] as int)
}

/// Whenever the shares of `A` in `ps` are the points `logs[i] * g1`, `point` is
/// the sum of the first `count` of them.
pub open spec fn sums_points(point: Seq<u8>, ps: Seq<PartialThresholdSignature>, count: int) -> bool {
    forall|logs: Seq<nat>|
        logs.len() == ps.len() && (forall|i: int|
            0 <= i < ps.len() ==> logs[i] < field_order() && ps[i].capital_a_share@ == g1_point(
                #[trigger] logs[i],
            )) ==> point == g1_point(modr(#[trigger] log_sum(logs, count)) as nat)
}

/// Whenever the shares of `A` in `ps` are the points `logs[i] * g1`, `capital_a`
/// is `(sum_i logs[i]) / delta * g1`, where `delta` is the sum of the shares of `delta`.
pub open spec fn combines_points(capital_a: Seq<u8>, ps: Seq<PartialThresholdSignature>) -> bool {
    forall|logs: Seq<nat>|
        logs.len() == ps.len() && (forall|i: int|
            0 <= i < ps.len() ==> logs[i] < field_order() && ps[i].capital_a_share@ == g1_point(
                #[trigger] logs[i],
            )) ==> capital_a == g1_point(
            fmul(
                modr(#[trigger] log_sum(logs, ps.len() as int)),
                finv(modr(delta_sum(ps, ps.len() as int)) as nat) as int,
            ) as nat,
        )
}

/// The start of a signed basis, `g1 + h0 * s`, and its discrete logarithm.
fn basis_start(pk: &PublicKey, s: &Scalar) -> (r: G1Point)
    ensures
        r@ == g1_sum(g1_generator(), g1_scaled(pk.h0@, s@)),
        r@ == g1_point(fadd(1, fmul(g1_log(pk.h0@) as int, s@ as int)) as nat),
{
    proof {
        use_type_invariant(&pk.h0);
    }
    let h0s = g1_scalar_mul(&pk.h0, s);
    let g1 = g1_one();
    let start = g1_add_points(&g1, &h0s);
    proof {
        {
            let l0 = g1_log(pk.h0@);
            assert(pk.h0@ == g1_point(l0));
            lemma_modr_idem(l0 as int * s@ as int);
            lemma_modr_small(1);
            assert(h0s@ == g1_point(fmul(l0 as int, s@ as int) as nat));
            assert(g1@ == g1_point(1));
        }
    }
    start
}

impl ThresholdSignature {
    /// Combines partial signatures: `e` and `delta` are the sums of the
    /// shares, `A` is the sum of the shares of `A` divided by `delta`; the
    /// partial signatures carry no share of `s`, which stays zero.
    pub fn from_partial_signatures(partial_signatures: &Vec<PartialThresholdSignature>) -> (r: Self)
        requires
            modr(delta_sum(partial_signatures@, partial_signatures.len() as int)) != 0,
        ensures
            r.e@ == modr(e_sum(partial_signatures@, partial_signatures.len() as int)),
            r.s@ == 0,
            r.capital_a@ == g1_scaled(
                capital_a_sum(partial_signatures@, partial_signatures.len() as int),
                finv(
                    modr(delta_sum(partial_signatures@, partial_signatures.len() as int)) as nat,
                ),
            ),
            fmul(
                modr(delta_sum(partial_signatures@, partial_signatures.len() as int)),
                finv(
                    modr(delta_sum(partial_signatures@, partial_signatures.len() as int)) as nat,
                ) as int,
            ) == 1,
            combines_points(r.capital_a@, partial_signatures@),
    {
        let mut delta = Scalar::zero();
        let mut e = Scalar::zero();
        let s = Scalar::zero();
        let mut capital_a = g1_zero();
        let ghost ps = partial_signatures@;
        let ghost n = partial_signatures.len() as int;
        proof {
            lemma_modr_small(0);
            assert forall|logs: Seq<nat>| #[trigger] log_sum(logs, 0) == 0 by {}
            assert(capital_a@ == g1_point(0));
            assert(sums_points(capital_a@, ps, 0));
        }
        for i in 0..partial_signatures.len()
            invariant
                ps == partial_signatures@,
                n == ps.len(),
                delta@ == modr(delta_sum(ps, i as int)),
                e@ == modr(e_sum(ps, i as int)),
                capital_a@ == capital_a_sum(ps, i as int),
                sums_points(capital_a@, ps, i as int),
        {
            let partial_signature = &partial_signatures[i];
            proof {
                lemma_modr_add(delta_sum(ps, i as int), partial_signature.delta_share@ as int);
                lemma_modr_add(e_sum(ps, i as int), partial_signature.e_share@ as int);
            }
            delta = scalar_add(&delta, &partial_signature.delta_share);
            e = scalar_add(&e, &partial_signature.e_share);
            let ghost old_a = capital_a@;
            proof {
                assert(sums_points(old_a, ps, i as int));
            }
            capital_a = g1_add_points(&capital_a, &partial_signature.capital_a_share);
            proof {
                assert forall|logs: Seq<nat>|
                    logs.len() == ps.len() && (forall|j: int|
                        0 <= j < ps.len() ==> logs[j] < field_order() && ps[j].capital_a_share@
                            == g1_point(#[trigger] logs[j])) implies capital_a@ == g1_point(
                    modr(#[trigger] log_sum(logs, i + 1)) as nat,
                ) by {
                    let prev = log_sum(logs, i as int);
                    assert(old_a == g1_point(modr(log_sum(logs, i as int)) as nat));
                    assert(ps[i as int].capital_a_share@ == g1_point(logs[i as int]));
                    lemma_modr_idem(prev);
                    lemma_modr_add(prev, logs[i as int] as int);
                    lemma_modr_small(logs[i as int] as int);
                    assert(log_sum(logs, i + 1) == prev + logs[i as int]);
                }
                assert(sums_points(capital_a@, ps, i + 1));
            }
        }
        let ghost sum_a = capital_a@;
        assert(sums_points(sum_a, ps, n));
        let inverse = scalar_inverse(&delta);
        let capital_a = match inverse {
            Some(epsilon) => g1_scalar_mul(&capital_a, &epsilon),
            None => capital_a,
        };
        proof {
            let d = delta_sum(ps, n);
            assert forall|logs: Seq<nat>|
                logs.len() == ps.len() && (forall|j: int|
                    0 <= j < ps.len() ==> logs[j] < field_order() && ps[j].capital_a_share@
                        == g1_point(#[trigger] logs[j])) implies capital_a@ == g1_point(
                fmul(
                    modr(#[trigger] log_sum(logs, ps.len() as int)),
                    finv(modr(d) as nat) as int,
                ) as nat,
            ) by {
                lemma_modr_idem(log_sum(logs, n));
                assert(sum_a == g1_point(modr(log_sum(logs, n)) as nat));
            }
        }
        ThresholdSignature { capital_a, e, s }
    }

    /// The signature `(A, e, s)` on `messages` computed with the secret key:
    /// `A = (g1 + h0 * s + sum_i h_i * m_i) / (sk + e)`.  For a key made for
    /// `sk`, it signs the messages.
    pub fn from_secret_key(
        pk: &PublicKey,
        sk: Scalar,
        e: Scalar,
        s: Scalar,
        messages: &Vec<Scalar>,
    ) -> (r: Self)
        requires
            messages.len() <= pk.h.len(),
            fadd(sk@ as int, e@ as int) != 0,
        ensures
            r.capital_a@ == g1_scaled(
                signed_basis(*pk, s, messages@),
                finv(fadd(sk@ as int, e@ as int) as nat),
            ),
            r.e == e,
            r.s == s,
            is_valid_key(*pk, sk@) ==> signs(r, messages@, *pk, sk@),
            pk.w@ == g2_point(sk@) ==> exists|alpha: nat|
                alpha < field_order() && r.capital_a@ == #[trigger] g1_point(alpha) && fmul(
                    alpha as int,
                    fadd(e@ as int, sk@ as int),
                ) == modr(
                    1 + g1_log(pk.h0@) as int * s@ as int + sum_range(
                        messages.len() as int,
                        |i: int| g1_log(pk.h@[i]@) as int * messages@[i]@ as int,
                    ),
                ),
    {
        let start = basis_start(pk, &s);
        let ghost start_log = fadd(1, fmul(g1_log(pk.h0@) as int, s@ as int)) as nat;
        let basis = accumulate_messages(start, &pk.h, messages, messages.len(), Ghost(start_log));
        let ske = scalar_add(&sk, &e);
        let inverse = scalar_inverse(&ske);
        let capital_a = match inverse {
            Some(expo) => g1_scalar_mul(&basis, &expo),
            None => basis,
        };
        let r = ThresholdSignature { capital_a, e, s };
        proof {
            if is_valid_key(*pk, sk@) {
                let x = finv(fadd(sk@ as int, e@ as int) as nat);
                let l = signed_log(*pk, s, messages@);
                lemma_modr_idem(1 + fmul(g1_log(pk.h0@) as int, s@ as int));
                lemma_message_log_bound(start_log, pk.h@, messages@, messages.len() as int);
                assert(basis@ == g1_point(l));
                let alpha = fmul(l as int, x as int);
                lemma_modr_idem(l as int * x as int);
                assert(capital_a@ == g1_point(alpha as nat));
                // alpha * (e + sk) = l * (x * (sk + e)) = l
                let k = sk@ as int + e@ as int;
                assert(fmul(k, x as int) == 1) by {
                    lemma_modr_mul(k, x as int);
                }
                lemma_modr_mul(l as int * x as int, e@ as int + sk@ as int);
                lemma_modr_mul(alpha, e@ as int + sk@ as int);
                assert((l as int * x as int) * (e@ as int + sk@ as int) == l as int * (k * x as int))
                    by (nonlinear_arith)
                    requires
                        k == sk@ as int + e@ as int,
                ;
                lemma_modr_mul(l as int, k * x as int);
                lemma_modr_small(l as int);
                assert(fmul(alpha, fadd(e@ as int, sk@ as int)) == l);
                assert(signs(r, messages@, *pk, sk@));
            }
        }
        proof {
            lemma_signed_log_sum(*pk, s, messages@);
            lemma_scalar_in_field(sk);
        }
        r
    }

    /// Checks `e(A, w + g2 * e) == e(g1 + h0 * s + sum_i h_i * m_i, g2)`.
    /// A signature that signs the messages for the key's secret key passes.
    pub fn verify(&self, messages: &Vec<Scalar>, pk: &PublicKey) -> (r: bool)
        requires
            messages.len() <= pk.h.len(),
        ensures
            r == (pairing_value(
                self.capital_a@,
                g2_sum(g2_scaled(g2_generator(), self.e@), pk.w@),
            ) == pairing_value(signed_basis(*pk, self.s, messages@), g2_generator())),
            forall|sk: nat| is_valid_key(*pk, sk) && #[trigger] signs(*self, messages@, *pk, sk) ==> r,
            forall|sk: nat, alpha: nat|
                sk < field_order() && pk.w@ == #[trigger] g2_point(sk) && alpha < field_order()
                    && self.capital_a@ == #[trigger] g1_point(alpha) && fmul(
                    alpha as int,
                    fadd(self.e@ as int, sk as int),
                ) == modr(
                    1 + g1_log(pk.h0@) as int * self.s@ as int + sum_range(
                        messages.len() as int,
                        |i: int| g1_log(pk.h@[i]@) as int * messages@[i]@ as int,
                    ),
                ) ==> r,
    {
        // basis for verification
        let start = basis_start(pk, &self.s);
        let ghost start_log = fadd(1, fmul(g1_log(pk.h0@) as int, self.s@ as int)) as nat;
        let verification_basis = accumulate_messages(
            start,
            &pk.h,
            messages,
            messages.len(),
            Ghost(start_log),
        );
        // u = g2 * e + w
        let g2 = g2_one();
        let ue = g2_scalar_mul(&g2, &self.e);
        let u = g2_add_points(&ue, &pk.w);
        let t1 = compute_pairing(&self.capital_a, &u);
        let g2b = g2_one();
        let t2 = compute_pairing(&verification_basis, &g2b);
        let r = gt_equal(&t1, &t2);
        proof {
            assert forall|sk: nat| is_valid_key(*pk, sk) && #[trigger] signs(
                *self,
                messages@,
                *pk,
                sk,
            ) implies r by {
                let alpha = choose|alpha: nat|
                    alpha < field_order() && self.capital_a@ == #[trigger] g1_point(alpha) && fmul(
                        alpha as int,
                        fadd(self.e@ as int, sk as int),
                    ) == signed_log(*pk, self.s, messages@);
                let l = signed_log(*pk, self.s, messages@);
                lemma_modr_idem(1 + fmul(g1_log(pk.h0@) as int, self.s@ as int));
                lemma_message_log_bound(start_log, pk.h@, messages@, messages.len() as int);
                assert(verification_basis@ == g1_point(l));
                lemma_modr_small(self.e@ as int);
                lemma_modr_small(1);
                assert(g2@ == g2_point(1));
                assert(ue@ == g2_point(fmul(1, self.e@ as int) as nat));
                assert(ue@ == g2_point(self.e@));
                let es = fadd(self.e@ as int, sk as int);
                lemma_modr_idem(self.e@ as int + sk as int);
                assert(u@ == g2_point(es as nat));
                assert(t1@ == pairing_value(g1_generator(), g2_point(fmul(alpha as int, es) as nat)));
                assert(g2b@ == g2_point(1));
                lemma_modr_small(l as int);
                assert(fmul(l as int, 1) == l);
                assert(t2@ == pairing_value(g1_generator(), g2_point(fmul(l as int, 1) as nat)));
            }
        }
        proof {
            lemma_signed_log_sum(*pk, self.s, messages@);
            assert forall|sk: nat, alpha: nat|
                sk < field_order() && pk.w@ == #[trigger] g2_point(sk) && alpha < field_order()
                    && self.capital_a@ == #[trigger] g1_point(alpha) && fmul(
                    alpha as int,
                    fadd(self.e@ as int, sk as int),
                ) == modr(
                    1 + g1_log(pk.h0@) as int * self.s@ as int + sum_range(
                        messages.len() as int,
                        |i: int| g1_log(pk.h@[i]@) as int * messages@[i]@ as int,
                    ),
                ) implies r by {
                assert(is_valid_key(*pk, sk));
                assert(signs(*self, messages@, *pk, sk));
            }
        }
        r
    }
}

/// A common factor `c` of all shares of `A` and of `delta` cancels in the
/// combination: with the shares of `A` the points `logs[i] * g1` and
/// `c * logs[i] * g1`, and the shares of `delta` multiplied by `c`, the
/// combined `A` is the same (both sums of `delta` being invertible, as
/// `from_partial_signatures` requires and ensures).
pub proof fn lemma_common_factor_cancels(
    ps: Seq<PartialThresholdSignature>,
    ps2: Seq<PartialThresholdSignature>,
    c: Scalar,
    logs: Seq<nat>,
    a1: Seq<u8>,
    a2: Seq<u8>,
)
    requires
        ps2.len() == ps.len(),
        logs.len() == ps.len(),
        forall|i: int|
            0 <= i < ps.len() ==> {
                &&& logs[i] < field_order()
                &&& (#[trigger] ps[i]).capital_a_share@ == g1_point(logs[i])
                &&& ps2[i].capital_a_share@ == g1_point(fmul(c@ as int, logs[i] as int) as nat)
                &&& ps2[i].delta_share@ == fmul(c@ as int, ps[i].delta_share@ as int)
            },
        fmul(
            modr(delta_sum(ps, ps.len() as int)),
            finv(modr(delta_sum(ps, ps.len() as int)) as nat) as int,
        ) == 1,
        fmul(
            modr(delta_sum(ps2, ps.len() as int)),
            finv(modr(delta_sum(ps2, ps.len() as int)) as nat) as int,
        ) == 1,
        combines_points(a1, ps),
        combines_points(a2, ps2),
    ensures
        a1 == a2,
{
    let n = ps.len() as int;
    let cc = c@ as int;
    let logs2 = Seq::new(logs.len(), |i: int| fmul(cc, logs[i] as int) as nat);
    assert forall|i: int| 0 <= i < n implies logs2[i] < field_order() && ps2[i].capital_a_share@
        == g1_point(#[trigger] logs2[i]) by {
        lemma_modr_idem(cc * logs[i] as int);
        assert(ps[i].capital_a_share@ == g1_point(logs[i]));
    }
    assert(logs2.len() == ps2.len());
    assert forall|i: int| 0 <= i < n implies logs[i] < field_order() && ps[i].capital_a_share@
        == g1_point(#[trigger] logs[i]) by {
        assert(ps[i].capital_a_share@ == g1_point(logs[i]));
    }
    let l = log_sum(logs, n);
    let l2 = log_sum(logs2, n);
    let d = delta_sum(ps, n);
    let d2 = delta_sum(ps2, n);
    let v = finv(modr(d) as nat) as int;
    let w = finv(modr(d2) as nat) as int;
    assert(a1 == g1_point(fmul(modr(l), v) as nat));
    assert(a2 == g1_point(fmul(modr(l2), w) as nat));
    // l2 = c * l and d2 = c * d modulo r
    let lf = |i: int| logs[i] as int;
    let l2f = |i: int| logs2[i] as int;
    let cl = |i: int| cc * logs[i] as int;
    assert forall|i: int| 0 <= i < n implies #[trigger] modr(l2f(i)) == modr(cl(i)) by {
        lemma_modr_idem(cc * logs[i] as int);
    }
    lemma_sum_congruent(n, l2f, cl);
    lemma_sum_scale(n, cl, cc, lf);
    assert(l == sum_range(n, lf));
    assert(l2 == sum_range(n, l2f));
    assert(modr(l2) == modr(cc * l));
    let df = |i: int| ps[i].delta_share@ as int;
    let d2f = |i: int| ps2[i].delta_share@ as int;
    let cd = |i: int| cc * ps[i].delta_share@ as int;
    assert forall|i: int| 0 <= i < n implies #[trigger] modr(d2f(i)) == modr(cd(i)) by {
        assert(ps[i].capital_a_share@ == g1_point(logs[i]));
        lemma_modr_idem(cc * ps[i].delta_share@ as int);
    }
    lemma_sum_congruent(n, d2f, cd);
    lemma_sum_scale(n, cd, cc, df);
    assert(modr(d2) == modr(cc * d));
    // u = c * w is an inverse of d, hence congruent to v
    let u = cc * w;
    lemma_modr_mul(d2, w);
    lemma_modr_mul(cc * d, w);
    assert(modr(cc * d * w) == 1);
    assert(cc * d * w == u * d) by (nonlinear_arith)
        requires
            u == cc * w,
    ;
    lemma_modr_mul(d, v);
    assert(modr(d * v) == 1);
    lemma_modr_mul(u, d * v);
    lemma_modr_mul(u * d, v);
    assert(u * (d * v) == (u * d) * v) by (nonlinear_arith);
    lemma_modr_small(1);
    lemma_modr_idem(v);
    assert(modr(u) == modr(v)) by {
        lemma_modr_mul(u, 1);
    }
    // hence c * l * w = l * u = l * v
    lemma_modr_mul(l2, w);
    lemma_modr_mul(cc * l, w);
    assert(cc * l * w == l * u) by (nonlinear_arith)
        requires
            u == cc * w,
    ;
    lemma_modr_mul(l, u);
    lemma_modr_mul(l, v);
    lemma_modr_mul(l, v);
    assert(fmul(modr(l2), w) == modr(l2 * w));
    assert(fmul(modr(l), v) == modr(l * v));
}

/// The order in which partial signatures arrive does not matter: for `ps2`
/// a permutation of `ps` (`ps2[i] = ps[perm[i]]`, with `inv` the inverse
/// permutation), the sums of the shares of `delta` and of `e` agree, and so
/// do the combined `A`s when the shares of `A` are points of G1.
pub proof fn lemma_combination_order(
    ps: Seq<PartialThresholdSignature>,
    ps2: Seq<PartialThresholdSignature>,
    perm: Seq<int>,
    inv: Seq<int>,
    logs: Seq<nat>,
    a1: Seq<u8>,
    a2: Seq<u8>,
)
    requires
        ps2.len() == ps.len(),
        perm.len() == ps.len(),
        inv.len() == ps.len(),
        forall|i: int| 0 <= i < ps.len() ==> 0 <= #[trigger] perm[i] < ps.len() && inv[perm[i]] == i,
        forall|k: int| 0 <= k < ps.len() ==> 0 <= #[trigger] inv[k] < ps.len() && perm[inv[k]] == k,
        forall|i: int| 0 <= i < ps.len() ==> #[trigger] ps2[i] == ps[perm[i]],
        logs.len() == ps.len(),
        forall|i: int|
            0 <= i < ps.len() ==> logs[i] < field_order() && (#[trigger] ps[i]).capital_a_share@
                == g1_point(logs[i]),
        combines_points(a1, ps),
        combines_points(a2, ps2),
    ensures
        delta_sum(ps2, ps.len() as int) == delta_sum(ps, ps.len() as int),
        e_sum(ps2, ps.len() as int) == e_sum(ps, ps.len() as int),
        a1 == a2,
{
    let n = ps.len() as int;
    let df = |k: int| ps[k].delta_share@ as int;
    let ef = |k: int| ps[k].e_share@ as int;
    let lf = |k: int| logs[k] as int;
    lemma_sum_permutation(n, df, perm, inv);
    lemma_sum_permutation(n, ef, perm, inv);
    lemma_sum_permutation(n, lf, perm, inv);
    lemma_sum_ext(n, |i: int| df(perm[i]), |i: int| ps2[i].delta_share@ as int);
    lemma_sum_ext(n, |i: int| ef(perm[i]), |i: int| ps2[i].e_share@ as int);
    let logs2 = Seq::new(logs.len(), |i: int| logs[perm[i]]);
    lemma_sum_ext(n, |i: int| lf(perm[i]), |i: int| logs2[i] as int);
    assert forall|i: int| 0 <= i < n implies logs2[i] < field_order() && ps2[i].capital_a_share@
        == g1_point(#[trigger] logs2[i]) by {
        let k = perm[i];
        assert(ps[k].capital_a_share@ == g1_point(logs[k]));
        assert(ps2[i] == ps[k]);
    }
    assert forall|i: int| 0 <= i < n implies logs[i] < field_order() && ps[i].capital_a_share@
        == g1_point(#[trigger] logs[i]) by {
        assert(ps[i].capital_a_share@ == g1_point(logs[i]));
    }
    assert(log_sum(logs2, n) == log_sum(logs, n));
    assert(a2 == g1_point(
        fmul(modr(log_sum(logs2, n)), finv(modr(delta_sum(ps2, n)) as nat) as int) as nat,
    ));
    assert(a1 == g1_point(
        fmul(modr(log_sum(logs, n)), finv(modr(delta_sum(ps, n)) as nat) as int) as nat,
    ));
}

} // verus!
