//! What calls of the prover and of the verifier give back, in terms of the polynomial, the
//! point and the transcript.
use crate::errors::NovaError;
use crate::modular::{cong, lemma_cong_add, lemma_cong_mul, lemma_reduce, lemma_small};
use crate::polynomial::{
    batch_poly, dot, folded, folded_polys, lemma_poly_cong, multilinear_eval, poly_eval, powers,
    witness_poly,
};
use crate::polynomial_laws::powers_multiply_up;
use crate::provider::kzg::{
    generated_powers, KZGCommitmentEngine, KZGProverKey, KZGVerifierKey, UniversalKZGParam,
};
use crate::provider::mlkzg::{
    evaluations, folded_comms, is_consistent, is_folded_at, is_unsat, lemma_poly_three,
    opening_points, proof_of, EvaluationArgument, EvaluationEngine,
};
use crate::provider::mlkzg_laws::honest_proof_is_accepted;
use crate::provider::pedersen::Commitment;
use crate::traits::{PairingEngine, TranscriptEngineTrait};
use crate::views::{points_bytes, rows, scalars_bytes, views, views2};
use vstd::arithmetic::power2::pow2;
use vstd::prelude::*;

verus! {

/// A claimed value is refused exactly when it is not the value that the polynomial has at
/// the point, in any number of variables.
pub proof fn false_claims_are_unsat(p: Seq<int>, x: Seq<int>, eval: int, m: int)
    requires
        m > 0,
        p.len() == pow2(x.len()),
        0 <= eval < m,
    ensures
        is_unsat(p, x, eval, m) <==> !cong(eval, multilinear_eval(p, x), m),
{
    lemma_small(eval, m);
    lemma_reduce(multilinear_eval(p, x), m);
}

/// The first challenge comes from the transcript once it has absorbed all the commitments.
pub proof fn compute_challenge_call<E: PairingEngine, TE: TranscriptEngineTrait<E>>(
    com: &[E::GE],
    t: &mut TE,
    r: E::Scalar,
)
    requires
        call_ensures(EvaluationEngine::<E, TE>::compute_challenge, (com, t), r),
    ensures
        ({
            let label = seq!['c' as u8];
            let bytes = points_bytes::<E>(Seq::new(com@.len(), |i: int| com@[i]@));
            &&& r@ == TE::challenge(TE::absorbed(old(t)@, label, bytes), label)
            &&& final(t)@ == TE::squeezed(TE::absorbed(old(t)@, label, bytes), label)
        }),
{
    assert(views(com@) =~= Seq::new(com@.len(), |i: int| com@[i]@));
    assert(seq!['c' as u8] =~= seq![0x63u8]);
}

/// The challenge for batching comes from the transcript once it has absorbed all the values,
/// row by row.
pub proof fn get_batch_challenge_call<E: PairingEngine, TE: TranscriptEngineTrait<E>>(
    v: &[Vec<E::Scalar>],
    t: &mut TE,
    r: E::Scalar,
)
    requires
        call_ensures(EvaluationEngine::<E, TE>::get_batch_challenge, (v, t), r),
    ensures
        ({
            let table = Seq::new(v@.len(), |i: int| Seq::new(v@[i]@.len(), |j: int| v@[i]@[j]@));
            let absorbed = TE::absorbed(
                old(t)@,
                seq!['v' as u8],
                scalars_bytes::<E>(rows(table)),
            );
            &&& r@ == TE::challenge(absorbed, seq!['r' as u8])
            &&& final(t)@ == TE::squeezed(absorbed, seq!['r' as u8])
        }),
{
    let table = Seq::new(v@.len(), |i: int| Seq::new(v@[i]@.len(), |j: int| v@[i]@[j]@));
    assert forall|i: int| 0 <= i < v@.len() implies views2(v@)[i] == table[i] by {
        assert(views2(v@)[i] =~= table[i]);
    }
    assert(views2(v@) =~= table);
    assert(seq!['v' as u8] =~= seq![0x76u8]);
    assert(seq!['r' as u8] =~= seq![0x72u8]);
}

/// The last challenge comes from the transcript once it has absorbed all the openings.
pub proof fn verifier_second_challenge_call<E: PairingEngine, TE: TranscriptEngineTrait<E>>(
    w: &[E::GE],
    t: &mut TE,
    r: E::Scalar,
)
    requires
        call_ensures(EvaluationEngine::<E, TE>::verifier_second_challenge, (w, t), r),
    ensures
        ({
            let bytes = points_bytes::<E>(Seq::new(w@.len(), |i: int| w@[i]@));
            let absorbed = TE::absorbed(old(t)@, seq!['W' as u8], bytes);
            &&& r@ == TE::challenge(absorbed, seq!['d' as u8])
            &&& final(t)@ == TE::squeezed(absorbed, seq!['d' as u8])
        }),
{
    assert(views(w@) =~= Seq::new(w@.len(), |i: int| w@[i]@));
    assert(seq!['W' as u8] =~= seq![0x57u8]);
    assert(seq!['d' as u8] =~= seq![0x64u8]);
}

/// The powers of a challenge start with 1, and each is the challenge times the one before.
pub proof fn batch_challenge_powers_call<E: PairingEngine, TE: TranscriptEngineTrait<E>>(
    q: E::Scalar,
    k: usize,
    r: Vec<E::Scalar>,
)
    requires
        call_ensures(EvaluationEngine::<E, TE>::batch_challenge_powers, (q, k), r),
    ensures
        r@.len() == k,
        k > 0 ==> r@[0]@ == 1,
        forall|i: int|
            0 < i < k ==> (#[trigger] r@[i])@ == (r@[i - 1]@ * q@) % E::order(),
{
    E::order_range();
    let p = powers(q@, k as nat, E::order());
    powers_multiply_up(q@, k as nat, E::order());
    assert(views(r@).len() == r@.len());
    if k > 0 {
        assert(views(r@)[0] == r@[0]@);
    }
    assert forall|i: int| 0 < i < k implies (#[trigger] r@[i])@ == (r@[i - 1]@ * q@)
        % E::order() by {
        assert(views(r@)[i] == r@[i]@);
        assert(views(r@)[i - 1] == r@[i - 1]@);
        assert(p[i] == (p[i - 1] * q@) % E::order());
    }
}

/// The keys hold all powers of the first group, and what the verifier needs.
pub proof fn setup_call<E: PairingEngine, TE: TranscriptEngineTrait<E>>(
    ck: &UniversalKZGParam<E>,
    r: (KZGProverKey<E>, KZGVerifierKey<E>),
)
    requires
        ck.powers_of_g@.len() >= 1,
        ck.powers_of_h@.len() >= 2,
        call_ensures(EvaluationEngine::<E, TE>::setup, (ck,), r),
    ensures
        r.0.powers_of_g@.len() == ck.powers_of_g@.len(),
        forall|i: int|
            0 <= i < ck.powers_of_g@.len() ==> (#[trigger] r.0.powers_of_g@[i])@
                == ck.powers_of_g@[i]@,
        r.1.g@ == ck.powers_of_g@[0]@,
        r.1.h@ == ck.powers_of_h@[0]@,
        r.1.beta_h@ == ck.powers_of_h@[1]@,
{
    let kept = views(r.0.powers_of_g@);
    assert(kept.len() == r.0.powers_of_g@.len());
    assert(r.1@.g == r.1.g@ && r.1@.h == r.1.h@ && r.1@.beta_h == r.1.beta_h@);
    assert forall|i: int| 0 <= i < ck.powers_of_g@.len() implies (#[trigger] r.0.powers_of_g@[i])@
        == ck.powers_of_g@[i]@ by {
        assert(kept[i] == r.0.powers_of_g@[i]@);
        assert(ck.g_logs()[i] == ck.powers_of_g@[i]@);
    }
}

/// A clone of a proof says the same.
pub proof fn argument_clone_call<E: PairingEngine>(
    pi: &EvaluationArgument<E>,
    r: EvaluationArgument<E>,
)
    requires
        call_ensures(<EvaluationArgument<E> as Clone>::clone, (pi,), r),
    ensures
        views(r.comms@) == views(pi.comms@),
        views(r.w@) == views(pi.w@),
        views2(r.evals@) == views2(pi.evals@),
        pi@.comms == views(pi.comms@),
        pi@.w == views(pi.w@),
        pi@.evals == views2(pi.evals@),
{
    assert(r@.comms == views(r.comms@));
    assert(r@.w == views(r.w@));
    assert(r@.evals == views2(r.evals@));
}

/// The prover refuses exactly the claims that are false, whatever the number of variables,
/// and leaves the transcript alone then.
pub proof fn prove_refuses_false_claims<E: PairingEngine, TE: TranscriptEngineTrait<E>>(
    ck: &UniversalKZGParam<E>,
    pk: &KZGProverKey<E>,
    t: &mut TE,
    c: &Commitment<E>,
    hat_p: &[E::Scalar],
    point: &[E::Scalar],
    eval: &E::Scalar,
    r: Result<EvaluationArgument<E>, NovaError>,
)
    requires
        hat_p@.len() == pow2(point@.len()),
        call_ensures(
            EvaluationEngine::<E, TE>::prove,
            (ck, pk, t, c, hat_p, point, eval),
            r,
        ),
    ensures
        r is Ok <==> eval@ == multilinear_eval(
            Seq::new(hat_p@.len(), |i: int| hat_p@[i]@),
            Seq::new(point@.len(), |i: int| point@[i]@),
        ) % E::order(),
        r is Err ==> r->Err_0 == NovaError::UnSat && final(t)@ == old(t)@,
{
    E::order_range();
    let (p, x) = (views(hat_p@), views(point@));
    assert(p =~= Seq::new(hat_p@.len(), |i: int| hat_p@[i]@));
    assert(x =~= Seq::new(point@.len(), |i: int| point@[i]@));
    E::scalar_view(*eval);
    lemma_small(eval@, E::order());
}

/// A proof holds the commitments to the polynomial with more and more of its last variables
/// set; the values of all these polynomials at `r`, `-r` and `r^2`, where `r` follows the
/// commitments; and, at each of these points, the commitment to the quotient of their batch,
/// where `q` follows the values. The transcript then absorbs the openings.
pub proof fn prove_sends<E: PairingEngine, TE: TranscriptEngineTrait<E>>(
    ck: &UniversalKZGParam<E>,
    pk: &KZGProverKey<E>,
    t: &mut TE,
    c: &Commitment<E>,
    hat_p: &[E::Scalar],
    point: &[E::Scalar],
    eval: &E::Scalar,
    pi: EvaluationArgument<E>,
)
    requires
        hat_p@.len() == pow2(point@.len()),
        call_ensures(
            EvaluationEngine::<E, TE>::prove,
            (ck, pk, t, c, hat_p, point, eval),
            Ok::<EvaluationArgument<E>, NovaError>(pi),
        ),
    ensures
        ({
            let m = E::order();
            let (p, x, g) = (views(hat_p@), views(point@), views(ck.powers_of_g@));
            let (comms, w, evals) = (views(pi.comms@), views(pi.w@), views2(pi.evals@));
            let a1 = TE::absorbed(old(t)@, seq!['c' as u8], points_bytes::<E>(comms));
            let r = TE::challenge(a1, seq!['c' as u8]);
            let t1 = TE::squeezed(a1, seq!['c' as u8]);
            let a2 = TE::absorbed(t1, seq!['v' as u8], scalars_bytes::<E>(rows(evals)));
            let q = TE::challenge(a2, seq!['r' as u8]);
            let t2 = TE::squeezed(a2, seq!['r' as u8]);
            let a3 = TE::absorbed(t2, seq!['W' as u8], points_bytes::<E>(w));
            let b = batch_poly(folded_polys(p, x, m), q, m);
            &&& comms.len() == x.len()
            &&& forall|i: int|
                0 <= i < x.len() ==> #[trigger] comms[i] == dot(
                    folded(p, x, (i + 1) as nat, m),
                    g,
                    folded(p, x, (i + 1) as nat, m).len(),
                ) % m
            &&& evals.len() == 3
            &&& evals[0].len() == x.len() + 1
            &&& evals[1].len() == x.len() + 1
            &&& evals[2].len() == x.len() + 1
            &&& forall|j: int|
                0 <= j <= x.len() ==> #[trigger] evals[0][j] == poly_eval(
                    folded(p, x, j as nat, m),
                    r,
                ) % m
            &&& forall|j: int|
                0 <= j <= x.len() ==> #[trigger] evals[1][j] == poly_eval(
                    folded(p, x, j as nat, m),
                    -r,
                ) % m
            &&& forall|j: int|
                0 <= j <= x.len() ==> #[trigger] evals[2][j] == poly_eval(
                    folded(p, x, j as nat, m),
                    r * r,
                ) % m
            &&& w.len() == 3
            &&& w[0] == dot(witness_poly(b, r, m), g, b.len()) % m
            &&& w[1] == dot(witness_poly(b, (-r) % m, m), g, b.len()) % m
            &&& w[2] == dot(witness_poly(b, (r * r) % m, m), g, b.len()) % m
            &&& final(t)@ == TE::squeezed(a3, seq!['d' as u8])
        }),
{
    E::order_range();
    let m = E::order();
    let (p, x, g) = (views(hat_p@), views(point@), ck.g_logs());
    let (comms, w, evals) = (pi@.comms, pi@.w, pi@.evals);
    assert(seq!['c' as u8] =~= seq![0x63u8]);
    assert(seq!['v' as u8] =~= seq![0x76u8]);
    assert(seq!['r' as u8] =~= seq![0x72u8]);
    assert(seq!['W' as u8] =~= seq![0x57u8]);
    assert(seq!['d' as u8] =~= seq![0x64u8]);
    let a1 = TE::absorbed(old(t)@, seq!['c' as u8], points_bytes::<E>(comms));
    let r = TE::challenge(a1, seq!['c' as u8]);
    let u = opening_points(r, m);
    let fs = folded_polys(p, x, m);
    assert((pi@, final(t)@) == proof_of::<E, TE>(g, old(t)@, p, x));
    assert(comms == folded_comms(g, p, x, m));
    assert(evals == evaluations(fs, u, m));
    lemma_reduce(-r, m);
    lemma_reduce(r * r, m);
    assert forall|j: int| 0 <= j <= x.len() implies #[trigger] evals[1][j] == poly_eval(
        folded(p, x, j as nat, m),
        -r,
    ) % m by {
        lemma_poly_cong(fs[j], fs[j], u[1], -r, m);
    }
    assert forall|j: int| 0 <= j <= x.len() implies #[trigger] evals[2][j] == poly_eval(
        folded(p, x, j as nat, m),
        r * r,
    ) % m by {
        lemma_poly_cong(fs[j], fs[j], u[2], r * r, m);
    }
}

/// The terms of the pairing check, added up with the powers of `d`, do not change when the
/// points are replaced by congruent ones.
proof fn lemma_terms_at_points(
    c_b: int,
    g: int,
    b: Seq<int>,
    w: Seq<int>,
    u: Seq<int>,
    v: Seq<int>,
    d: int,
    m: int,
)
    requires
        m > 0,
        b.len() == 3,
        w.len() >= 3,
        u.len() == 3,
        v.len() == 3,
        forall|t: int| 0 <= t < 3 ==> cong(#[trigger] u[t], v[t], m),
    ensures
        cong(
            poly_eval(Seq::new(3, |t: int| c_b - g * b[t] + w[t] * u[t]), d),
            (c_b - g * b[0] + w[0] * v[0]) + d * (c_b - g * b[1] + w[1] * v[1]) + d * d * (c_b - g
                * b[2] + w[2] * v[2]),
            m,
        ),
{
    let su = Seq::new(3, |t: int| c_b - g * b[t] + w[t] * u[t]);
    let sv = Seq::new(3, |t: int| c_b - g * b[t] + w[t] * v[t]);
    assert forall|t: int| 0 <= t < 3 implies cong(#[trigger] su[t], sv[t], m) by {
        assert(cong(u[t], v[t], m));
        lemma_cong_mul(w[t], w[t], u[t], v[t], m);
        lemma_cong_add(c_b - g * b[t], c_b - g * b[t], w[t] * u[t], w[t] * v[t], m);
    }
    lemma_poly_cong(su, sv, d, d, m);
    lemma_poly_three(sv, d);
}

/// The verifier accepts exactly when the challenge and the commitment are not 0, the values
/// form three rows of the right length that end in the claimed value, each polynomial is the
/// folded form of the one before, and the batched opening satisfies the pairing equation at
/// `r`, `-r` and `r^2`; the transcript ends after the challenges that were needed for that.
pub proof fn verify_accepts_exactly<E: PairingEngine, TE: TranscriptEngineTrait<E>>(
    vk: &KZGVerifierKey<E>,
    t: &mut TE,
    c: &Commitment<E>,
    point: &[E::Scalar],
    p_of_x: &E::Scalar,
    pi: &EvaluationArgument<E>,
    res: Result<(), NovaError>,
)
    requires
        call_ensures(EvaluationEngine::<E, TE>::verify, (vk, t, c, point, p_of_x, pi), res),
    ensures
        ({
            let m = E::order();
            let (x, y) = (views(point@), p_of_x@);
            let ell = x.len() as int;
            let (comms, w, evals) = (views(pi.comms@), views(pi.w@), views2(pi.evals@));
            let a1 = TE::absorbed(old(t)@, seq!['c' as u8], points_bytes::<E>(comms));
            let r = TE::challenge(a1, seq!['c' as u8]);
            let t1 = TE::squeezed(a1, seq!['c' as u8]);
            let a2 = TE::absorbed(t1, seq!['v' as u8], scalars_bytes::<E>(rows(evals)));
            let q = TE::challenge(a2, seq!['r' as u8]);
            let t2 = TE::squeezed(a2, seq!['r' as u8]);
            let a3 = TE::absorbed(t2, seq!['W' as u8], points_bytes::<E>(w));
            let d = TE::challenge(a3, seq!['d' as u8]);
            let shape = evals.len() == 3 && evals[0].len() == ell + 1 && evals[1].len() == ell + 1
                && evals[2].len() == ell + 1;
            let folds = forall|i: int|
                #![trigger evals[0][i]]
                0 <= i < ell ==> cong(
                    2 * r * evals[2][i + 1],
                    r * (1 - x[ell - 1 - i]) * (evals[0][i] + evals[1][i]) + x[ell - 1 - i] * (
                    evals[0][i] - evals[1][i]),
                    m,
                );
            let first = r != 0 && c.comm@ != 0 && shape && evals[2][ell] == y && folds;
            let c_b = poly_eval(seq![c.comm@] + comms, q);
            let l0 = c_b - vk.g@ * poly_eval(evals[0], q) + w[0] * r;
            let l1 = c_b - vk.g@ * poly_eval(evals[1], q) + w[1] * (-r);
            let l2 = c_b - vk.g@ * poly_eval(evals[2], q) + w[2] * (r * r);
            let pairing = cong(
                (l0 + d * l1 + d * d * l2) * vk.h@,
                (w[0] + d * w[1] + d * d * w[2]) * vk.beta_h@,
                m,
            );
            &&& w.len() >= 3 ==> (res is Ok <==> first && pairing)
            &&& res is Ok ==> first
            &&& res is Err ==> res->Err_0 == NovaError::ProofVerifyError
            &&& !first ==> final(t)@ == t1
            &&& first ==> final(t)@ == TE::squeezed(a3, seq!['d' as u8])
        }),
{
    E::order_range();
    let m = E::order();
    let (x, y) = (views(point@), p_of_x@);
    let ell = x.len() as int;
    let (comms, w, evals) = (pi@.comms, pi@.w, pi@.evals);
    assert(vk@.g == vk.g@ && vk@.h == vk.h@ && vk@.beta_h == vk.beta_h@);
    assert(c@ == c.comm@);
    assert(seq!['c' as u8] =~= seq![0x63u8]);
    assert(seq!['v' as u8] =~= seq![0x76u8]);
    assert(seq!['r' as u8] =~= seq![0x72u8]);
    assert(seq!['W' as u8] =~= seq![0x57u8]);
    assert(seq!['d' as u8] =~= seq![0x64u8]);
    let a1 = TE::absorbed(old(t)@, seq!['c' as u8], points_bytes::<E>(comms));
    let r = TE::challenge(a1, seq!['c' as u8]);
    let t1 = TE::squeezed(a1, seq!['c' as u8]);
    let a2 = TE::absorbed(t1, seq!['v' as u8], scalars_bytes::<E>(rows(evals)));
    let q = TE::challenge(a2, seq!['r' as u8]);
    let t2 = TE::squeezed(a2, seq!['r' as u8]);
    let a3 = TE::absorbed(t2, seq!['W' as u8], points_bytes::<E>(w));
    let d = TE::challenge(a3, seq!['d' as u8]);
    let shape = evals.len() == 3 && evals[0].len() == ell + 1 && evals[1].len() == ell + 1
        && evals[2].len() == ell + 1;
    let folds = forall|i: int|
        #![trigger evals[0][i]]
        0 <= i < ell ==> cong(
            2 * r * evals[2][i + 1],
            r * (1 - x[ell - 1 - i]) * (evals[0][i] + evals[1][i]) + x[ell - 1 - i] * (
            evals[0][i] - evals[1][i]),
            m,
        );
    if shape && evals[2][ell] == y {
        if is_consistent(x, y, r, evals, m) {
            assert forall|i: int|
                #![trigger evals[0][i]]
                0 <= i < ell implies cong(
                2 * r * evals[2][i + 1],
                r * (1 - x[ell - 1 - i]) * (evals[0][i] + evals[1][i]) + x[ell - 1 - i] * (
                evals[0][i] - evals[1][i]),
                m,
            ) by {
                assert(is_folded_at(x, r, evals, i, m));
            }
        } else {
            let i = choose|i: int| 0 <= i < ell && !#[trigger] is_folded_at(x, r, evals, i, m);
            assert(!is_folded_at(x, r, evals, i, m));
            assert(evals[0][i] == evals[0][i]);
        }
    }
    let c_b = poly_eval(seq![c.comm@] + comms, q);
    let b = Seq::new(3, |t: int| poly_eval(evals[t], q));
    let u = opening_points(r, m);
    let v = seq![r, -r, r * r];
    lemma_reduce(-r, m);
    lemma_reduce(r * r, m);
    assert forall|t: int| 0 <= t < 3 implies cong(#[trigger] u[t], v[t], m) by {}
    if w.len() >= 3 {
        lemma_terms_at_points(c_b, vk.g@, b, w, u, v, d, m);
        lemma_poly_three(w.take(3), d);
    }
    let terms = Seq::new(3, |t: int| c_b - vk.g@ * b[t] + w[t] * u[t]);
    let spec_terms = Seq::new(3, |t: int| c_b - vk.g@ * poly_eval(evals[t], q) + w[t] * u[t]);
    assert(terms =~= spec_terms);
    let left = poly_eval(terms, d);
    let direct = (c_b - vk.g@ * b[0] + w[0] * v[0]) + d * (c_b - vk.g@ * b[1] + w[1] * v[1]) + d * d
        * (c_b - vk.g@ * b[2] + w[2] * v[2]);
    if w.len() >= 3 {
        lemma_cong_mul(left, direct, vk.h@, vk.h@, m);
    }
}

/// Proving and verifying: with generated parameters and the keys and the commitment made
/// from them, a proof that the prover makes is accepted by a verifier whose transcript
/// starts in the same state, and both transcripts end in the same state. This needs a
/// commitment that is not the identity and a first challenge that is not 0.
pub proof fn proofs_verify<E: PairingEngine, TE: TranscriptEngineTrait<E>>(
    beta: &E::Scalar,
    g: &E::GE,
    h: &E::GE2,
    max_degree: usize,
    ck: &UniversalKZGParam<E>,
    keys: (KZGProverKey<E>, KZGVerifierKey<E>),
    c: &Commitment<E>,
    hat_p: &[E::Scalar],
    point: &[E::Scalar],
    eval: &E::Scalar,
    tp: &mut TE,
    pi: &EvaluationArgument<E>,
    tv: &mut TE,
    res: Result<(), NovaError>,
)
    requires
        1 <= max_degree,
        hat_p@.len() == pow2(point@.len()),
        hat_p@.len() <= max_degree + 1,
        call_ensures(UniversalKZGParam::<E>::gen_srs, (beta, g, h, max_degree), *ck),
        call_ensures(EvaluationEngine::<E, TE>::setup, (ck,), keys),
        call_ensures(KZGCommitmentEngine::<E>::commit, (ck, hat_p), *c),
        call_ensures(
            EvaluationEngine::<E, TE>::prove,
            (ck, &keys.0, tp, c, hat_p, point, eval),
            Ok::<EvaluationArgument<E>, NovaError>(*pi),
        ),
        old(tv)@ == old(tp)@,
        call_ensures(
            EvaluationEngine::<E, TE>::verify,
            (&keys.1, tv, c, point, eval, pi),
            res,
        ),
        c.comm@ != 0,
        TE::challenge(
            TE::absorbed(old(tp)@, seq!['c' as u8], points_bytes::<E>(views(pi.comms@))),
            seq!['c' as u8],
        ) != 0,
    ensures
        res is Ok,
        final(tv)@ == final(tp)@,
{
    E::order_range();
    let m = E::order();
    let (p, x) = (views(hat_p@), views(point@));
    assert(seq!['c' as u8] =~= seq![0x63u8]);
    generated_powers(g@, beta@, max_degree + 1, m);
    generated_powers(h@, beta@, max_degree + 1, m);
    assert((pi@, final(tp)@) == proof_of::<E, TE>(ck.g_logs(), old(tp)@, p, x));
    assert(pi@.comms == folded_comms(ck.g_logs(), p, x, m));
    honest_proof_is_accepted::<E, TE>(ck.g_logs(), ck.h_logs(), beta@, old(tp)@, p, x);
}

} // verus!
