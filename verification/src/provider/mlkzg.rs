//! An evaluation argument for committed multilinear polynomials, on top of KZG.
//!
//! A multilinear polynomial in `ell` variables is given by its values on the corners of
//! the cube, which are also the coefficients of a univariate polynomial `f_0`. Setting one
//! variable after the other to the coordinates of the point gives univariate polynomials
//! `f_1, ..., f_ell`, each with half the coefficients of the one before; the last one is
//! the claimed value. The prover commits to them and opens all at `r`, `-r` and `r^2`.
use crate::errors::NovaError;
use crate::modular::{
    cong, lemma_cong_add, lemma_cong_mul, lemma_cong_sub, lemma_cong_zero, lemma_difference_of,
    lemma_product_of, lemma_reduce, lemma_small, lemma_sum_of,
};
use crate::polynomial::{
    batch_poly, dot, folded, folded_polys, folding_evaluates, lemma_dot_first, lemma_dot_powers,
    lemma_folded_len, multilinear_eval, poly_eval, powers, witness_poly,
};
use crate::provider::arithmetic::{commit_log, inner_product, vartime_multiscalar_mul};
use crate::provider::kzg::{
    lemma_pow_next, KZGCommitmentEngine, KZGProverKey, KZGVerifierKey, UniversalKZGParam,
    VerifierKeyView,
};
use crate::provider::pedersen::Commitment;
use crate::provider::univariate::{
    compute_batch_polynomial, compute_witness_polynomial, evaluate, fold,
};
use crate::traits::{concat_bytes, Engine, Len, PairingEngine, TranscriptEngineTrait};
use crate::views::{
    lemma_points_bytes, lemma_scalars_bytes, points_bytes, rows, scalars_bytes, views, views2,
};
use core::marker::PhantomData;
use vstd::arithmetic::power::{lemma_pow0, pow};
use vstd::arithmetic::power2::{lemma_pow2_strictly_increases, pow2};
use vstd::prelude::*;
use vstd::slice::{slice_subrange, slice_to_vec};

verus! {

/// A proof of the value of a committed polynomial at a point.
#[derive(Debug)]
pub struct EvaluationArgument<E: Engine> {
    /// The commitments to the folded polynomials.
    pub comms: Vec<E::GE>,
    /// The commitments to the quotients of the batched polynomial, one for each point.
    pub w: Vec<E::GE>,
    /// For each point, the values of the polynomials at it.
    pub evals: Vec<Vec<E::Scalar>>,
}

/// What a proof says: the logarithms of its commitments, and its values.
#[verifier::ext_equal]
pub struct ArgumentView {
    pub comms: Seq<int>,
    pub w: Seq<int>,
    pub evals: Seq<Seq<int>>,
}

impl<E: Engine> View for EvaluationArgument<E> {
    type V = ArgumentView;

    open spec fn view(&self) -> ArgumentView {
        ArgumentView {
            comms: views(self.comms@),
            w: views(self.w@),
            evals: views2(self.evals@),
        }
    }
}

impl<E: Engine> Clone for EvaluationArgument<E> {
    fn clone(&self) -> (r: Self)
        ensures
            r@ == self@,
    {
        let mut evals: Vec<Vec<E::Scalar>> = Vec::new();
        let mut i: usize = 0;
        while i < self.evals.len()
            invariant
                i <= self.evals@.len(),
                views2(evals@) == views2(self.evals@).take(i as int),
            decreases self.evals@.len() - i,
        {
            let row = slice_to_vec(self.evals[i].as_slice());
            let ghost before = evals@;
            evals.push(row);
            assert(views2(evals@) =~= views2(before).push(views(row@)));
            assert(views2(self.evals@).take(i + 1) =~= views2(self.evals@).take(i as int).push(
                views(row@),
            ));
            i = i + 1;
        }
        assert(views2(self.evals@).take(i as int) =~= views2(self.evals@));
        EvaluationArgument {
            comms: slice_to_vec(self.comms.as_slice()),
            w: slice_to_vec(self.w.as_slice()),
            evals,
        }
    }
}

/// The next challenge of the transcript `t` once it has absorbed `bytes`, and the
/// transcript after that.
pub open spec fn asked<E: Engine, TE: TranscriptEngineTrait<E>>(
    t: TE::V,
    absorb_label: Seq<u8>,
    bytes: Seq<u8>,
    squeeze_label: Seq<u8>,
) -> (int, TE::V) {
    let absorbed = TE::absorbed(t, absorb_label, bytes);
    (TE::challenge(absorbed, squeeze_label), TE::squeezed(absorbed, squeeze_label))
}

/// The challenge `r` that follows the commitments to the folded polynomials.
pub open spec fn comms_challenge<E: Engine, TE: TranscriptEngineTrait<E>>(
    t: TE::V,
    comms: Seq<int>,
) -> (int, TE::V) {
    asked::<E, TE>(t, seq![0x63u8], points_bytes::<E>(comms), seq![0x63u8])
}

/// The challenge `q` that follows the values of the polynomials.
pub open spec fn batch_challenge<E: Engine, TE: TranscriptEngineTrait<E>>(
    t: TE::V,
    evals: Seq<Seq<int>>,
) -> (int, TE::V) {
    asked::<E, TE>(t, seq![0x76u8], scalars_bytes::<E>(rows(evals)), seq![0x72u8])
}

/// The challenge `d` that follows the commitments to the quotients.
pub open spec fn second_challenge<E: Engine, TE: TranscriptEngineTrait<E>>(
    t: TE::V,
    w: Seq<int>,
) -> (int, TE::V) {
    asked::<E, TE>(t, seq![0x57u8], points_bytes::<E>(w), seq![0x64u8])
}

/// The points at which the polynomials are opened.
pub open spec fn opening_points(r: int, m: int) -> Seq<int> {
    seq![r, (-r) % m, (r * r) % m]
}

/// The commitment to the quotient of `f` by `X - u`.
pub open spec fn opening(g: Seq<int>, f: Seq<int>, u: int, m: int) -> int {
    commit_log(g, witness_poly(f, u, m), m)
}

/// For each of the points `u`, the values of the polynomials at it.
pub open spec fn evaluations(polys: Seq<Seq<int>>, u: Seq<int>, m: int) -> Seq<Seq<int>> {
    Seq::new(u.len(), |t: int| Seq::new(polys.len(), |j: int| poly_eval(polys[j], u[t]) % m))
}

/// The commitments to the folded polynomials, but for the first one.
pub open spec fn folded_comms(g: Seq<int>, p: Seq<int>, x: Seq<int>, m: int) -> Seq<int> {
    Seq::new(x.len(), |i: int| commit_log(g, folded(p, x, (i + 1) as nat, m), m))
}

/// The openings of the batched polynomial, one for each of the points `u`.
pub open spec fn batch_openings(
    g: Seq<int>,
    polys: Seq<Seq<int>>,
    q: int,
    u: Seq<int>,
    m: int,
) -> Seq<int> {
    Seq::new(u.len(), |t: int| opening(g, batch_poly(polys, q, m), u[t], m))
}

/// The proof that the multilinear polynomial with values `p` has its value at `x`, made
/// with the powers `g` and the transcript `t`; and the transcript after that.
pub open spec fn proof_of<E: Engine, TE: TranscriptEngineTrait<E>>(
    g: Seq<int>,
    t: TE::V,
    p: Seq<int>,
    x: Seq<int>,
) -> (ArgumentView, TE::V) {
    let m = E::order();
    let polys = folded_polys(p, x, m);
    let comms = folded_comms(g, p, x, m);
    let (r, t1) = comms_challenge::<E, TE>(t, comms);
    let u = opening_points(r, m);
    let evals = evaluations(polys, u, m);
    let (q, t2) = batch_challenge::<E, TE>(t1, evals);
    let w = batch_openings(g, polys, q, u, m);
    let (d, t3) = second_challenge::<E, TE>(t2, w);
    (ArgumentView { comms, w, evals }, t3)
}

/// The claimed value is not the one that the multilinear polynomial has at the point.
pub open spec fn is_unsat(p: Seq<int>, x: Seq<int>, eval: int, m: int) -> bool {
    eval != multilinear_eval(p, x) % m
}

/// The values of the proof fit together: there is a row for each point, the last folded
/// polynomial is the claimed value, and each one is the folded form of the one before.
pub open spec fn is_consistent(
    x: Seq<int>,
    y: int,
    r: int,
    evals: Seq<Seq<int>>,
    m: int,
) -> bool {
    let ell = x.len() as int;
    &&& evals.len() == 3
    &&& evals[0].len() == ell + 1
    &&& evals[1].len() == ell + 1
    &&& evals[2].len() == ell + 1
    &&& evals[2][ell] == y
    &&& forall|i: int| 0 <= i < ell ==> #[trigger] is_folded_at(x, r, evals, i, m)
}

/// The value at `r^2` of the folded polynomial `i + 1` is the one that the values at `r`
/// and `-r` of the polynomial `i` give.
pub open spec fn is_folded_at(
    x: Seq<int>,
    r: int,
    evals: Seq<Seq<int>>,
    i: int,
    m: int,
) -> bool {
    let xi = x[x.len() - i - 1];
    cong(
        2 * r * evals[2][i + 1],
        r * (1 - xi) * (evals[0][i] + evals[1][i]) + xi * (evals[0][i] - evals[1][i]),
        m,
    )
}

/// The checks that come before the commitments are looked at.
pub open spec fn passes_first_checks(
    c: int,
    x: Seq<int>,
    y: int,
    r: int,
    evals: Seq<Seq<int>>,
    m: int,
) -> bool {
    r != 0 && c != 0 && is_consistent(x, y, r, evals, m)
}

/// The pairing check of the openings of the batched polynomial at three points: for each
/// point `u` the commitment `w` is that of the quotient by `X - u`.
pub open spec fn batch_check(
    vk: VerifierKeyView,
    coms: Seq<int>,
    w: Seq<int>,
    u: Seq<int>,
    evals: Seq<Seq<int>>,
    q: int,
    d: int,
    m: int,
) -> bool {
    let c_b = poly_eval(coms, q);
    let terms = Seq::new(3, |t: int| c_b - vk.g * poly_eval(evals[t], q) + w[t] * u[t]);
    let left = poly_eval(terms, d);
    let right = poly_eval(w.take(3), d);
    cong(left * vk.h, right * vk.beta_h, m)
}

/// Whether the proof shows that the polynomial committed to by `c` has the value `y` at
/// `x`; and the transcript after the check.
pub open spec fn verdict<E: Engine, TE: TranscriptEngineTrait<E>>(
    vk: VerifierKeyView,
    t: TE::V,
    c: int,
    x: Seq<int>,
    y: int,
    pi: ArgumentView,
) -> (bool, TE::V) {
    let m = E::order();
    let (r, t1) = comms_challenge::<E, TE>(t, pi.comms);
    if passes_first_checks(c, x, y, r, pi.evals, m) {
        let (q, t2) = batch_challenge::<E, TE>(t1, pi.evals);
        let (d, t3) = second_challenge::<E, TE>(t2, pi.w);
        let coms = seq![c] + pi.comms;
        (batch_check(vk, coms, pi.w, opening_points(r, m), pi.evals, q, d, m), t3)
    } else {
        (false, t1)
    }
}

/// Provides proofs of evaluations, by the pairing of `E` and a transcript `TE`.
#[derive(Debug)]
pub struct EvaluationEngine<E: PairingEngine, TE: TranscriptEngineTrait<E>> {
    pub _p: PhantomData<(E, TE)>,
}

impl<E: PairingEngine, TE: TranscriptEngineTrait<E>> Clone for EvaluationEngine<E, TE> {
    fn clone(&self) -> (r: Self)
        ensures
            r == *self,
    {
        EvaluationEngine { _p: PhantomData }
    }
}

impl<E: PairingEngine, TE: TranscriptEngineTrait<E>> EvaluationEngine<E, TE> {
    /// Absorbs the commitments and gives out the challenge that follows.
    pub fn compute_challenge(com: &[E::GE], transcript: &mut TE) -> (r: E::Scalar)
        requires
            TE::remaining(old(transcript)@) >= 1,
        ensures
            (r@, final(transcript)@) == comms_challenge::<E, TE>(
                old(transcript)@,
                views(com@),
            ),
    {
        let label: [u8; 1] = [0x63u8];
        let com = slice_to_vec(com);
        proof {
            assert(label@ =~= seq![0x63u8]);
            lemma_points_bytes::<E>(com@);
            TE::remaining_absorbed(transcript@, label@, points_bytes::<E>(views(com@)));
        }
        transcript.absorb(&label, &com);
        transcript.squeeze(&label).unwrap()
    }

    /// Absorbs the values, one row after the other, and gives out the challenge that
    /// follows.
    pub fn get_batch_challenge(v: &[Vec<E::Scalar>], transcript: &mut TE) -> (r: E::Scalar)
        requires
            TE::remaining(old(transcript)@) >= 1,
        ensures
            (r@, final(transcript)@) == batch_challenge::<E, TE>(
                old(transcript)@,
                views2(v@),
            ),
    {
        let absorb_label: [u8; 1] = [0x76u8];
        let squeeze_label: [u8; 1] = [0x72u8];
        let mut flat: Vec<E::Scalar> = Vec::new();
        let mut i: usize = 0;
        while i < v.len()
            invariant
                i <= v.len(),
                views(flat@) == rows(views2(v@).take(i as int)),
            decreases v.len() - i,
        {
            let mut row = slice_to_vec(v[i].as_slice());
            let ghost before = flat@;
            let ghost row_before = row@;
            flat.append(&mut row);
            assert(views(flat@) =~= views(before) + views(row_before));
            assert(views2(v@).take(i + 1).drop_last() =~= views2(v@).take(i as int));
            assert(views(row_before) =~= views2(v@).take(i + 1).last());
            i = i + 1;
        }
        proof {
            assert(views2(v@).take(i as int) =~= views2(v@));
            assert(absorb_label@ =~= seq![0x76u8]);
            assert(squeeze_label@ =~= seq![0x72u8]);
            lemma_scalars_bytes::<E>(flat@);
            TE::remaining_absorbed(transcript@, absorb_label@, concat_bytes(flat@));
        }
        transcript.absorb(&absorb_label, &flat);
        transcript.squeeze(&squeeze_label).unwrap()
    }

    /// The powers `1, q, q^2, ..., q^(k - 1)`.
    pub fn batch_challenge_powers(q: E::Scalar, k: usize) -> (r: Vec<E::Scalar>)
        ensures
            views(r@) == powers(q@, k as nat, E::order()),
    {
        let ghost m = E::order();
        let ghost p = powers(q@, k as nat, m);
        let mut r: Vec<E::Scalar> = Vec::new();
        let mut power = E::scalar_from(1);
        proof {
            E::order_range();
            lemma_pow0(q@);
        }
        let mut i: usize = 0;
        while i < k
            invariant
                i <= k,
                m == E::order(),
                m > 1,
                p == powers(q@, k as nat, m),
                power@ == pow(q@, i as nat) % m,
                views(r@) == p.take(i as int),
            decreases k - i,
        {
            let ghost before = r@;
            r.push(power);
            proof {
                assert(views(r@) =~= views(before).push(power@));
                assert(p.take(i + 1) =~= p.take(i as int).push(power@));
                let b = pow(q@, i as nat);
                lemma_reduce(b, m);
                lemma_cong_mul(power@, b, q@, q@, m);
                lemma_pow_next(q@, i as nat);
            }
            power = E::scalar_mul(&power, &q);
            i = i + 1;
        }
        assert(p.take(i as int) =~= p);
        r
    }

    /// Absorbs the commitments to the quotients and gives out the challenge that follows.
    pub fn verifier_second_challenge(w: &[E::GE], transcript: &mut TE) -> (r: E::Scalar)
        requires
            TE::remaining(old(transcript)@) >= 1,
        ensures
            (r@, final(transcript)@) == second_challenge::<E, TE>(
                old(transcript)@,
                views(w@),
            ),
    {
        let absorb_label: [u8; 1] = [0x57u8];
        let squeeze_label: [u8; 1] = [0x64u8];
        let w = slice_to_vec(w);
        proof {
            assert(absorb_label@ =~= seq![0x57u8]);
            assert(squeeze_label@ =~= seq![0x64u8]);
            lemma_points_bytes::<E>(w@);
            TE::remaining_absorbed(transcript@, absorb_label@, concat_bytes(w@));
        }
        transcript.absorb(&absorb_label, &w);
        transcript.squeeze(&squeeze_label).unwrap()
    }

    /// The keys for polynomials as long as the parameters allow.
    pub fn setup(ck: &UniversalKZGParam<E>) -> (r: (KZGProverKey<E>, KZGVerifierKey<E>))
        requires
            ck.g_logs().len() >= 1,
            ck.h_logs().len() >= 2,
        ensures
            views(r.0.powers_of_g@) == ck.g_logs(),
            r.1@ == (VerifierKeyView {
                g: ck.g_logs()[0],
                h: ck.h_logs()[0],
                beta_h: ck.h_logs()[1],
            }),
    {
        assert(ck.g_logs().take(ck.g_logs().len() as int) =~= ck.g_logs());
        ck.trim(ck.length() - 1)
    }

    /// Commits to the quotient of `f` by `X - u`.
    fn kzg_open(ck: &UniversalKZGParam<E>, f: &[E::Scalar], u: &E::Scalar) -> (r: E::GE)
        requires
            ck.g_logs().len() >= f@.len(),
        ensures
            r@ == opening(ck.g_logs(), views(f@), u@, E::order()),
    {
        let h = compute_witness_polynomial::<E>(f, u);
        assert(views(h@).len() == f@.len());
        KZGCommitmentEngine::<E>::commit(ck, h.as_slice()).comm
    }

    /// Evaluates the polynomials at the points, and opens their batch at each.
    fn kzg_open_batch(
        ck: &UniversalKZGParam<E>,
        f: &[Vec<E::Scalar>],
        u: &[E::Scalar],
        transcript: &mut TE,
    ) -> (r: (Vec<E::GE>, Vec<Vec<E::Scalar>>))
        requires
            f@.len() > 0,
            forall|i: int| 0 <= i < f@.len() ==> (#[trigger] f@[i])@.len() <= f@[0]@.len(),
            ck.g_logs().len() >= f@[0]@.len(),
            TE::remaining(old(transcript)@) >= 2,
        ensures
            views2(r.1@) == evaluations(views2(f@), views(u@), E::order()),
            ({
                let (q, t) = batch_challenge::<E, TE>(old(transcript)@, views2(r.1@));
                &&& views(r.0@) == batch_openings(
                    ck.g_logs(),
                    views2(f@),
                    q,
                    views(u@),
                    E::order(),
                )
                &&& final(transcript)@ == second_challenge::<E, TE>(t, views(r.0@)).1
            }),
    {
        let ghost m = E::order();
        let ghost fs = views2(f@);
        let ghost us = views(u@);
        let ghost ev = evaluations(fs, us, m);
        let mut v: Vec<Vec<E::Scalar>> = Vec::new();
        let mut i: usize = 0;
        while i < u.len()
            invariant
                i <= u@.len(),
                m == E::order(),
                fs == views2(f@),
                us == views(u@),
                ev == evaluations(fs, us, m),
                views2(v@) == ev.take(i as int),
            decreases u@.len() - i,
        {
            let mut row: Vec<E::Scalar> = Vec::new();
            let mut j: usize = 0;
            while j < f.len()
                invariant
                    i < u@.len(),
                    j <= f@.len(),
                    m == E::order(),
                    fs == views2(f@),
                    us == views(u@),
                    ev == evaluations(fs, us, m),
                    views(row@) == ev[i as int].take(j as int),
                decreases f@.len() - j,
            {
                let value = evaluate::<E>(f[j].as_slice(), &u[i]);
                let ghost before = row@;
                row.push(value);
                assert(fs[j as int] == views(f@[j as int]@));
                assert(ev[i as int][j as int] == value@);
                assert(views(row@) =~= views(before).push(value@));
                assert(ev[i as int].take(j + 1) =~= ev[i as int].take(j as int).push(value@));
                j = j + 1;
            }
            let ghost before = v@;
            assert(ev[i as int].take(j as int) =~= ev[i as int]);
            v.push(row);
            assert(views2(v@) =~= views2(before).push(views(row@)));
            assert(ev.take(i + 1) =~= ev.take(i as int).push(ev[i as int]));
            i = i + 1;
        }
        assert(ev.take(i as int) =~= ev);
        let ghost t0 = transcript@;
        let q = Self::get_batch_challenge(v.as_slice(), transcript);
        proof {
            lemma_asked_remaining::<E, TE>(
                t0,
                seq![0x76u8],
                scalars_bytes::<E>(rows(ev)),
                seq![0x72u8],
            );
        }
        let q_powers = Self::batch_challenge_powers(q, f.len());
        let b = compute_batch_polynomial::<E>(f, &q, q_powers.as_slice());
        assert(views(b@).len() == f@[0]@.len());
        let ghost ws = batch_openings(ck.g_logs(), fs, q@, us, m);
        let mut w: Vec<E::GE> = Vec::new();
        let mut k: usize = 0;
        while k < u.len()
            invariant
                k <= u@.len(),
                m == E::order(),
                us == views(u@),
                ck.g_logs().len() >= b@.len(),
                views(b@) == batch_poly(fs, q@, m),
                ws == batch_openings(ck.g_logs(), fs, q@, us, m),
                views(w@) == ws.take(k as int),
            decreases u@.len() - k,
        {
            let wk = Self::kzg_open(ck, b.as_slice(), &u[k]);
            let ghost before = w@;
            w.push(wk);
            assert(views(w@) =~= views(before).push(wk@));
            assert(ws.take(k + 1) =~= ws.take(k as int).push(wk@));
            k = k + 1;
        }
        assert(ws.take(k as int) =~= ws);
        // The challenge keeps the transcript in the same state as the verifier's.
        let _d = Self::verifier_second_challenge(w.as_slice(), transcript);
        (w, v)
    }

    /// Proves that the multilinear polynomial with values `hat_p`, to which `_c` is the
    /// commitment, has the value `eval` at the point.
    ///
    /// Fails, and leaves the transcript as it is, when the polynomial has another value.
    pub fn prove(
        ck: &UniversalKZGParam<E>,
        _pk: &KZGProverKey<E>,
        transcript: &mut TE,
        _c: &Commitment<E>,
        hat_p: &[E::Scalar],
        point: &[E::Scalar],
        eval: &E::Scalar,
    ) -> (r: Result<EvaluationArgument<E>, NovaError>)
        requires
            hat_p@.len() == pow2(point@.len()),
            !is_unsat(views(hat_p@), views(point@), eval@, E::order()) ==> ck.g_logs().len()
                >= hat_p@.len() && TE::remaining(old(transcript)@) >= 3,
        ensures
            is_unsat(views(hat_p@), views(point@), eval@, E::order()) ==> r == Err::<
                EvaluationArgument<E>,
                NovaError,
            >(NovaError::UnSat) && final(transcript)@ == old(transcript)@,
            !is_unsat(views(hat_p@), views(point@), eval@, E::order()) ==> r is Ok && (
            r->Ok_0@,
            final(transcript)@,
            ) == proof_of::<E, TE>(
                ck.g_logs(),
                old(transcript)@,
                views(hat_p@),
                views(point@),
            ),
    {
        let ghost m = E::order();
        let ghost p = views(hat_p@);
        let ghost x = views(point@);
        let ghost fs = folded_polys(p, x, m);
        let ghost t0 = transcript@;
        proof {
            E::order_range();
            folding_evaluates(p, x, m);
        }
        let ell: usize = point.len();

        // Fold the polynomial, one variable after the other.
        let mut polys: Vec<Vec<E::Scalar>> = Vec::new();
        polys.push(slice_to_vec(hat_p));
        assert(views2(polys@) =~= fs.take(1));
        let mut i: usize = 0;
        while i < ell
            invariant
                i <= ell,
                ell == point@.len(),
                m == E::order(),
                m > 1,
                p == views(hat_p@),
                x == views(point@),
                p.len() == pow2(x.len()),
                fs == folded_polys(p, x, m),
                views2(polys@) == fs.take(i + 1),
            decreases ell - i,
        {
            assert(views2(polys@).len() == i + 1);
            assert(views2(polys@)[i as int] == fs[i as int]);
            let pi = fold::<E>(polys[i].as_slice(), &point[ell - i - 1]);
            assert(views(pi@) == folded(p, x, (i + 1) as nat, m));
            let ghost before = polys@;
            polys.push(pi);
            assert(views2(polys@) =~= views2(before).push(views(pi@)));
            assert(fs.take(i + 2) =~= fs.take(i + 1).push(fs[i + 1]));
            i = i + 1;
        }
        assert(fs.take(ell + 1) =~= fs);

        // All variables are set: what is left is the value at the point.
        assert(views2(polys@)[ell as int] == fs[ell as int]);
        let value = polys[ell][0];
        proof {
            assert(value@ == fs[ell as int][0]);
            E::scalar_view(value);
            lemma_small(value@, m);
        }
        if !E::scalar_eq(eval, &value) {
            return Err(NovaError::UnSat);
        }
        proof {
            assert forall|k: int| 0 <= k < polys@.len() implies (#[trigger] polys@[k])@.len()
                <= polys@[0]@.len() by {
                assert(views2(polys@)[k] == views(polys@[k]@));
                assert(views2(polys@)[0] == views(polys@[0]@));
                lemma_folded_len(p, x, k as nat, m);
                if k > 0 {
                    lemma_pow2_strictly_increases((ell - k) as nat, ell as nat);
                }
            }
        }

        assert(views2(polys@)[0] == views(polys@[0]@));
        assert(fs[0] == p);

        // Commit to the folded polynomials. The first one is committed already.
        let ghost cs = folded_comms(ck.g_logs(), p, x, m);
        let mut comms: Vec<E::GE> = Vec::new();
        let mut k: usize = 0;
        while k < ell
            invariant
                k <= ell,
                ell == point@.len(),
                m == E::order(),
                x == views(point@),
                fs == folded_polys(p, x, m),
                views2(polys@) == fs,
                p == views(hat_p@),
                ck.g_logs().len() >= p.len(),
                polys@[0]@.len() == p.len(),
                forall|l: int|
                    0 <= l < polys@.len() ==> (#[trigger] polys@[l])@.len() <= polys@[0]@.len(),
                cs == folded_comms(ck.g_logs(), p, x, m),
                views(comms@) == cs.take(k as int),
            decreases ell - k,
        {
            assert(views2(polys@).len() == ell + 1);
            assert(views2(polys@)[k + 1] == views(polys@[k + 1]@));
            assert(polys@[k + 1]@.len() <= polys@[0]@.len());
            let c = KZGCommitmentEngine::<E>::commit(ck, polys[k + 1].as_slice()).comm;
            let ghost before = comms@;
            comms.push(c);
            assert(views(comms@) =~= views(before).push(c@));
            assert(cs.take(k + 1) =~= cs.take(k as int).push(c@));
            k = k + 1;
        }
        assert(cs.take(ell as int) =~= cs);

        // The point is not absorbed: it was obtained from the transcript.
        let r = Self::compute_challenge(comms.as_slice(), transcript);
        proof {
            lemma_asked_remaining::<E, TE>(t0, seq![0x63u8], points_bytes::<E>(cs), seq![0x63u8]);
        }
        let mut u: Vec<E::Scalar> = Vec::new();
        u.push(r);
        u.push(E::scalar_neg(&r));
        u.push(E::scalar_mul(&r, &r));
        assert(views(u@) =~= opening_points(r@, m));
        let (w, evals) = Self::kzg_open_batch(ck, polys.as_slice(), u.as_slice(), transcript);
        Ok(EvaluationArgument { comms, w, evals })
    }

    /// Checks the openings of the polynomials committed to by `c` at the three points.
    fn kzg_verify_batch(
        vk: &KZGVerifierKey<E>,
        c: &[E::GE],
        w: &[E::GE],
        u: &[E::Scalar],
        v: &[Vec<E::Scalar>],
        transcript: &mut TE,
    ) -> (r: bool)
        requires
            c@.len() >= 1,
            w@.len() >= 3,
            u@.len() == 3,
            v@.len() == 3,
            forall|i: int| 0 <= i < 3 ==> (#[trigger] v@[i])@.len() == c@.len(),
            TE::remaining(old(transcript)@) >= 2,
        ensures
            ({
                let (q, t2) = batch_challenge::<E, TE>(old(transcript)@, views2(v@));
                let (d, t3) = second_challenge::<E, TE>(t2, views(w@));
                &&& r == batch_check(
                    vk@,
                    views(c@),
                    views(w@),
                    views(u@),
                    views2(v@),
                    q,
                    d,
                    E::order(),
                )
                &&& final(transcript)@ == t3
            }),
    {
        let ghost m = E::order();
        let ghost t0 = transcript@;
        let ghost cs = views(c@);
        let k: usize = c.len();
        proof {
            E::order_range();
            lemma_asked_remaining::<E, TE>(
                t0,
                seq![0x76u8],
                scalars_bytes::<E>(rows(views2(v@))),
                seq![0x72u8],
            );
        }
        let q = Self::get_batch_challenge(v, transcript);
        let q_powers = Self::batch_challenge_powers(q, k);
        let ghost pw = powers(q@, k as nat, m);
        assert(views(q_powers@).len() == k);

        // The commitment to the batched polynomial.
        let tail_powers = slice_subrange(q_powers.as_slice(), 1, k);
        let tail = slice_subrange(c, 1, k);
        let tail_sum = vartime_multiscalar_mul::<E>(tail_powers, tail);
        let c_b = E::point_add(&c[0], &tail_sum);
        proof {
            assert(views(tail_powers@) =~= pw.skip(1));
            assert(views(tail@) =~= cs.skip(1));
            let ts = dot(pw.skip(1), cs.skip(1), (k - 1) as nat);
            lemma_dot_first(pw, cs, k as nat);
            lemma_dot_powers(cs, q@, k as nat, k as nat, m);
            assert(cs.take(k as int) =~= cs);
            lemma_pow0(q@);
            lemma_small(1, m);
            assert(pw[0] * cs[0] == cs[0]) by (nonlinear_arith)
                requires
                    pw[0] == 1,
            ;
            lemma_reduce(ts, m);
            lemma_sum_of(c_b@, c@[0]@, cs[0], tail_sum@, ts, m);
        }
        assert(cong(c_b@, poly_eval(cs, q@), m));

        // The values of the batched polynomial at the points.
        let b0 = Self::batched_value(&q, q_powers.as_slice(), v[0].as_slice());
        let b1 = Self::batched_value(&q, q_powers.as_slice(), v[1].as_slice());
        let b2 = Self::batched_value(&q, q_powers.as_slice(), v[2].as_slice());

        let d0 = Self::verifier_second_challenge(w, transcript);
        let d1 = E::scalar_mul(&d0, &d0);

        // L = c_b * (1 + d + d^2) - g * (b0 + d * b1 + d^2 * b2)
        //     + w0 * u0 + w1 * (u1 * d) + w2 * (u2 * d^2)
        let one = E::scalar_from(1);
        let s0 = E::scalar_add(&one, &d0);
        let s1 = E::scalar_add(&s0, &d1);
        let l0 = E::point_mul(&c_b, &s1);
        let e1 = E::scalar_mul(&d0, &b1);
        let e2 = E::scalar_mul(&d1, &b2);
        let e3 = E::scalar_add(&b0, &e1);
        let e4 = E::scalar_add(&e3, &e2);
        let l1 = E::point_mul(&vk.g, &e4);
        let l2 = E::point_sub(&l0, &l1);
        let w0 = E::point_mul(&w[0], &u[0]);
        let ud1 = E::scalar_mul(&u[1], &d0);
        let w1 = E::point_mul(&w[1], &ud1);
        let ud2 = E::scalar_mul(&u[2], &d1);
        let w2 = E::point_mul(&w[2], &ud2);
        let l3 = E::point_add(&l2, &w0);
        let l4 = E::point_add(&l3, &w1);
        let left = E::point_add(&l4, &w2);
        let neg_left = E::point_neg(&left);

        // R = w0 + w1 * d + w2 * d^2
        let r1 = E::point_mul(&w[1], &d0);
        let r2 = E::point_mul(&w[2], &d1);
        let r3 = E::point_add(&w[0], &r1);
        let right = E::point_add(&r3, &r2);
        proof {
            let cb = poly_eval(cs, q@);
            let d = d0@;
            let (p0, p1, p2) = (
                poly_eval(views2(v@)[0], q@),
                poly_eval(views2(v@)[1], q@),
                poly_eval(views2(v@)[2], q@),
            );
            lemma_reduce(d * d, m);
            lemma_small(1, m);
            lemma_sum_of(s0@, one@, 1, d0@, d, m);
            lemma_sum_of(s1@, s0@, 1 + d, d1@, d * d, m);
            lemma_product_of(l0@, c_b@, cb, s1@, 1 + d + d * d, m);
            lemma_product_of(e1@, d0@, d, b1@, p1, m);
            lemma_product_of(e2@, d1@, d * d, b2@, p2, m);
            lemma_sum_of(e3@, b0@, p0, e1@, d * p1, m);
            lemma_sum_of(e4@, e3@, p0 + d * p1, e2@, d * d * p2, m);
            lemma_product_of(l1@, vk.g@, vk.g@, e4@, p0 + d * p1 + d * d * p2, m);
            lemma_difference_of(
                l2@,
                l0@,
                cb * (1 + d + d * d),
                l1@,
                vk.g@ * (p0 + d * p1 + d * d * p2),
                m,
            );
            let (x0, x1, x2) = (w@[0]@, w@[1]@, w@[2]@);
            let (u0, u1, u2) = (u@[0]@, u@[1]@, u@[2]@);
            lemma_reduce(x0 * u0, m);
            lemma_reduce(u1 * d, m);
            lemma_product_of(w1@, x1, x1, ud1@, u1 * d, m);
            lemma_product_of(ud2@, u2, u2, d1@, d * d, m);
            lemma_product_of(w2@, x2, x2, ud2@, u2 * (d * d), m);
            let a2 = cb * (1 + d + d * d) - vk.g@ * (p0 + d * p1 + d * d * p2);
            lemma_sum_of(l3@, l2@, a2, w0@, x0 * u0, m);
            lemma_sum_of(l4@, l3@, a2 + x0 * u0, w1@, x1 * (u1 * d), m);
            lemma_sum_of(
                left@,
                l4@,
                a2 + x0 * u0 + x1 * (u1 * d),
                w2@,
                x2 * (u2 * (d * d)),
                m,
            );
            lemma_reduce(-left@, m);
            lemma_reduce(x1 * d, m);
            lemma_product_of(r2@, x2, x2, d1@, d * d, m);
            lemma_sum_of(r3@, x0, x0, r1@, x1 * d, m);
            lemma_sum_of(right@, r3@, x0 + x1 * d, r2@, x2 * (d * d), m);
            let terms = Seq::new(
                3,
                |t: int|
                    cb - vk.g@ * poly_eval(views2(v@)[t], q@) + views(w@)[t] * views(u@)[t],
            );
            lemma_poly_three(terms, d);
            lemma_poly_three(views(w@).take(3), d);
            grouped_terms(cb, vk.g@, p0, p1, p2, x0, x1, x2, u0, u1, u2, d);
            let lv = poly_eval(terms, d);
            let rv = poly_eval(views(w@).take(3), d);
            assert(cong(left@, lv, m));
            assert(x0 + x1 * d + x2 * (d * d) == x0 + d * x1 + d * d * x2) by (nonlinear_arith);
            assert(cong(right@, rv, m));
            lemma_pairing_sides(left@, neg_left@, lv, right@, rv, vk.h@, vk.beta_h@, m);
        }
        E::pairing_product_is_identity(&neg_left, &vk.h, &right, &vk.beta_h)
    }

    /// The value of the batched polynomial, from the values of the polynomials.
    fn batched_value(q: &E::Scalar, q_powers: &[E::Scalar], v: &[E::Scalar]) -> (r: E::Scalar)
        requires
            views(q_powers@) == powers(q@, v@.len(), E::order()),
        ensures
            cong(r@, poly_eval(views(v@), q@), E::order()),
    {
        let ghost m = E::order();
        assert(views(q_powers@).len() == v@.len());
        let r = inner_product::<E>(q_powers, v);
        proof {
            E::order_range();
            let vs = views(v@);
            lemma_dot_powers(vs, q@, v@.len(), v@.len(), m);
            assert(vs.take(v@.len() as int) =~= vs);
            lemma_reduce(dot(views(q_powers@), vs, v@.len()), m);
        }
        r
    }

    /// Whether the values of the polynomials `i` and `i + 1` fit together.
    fn check_folded_at(
        point: &[E::Scalar],
        r: &E::Scalar,
        v: &[Vec<E::Scalar>],
        i: usize,
    ) -> (ok: bool)
        requires
            i < point@.len(),
            v@.len() == 3,
            forall|t: int| 0 <= t < 3 ==> (#[trigger] v@[t])@.len() == point@.len() + 1,
        ensures
            ok == is_folded_at(views(point@), r@, views2(v@), i as int, E::order()),
    {
        let ghost m = E::order();
        assert(v@[0]@.len() == point@.len() + 1);
        assert(v@[1]@.len() == point@.len() + 1);
        assert(v@[2]@.len() == point@.len() + 1);
        let x = &point[point.len() - i - 1];
        let two = E::scalar_from(2);
        let one = E::scalar_from(1);
        let two_r = E::scalar_mul(&two, r);
        let lhs = E::scalar_mul(&two_r, &v[2][i + 1]);
        let one_x = E::scalar_sub(&one, x);
        let r_one_x = E::scalar_mul(r, &one_x);
        let sum = E::scalar_add(&v[0][i], &v[1][i]);
        let even = E::scalar_mul(&r_one_x, &sum);
        let diff = E::scalar_sub(&v[0][i], &v[1][i]);
        let odd = E::scalar_mul(x, &diff);
        let rhs = E::scalar_add(&even, &odd);
        proof {
            E::order_range();
            let yp = v@[0]@[i as int]@;
            let yn = v@[1]@[i as int]@;
            let yy = v@[2]@[i + 1]@;
            lemma_reduce(2, m);
            lemma_reduce(1, m);
            lemma_product_of(two_r@, two@, 2, r@, r@, m);
            lemma_product_of(lhs@, two_r@, 2 * r@, yy, yy, m);
            lemma_difference_of(one_x@, one@, 1, x@, x@, m);
            lemma_product_of(r_one_x@, r@, r@, one_x@, 1 - x@, m);
            lemma_reduce(yp + yn, m);
            lemma_reduce(yp - yn, m);
            lemma_product_of(even@, r_one_x@, r@ * (1 - x@), sum@, yp + yn, m);
            lemma_product_of(odd@, x@, x@, diff@, yp - yn, m);
            lemma_sum_of(
                rhs@,
                even@,
                r@ * (1 - x@) * (yp + yn),
                odd@,
                x@ * (yp - yn),
                m,
            );
            E::scalar_view(lhs);
            E::scalar_view(rhs);
            lemma_small(lhs@, m);
            lemma_small(rhs@, m);
        }
        E::scalar_eq(&lhs, &rhs)
    }

    /// Whether the values of a proof fit together.
    fn check_consistency(
        point: &[E::Scalar],
        y: &E::Scalar,
        r: &E::Scalar,
        v: &[Vec<E::Scalar>],
    ) -> (ok: bool)
        ensures
            ok == is_consistent(views(point@), y@, r@, views2(v@), E::order()),
    {
        let ghost m = E::order();
        let ghost vs = views2(v@);
        let ell: usize = point.len();
        if v.len() != 3 {
            return false;
        }
        assert(vs[0] == views(v@[0]@));
        assert(vs[1] == views(v@[1]@));
        assert(vs[2] == views(v@[2]@));
        if v[0].len() == 0 || v[0].len() - 1 != ell {
            return false;
        }
        if v[1].len() == 0 || v[1].len() - 1 != ell {
            return false;
        }
        if v[2].len() == 0 || v[2].len() - 1 != ell {
            return false;
        }
        if !E::scalar_eq(&v[2][ell], y) {
            return false;
        }
        let mut i: usize = 0;
        while i < ell
            invariant
                i <= ell,
                ell == point@.len(),
                v@.len() == 3,
                m == E::order(),
                vs == views2(v@),
                forall|t: int| 0 <= t < 3 ==> (#[trigger] v@[t])@.len() == ell + 1,
                forall|j: int|
                    0 <= j < i ==> #[trigger] is_folded_at(views(point@), r@, vs, j, m),
            decreases ell - i,
        {
            if !Self::check_folded_at(point, r, v, i) {
                assert(!is_folded_at(views(point@), r@, vs, i as int, m));
                return false;
            }
            i = i + 1;
        }
        true
    }

    /// Checks a proof that the polynomial committed to by `c` has the value `p_of_x` at
    /// the point.
    ///
    /// Nothing is added to the transcript for the key and the point: they are in it
    /// already, or were obtained from it.
    pub fn verify(
        vk: &KZGVerifierKey<E>,
        transcript: &mut TE,
        c: &Commitment<E>,
        point: &[E::Scalar],
        p_of_x: &E::Scalar,
        pi: &EvaluationArgument<E>,
    ) -> (res: Result<(), NovaError>)
        requires
            TE::remaining(old(transcript)@) >= 1,
            passes_first_checks(
                c@,
                views(point@),
                p_of_x@,
                comms_challenge::<E, TE>(old(transcript)@, pi@.comms).0,
                pi@.evals,
                E::order(),
            ) ==> pi@.comms.len() == point@.len() && pi@.w.len() >= 3 && TE::remaining(
                old(transcript)@,
            ) >= 3,
        ensures
            ({
                let (accepted, t) = verdict::<E, TE>(
                    vk@,
                    old(transcript)@,
                    c@,
                    views(point@),
                    p_of_x@,
                    pi@,
                );
                &&& res == if accepted {
                    Ok::<(), NovaError>(())
                } else {
                    Err(NovaError::ProofVerifyError)
                }
                &&& final(transcript)@ == t
            }),
    {
        let ghost m = E::order();
        let ghost t0 = transcript@;
        proof {
            lemma_asked_remaining::<E, TE>(
                t0,
                seq![0x63u8],
                points_bytes::<E>(pi@.comms),
                seq![0x63u8],
            );
            E::order_range();
            lemma_small(0, m);
        }
        let r = Self::compute_challenge(pi.comms.as_slice(), transcript);
        let zero = E::scalar_from(0);
        if E::scalar_eq(&r, &zero) || E::point_is_identity(&c.comm) {
            return Err(NovaError::ProofVerifyError);
        }
        if !Self::check_consistency(point, p_of_x, &r, pi.evals.as_slice()) {
            return Err(NovaError::ProofVerifyError);
        }
        let mut com = slice_to_vec(pi.comms.as_slice());
        com.insert(0, c.comm);
        let mut u: Vec<E::Scalar> = Vec::new();
        u.push(r);
        u.push(E::scalar_neg(&r));
        u.push(E::scalar_mul(&r, &r));
        proof {
            assert(views(u@) =~= opening_points(r@, m));
            assert(views(com@) =~= seq![c@] + pi@.comms);
            assert forall|i: int| 0 <= i < 3 implies (#[trigger] pi.evals@[i])@.len()
                == com@.len() by {
                assert(pi@.evals[i] == views(pi.evals@[i]@));
            }
        }
        if Self::kzg_verify_batch(
            vk,
            com.as_slice(),
            pi.w.as_slice(),
            u.as_slice(),
            pi.evals.as_slice(),
            transcript,
        ) {
            Ok(())
        } else {
            Err(NovaError::ProofVerifyError)
        }
    }
}

pub(crate) proof fn lemma_asked_remaining<E: Engine, TE: TranscriptEngineTrait<E>>(
    t: TE::V,
    absorb_label: Seq<u8>,
    bytes: Seq<u8>,
    squeeze_label: Seq<u8>,
)
    requires
        TE::remaining(t) >= 1,
    ensures
        ({
            let (c, t2) = asked::<E, TE>(t, absorb_label, bytes, squeeze_label);
            &&& 0 <= c < E::order()
            &&& TE::remaining(t2) == TE::remaining(t) - 1
        }),
{
    TE::remaining_absorbed(t, absorb_label, bytes);
    TE::remaining_squeezed(TE::absorbed(t, absorb_label, bytes), squeeze_label);
}

pub(crate) proof fn lemma_poly_three(f: Seq<int>, d: int)
    requires
        f.len() == 3,
    ensures
        poly_eval(f, d) == f[0] + d * f[1] + d * d * f[2],
{
    let f1 = f.drop_first();
    let f2 = f1.drop_first();
    assert(f2.drop_first() =~= Seq::<int>::empty());
    assert(poly_eval(f2.drop_first(), d) == 0);
    assert(poly_eval(f2, d) == f[2] + d * 0);
    assert(poly_eval(f1, d) == f[1] + d * f[2]);
    assert(d * (f[1] + d * f[2]) == d * f[1] + d * d * f[2]) by (nonlinear_arith);
}

/// The product of the pairings is the identity when both sides of the check are equal.
proof fn lemma_pairing_sides(
    l: int,
    neg_l: int,
    lv: int,
    r: int,
    rv: int,
    h: int,
    beta_h: int,
    m: int,
)
    requires
        m > 0,
        neg_l == (-l) % m,
        cong(l, lv, m),
        cong(r, rv, m),
    ensures
        ((neg_l * h + r * beta_h) % m == 0) == cong(lv * h, rv * beta_h, m),
{
    lemma_reduce(-l, m);
    lemma_cong_sub(0, 0, l, lv, m);
    lemma_cong_mul(neg_l, -lv, h, h, m);
    lemma_cong_mul(r, rv, beta_h, beta_h, m);
    lemma_cong_add(neg_l * h, (-lv) * h, r * beta_h, rv * beta_h, m);
    assert((-lv) * h == -(lv * h)) by (nonlinear_arith);
    lemma_cong_zero(rv * beta_h, lv * h, m);
}

/// Grouping the terms of the three openings by group element saves multiplications and
/// gives the same sum: `L0 + d * L1 + d^2 * L2`, with `Lt = c_b - g * bt + wt * ut`.
pub proof fn grouped_terms(
    c_b: int,
    g: int,
    b0: int,
    b1: int,
    b2: int,
    w0: int,
    w1: int,
    w2: int,
    u0: int,
    u1: int,
    u2: int,
    d: int,
)
    ensures
        c_b * (1 + d + d * d) - g * (b0 + d * b1 + d * d * b2) + w0 * u0 + w1 * (u1 * d) + w2 * (
        u2 * (d * d)) == (c_b - g * b0 + w0 * u0) + d * (c_b - g * b1 + w1 * u1) + d * d * (c_b
            - g * b2 + w2 * u2),
{
    let e = d * d;
    assert(c_b * (1 + d + e) == c_b + d * c_b + e * c_b) by (nonlinear_arith);
    assert(g * (b0 + d * b1 + e * b2) == g * b0 + d * (g * b1) + e * (g * b2))
        by (nonlinear_arith);
    assert(w1 * (u1 * d) == d * (w1 * u1)) by (nonlinear_arith);
    assert(w2 * (u2 * e) == e * (w2 * u2)) by (nonlinear_arith);
    let (x1, y1) = (g * b1, w1 * u1);
    let (x2, y2) = (g * b2, w2 * u2);
    assert(d * (c_b - x1 + y1) == d * c_b - d * x1 + d * y1) by (nonlinear_arith);
    assert(e * (c_b - x2 + y2) == e * c_b - e * x2 + e * y2) by (nonlinear_arith);
}

} // verus!
