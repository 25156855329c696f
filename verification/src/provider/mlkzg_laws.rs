//! Laws of the evaluation argument: what the prover makes, the verifier accepts.
use crate::modular::{
    annihilates, cancels, cong, is_prime, lemma_cong_add, lemma_cong_mul, lemma_cong_sub,
    lemma_cong_zero, lemma_reduce, lemma_small, odd_prime_cancels_double,
};
use crate::polynomial::{
    batch_poly, fold_poly, folded_polys, folding_evaluates, lemma_folded_len,
    lemma_poly_cong, multilinear_eval, poly_eval, witness_poly,
};
use crate::polynomial_laws::{
    batch_evaluates, combination, combination_evaluates, even_odd_parts, evens, folding_combines,
    odds, values_at, witness_divides,
};
use crate::provider::arithmetic::commit_log;
use crate::provider::kzg::{are_powers, commitment_evaluates, VerifierKeyView};
use crate::provider::mlkzg::{
    batch_challenge, batch_check, batch_openings, comms_challenge, evaluations, folded_comms,
    is_consistent, is_folded_at, is_unsat, lemma_asked_remaining, opening, opening_points,
    proof_of, second_challenge, verdict, ArgumentView,
};
use crate::traits::{Engine, TranscriptEngineTrait};
use crate::views::points_bytes;
use vstd::arithmetic::power::lemma_pow1;
use vstd::arithmetic::power2::{lemma_pow2_strictly_increases, lemma_pow2_unfold, pow2};
use vstd::prelude::*;

verus! {

/// The values of a polynomial at `r` and `-r` give the value of the folded polynomial at
/// `r^2`: `2r * f'(r^2) = r * (1 - x) * (f(r) + f(-r)) + x * (f(r) - f(-r))`.
pub proof fn folding_from_values(f: Seq<int>, x: int, r: int, m: int)
    requires
        m > 0,
        f.len() % 2 == 0,
    ensures
        cong(
            2 * r * poly_eval(fold_poly(f, x, m), r * r),
            r * (1 - x) * (poly_eval(f, r) + poly_eval(f, -r)) + x * (poly_eval(f, r) - poly_eval(
                f,
                -r,
            )),
            m,
        ),
{
    let z = r * r;
    let e = poly_eval(evens(f), z);
    let o = poly_eval(odds(f), z);
    even_odd_parts(f, r);
    even_odd_parts(f, -r);
    assert((-r) * (-r) == z) by (nonlinear_arith)
        requires
            z == r * r,
    ;
    assert((-r) * o == -(r * o)) by (nonlinear_arith);
    folding_combines(f, x, z, m);
    let v = poly_eval(fold_poly(f, x, m), z);
    lemma_cong_mul(2 * r, 2 * r, v, x * o + (1 - x) * e, m);
    let s = 1 - x;
    let ro = r * o;
    assert(2 * r * (x * o + s * e) == r * s * (2 * e) + x * (2 * ro)) by (nonlinear_arith)
        requires
            ro == r * o,
    ;
}

/// The values that the prover sends are consistent for the value of the polynomial.
pub proof fn evaluations_are_consistent(p: Seq<int>, x: Seq<int>, r: int, m: int)
    requires
        m > 0,
        p.len() == pow2(x.len()),
    ensures
        is_consistent(
            x,
            multilinear_eval(p, x) % m,
            r,
            evaluations(folded_polys(p, x, m), opening_points(r, m), m),
            m,
        ),
{
    let fs = folded_polys(p, x, m);
    let u = opening_points(r, m);
    let ev = evaluations(fs, u, m);
    let ell = x.len() as int;
    folding_evaluates(p, x, m);
    let last = fs[ell];
    assert(last.drop_first() =~= Seq::<int>::empty());
    assert(poly_eval(last.drop_first(), u[2]) == 0);
    assert(poly_eval(last, u[2]) == last[0] + u[2] * 0);
    assert(ev[2][ell] == multilinear_eval(p, x) % m);
    assert forall|i: int| 0 <= i < ell implies #[trigger] is_folded_at(x, r, ev, i, m) by {
        let f = fs[i];
        let xi = x[ell - i - 1];
        let next = fold_poly(f, xi, m);
        assert(fs[i + 1] == next);
        lemma_folded_len(p, x, i as nat, m);
        lemma_pow2_unfold((ell - i) as nat);
        folding_from_values(f, xi, r, m);
        lemma_reduce(-r, m);
        lemma_reduce(r * r, m);
        lemma_poly_cong(f, f, u[1], -r, m);
        lemma_poly_cong(next, next, u[2], r * r, m);
        let (a, b, c) = (poly_eval(f, r), poly_eval(f, -r), poly_eval(next, r * r));
        lemma_reduce(poly_eval(f, u[0]), m);
        lemma_reduce(poly_eval(f, u[1]), m);
        lemma_reduce(poly_eval(next, u[2]), m);
        let (a2, b2, c2) = (ev[0][i], ev[1][i], ev[2][i + 1]);
        assert(cong(a2, a, m));
        assert(cong(b2, b, m));
        assert(cong(c2, c, m));
        lemma_cong_mul(2 * r, 2 * r, c2, c, m);
        lemma_cong_add(a2, a, b2, b, m);
        lemma_cong_sub(a2, a, b2, b, m);
        lemma_cong_mul(r * (1 - xi), r * (1 - xi), a2 + b2, a + b, m);
        lemma_cong_mul(xi, xi, a2 - b2, a - b, m);
        lemma_cong_add(
            r * (1 - xi) * (a2 + b2),
            r * (1 - xi) * (a + b),
            xi * (a2 - b2),
            xi * (a - b),
            m,
        );
    }
}

/// An honest opening satisfies `c - g * f(u) + w * u = w * beta`, where `c` and `w` are the
/// commitments to the polynomial and to its witness polynomial.
pub proof fn opening_equation(g: Seq<int>, f: Seq<int>, beta: int, u: int, m: int)
    requires
        m > 0,
        f.len() <= g.len(),
        are_powers(g, beta, m),
    ensures
        cong(
            commit_log(g, f, m) - g[0] * poly_eval(f, u) + opening(g, f, u, m) * u,
            opening(g, f, u, m) * beta,
            m,
        ),
{
    let h = witness_poly(f, u, m);
    commitment_evaluates(g, f, beta, m);
    commitment_evaluates(g, h, beta, m);
    witness_divides(f, u, beta, m);
    let g0 = g[0];
    let (fb, hb, fu) = (poly_eval(f, beta), poly_eval(h, beta), poly_eval(f, u));
    let c = commit_log(g, f, m);
    let w = opening(g, f, u, m);
    lemma_reduce(g0 * fb, m);
    lemma_reduce(g0 * hb, m);
    lemma_cong_mul(g0, g0, fb, hb * (beta - u) + fu, m);
    lemma_cong_sub(c, g0 * (hb * (beta - u) + fu), g0 * fu, g0 * fu, m);
    lemma_cong_mul(w, g0 * hb, u, u, m);
    lemma_cong_mul(w, g0 * hb, beta, beta, m);
    lemma_cong_add(
        c - g0 * fu,
        g0 * (hb * (beta - u) + fu) - g0 * fu,
        w * u,
        g0 * hb * u,
        m,
    );
    let d = beta - u;
    assert(g0 * (hb * d + fu) == g0 * hb * d + g0 * fu) by (nonlinear_arith);
    let k = g0 * hb;
    assert(k * d + k * u == k * beta) by (nonlinear_arith)
        requires
            d == beta - u,
    ;
}

/// The sum of the commitments to several polynomials, weighted by the powers of `q`, is
/// the commitment to the batched polynomial.
pub proof fn batched_commitment(
    g: Seq<int>,
    fs: Seq<Seq<int>>,
    coms: Seq<int>,
    beta: int,
    q: int,
    m: int,
)
    requires
        m > 0,
        fs.len() > 0,
        fs[0].len() <= g.len(),
        forall|j: int| 0 <= j < fs.len() ==> (#[trigger] fs[j]).len() <= fs[0].len(),
        are_powers(g, beta, m),
        coms.len() == fs.len(),
        forall|j: int| 0 <= j < fs.len() ==> #[trigger] coms[j] == commit_log(g, fs[j], m),
    ensures
        cong(poly_eval(coms, q), commit_log(g, batch_poly(fs, q, m), m), m),
{
    let b = batch_poly(fs, q, m);
    let vals = values_at(fs, beta);
    let g0 = g[0];
    commitment_evaluates(g, b, beta, m);
    batch_evaluates(fs, q, beta, m);
    let scaled = combination(vals, vals, g0, 0);
    assert forall|j: int| 0 <= j < coms.len() implies cong(#[trigger] coms[j], scaled[j], m) by {
        assert(fs[j].len() <= fs[0].len());
        commitment_evaluates(g, fs[j], beta, m);
        lemma_reduce(g0 * vals[j], m);
        assert(0 * vals[j] == 0);
    }
    lemma_poly_cong(coms, scaled, q, q, m);
    combination_evaluates(vals, vals, g0, 0, q);
    let vq = poly_eval(vals, q);
    assert(0 * vq == 0);
    lemma_cong_mul(g0, g0, poly_eval(b, beta), vq, m);
    lemma_reduce(g0 * poly_eval(b, beta), m);
}

/// The pairing check accepts honest openings of the batched polynomial.
pub proof fn honest_batch_passes(
    g: Seq<int>,
    h: Seq<int>,
    fs: Seq<Seq<int>>,
    coms: Seq<int>,
    u: Seq<int>,
    beta: int,
    q: int,
    d: int,
    m: int,
)
    requires
        m > 0,
        fs.len() > 0,
        fs[0].len() <= g.len(),
        forall|j: int| 0 <= j < fs.len() ==> (#[trigger] fs[j]).len() <= fs[0].len(),
        are_powers(g, beta, m),
        h.len() >= 2,
        are_powers(h, beta, m),
        coms.len() == fs.len(),
        forall|j: int| 0 <= j < fs.len() ==> #[trigger] coms[j] == commit_log(g, fs[j], m),
        u.len() == 3,
    ensures
        batch_check(
            (VerifierKeyView { g: g[0], h: h[0], beta_h: h[1] }),
            coms,
            batch_openings(g, fs, q, u, m),
            u,
            evaluations(fs, u, m),
            q,
            d,
            m,
        ),
{
    let b = batch_poly(fs, q, m);
    let w = batch_openings(g, fs, q, u, m);
    let ev = evaluations(fs, u, m);
    let g0 = g[0];
    let c_b = poly_eval(coms, q);
    let c = commit_log(g, b, m);
    batched_commitment(g, fs, coms, beta, q, m);
    let terms = Seq::new(3, |t: int| c_b - g0 * poly_eval(ev[t], q) + w[t] * u[t]);
    let w3 = w.take(3);
    let scaled = combination(w3, w3, beta, 0);
    assert forall|t: int| 0 <= t < 3 implies cong(#[trigger] terms[t], scaled[t], m) by {
        opening_equation(g, b, beta, u[t], m);
        let vals = values_at(fs, u[t]);
        assert forall|j: int| 0 <= j < fs.len() implies cong(#[trigger] ev[t][j], vals[j], m) by {
            lemma_reduce(vals[j], m);
        }
        lemma_poly_cong(ev[t], vals, q, q, m);
        batch_evaluates(fs, q, u[t], m);
        let (e, bu) = (poly_eval(ev[t], q), poly_eval(b, u[t]));
        assert(cong(e, bu, m));
        lemma_cong_mul(g0, g0, e, bu, m);
        lemma_cong_sub(c_b, c, g0 * e, g0 * bu, m);
        let wu = w[t] * u[t];
        lemma_cong_add(c_b - g0 * e, c - g0 * bu, wu, wu, m);
        let wt = w[t];
        assert(wt * beta == beta * wt + 0 * wt) by (nonlinear_arith);
    }
    lemma_poly_cong(terms, scaled, d, d, m);
    combination_evaluates(w3, w3, beta, 0, d);
    let left = poly_eval(terms, d);
    let right = poly_eval(w3, d);
    assert(0 * right == 0);
    assert(cong(left, beta * right, m));
    lemma_pow1(beta);
    assert(cong(h[1], beta * h[0], m));
    lemma_cong_mul(left, beta * right, h[0], h[0], m);
    lemma_cong_mul(right, right, h[1], beta * h[0], m);
    let h0 = h[0];
    assert(beta * right * h0 == right * (beta * h0)) by (nonlinear_arith);
}

/// Completeness: with the powers of a secret, the verifier accepts the prover's proof of
/// the value that the committed polynomial has at the point, and both transcripts end in
/// the same state.
///
/// It needs a commitment that is not the identity and a first challenge that is not 0; the
/// verifier refuses these.
pub proof fn honest_proof_is_accepted<E: Engine, TE: TranscriptEngineTrait<E>>(
    g: Seq<int>,
    h: Seq<int>,
    beta: int,
    t: TE::V,
    p: Seq<int>,
    x: Seq<int>,
)
    requires
        p.len() == pow2(x.len()),
        p.len() <= g.len(),
        h.len() >= 2,
        are_powers(g, beta, E::order()),
        are_powers(h, beta, E::order()),
        commit_log(g, p, E::order()) != 0,
        comms_challenge::<E, TE>(t, folded_comms(g, p, x, E::order())).0 != 0,
    ensures
        ({
            let m = E::order();
            let y = multilinear_eval(p, x) % m;
            let vk = VerifierKeyView { g: g[0], h: h[0], beta_h: h[1] };
            let (pi, t2) = proof_of::<E, TE>(g, t, p, x);
            &&& !is_unsat(p, x, y, m)
            &&& pi.comms.len() == x.len()
            &&& pi.w.len() == 3
            &&& verdict::<E, TE>(vk, t, commit_log(g, p, m), x, y, pi) == (true, t2)
        }),
{
    E::order_range();
    let m = E::order();
    let y = multilinear_eval(p, x) % m;
    let fs = folded_polys(p, x, m);
    let comms = folded_comms(g, p, x, m);
    let (r, t1) = comms_challenge::<E, TE>(t, comms);
    let u = opening_points(r, m);
    let evals = evaluations(fs, u, m);
    let (q, t2) = batch_challenge::<E, TE>(t1, evals);
    let w = batch_openings(g, fs, q, u, m);
    let (d, t3) = second_challenge::<E, TE>(t2, w);
    evaluations_are_consistent(p, x, r, m);
    let coms = seq![commit_log(g, p, m)] + comms;
    assert(fs[0] == p);
    assert forall|j: int| 0 <= j < fs.len() implies (#[trigger] fs[j]).len() <= fs[0].len() by {
        lemma_folded_len(p, x, j as nat, m);
        if j > 0 {
            lemma_pow2_strictly_increases((x.len() - j) as nat, x.len());
        }
    }
    assert forall|j: int| 0 <= j < fs.len() implies #[trigger] coms[j] == commit_log(
        g,
        fs[j],
        m,
    ) by {
        if j > 0 {
            assert(coms[j] == comms[j - 1]);
        }
    }
    honest_batch_passes(g, h, fs, coms, u, beta, q, d, m);
}

/// A proof is accepted for one value at most, which is the last one that it sends for the
/// point `r^2`; and for no commitment to the zero polynomial.
pub proof fn accepted_value_is_sent<E: Engine, TE: TranscriptEngineTrait<E>>(
    vk: VerifierKeyView,
    t: TE::V,
    c: int,
    x: Seq<int>,
    y: int,
    pi: ArgumentView,
)
    ensures
        verdict::<E, TE>(vk, t, c, x, y, pi).0 ==> c != 0 && pi.evals.len() == 3
            && pi.evals[2].len() == x.len() + 1 && y == pi.evals[2][x.len() as int],
{
}

/// The values that accepted proofs send for the point `r^2`, from the second on, are
/// determined by their commitments, their values at `r` and `-r`, and the point.
pub proof fn later_values_are_determined<E: Engine, TE: TranscriptEngineTrait<E>>(
    vk: VerifierKeyView,
    t: TE::V,
    c: int,
    x: Seq<int>,
    y: int,
    y2: int,
    pi: ArgumentView,
    pi2: ArgumentView,
    i: int,
)
    requires
        verdict::<E, TE>(vk, t, c, x, y, pi).0,
        verdict::<E, TE>(vk, t, c, x, y2, pi2).0,
        pi2.comms == pi.comms,
        pi2.evals[0] == pi.evals[0],
        pi2.evals[1] == pi.evals[1],
        1 <= i <= x.len(),
        cancels(2 * comms_challenge::<E, TE>(t, pi.comms).0, E::order()),
    ensures
        cong(pi.evals[2][i], pi2.evals[2][i], E::order()),
{
    E::order_range();
    let m = E::order();
    let r = comms_challenge::<E, TE>(t, pi.comms).0;
    let (v, v2) = (pi.evals[2][i], pi2.evals[2][i]);
    assert(is_folded_at(x, r, pi.evals, i - 1, m));
    assert(is_folded_at(x, r, pi2.evals, i - 1, m));
    lemma_cong_zero(2 * r * v, 2 * r * v2, m);
    assert(2 * r * v - 2 * r * v2 == 2 * r * (v - v2)) by (nonlinear_arith);
    assert(annihilates(2 * r, v - v2, m));
    lemma_cong_zero(v, v2, m);
}

/// A proof that differs from an accepted one in exactly one of the values for the point
/// `r^2`, other than the first, is refused, where `2r` can be cancelled modulo the order.
pub proof fn changed_value_is_refused<E: Engine, TE: TranscriptEngineTrait<E>>(
    vk: VerifierKeyView,
    t: TE::V,
    c: int,
    x: Seq<int>,
    y: int,
    pi: ArgumentView,
    pi2: ArgumentView,
    i: int,
)
    requires
        verdict::<E, TE>(vk, t, c, x, y, pi).0,
        1 <= i <= x.len(),
        pi2.comms == pi.comms,
        pi2.w == pi.w,
        pi2.evals == pi.evals.update(2, pi.evals[2].update(i, pi2.evals[2][i])),
        pi2.evals[2][i] != pi.evals[2][i],
        0 <= pi.evals[2][i] < E::order(),
        0 <= pi2.evals[2][i] < E::order(),
        cancels(2 * comms_challenge::<E, TE>(t, pi.comms).0, E::order()),
    ensures
        !verdict::<E, TE>(vk, t, c, x, y, pi2).0,
{
    if verdict::<E, TE>(vk, t, c, x, y, pi2).0 {
        later_values_are_determined::<E, TE>(vk, t, c, x, y, y, pi, pi2, i);
        lemma_small(pi.evals[2][i], E::order());
        lemma_small(pi2.evals[2][i], E::order());
    }
}

/// In a field of odd characteristic, a proof that differs from an accepted one in exactly
/// one of the values for the point `r^2`, other than the first, is refused.
pub proof fn changed_value_is_refused_in_odd_field<E: Engine, TE: TranscriptEngineTrait<E>>(
    vk: VerifierKeyView,
    t: TE::V,
    c: int,
    x: Seq<int>,
    y: int,
    pi: ArgumentView,
    pi2: ArgumentView,
    i: int,
)
    requires
        is_prime(E::order()),
        E::order() > 2,
        TE::remaining(t) >= 1,
        verdict::<E, TE>(vk, t, c, x, y, pi).0,
        1 <= i <= x.len(),
        pi2.comms == pi.comms,
        pi2.w == pi.w,
        pi2.evals == pi.evals.update(2, pi.evals[2].update(i, pi2.evals[2][i])),
        pi2.evals[2][i] != pi.evals[2][i],
        0 <= pi.evals[2][i] < E::order(),
        0 <= pi2.evals[2][i] < E::order(),
    ensures
        !verdict::<E, TE>(vk, t, c, x, y, pi2).0,
{
    let label = seq![0x63u8];
    lemma_asked_remaining::<E, TE>(t, label, points_bytes::<E>(pi.comms), label);
    odd_prime_cancels_double(comms_challenge::<E, TE>(t, pi.comms).0, E::order());
    changed_value_is_refused::<E, TE>(vk, t, c, x, y, pi, pi2, i);
}

} // verus!
