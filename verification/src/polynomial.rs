//! Polynomials over the integers, as sequences of coefficients in ascending order,
//! and the operations that the evaluation argument performs on them modulo `m`.
use crate::modular::{cong, lemma_cong_add, lemma_cong_mul, lemma_reduce};
use vstd::arithmetic::power::{lemma_pow0, pow};
use vstd::arithmetic::power2::{lemma2_to64, lemma_pow2_unfold, pow2};
use vstd::prelude::*;

verus! {

/// The value at `u` of the polynomial with coefficients `f`.
pub open spec fn poly_eval(f: Seq<int>, u: int) -> int
    decreases f.len(),
{
    if f.len() == 0 {
        0
    } else {
        f[0] + u * poly_eval(f.drop_first(), u)
    }
}

/// The quotient of `f` by `X - u`, with the remainder left out.
pub open spec fn witness_poly(f: Seq<int>, u: int, m: int) -> Seq<int> {
    Seq::new(f.len(), |i: int| poly_eval(f.skip(i + 1), u) % m)
}

/// The `i`-th coefficient of each polynomial; a polynomial that is too short has 0.
pub open spec fn column(fs: Seq<Seq<int>>, i: int) -> Seq<int> {
    Seq::new(fs.len(), |j: int| if i < fs[j].len() { fs[j][i] } else { 0 })
}

/// The polynomial `fs[0] + q * fs[1] + q^2 * fs[2] + ...`, as long as `fs[0]`.
pub open spec fn batch_poly(fs: Seq<Seq<int>>, q: int, m: int) -> Seq<int> {
    Seq::new(fs[0].len(), |i: int| poly_eval(column(fs, i), q) % m)
}

/// The powers `1, q, q^2, ..., q^(k - 1)`.
pub open spec fn powers(q: int, k: nat, m: int) -> Seq<int> {
    Seq::new(k, |i: int| pow(q, i as nat) % m)
}

/// The multilinear polynomial with values `p`, with its last variable set to `x`.
pub open spec fn fold_poly(p: Seq<int>, x: int, m: int) -> Seq<int> {
    Seq::new((p.len() / 2) as nat, |j: int| (x * p[2 * j + 1] + (1 - x) * p[2 * j]) % m)
}

/// The multilinear polynomial with values `p`, with its last `i` variables set to
/// the last `i` coordinates of `x`.
pub open spec fn folded(p: Seq<int>, x: Seq<int>, i: nat, m: int) -> Seq<int>
    decreases i,
{
    if i == 0 {
        p
    } else {
        fold_poly(folded(p, x, (i - 1) as nat, m), x[x.len() - i], m)
    }
}

/// The polynomials that arise by setting the variables one after the other, from the
/// last to the first, beginning with `p` itself.
pub open spec fn folded_polys(p: Seq<int>, x: Seq<int>, m: int) -> Seq<Seq<int>> {
    Seq::new(x.len() + 1, |i: int| folded(p, x, i as nat, m))
}

/// The value at `x` of the multilinear polynomial whose values on the corners of the
/// cube are `p`; the first variable chooses the half of `p`.
pub open spec fn multilinear_eval(p: Seq<int>, x: Seq<int>) -> int
    decreases x.len(),
{
    if x.len() == 0 {
        p[0]
    } else {
        let half = p.len() as int / 2;
        (1 - x[0]) * multilinear_eval(p.take(half), x.drop_first()) + x[0] * multilinear_eval(
            p.skip(half),
            x.drop_first(),
        )
    }
}

/// The sum of the products `v[i] * g[i]` for `i < n`.
pub open spec fn dot(v: Seq<int>, g: Seq<int>, n: nat) -> int
    decreases n,
{
    if n == 0 {
        0
    } else {
        dot(v, g, (n - 1) as nat) + v[n - 1] * g[n - 1]
    }
}

pub(crate) proof fn lemma_poly_push(f: Seq<int>, x: int, u: int)
    ensures
        poly_eval(f.push(x), u) == poly_eval(f, u) + pow(u, f.len()) * x,
    decreases f.len(),
{
    let g = f.push(x);
    if f.len() == 0 {
        lemma_pow0(u);
        assert(g.drop_first() =~= Seq::<int>::empty());
        assert(u * poly_eval(g.drop_first(), u) == 0);
        assert(1 * x == x);
    } else {
        assert(g.drop_first() =~= f.drop_first().push(x));
        lemma_poly_push(f.drop_first(), x, u);
        let n = (f.len() - 1) as nat;
        reveal(pow);
        assert(pow(u, f.len()) == u * pow(u, n));
        let e = poly_eval(f.drop_first(), u);
        assert(u * (e + pow(u, n) * x) == u * e + (u * pow(u, n)) * x) by (nonlinear_arith);
    }
}

/// Congruent coefficients and points give congruent values.
pub(crate) proof fn lemma_poly_cong(f: Seq<int>, g: Seq<int>, u: int, v: int, m: int)
    requires
        m > 0,
        f.len() == g.len(),
        forall|i: int| 0 <= i < f.len() ==> cong(#[trigger] f[i], g[i], m),
        cong(u, v, m),
    ensures
        cong(poly_eval(f, u), poly_eval(g, v), m),
    decreases f.len(),
{
    if f.len() > 0 {
        let ft = f.drop_first();
        let gt = g.drop_first();
        assert forall|i: int| 0 <= i < ft.len() implies cong(#[trigger] ft[i], gt[i], m) by {
            assert(ft[i] == f[i + 1]);
        }
        lemma_poly_cong(ft, gt, u, v, m);
        lemma_cong_mul(u, v, poly_eval(ft, u), poly_eval(gt, v), m);
        assert(cong(f[0], g[0], m));
        lemma_cong_add(f[0], g[0], u * poly_eval(ft, u), v * poly_eval(gt, v), m);
    }
}

/// A sum of products depends only on the terms that it adds up.
pub(crate) proof fn lemma_dot_prefix(v: Seq<int>, g: Seq<int>, v2: Seq<int>, g2: Seq<int>, n: nat)
    requires
        forall|i: int| 0 <= i < n ==> #[trigger] v[i] == v2[i],
        forall|i: int| 0 <= i < n ==> #[trigger] g[i] == g2[i],
    ensures
        dot(v, g, n) == dot(v2, g2, n),
    decreases n,
{
    if n > 0 {
        lemma_dot_prefix(v, g, v2, g2, (n - 1) as nat);
        assert(v[n - 1] == v2[n - 1] && g[n - 1] == g2[n - 1]);
    }
}

pub(crate) proof fn lemma_folded_len(p: Seq<int>, x: Seq<int>, i: nat, m: int)
    requires
        p.len() == pow2(x.len()),
        i <= x.len(),
    ensures
        folded(p, x, i, m).len() == pow2((x.len() - i) as nat),
    decreases i,
{
    if i > 0 {
        lemma_folded_len(p, x, (i - 1) as nat, m);
        lemma_pow2_unfold((x.len() - i + 1) as nat);
    }
}

/// Setting the last variable does not change the value at a point.
pub(crate) proof fn lemma_fold_value(p: Seq<int>, x: Seq<int>, m: int)
    requires
        m > 0,
        x.len() > 0,
        p.len() == pow2(x.len()),
    ensures
        cong(
            multilinear_eval(p, x),
            multilinear_eval(fold_poly(p, x.last(), m), x.drop_last()),
            m,
        ),
    decreases x.len(),
{
    let f = fold_poly(p, x.last(), m);
    let xt = x.drop_first();
    lemma_pow2_unfold(x.len());
    let half = p.len() as int / 2;
    let lo = p.take(half);
    let hi = p.skip(half);
    if x.len() == 1 {
        lemma2_to64();
        let v = x[0] * p[1] + (1 - x[0]) * p[0];
        lemma_reduce(v, m);
        assert(multilinear_eval(lo, xt) == p[0]);
        assert(multilinear_eval(hi, xt) == p[1]);
        assert(multilinear_eval(f, x.drop_last()) == v % m);
    } else {
        let xm = xt.drop_last();
        lemma_pow2_unfold((x.len() - 1) as nat);
        lemma_fold_value(lo, xt, m);
        lemma_fold_value(hi, xt, m);
        let quarter = f.len() as int / 2;
        let fl = fold_poly(lo, xt.last(), m);
        let fh = fold_poly(hi, xt.last(), m);
        assert(x.last() == xt.last());
        assert(f.take(quarter) =~= fl);
        assert(f.skip(quarter) =~= fh);
        assert(x.drop_last().drop_first() =~= xm);
        assert(x.drop_last()[0] == x[0]);
        let a = multilinear_eval(lo, xt);
        let b = multilinear_eval(hi, xt);
        let a2 = multilinear_eval(fl, xm);
        let b2 = multilinear_eval(fh, xm);
        lemma_cong_mul(1 - x[0], 1 - x[0], a, a2, m);
        lemma_cong_mul(x[0], x[0], b, b2, m);
        lemma_cong_add((1 - x[0]) * a, (1 - x[0]) * a2, x[0] * b, x[0] * b2, m);
    }
}

/// Setting any number of the last variables does not change the value at a point.
pub(crate) proof fn lemma_folded_value(p: Seq<int>, x: Seq<int>, i: nat, m: int)
    requires
        m > 0,
        p.len() == pow2(x.len()),
        i <= x.len(),
    ensures
        cong(
            multilinear_eval(p, x),
            multilinear_eval(folded(p, x, i, m), x.take(x.len() - i)),
            m,
        ),
    decreases i,
{
    if i == 0 {
        assert(x.take(x.len() as int) =~= x);
    } else {
        lemma_folded_value(p, x, (i - 1) as nat, m);
        lemma_folded_len(p, x, (i - 1) as nat, m);
        let y = x.take(x.len() - i + 1);
        lemma_fold_value(folded(p, x, (i - 1) as nat, m), y, m);
        assert(y.last() == x[x.len() - i]);
        assert(y.drop_last() =~= x.take(x.len() - i));
    }
}

/// Setting all variables to the coordinates of a point, from the last to the first, gives
/// the value of the multilinear polynomial at that point.
pub proof fn folding_evaluates(p: Seq<int>, x: Seq<int>, m: int)
    requires
        m > 0,
        p.len() == pow2(x.len()),
    ensures
        folded(p, x, x.len(), m).len() == 1,
        cong(folded(p, x, x.len(), m)[0], multilinear_eval(p, x), m),
        x.len() > 0 ==> folded(p, x, x.len(), m)[0] == multilinear_eval(p, x) % m,
{
    lemma_folded_len(p, x, x.len(), m);
    lemma_folded_value(p, x, x.len(), m);
    lemma2_to64();
    let last = folded(p, x, x.len(), m);
    assert(multilinear_eval(last, x.take(0)) == last[0]);
    if x.len() > 0 {
        let before = folded(p, x, (x.len() - 1) as nat, m);
        lemma_reduce(x[0] * before[1] + (1 - x[0]) * before[0], m);
    }
}

/// A sum of products begins with its first term.
pub(crate) proof fn lemma_dot_first(v: Seq<int>, g: Seq<int>, n: nat)
    requires
        0 < n <= v.len(),
        n <= g.len(),
    ensures
        dot(v, g, n) == v[0] * g[0] + dot(v.skip(1), g.skip(1), (n - 1) as nat),
    decreases n,
{
    if n > 1 {
        lemma_dot_first(v, g, (n - 1) as nat);
    } else {
        assert(dot(v, g, 0) == 0);
        assert(dot(v.skip(1), g.skip(1), 0) == 0);
    }
}

/// The sum of the coefficients, weighted by the powers of `q`, is the value at `q`.
pub(crate) proof fn lemma_dot_powers(f: Seq<int>, q: int, k: nat, n: nat, m: int)
    requires
        m > 0,
        n <= f.len(),
        n <= k,
    ensures
        cong(dot(powers(q, k, m), f, n), poly_eval(f.take(n as int), q), m),
    decreases n,
{
    if n > 0 {
        let n1 = (n - 1) as nat;
        let pw = powers(q, k, m);
        lemma_dot_powers(f, q, k, n1, m);
        assert(f.take(n as int) =~= f.take(n1 as int).push(f[n1 as int]));
        lemma_poly_push(f.take(n1 as int), f[n1 as int], q);
        lemma_reduce(pow(q, n1), m);
        lemma_cong_mul(pw[n1 as int], pow(q, n1), f[n1 as int], f[n1 as int], m);
        lemma_cong_add(
            dot(pw, f, n1),
            poly_eval(f.take(n1 as int), q),
            pw[n1 as int] * f[n1 as int],
            pow(q, n1) * f[n1 as int],
            m,
        );
    } else {
        assert(f.take(0) =~= Seq::<int>::empty());
    }
}

} // verus!
