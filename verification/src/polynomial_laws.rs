//! Laws of polynomials: division by a linear factor, even and odd parts, and batching.
use crate::modular::{cong, lemma_cong_add, lemma_cong_mul, lemma_reduce, lemma_small};
use crate::polynomial::{
    batch_poly, column, dot, fold_poly, lemma_dot_prefix, lemma_poly_cong, lemma_poly_push,
    poly_eval, powers, witness_poly,
};
use vstd::arithmetic::mul::lemma_mul_is_distributive_add;
use vstd::arithmetic::power::{lemma_pow0, pow};
use vstd::prelude::*;

verus! {

/// The coefficients of the even powers.
pub open spec fn evens(f: Seq<int>) -> Seq<int> {
    Seq::new((f.len() / 2) as nat, |j: int| f[2 * j])
}

/// The coefficients of the odd powers.
pub open spec fn odds(f: Seq<int>) -> Seq<int> {
    Seq::new((f.len() / 2) as nat, |j: int| f[2 * j + 1])
}

/// The values at `u` of several polynomials.
pub open spec fn values_at(fs: Seq<Seq<int>>, u: int) -> Seq<int> {
    Seq::new(fs.len(), |j: int| poly_eval(fs[j], u))
}

/// The combination `a * f + b * g` of two polynomials of the same length.
pub open spec fn combination(f: Seq<int>, g: Seq<int>, a: int, b: int) -> Seq<int> {
    Seq::new(f.len(), |i: int| a * f[i] + b * g[i])
}

/// A combination of polynomials has the combination of their values.
pub proof fn combination_evaluates(f: Seq<int>, g: Seq<int>, a: int, b: int, u: int)
    requires
        f.len() == g.len(),
    ensures
        poly_eval(combination(f, g, a, b), u) == a * poly_eval(f, u) + b * poly_eval(g, u),
    decreases f.len(),
{
    let c = combination(f, g, a, b);
    if f.len() == 0 {
        assert(a * 0 + b * 0 == 0);
    } else {
        let ft = f.drop_first();
        let gt = g.drop_first();
        assert(c.drop_first() =~= combination(ft, gt, a, b));
        combination_evaluates(ft, gt, a, b, u);
        let x = poly_eval(ft, u);
        let y = poly_eval(gt, u);
        let (f0, g0) = (f[0], g[0]);
        let (ux, uy) = (u * x, u * y);
        assert(u * (a * x) == a * ux) by (nonlinear_arith)
            requires
                ux == u * x,
        ;
        assert(u * (b * y) == b * uy) by (nonlinear_arith)
            requires
                uy == u * y,
        ;
        lemma_mul_is_distributive_add(u, a * x, b * y);
        lemma_mul_is_distributive_add(a, f0, ux);
        lemma_mul_is_distributive_add(b, g0, uy);
    }
}

/// The coefficients of the quotient by `X - u`, not reduced.
spec fn quotient(f: Seq<int>, u: int) -> Seq<int> {
    Seq::new(f.len(), |i: int| poly_eval(f.skip(i + 1), u))
}

proof fn lemma_quotient(f: Seq<int>, u: int, z: int)
    ensures
        poly_eval(f, z) == poly_eval(quotient(f, u), z) * (z - u) + poly_eval(f, u),
    decreases f.len(),
{
    let h = quotient(f, u);
    if f.len() == 0 {
        assert(0 * (z - u) == 0);
    } else {
        let ft = f.drop_first();
        let ht = quotient(ft, u);
        lemma_quotient(ft, u, z);
        assert(f.skip(1) =~= ft);
        assert forall|i: int| 0 <= i < ft.len() implies h.drop_first()[i] == ht[i] by {
            assert(f.skip(i + 2) =~= ft.skip(i + 1));
        }
        assert(h.drop_first() =~= ht);
        let a = poly_eval(ft, u);
        let b = poly_eval(ht, z);
        assert(poly_eval(h, z) == a + z * b);
        let f0 = f[0];
        assert(f0 + z * (b * (z - u) + a) == (a + z * b) * (z - u) + (f0 + u * a))
            by (nonlinear_arith);
    }
}

/// A polynomial is the product of its witness polynomial with `X - u`, plus its value at
/// `u`: the division leaves no other remainder.
pub proof fn witness_divides(f: Seq<int>, u: int, z: int, m: int)
    requires
        m > 0,
    ensures
        cong(
            poly_eval(f, z),
            poly_eval(witness_poly(f, u, m), z) * (z - u) + poly_eval(f, u),
            m,
        ),
{
    let h = quotient(f, u);
    let w = witness_poly(f, u, m);
    lemma_quotient(f, u, z);
    assert forall|i: int| 0 <= i < w.len() implies cong(#[trigger] w[i], h[i], m) by {
        lemma_reduce(h[i], m);
    }
    lemma_poly_cong(w, h, z, z, m);
    lemma_cong_mul(poly_eval(w, z), poly_eval(h, z), z - u, z - u, m);
    lemma_cong_add(
        poly_eval(w, z) * (z - u),
        poly_eval(h, z) * (z - u),
        poly_eval(f, u),
        poly_eval(f, u),
        m,
    );
}

/// A polynomial is the sum of its even part and its odd part: `f(z) = e(z^2) + z * o(z^2)`.
pub proof fn even_odd_parts(f: Seq<int>, z: int)
    requires
        f.len() % 2 == 0,
    ensures
        poly_eval(f, z) == poly_eval(evens(f), z * z) + z * poly_eval(odds(f), z * z),
    decreases f.len(),
{
    let e = evens(f);
    let o = odds(f);
    if f.len() == 0 {
        assert(z * 0 == 0);
    } else {
        let f1 = f.drop_first();
        let f2 = f1.drop_first();
        even_odd_parts(f2, z);
        assert(e.drop_first() =~= evens(f2));
        assert(o.drop_first() =~= odds(f2));
        let a = poly_eval(evens(f2), z * z);
        let b = poly_eval(odds(f2), z * z);
        assert(poly_eval(f1, z) == f[1] + z * poly_eval(f2, z));
        assert(poly_eval(e, z * z) == f[0] + z * z * a);
        assert(poly_eval(o, z * z) == f[1] + z * z * b);
        let (f0, g) = (f[0], f[1]);
        assert(f0 + z * (g + z * (a + z * b)) == (f0 + z * z * a) + z * (g + z * z * b))
            by (nonlinear_arith);
    }
}

/// The folded polynomial has the combination of the values of the even and odd parts.
pub proof fn folding_combines(f: Seq<int>, x: int, z: int, m: int)
    requires
        m > 0,
    ensures
        cong(
            poly_eval(fold_poly(f, x, m), z),
            x * poly_eval(odds(f), z) + (1 - x) * poly_eval(evens(f), z),
            m,
        ),
{
    let c = combination(odds(f), evens(f), x, 1 - x);
    let p = fold_poly(f, x, m);
    assert forall|i: int| 0 <= i < p.len() implies cong(#[trigger] p[i], c[i], m) by {
        lemma_reduce(c[i], m);
    }
    lemma_poly_cong(p, c, z, z, m);
    combination_evaluates(odds(f), evens(f), x, 1 - x, z);
}

spec fn padded(f: Seq<int>, n: nat) -> Seq<int> {
    Seq::new(n, |i: int| if i < f.len() { f[i] } else { 0 })
}

proof fn lemma_padded(f: Seq<int>, n: nat, u: int)
    requires
        n >= f.len(),
    ensures
        poly_eval(padded(f, n), u) == poly_eval(f, u),
    decreases n,
{
    if n == f.len() {
        assert(padded(f, n) =~= f);
    } else {
        let n1 = (n - 1) as nat;
        lemma_padded(f, n1, u);
        assert(padded(f, n) =~= padded(f, n1).push(0));
        lemma_poly_push(padded(f, n1), 0, u);
        assert(pow(u, n1) * 0 == 0);
    }
}

/// The batched polynomial, not reduced, with `n` coefficients.
spec fn batch(fs: Seq<Seq<int>>, q: int, n: nat) -> Seq<int> {
    Seq::new(n, |i: int| poly_eval(column(fs, i), q))
}

proof fn lemma_zero_poly(f: Seq<int>, u: int)
    requires
        forall|i: int| 0 <= i < f.len() ==> #[trigger] f[i] == 0,
    ensures
        poly_eval(f, u) == 0,
    decreases f.len(),
{
    if f.len() > 0 {
        assert forall|i: int| 0 <= i < f.drop_first().len() implies #[trigger] f.drop_first()[i]
            == 0 by {
            assert(f[i + 1] == 0);
        }
        lemma_zero_poly(f.drop_first(), u);
        assert(f[0] == 0);
        assert(u * 0 == 0);
    }
}

proof fn lemma_batch(fs: Seq<Seq<int>>, q: int, n: nat, u: int)
    requires
        forall|j: int| 0 <= j < fs.len() ==> (#[trigger] fs[j]).len() <= n,
    ensures
        poly_eval(batch(fs, q, n), u) == poly_eval(values_at(fs, u), q),
    decreases fs.len(),
{
    if fs.len() == 0 {
        assert forall|i: int| 0 <= i < n implies #[trigger] batch(fs, q, n)[i] == 0 by {
            assert(column(fs, i) =~= Seq::<int>::empty());
        }
        lemma_zero_poly(batch(fs, q, n), u);
        assert(values_at(fs, u) =~= Seq::<int>::empty());
    } else {
        let init = fs.drop_last();
        let f = fs.last();
        let k = init.len();
        let p = pow(q, k);
        assert forall|j: int| 0 <= j < init.len() implies (#[trigger] init[j]).len() <= n by {
            assert(init[j] == fs[j]);
        }
        lemma_batch(init, q, n, u);
        lemma_padded(f, n, u);
        let a = batch(init, q, n);
        let b = padded(f, n);
        assert forall|i: int| 0 <= i < n implies batch(fs, q, n)[i] == 1 * a[i] + p * b[i] by {
            assert(column(fs, i) =~= column(init, i).push(b[i]));
            lemma_poly_push(column(init, i), b[i], q);
        }
        assert(batch(fs, q, n) =~= combination(a, b, 1, p));
        combination_evaluates(a, b, 1, p, u);
        assert(values_at(fs, u) =~= values_at(init, u).push(poly_eval(f, u)));
        lemma_poly_push(values_at(init, u), poly_eval(f, u), q);
    }
}

/// The batched polynomial has at `u` the sum of the values at `u` of the polynomials,
/// weighted by the powers of `q`.
pub proof fn batch_evaluates(fs: Seq<Seq<int>>, q: int, u: int, m: int)
    requires
        m > 0,
        fs.len() > 0,
        forall|j: int| 0 <= j < fs.len() ==> (#[trigger] fs[j]).len() <= fs[0].len(),
    ensures
        cong(poly_eval(batch_poly(fs, q, m), u), poly_eval(values_at(fs, u), q), m),
{
    let n = fs[0].len();
    lemma_batch(fs, q, n, u);
    let b = batch_poly(fs, q, m);
    let c = batch(fs, q, n);
    assert forall|i: int| 0 <= i < b.len() implies cong(#[trigger] b[i], c[i], m) by {
        lemma_reduce(c[i], m);
    }
    lemma_poly_cong(b, c, u, u, m);
}

/// A polynomial without coefficients is 0, and a further coefficient `x` adds `x` times the
/// next power of the point.
pub proof fn value_adds_up_powers(f: Seq<int>, x: int, u: int)
    ensures
        poly_eval(Seq::<int>::empty(), u) == 0,
        poly_eval(f.push(x), u) == poly_eval(f, u) + pow(u, f.len()) * x,
{
    lemma_poly_push(f, x, u);
}

/// A sum of products is 0 without terms, and a further pair of factors adds its product.
pub proof fn dot_adds_up_products(v: Seq<int>, g: Seq<int>, x: int, y: int)
    requires
        v.len() == g.len(),
    ensures
        dot(v, g, 0) == 0,
        dot(v.push(x), g.push(y), v.len() + 1) == dot(v, g, v.len()) + x * y,
{
    lemma_dot_prefix(v.push(x), g.push(y), v, g, v.len());
}

/// The powers start with 1, and each is `q` times the one before.
pub proof fn powers_multiply_up(q: int, k: nat, m: int)
    requires
        m > 1,
    ensures
        powers(q, k, m).len() == k,
        k > 0 ==> powers(q, k, m)[0] == 1,
        forall|i: int|
            0 < i < k ==> #[trigger] powers(q, k, m)[i] == (powers(q, k, m)[i - 1] * q) % m,
{
    let p = powers(q, k, m);
    lemma_pow0(q);
    lemma_small(1, m);
    assert forall|i: int| 0 < i < k implies #[trigger] p[i] == (p[i - 1] * q) % m by {
        let b = pow(q, (i - 1) as nat);
        reveal(pow);
        assert(pow(q, i as nat) == q * b);
        lemma_reduce(b, m);
        lemma_cong_mul(p[i - 1], b, q, q, m);
        assert(b * q == q * b) by (nonlinear_arith);
    }
}

/// The coefficients of the witness polynomial: the last one is 0, each comes from the one
/// after it as in Horner's rule, and one more step gives the value at `u`.
pub proof fn witness_coefficients(f: Seq<int>, u: int, m: int)
    requires
        m > 0,
        f.len() > 0,
    ensures
        ({
            let h = witness_poly(f, u, m);
            &&& h.len() == f.len()
            &&& h.last() == 0
            &&& forall|i: int|
                0 < i < f.len() ==> #[trigger] h[i - 1] == (f[i] + u * h[i]) % m
            &&& cong(poly_eval(f, u), f[0] + u * h[0], m)
        }),
{
    let h = witness_poly(f, u, m);
    lemma_small(0, m);
    assert(f.skip(f.len() as int) =~= Seq::<int>::empty());
    assert forall|i: int| 0 <= i < f.len() implies cong(
        poly_eval(#[trigger] f.skip(i), u),
        f[i] + u * h[i],
        m,
    ) by {
        let rest = poly_eval(f.skip(i + 1), u);
        assert(f.skip(i).drop_first() =~= f.skip(i + 1));
        lemma_reduce(rest, m);
        lemma_cong_mul(u, u, rest, h[i], m);
        lemma_cong_add(f[i], f[i], u * rest, u * h[i], m);
    }
    assert forall|i: int| 0 < i < f.len() implies #[trigger] h[i - 1] == (f[i] + u * h[i]) % m by {
        assert(h[i - 1] == poly_eval(f.skip(i), u) % m);
    }
    assert(f.skip(0) =~= f);
}

/// A batch of one polynomial is that polynomial, reduced; and a further polynomial is added
/// with the next power of `q`, coefficient by coefficient.
pub proof fn batch_adds_next_power(fs: Seq<Seq<int>>, f: Seq<int>, q: int, m: int, i: int)
    requires
        m > 0,
        fs.len() > 0,
        0 <= i < fs[0].len(),
    ensures
        batch_poly(seq![fs[0]], q, m).len() == fs[0].len(),
        batch_poly(seq![fs[0]], q, m)[i] == fs[0][i] % m,
        batch_poly(fs.push(f), q, m).len() == fs[0].len(),
        batch_poly(fs.push(f), q, m)[i] == (batch_poly(fs, q, m)[i] + pow(q, fs.len()) * (if i
            < f.len() {
            f[i]
        } else {
            0
        })) % m,
{
    let one = column(seq![fs[0]], i);
    assert(one.drop_first() =~= Seq::<int>::empty());
    assert(poly_eval(one.drop_first(), q) == 0);
    assert(poly_eval(one, q) == one[0] + q * 0);
    let x = if i < f.len() {
        f[i]
    } else {
        0
    };
    let c = column(fs, i);
    assert(column(fs.push(f), i) =~= c.push(x));
    lemma_poly_push(c, x, q);
    let e = poly_eval(c, q);
    lemma_reduce(e, m);
    lemma_cong_add(e % m, e, pow(q, fs.len()) * x, pow(q, fs.len()) * x, m);
}

} // verus!
