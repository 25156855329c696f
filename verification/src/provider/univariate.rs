//! Operations on univariate polynomials over the scalars, given by their coefficients in
//! ascending order.
use crate::modular::{lemma_cong_add, lemma_cong_mul, lemma_reduce, lemma_small};
use crate::polynomial::{
    batch_poly, column, fold_poly, lemma_poly_push, poly_eval, powers, witness_poly,
};
use crate::traits::Engine;
use crate::views::{views, views2};
use vstd::arithmetic::power::pow;
use vstd::prelude::*;
use vstd::slice::slice_to_vec;

verus! {

/// The value at `u` of the polynomial with the given coefficients.
pub fn evaluate<E: Engine>(f: &[E::Scalar], u: &E::Scalar) -> (r: E::Scalar)
    ensures
        r@ == poly_eval(views(f@), u@) % E::order(),
{
    let ghost m = E::order();
    let ghost c = views(f@);
    proof {
        E::order_range();
        lemma_small(0, m);
        assert(c.skip(f.len() as int) =~= Seq::<int>::empty());
    }
    let mut acc = E::scalar_from(0);
    let mut i: usize = f.len();
    while i > 0
        invariant
            i <= f.len(),
            m == E::order(),
            m > 1,
            c == views(f@),
            acc@ == poly_eval(c.skip(i as int), u@) % m,
        decreases i,
    {
        let prod = E::scalar_mul(u, &acc);
        i = i - 1;
        proof {
            let rest = poly_eval(c.skip(i + 1), u@);
            assert(c.skip(i as int).drop_first() =~= c.skip(i + 1));
            lemma_reduce(rest, m);
            lemma_cong_mul(u@, u@, acc@, rest, m);
            lemma_reduce(u@ * acc@, m);
            lemma_cong_add(c[i as int], c[i as int], prod@, u@ * rest, m);
        }
        acc = E::scalar_add(&f[i], &prod);
    }
    assert(c.skip(0) =~= c);
    acc
}

/// Sets the last variable of a multilinear polynomial to `x`.
pub fn fold<E: Engine>(p: &[E::Scalar], x: &E::Scalar) -> (r: Vec<E::Scalar>)
    ensures
        views(r@) == fold_poly(views(p@), x@, E::order()),
{
    let ghost m = E::order();
    let ghost f = fold_poly(views(p@), x@, m);
    let one = E::scalar_from(1);
    let rest = E::scalar_sub(&one, x);
    proof {
        E::order_range();
        lemma_small(1, m);
        lemma_reduce(1 - x@, m);
    }
    let half: usize = p.len() / 2;
    let mut r: Vec<E::Scalar> = Vec::new();
    let mut j: usize = 0;
    while j < half
        invariant
            j <= half,
            half == p.len() / 2,
            m == E::order(),
            m > 1,
            f == fold_poly(views(p@), x@, m),
            rest@ % m == (1 - x@) % m,
            views(r@) == f.take(j as int),
        decreases half - j,
    {
        let odd = E::scalar_mul(x, &p[2 * j + 1]);
        let even = E::scalar_mul(&rest, &p[2 * j]);
        let sum = E::scalar_add(&odd, &even);
        proof {
            let a = p@[2 * j + 1]@;
            let b = p@[2 * j as int]@;
            lemma_reduce(x@ * a, m);
            lemma_cong_mul(rest@, 1 - x@, b, b, m);
            lemma_reduce(rest@ * b, m);
            lemma_cong_add(odd@, x@ * a, even@, (1 - x@) * b, m);
            assert(f[j as int] == sum@);
        }
        let ghost before = r@;
        r.push(sum);
        assert(views(r@) =~= views(before).push(sum@));
        assert(f.take(j + 1) =~= f.take(j as int).push(sum@));
        j = j + 1;
    }
    assert(f.take(j as int) =~= f);
    r
}

/// Divides the polynomial by `X - u` and drops the remainder, which is its value at `u`.
pub fn compute_witness_polynomial<E: Engine>(f: &[E::Scalar], u: &E::Scalar) -> (h: Vec<
    E::Scalar,
>)
    ensures
        views(h@) == witness_poly(views(f@), u@, E::order()),
{
    let ghost m = E::order();
    let ghost c = views(f@);
    let ghost q = witness_poly(c, u@, m);
    let d: usize = f.len();
    let zero = E::scalar_from(0);
    let mut h: Vec<E::Scalar> = Vec::new();
    proof {
        E::order_range();
        lemma_small(0, m);
    }
    let mut k: usize = 0;
    while k < d
        invariant
            k <= d,
            h@.len() == k,
            forall|i: int| 0 <= i < k ==> (#[trigger] h@[i])@ == 0,
            zero@ == 0,
        decreases d - k,
    {
        h.push(zero);
        k = k + 1;
    }
    proof {
        if d > 0 {
            assert(c.skip(d as int) =~= Seq::<int>::empty());
            assert(h@[d - 1]@ == 0);
        }
    }
    let mut i: usize = d;
    while i > 1
        invariant
            i <= d,
            d > 0 ==> i > 0,
            h@.len() == d,
            d == f@.len(),
            m == E::order(),
            m > 1,
            c == views(f@),
            q == witness_poly(c, u@, m),
            forall|j: int| i - 1 <= j < d && 0 <= j ==> (#[trigger] h@[j])@ == q[j],
        decreases i,
    {
        i = i - 1;
        let prod = E::scalar_mul(&h[i], u);
        let sum = E::scalar_add(&f[i], &prod);
        proof {
            let rest = poly_eval(c.skip(i + 1), u@);
            assert(c.skip(i as int).drop_first() =~= c.skip(i + 1));
            assert(h@[i as int]@ == q[i as int]);
            lemma_reduce(rest, m);
            lemma_cong_mul(h@[i as int]@, rest, u@, u@, m);
            assert(rest * u@ == u@ * rest) by (nonlinear_arith);
            lemma_reduce(h@[i as int]@ * u@, m);
            lemma_cong_add(c[i as int], c[i as int], prod@, u@ * rest, m);
            assert(q[i - 1] == sum@);
        }
        h.set(i - 1, sum);
    }
    assert(views(h@) =~= q);
    h
}

/// Adds `s` times `v` to the first coefficients of `a`.
pub fn scalar_vector_muladd<E: Engine>(a: &mut Vec<E::Scalar>, v: &[E::Scalar], s: &E::Scalar)
    requires
        old(a)@.len() >= v@.len(),
    ensures
        views(final(a)@) == Seq::new(
            old(a)@.len(),
            |i: int|
                if i < v@.len() {
                    (old(a)@[i]@ + s@ * v@[i]@) % E::order()
                } else {
                    old(a)@[i]@
                },
        ),
{
    let ghost m = E::order();
    let ghost start = a@;
    proof {
        E::order_range();
    }
    let mut i: usize = 0;
    while i < v.len()
        invariant
            i <= v@.len() <= a@.len(),
            m == E::order(),
            m > 1,
            a@.len() == start.len(),
            forall|j: int|
                0 <= j < i ==> (#[trigger] a@[j])@ == (start[j]@ + s@ * v@[j]@) % m,
            forall|j: int| i <= j < a@.len() ==> #[trigger] a@[j] == start[j],
        decreases v@.len() - i,
    {
        let term = E::scalar_mul(s, &v[i]);
        let sum = E::scalar_add(&a[i], &term);
        proof {
            assert(a@[i as int] == start[i as int]);
            lemma_reduce(s@ * v@[i as int]@, m);
            lemma_cong_add(start[i as int]@, start[i as int]@, term@, s@ * v@[i as int]@, m);
        }
        a.set(i, sum);
        i = i + 1;
    }
}

/// Adds up the polynomials, weighted by the powers of `q`, which `q_powers` holds.
pub fn compute_batch_polynomial<E: Engine>(
    f: &[Vec<E::Scalar>],
    q: &E::Scalar,
    q_powers: &[E::Scalar],
) -> (b: Vec<E::Scalar>)
    requires
        f@.len() > 0,
        forall|i: int| 0 <= i < f@.len() ==> (#[trigger] f@[i])@.len() <= f@[0]@.len(),
        views(q_powers@) == powers(q@, f@.len(), E::order()),
    ensures
        views(b@) == batch_poly(views2(f@), q@, E::order()),
{
    let ghost m = E::order();
    let ghost fs = views2(f@);
    let ghost n = f@[0]@.len();
    let mut b = slice_to_vec(f[0].as_slice());
    proof {
        E::order_range();
        assert forall|l: int| 0 <= l < n implies #[trigger] views(b@)[l] == poly_eval(
            column(fs.take(1), l),
            q@,
        ) % m by {
            let c = column(fs.take(1), l);
            assert(c.drop_first() =~= Seq::<int>::empty());
            assert(poly_eval(c.drop_first(), q@) == 0);
            assert(poly_eval(c, q@) == c[0] + q@ * 0);
            E::scalar_view(f@[0]@[l]);
            lemma_small(c[0], m);
        }
    }
    let mut i: usize = 1;
    while i < f.len()
        invariant
            1 <= i <= f@.len(),
            m == E::order(),
            m > 1,
            fs == views2(f@),
            n == f@[0]@.len(),
            b@.len() == n,
            forall|k: int| 0 <= k < f@.len() ==> (#[trigger] f@[k])@.len() <= n,
            views(q_powers@) == powers(q@, f@.len(), m),
            forall|l: int|
                0 <= l < n ==> #[trigger] views(b@)[l] == poly_eval(
                    column(fs.take(i as int), l),
                    q@,
                ) % m,
        decreases f@.len() - i,
    {
        assert(f@[i as int]@.len() <= n);
        assert(views(q_powers@).len() == f@.len());
        let ghost before = b@;
        scalar_vector_muladd::<E>(&mut b, f[i].as_slice(), &q_powers[i]);
        proof {
            let p = pow(q@, i as nat);
            assert(views(q_powers@)[i as int] == p % m);
            lemma_reduce(p, m);
            assert(b@.len() == views(b@).len());
            assert forall|l: int| 0 <= l < n implies #[trigger] views(b@)[l] == poly_eval(
                column(fs.take(i + 1), l),
                q@,
            ) % m by {
                let c = column(fs.take(i as int), l);
                let x = if l < fs[i as int].len() {
                    fs[i as int][l]
                } else {
                    0
                };
                assert(column(fs.take(i + 1), l) =~= c.push(x));
                lemma_poly_push(c, x, q@);
                let e = poly_eval(c, q@);
                lemma_reduce(e, m);
                assert(views(before)[l] == e % m);
                if l < fs[i as int].len() {
                    lemma_cong_mul(q_powers@[i as int]@, p, x, x, m);
                    lemma_cong_add(e % m, e, q_powers@[i as int]@ * x, p * x, m);
                } else {
                    assert(p * 0 == 0);
                }
            }
        }
        i = i + 1;
    }
    proof {
        assert(fs.take(i as int) =~= fs);
        assert(views(b@) =~= batch_poly(fs, q@, m));
    }
    b
}

} // verus!
