//! Sums of products over the scalars and over a group.
use crate::modular::{lemma_cong_add, lemma_reduce, lemma_small};
use crate::polynomial::dot;
use crate::traits::Engine;
use crate::views::views;
use vstd::prelude::*;

verus! {

/// The logarithm of the sum of the generators `g`, weighted by the scalars `v`.
pub open spec fn commit_log(g: Seq<int>, v: Seq<int>, m: int) -> int {
    dot(v, g, v.len()) % m
}

/// The sum of the bases, weighted by the scalars.
pub fn vartime_multiscalar_mul<E: Engine>(scalars: &[E::Scalar], bases: &[E::GE]) -> (r: E::GE)
    requires
        scalars.len() == bases.len(),
    ensures
        r@ == commit_log(views(bases@), views(scalars@), E::order()),
{
    let ghost m = E::order();
    let ghost v = views(scalars@);
    let ghost g = views(bases@);
    proof {
        E::order_range();
        lemma_small(0, m);
    }
    let mut acc = E::point_identity();
    let mut i: usize = 0;
    while i < scalars.len()
        invariant
            i <= scalars.len(),
            scalars.len() == bases.len(),
            m == E::order(),
            m > 1,
            v == views(scalars@),
            g == views(bases@),
            acc@ == dot(v, g, i as nat) % m,
        decreases scalars.len() - i,
    {
        let term = E::point_mul(&bases[i], &scalars[i]);
        proof {
            assert(g[i as int] * v[i as int] == v[i as int] * g[i as int]) by (nonlinear_arith);
            let before = dot(v, g, i as nat);
            lemma_reduce(before, m);
            lemma_reduce(v[i as int] * g[i as int], m);
            lemma_cong_add(acc@, before, term@, v[i as int] * g[i as int], m);
        }
        acc = E::point_add(&acc, &term);
        i = i + 1;
    }
    acc
}

/// The sum of the products of the elements of two slices.
pub fn inner_product<E: Engine>(a: &[E::Scalar], b: &[E::Scalar]) -> (r: E::Scalar)
    requires
        a.len() == b.len(),
    ensures
        r@ == dot(views(a@), views(b@), a@.len()) % E::order(),
{
    let ghost m = E::order();
    let ghost v = views(a@);
    let ghost w = views(b@);
    proof {
        E::order_range();
        lemma_small(0, m);
    }
    let mut acc = E::scalar_from(0);
    let mut i: usize = 0;
    while i < a.len()
        invariant
            i <= a.len(),
            a.len() == b.len(),
            m == E::order(),
            m > 1,
            v == views(a@),
            w == views(b@),
            acc@ == dot(v, w, i as nat) % m,
        decreases a.len() - i,
    {
        let term = E::scalar_mul(&a[i], &b[i]);
        proof {
            let before = dot(v, w, i as nat);
            lemma_reduce(before, m);
            lemma_reduce(v[i as int] * w[i as int], m);
            lemma_cong_add(acc@, before, term@, v[i as int] * w[i as int], m);
        }
        acc = E::scalar_add(&acc, &term);
        i = i + 1;
    }
    acc
}

} // verus!
