//! Laws of multilinear polynomials: a polynomial has its given values on the corners of the
//! cube and is affine in each variable, which determines it; and folding sets its last
//! variables.
use crate::modular::{cong, lemma_reduce};
use crate::polynomial::{
    fold_poly, folded, folded_polys, lemma_fold_value, lemma_folded_len,
    multilinear_eval,
};
use vstd::arithmetic::div_mod::{lemma_fundamental_div_mod_converse, lemma_hoist_over_denominator};
use vstd::arithmetic::power2::{lemma2_to64, lemma_pow2_adds, lemma_pow2_unfold, pow2};
use vstd::prelude::*;

verus! {

/// On the corner of the cube whose coordinates are the binary digits of `k`, the highest
/// first, a multilinear polynomial has the value at place `k`.
pub proof fn value_at_corner(p: Seq<int>, x: Seq<int>, k: int)
    requires
        p.len() == pow2(x.len()),
        0 <= k < pow2(x.len()),
        forall|i: int|
            0 <= i < x.len() ==> #[trigger] x[i] == (k / pow2((x.len() - 1 - i) as nat) as int)
                % 2,
    ensures
        multilinear_eval(p, x) == p[k],
    decreases x.len(),
{
    let n = x.len();
    if n == 0 {
        lemma2_to64();
    } else {
        lemma_pow2_unfold(n);
        let half = pow2((n - 1) as nat) as int;
        assert(half == p.len() as int / 2);
        let xt = x.drop_first();
        let (lo, hi) = (p.take(half), p.skip(half));
        assert(x[0] == (k / half) % 2);
        let bit: int = if k < half {
            0
        } else {
            1
        };
        let k2 = k - bit * half;
        lemma_fundamental_div_mod_converse(k, half, bit, k2);
        assert forall|i: int| 0 <= i < xt.len() implies #[trigger] xt[i] == (k2 / pow2(
            (xt.len() - 1 - i) as nat,
        ) as int) % 2 by {
            let b = pow2((n - 2 - i) as nat);
            assert(xt[i] == x[i + 1]);
            assert(x[i + 1] == (k / b as int) % 2);
            lemma_pow2_adds((n - 2 - i) as nat, (i + 1) as nat);
            lemma_pow2_unfold((i + 1) as nat);
            let c = pow2(i as nat) as int;
            if bit == 1 {
                assert(half == (2 * c) * b) by (nonlinear_arith)
                    requires
                        half == b * pow2((i + 1) as nat),
                        pow2((i + 1) as nat) == 2 * c,
                ;
                lemma_pow2_pos_at((n - 2 - i) as nat);
                lemma_hoist_over_denominator(k2, 2 * c, b);
            }
        }
        value_at_corner(if bit == 0 { lo } else { hi }, xt, k2);
        let (a, b) = (multilinear_eval(lo, xt), multilinear_eval(hi, xt));
        assert((1 - 0) * a + 0 * b == a) by (nonlinear_arith);
        assert((1 - 1) * a + 1 * b == b) by (nonlinear_arith);
    }
}

proof fn lemma_pow2_pos_at(e: nat)
    ensures
        pow2(e) > 0,
{
    vstd::arithmetic::power2::lemma_pow2_pos(e);
}

proof fn lemma_exchange(s: int, t: int, a: int, z: int, l0: int, l1: int, h0: int, h1: int)
    ensures
        s * (t * l0 + z * l1) + a * (t * h0 + z * h1) == t * (s * l0 + a * h0) + z * (s * l1 + a
            * h1),
{
    assert(s * (t * l0 + z * l1) == t * (s * l0) + z * (s * l1)) by (nonlinear_arith);
    assert(a * (t * h0 + z * h1) == t * (a * h0) + z * (a * h1)) by (nonlinear_arith);
    let (p, q, u, v) = (s * l0, s * l1, a * h0, a * h1);
    assert(t * (p + u) == t * p + t * u) by (nonlinear_arith);
    assert(z * (q + v) == z * q + z * v) by (nonlinear_arith);
}

/// A multilinear polynomial is affine in each variable: its value between two values of
/// that variable is the weighted mean of those at 0 and at 1.
pub proof fn affine_in_each_variable(p: Seq<int>, x: Seq<int>, i: int, z: int)
    requires
        0 <= i < x.len(),
    ensures
        multilinear_eval(p, x.update(i, z)) == (1 - z) * multilinear_eval(p, x.update(i, 0)) + z
            * multilinear_eval(p, x.update(i, 1)),
    decreases x.len(),
{
    let half = p.len() as int / 2;
    let (lo, hi) = (p.take(half), p.skip(half));
    let xt = x.drop_first();
    if i == 0 {
        assert(x.update(0, z).drop_first() =~= xt);
        assert(x.update(0, 0).drop_first() =~= xt);
        assert(x.update(0, 1).drop_first() =~= xt);
        let (a, b) = (multilinear_eval(lo, xt), multilinear_eval(hi, xt));
        assert(multilinear_eval(p, x.update(0, 0)) == (1 - 0) * a + 0 * b);
        assert(multilinear_eval(p, x.update(0, 1)) == (1 - 1) * a + 1 * b);
        assert((1 - 0) * a + 0 * b == a) by (nonlinear_arith);
        assert((1 - 1) * a + 1 * b == b) by (nonlinear_arith);
    } else {
        affine_in_each_variable(lo, xt, i - 1, z);
        affine_in_each_variable(hi, xt, i - 1, z);
        assert(x.update(i, z).drop_first() =~= xt.update(i - 1, z));
        assert(x.update(i, 0).drop_first() =~= xt.update(i - 1, 0));
        assert(x.update(i, 1).drop_first() =~= xt.update(i - 1, 1));
        lemma_exchange(
            1 - x[0],
            1 - z,
            x[0],
            z,
            multilinear_eval(lo, xt.update(i - 1, 0)),
            multilinear_eval(lo, xt.update(i - 1, 1)),
            multilinear_eval(hi, xt.update(i - 1, 0)),
            multilinear_eval(hi, xt.update(i - 1, 1)),
        );
    }
}

/// Setting the last variable to `x` moves each even value towards the odd one after it.
pub proof fn folding_is_affine(p: Seq<int>, x: int, m: int, j: int)
    requires
        m > 0,
        0 <= j < p.len() as int / 2,
    ensures
        fold_poly(p, x, m).len() == p.len() / 2,
        fold_poly(p, x, m)[j] == (p[2 * j] + x * (p[2 * j + 1] - p[2 * j])) % m,
{
    let (a, b) = (p[2 * j], p[2 * j + 1]);
    assert(x * b + (1 - x) * a == a + x * (b - a)) by (nonlinear_arith);
}

/// The polynomial with its last `i` variables set has at every point `z` the value that the
/// whole polynomial has at `z`, continued by the last `i` coordinates of `x`.
pub proof fn folding_sets_last_variables(p: Seq<int>, x: Seq<int>, i: nat, z: Seq<int>, m: int)
    requires
        m > 0,
        p.len() == pow2(x.len()),
        i <= x.len(),
        z.len() == x.len() - i,
    ensures
        folded(p, x, i, m).len() == pow2(z.len()),
        folded_polys(p, x, m).len() == x.len() + 1,
        folded_polys(p, x, m)[i as int] == folded(p, x, i, m),
        i == 0 ==> folded(p, x, i, m) == p,
        i > 0 ==> forall|j: int|
            0 <= j < pow2(z.len()) ==> 0 <= #[trigger] folded(p, x, i, m)[j] < m,
        cong(
            multilinear_eval(folded(p, x, i, m), z),
            multilinear_eval(p, z + x.skip(x.len() - i)),
            m,
        ),
    decreases i,
{
    lemma_folded_len(p, x, i, m);
    if i == 0 {
        assert(z + x.skip(x.len() as int) =~= z);
    } else {
        let a = x[x.len() - i];
        let y = z.push(a);
        let q = folded(p, x, (i - 1) as nat, m);
        folding_sets_last_variables(p, x, (i - 1) as nat, y, m);
        assert(y + x.skip(x.len() - i + 1) =~= z + x.skip(x.len() - i));
        lemma_folded_len(p, x, (i - 1) as nat, m);
        lemma_fold_value(q, y, m);
        assert(y.last() == a);
        assert(y.drop_last() =~= z);
        assert forall|j: int| 0 <= j < pow2(z.len()) implies 0 <= #[trigger] folded(p, x, i, m)[j]
            < m by {
            lemma_reduce(a * q[2 * j + 1] + (1 - a) * q[2 * j], m);
        }
    }
}

} // verus!
