//! Laws of Pedersen commitments: they are linear in the scalars and in the key.
use crate::modular::{cong, lemma_cong_add, lemma_cong_mul, lemma_reduce};
use crate::polynomial::{dot, lemma_dot_prefix};
use crate::polynomial_laws::combination;
use crate::provider::arithmetic::commit_log;
use crate::provider::pedersen::{fold_key, next_power_of_two, power_of_two_from, scale_key};
use crate::traits::Engine;
use vstd::arithmetic::mul::lemma_mul_is_distributive_add;
use vstd::arithmetic::power2::{
    lemma2_to64, lemma_pow2_strictly_increases, lemma_pow2_unfold, pow2,
};
use vstd::prelude::*;

verus! {

/// The sums of the scalars of two vectors.
pub open spec fn add_vectors(v: Seq<int>, w: Seq<int>, m: int) -> Seq<int> {
    Seq::new(v.len(), |i: int| (v[i] + w[i]) % m)
}

/// The scalars of a vector, multiplied by `s`.
pub open spec fn scale_vector(v: Seq<int>, s: int, m: int) -> Seq<int> {
    Seq::new(v.len(), |i: int| (v[i] * s) % m)
}

proof fn lemma_dot_cong(v: Seq<int>, g: Seq<int>, v2: Seq<int>, g2: Seq<int>, n: nat, m: int)
    requires
        m > 0,
        forall|i: int| 0 <= i < n ==> cong(#[trigger] v[i], v2[i], m),
        forall|i: int| 0 <= i < n ==> cong(#[trigger] g[i], g2[i], m),
    ensures
        cong(dot(v, g, n), dot(v2, g2, n), m),
    decreases n,
{
    if n > 0 {
        let k = n - 1;
        lemma_dot_cong(v, g, v2, g2, k as nat, m);
        assert(cong(v[k], v2[k], m));
        assert(cong(g[k], g2[k], m));
        lemma_cong_mul(v[k], v2[k], g[k], g2[k], m);
        lemma_cong_add(
            dot(v, g, k as nat),
            dot(v2, g2, k as nat),
            v[k] * g[k],
            v2[k] * g2[k],
            m,
        );
    }
}

proof fn lemma_dot_swap(v: Seq<int>, g: Seq<int>, n: nat)
    ensures
        dot(v, g, n) == dot(g, v, n),
    decreases n,
{
    if n > 0 {
        lemma_dot_swap(v, g, (n - 1) as nat);
        let (x, y) = (v[n - 1], g[n - 1]);
        assert(x * y == y * x) by (nonlinear_arith);
    }
}

proof fn lemma_dot_combination(v: Seq<int>, w: Seq<int>, a: int, b: int, g: Seq<int>, n: nat)
    requires
        n <= v.len(),
    ensures
        dot(combination(v, w, a, b), g, n) == a * dot(v, g, n) + b * dot(w, g, n),
    decreases n,
{
    if n == 0 {
        assert(a * 0 + b * 0 == 0);
    } else {
        let k = n - 1;
        lemma_dot_combination(v, w, a, b, g, k as nat);
        let (x, y, z) = (v[k], w[k], g[k]);
        let (p, q) = (dot(v, g, k as nat), dot(w, g, k as nat));
        let (xz, yz) = (x * z, y * z);
        assert((a * x + b * y) * z == a * xz + b * yz) by (nonlinear_arith)
            requires
                xz == x * z,
                yz == y * z,
        ;
        lemma_mul_is_distributive_add(a, p, xz);
        lemma_mul_is_distributive_add(b, q, yz);
    }
}

/// The commitment to a sum of two vectors is the sum of their commitments.
pub proof fn commit_is_additive(g: Seq<int>, v: Seq<int>, w: Seq<int>, m: int)
    requires
        m > 0,
        v.len() == w.len(),
        v.len() <= g.len(),
    ensures
        commit_log(g, add_vectors(v, w, m), m) == (commit_log(g, v, m) + commit_log(g, w, m)) % m,
{
    let s = add_vectors(v, w, m);
    let c = combination(v, w, 1, 1);
    let n = v.len();
    assert forall|i: int| 0 <= i < n implies cong(#[trigger] s[i], c[i], m) by {
        lemma_reduce(v[i] + w[i], m);
    }
    lemma_dot_cong(s, g, c, g, n, m);
    lemma_dot_combination(v, w, 1, 1, g, n);
    lemma_reduce(dot(v, g, n), m);
    lemma_reduce(dot(w, g, n), m);
    lemma_cong_add(commit_log(g, v, m), dot(v, g, n), commit_log(g, w, m), dot(w, g, n), m);
}

/// The commitment to a multiple of a vector is that multiple of its commitment.
pub proof fn commit_is_homogeneous(g: Seq<int>, v: Seq<int>, s: int, m: int)
    requires
        m > 0,
        v.len() <= g.len(),
    ensures
        commit_log(g, scale_vector(v, s, m), m) == (commit_log(g, v, m) * s) % m,
{
    let sv = scale_vector(v, s, m);
    let c = combination(v, v, s, 0);
    let n = v.len();
    assert forall|i: int| 0 <= i < n implies cong(#[trigger] sv[i], c[i], m) by {
        let x = v[i];
        lemma_reduce(x * s, m);
        assert(x * s == s * x + 0 * x) by (nonlinear_arith);
    }
    lemma_dot_cong(sv, g, c, g, n, m);
    lemma_dot_combination(v, v, s, 0, g, n);
    let d = dot(v, g, n);
    lemma_reduce(d, m);
    lemma_cong_mul(commit_log(g, v, m), d, s, s, m);
    assert(s * d + 0 * d == d * s) by (nonlinear_arith);
}

/// The commitment with a scaled key is the scaled commitment.
pub proof fn scaled_key_scales(g: Seq<int>, v: Seq<int>, r: int, m: int)
    requires
        m > 0,
        v.len() <= g.len(),
    ensures
        commit_log(scale_key(g, r, m), v, m) == (commit_log(g, v, m) * r) % m,
{
    let k = scale_key(g, r, m);
    let c = combination(g, g, r, 0);
    let n = v.len();
    assert forall|i: int| 0 <= i < n implies cong(#[trigger] k[i], c[i], m) by {
        let x = g[i];
        lemma_reduce(r * x, m);
        assert(r * x + 0 * x == r * x) by (nonlinear_arith);
    }
    lemma_dot_cong(v, k, v, c, n, m);
    lemma_dot_swap(v, c, n);
    lemma_dot_combination(g, g, r, 0, v, n);
    lemma_dot_swap(g, v, n);
    let d = dot(v, g, n);
    lemma_reduce(d, m);
    lemma_cong_mul(commit_log(g, v, m), d, r, r, m);
    assert(r * d + 0 * d == d * r) by (nonlinear_arith);
}

/// The commitment with a folded key is the weighted sum of the commitments with the two
/// halves of the key.
pub proof fn folded_key_combines(g: Seq<int>, v: Seq<int>, w1: int, w2: int, m: int)
    requires
        m > 0,
        2 * v.len() <= g.len(),
    ensures
        commit_log(fold_key(g, w1, w2, m), v, m) == (w1 * commit_log(
            g.take(g.len() as int / 2),
            v,
            m,
        ) + w2 * commit_log(g.skip(g.len() as int / 2), v, m)) % m,
{
    let half = g.len() as int / 2;
    let (left, right) = (g.take(half), g.skip(half));
    let k = fold_key(g, w1, w2, m);
    let c = combination(left, right, w1, w2);
    let n = v.len();
    assert forall|i: int| 0 <= i < n implies cong(#[trigger] k[i], c[i], m) by {
        assert(left[i] == g[i] && right[i] == g[half + i]);
        lemma_reduce(w1 * g[i] + w2 * g[half + i], m);
    }
    lemma_dot_cong(v, k, v, c, n, m);
    lemma_dot_swap(v, c, n);
    lemma_dot_combination(left, right, w1, w2, v, n);
    lemma_dot_swap(left, v, n);
    lemma_dot_swap(right, v, n);
    let (dl, dr) = (dot(v, left, n), dot(v, right, n));
    lemma_reduce(dl, m);
    lemma_reduce(dr, m);
    lemma_cong_mul(w1, w1, commit_log(left, v, m), dl, m);
    lemma_cong_mul(w2, w2, commit_log(right, v, m), dr, m);
    lemma_cong_add(
        w1 * commit_log(left, v, m),
        w1 * dl,
        w2 * commit_log(right, v, m),
        w2 * dr,
        m,
    );
}

/// Combining the two pieces that a key is split into gives the key back.
pub proof fn split_then_combine(g: Seq<int>, n: int)
    requires
        0 <= n <= g.len(),
    ensures
        g.take(n) + g.skip(n) == g,
{
    assert(g.take(n) + g.skip(n) =~= g);
}

/// Splitting a combined key where the first key ends gives both keys back.
pub proof fn combine_then_split(g: Seq<int>, h: Seq<int>)
    ensures
        (g + h).take(g.len() as int) == g,
        (g + h).skip(g.len() as int) == h,
{
    assert((g + h).take(g.len() as int) =~= g);
    assert((g + h).skip(g.len() as int) =~= h);
}

proof fn lemma_dot_concat(v: Seq<int>, g: Seq<int>, w: Seq<int>, h: Seq<int>, n: nat)
    requires
        v.len() == g.len(),
        n <= w.len(),
        n <= h.len(),
    ensures
        dot(v + w, g + h, v.len() + n) == dot(v, g, v.len()) + dot(w, h, n),
    decreases n,
{
    if n == 0 {
        lemma_dot_prefix(v + w, g + h, v, g, v.len());
    } else {
        lemma_dot_concat(v, g, w, h, (n - 1) as nat);
        assert((v + w)[v.len() + n - 1] == w[n - 1]);
        assert((g + h)[v.len() + n - 1] == h[n - 1]);
    }
}

/// With a combined key, the commitment to a first vector that uses up the first key and a
/// second one after it is the sum of both commitments.
pub proof fn combined_key_adds(g: Seq<int>, h: Seq<int>, v: Seq<int>, w: Seq<int>, m: int)
    requires
        m > 0,
        v.len() == g.len(),
        w.len() <= h.len(),
    ensures
        commit_log(g + h, v + w, m) == (commit_log(g, v, m) + commit_log(h, w, m)) % m,
{
    lemma_dot_concat(v, g, w, h, w.len());
    let (a, b) = (dot(v, g, v.len()), dot(w, h, w.len()));
    lemma_reduce(a, m);
    lemma_reduce(b, m);
    lemma_cong_add(commit_log(g, v, m), a, commit_log(h, w, m), b, m);
}

proof fn lemma_power_of_two_from_least(p: nat, k: nat, n: nat, e: nat)
    requires
        p == pow2(k),
        k == 0 || pow2((k - 1) as nat) < n,
    ensures
        power_of_two_from(p, n) >= n,
        exists|j: nat| power_of_two_from(p, n) == #[trigger] pow2(j),
        pow2(e) >= n ==> power_of_two_from(p, n) <= pow2(e),
    decreases if p < n { n - p } else { 0 },
{
    lemma_pow2_unfold(k + 1);
    lemma2_to64();
    if k > 0 {
        lemma_pow2_strictly_increases(0, k);
    }
    if p < n {
        lemma_power_of_two_from_least(2 * p, k + 1, n, e);
    } else {
        assert(power_of_two_from(p, n) == pow2(k));
        if pow2(e) >= n && e < k {
            if e < k - 1 {
                lemma_pow2_strictly_increases(e, (k - 1) as nat);
            }
        } else if e > k {
            lemma_pow2_strictly_increases(k, e);
        }
    }
}

/// A key has the least power of two of generators that is not less than what was asked
/// for.
pub proof fn key_length_is_least_power_of_two(n: nat, e: nat)
    ensures
        next_power_of_two(n) >= n,
        exists|j: nat| next_power_of_two(n) == #[trigger] pow2(j),
        pow2(e) >= n ==> next_power_of_two(n) <= pow2(e),
{
    lemma2_to64();
    lemma_power_of_two_from_least(1, 0, n, e);
}

/// A key that is read from compressed commitments holds what was compressed: `c` are bytes
/// that compressing the elements of `g` gives, and `ck` is what they are read as.
pub proof fn compressed_key_reads_back<E: Engine>(g: Seq<int>, c: Seq<Seq<u8>>, ck: Seq<int>)
    requires
        g.len() == c.len(),
        ck.len() == c.len(),
        forall|i: int| 0 <= i < c.len() ==> E::decompressed(#[trigger] c[i]) == Some(g[i]),
        forall|i: int| 0 <= i < c.len() ==> E::decompressed(#[trigger] c[i]) == Some(ck[i]),
    ensures
        ck == g,
{
    assert forall|i: int| 0 <= i < c.len() implies ck[i] == g[i] by {
        assert(E::decompressed(c[i]) == Some(g[i]));
    }
    assert(ck =~= g);
}

/// The commitment to a vector with one scalar other than 0 is that scalar times the
/// generator at its place.
pub proof fn commit_to_single_scalar(g: Seq<int>, n: nat, i: int, s: int, m: int)
    requires
        m > 0,
        0 <= i < n <= g.len(),
    ensures
        commit_log(g, Seq::new(n, |j: int| if j == i { s } else { 0 }), m) == (s * g[i]) % m,
{
    let v = Seq::new(n, |j: int| if j == i { s } else { 0 });
    lemma_dot_single(g, v, i, s, n);
}

proof fn lemma_dot_single(g: Seq<int>, v: Seq<int>, i: int, s: int, n: nat)
    requires
        0 <= i,
        n <= v.len(),
        forall|j: int| 0 <= j < v.len() ==> #[trigger] v[j] == if j == i { s } else { 0 },
    ensures
        dot(v, g, n) == if i < n { s * g[i] } else { 0 },
    decreases n,
{
    if n > 0 {
        lemma_dot_single(g, v, i, s, (n - 1) as nat);
        let y = g[n - 1];
        assert(v[n - 1] == if n - 1 == i { s } else { 0 });
        assert(0 * y == 0);
    }
}

} // verus!
