//! Arithmetic modulo `m`: how sums, differences and products behave when their
//! operands are replaced by congruent ones.
use vstd::arithmetic::div_mod::*;
use vstd::prelude::*;

verus! {

/// `a` and `b` leave the same remainder modulo `m`.
pub open spec fn cong(a: int, b: int, m: int) -> bool {
    a % m == b % m
}

/// `a` times `z` is a multiple of `m`.
pub open spec fn annihilates(a: int, z: int, m: int) -> bool {
    (a * z) % m == 0
}

/// The factor `a` can be cancelled modulo `m`: it is no zero divisor.
pub open spec fn cancels(a: int, m: int) -> bool {
    forall|z: int| #[trigger] annihilates(a, z, m) ==> z % m == 0
}

/// `m` is more than 1 and has no divisor but 1 and itself.
pub open spec fn is_prime(m: int) -> bool {
    m > 1 && forall|d: int| 1 < d < m ==> #[trigger] (m % d) != 0
}

/// Modulo a prime, every factor that is not 0 can be cancelled.
pub proof fn prime_cancels(a: int, m: int)
    requires
        is_prime(m),
        0 < a < m,
    ensures
        cancels(a, m),
{
    assert forall|z: int| #[trigger] annihilates(a, z, m) implies z % m == 0 by {
        lemma_prime_divides(a, z, m);
    }
}

proof fn lemma_prime_divides(a: int, z: int, m: int)
    requires
        is_prime(m),
        0 < a < m,
        (a * z) % m == 0,
    ensures
        z % m == 0,
    decreases a,
{
    if a == 1 {
        assert(1 * z == z);
    } else {
        let q = m / a;
        let s = m % a;
        lemma_fundamental_div_mod(m, a);
        assert(s != 0);
        assert(s * z == m * z - q * (a * z)) by (nonlinear_arith)
            requires
                m == a * q + s,
        ;
        lemma_small(0, m);
        lemma_mod_multiples_basic(z, m);
        assert(m * z == z * m) by (nonlinear_arith);
        lemma_cong_mul(q, q, a * z, 0, m);
        assert(q * 0 == 0);
        lemma_cong_sub(m * z, 0, q * (a * z), 0, m);
        lemma_prime_divides(s, z, m);
    }
}

/// Modulo an odd prime, twice a factor that is not 0 can be cancelled.
pub proof fn odd_prime_cancels_double(r: int, m: int)
    requires
        is_prime(m),
        m > 2,
        0 < r < m,
    ensures
        cancels(2 * r, m),
{
    assert forall|z: int| #[trigger] annihilates(2 * r, z, m) implies z % m == 0 by {
        assert(2 * r * z == 2 * (r * z)) by (nonlinear_arith);
        lemma_prime_divides(2, r * z, m);
        lemma_prime_divides(r, z, m);
    }
}

pub(crate) proof fn lemma_reduce(a: int, m: int)
    requires
        m > 0,
    ensures
        cong(a % m, a, m),
        0 <= a % m < m,
{
    lemma_mod_twice(a, m);
}

pub(crate) proof fn lemma_small(a: int, m: int)
    requires
        0 <= a < m,
    ensures
        a % m == a,
{
    lemma_small_mod(a as nat, m as nat);
}

pub(crate) proof fn lemma_cong_add(a: int, a2: int, b: int, b2: int, m: int)
    requires
        m > 0,
        cong(a, a2, m),
        cong(b, b2, m),
    ensures
        cong(a + b, a2 + b2, m),
{
    lemma_add_mod_noop(a, b, m);
    lemma_add_mod_noop(a2, b2, m);
}

pub(crate) proof fn lemma_cong_sub(a: int, a2: int, b: int, b2: int, m: int)
    requires
        m > 0,
        cong(a, a2, m),
        cong(b, b2, m),
    ensures
        cong(a - b, a2 - b2, m),
{
    lemma_sub_mod_noop(a, b, m);
    lemma_sub_mod_noop(a2, b2, m);
}

pub(crate) proof fn lemma_cong_mul(a: int, a2: int, b: int, b2: int, m: int)
    requires
        m > 0,
        cong(a, a2, m),
        cong(b, b2, m),
    ensures
        cong(a * b, a2 * b2, m),
{
    lemma_mul_mod_noop(a, b, m);
    lemma_mul_mod_noop(a2, b2, m);
}

/// Two numbers are congruent when their difference is a multiple of the modulus.
pub(crate) proof fn lemma_cong_zero(a: int, b: int, m: int)
    requires
        m > 0,
    ensures
        cong(a, b, m) <==> (a - b) % m == 0,
{
    if cong(a, b, m) {
        lemma_cong_sub(a, b, b, b, m);
        lemma_small(0, m);
    }
    if (a - b) % m == 0 {
        lemma_small(0, m);
        lemma_cong_add(a - b, 0, b, b, m);
    }
}

pub(crate) proof fn lemma_sum_of(r: int, a: int, a2: int, b: int, b2: int, m: int)
    requires
        m > 0,
        r == (a + b) % m,
        cong(a, a2, m),
        cong(b, b2, m),
    ensures
        cong(r, a2 + b2, m),
{
    lemma_reduce(a + b, m);
    lemma_cong_add(a, a2, b, b2, m);
}

pub(crate) proof fn lemma_difference_of(r: int, a: int, a2: int, b: int, b2: int, m: int)
    requires
        m > 0,
        r == (a - b) % m,
        cong(a, a2, m),
        cong(b, b2, m),
    ensures
        cong(r, a2 - b2, m),
{
    lemma_reduce(a - b, m);
    lemma_cong_sub(a, a2, b, b2, m);
}

pub(crate) proof fn lemma_product_of(r: int, a: int, a2: int, b: int, b2: int, m: int)
    requires
        m > 0,
        r == (a * b) % m,
        cong(a, a2, m),
        cong(b, b2, m),
    ensures
        cong(r, a2 * b2, m),
{
    lemma_reduce(a * b, m);
    lemma_cong_mul(a, a2, b, b2, m);
}

/// Numbers are congruent exactly when they differ by a multiple of the modulus.
pub proof fn congruent_means_multiple_apart(a: int, b: int, m: int)
    requires
        m > 0,
    ensures
        cong(a, b, m) <==> exists|k: int| a - b == #[trigger] (k * m),
{
    lemma_cong_zero(a, b, m);
    if cong(a, b, m) {
        let k = (a - b) / m;
        lemma_fundamental_div_mod(a - b, m);
        assert(m * k == k * m) by (nonlinear_arith);
        assert(a - b == k * m);
    }
    if exists|k: int| a - b == #[trigger] (k * m) {
        let k = choose|k: int| a - b == #[trigger] (k * m);
        lemma_mod_multiples_basic(k, m);
    }
}

} // verus!
