//! KZG parameters and commitments to univariate polynomials.
use crate::modular::{cong, lemma_cong_add, lemma_cong_mul, lemma_reduce, lemma_small};
use crate::polynomial::{dot, lemma_dot_prefix, lemma_poly_push, poly_eval};
use crate::provider::arithmetic::{commit_log, vartime_multiscalar_mul};
use crate::provider::pedersen::Commitment;
use crate::traits::{Len, PairingEngine};
use crate::views::views;
use core::marker::PhantomData;
use vstd::arithmetic::mul::lemma_mul_is_commutative;
use vstd::arithmetic::power::{lemma_pow1, pow};
use vstd::prelude::*;
use vstd::slice::{slice_subrange, slice_to_vec};

verus! {

/// The powers of a secret in both groups, each times a group element.
pub struct UniversalKZGParam<E: PairingEngine> {
    pub powers_of_g: Vec<E::GE>,
    pub powers_of_h: Vec<E::GE2>,
}

/// What a prover needs: the powers in the first group.
pub struct KZGProverKey<E: PairingEngine> {
    pub powers_of_g: Vec<E::GE>,
}

/// What a verifier needs: the first power in the first group and the first two powers in
/// the second.
pub struct KZGVerifierKey<E: PairingEngine> {
    pub g: E::GE,
    pub h: E::GE2,
    pub beta_h: E::GE2,
}

/// The logarithms of a verifier key.
pub struct VerifierKeyView {
    pub g: int,
    pub h: int,
    pub beta_h: int,
}

impl<E: PairingEngine> View for KZGVerifierKey<E> {
    type V = VerifierKeyView;

    open spec fn view(&self) -> VerifierKeyView {
        VerifierKeyView { g: self.g@, h: self.h@, beta_h: self.beta_h@ }
    }
}

/// `g` holds the powers of `beta`, from the power 0 on, each times the first element.
pub open spec fn are_powers(g: Seq<int>, beta: int, m: int) -> bool {
    forall|i: int| 0 <= i < g.len() ==> cong(#[trigger] g[i], pow(beta, i as nat) * g[0], m)
}

impl<E: PairingEngine> UniversalKZGParam<E> {
    /// The logarithms of the powers in the first group.
    pub open spec fn g_logs(&self) -> Seq<int> {
        views(self.powers_of_g@)
    }

    /// The logarithms of the powers in the second group.
    pub open spec fn h_logs(&self) -> Seq<int> {
        views(self.powers_of_h@)
    }

    /// Takes the prover key with the powers up to `supported_size`, and the verifier key.
    pub fn trim(&self, supported_size: usize) -> (r: (KZGProverKey<E>, KZGVerifierKey<E>))
        requires
            supported_size < self.g_logs().len(),
            self.h_logs().len() >= 2,
        ensures
            views(r.0.powers_of_g@) == self.g_logs().take(supported_size + 1),
            r.1@ == (VerifierKeyView {
                g: self.g_logs()[0],
                h: self.h_logs()[0],
                beta_h: self.h_logs()[1],
            }),
    {
        let n: usize = self.powers_of_g.len();
        assert(supported_size < n);
        let kept = slice_subrange(self.powers_of_g.as_slice(), 0, supported_size + 1);
        let pk = KZGProverKey { powers_of_g: slice_to_vec(kept) };
        assert(views(pk.powers_of_g@) =~= self.g_logs().take(supported_size + 1));
        let vk = KZGVerifierKey {
            g: self.powers_of_g[0],
            h: self.powers_of_h[0],
            beta_h: self.powers_of_h[1],
        };
        (pk, vk)
    }

    /// The parameters for the secret `beta` and the elements `g` and `h` of the groups:
    /// the powers of `beta` from 1 to `max_degree + 1`.
    pub fn gen_srs(beta: &E::Scalar, g: &E::GE, h: &E::GE2, max_degree: usize) -> (r: Self)
        requires
            max_degree < usize::MAX,
        ensures
            r.g_logs() == secret_powers(g@, beta@, max_degree + 1, E::order()),
            r.h_logs() == secret_powers(h@, beta@, max_degree + 1, E::order()),
    {
        let ghost m = E::order();
        let ghost gs = secret_powers(g@, beta@, max_degree + 1, m);
        let ghost hs = secret_powers(h@, beta@, max_degree + 1, m);
        let mut powers_of_g: Vec<E::GE> = Vec::new();
        let mut powers_of_h: Vec<E::GE2> = Vec::new();
        let mut power = *beta;
        proof {
            E::order_range();
            E::scalar_view(*beta);
            lemma_pow1(beta@);
            lemma_small(beta@, m);
        }
        let mut i: usize = 0;
        while i <= max_degree
            invariant
                i <= max_degree + 1,
                max_degree < usize::MAX,
                m == E::order(),
                m > 1,
                gs == secret_powers(g@, beta@, max_degree + 1, m),
                hs == secret_powers(h@, beta@, max_degree + 1, m),
                power@ == pow(beta@, i as nat + 1) % m,
                views(powers_of_g@) == gs.take(i as int),
                views(powers_of_h@) == hs.take(i as int),
            decreases max_degree + 1 - i,
        {
            let p = E::point_mul(g, &power);
            let q = E::point2_mul(h, &power);
            proof {
                let b = pow(beta@, i as nat + 1);
                lemma_reduce(b, m);
                lemma_cong_mul(g@, g@, power@, b, m);
                lemma_cong_mul(h@, h@, power@, b, m);
                lemma_cong_mul(power@, b, beta@, beta@, m);
                lemma_pow_next(beta@, i as nat + 1);
            }
            let ghost before_g = powers_of_g@;
            let ghost before_h = powers_of_h@;
            powers_of_g.push(p);
            powers_of_h.push(q);
            assert(views(powers_of_g@) =~= views(before_g).push(p@));
            assert(views(powers_of_h@) =~= views(before_h).push(q@));
            assert(gs.take(i + 1) =~= gs.take(i as int).push(p@));
            assert(hs.take(i + 1) =~= hs.take(i as int).push(q@));
            power = E::scalar_mul(&power, beta);
            i = i + 1;
        }
        assert(gs.take(i as int) =~= gs);
        assert(hs.take(i as int) =~= hs);
        UniversalKZGParam { powers_of_g, powers_of_h }
    }
}

impl<E: PairingEngine> Len for UniversalKZGParam<E> {
    open spec fn len_spec(&self) -> nat {
        self.g_logs().len()
    }

    fn length(&self) -> (n: usize) {
        self.powers_of_g.len()
    }
}

/// The logarithms of `p` times the powers of `beta` from 1 to `n`.
pub open spec fn secret_powers(p: int, beta: int, n: int, m: int) -> Seq<int> {
    Seq::new(n as nat, |i: int| (p * pow(beta, i as nat + 1)) % m)
}

pub(crate) proof fn lemma_pow_next(b: int, n: nat)
    ensures
        pow(b, n + 1) == pow(b, n) * b,
        pow(b, n + 1) == b * pow(b, n),
{
    reveal(pow);
    lemma_mul_is_commutative(b, pow(b, n));
}

/// Provides commitments to polynomials by the powers of a secret.
pub struct KZGCommitmentEngine<E: PairingEngine> {
    _p: PhantomData<E>,
}

impl<E: PairingEngine> KZGCommitmentEngine<E> {
    /// Commits to the polynomial with coefficients `v`.
    pub fn commit(ck: &UniversalKZGParam<E>, v: &[E::Scalar]) -> (r: Commitment<E>)
        requires
            ck.g_logs().len() >= v.len(),
        ensures
            r@ == commit_log(ck.g_logs(), views(v@), E::order()),
    {
        let bases = slice_subrange(ck.powers_of_g.as_slice(), 0, v.len());
        proof {
            lemma_dot_prefix(views(v@), views(bases@), views(v@), ck.g_logs(), v@.len());
        }
        Commitment { comm: vartime_multiscalar_mul::<E>(v, bases) }
    }
}

/// Generated parameters hold the powers of the secret in both groups.
pub proof fn generated_powers(p: int, beta: int, n: int, m: int)
    requires
        m > 0,
        n > 0,
    ensures
        are_powers(secret_powers(p, beta, n, m), beta, m),
{
    let s = secret_powers(p, beta, n, m);
    assert forall|i: int| 0 <= i < s.len() implies cong(
        #[trigger] s[i],
        pow(beta, i as nat) * s[0],
        m,
    ) by {
        let b = pow(beta, i as nat);
        lemma_pow1(beta);
        lemma_reduce(p * beta, m);
        lemma_reduce(p * pow(beta, i as nat + 1), m);
        lemma_cong_mul(b, b, s[0], p * beta, m);
        lemma_pow_next(beta, i as nat);
        assert(b * (p * beta) == p * (b * beta)) by (nonlinear_arith);
    }
}

proof fn lemma_commit_evaluates(g: Seq<int>, f: Seq<int>, beta: int, n: nat, m: int)
    requires
        m > 0,
        n <= f.len() <= g.len(),
        are_powers(g, beta, m),
    ensures
        cong(dot(f, g, n), g[0] * poly_eval(f.take(n as int), beta), m),
    decreases n,
{
    if n == 0 {
        assert(f.take(0) =~= Seq::<int>::empty());
        assert(g[0] * 0 == 0);
    } else {
        let n1 = (n - 1) as nat;
        let (a, b) = (f[n1 as int], pow(beta, n1));
        lemma_commit_evaluates(g, f, beta, n1, m);
        assert(f.take(n as int) =~= f.take(n1 as int).push(a));
        lemma_poly_push(f.take(n1 as int), a, beta);
        assert(cong(g[n1 as int], b * g[0], m));
        lemma_cong_mul(a, a, g[n1 as int], b * g[0], m);
        let e = poly_eval(f.take(n1 as int), beta);
        lemma_cong_add(dot(f, g, n1), g[0] * e, a * g[n1 as int], a * (b * g[0]), m);
        let g0 = g[0];
        assert(g0 * (e + b * a) == g0 * e + a * (b * g0)) by (nonlinear_arith);
    }
}

/// With the powers of a secret, the commitment to a polynomial is the value of the
/// polynomial at the secret, times the first power.
pub proof fn commitment_evaluates(g: Seq<int>, f: Seq<int>, beta: int, m: int)
    requires
        m > 0,
        f.len() <= g.len(),
        are_powers(g, beta, m),
    ensures
        commit_log(g, f, m) == (g[0] * poly_eval(f, beta)) % m,
{
    lemma_commit_evaluates(g, f, beta, f.len(), m);
    assert(f.take(f.len() as int) =~= f);
}

} // verus!
