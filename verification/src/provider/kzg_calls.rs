//! What calls on KZG parameters, on polynomials and on sums give back, element by element.
use crate::polynomial::{batch_poly, dot, fold_poly, poly_eval, witness_poly};
use crate::provider::arithmetic::{inner_product, vartime_multiscalar_mul};
use crate::provider::kzg::{
    KZGCommitmentEngine, KZGProverKey, KZGVerifierKey, UniversalKZGParam,
};
use crate::provider::pedersen::Commitment;
use crate::provider::univariate::{
    compute_batch_polynomial, compute_witness_polynomial, evaluate, fold, scalar_vector_muladd,
};
use crate::traits::{Engine, Len, PairingEngine};
use crate::views::{views, views2};
use vstd::arithmetic::power::pow;
use vstd::prelude::*;

verus! {

/// The logarithms behind parameters and keys are those of the elements that they hold.
pub proof fn values_of_parameters<E: PairingEngine>(
    ck: UniversalKZGParam<E>,
    vk: KZGVerifierKey<E>,
    i: int,
)
    ensures
        ck.g_logs().len() == ck.powers_of_g@.len(),
        ck.h_logs().len() == ck.powers_of_h@.len(),
        0 <= i < ck.powers_of_g@.len() ==> ck.g_logs()[i] == ck.powers_of_g@[i]@,
        0 <= i < ck.powers_of_h@.len() ==> ck.h_logs()[i] == ck.powers_of_h@[i]@,
        ck.len_spec() == ck.powers_of_g@.len(),
        vk@.g == vk.g@,
        vk@.h == vk.h@,
        vk@.beta_h == vk.beta_h@,
{
}

/// Generated parameters hold, in both groups, the given element times the powers of the
/// secret, from the first one to that after `max_degree`.
pub proof fn gen_srs_call<E: PairingEngine>(
    beta: &E::Scalar,
    g: &E::GE,
    h: &E::GE2,
    max_degree: usize,
    r: UniversalKZGParam<E>,
)
    requires
        call_ensures(UniversalKZGParam::<E>::gen_srs, (beta, g, h, max_degree), r),
    ensures
        r.powers_of_g@.len() == max_degree + 1,
        r.powers_of_h@.len() == max_degree + 1,
        forall|i: int|
            0 <= i <= max_degree ==> (#[trigger] r.powers_of_g@[i])@ == (g@ * pow(
                beta@,
                (i + 1) as nat,
            )) % E::order(),
        forall|i: int|
            0 <= i <= max_degree ==> (#[trigger] r.powers_of_h@[i])@ == (h@ * pow(
                beta@,
                (i + 1) as nat,
            )) % E::order(),
{
    assert(r.g_logs().len() == r.powers_of_g@.len());
    assert(r.h_logs().len() == r.powers_of_h@.len());
    assert forall|i: int| 0 <= i <= max_degree implies (#[trigger] r.powers_of_g@[i])@ == (g@ * pow(
        beta@,
        (i + 1) as nat,
    )) % E::order() by {
        assert(r.g_logs()[i] == r.powers_of_g@[i]@);
    }
    assert forall|i: int| 0 <= i <= max_degree implies (#[trigger] r.powers_of_h@[i])@ == (h@ * pow(
        beta@,
        (i + 1) as nat,
    )) % E::order() by {
        assert(r.h_logs()[i] == r.powers_of_h@[i]@);
    }
}

/// Trimming keeps the powers up to the given one, and hands the verifier the first power of
/// the first group and the first two of the second.
pub proof fn trim_call<E: PairingEngine>(
    ck: &UniversalKZGParam<E>,
    n: usize,
    r: (KZGProverKey<E>, KZGVerifierKey<E>),
)
    requires
        n < ck.powers_of_g@.len(),
        ck.powers_of_h@.len() >= 2,
        call_ensures(UniversalKZGParam::<E>::trim, (ck, n), r),
    ensures
        r.0.powers_of_g@.len() == n + 1,
        forall|i: int|
            0 <= i <= n ==> (#[trigger] r.0.powers_of_g@[i])@ == ck.powers_of_g@[i]@,
        r.1.g@ == ck.powers_of_g@[0]@,
        r.1.h@ == ck.powers_of_h@[0]@,
        r.1.beta_h@ == ck.powers_of_h@[1]@,
{
    let kept = views(r.0.powers_of_g@);
    assert(kept.len() == r.0.powers_of_g@.len());
    assert(r.1@.g == r.1.g@ && r.1@.h == r.1.h@ && r.1@.beta_h == r.1.beta_h@);
    assert forall|i: int| 0 <= i <= n implies (#[trigger] r.0.powers_of_g@[i])@
        == ck.powers_of_g@[i]@ by {
        assert(kept[i] == r.0.powers_of_g@[i]@);
        assert(ck.g_logs()[i] == ck.powers_of_g@[i]@);
    }
}

/// A commitment is the sum, modulo the order, of the powers weighted by the coefficients.
pub proof fn kzg_commit_call<E: PairingEngine>(
    ck: &UniversalKZGParam<E>,
    v: &[E::Scalar],
    r: Commitment<E>,
)
    requires
        call_ensures(KZGCommitmentEngine::<E>::commit, (ck, v), r),
    ensures
        r.comm@ == dot(
            Seq::new(v@.len(), |i: int| v@[i]@),
            Seq::new(ck.powers_of_g@.len(), |i: int| ck.powers_of_g@[i]@),
            v@.len(),
        ) % E::order(),
{
    assert(views(v@) =~= Seq::new(v@.len(), |i: int| v@[i]@));
    assert(ck.g_logs() =~= Seq::new(ck.powers_of_g@.len(), |i: int| ck.powers_of_g@[i]@));
}

/// Sums of products: of scalars with group elements, and of scalars with scalars.
pub proof fn sum_calls<E: Engine>(
    a: &[E::Scalar],
    b: &[E::Scalar],
    p: &[E::GE],
    rp: E::GE,
    rs: E::Scalar,
)
    requires
        call_ensures(vartime_multiscalar_mul::<E>, (a, p), rp),
        call_ensures(inner_product::<E>, (a, b), rs),
    ensures
        rp@ == dot(
            Seq::new(a@.len(), |i: int| a@[i]@),
            Seq::new(p@.len(), |i: int| p@[i]@),
            a@.len(),
        ) % E::order(),
        rs@ == dot(
            Seq::new(a@.len(), |i: int| a@[i]@),
            Seq::new(b@.len(), |i: int| b@[i]@),
            a@.len(),
        ) % E::order(),
{
    assert(views(a@) =~= Seq::new(a@.len(), |i: int| a@[i]@));
    assert(views(b@) =~= Seq::new(b@.len(), |i: int| b@[i]@));
    assert(views(p@) =~= Seq::new(p@.len(), |i: int| p@[i]@));
}

/// Evaluating gives the value, folding moves each even coefficient towards the odd one after
/// it, and dividing by `X - u` gives coefficients that Horner's rule goes through.
pub proof fn polynomial_calls<E: Engine>(
    f: &[E::Scalar],
    u: &E::Scalar,
    value: E::Scalar,
    folded: Vec<E::Scalar>,
    h: Vec<E::Scalar>,
)
    requires
        call_ensures(evaluate::<E>, (f, u), value),
        call_ensures(fold::<E>, (f, u), folded),
        call_ensures(compute_witness_polynomial::<E>, (f, u), h),
    ensures
        value@ == poly_eval(Seq::new(f@.len(), |i: int| f@[i]@), u@) % E::order(),
        folded@.len() == f@.len() / 2,
        forall|j: int|
            0 <= j < folded@.len() ==> (#[trigger] folded@[j])@ == (f@[2 * j]@ + u@ * (f@[2 * j
                + 1]@ - f@[2 * j]@)) % E::order(),
        h@.len() == f@.len(),
        f@.len() > 0 ==> h@.last()@ == 0,
        forall|i: int|
            0 <= i < f@.len() - 1 ==> (#[trigger] h@[i])@ == (f@[i + 1]@ + u@ * h@[i + 1]@)
                % E::order(),
{
    E::order_range();
    let m = E::order();
    let c = views(f@);
    assert(c =~= Seq::new(f@.len(), |i: int| f@[i]@));
    let (fv, hv) = (views(folded@), views(h@));
    assert(fv == fold_poly(c, u@, m));
    assert(hv == witness_poly(c, u@, m));
    assert(fv.len() == folded@.len() && hv.len() == h@.len());
    assert forall|j: int| 0 <= j < folded@.len() implies (#[trigger] folded@[j])@ == (f@[2 * j]@
        + u@ * (f@[2 * j + 1]@ - f@[2 * j]@)) % m by {
        crate::multilinear_laws::folding_is_affine(c, u@, m, j);
        assert(fv[j] == folded@[j]@);
    }
    if f@.len() > 0 {
        crate::polynomial_laws::witness_coefficients(c, u@, m);
        assert(hv.last() == h@.last()@);
        assert forall|i: int| 0 <= i < f@.len() - 1 implies (#[trigger] h@[i])@ == (f@[i + 1]@
            + u@ * h@[i + 1]@) % m by {
            assert(hv[(i + 1) - 1] == (c[i + 1] + u@ * hv[i + 1]) % m);
            assert(hv[i] == h@[i]@ && hv[i + 1] == h@[i + 1]@);
        }
    }
}

/// Adding a multiple of a vector changes the coefficients that the vector has, and no
/// others.
pub proof fn muladd_call<E: Engine>(a: &mut Vec<E::Scalar>, v: &[E::Scalar], s: &E::Scalar)
    requires
        old(a)@.len() >= v@.len(),
        call_ensures(scalar_vector_muladd::<E>, (a, v, s), ()),
    ensures
        final(a)@.len() == old(a)@.len(),
        forall|i: int|
            0 <= i < v@.len() ==> (#[trigger] final(a)@[i])@ == (old(a)@[i]@ + s@ * v@[i]@)
                % E::order(),
        forall|i: int|
            v@.len() <= i < old(a)@.len() ==> (#[trigger] final(a)@[i])@ == old(a)@[i]@,
{
    let fv = views(final(a)@);
    assert(fv.len() == final(a)@.len());
    assert forall|i: int| 0 <= i < v@.len() implies (#[trigger] final(a)@[i])@ == (old(a)@[i]@ + s@
        * v@[i]@) % E::order() by {
        assert(fv[i] == final(a)@[i]@);
    }
    assert forall|i: int| v@.len() <= i < old(a)@.len() implies (#[trigger] final(a)@[i])@
        == old(a)@[i]@ by {
        assert(fv[i] == final(a)@[i]@);
    }
}

/// Batching gives the batched polynomial of all the polynomials, as long as the first.
pub proof fn batch_call<E: Engine>(
    f: &[Vec<E::Scalar>],
    q: &E::Scalar,
    q_powers: &[E::Scalar],
    b: Vec<E::Scalar>,
)
    requires
        f@.len() > 0,
        call_ensures(compute_batch_polynomial::<E>, (f, q, q_powers), b),
    ensures
        b@.len() == f@[0]@.len(),
        forall|i: int|
            0 <= i < b@.len() ==> (#[trigger] b@[i])@ == batch_poly(
                Seq::new(f@.len(), |j: int| Seq::new(f@[j]@.len(), |l: int| f@[j]@[l]@)),
                q@,
                E::order(),
            )[i],
{
    let bv = views(b@);
    let fs = Seq::new(f@.len(), |j: int| Seq::new(f@[j]@.len(), |l: int| f@[j]@[l]@));
    assert forall|j: int| 0 <= j < f@.len() implies views2(f@)[j] == fs[j] by {
        assert(views2(f@)[j] =~= fs[j]);
    }
    assert(views2(f@) =~= fs);
    assert(bv.len() == b@.len());
    assert forall|i: int| 0 <= i < b@.len() implies (#[trigger] b@[i])@ == batch_poly(
        fs,
        q@,
        E::order(),
    )[i] by {
        assert(bv[i] == b@[i]@);
    }
}

} // verus!
