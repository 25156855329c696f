use multilinear_kzg::provider::arithmetic::inner_product;
use multilinear_kzg::provider::bn256::{Bn256EngineKZG, Bn256Scalar};
use multilinear_kzg::provider::univariate::{
    compute_batch_polynomial, compute_witness_polynomial, evaluate, fold, scalar_vector_muladd,
};
use multilinear_kzg::traits::Engine;

type E = Bn256EngineKZG;

fn scalars(v: &[u64]) -> Vec<Bn256Scalar> {
    v.iter().map(|x| E::scalar_from(*x)).collect()
}

fn reprs(v: &[Bn256Scalar]) -> Vec<[u8; 32]> {
    v.iter().map(|x| x.to_repr()).collect()
}

#[test]
fn evaluates_polynomials() {
    let f = scalars(&[1, 2, 3]);
    let v = evaluate::<E>(&f, &E::scalar_from(10));
    assert_eq!(v.to_repr(), E::scalar_from(321).to_repr());
    let v = evaluate::<E>(&[], &E::scalar_from(10));
    assert_eq!(v.to_repr(), E::scalar_from(0).to_repr());
}

#[test]
fn folds_pairs() {
    // 3 * odd - 2 * even
    let p = fold::<E>(&scalars(&[1, 2, 1, 4]), &E::scalar_from(3));
    assert_eq!(reprs(&p), reprs(&scalars(&[4, 10])));
    let p = fold::<E>(&scalars(&[1, 2, 9]), &E::scalar_from(3));
    assert_eq!(reprs(&p), reprs(&scalars(&[4])));
}

#[test]
fn divides_by_linear_factor() {
    // 1 + 2x + 3x^2 = (8 + 3x)(x - 2) + 17
    let f = scalars(&[1, 2, 3]);
    let h = compute_witness_polynomial::<E>(&f, &E::scalar_from(2));
    assert_eq!(reprs(&h), reprs(&scalars(&[8, 3, 0])));
    let v = evaluate::<E>(&f, &E::scalar_from(2));
    assert_eq!(v.to_repr(), E::scalar_from(17).to_repr());
    // At 5: 86 = 23 * 3 + 17.
    let at = evaluate::<E>(&h, &E::scalar_from(5));
    assert_eq!(at.to_repr(), E::scalar_from(23).to_repr());
    assert_eq!(compute_witness_polynomial::<E>(&[], &E::scalar_from(2)).len(), 0);
}

#[test]
fn adds_multiples_of_shorter_vectors() {
    let mut a = scalars(&[1, 2, 3]);
    scalar_vector_muladd::<E>(&mut a, &scalars(&[10, 20]), &E::scalar_from(5));
    assert_eq!(reprs(&a), reprs(&scalars(&[51, 102, 3])));
}

#[test]
fn batches_polynomials() {
    let f = vec![scalars(&[1, 2, 3, 4]), scalars(&[5, 6]), scalars(&[7])];
    let q = E::scalar_from(10);
    let b = compute_batch_polynomial::<E>(&f, &q, &scalars(&[1, 10, 100]));
    assert_eq!(reprs(&b), reprs(&scalars(&[751, 62, 3, 4])));
    // The value at 2 is that of the weighted sum: 49 + 10 * 17 + 100 * 7.
    let v = evaluate::<E>(&b, &E::scalar_from(2));
    assert_eq!(v.to_repr(), E::scalar_from(49 + 170 + 700).to_repr());
}

#[test]
fn adds_up_products() {
    let v = inner_product::<E>(&scalars(&[1, 2, 3]), &scalars(&[4, 5, 6]));
    assert_eq!(v.to_repr(), E::scalar_from(32).to_repr());
}

#[test]
fn value_from_even_and_odd_parts() {
    // 2r * f'(r^2) = r * (1 - x) * (f(r) + f(-r)) + x * (f(r) - f(-r))
    let f = scalars(&[3, 1, 4, 1, 5, 9, 2, 6]);
    let (x, r) = (E::scalar_from(11), E::scalar_from(13));
    let folded = fold::<E>(&f, &x);
    let pos = evaluate::<E>(&f, &r);
    let neg = evaluate::<E>(&f, &E::scalar_neg(&r));
    let square = evaluate::<E>(&folded, &E::scalar_mul(&r, &r));
    let left = E::scalar_mul(&E::scalar_from(26), &square);
    let weight = E::scalar_mul(&r, &E::scalar_sub(&E::scalar_from(1), &x));
    let even = E::scalar_mul(&weight, &E::scalar_add(&pos, &neg));
    let odd = E::scalar_mul(&x, &E::scalar_sub(&pos, &neg));
    assert!(E::scalar_eq(&left, &E::scalar_add(&even, &odd)));
}
