# multilinear_kzg

Commitments to multilinear polynomials with proofs of their values, and Pedersen commitments
to vectors of scalars. The library is written in Rust and verified with Verus.

A multilinear polynomial in `ell` variables is committed to by the KZG commitment to the
univariate polynomial with the same `2^ell` values as coefficients. To prove its value at a
point, the prover sets one variable after the other, commits to the univariate polynomials
that arise, and opens all of them at `r`, `-r` and `r^2` in one batch. The verifier checks that
the values fit together and that a pairing equation holds.

## Layout

- `src/provider/mlkzg.rs`: the prover and the verifier; `mlkzg_laws.rs`: completeness.
- `src/provider/kzg.rs`: KZG parameters, keys and commitments.
- `src/provider/pedersen.rs`: Pedersen commitments and keys; `pedersen_laws.rs`: linearity.
- `src/provider/univariate.rs`, `arithmetic.rs`: polynomials and sums over the scalars.
- `src/provider/keccak.rs`: the transcript; `bn256.rs`: the curve, on top of `halo2curves`.
- `src/polynomial.rs`, `polynomial_laws.rs`, `modular.rs`: polynomials modulo the order.
- `src/parafold/prover.rs`: the start of a recursive computation over a cycle of curves.
- `app/`: serializable forms of the types, and memory dumps of keys and commitments.

## How to read the contracts

A scalar is viewed as its value and a group element as its discrete logarithm, both as
integers modulo the order of the group. So the group operation is addition, a commitment is a
sum of products, and a pairing equation is an equation between products. What the outside
crates are relied on for stands in `bn256.rs` and `keccak.rs`, each with the function that it
calls.
