use bincode::Options;
use ff::{Field, PrimeField};
use halo2curves::bn256::Fr;
use multilinear_kzg::errors::NovaError;
use multilinear_kzg::provider::bn256::{Bn256EngineKZG, Bn256Point, Bn256Point2, Bn256Scalar};
use multilinear_kzg::provider::keccak::Keccak256Transcript;
use multilinear_kzg::provider::kzg::{
    KZGCommitmentEngine, KZGProverKey, KZGVerifierKey, UniversalKZGParam,
};
use multilinear_kzg::provider::mlkzg::{EvaluationArgument, EvaluationEngine};
use multilinear_kzg::provider::pedersen::Commitment;
use multilinear_kzg::traits::{Engine, Len, PairingEngine, TranscriptEngineTrait};
use rand::SeedableRng;

type E = Bn256EngineKZG;
type TE = Keccak256Transcript<E>;
type EE = EvaluationEngine<E, TE>;

fn scalar(v: u64) -> Bn256Scalar {
    E::scalar_from(v)
}

fn scalars(v: &[u64]) -> Vec<Bn256Scalar> {
    v.iter().map(|x| scalar(*x)).collect()
}

fn from_fr(v: &Fr) -> Bn256Scalar {
    Bn256Scalar::from_repr(v.to_repr()).unwrap()
}

fn reprs(v: &[Bn256Scalar]) -> Vec<[u8; 32]> {
    v.iter().map(|x| x.to_repr()).collect()
}

fn bytes(p: &Bn256Point) -> [u8; 32] {
    E::point_compress(p).bytes
}

/// Parameters derived from a label, with room for `n` coefficients and one more.
fn setup(label: &[u8], n: usize) -> UniversalKZGParam<E> {
    let mut seed = [0u8; 32];
    let len = label.len().min(32);
    seed[..len].copy_from_slice(&label[..len]);
    let mut rng = rand::rngs::StdRng::from_seed(seed);
    let beta = from_fr(&Fr::random(&mut rng));
    let g = E::point_mul(&Bn256Point::generator(), &from_fr(&Fr::random(&mut rng)));
    let h = E::point2_mul(&Bn256Point2::generator(), &from_fr(&Fr::random(&mut rng)));
    UniversalKZGParam::gen_srs(&beta, &g, &h, n.next_power_of_two())
}

fn evaluate_with(poly: &[Fr], point: &[Fr]) -> Fr {
    let mut v = poly.to_vec();
    for x in point {
        let half = v.len() / 2;
        v = (0..half).map(|i| v[i] + *x * (v[half + i] - v[i])).collect();
    }
    v[0]
}

struct Instance {
    ck: UniversalKZGParam<E>,
    pk: KZGProverKey<E>,
    vk: KZGVerifierKey<E>,
    c: Commitment<E>,
    poly: Vec<Bn256Scalar>,
    point: Vec<Bn256Scalar>,
}

fn instance(poly: &[u64], point: &[u64]) -> Instance {
    let ck = setup(b"test", poly.len());
    let (pk, vk) = EE::setup(&ck);
    let poly = scalars(poly);
    let c = KZGCommitmentEngine::commit(&ck, &poly);
    Instance { ck, pk, vk, c, poly, point: scalars(point) }
}

impl Instance {
    fn prove(&self, eval: u64) -> Result<EvaluationArgument<E>, NovaError> {
        let mut t = TE::new(b"TestEval");
        EE::prove(&self.ck, &self.pk, &mut t, &self.c, &self.poly, &self.point, &scalar(eval))
    }

    fn verify(&self, eval: u64, pi: &EvaluationArgument<E>) -> Result<(), NovaError> {
        let mut t = TE::new(b"TestEval");
        EE::verify(&self.vk, &mut t, &self.c, &self.point, &scalar(eval), pi)
    }
}

#[test]
fn test_mlkzg_eval() {
    // Test with poly(X1, X2) = 1 + X1 + X2 + X1*X2
    let n = 4;
    let ck: UniversalKZGParam<E> = setup(b"test", n);
    let (pk, _vk): (KZGProverKey<E>, KZGVerifierKey<E>) = EE::setup(&ck);

    // poly is in eval. representation; evaluated at [(0,0), (0,1), (1,0), (1,1)]
    let poly = vec![scalar(1), scalar(2), scalar(2), scalar(4)];

    let c = KZGCommitmentEngine::commit(&ck, &poly);
    let mut tr = TE::new(b"TestEval");

    // Call the prover with a (point, eval) pair. The prover recomputes
    // poly(point) = eval', and fails if eval' != eval
    let point = vec![scalar(0), scalar(0)];
    let eval = scalar(1);
    assert!(EE::prove(&ck, &pk, &mut tr, &c, &poly, &point, &eval).is_ok());

    let point = vec![scalar(0), scalar(1)];
    let eval = scalar(2);
    assert!(EE::prove(&ck, &pk, &mut tr, &c, &poly, &point, &eval).is_ok());

    let point = vec![scalar(1), scalar(1)];
    let eval = scalar(4);
    assert!(EE::prove(&ck, &pk, &mut tr, &c, &poly, &point, &eval).is_ok());

    let point = vec![scalar(0), scalar(2)];
    let eval = scalar(3);
    assert!(EE::prove(&ck, &pk, &mut tr, &c, &poly, &point, &eval).is_ok());

    let point = vec![scalar(2), scalar(2)];
    let eval = scalar(9);
    assert!(EE::prove(&ck, &pk, &mut tr, &c, &poly, &point, &eval).is_ok());

    // Try a couple incorrect evaluations and expect failure
    let point = vec![scalar(2), scalar(2)];
    let eval = scalar(50);
    assert!(EE::prove(&ck, &pk, &mut tr, &c, &poly, &point, &eval).is_err());

    let point = vec![scalar(0), scalar(2)];
    let eval = scalar(4);
    assert!(EE::prove(&ck, &pk, &mut tr, &c, &poly, &point, &eval).is_err());
}

#[test]
fn test_mlkzg() {
    let n = 4;

    // poly = [1, 2, 1, 4]
    let poly = vec![scalar(1), scalar(2), scalar(1), scalar(4)];

    // point = [4,3]
    let point = vec![scalar(4), scalar(3)];

    // eval = 28
    let eval = scalar(28);

    let ck: UniversalKZGParam<E> = setup(b"test", n);
    let (pk, vk): (KZGProverKey<E>, KZGVerifierKey<E>) = EE::setup(&ck);

    // make a commitment
    let c = KZGCommitmentEngine::commit(&ck, &poly);

    // prove an evaluation
    let mut prover_transcript = TE::new(b"TestEval");
    let proof = EE::prove(&ck, &pk, &mut prover_transcript, &c, &poly, &point, &eval).unwrap();
    let post_c_p = prover_transcript.squeeze(b"c").unwrap();

    // verify the evaluation
    let mut verifier_transcript = TE::new(b"TestEval");
    assert!(EE::verify(&vk, &mut verifier_transcript, &c, &point, &eval, &proof).is_ok());
    let post_c_v = verifier_transcript.squeeze(b"c").unwrap();

    // check if the prover transcript and verifier transcript are kept in the
    // same state
    assert_eq!(post_c_p.to_repr(), post_c_v.to_repr());

    let my_options = bincode::DefaultOptions::new().with_big_endian().with_fixint_encoding();
    let vk_bytes = (
        bytes(&vk.g).to_vec(),
        vk.h.to_raw_bytes().to_vec(),
        vk.beta_h.to_raw_bytes().to_vec(),
    );
    let proof_bytes = (
        proof.comms.iter().map(bytes).collect::<Vec<_>>(),
        proof.w.iter().map(bytes).collect::<Vec<_>>(),
        proof.evals.iter().map(|row| reprs(row)).collect::<Vec<_>>(),
    );
    let mut output_bytes = my_options.serialize(&vk_bytes).unwrap();
    output_bytes.append(&mut my_options.serialize(&c.compress().comm.bytes).unwrap());
    output_bytes.append(&mut my_options.serialize(&reprs(&point)).unwrap());
    output_bytes.append(&mut my_options.serialize(&eval.to_repr()).unwrap());
    output_bytes.append(&mut my_options.serialize(&proof_bytes).unwrap());
    println!("total output = {} bytes", output_bytes.len());

    // Change the proof and expect verification to fail
    let mut bad_proof = proof.clone();
    bad_proof.comms[0] = E::point_add(&bad_proof.comms[0], &bad_proof.comms[1]);
    let mut verifier_transcript2 = TE::new(b"TestEval");
    assert!(EE::verify(&vk, &mut verifier_transcript2, &c, &point, &eval, &bad_proof).is_err());
}

#[test]
fn test_mlkzg_more() {
    // test the mlkzg prover and verifier with random instances (derived from a seed)
    for ell in [4, 5, 6] {
        let mut rng = rand::rngs::StdRng::seed_from_u64(ell as u64);

        let n = 1 << ell; // n = 2^ell

        let poly = (0..n).map(|_| Fr::random(&mut rng)).collect::<Vec<_>>();
        let point = (0..ell).map(|_| Fr::random(&mut rng)).collect::<Vec<_>>();
        let eval = from_fr(&evaluate_with(&poly, &point));
        let poly = poly.iter().map(from_fr).collect::<Vec<_>>();
        let point = point.iter().map(from_fr).collect::<Vec<_>>();

        let ck: UniversalKZGParam<E> = setup(b"test", n);
        let (pk, vk): (KZGProverKey<E>, KZGVerifierKey<E>) = EE::setup(&ck);

        // make a commitment
        let c = KZGCommitmentEngine::commit(&ck, &poly);

        // prove an evaluation
        let mut prover_transcript = TE::new(b"TestEval");
        let proof: EvaluationArgument<E> =
            EE::prove(&ck, &pk, &mut prover_transcript, &c, &poly, &point, &eval).unwrap();

        // verify the evaluation
        let mut verifier_tr = TE::new(b"TestEval");
        assert!(EE::verify(&vk, &mut verifier_tr, &c, &point, &eval, &proof).is_ok());

        // Change the proof and expect verification to fail
        let mut bad_proof = proof.clone();
        bad_proof.comms[0] = E::point_add(&bad_proof.comms[0], &bad_proof.comms[1]);
        let mut verifier_tr2 = TE::new(b"TestEval");
        assert!(EE::verify(&vk, &mut verifier_tr2, &c, &point, &eval, &bad_proof).is_err());
    }
}

#[test]
fn wrong_value_is_unsat_and_leaves_the_transcript() {
    let i = instance(&[1, 2, 1, 4], &[4, 3]);
    let mut t = TE::new(b"TestEval");
    let r = EE::prove(&i.ck, &i.pk, &mut t, &i.c, &i.poly, &i.point, &scalar(29));
    assert!(matches!(r, Err(NovaError::UnSat)));
    let mut fresh = TE::new(b"TestEval");
    assert_eq!(t.squeeze(b"c").unwrap().to_repr(), fresh.squeeze(b"c").unwrap().to_repr());
}

#[test]
fn wrong_value_is_refused_by_the_verifier() {
    let i = instance(&[1, 2, 1, 4], &[4, 3]);
    let pi = i.prove(28).unwrap();
    assert_eq!(i.verify(28, &pi), Ok(()));
    assert_eq!(i.verify(27, &pi), Err(NovaError::ProofVerifyError));
}

#[test]
fn constants_have_no_variable_to_set() {
    let i = instance(&[5], &[]);
    assert!(matches!(i.prove(6), Err(NovaError::UnSat)));
    let pi = i.prove(5).unwrap();
    assert_eq!(pi.comms.len(), 0);
    assert_eq!(pi.w.len(), 3);
    assert_eq!(reprs(&pi.evals[0]), reprs(&scalars(&[5])));
    assert_eq!(i.verify(5, &pi), Ok(()));
    assert_eq!(i.verify(6, &pi), Err(NovaError::ProofVerifyError));
}

#[test]
fn zero_polynomial_is_refused() {
    let i = instance(&[0, 0, 0, 0], &[4, 3]);
    let pi = i.prove(0).unwrap();
    assert!(E::point_is_identity(&i.c.comm));
    assert_eq!(i.verify(0, &pi), Err(NovaError::ProofVerifyError));
}

#[test]
fn malformed_values_are_refused() {
    let i = instance(&[1, 2, 1, 4], &[4, 3]);
    let pi = i.prove(28).unwrap();
    let mut bad = pi.clone();
    bad.evals.pop();
    assert_eq!(i.verify(28, &bad), Err(NovaError::ProofVerifyError));
    for row in 0..3 {
        let mut bad = pi.clone();
        bad.evals[row].pop();
        assert_eq!(i.verify(28, &bad), Err(NovaError::ProofVerifyError));
    }
    let mut bad = pi.clone();
    bad.evals.push(scalars(&[1, 2, 3]));
    assert_eq!(i.verify(28, &bad), Err(NovaError::ProofVerifyError));
}

#[test]
fn changed_values_are_refused() {
    let i = instance(&[1, 2, 1, 4], &[4, 3]);
    let pi = i.prove(28).unwrap();
    for row in 0..3 {
        for col in 0..3 {
            let mut bad = pi.clone();
            bad.evals[row][col] = E::scalar_add(&bad.evals[row][col], &scalar(1));
            assert_eq!(i.verify(28, &bad), Err(NovaError::ProofVerifyError));
        }
    }
}

#[test]
fn changed_openings_are_refused() {
    let i = instance(&[1, 2, 1, 4], &[4, 3]);
    let pi = i.prove(28).unwrap();
    for t in 0..3 {
        let mut bad = pi.clone();
        bad.w[t] = E::point_add(&bad.w[t], &Bn256Point::generator());
        assert_eq!(i.verify(28, &bad), Err(NovaError::ProofVerifyError));
    }
}

#[test]
fn other_transcript_is_refused() {
    let i = instance(&[1, 2, 1, 4], &[4, 3]);
    let pi = i.prove(28).unwrap();
    let mut t = TE::new(b"Other");
    let r = EE::verify(&i.vk, &mut t, &i.c, &i.point, &scalar(28), &pi);
    assert_eq!(r, Err(NovaError::ProofVerifyError));
}

#[test]
fn proof_holds_commitments_to_the_folded_polynomials() {
    let i = instance(&[1, 2, 1, 4], &[4, 3]);
    let pi = i.prove(28).unwrap();
    // Setting the last variable to 3: [1 + 3, 1 + 9] = [4, 10]; then the first to 4: 28.
    let c1 = KZGCommitmentEngine::commit(&i.ck, &scalars(&[4, 10]));
    let c2 = KZGCommitmentEngine::commit(&i.ck, &scalars(&[28]));
    assert_eq!(pi.comms.len(), 2);
    assert_eq!(bytes(&pi.comms[0]), bytes(&c1.comm));
    assert_eq!(bytes(&pi.comms[1]), bytes(&c2.comm));
    assert_eq!(pi.evals[2][2].to_repr(), scalar(28).to_repr());
}

#[test]
fn challenges_follow_what_is_absorbed() {
    let i = instance(&[1, 2, 1, 4], &[4, 3]);
    let pi = i.prove(28).unwrap();
    let mut t = TE::new(b"TestEval");
    let r = EE::compute_challenge(&pi.comms, &mut t);
    let q = EE::get_batch_challenge(&pi.evals, &mut t);
    let d = EE::verifier_second_challenge(&pi.w, &mut t);

    let mut s = TE::new(b"TestEval");
    s.absorb(b"c", &pi.comms);
    assert_eq!(r.to_repr(), s.squeeze(b"c").unwrap().to_repr());
    let flat: Vec<Bn256Scalar> = pi.evals.iter().flatten().cloned().collect();
    s.absorb(b"v", &flat);
    assert_eq!(q.to_repr(), s.squeeze(b"r").unwrap().to_repr());
    s.absorb(b"W", &pi.w);
    assert_eq!(d.to_repr(), s.squeeze(b"d").unwrap().to_repr());
}

#[test]
fn powers_of_the_batch_challenge() {
    let p = EE::batch_challenge_powers(scalar(3), 4);
    assert_eq!(reprs(&p), reprs(&scalars(&[1, 3, 9, 27])));
    assert_eq!(EE::batch_challenge_powers(scalar(3), 0).len(), 0);
}

#[test]
fn keys_hold_the_parameters() {
    let ck = setup(b"test", 4);
    assert_eq!(ck.length(), 5);
    let (pk, vk) = EE::setup(&ck);
    assert_eq!(pk.powers_of_g.len(), 5);
    assert_eq!(bytes(&pk.powers_of_g[4]), bytes(&ck.powers_of_g[4]));
    assert_eq!(bytes(&vk.g), bytes(&ck.powers_of_g[0]));
    assert_eq!(vk.h.to_raw_bytes(), ck.powers_of_h[0].to_raw_bytes());
    assert_eq!(vk.beta_h.to_raw_bytes(), ck.powers_of_h[1].to_raw_bytes());
    let (pk, _) = ck.trim(2);
    assert_eq!(pk.powers_of_g.len(), 3);
}

#[test]
fn generated_parameters_are_powers_of_the_secret() {
    let beta = scalar(7);
    let g = Bn256Point::generator();
    let h = Bn256Point2::generator();
    let ck: UniversalKZGParam<E> = UniversalKZGParam::gen_srs(&beta, &g, &h, 3);
    for (i, power) in [7u64, 49, 343, 2401].iter().enumerate() {
        assert_eq!(bytes(&ck.powers_of_g[i]), bytes(&E::point_mul(&g, &scalar(*power))));
        assert_eq!(
            ck.powers_of_h[i].to_raw_bytes(),
            E::point2_mul(&h, &scalar(*power)).to_raw_bytes()
        );
    }
    // The commitment to 1 + 2x + 3x^2 is 7 times its value at 7, which is 162.
    let c = KZGCommitmentEngine::commit(&ck, &scalars(&[1, 2, 3]));
    assert_eq!(bytes(&c.comm), bytes(&E::point_mul(&g, &scalar(7 * 162))));
}

#[test]
fn wrong_value_of_a_constant_is_unsat() {
    let ck = setup(b"test", 1);
    let (pk, _vk) = EE::setup(&ck);
    let poly = scalars(&[7]);
    let c = KZGCommitmentEngine::commit(&ck, &poly);
    let mut tr = TE::new(b"TestEval");
    assert!(EE::prove(&ck, &pk, &mut tr, &c, &poly, &[], &scalar(8)).is_err());
    let mut fresh = TE::new(b"TestEval");
    assert_eq!(tr.squeeze(b"c").unwrap().to_repr(), fresh.squeeze(b"c").unwrap().to_repr());
    assert!(EE::prove(&ck, &pk, &mut tr, &c, &poly, &[], &scalar(7)).is_ok());
}
