use multilinear_kzg::parafold::prover::{CurveCycleEquipped, ProvingKey, RecursiveSNARK};
use multilinear_kzg::provider::bn256::{Bn256EngineKZG, Bn256Scalar};
use multilinear_kzg::provider::pedersen::CommitmentEngine;
use multilinear_kzg::traits::Engine;

struct Cycle;

impl CurveCycleEquipped for Cycle {
    type Primary = Bn256EngineKZG;
    type Secondary = Bn256EngineKZG;
    type R1CSShape = u64;
    type SecondaryR1CSShape = u64;
    type TranscriptConstants = u64;
    type NIVCState = (Vec<u64>, usize, usize);
    type NIVCUpdateProof = (u64, u64);

    fn init(
        shapes: &Vec<u64>,
        shape_cf: &u64,
        ro_consts: &u64,
        pc_init: usize,
        z_init: Vec<Bn256Scalar>,
    ) -> (Self::NIVCState, Self::NIVCUpdateProof) {
        ((shapes.clone(), pc_init, z_init.len()), (*shape_cf, *ro_consts))
    }
}

#[test]
fn computation_starts_from_the_initial_state() {
    let pk: ProvingKey<Cycle> = ProvingKey {
        ck: CommitmentEngine::setup(b"ck", 2),
        ck_cf: CommitmentEngine::setup(b"cf", 2),
        shapes: vec![10, 20, 30],
        shape_cf: 40,
        ro_consts: 50,
    };
    let z = vec![Bn256EngineKZG::scalar_from(1), Bn256EngineKZG::scalar_from(2)];
    let snark = RecursiveSNARK::new(&pk, 2, z);
    assert_eq!(snark.state, (vec![10, 20, 30], 2, 2));
    assert_eq!(snark.proof, (40, 50));
}

#[test]
fn commitment_keys_do_not_change_the_start() {
    let key = |label: &'static [u8]| -> ProvingKey<Cycle> {
        ProvingKey {
            ck: CommitmentEngine::setup(label, 2),
            ck_cf: CommitmentEngine::setup(label, 1),
            shapes: vec![10, 20, 30],
            shape_cf: 40,
            ro_consts: 50,
        }
    };
    let a = RecursiveSNARK::new(&key(b"one"), 0, vec![Bn256EngineKZG::scalar_from(1)]);
    let b = RecursiveSNARK::new(&key(b"two"), 0, vec![Bn256EngineKZG::scalar_from(1)]);
    assert_eq!(a.state, (vec![10, 20, 30], 0, 1));
    assert_eq!((a.state, a.proof), (b.state, b.proof));
}
