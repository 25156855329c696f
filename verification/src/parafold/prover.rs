//! The prover of a non-uniform incrementally verifiable computation (NIVC).
use crate::provider::pedersen::CommitmentKey;
use crate::traits::Engine;
use vstd::prelude::*;

verus! {

/// A cycle of two curves, with what a recursive prover runs on them.
pub trait CurveCycleEquipped: Sized {
    type Primary: Engine;

    type Secondary: Engine;

    /// The shape of a circuit over the first curve.
    type R1CSShape;

    /// The shape of a circuit over the second curve.
    type SecondaryR1CSShape;

    /// The constants of the transcript.
    type TranscriptConstants;

    /// The state that is folded from step to step.
    type NIVCState;

    /// The proof of the last update of the state.
    type NIVCUpdateProof;

    /// The state before the first step, at the circuit `pc_init` with the input `z_init`,
    /// and the proof that goes with it. A cycle defines here what it starts from; the
    /// default says nothing of it, and no implementation of `init` can be proved by it.
    closed spec fn initial(
        shapes: Seq<Self::R1CSShape>,
        shape_cf: Self::SecondaryR1CSShape,
        ro_consts: Self::TranscriptConstants,
        pc_init: int,
        z_init: Seq<<Self::Primary as Engine>::Scalar>,
    ) -> (Self::NIVCState, Self::NIVCUpdateProof) {
        arbitrary()
    }

    /// Computes the state before the first step and the proof that goes with it.
    fn init(
        shapes: &Vec<Self::R1CSShape>,
        shape_cf: &Self::SecondaryR1CSShape,
        ro_consts: &Self::TranscriptConstants,
        pc_init: usize,
        z_init: Vec<<Self::Primary as Engine>::Scalar>,
    ) -> (r: (Self::NIVCState, Self::NIVCUpdateProof))
        requires
            pc_init < shapes@.len(),
        ensures
            r == Self::initial(shapes@, *shape_cf, *ro_consts, pc_init as int, z_init@),
    ;
}

/// The public parameters of the prover.
pub struct ProvingKey<E: CurveCycleEquipped> {
    pub ck: CommitmentKey<E::Primary>,
    pub ck_cf: CommitmentKey<E::Secondary>,
    /// The shape of each augmented step circuit. The last one is that of the merge circuit.
    pub shapes: Vec<E::R1CSShape>,
    pub shape_cf: E::SecondaryR1CSShape,
    pub ro_consts: E::TranscriptConstants,
}

/// A recursive argument: the folded state and the proof of its last update.
pub struct RecursiveSNARK<E: CurveCycleEquipped> {
    pub state: E::NIVCState,
    pub proof: E::NIVCUpdateProof,
}

impl<E: CurveCycleEquipped> RecursiveSNARK<E> {
    /// Starts a computation at the circuit `pc_init` with the input `z_init`.
    pub fn new(
        pk: &ProvingKey<E>,
        pc_init: usize,
        z_init: Vec<<E::Primary as Engine>::Scalar>,
    ) -> (r: Self)
        requires
            pc_init < pk.shapes@.len(),
        ensures
            (r.state, r.proof) == E::initial(
                pk.shapes@,
                pk.shape_cf,
                pk.ro_consts,
                pc_init as int,
                z_init@,
            ),
    {
        let (state, proof) = E::init(&pk.shapes, &pk.shape_cf, &pk.ro_consts, pc_init, z_init);
        RecursiveSNARK { state, proof }
    }
}

/// Starting a computation hands over the shapes, the constants, the circuit and the input as
/// they are; the commitment keys play no part in it.
pub proof fn start_depends_on_circuits_and_input<E: CurveCycleEquipped>(
    pk: &ProvingKey<E>,
    pk2: &ProvingKey<E>,
    pc_init: usize,
    z_init: Vec<<E::Primary as Engine>::Scalar>,
    r: RecursiveSNARK<E>,
    r2: RecursiveSNARK<E>,
)
    requires
        call_ensures(RecursiveSNARK::<E>::new, (pk, pc_init, z_init), r),
        call_ensures(RecursiveSNARK::<E>::new, (pk2, pc_init, z_init), r2),
    ensures
        (r.state, r.proof) == E::initial(
            pk.shapes@,
            pk.shape_cf,
            pk.ro_consts,
            pc_init as int,
            z_init@,
        ),
        pk2.shapes@ == pk.shapes@ && pk2.shape_cf == pk.shape_cf && pk2.ro_consts == pk.ro_consts
            ==> r2.state == r.state && r2.proof == r.proof,
{
}

} // verus!
