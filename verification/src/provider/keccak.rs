//! A transcript on top of the hash function Keccak-256.
use crate::bytes::{array_to_vec, le_bytes, le_value};
use crate::errors::NovaError;
use crate::traits::{Engine, TranscriptEngineTrait, TranscriptReprTrait};
use core::marker::PhantomData;
use sha3::Digest;
use vstd::prelude::*;
use vstd::slice::slice_to_vec;

verus! {

/// The Keccak-256 hash of an input.
pub uninterp spec fn keccak256(input: Seq<u8>) -> Seq<u8>;

/// `sha3::Keccak256` hashes an input to 32 bytes, which depend on the input alone.
#[verifier::external_body]
fn keccak256_digest(input: &[u8]) -> (r: [u8; 32])
    ensures
        r@ == keccak256(input@),
{
    sha3::Keccak256::digest(input).into()
}

/// The bytes `NoTR`, which every transcript starts with.
pub open spec fn persona_tag() -> Seq<u8> {
    seq![0x4eu8, 0x6fu8, 0x54u8, 0x52u8]
}

/// The bytes `NoDS`, which separate what was absorbed from the state.
pub open spec fn dom_sep_tag() -> Seq<u8> {
    seq![0x4eu8, 0x6fu8, 0x44u8, 0x53u8]
}

/// The 64 bytes that an input is hashed to: two hashes, told apart by their last byte.
pub open spec fn updated_state(input: Seq<u8>) -> Seq<u8> {
    keccak256(input.push(0)) + keccak256(input.push(1))
}

/// What a transcript consists of.
#[verifier::ext_equal]
pub struct TranscriptView {
    /// How many challenges it has given out.
    pub round: int,
    /// The state, from which the next challenge is derived.
    pub state: Seq<u8>,
    /// What it has absorbed since the last challenge.
    pub pending: Seq<u8>,
}

/// All that the next challenge depends on.
pub open spec fn squeeze_input(t: TranscriptView, label: Seq<u8>) -> Seq<u8> {
    t.pending + dom_sep_tag() + le_bytes(t.round, 2) + t.state + label
}

/// A transcript that hashes with Keccak-256.
pub struct Keccak256Transcript<E: Engine> {
    round: u16,
    state: [u8; 64],
    pending: Vec<u8>,
    _p: PhantomData<E>,
}

impl<E: Engine> View for Keccak256Transcript<E> {
    type V = TranscriptView;

    closed spec fn view(&self) -> TranscriptView {
        TranscriptView { round: self.round as int, state: self.state@, pending: self.pending@ }
    }
}

/// Hashes an input to 64 bytes.
fn compute_updated_state(input: &[u8]) -> (r: [u8; 64])
    ensures
        r@ == updated_state(input@),
{
    let mut data = slice_to_vec(input);
    data.push(0);
    let low = keccak256_digest(data.as_slice());
    assert(data@ =~= input@.push(0));
    let mut data = slice_to_vec(input);
    data.push(1);
    let high = keccak256_digest(data.as_slice());
    assert(data@ =~= input@.push(1));
    let mut r: [u8; 64] = [0u8; 64];
    let mut i: usize = 0;
    while i < 32
        invariant
            i <= 32,
            forall|j: int| 0 <= j < i ==> r@[j] == low@[j],
            forall|j: int| 0 <= j < i ==> r@[j + 32] == high@[j],
        decreases 32 - i,
    {
        r[i] = low[i];
        r[i + 32] = high[i];
        i = i + 1;
    }
    assert forall|j: int| 0 <= j < 64 implies r@[j] == updated_state(input@)[j] by {
        if j >= 32 {
            assert(r@[(j - 32) + 32] == high@[j - 32]);
        }
    }
    assert(r@ =~= updated_state(input@));
    r
}

impl<E: Engine> TranscriptEngineTrait<E> for Keccak256Transcript<E> {
    open spec fn initial(label: Seq<u8>) -> TranscriptView {
        TranscriptView {
            round: 0,
            state: updated_state(persona_tag() + label),
            pending: Seq::empty(),
        }
    }

    open spec fn absorbed(t: TranscriptView, label: Seq<u8>, bytes: Seq<u8>) -> TranscriptView {
        TranscriptView { pending: t.pending + label + bytes, ..t }
    }

    open spec fn challenge(t: TranscriptView, label: Seq<u8>) -> int {
        le_value(updated_state(squeeze_input(t, label))) % E::order()
    }

    open spec fn squeezed(t: TranscriptView, label: Seq<u8>) -> TranscriptView {
        TranscriptView {
            round: t.round + 1,
            state: updated_state(squeeze_input(t, label)),
            pending: Seq::empty(),
        }
    }

    open spec fn remaining(t: TranscriptView) -> nat {
        if 0 <= t.round <= 0xffff {
            (0xffff - t.round) as nat
        } else {
            0
        }
    }

    proof fn remaining_absorbed(t: TranscriptView, label: Seq<u8>, bytes: Seq<u8>) {
    }

    proof fn remaining_squeezed(t: TranscriptView, label: Seq<u8>) {
        E::order_range();
    }

    fn new(label: &[u8]) -> (r: Self) {
        let tag: [u8; 4] = [0x4eu8, 0x6fu8, 0x54u8, 0x52u8];
        let mut input = array_to_vec(&tag);
        let mut tail = slice_to_vec(label);
        input.append(&mut tail);
        proof {
            assert(tag@ =~= persona_tag());
            assert(input@ =~= persona_tag() + label@);
        }
        let state = compute_updated_state(input.as_slice());
        Keccak256Transcript { round: 0, state, pending: Vec::new(), _p: PhantomData }
    }

    fn absorb<R: TranscriptReprTrait>(&mut self, label: &[u8], o: &R) {
        let mut label = slice_to_vec(label);
        let mut bytes = o.to_transcript_bytes();
        self.pending.append(&mut label);
        self.pending.append(&mut bytes);
    }

    fn squeeze(&mut self, label: &[u8]) -> (r: Result<E::Scalar, NovaError>) {
        let Some(round) = self.round.checked_add(1) else {
            return Err(NovaError::InternalTranscriptError);
        };
        let tag: [u8; 4] = [0x4eu8, 0x6fu8, 0x44u8, 0x53u8];
        let mut input = slice_to_vec(self.pending.as_slice());
        let mut part = array_to_vec(&tag);
        input.append(&mut part);
        input.push((self.round % 256) as u8);
        input.push((self.round / 256) as u8);
        let mut part = array_to_vec(&self.state);
        input.append(&mut part);
        let mut part = slice_to_vec(label);
        input.append(&mut part);
        proof {
            assert(tag@ =~= dom_sep_tag());
            lemma_le_bytes_two(self.round);
            assert(input@ =~= squeeze_input(self@, label@));
        }
        let output = compute_updated_state(input.as_slice());
        self.round = round;
        self.state = output;
        self.pending = Vec::new();
        Ok(E::scalar_from_uniform(&output))
    }
}

proof fn lemma_le_bytes_two(v: u16)
    ensures
        le_bytes(v as int, 2) == seq![(v % 256) as u8, (v / 256) as u8],
{
    reveal_with_fuel(le_bytes, 3);
    let h = v as int / 256;
    assert(h % 256 == h);
    assert(le_bytes(v as int, 2) =~= seq![(v % 256) as u8, (v / 256) as u8]);
}

} // verus!
