//! Laws of the transcript: what a challenge is hashed from, and how absorbing adds to it.
use crate::bytes::{le_value, value_of_le_bytes};
use crate::errors::NovaError;
use crate::provider::keccak::{keccak256, squeeze_input, Keccak256Transcript, TranscriptView};
use crate::traits::{Engine, TranscriptEngineTrait, TranscriptReprTrait};
use vstd::arithmetic::power::pow;
use vstd::prelude::*;

verus! {

/// The two bytes of a round, the lower first.
pub open spec fn round_bytes(round: int) -> Seq<u8> {
    seq![(round % 256) as u8, (round / 256) as u8]
}

/// All that a challenge is hashed from: what was absorbed since the last challenge, the tag
/// `NoDS`, the round, the state and the label.
pub open spec fn hashed_for_challenge(t: TranscriptView, label: Seq<u8>) -> Seq<u8> {
    t.pending + seq!['N' as u8, 'o' as u8, 'D' as u8, 'S' as u8] + round_bytes(t.round) + t.state
        + label
}

/// The 64 bytes of two Keccak-256 hashes of an input, told apart by a last byte.
pub open spec fn two_hashes(input: Seq<u8>) -> Seq<u8> {
    keccak256(input + seq![0u8]) + keccak256(input + seq![1u8])
}

/// A challenge is the value, reduced modulo the order, of two Keccak-256 hashes of all that
/// the transcript holds and the label. These hashes are the next state; the round goes up
/// and nothing is left pending.
pub proof fn challenge_hashes_everything<E: Engine>(t: TranscriptView, label: Seq<u8>)
    requires
        0 <= t.round < 0x10000,
    ensures
        <Keccak256Transcript<E> as TranscriptEngineTrait<E>>::challenge(t, label) == le_value(
            two_hashes(hashed_for_challenge(t, label)),
        ) % E::order(),
        <Keccak256Transcript<E> as TranscriptEngineTrait<E>>::squeezed(t, label) == (
        TranscriptView {
            round: t.round + 1,
            state: two_hashes(hashed_for_challenge(t, label)),
            pending: Seq::empty(),
        }),
{
    let input = hashed_for_challenge(t, label);
    lemma_round_bytes(t.round);
    assert(squeeze_input(t, label) =~= input);
    assert(input.push(0) =~= input + seq![0u8]);
    assert(input.push(1) =~= input + seq![1u8]);
}

proof fn lemma_round_bytes(round: int)
    requires
        0 <= round < 0x10000,
    ensures
        crate::bytes::le_bytes(round, 2) == round_bytes(round),
{
    reveal_with_fuel(crate::bytes::le_bytes, 3);
    let h = round / 256;
    assert(h % 256 == h);
    assert(crate::bytes::le_bytes(round, 2) =~= round_bytes(round));
}

/// The two bytes of a round have the round as their value, so no two rounds share them.
pub proof fn round_bytes_hold_the_round(round: int)
    requires
        0 <= round < 0x10000,
    ensures
        round_bytes(round).len() == 2,
        le_value(round_bytes(round)) == round,
{
    reveal_with_fuel(pow, 3);
    lemma_round_bytes(round);
    value_of_le_bytes(round, 2);
}

/// What is absorbed comes after all that was absorbed before, under its label, and changes
/// neither the state nor the round.
pub proof fn absorbing_appends<E: Engine>(
    t: TranscriptView,
    label: Seq<u8>,
    bytes: Seq<u8>,
    label2: Seq<u8>,
    bytes2: Seq<u8>,
)
    ensures
        ({
            let one = <Keccak256Transcript<E> as TranscriptEngineTrait<E>>::absorbed(
                t,
                label,
                bytes,
            );
            let two = <Keccak256Transcript<E> as TranscriptEngineTrait<E>>::absorbed(
                one,
                label2,
                bytes2,
            );
            &&& one.pending == t.pending + (label + bytes)
            &&& two.pending == t.pending + (label + bytes + label2 + bytes2)
            &&& two.round == t.round
            &&& two.state == t.state
        }),
{
    assert(t.pending + label + bytes =~= t.pending + (label + bytes));
    assert(t.pending + label + bytes + label2 + bytes2 =~= t.pending + (label + bytes + label2
        + bytes2));
}

/// A new transcript holds two Keccak-256 hashes of the tag `NoTR` and its label, and can
/// give out 65535 challenges; each uses up one.
pub proof fn new_transcript_hashes_its_label<E: Engine>(label: Seq<u8>, t: TranscriptView)
    ensures
        ({
            let start = <Keccak256Transcript<E> as TranscriptEngineTrait<E>>::initial(label);
            &&& start.round == 0
            &&& start.pending == Seq::<u8>::empty()
            &&& start.state == two_hashes(
                seq!['N' as u8, 'o' as u8, 'T' as u8, 'R' as u8] + label,
            )
        }),
        0 <= t.round < 0x10000 ==> <Keccak256Transcript<E> as TranscriptEngineTrait<
            E,
        >>::remaining(t) == 0xffff - t.round,
{
    let input = seq!['N' as u8, 'o' as u8, 'T' as u8, 'R' as u8] + label;
    assert(seq!['N' as u8, 'o' as u8, 'T' as u8, 'R' as u8]
        =~= crate::provider::keccak::persona_tag());
    assert(input.push(0) =~= input + seq![0u8]);
    assert(input.push(1) =~= input + seq![1u8]);
}

/// Transcripts that differ in what they absorbed, at equal lengths, or in their state, round
/// or label, hash different inputs for their next challenge.
pub proof fn different_transcripts_hash_differently(
    t: TranscriptView,
    t2: TranscriptView,
    label: Seq<u8>,
    label2: Seq<u8>,
)
    requires
        0 <= t.round < 0x10000,
        0 <= t2.round < 0x10000,
        t.pending.len() == t2.pending.len(),
        t.state.len() == t2.state.len(),
        squeeze_input(t, label) == squeeze_input(t2, label2),
    ensures
        t.pending == t2.pending,
        t.round == t2.round,
        t.state == t2.state,
        label == label2,
{
    lemma_round_bytes(t.round);
    lemma_round_bytes(t2.round);
    round_bytes_hold_the_round(t.round);
    round_bytes_hold_the_round(t2.round);
    let (a, b) = (squeeze_input(t, label), squeeze_input(t2, label2));
    let (p, s) = (t.pending.len() as int, t.state.len() as int);
    assert(t.pending =~= a.take(p));
    assert(t2.pending =~= b.take(p));
    assert(round_bytes(t.round) =~= a.subrange(p + 4, p + 6));
    assert(round_bytes(t2.round) =~= b.subrange(p + 4, p + 6));
    assert(t.state =~= a.subrange(p + 6, p + 6 + s));
    assert(t2.state =~= b.subrange(p + 6, p + 6 + s));
    assert(label =~= a.skip(p + 6 + s));
    assert(label2 =~= b.skip(p + 6 + s));
}

/// A call of `squeeze` gives out the value of the two hashes, or fails and changes nothing
/// when all rounds are used up.
pub proof fn squeeze_call<E: Engine>(
    t: &mut Keccak256Transcript<E>,
    label: &[u8],
    r: Result<E::Scalar, NovaError>,
)
    requires
        call_ensures(
            <Keccak256Transcript<E> as TranscriptEngineTrait<E>>::squeeze,
            (t, label),
            r,
        ),
        0 <= old(t)@.round < 0x10000,
    ensures
        old(t)@.round < 0xffff ==> {
            let hashes = two_hashes(hashed_for_challenge(old(t)@, label@));
            &&& r is Ok
            &&& r->Ok_0@ == le_value(hashes) % E::order()
            &&& final(t)@ == (TranscriptView {
                round: old(t)@.round + 1,
                state: hashes,
                pending: Seq::empty(),
            })
        },
        old(t)@.round == 0xffff ==> r == Err::<E::Scalar, NovaError>(
            NovaError::InternalTranscriptError,
        ) && final(t)@ == old(t)@,
{
    challenge_hashes_everything::<E>(old(t)@, label@);
    new_transcript_hashes_its_label::<E>(label@, old(t)@);
}

/// A call of `absorb` appends the label and the bytes of the value.
pub proof fn absorb_call<E: Engine, R: TranscriptReprTrait>(
    t: &mut Keccak256Transcript<E>,
    label: &[u8],
    o: &R,
)
    requires
        call_ensures(
            <Keccak256Transcript<E> as TranscriptEngineTrait<E>>::absorb::<R>,
            (t, label, o),
            (),
        ),
    ensures
        final(t)@ == (TranscriptView {
            round: old(t)@.round,
            state: old(t)@.state,
            pending: old(t)@.pending + (label@ + o.transcript_bytes()),
        }),
{
    absorbing_appends::<E>(old(t)@, label@, o.transcript_bytes(), label@, o.transcript_bytes());
}

/// A call of `new` hashes the tag and the label.
pub proof fn new_call<E: Engine>(label: &[u8], r: Keccak256Transcript<E>)
    requires
        call_ensures(<Keccak256Transcript<E> as TranscriptEngineTrait<E>>::new, (label,), r),
    ensures
        r@ == (TranscriptView {
            round: 0,
            state: two_hashes(seq!['N' as u8, 'o' as u8, 'T' as u8, 'R' as u8] + label@),
            pending: Seq::empty(),
        }),
{
    new_transcript_hashes_its_label::<E>(label@, r@);
}

} // verus!
