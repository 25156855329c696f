//! What calls on Pedersen commitments and keys give back, element by element.
use crate::errors::NovaError;
use crate::polynomial::dot;
use crate::provider::bn256::{g1_hash, group_order, shake256_byte, Bn256EngineKZG};
use crate::provider::bn256_laws::generators_hash_own_blocks;
use crate::provider::pedersen::{
    next_power_of_two, Commitment, CommitmentEngine, CommitmentKey, CommitmentKeyExtTrait,
    CompressedCommitment,
};
use crate::provider::pedersen_laws::key_length_is_least_power_of_two;
use crate::traits::{AbsorbInROTrait, Engine, Len, ROTrait, TranscriptReprTrait};
use crate::views::views;
use core::ops::{Add, Mul};
use vstd::arithmetic::power2::pow2;
use vstd::prelude::*;

verus! {

/// The values behind keys and commitments are those of what they hold.
pub proof fn values_of_keys_and_commitments<E: Engine>(
    ck: CommitmentKey<E>,
    c: Commitment<E>,
    z: CompressedCommitment<E>,
    i: int,
)
    ensures
        ck@.len() == ck.ck@.len(),
        0 <= i < ck.ck@.len() ==> ck@[i] == ck.ck@[i]@,
        ck.len_spec() == ck.ck@.len(),
        c@ == c.comm@,
        z@ == z.comm@,
{
}

/// A commitment is the sum, modulo the order, of the generators weighted by the scalars.
pub proof fn commit_call<E: Engine>(ck: &CommitmentKey<E>, v: &[E::Scalar], r: Commitment<E>)
    requires
        call_ensures(CommitmentEngine::<E>::commit, (ck, v), r),
    ensures
        r.comm@ == dot(
            Seq::new(v@.len(), |i: int| v@[i]@),
            Seq::new(ck.ck@.len(), |i: int| ck.ck@[i]@),
            v@.len(),
        ) % E::order(),
{
    assert(views(v@) =~= Seq::new(v@.len(), |i: int| v@[i]@));
    assert(ck@ =~= Seq::new(ck.ck@.len(), |i: int| ck.ck@[i]@));
}

/// A key made from a label has the generators of that label, and the least power of two of
/// them that is not less than what was asked for.
pub proof fn setup_call<E: Engine>(label: &[u8], n: usize, r: CommitmentKey<E>, e: nat)
    requires
        call_ensures(CommitmentEngine::<E>::setup, (label, n), r),
    ensures
        r.ck@.len() >= n,
        exists|j: nat| r.ck@.len() == #[trigger] pow2(j),
        pow2(e) >= n ==> r.ck@.len() <= pow2(e),
        forall|i: int|
            0 <= i < r.ck@.len() ==> (#[trigger] r.ck@[i])@ == E::generators(
                label@,
                r.ck@.len(),
            )[i],
{
    key_length_is_least_power_of_two(n as nat, e);
    assert(r@.len() == next_power_of_two(n as nat));
    assert forall|i: int| 0 <= i < r.ck@.len() implies (#[trigger] r.ck@[i])@ == E::generators(
        label@,
        r.ck@.len(),
    )[i] by {
        assert(r@[i] == r.ck@[i]@);
    }
}

/// On BN254, each generator of a key is hashed from 32 bytes of the label's stream of its
/// own.
pub proof fn bn256_setup_call(label: &[u8], n: usize, r: CommitmentKey<Bn256EngineKZG>)
    requires
        call_ensures(CommitmentEngine::<Bn256EngineKZG>::setup, (label, n), r),
    ensures
        forall|i: int|
            0 <= i < r.ck@.len() ==> (#[trigger] r.ck@[i])@ == g1_hash(
                "from_uniform_bytes"@,
                Seq::new(32, |j: int| shake256_byte(label@, (32 * i + j) as nat)),
            ) % group_order(),
{
    assert forall|i: int| 0 <= i < r.ck@.len() implies (#[trigger] r.ck@[i])@ == g1_hash(
        "from_uniform_bytes"@,
        Seq::new(32, |j: int| shake256_byte(label@, (32 * i + j) as nat)),
    ) % group_order() by {
        assert(r@[i] == r.ck@[i]@);
        generators_hash_own_blocks(label@, r.ck@.len(), i, i);
    }
}

/// Splitting keeps the order of the generators: the first `n` go left, the others right.
pub proof fn split_at_call<E: Engine>(
    ck: &CommitmentKey<E>,
    n: usize,
    r: (CommitmentKey<E>, CommitmentKey<E>),
)
    requires
        n <= ck.ck@.len(),
        call_ensures(
            <CommitmentKey<E> as CommitmentKeyExtTrait<E>>::split_at,
            (ck, n),
            r,
        ),
    ensures
        r.0.ck@.len() == n,
        r.1.ck@.len() == ck.ck@.len() - n,
        forall|i: int| 0 <= i < n ==> (#[trigger] r.0.ck@[i])@ == ck.ck@[i]@,
        forall|i: int| 0 <= i < ck.ck@.len() - n ==> (#[trigger] r.1.ck@[i])@ == ck.ck@[n + i]@,
{
    assert(r.0@.len() == r.0.ck@.len());
    assert(r.1@.len() == r.1.ck@.len());
    assert forall|i: int| 0 <= i < n implies (#[trigger] r.0.ck@[i])@ == ck.ck@[i]@ by {
        assert(r.0@[i] == r.0.ck@[i]@);
        assert(ck@[i] == ck.ck@[i]@);
    }
    assert forall|i: int| 0 <= i < ck.ck@.len() - n implies (#[trigger] r.1.ck@[i])@ == ck.ck@[n
        + i]@ by {
        assert(r.1@[i] == r.1.ck@[i]@);
        assert(ck@[n + i] == ck.ck@[n + i]@);
    }
}

/// Combining keeps all generators of both keys, those of the first before the others.
pub proof fn combine_call<E: Engine>(
    a: &CommitmentKey<E>,
    b: &CommitmentKey<E>,
    r: CommitmentKey<E>,
)
    requires
        call_ensures(<CommitmentKey<E> as CommitmentKeyExtTrait<E>>::combine, (a, b), r),
    ensures
        r.ck@.len() == a.ck@.len() + b.ck@.len(),
        forall|i: int| 0 <= i < a.ck@.len() ==> (#[trigger] r.ck@[i])@ == a.ck@[i]@,
        forall|i: int|
            a.ck@.len() <= i < r.ck@.len() ==> (#[trigger] r.ck@[i])@ == b.ck@[i - a.ck@.len()]@,
{
    assert(r@.len() == r.ck@.len());
    assert forall|i: int| 0 <= i < a.ck@.len() implies (#[trigger] r.ck@[i])@ == a.ck@[i]@ by {
        assert(r@[i] == r.ck@[i]@);
        assert(a@[i] == a.ck@[i]@);
    }
    assert forall|i: int| a.ck@.len() <= i < r.ck@.len() implies (#[trigger] r.ck@[i])@
        == b.ck@[i - a.ck@.len()]@ by {
        assert(r@[i] == r.ck@[i]@);
        assert(b@[i - a.ck@.len()] == b.ck@[i - a.ck@.len()]@);
    }
}

/// Folding adds up each generator of the left half, times the first weight, with the one at
/// the same place of the right half, times the second.
pub proof fn fold_call<E: Engine>(
    ck: &CommitmentKey<E>,
    w1: &E::Scalar,
    w2: &E::Scalar,
    r: CommitmentKey<E>,
)
    requires
        call_ensures(<CommitmentKey<E> as CommitmentKeyExtTrait<E>>::fold, (ck, w1, w2), r),
    ensures
        r.ck@.len() == ck.ck@.len() / 2,
        forall|i: int|
            0 <= i < r.ck@.len() ==> (#[trigger] r.ck@[i])@ == (w1@ * ck.ck@[i]@ + w2@
                * ck.ck@[ck.ck@.len() as int / 2 + i]@) % E::order(),
{
    assert(r@.len() == r.ck@.len());
    assert forall|i: int| 0 <= i < r.ck@.len() implies (#[trigger] r.ck@[i])@ == (w1@
        * ck.ck@[i]@ + w2@ * ck.ck@[ck.ck@.len() as int / 2 + i]@) % E::order() by {
        assert(r@[i] == r.ck@[i]@);
        assert(ck@[i] == ck.ck@[i]@);
    }
}

/// Scaling multiplies each generator.
pub proof fn scale_call<E: Engine>(ck: &CommitmentKey<E>, s: &E::Scalar, r: CommitmentKey<E>)
    requires
        call_ensures(<CommitmentKey<E> as CommitmentKeyExtTrait<E>>::scale, (ck, s), r),
    ensures
        r.ck@.len() == ck.ck@.len(),
        forall|i: int|
            0 <= i < r.ck@.len() ==> (#[trigger] r.ck@[i])@ == (s@ * ck.ck@[i]@) % E::order(),
{
    assert(r@.len() == r.ck@.len());
    assert forall|i: int| 0 <= i < r.ck@.len() implies (#[trigger] r.ck@[i])@ == (s@
        * ck.ck@[i]@) % E::order() by {
        assert(r@[i] == r.ck@[i]@);
    }
}

/// Commitments serve as a key exactly when all of them decode, and each generator is then
/// what the commitment at its place decodes to.
pub proof fn reinterpret_call<E: Engine>(
    c: &[CompressedCommitment<E>],
    r: Result<CommitmentKey<E>, NovaError>,
)
    requires
        call_ensures(
            <CommitmentKey<E> as CommitmentKeyExtTrait<E>>::reinterpret_commitments_as_ck,
            (c,),
            r,
        ),
    ensures
        r is Ok <==> forall|i: int|
            0 <= i < c@.len() ==> E::decompressed((#[trigger] c@[i]).comm@) is Some,
        r is Ok ==> r->Ok_0.ck@.len() == c@.len() && forall|i: int|
            0 <= i < c@.len() ==> E::decompressed((#[trigger] c@[i]).comm@) == Some(
                r->Ok_0.ck@[i]@,
            ),
        r is Err ==> r->Err_0 == NovaError::DecompressionError,
{
    if r is Ok {
        let ck = r->Ok_0;
        assert(ck@.len() == ck.ck@.len());
        assert forall|i: int| 0 <= i < c@.len() implies E::decompressed((#[trigger] c@[i]).comm@)
            == Some(ck.ck@[i]@) by {
            assert(E::decompressed(c@[i]@) == Some(ck@[i]));
        }
    } else {
        let i = choose|i: int| 0 <= i < c@.len() && E::decompressed(#[trigger] c@[i]@) is None;
        assert(E::decompressed(c@[i].comm@) is None);
    }
}

/// Compressing and decompressing: what is compressed decodes to the same element, and
/// decompressing gives the element that bytes decode to, or the error if there is none.
pub proof fn compress_and_decompress_calls<E: Engine>(
    c: &Commitment<E>,
    z: CompressedCommitment<E>,
    z2: &CompressedCommitment<E>,
    r: Result<Commitment<E>, NovaError>,
)
    requires
        call_ensures(Commitment::<E>::compress, (c,), z),
        call_ensures(Commitment::<E>::decompress, (z2,), r),
    ensures
        z.comm@ == E::compressed(c.comm@),
        E::decompressed(z.comm@) == Some(c.comm@),
        E::decompressed(z2.comm@) is Some ==> r is Ok && r->Ok_0.comm@ == E::decompressed(
            z2.comm@,
        )->0,
        E::decompressed(z2.comm@) is None ==> r == Err::<Commitment<E>, NovaError>(
            NovaError::DecompressionError,
        ),
        z2.comm@ == z.comm@ ==> r is Ok && r->Ok_0.comm@ == c.comm@,
{
}

/// The transcript bytes of a commitment are those of its two coordinates, and a last byte
/// that is 0 for the identity and 1 for all others.
pub proof fn transcript_bytes_of_commitment<E: Engine>(c: Commitment<E>)
    ensures
        ({
            let b = c.transcript_bytes();
            let (x, y) = E::coordinates(c.comm@);
            let (nx, ny) = (E::base_bytes(x).len() as int, E::base_bytes(y).len() as int);
            &&& b.len() == nx + ny + 1
            &&& b.take(nx) == E::base_bytes(x)
            &&& b.subrange(nx, nx + ny) == E::base_bytes(y)
            &&& c.comm@ == 0 ==> b.last() == 0
            &&& c.comm@ != 0 ==> b.last() == 1
        }),
{
    let b = c.transcript_bytes();
    let (x, y) = E::coordinates(c.comm@);
    let (nx, ny) = (E::base_bytes(x).len() as int, E::base_bytes(y).len() as int);
    assert(b.take(nx) =~= E::base_bytes(x));
    assert(b.subrange(nx, nx + ny) =~= E::base_bytes(y));
}

/// A commitment has the same transcript bytes as the point that it holds, and a compressed
/// one those of the compressed point.
pub proof fn commitment_bytes_are_point_bytes(
    c: Commitment<Bn256EngineKZG>,
    z: CompressedCommitment<Bn256EngineKZG>,
)
    ensures
        c.transcript_bytes() == c.comm.transcript_bytes(),
        z.transcript_bytes() == z.comm.transcript_bytes(),
{
    assert(c.transcript_bytes() =~= c.comm.transcript_bytes());
}

/// A random oracle absorbs the two coordinates of a commitment, and 1 for the identity or 0
/// for all others, after what it has absorbed before.
pub proof fn absorb_in_ro_call<E: Engine, R: ROTrait<E::Base>>(c: &Commitment<E>, ro: &mut R)
    requires
        call_ensures(<Commitment<E> as AbsorbInROTrait<E>>::absorb_in_ro::<R>, (c, ro), ()),
    ensures
        ({
            let (x, y) = E::coordinates(c.comm@);
            &&& final(ro)@.len() == old(ro)@.len() + 3
            &&& final(ro)@.take(old(ro)@.len() as int) == old(ro)@
            &&& final(ro)@[old(ro)@.len() as int] == x
            &&& final(ro)@[old(ro)@.len() as int + 1] == y
            &&& c.comm@ == 0 ==> final(ro)@.last() == 1
            &&& c.comm@ != 0 ==> final(ro)@.last() == 0
        }),
{
    assert(final(ro)@.take(old(ro)@.len() as int) =~= old(ro)@);
}

/// The operators add and multiply logarithms modulo the order, and the default is the
/// identity.
pub proof fn operator_calls<E: Engine>(
    a: Commitment<E>,
    b: Commitment<E>,
    s: E::Scalar,
    sum: Commitment<E>,
    product: Commitment<E>,
    product2: Commitment<E>,
    d: Commitment<E>,
)
    requires
        call_ensures(<Commitment<E> as Add>::add, (a, b), sum),
        call_ensures(<Commitment<E> as Mul<E::Scalar>>::mul, (a, s), product),
        call_ensures(<&Commitment<E> as Mul<&E::Scalar>>::mul, (&a, &s), product2),
        call_ensures(<Commitment<E> as Default>::default, (), d),
    ensures
        sum.comm@ == (a.comm@ + b.comm@) % E::order(),
        product.comm@ == (a.comm@ * s@) % E::order(),
        product2.comm@ == (a.comm@ * s@) % E::order(),
        d.comm@ == 0,
{
}

/// Keys are equal when they have the same generators in the same order, commitments when
/// they are the same group element, and compressed commitments when they have the same
/// bytes; a clone is equal to what was cloned.
pub proof fn equality_calls<E: Engine>(
    k: &CommitmentKey<E>,
    k2: &CommitmentKey<E>,
    rk: bool,
    c: &Commitment<E>,
    c2: &Commitment<E>,
    rc: bool,
    z: &CompressedCommitment<E>,
    z2: &CompressedCommitment<E>,
    rz: bool,
    copy: CommitmentKey<E>,
    i: int,
)
    requires
        call_ensures(<CommitmentKey<E> as PartialEq>::eq, (k, k2), rk),
        call_ensures(<Commitment<E> as PartialEq>::eq, (c, c2), rc),
        call_ensures(<CompressedCommitment<E> as PartialEq>::eq, (z, z2), rz),
        call_ensures(<CommitmentKey<E> as Clone>::clone, (k,), copy),
    ensures
        rk <==> k.ck@.len() == k2.ck@.len() && forall|j: int|
            0 <= j < k.ck@.len() ==> (#[trigger] k.ck@[j])@ == k2.ck@[j]@,
        rc <==> c.comm@ == c2.comm@,
        rz <==> z.comm@ == z2.comm@,
        copy.ck@.len() == k.ck@.len(),
        0 <= i < k.ck@.len() ==> copy.ck@[i]@ == k.ck@[i]@,
{
    assert(k@.len() == k.ck@.len() && k2@.len() == k2.ck@.len());
    assert(copy@.len() == copy.ck@.len());
    if rk {
        assert forall|j: int| 0 <= j < k.ck@.len() implies (#[trigger] k.ck@[j])@ == k2.ck@[j]@ by {
            assert(k@[j] == k2@[j]);
        }
    } else if k.ck@.len() == k2.ck@.len() && forall|j: int|
        0 <= j < k.ck@.len() ==> (#[trigger] k.ck@[j])@ == k2.ck@[j]@ {
        assert forall|j: int| 0 <= j < k@.len() implies k@[j] == k2@[j] by {
            assert(k.ck@[j]@ == k2.ck@[j]@);
        }
        assert(k@ =~= k2@);
    }
    if 0 <= i < k.ck@.len() {
        assert(copy@[i] == copy.ck@[i]@);
    }
}

/// The length of a key is the number of its generators.
pub proof fn length_call<E: Engine>(ck: &CommitmentKey<E>, n: usize)
    requires
        call_ensures(<CommitmentKey<E> as Len>::length, (ck,), n),
    ensures
        n == ck.ck@.len(),
{
}

/// The coordinates of a commitment are those of the element that it holds.
pub proof fn to_coordinates_call<E: Engine>(c: &Commitment<E>, r: (E::Base, E::Base, bool))
    requires
        call_ensures(Commitment::<E>::to_coordinates, (c,), r),
    ensures
        r.0@ == E::coordinates(c.comm@).0,
        r.1@ == E::coordinates(c.comm@).1,
        r.2 <==> c.comm@ == 0,
{
}

} // verus!
