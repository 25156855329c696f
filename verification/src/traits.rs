//! What the commitment schemes ask of a curve, of a transcript and of a random oracle.
//!
//! An element of a group of prime order is viewed as its discrete logarithm to the base
//! of a fixed generator, an integer modulo the order. In this view the group operation
//! is addition, and a scalar acts by multiplication.
use crate::bytes::le_value;
use crate::errors::NovaError;
use vstd::prelude::*;

verus! {

/// A value that can be absorbed by a transcript.
pub trait TranscriptReprTrait {
    /// The bytes that stand for the value in a transcript.
    spec fn transcript_bytes(&self) -> Seq<u8>;

    fn to_transcript_bytes(&self) -> (bytes: Vec<u8>)
        ensures
            bytes@ == self.transcript_bytes(),
    ;
}

/// The transcript bytes of the elements of a vector, one after the other.
pub open spec fn concat_bytes<T: TranscriptReprTrait>(s: Seq<T>) -> Seq<u8>
    decreases s.len(),
{
    if s.len() == 0 {
        Seq::empty()
    } else {
        concat_bytes(s.drop_last()) + s.last().transcript_bytes()
    }
}

impl<T: TranscriptReprTrait> TranscriptReprTrait for Vec<T> {
    open spec fn transcript_bytes(&self) -> Seq<u8> {
        concat_bytes(self@)
    }

    fn to_transcript_bytes(&self) -> (bytes: Vec<u8>) {
        let mut bytes: Vec<u8> = Vec::new();
        let mut i: usize = 0;
        while i < self.len()
            invariant
                i <= self.len(),
                bytes@ == concat_bytes(self@.take(i as int)),
            decreases self.len() - i,
        {
            let mut part = self[i].to_transcript_bytes();
            bytes.append(&mut part);
            assert(self@.take(i + 1).drop_last() =~= self@.take(i as int));
            i = i + 1;
        }
        assert(self@.take(i as int) =~= self@);
        bytes
    }
}

/// A group of prime order on a curve, with its field of scalars and the field of the
/// coordinates of its points.
pub trait Engine: Sized {
    /// The integers modulo the order of the group.
    type Scalar: Copy + View<V = int> + TranscriptReprTrait;

    /// The field that the coordinates of the points lie in.
    type Base: Copy + View<V = int> + TranscriptReprTrait;

    /// The group. An element is viewed as its discrete logarithm.
    type GE: Copy + View<V = int> + TranscriptReprTrait;

    /// A compressed group element, viewed as its bytes.
    type Compressed: Copy + View<V = Seq<u8>> + TranscriptReprTrait;

    /// The order of the group.
    spec fn order() -> int;

    /// The transcript bytes of the scalar `s`.
    spec fn scalar_bytes(s: int) -> Seq<u8>;

    /// The transcript bytes of the coordinate `v`.
    spec fn base_bytes(v: int) -> Seq<u8>;

    /// The transcript bytes of the group element with logarithm `k`.
    spec fn point_bytes(k: int) -> Seq<u8>;

    /// The affine coordinates of the group element with logarithm `k`, and `(0, 0)`
    /// for the identity.
    spec fn coordinates(k: int) -> (int, int);

    /// The compressed form of the group element with logarithm `k`.
    spec fn compressed(k: int) -> Seq<u8>;

    /// The logarithm of the group element that the bytes decode to.
    spec fn decompressed(bytes: Seq<u8>) -> Option<int>;

    /// The logarithms of the generators that are derived from a label.
    spec fn generators(label: Seq<u8>, n: nat) -> Seq<int>;

    /// The order is more than 1.
    proof fn order_range()
        ensures
            Self::order() > 1,
    ;

    /// Scalars are reduced, and their transcript bytes depend on their value alone.
    proof fn scalar_view(s: Self::Scalar)
        ensures
            0 <= s@ < Self::order(),
            s.transcript_bytes() == Self::scalar_bytes(s@),
    ;

    /// The transcript bytes of a coordinate depend on its value alone.
    proof fn base_view(b: Self::Base)
        ensures
            b.transcript_bytes() == Self::base_bytes(b@),
    ;

    /// Logarithms are reduced, and the transcript bytes of a group element depend on
    /// its logarithm alone.
    proof fn point_view(p: Self::GE)
        ensures
            0 <= p@ < Self::order(),
            p.transcript_bytes() == Self::point_bytes(p@),
    ;

    /// There are as many generators as are asked for, and their logarithms are reduced.
    proof fn generators_range(label: Seq<u8>, n: nat)
        ensures
            Self::generators(label, n).len() == n,
            forall|i: int|
                0 <= i < n ==> 0 <= #[trigger] Self::generators(label, n)[i] < Self::order(),
    ;

    fn scalar_from(v: u64) -> (r: Self::Scalar)
        ensures
            r@ == v as int % Self::order(),
    ;

    /// The scalar that 64 bytes, read as a little-endian integer, reduce to.
    fn scalar_from_uniform(bytes: &[u8; 64]) -> (r: Self::Scalar)
        ensures
            r@ == le_value(bytes@) % Self::order(),
    ;

    fn scalar_add(a: &Self::Scalar, b: &Self::Scalar) -> (r: Self::Scalar)
        ensures
            r@ == (a@ + b@) % Self::order(),
    ;

    fn scalar_sub(a: &Self::Scalar, b: &Self::Scalar) -> (r: Self::Scalar)
        ensures
            r@ == (a@ - b@) % Self::order(),
    ;

    fn scalar_mul(a: &Self::Scalar, b: &Self::Scalar) -> (r: Self::Scalar)
        ensures
            r@ == (a@ * b@) % Self::order(),
    ;

    fn scalar_neg(a: &Self::Scalar) -> (r: Self::Scalar)
        ensures
            r@ == (-a@) % Self::order(),
    ;

    fn scalar_eq(a: &Self::Scalar, b: &Self::Scalar) -> (r: bool)
        ensures
            r == (a@ == b@),
    ;

    /// The element 0 or 1 of the field of coordinates.
    fn base_from_bit(bit: bool) -> (r: Self::Base)
        ensures
            r@ == if bit { 1int } else { 0 },
    ;

    fn point_identity() -> (r: Self::GE)
        ensures
            r@ == 0,
    ;

    fn point_is_identity(p: &Self::GE) -> (r: bool)
        ensures
            r == (p@ == 0),
    ;

    fn point_eq(p: &Self::GE, q: &Self::GE) -> (r: bool)
        ensures
            r == (p@ == q@),
    ;

    fn point_add(p: &Self::GE, q: &Self::GE) -> (r: Self::GE)
        ensures
            r@ == (p@ + q@) % Self::order(),
    ;

    fn point_sub(p: &Self::GE, q: &Self::GE) -> (r: Self::GE)
        ensures
            r@ == (p@ - q@) % Self::order(),
    ;

    fn point_neg(p: &Self::GE) -> (r: Self::GE)
        ensures
            r@ == (-p@) % Self::order(),
    ;

    fn point_mul(p: &Self::GE, s: &Self::Scalar) -> (r: Self::GE)
        ensures
            r@ == (p@ * s@) % Self::order(),
    ;

    /// The affine coordinates of a group element, and whether it is the identity.
    fn point_coordinates(p: &Self::GE) -> (r: (Self::Base, Self::Base, bool))
        ensures
            (r.0@, r.1@) == Self::coordinates(p@),
            r.2 == (p@ == 0),
    ;

    /// The compressed form of a group element; it decodes to that element.
    fn point_compress(p: &Self::GE) -> (r: Self::Compressed)
        ensures
            r@ == Self::compressed(p@),
            Self::decompressed(r@) == Some(p@),
    ;

    fn point_decompress(c: &Self::Compressed) -> (r: Option<Self::GE>)
        ensures
            match Self::decompressed(c@) {
                Some(k) => r is Some && r->0@ == k,
                None => r is None,
            },
    ;

    fn compressed_eq(a: &Self::Compressed, b: &Self::Compressed) -> (r: bool)
        ensures
            r == (a@ == b@),
    ;

    /// Derives `n` generators from a label.
    fn from_label(label: &[u8], n: usize) -> (r: Vec<Self::GE>)
        requires
            32 * n <= isize::MAX,
        ensures
            r@.map_values(|p: Self::GE| p@) == Self::generators(label@, n as nat),
    ;
}

/// A group with a pairing: a second group of the same order and a bilinear,
/// non-degenerate map from the two groups.
pub trait PairingEngine: Engine {
    /// The second group, viewed as logarithms to the base of a generator of its own.
    type GE2: Copy + View<V = int>;

    fn point2_mul(p: &Self::GE2, s: &Self::Scalar) -> (r: Self::GE2)
        ensures
            r@ == (p@ * s@) % Self::order(),
    ;

    /// Whether the product of the pairings `e(p1, q1)` and `e(p2, q2)` is the identity.
    fn pairing_product_is_identity(
        p1: &Self::GE,
        q1: &Self::GE2,
        p2: &Self::GE,
        q2: &Self::GE2,
    ) -> (r: bool)
        ensures
            r == ((p1@ * q1@ + p2@ * q2@) % Self::order() == 0),
    ;
}

/// A Fiat-Shamir transcript: it absorbs values and gives out challenges that depend on
/// all that it absorbed.
pub trait TranscriptEngineTrait<E: Engine>: View + Sized {
    /// The transcript that starts with a label.
    spec fn initial(label: Seq<u8>) -> Self::V;

    /// The transcript after it absorbed bytes under a label.
    spec fn absorbed(t: Self::V, label: Seq<u8>, bytes: Seq<u8>) -> Self::V;

    /// The next challenge under a label.
    spec fn challenge(t: Self::V, label: Seq<u8>) -> int;

    /// The transcript after it gave out a challenge under a label.
    spec fn squeezed(t: Self::V, label: Seq<u8>) -> Self::V;

    /// How many challenges the transcript can still give out.
    spec fn remaining(t: Self::V) -> nat;

    /// Absorbing leaves the number of remaining challenges as it is.
    proof fn remaining_absorbed(t: Self::V, label: Seq<u8>, bytes: Seq<u8>)
        ensures
            Self::remaining(Self::absorbed(t, label, bytes)) == Self::remaining(t),
    ;

    /// A challenge is reduced and uses up one of the remaining challenges.
    proof fn remaining_squeezed(t: Self::V, label: Seq<u8>)
        requires
            Self::remaining(t) > 0,
        ensures
            0 <= Self::challenge(t, label) < E::order(),
            Self::remaining(Self::squeezed(t, label)) == Self::remaining(t) - 1,
    ;

    fn new(label: &[u8]) -> (r: Self)
        ensures
            r@ == Self::initial(label@),
    ;

    fn absorb<R: TranscriptReprTrait>(&mut self, label: &[u8], o: &R)
        ensures
            final(self)@ == Self::absorbed(old(self)@, label@, o.transcript_bytes()),
    ;

    /// Gives out the next challenge; fails, and changes nothing, when none is left.
    fn squeeze(&mut self, label: &[u8]) -> (r: Result<E::Scalar, NovaError>)
        ensures
            Self::remaining(old(self)@) > 0 ==> r is Ok && r->Ok_0@ == Self::challenge(
                old(self)@,
                label@,
            ) && final(self)@ == Self::squeezed(old(self)@, label@),
            Self::remaining(old(self)@) == 0 ==> r == Err::<E::Scalar, NovaError>(
                NovaError::InternalTranscriptError,
            ) && final(self)@ == old(self)@,
    ;
}

/// A random oracle over the field of coordinates, viewed as what it has absorbed.
pub trait ROTrait<B: View<V = int>>: View<V = Seq<int>> {
    fn absorb(&mut self, e: B)
        ensures
            final(self)@ == old(self)@.push(e@),
    ;
}

/// A value that a random oracle can absorb.
pub trait AbsorbInROTrait<E: Engine> {
    /// The field elements that stand for the value.
    spec fn ro_elements(&self) -> Seq<int>;

    fn absorb_in_ro<R: ROTrait<E::Base>>(&self, ro: &mut R)
        ensures
            final(ro)@ == old(ro)@ + self.ro_elements(),
    ;
}

/// The input of a random oracle: the field elements it has absorbed, in order.
pub struct ROInput<B> {
    pub elements: Vec<B>,
}

impl<B: View<V = int>> View for ROInput<B> {
    type V = Seq<int>;

    open spec fn view(&self) -> Seq<int> {
        self.elements@.map_values(|e: B| e@)
    }
}

impl<B: View<V = int>> ROInput<B> {
    pub fn new() -> (r: Self)
        ensures
            r@ == Seq::<int>::empty(),
    {
        let r = ROInput { elements: Vec::new() };
        assert(r@ =~= Seq::<int>::empty());
        r
    }
}

impl<B: View<V = int>> ROTrait<B> for ROInput<B> {
    fn absorb(&mut self, e: B) {
        self.elements.push(e);
        assert(self@ =~= old(self)@.push(e@));
    }
}

/// The number of generators of a commitment key.
pub trait Len {
    spec fn len_spec(&self) -> nat;

    fn length(&self) -> (n: usize)
        ensures
            n == self.len_spec(),
    ;
}

} // verus!
