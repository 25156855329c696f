//! Pedersen commitments to vectors of scalars.
use crate::errors::NovaError;
use crate::polynomial::{dot, lemma_dot_prefix};
use crate::provider::arithmetic::{commit_log, vartime_multiscalar_mul};
use crate::traits::{AbsorbInROTrait, Engine, Len, ROTrait, TranscriptReprTrait};
use crate::views::views;
use core::marker::PhantomData;
use core::ops::{Add, Mul, MulAssign};
use vstd::prelude::*;
use vstd::slice::{slice_subrange, slice_to_vec};
use vstd::std_specs::cmp::PartialEqSpecImpl;

verus! {

/// A type that holds commitment generators, viewed as their logarithms.
#[derive(Debug)]
pub struct CommitmentKey<E: Engine> {
    pub ck: Vec<E::GE>,
}

impl<E: Engine> View for CommitmentKey<E> {
    type V = Seq<int>;

    open spec fn view(&self) -> Seq<int> {
        views(self.ck@)
    }
}

impl<E: Engine> Clone for CommitmentKey<E> {
    fn clone(&self) -> (r: Self)
        ensures
            r@ == self@,
    {
        CommitmentKey { ck: slice_to_vec(self.ck.as_slice()) }
    }
}

impl<E: Engine> PartialEq for CommitmentKey<E> {
    fn eq(&self, other: &Self) -> (r: bool) {
        if self.ck.len() != other.ck.len() {
            assert(self@.len() != other@.len());
            return false;
        }
        let mut i: usize = 0;
        while i < self.ck.len()
            invariant
                i <= self.ck@.len(),
                self.ck@.len() == other.ck@.len(),
                forall|j: int| 0 <= j < i ==> self@[j] == #[trigger] other@[j],
            decreases self.ck@.len() - i,
        {
            if !E::point_eq(&self.ck[i], &other.ck[i]) {
                assert(self@[i as int] != other@[i as int]);
                return false;
            }
            i = i + 1;
        }
        assert(self@ =~= other@);
        true
    }
}

impl<E: Engine> PartialEqSpecImpl for CommitmentKey<E> {
    open spec fn obeys_eq_spec() -> bool {
        true
    }

    open spec fn eq_spec(&self, other: &Self) -> bool {
        self@ == other@
    }
}

impl<E: Engine> Eq for CommitmentKey<E> {

}

impl<E: Engine> Len for CommitmentKey<E> {
    open spec fn len_spec(&self) -> nat {
        self@.len()
    }

    fn length(&self) -> (n: usize) {
        self.ck.len()
    }
}

/// A type that holds a commitment, viewed as its logarithm.
#[derive(Debug)]
pub struct Commitment<E: Engine> {
    pub comm: E::GE,
}

impl<E: Engine> View for Commitment<E> {
    type V = int;

    open spec fn view(&self) -> int {
        self.comm@
    }
}

impl<E: Engine> Copy for Commitment<E> {

}

impl<E: Engine> Clone for Commitment<E> {
    fn clone(&self) -> (r: Self)
        ensures
            r == *self,
    {
        *self
    }
}

impl<E: Engine> PartialEq for Commitment<E> {
    fn eq(&self, other: &Self) -> (r: bool) {
        E::point_eq(&self.comm, &other.comm)
    }
}

impl<E: Engine> PartialEqSpecImpl for Commitment<E> {
    open spec fn obeys_eq_spec() -> bool {
        true
    }

    open spec fn eq_spec(&self, other: &Self) -> bool {
        self@ == other@
    }
}

impl<E: Engine> Eq for Commitment<E> {

}

/// A type that holds a compressed commitment, viewed as its bytes.
#[derive(Debug)]
pub struct CompressedCommitment<E: Engine> {
    pub comm: E::Compressed,
}

impl<E: Engine> View for CompressedCommitment<E> {
    type V = Seq<u8>;

    open spec fn view(&self) -> Seq<u8> {
        self.comm@
    }
}

impl<E: Engine> Copy for CompressedCommitment<E> {

}

impl<E: Engine> Clone for CompressedCommitment<E> {
    fn clone(&self) -> (r: Self)
        ensures
            r == *self,
    {
        *self
    }
}

impl<E: Engine> PartialEq for CompressedCommitment<E> {
    fn eq(&self, other: &Self) -> (r: bool) {
        E::compressed_eq(&self.comm, &other.comm)
    }
}

impl<E: Engine> PartialEqSpecImpl for CompressedCommitment<E> {
    open spec fn obeys_eq_spec() -> bool {
        true
    }

    open spec fn eq_spec(&self, other: &Self) -> bool {
        self@ == other@
    }
}

impl<E: Engine> Eq for CompressedCommitment<E> {

}

impl<E: Engine> Commitment<E> {
    /// Compresses the commitment; decompressing gives it back.
    pub fn compress(&self) -> (r: CompressedCommitment<E>)
        ensures
            r@ == E::compressed(self@),
            E::decompressed(r@) == Some(self@),
    {
        CompressedCommitment { comm: E::point_compress(&self.comm) }
    }

    /// The affine coordinates of the commitment, and whether it is the identity.
    pub fn to_coordinates(&self) -> (r: (E::Base, E::Base, bool))
        ensures
            (r.0@, r.1@) == E::coordinates(self@),
            r.2 == (self@ == 0),
    {
        E::point_coordinates(&self.comm)
    }

    /// Decompresses a commitment; fails on bytes that stand for no group element.
    pub fn decompress(c: &CompressedCommitment<E>) -> (r: Result<Self, NovaError>)
        ensures
            match E::decompressed(c@) {
                Some(k) => r is Ok && r->Ok_0@ == k,
                None => r == Err::<Self, NovaError>(NovaError::DecompressionError),
            },
    {
        let opt_comm = E::point_decompress(&c.comm);
        let Some(comm) = opt_comm else {
            return Err(NovaError::DecompressionError);
        };
        Ok(Commitment { comm })
    }
}

impl<E: Engine> Default for Commitment<E> {
    fn default() -> (r: Self)
        ensures
            r@ == 0,
    {
        Commitment { comm: E::point_identity() }
    }
}

impl<E: Engine> TranscriptReprTrait for Commitment<E> {
    /// The coordinates, and a byte that is 0 for the identity and 1 otherwise.
    open spec fn transcript_bytes(&self) -> Seq<u8> {
        let (x, y) = E::coordinates(self@);
        E::base_bytes(x) + E::base_bytes(y) + seq![if self@ == 0 { 0u8 } else { 1u8 }]
    }

    fn to_transcript_bytes(&self) -> (bytes: Vec<u8>) {
        let (x, y, is_infinity) = self.to_coordinates();
        proof {
            E::base_view(x);
            E::base_view(y);
        }
        let is_infinity_byte: u8 = if !is_infinity { 1 } else { 0 };
        let mut bytes = x.to_transcript_bytes();
        let mut y_bytes = y.to_transcript_bytes();
        bytes.append(&mut y_bytes);
        bytes.push(is_infinity_byte);
        assert(bytes@ =~= self.transcript_bytes());
        bytes
    }
}

impl<E: Engine> AbsorbInROTrait<E> for Commitment<E> {
    /// The coordinates, and 1 for the identity or 0 otherwise.
    open spec fn ro_elements(&self) -> Seq<int> {
        let (x, y) = E::coordinates(self@);
        seq![x, y, if self@ == 0 { 1int } else { 0 }]
    }

    fn absorb_in_ro<R: ROTrait<E::Base>>(&self, ro: &mut R) {
        let (x, y, is_infinity) = self.to_coordinates();
        ro.absorb(x);
        ro.absorb(y);
        ro.absorb(E::base_from_bit(is_infinity));
        assert(ro@ =~= old(ro)@ + self.ro_elements());
    }
}

impl<E: Engine> TranscriptReprTrait for CompressedCommitment<E> {
    open spec fn transcript_bytes(&self) -> Seq<u8> {
        self.comm.transcript_bytes()
    }

    fn to_transcript_bytes(&self) -> (bytes: Vec<u8>) {
        self.comm.to_transcript_bytes()
    }
}

impl<E: Engine> MulAssign<E::Scalar> for Commitment<E> {
    fn mul_assign(&mut self, scalar: E::Scalar)
        ensures
            final(self)@ == (old(self)@ * scalar@) % E::order(),
    {
        *self = Commitment { comm: E::point_mul(&self.comm, &scalar) };
    }
}

impl<'a, 'b, E: Engine> Mul<&'b E::Scalar> for &'a Commitment<E> {
    type Output = Commitment<E>;

    fn mul(self, scalar: &'b E::Scalar) -> (r: Commitment<E>)
        ensures
            r@ == (self@ * scalar@) % E::order(),
    {
        Commitment { comm: E::point_mul(&self.comm, scalar) }
    }
}

impl<'a, 'b, E: Engine> vstd::std_specs::ops::MulSpecImpl<&'b E::Scalar> for &'a Commitment<E> {
    open spec fn obeys_mul_spec() -> bool {
        false
    }

    open spec fn mul_req(self, scalar: &'b E::Scalar) -> bool {
        true
    }

    open spec fn mul_spec(self, scalar: &'b E::Scalar) -> Commitment<E> {
        choose|c: Commitment<E>| c@ == (self@ * scalar@) % E::order()
    }
}

impl<E: Engine> Mul<E::Scalar> for Commitment<E> {
    type Output = Self;

    fn mul(self, scalar: E::Scalar) -> (r: Self)
        ensures
            r@ == (self@ * scalar@) % E::order(),
    {
        let mut product = self;
        product.mul_assign(scalar);
        product
    }
}

impl<E: Engine> vstd::std_specs::ops::MulSpecImpl<E::Scalar> for Commitment<E> {
    open spec fn obeys_mul_spec() -> bool {
        false
    }

    open spec fn mul_req(self, scalar: E::Scalar) -> bool {
        true
    }

    open spec fn mul_spec(self, scalar: E::Scalar) -> Self {
        choose|c: Self| c@ == (self@ * scalar@) % E::order()
    }
}

impl<E: Engine> Add for Commitment<E> {
    type Output = Self;

    fn add(self, other: Self) -> (r: Self)
        ensures
            r@ == (self@ + other@) % E::order(),
    {
        Commitment { comm: E::point_add(&self.comm, &other.comm) }
    }
}

impl<E: Engine> vstd::std_specs::ops::AddSpecImpl for Commitment<E> {
    open spec fn obeys_add_spec() -> bool {
        false
    }

    open spec fn add_req(self, other: Self) -> bool {
        true
    }

    open spec fn add_spec(self, other: Self) -> Self {
        choose|c: Self| c@ == (self@ + other@) % E::order()
    }
}

/// The least power of two that is not less than `n`, looked for from `p` on.
pub open spec fn power_of_two_from(p: nat, n: nat) -> nat
    decreases if p < n { n - p } else { 0 },
{
    if p == 0 || p >= n {
        p
    } else {
        power_of_two_from(2 * p, n)
    }
}

/// The least power of two that is not less than `n`.
pub open spec fn next_power_of_two(n: nat) -> nat {
    power_of_two_from(1, n)
}

/// Provides a commitment engine
#[derive(Debug, PartialEq, Eq)]
pub struct CommitmentEngine<E: Engine> {
    pub _p: PhantomData<E>,
}

impl<E: Engine> Clone for CommitmentEngine<E> {
    fn clone(&self) -> (r: Self)
        ensures
            r == *self,
    {
        CommitmentEngine { _p: PhantomData }
    }
}

impl<E: Engine> CommitmentEngine<E> {
    /// Derives a commitment key from a label, with room for `n` scalars.
    pub fn setup(label: &[u8], n: usize) -> (r: CommitmentKey<E>)
        requires
            32 * next_power_of_two(n as nat) <= isize::MAX,
        ensures
            r@ == E::generators(label@, next_power_of_two(n as nat)),
            r@.len() == next_power_of_two(n as nat),
    {
        let mut p: usize = 1;
        while p < n
            invariant
                p >= 1,
                32 * next_power_of_two(n as nat) <= isize::MAX,
                power_of_two_from(p as nat, n as nat) == next_power_of_two(n as nat),
            decreases if p < n { n - p } else { 0 },
        {
            proof {
                lemma_power_of_two_from(2 * p as nat, n as nat);
            }
            p = 2 * p;
        }
        proof {
            E::generators_range(label@, p as nat);
        }
        let r = CommitmentKey { ck: E::from_label(label, p) };
        assert(r@ =~= r.ck@.map_values(|p: E::GE| p@));
        r
    }

    /// Commits to the scalars `v`: the sum of the generators, weighted by the scalars.
    pub fn commit(ck: &CommitmentKey<E>, v: &[E::Scalar]) -> (r: Commitment<E>)
        requires
            ck@.len() >= v.len(),
        ensures
            r@ == commit_log(ck@, views(v@), E::order()),
    {
        let bases = slice_subrange(ck.ck.as_slice(), 0, v.len());
        proof {
            lemma_dot_prefix(views(v@), views(bases@), views(v@), ck@, v@.len());
        }
        Commitment { comm: vartime_multiscalar_mul::<E>(v, bases) }
    }
}

proof fn lemma_power_of_two_from(p: nat, n: nat)
    requires
        p > 0,
    ensures
        power_of_two_from(p, n) >= p,
    decreases if p < n { n - p } else { 0 },
{
    if p < n {
        lemma_power_of_two_from(2 * p, n);
    }
}

/// A trait listing properties of a commitment key that can be managed in a divide-and-conquer fashion
pub trait CommitmentKeyExtTrait<E: Engine>: View<V = Seq<int>> + Sized {
    /// Splits the commitment key into two pieces at a specified point
    fn split_at(&self, n: usize) -> (r: (Self, Self))
        requires
            n <= self@.len(),
        ensures
            r.0@ == self@.take(n as int),
            r.1@ == self@.skip(n as int),
    ;

    /// Combines two commitment keys into one
    fn combine(&self, other: &Self) -> (r: Self)
        ensures
            r@ == self@ + other@,
    ;

    /// Folds the two commitment keys into one using the provided weights
    fn fold(&self, w1: &E::Scalar, w2: &E::Scalar) -> (r: Self)
        ensures
            r@ == fold_key(self@, w1@, w2@, E::order()),
    ;

    /// Scales the commitment key using the provided scalar
    fn scale(&self, r: &E::Scalar) -> (scaled: Self)
        ensures
            scaled@ == scale_key(self@, r@, E::order()),
    ;

    /// Reinterprets commitments as commitment keys
    fn reinterpret_commitments_as_ck(c: &[CompressedCommitment<E>]) -> (r: Result<Self, NovaError>)
        ensures
            match r {
                Ok(ck) => ck@.len() == c@.len() && forall|i: int|
                    0 <= i < c@.len() ==> E::decompressed(#[trigger] c@[i]@) == Some(ck@[i]),
                Err(e) => e == NovaError::DecompressionError && exists|i: int|
                    0 <= i < c@.len() && E::decompressed(#[trigger] c@[i]@) is None,
            },
    ;
}

/// The left and right halves of a key, added up with the weights `w1` and `w2`. Where the
/// key has an odd length, its last generator is left out.
pub open spec fn fold_key(g: Seq<int>, w1: int, w2: int, m: int) -> Seq<int> {
    let half = g.len() as int / 2;
    Seq::new(half as nat, |i: int| (w1 * g[i] + w2 * g[half + i]) % m)
}

/// Each generator of a key, multiplied by `r`.
pub open spec fn scale_key(g: Seq<int>, r: int, m: int) -> Seq<int> {
    Seq::new(g.len(), |i: int| (r * g[i]) % m)
}

impl<E: Engine> CommitmentKeyExtTrait<E> for CommitmentKey<E> {
    fn split_at(&self, n: usize) -> (r: (Self, Self)) {
        let left = slice_subrange(self.ck.as_slice(), 0, n);
        let right = slice_subrange(self.ck.as_slice(), n, self.ck.len());
        let r = (CommitmentKey { ck: slice_to_vec(left) }, CommitmentKey { ck: slice_to_vec(right) });
        assert(r.0@ =~= self@.take(n as int));
        assert(r.1@ =~= self@.skip(n as int));
        r
    }

    fn combine(&self, other: &Self) -> (r: Self) {
        let mut ck = slice_to_vec(self.ck.as_slice());
        let mut tail = slice_to_vec(other.ck.as_slice());
        ck.append(&mut tail);
        let r = CommitmentKey { ck };
        assert(r@ =~= self@ + other@);
        r
    }

    fn fold(&self, w1: &E::Scalar, w2: &E::Scalar) -> (r: Self) {
        let half = self.ck.len() / 2;
        let (left, right) = self.split_at(half);
        let mut w: Vec<E::Scalar> = Vec::new();
        w.push(*w1);
        w.push(*w2);
        let ghost folded = fold_key(self@, w1@, w2@, E::order());
        let mut ck: Vec<E::GE> = Vec::new();
        let mut i: usize = 0;
        while i < half
            invariant
                i <= half,
                half == self@.len() / 2,
                left@ == self@.take(half as int),
                right@ == self@.skip(half as int),
                left.ck@.len() == left@.len(),
                right.ck@.len() == right@.len(),
                w@ == seq![*w1, *w2],
                folded == fold_key(self@, w1@, w2@, E::order()),
                views(ck@) == folded.take(i as int),
            decreases half - i,
        {
            let mut bases: Vec<E::GE> = Vec::new();
            bases.push(left.ck[i]);
            bases.push(right.ck[i]);
            let p = vartime_multiscalar_mul::<E>(w.as_slice(), bases.as_slice());
            proof {
                assert(left.ck[i as int]@ == left@[i as int]);
                assert(right.ck[i as int]@ == right@[i as int]);
                lemma_dot_two(views(w@), views(bases@));
            }
            let ghost before = ck@;
            ck.push(p);
            assert(views(ck@) =~= views(before).push(p@));
            assert(folded.take(i + 1) =~= folded.take(i as int).push(p@));
            i = i + 1;
        }
        assert(folded.take(i as int) =~= folded);
        CommitmentKey { ck }
    }

    fn scale(&self, r: &E::Scalar) -> (scaled: Self) {
        let ghost target = scale_key(self@, r@, E::order());
        let mut weight: Vec<E::Scalar> = Vec::new();
        weight.push(*r);
        let mut ck: Vec<E::GE> = Vec::new();
        let mut i: usize = 0;
        while i < self.ck.len()
            invariant
                i <= self.ck.len(),
                weight@ == seq![*r],
                target == scale_key(self@, r@, E::order()),
                views(ck@) == target.take(i as int),
            decreases self.ck.len() - i,
        {
            let mut base: Vec<E::GE> = Vec::new();
            base.push(self.ck[i]);
            let p = vartime_multiscalar_mul::<E>(weight.as_slice(), base.as_slice());
            proof {
                assert(self.ck[i as int]@ == self@[i as int]);
                lemma_dot_one(views(weight@), views(base@));
            }
            let ghost before = ck@;
            ck.push(p);
            assert(views(ck@) =~= views(before).push(p@));
            assert(target.take(i + 1) =~= target.take(i as int).push(p@));
            i = i + 1;
        }
        assert(target.take(i as int) =~= target);
        CommitmentKey { ck }
    }

    fn reinterpret_commitments_as_ck(c: &[CompressedCommitment<E>]) -> (r: Result<
        Self,
        NovaError,
    >) {
        let mut ck: Vec<E::GE> = Vec::new();
        let mut i: usize = 0;
        while i < c.len()
            invariant
                i <= c.len(),
                ck@.len() == i,
                forall|j: int|
                    0 <= j < i ==> E::decompressed(#[trigger] c@[j]@) == Some(ck@[j]@),
            decreases c.len() - i,
        {
            match Commitment::<E>::decompress(&c[i]) {
                Ok(d) => ck.push(d.comm),
                Err(e) => {
                    assert(E::decompressed(c@[i as int]@) is None);
                    return Err(e);
                },
            }
            i = i + 1;
        }
        Ok(CommitmentKey { ck })
    }
}

proof fn lemma_dot_one(v: Seq<int>, g: Seq<int>)
    ensures
        dot(v, g, 1) == v[0] * g[0],
{
    reveal_with_fuel(dot, 2);
}

proof fn lemma_dot_two(v: Seq<int>, g: Seq<int>)
    ensures
        dot(v, g, 2) == v[0] * g[0] + v[1] * g[1],
{
    reveal_with_fuel(dot, 3);
}

} // verus!
