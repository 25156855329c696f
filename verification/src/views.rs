//! Sequences of scalars and of group elements as sequences of integers, and their
//! transcript bytes.
use crate::traits::{concat_bytes, Engine};
use vstd::prelude::*;

verus! {

/// The integers that the elements of a sequence stand for.
pub open spec fn views<T: View<V = int>>(s: Seq<T>) -> Seq<int> {
    Seq::new(s.len(), |i: int| s[i]@)
}

/// The integers that the elements of each of several vectors stand for.
pub open spec fn views2<T: View<V = int>>(s: Seq<Vec<T>>) -> Seq<Seq<int>> {
    Seq::new(s.len(), |i: int| views(s[i]@))
}

/// The rows of a table, one after the other.
pub open spec fn rows(v: Seq<Seq<int>>) -> Seq<int>
    decreases v.len(),
{
    if v.len() == 0 {
        Seq::empty()
    } else {
        rows(v.drop_last()) + v.last()
    }
}

/// The transcript bytes of the scalars `s`, one after the other.
pub open spec fn scalars_bytes<E: Engine>(s: Seq<int>) -> Seq<u8>
    decreases s.len(),
{
    if s.len() == 0 {
        Seq::empty()
    } else {
        scalars_bytes::<E>(s.drop_last()) + E::scalar_bytes(s.last())
    }
}

/// The transcript bytes of the group elements with logarithms `k`, one after the other.
pub open spec fn points_bytes<E: Engine>(k: Seq<int>) -> Seq<u8>
    decreases k.len(),
{
    if k.len() == 0 {
        Seq::empty()
    } else {
        points_bytes::<E>(k.drop_last()) + E::point_bytes(k.last())
    }
}

pub(crate) proof fn lemma_scalars_bytes<E: Engine>(s: Seq<E::Scalar>)
    ensures
        concat_bytes(s) == scalars_bytes::<E>(views(s)),
    decreases s.len(),
{
    if s.len() > 0 {
        lemma_scalars_bytes::<E>(s.drop_last());
        E::scalar_view(s.last());
        assert(views(s.drop_last()) =~= views(s).drop_last());
    }
}

pub(crate) proof fn lemma_points_bytes<E: Engine>(s: Seq<E::GE>)
    ensures
        concat_bytes(s) == points_bytes::<E>(views(s)),
    decreases s.len(),
{
    if s.len() > 0 {
        lemma_points_bytes::<E>(s.drop_last());
        E::point_view(s.last());
        assert(views(s.drop_last()) =~= views(s).drop_last());
    }
}

} // verus!
