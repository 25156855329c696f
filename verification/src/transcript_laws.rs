//! Laws of transcript bytes: what a transcript absorbs of several values holds all of them.
use crate::traits::{concat_bytes, Engine, ROInput, TranscriptReprTrait};
use crate::views::{points_bytes, rows, scalars_bytes, views, views2};
use vstd::prelude::*;

verus! {

/// The bytes of several values are those of all of them, one after the other.
pub proof fn concat_of_parts<T: TranscriptReprTrait>(s: Seq<T>, s2: Seq<T>, e: T)
    ensures
        concat_bytes(Seq::<T>::empty()) == Seq::<u8>::empty(),
        concat_bytes(seq![e]) == e.transcript_bytes(),
        concat_bytes(s + s2) == concat_bytes(s) + concat_bytes(s2),
    decreases s2.len(),
{
    let one = seq![e];
    assert(one.drop_last() =~= Seq::<T>::empty());
    assert(concat_bytes(one.drop_last()) == Seq::<u8>::empty());
    assert(concat_bytes(one) =~= e.transcript_bytes());
    if s2.len() == 0 {
        assert(s + s2 =~= s);
        assert(concat_bytes(s) + concat_bytes(s2) =~= concat_bytes(s));
    } else {
        concat_of_parts(s, s2.drop_last(), e);
        assert((s + s2).drop_last() =~= s + s2.drop_last());
        assert(concat_bytes(s + s2) =~= concat_bytes(s) + concat_bytes(s2));
    }
}

/// The bytes of a vector are those of its first `k` elements and those of the others.
pub proof fn concat_splits<T: TranscriptReprTrait>(s: Seq<T>, k: int)
    requires
        0 <= k <= s.len(),
    ensures
        concat_bytes(s) == concat_bytes(s.take(k)) + concat_bytes(s.skip(k)),
{
    if s.len() > 0 {
        concat_of_parts(s.take(k), s.skip(k), s[0]);
        assert(s.take(k) + s.skip(k) =~= s);
    } else {
        assert(s.take(k) =~= s);
        assert(concat_bytes(s) =~= concat_bytes(s.take(k)) + concat_bytes(s.skip(k)));
    }
}

/// A vector has the bytes of its two parts, and a vector of one element has the bytes of
/// that element.
pub proof fn vector_bytes_of_parts<T: TranscriptReprTrait>(v: Vec<T>, a: Vec<T>, b: Vec<T>)
    ensures
        v@.len() == 0 ==> v.transcript_bytes() == Seq::<u8>::empty(),
        v@.len() == 1 ==> v.transcript_bytes() == v@[0].transcript_bytes(),
        v@ == a@ + b@ ==> v.transcript_bytes() == a.transcript_bytes() + b.transcript_bytes(),
{
    if v@.len() >= 1 {
        concat_of_parts(a@, b@, v@[0]);
        if v@.len() == 1 {
            assert(v@ =~= seq![v@[0]]);
        }
    } else {
        assert(v@ == a@ + b@ ==> v.transcript_bytes() =~= a.transcript_bytes()
            + b.transcript_bytes());
    }
}

/// The bytes of scalars are those of all of them, one after the other.
pub proof fn scalars_bytes_of_parts<E: Engine>(s: Seq<int>, s2: Seq<int>, e: int)
    ensures
        scalars_bytes::<E>(Seq::<int>::empty()) == Seq::<u8>::empty(),
        scalars_bytes::<E>(seq![e]) == E::scalar_bytes(e),
        scalars_bytes::<E>(s + s2) == scalars_bytes::<E>(s) + scalars_bytes::<E>(s2),
    decreases s2.len(),
{
    let one = seq![e];
    assert(one.drop_last() =~= Seq::<int>::empty());
    assert(scalars_bytes::<E>(one.drop_last()) == Seq::<u8>::empty());
    assert(scalars_bytes::<E>(one) =~= E::scalar_bytes(e));
    if s2.len() == 0 {
        assert(s + s2 =~= s);
        assert(scalars_bytes::<E>(s) + scalars_bytes::<E>(s2) =~= scalars_bytes::<E>(s));
    } else {
        scalars_bytes_of_parts::<E>(s, s2.drop_last(), e);
        assert((s + s2).drop_last() =~= s + s2.drop_last());
        assert(scalars_bytes::<E>(s + s2) =~= scalars_bytes::<E>(s) + scalars_bytes::<E>(s2));
    }
}

/// Where each scalar has `n` bytes, scalars have `n` times as many bytes as there are of
/// them, and equal bytes come from scalars with equal bytes, place by place.
pub proof fn scalars_bytes_tell_apart<E: Engine>(s: Seq<int>, s2: Seq<int>, n: nat)
    requires
        s.len() == s2.len(),
        forall|i: int| 0 <= i < s.len() ==> E::scalar_bytes(#[trigger] s[i]).len() == n,
        forall|i: int| 0 <= i < s2.len() ==> E::scalar_bytes(#[trigger] s2[i]).len() == n,
    ensures
        scalars_bytes::<E>(s).len() == n * s.len(),
        scalars_bytes::<E>(s) == scalars_bytes::<E>(s2) ==> forall|i: int|
            0 <= i < s.len() ==> E::scalar_bytes(#[trigger] s[i]) == E::scalar_bytes(s2[i]),
    decreases s.len(),
{
    if s.len() > 0 {
        let (a, a2) = (s.drop_last(), s2.drop_last());
        assert forall|i: int| 0 <= i < a.len() implies E::scalar_bytes(
            #[trigger] a[i],
        ).len() == n by {
            assert(a[i] == s[i]);
        }
        assert forall|i: int| 0 <= i < a2.len() implies E::scalar_bytes(
            #[trigger] a2[i],
        ).len() == n by {
            assert(a2[i] == s2[i]);
        }
        scalars_bytes_tell_apart::<E>(a, a2, n);
        scalars_bytes_tell_apart::<E>(a2, a, n);
        let last = s.len() - 1;
        assert(E::scalar_bytes(s[last]).len() == n && E::scalar_bytes(s2[last]).len() == n);
        assert(n * s.len() == n * a.len() + n) by (nonlinear_arith)
            requires
                s.len() == a.len() + 1,
        ;
        if scalars_bytes::<E>(s) == scalars_bytes::<E>(s2) {
            let (b, b2) = (scalars_bytes::<E>(a), scalars_bytes::<E>(a2));
            assert(b =~= scalars_bytes::<E>(s).take(b.len() as int));
            assert(b2 =~= scalars_bytes::<E>(s2).take(b.len() as int));
            assert(E::scalar_bytes(s[last]) =~= scalars_bytes::<E>(s).skip(b.len() as int));
            assert(E::scalar_bytes(s2[last]) =~= scalars_bytes::<E>(s2).skip(b.len() as int));
            assert forall|i: int| 0 <= i < s.len() implies E::scalar_bytes(
                #[trigger] s[i],
            ) == E::scalar_bytes(s2[i]) by {
                if i < last {
                    assert(a[i] == s[i] && a2[i] == s2[i]);
                }
            }
        }
    } else {
        assert(n * 0 == 0) by (nonlinear_arith);
    }
}

/// The bytes of group elements are those of all of them, one after the other.
pub proof fn points_bytes_of_parts<E: Engine>(s: Seq<int>, s2: Seq<int>, e: int)
    ensures
        points_bytes::<E>(Seq::<int>::empty()) == Seq::<u8>::empty(),
        points_bytes::<E>(seq![e]) == E::point_bytes(e),
        points_bytes::<E>(s + s2) == points_bytes::<E>(s) + points_bytes::<E>(s2),
    decreases s2.len(),
{
    let one = seq![e];
    assert(one.drop_last() =~= Seq::<int>::empty());
    assert(points_bytes::<E>(one.drop_last()) == Seq::<u8>::empty());
    assert(points_bytes::<E>(one) =~= E::point_bytes(e));
    if s2.len() == 0 {
        assert(s + s2 =~= s);
        assert(points_bytes::<E>(s) + points_bytes::<E>(s2) =~= points_bytes::<E>(s));
    } else {
        points_bytes_of_parts::<E>(s, s2.drop_last(), e);
        assert((s + s2).drop_last() =~= s + s2.drop_last());
        assert(points_bytes::<E>(s + s2) =~= points_bytes::<E>(s) + points_bytes::<E>(s2));
    }
}

/// Where each group element has `n` bytes, group elements have `n` times as many bytes as
/// there are of them, and equal bytes come from elements with equal bytes, place by place.
pub proof fn points_bytes_tell_apart<E: Engine>(s: Seq<int>, s2: Seq<int>, n: nat)
    requires
        s.len() == s2.len(),
        forall|i: int| 0 <= i < s.len() ==> E::point_bytes(#[trigger] s[i]).len() == n,
        forall|i: int| 0 <= i < s2.len() ==> E::point_bytes(#[trigger] s2[i]).len() == n,
    ensures
        points_bytes::<E>(s).len() == n * s.len(),
        points_bytes::<E>(s) == points_bytes::<E>(s2) ==> forall|i: int|
            0 <= i < s.len() ==> E::point_bytes(#[trigger] s[i]) == E::point_bytes(s2[i]),
    decreases s.len(),
{
    if s.len() > 0 {
        let (a, a2) = (s.drop_last(), s2.drop_last());
        assert forall|i: int| 0 <= i < a.len() implies E::point_bytes(
            #[trigger] a[i],
        ).len() == n by {
            assert(a[i] == s[i]);
        }
        assert forall|i: int| 0 <= i < a2.len() implies E::point_bytes(
            #[trigger] a2[i],
        ).len() == n by {
            assert(a2[i] == s2[i]);
        }
        points_bytes_tell_apart::<E>(a, a2, n);
        points_bytes_tell_apart::<E>(a2, a, n);
        let last = s.len() - 1;
        assert(E::point_bytes(s[last]).len() == n && E::point_bytes(s2[last]).len() == n);
        assert(n * s.len() == n * a.len() + n) by (nonlinear_arith)
            requires
                s.len() == a.len() + 1,
        ;
        if points_bytes::<E>(s) == points_bytes::<E>(s2) {
            let (b, b2) = (points_bytes::<E>(a), points_bytes::<E>(a2));
            assert(b =~= points_bytes::<E>(s).take(b.len() as int));
            assert(b2 =~= points_bytes::<E>(s2).take(b.len() as int));
            assert(E::point_bytes(s[last]) =~= points_bytes::<E>(s).skip(b.len() as int));
            assert(E::point_bytes(s2[last]) =~= points_bytes::<E>(s2).skip(b.len() as int));
            assert forall|i: int| 0 <= i < s.len() implies E::point_bytes(
                #[trigger] s[i],
            ) == E::point_bytes(s2[i]) by {
                if i < last {
                    assert(a[i] == s[i] && a2[i] == s2[i]);
                }
            }
        }
    } else {
        assert(n * 0 == 0) by (nonlinear_arith);
    }
}

/// The rows of a table are all laid out, one after the other.
pub proof fn rows_of_parts(v: Seq<Seq<int>>, v2: Seq<Seq<int>>, row: Seq<int>)
    ensures
        rows(Seq::<Seq<int>>::empty()) == Seq::<int>::empty(),
        rows(seq![row]) == row,
        rows(v + v2) == rows(v) + rows(v2),
    decreases v2.len(),
{
    let one = seq![row];
    assert(one.drop_last() =~= Seq::<Seq<int>>::empty());
    assert(rows(one.drop_last()) == Seq::<int>::empty());
    assert(rows(one) =~= row);
    if v2.len() == 0 {
        assert(v + v2 =~= v);
        assert(rows(v) + rows(v2) =~= rows(v));
    } else {
        rows_of_parts(v, v2.drop_last(), row);
        assert((v + v2).drop_last() =~= v + v2.drop_last());
        assert(rows(v + v2) =~= rows(v) + rows(v2));
    }
}

/// A sequence is viewed element by element.
pub proof fn views_by_element<T: View<V = int>>(s: Seq<T>, i: int)
    ensures
        views(s).len() == s.len(),
        0 <= i < s.len() ==> views(s)[i] == s[i]@,
{
}

/// A table is viewed entry by entry.
pub proof fn views2_by_entry<T: View<V = int>>(s: Seq<Vec<T>>, i: int, j: int)
    ensures
        views2(s).len() == s.len(),
        0 <= i < s.len() ==> views2(s)[i].len() == s[i]@.len(),
        0 <= i < s.len() && 0 <= j < s[i]@.len() ==> views2(s)[i][j] == s[i]@[j]@,
{
}

/// The input of a random oracle is viewed element by element, in the order of absorption.
pub proof fn oracle_input_by_element<B: View<V = int>>(ro: ROInput<B>, i: int)
    ensures
        ro@.len() == ro.elements@.len(),
        0 <= i < ro.elements@.len() ==> ro@[i] == ro.elements@[i]@,
{
}

/// A call for the bytes of a vector gives those of all elements.
pub proof fn vector_bytes_call<T: TranscriptReprTrait>(v: &Vec<T>, r: Vec<u8>, k: int)
    requires
        call_ensures(<Vec<T> as TranscriptReprTrait>::to_transcript_bytes, (v,), r),
        0 <= k <= v@.len(),
    ensures
        v@.len() == 0 ==> r@ == Seq::<u8>::empty(),
        v@.len() == 1 ==> r@ == v@[0].transcript_bytes(),
        r@ == concat_bytes(v@.take(k)) + concat_bytes(v@.skip(k)),
{
    concat_splits(v@, k);
    vector_bytes_of_parts(*v, *v, *v);
}

} // verus!
