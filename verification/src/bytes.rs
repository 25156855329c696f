//! Integers as little-endian byte strings.
use vstd::arithmetic::div_mod::{lemma_mod_breakdown, lemma_small_mod};
use vstd::arithmetic::power::{lemma_pow0, lemma_pow_positive, pow};
use vstd::prelude::*;

verus! {

/// The integer whose little-endian bytes are `b`.
pub open spec fn le_value(b: Seq<u8>) -> int
    decreases b.len(),
{
    if b.len() == 0 {
        0
    } else {
        b[0] as int + 256 * le_value(b.drop_first())
    }
}

/// The `n` lowest bytes of `v`, the lowest first.
pub open spec fn le_bytes(v: int, n: nat) -> Seq<u8>
    decreases n,
{
    if n == 0 {
        Seq::empty()
    } else {
        seq![(v % 256) as u8] + le_bytes(v / 256, (n - 1) as nat)
    }
}

/// A byte string is the little-endian form of its value.
pub proof fn le_bytes_of_value(b: Seq<u8>)
    ensures
        le_bytes(le_value(b), b.len()) == b,
        le_value(b) >= 0,
    decreases b.len(),
{
    if b.len() > 0 {
        let rest = le_value(b.drop_first());
        le_bytes_of_value(b.drop_first());
        let v = b[0] as int + 256 * rest;
        assert(v % 256 == b[0] as int && v / 256 == rest);
        assert(le_bytes(v, b.len()) =~= seq![b[0]] + b.drop_first());
        assert(seq![b[0]] + b.drop_first() =~= b);
    } else {
        assert(le_bytes(0, 0) =~= b);
    }
}

/// No bytes have the value 0, and a further byte counts 256 times as much as the one
/// before.
pub proof fn le_value_adds_up_bytes(b: Seq<u8>, x: u8)
    ensures
        le_value(Seq::<u8>::empty()) == 0,
        le_value(b.push(x)) == le_value(b) + pow(256, b.len()) * x,
    decreases b.len(),
{
    let c = b.push(x);
    if b.len() == 0 {
        lemma_pow0(256);
        assert(c.drop_first() =~= Seq::<u8>::empty());
        assert(le_value(c.drop_first()) == 0);
    } else {
        assert(c.drop_first() =~= b.drop_first().push(x));
        le_value_adds_up_bytes(b.drop_first(), x);
        reveal(pow);
        let p = pow(256, (b.len() - 1) as nat);
        assert(pow(256, b.len()) == 256 * p);
        assert(256 * (p * x as int) == (256 * p) * x as int) by (nonlinear_arith);
    }
}

/// The lowest `n` bytes of `v` have the value `v` modulo `256^n`: nothing is lost where `v`
/// fits in.
pub proof fn value_of_le_bytes(v: int, n: nat)
    requires
        v >= 0,
    ensures
        le_bytes(v, n).len() == n,
        le_value(le_bytes(v, n)) == v % pow(256, n),
        v < pow(256, n) ==> le_value(le_bytes(v, n)) == v,
    decreases n,
{
    lemma_pow_positive(256, n);
    if n == 0 {
        lemma_pow0(256);
        assert(le_bytes(v, 0) =~= Seq::<u8>::empty());
    } else {
        let n1 = (n - 1) as nat;
        value_of_le_bytes(v / 256, n1);
        lemma_pow_positive(256, n1);
        reveal(pow);
        let p = pow(256, n1);
        assert(pow(256, n) == 256 * p);
        lemma_mod_breakdown(v, 256, p);
        let b = le_bytes(v, n);
        assert(b.drop_first() =~= le_bytes(v / 256, n1));
        assert(b[0] as int == v % 256);
    }
    if v < pow(256, n) {
        lemma_small_mod(v as nat, pow(256, n) as nat);
    }
}

/// The bytes of an array as a vector.
pub fn array_to_vec<const N: usize>(a: &[u8; N]) -> (v: Vec<u8>)
    ensures
        v@ == a@,
{
    let mut v: Vec<u8> = Vec::new();
    let mut i: usize = 0;
    while i < N
        invariant
            i <= N,
            v@ == a@.take(i as int),
        decreases N - i,
    {
        v.push(a[i]);
        assert(a@.take(i + 1) =~= a@.take(i as int).push(a@[i as int]));
        i = i + 1;
    }
    assert(a@.take(i as int) =~= a@);
    v
}

/// Whether two arrays hold the same bytes.
pub fn array_eq<const N: usize>(a: &[u8; N], b: &[u8; N]) -> (r: bool)
    ensures
        r == (a@ == b@),
{
    let mut i: usize = 0;
    while i < N
        invariant
            i <= N,
            forall|j: int| 0 <= j < i ==> a@[j] == b@[j],
        decreases N - i,
    {
        if a[i] != b[i] {
            assert(a@[i as int] != b@[i as int]);
            return false;
        }
        i = i + 1;
    }
    assert(a@ =~= b@);
    true
}

} // verus!
