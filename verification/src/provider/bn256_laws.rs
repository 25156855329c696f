//! Laws of the curve BN254: its orders, the bytes of scalars and points, and how generators
//! come from a label.
use crate::bytes::{le_bytes, le_value, value_of_le_bytes};
use crate::provider::bn256::{
    base_order, g1_has_form, g1_hash, g1_multiple, g2_multiple, group_order, shake256_byte,
    Bn256Base, Bn256Compressed, Bn256EngineKZG, Bn256Point, Bn256Point2, Bn256Scalar,
};
use crate::traits::{Engine, TranscriptReprTrait};
use vstd::arithmetic::power::pow;
use vstd::prelude::*;

verus! {

/// The orders of the groups and of the field of coordinates are those of the family of
/// Barreto and Naehrig, at one parameter.
pub proof fn orders_of_the_family(t: int)
    requires
        t == 4965661367192848881,
    ensures
        Bn256EngineKZG::order() == 36 * (t * t * t * t) + 36 * (t * t * t) + 18 * (t * t) + 6 * t
            + 1,
        group_order() == Bn256EngineKZG::order(),
        base_order() == group_order() + 6 * (t * t),
{
    assert(t * t == 4965661367192848881 * 4965661367192848881);
    let s = t * t;
    let c = s * t;
    assert(c == s * 4965661367192848881);
    assert(t * t * t == c);
    assert(t * t * t * t == c * t);
    assert(c * t == c * 4965661367192848881);
}

proof fn lemma_pow_256_32()
    ensures
        pow(256, 32)
            == 0x10000000000000000000000000000000000000000000000000000000000000000int,
{
    reveal_with_fuel(pow, 33);
}

/// The bytes of a scalar are 32 and have the scalar as their little-endian value; so
/// different scalars have different bytes.
pub proof fn scalar_bytes_hold_the_scalar(s: int)
    requires
        0 <= s < Bn256EngineKZG::order(),
    ensures
        Bn256EngineKZG::scalar_bytes(s).len() == 32,
        le_value(Bn256EngineKZG::scalar_bytes(s)) == s,
{
    lemma_pow_256_32();
    value_of_le_bytes(s, 32);
}

/// The bytes of a coordinate are 32 and have the coordinate as their little-endian value.
pub proof fn base_bytes_hold_the_coordinate(v: int)
    requires
        0 <= v < base_order(),
    ensures
        Bn256EngineKZG::base_bytes(v).len() == 32,
        le_value(Bn256EngineKZG::base_bytes(v)) == v,
{
    lemma_pow_256_32();
    value_of_le_bytes(v, 32);
}

/// The coordinates of a group element are those of that multiple of the generator.
pub proof fn coordinates_of_multiple(k: int)
    ensures
        Bn256EngineKZG::coordinates(k).0 == g1_multiple(k as nat).0,
        Bn256EngineKZG::coordinates(k).1 == g1_multiple(k as nat).1,
{
}

/// The transcript bytes of a point hold its two coordinates and tell the identity from the
/// other points.
pub proof fn point_bytes_hold_the_point(k: int)
    requires
        0 <= g1_multiple(k as nat).0 < base_order(),
        0 <= g1_multiple(k as nat).1 < base_order(),
    ensures
        ({
            let b = Bn256EngineKZG::point_bytes(k);
            &&& b.len() == 65
            &&& le_value(b.take(32)) == g1_multiple(k as nat).0
            &&& le_value(b.subrange(32, 64)) == g1_multiple(k as nat).1
            &&& b[64] == 0 <==> k == 0
            &&& b[64] <= 1
        }),
{
    let (x, y) = g1_multiple(k as nat);
    let b = Bn256EngineKZG::point_bytes(k);
    lemma_pow_256_32();
    value_of_le_bytes(x, 32);
    value_of_le_bytes(y, 32);
    assert(b.take(32) =~= le_bytes(x, 32));
    assert(b.subrange(32, 64) =~= le_bytes(y, 32));
}

/// The compressed form of a point other than the identity holds its first coordinate and
/// the parity of the second, and no more; that of the identity has the top bit alone.
pub proof fn compressed_holds_the_point(k: int)
    requires
        0 <= g1_multiple(k as nat).0 < base_order(),
    ensures
        ({
            let b = Bn256EngineKZG::compressed(k);
            let top = 0x4000000000000000000000000000000000000000000000000000000000000000int;
            &&& b.len() == 32
            &&& k != 0 ==> le_value(b) % top == g1_multiple(k as nat).0
            &&& k != 0 ==> le_value(b) / top == g1_multiple(k as nat).1 % 2
            &&& k == 0 ==> le_value(b) == 2 * top
        }),
{
    let top = 0x4000000000000000000000000000000000000000000000000000000000000000int;
    let (x, y) = g1_multiple(k as nat);
    let sign = y % 2;
    lemma_pow_256_32();
    value_of_le_bytes(x + sign * top, 32);
    value_of_le_bytes(2 * top, 32);
}

/// Bytes decode to a point other than the identity exactly when they hold its first
/// coordinate and the parity of its second, and to the identity exactly when they hold the
/// first coordinate 0 and the top bit.
pub proof fn decompressed_has_the_form(bytes: Seq<u8>, k: int)
    ensures
        ({
            let top = 0x4000000000000000000000000000000000000000000000000000000000000000int;
            let v = le_value(bytes);
            let r = Bn256EngineKZG::decompressed(bytes);
            let fits = 1 <= k < group_order() && g1_multiple(k as nat).0 == v % top
                && g1_multiple(k as nat).1 % 2 == (v / top) % 2 && v % top < base_order();
            &&& r == Some(0int) <==> v % top == 0 && v >= 2 * top
            &&& r == Some(k) && k != 0 ==> fits
            &&& fits && !(v % top == 0 && v >= 2 * top) ==> r is Some && r != Some(0int)
            &&& r is None ==> !fits
            &&& r is Some ==> 0 <= r->0 < group_order()
            &&& v % top >= base_order() ==> r is None
        }),
{
    let top = 0x4000000000000000000000000000000000000000000000000000000000000000int;
    let v = le_value(bytes);
    let (x, sign) = (v % top, (v / top) % 2);
    if 1 <= k < group_order() && g1_multiple(k as nat).0 == x && g1_multiple(k as nat).1 % 2
        == sign {
        assert(g1_has_form(k, x, sign));
    }
    if exists|j: int| g1_has_form(j, x, sign) {
        let j = choose|j: int| g1_has_form(j, x, sign);
        assert(g1_has_form(j, x, sign));
    }
}

/// What a point is read from holds it: reading bytes that hold a first coordinate other
/// than 0 never gives the identity, and reading what holds no point gives nothing.
pub proof fn decompress_call(c: &Bn256Compressed, r: Option<Bn256Point>)
    requires
        call_ensures(<Bn256EngineKZG as Engine>::point_decompress, (c,), r),
    ensures
        ({
            let top = 0x4000000000000000000000000000000000000000000000000000000000000000int;
            let v = le_value(c.bytes@);
            &&& r is Some && r->0@ != 0 ==> {
                &&& g1_multiple(r->0@ as nat).0 == v % top
                &&& g1_multiple(r->0@ as nat).1 % 2 == (v / top) % 2
            }
            &&& r is Some && r->0@ == 0 <==> v % top == 0 && v >= 2 * top
            &&& r is None ==> forall|k: int|
                1 <= k < group_order() && #[trigger] g1_multiple(k as nat).0 == v % top && v % top
                    < base_order() ==> g1_multiple(k as nat).1 % 2 != (v / top) % 2
        }),
{
    let top = 0x4000000000000000000000000000000000000000000000000000000000000000int;
    let v = le_value(c.bytes@);
    if r is Some {
        decompressed_has_the_form(c.bytes@, r->0@);
    } else {
        decompressed_has_the_form(c.bytes@, 0);
        assert forall|k: int|
            1 <= k < group_order() && #[trigger] g1_multiple(k as nat).0 == v % top && v % top
                < base_order() implies g1_multiple(k as nat).1 % 2 != (v / top) % 2 by {
            decompressed_has_the_form(c.bytes@, k);
        }
    }
}

/// Each generator of a label is the hash to the curve of 32 bytes of the label's stream of
/// its own: the one at place `i` of the bytes from `32 * i` on.
pub proof fn generators_hash_own_blocks(label: Seq<u8>, n: nat, i: int, k: int)
    requires
        0 <= i < n,
        0 <= k < n,
    ensures
        Bn256EngineKZG::generators(label, n).len() == n,
        Bn256EngineKZG::generators(label, n)[i] == g1_hash(
            "from_uniform_bytes"@,
            Seq::new(32, |j: int| shake256_byte(label, (32 * i + j) as nat)),
        ) % group_order(),
        i != k ==> forall|j: int, l: int|
            0 <= j < 32 && 0 <= l < 32 ==> #[trigger] stream_place(i, j) != #[trigger] stream_place(
                k,
                l,
            ),
{
    let block = Seq::new(32, |j: int| shake256_byte(label, (32 * i + j) as nat));
    let stream = Seq::new(32 * n, |j: int| shake256_byte(label, j as nat));
    assert(stream.subrange(32 * i, 32 * i + 32) =~= block);
}

/// The place in the stream of a label of the byte `j` that the generator `i` is hashed from.
pub open spec fn stream_place(i: int, j: int) -> int {
    32 * i + j
}

/// Deriving generators from a label hashes, for each, the 32 bytes of the stream that are
/// its own.
pub proof fn from_label_call(label: &[u8], n: usize, r: Vec<Bn256Point>)
    requires
        call_ensures(<Bn256EngineKZG as Engine>::from_label, (label, n), r),
    ensures
        r@.len() == n,
        forall|i: int|
            0 <= i < n ==> (#[trigger] r@[i])@ == g1_hash(
                "from_uniform_bytes"@,
                Seq::new(32, |j: int| shake256_byte(label@, (32 * i + j) as nat)),
            ) % group_order(),
{
    let g = r@.map_values(|p: Bn256Point| p@);
    assert(g == Bn256EngineKZG::generators(label@, n as nat));
    assert forall|i: int| 0 <= i < n implies (#[trigger] r@[i])@ == g1_hash(
        "from_uniform_bytes"@,
        Seq::new(32, |j: int| shake256_byte(label@, (32 * i + j) as nat)),
    ) % group_order() by {
        generators_hash_own_blocks(label@, n as nat, i, i);
        assert(g[i] == r@[i]@);
    }
}

/// The transcript bytes of a scalar, a coordinate and a compressed point hold their value.
pub proof fn own_transcript_bytes(s: Bn256Scalar, b: Bn256Base, p: Bn256Point, c: Bn256Compressed)
    ensures
        s.transcript_bytes() == Bn256EngineKZG::scalar_bytes(s@),
        s.transcript_bytes().len() == 32,
        le_value(s.transcript_bytes()) == s@,
        b.transcript_bytes() == Bn256EngineKZG::base_bytes(b@),
        p.transcript_bytes() == Bn256EngineKZG::point_bytes(p@),
        c.transcript_bytes() == c.bytes@,
        c@ == c.bytes@,
{
    Bn256EngineKZG::scalar_view(s);
    scalar_bytes_hold_the_scalar(s@);
}

/// Scalars are read from 32 bytes exactly when their little-endian value is less than the
/// order, and written back as the same value.
pub proof fn scalar_repr_calls(
    repr: [u8; 32],
    r: Option<Bn256Scalar>,
    s: &Bn256Scalar,
    out: [u8; 32],
    b: &Bn256Base,
    out2: [u8; 32],
)
    requires
        call_ensures(Bn256Scalar::from_repr, (repr,), r),
        call_ensures(Bn256Scalar::to_repr, (s,), out),
        call_ensures(Bn256Base::to_repr, (b,), out2),
    ensures
        r is Some <==> le_value(repr@) < group_order(),
        r is Some ==> r->0@ == le_value(repr@),
        le_value(out@) == s@,
        0 <= b@ < base_order() ==> le_value(out2@) == b@,
{
    Bn256EngineKZG::scalar_view(*s);
    scalar_bytes_hold_the_scalar(s@);
    if 0 <= b@ < base_order() {
        base_bytes_hold_the_coordinate(b@);
    }
}

/// The generators of both groups have the logarithm 1; the coordinates of a point are those
/// of that multiple of the generator; and compressing writes them.
pub proof fn point_calls(
    g: Bn256Point,
    h: Bn256Point2,
    p: &Bn256Point,
    xy: (Bn256Base, Bn256Base, bool),
    z: Bn256Compressed,
    q: &Bn256Point2,
    raw: [u8; 128],
)
    requires
        call_ensures(Bn256Point::generator, (), g),
        call_ensures(Bn256Point2::generator, (), h),
        call_ensures(<Bn256EngineKZG as Engine>::point_coordinates, (p,), xy),
        call_ensures(<Bn256EngineKZG as Engine>::point_compress, (p,), z),
        call_ensures(Bn256Point2::to_raw_bytes, (q,), raw),
    ensures
        g@ == 1,
        h@ == 1,
        xy.0@ == g1_multiple(p@ as nat).0,
        xy.1@ == g1_multiple(p@ as nat).1,
        xy.2 <==> p@ == 0,
        p@ == 0 ==> le_value(z.bytes@)
            == 0x8000000000000000000000000000000000000000000000000000000000000000int,
        p@ != 0 && 0 <= g1_multiple(p@ as nat).0 < base_order() ==> {
            let top = 0x4000000000000000000000000000000000000000000000000000000000000000int;
            &&& le_value(z.bytes@) % top == g1_multiple(p@ as nat).0
            &&& le_value(z.bytes@) / top == g1_multiple(p@ as nat).1 % 2
        },
        Bn256EngineKZG::decompressed(z.bytes@) == Some(p@),
        raw@ == g2_multiple(q@ as nat),
{
    lemma_pow_256_32();
    value_of_le_bytes(0x8000000000000000000000000000000000000000000000000000000000000000int, 32);
    if 0 <= g1_multiple(p@ as nat).0 < base_order() {
        compressed_holds_the_point(p@);
    }
}

} // verus!
