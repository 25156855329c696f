//! The pairing-friendly curve BN254, on top of the crate `halo2curves`.
//!
//! Field elements are held as their canonical little-endian bytes and points as their
//! affine coordinates. A point is viewed as its discrete logarithm: `k` is the logarithm
//! of a point when the point is `k` times the generator of its group.
use crate::bytes::{array_eq, array_to_vec, le_bytes, le_bytes_of_value, le_value};
use crate::modular::lemma_small;
use crate::traits::{Engine, PairingEngine, TranscriptReprTrait};
use ff::{FromUniformBytes, PrimeField};
use group::{Curve, Group, GroupEncoding};
use halo2curves::bn256::{Bn256, Fq, Fr, G1Affine, G1Compressed, G2Affine, G2Prepared, G1, G2};
use halo2curves::serde::SerdeObject;
use halo2curves::CurveExt;
use pairing::{MillerLoopResult, MultiMillerLoop};
use sha3::digest::{ExtendableOutput, Update, XofReader};
use vstd::prelude::*;

verus! {

/// The order of the two groups.
pub open spec fn group_order() -> int {
    0x30644e72e131a029b85045b68181585d2833e84879b9709143e1f593f0000001int
}

/// The number of elements of the field that the coordinates of the points lie in.
pub open spec fn base_order() -> int {
    0x30644e72e131a029b85045b68181585d97816a916871ca8d3c208c16d87cfd47int
}

/// The affine coordinates of `k` times the generator of the first group, where the
/// identity has the coordinates `(0, 0)`.
pub uninterp spec fn g1_multiple(k: nat) -> (int, int);

/// The memory form of `k` times the generator of the second group.
pub uninterp spec fn g2_multiple(k: nat) -> Seq<u8>;

/// The logarithm of the point that a message hashes to under a domain.
pub uninterp spec fn g1_hash(domain: Seq<char>, message: Seq<u8>) -> int;

/// The byte at place `i` of the SHAKE256 stream of an input.
pub uninterp spec fn shake256_byte(input: Seq<u8>, i: nat) -> u8;

/// The first `len` bytes of the SHAKE256 stream of an input.
pub open spec fn shake256_stream(input: Seq<u8>, len: nat) -> Seq<u8> {
    Seq::new(len, |i: int| shake256_byte(input, i as nat))
}

/// A scalar.
#[derive(Clone, Copy, Debug)]
pub struct Bn256Scalar {
    repr: [u8; 32],
}

impl Bn256Scalar {
    spec fn canonical(self) -> bool {
        le_value(self.repr@) < group_order()
    }

    #[verifier::type_invariant]
    spec fn inv(self) -> bool {
        self.canonical()
    }

    /// The scalar with the given little-endian bytes, if they are less than the order.
    pub fn from_repr(repr: [u8; 32]) -> (r: Option<Self>)
        ensures
            r is Some <==> le_value(repr@) < group_order(),
            r is Some ==> r->0@ == le_value(repr@),
    {
        if fr_is_canonical(&repr) {
            proof {
                le_bytes_of_value(repr@);
                lemma_small(le_value(repr@), group_order());
            }
            Some(Bn256Scalar { repr })
        } else {
            None
        }
    }

    /// The canonical little-endian bytes of a scalar.
    pub fn to_repr(&self) -> (repr: [u8; 32])
        ensures
            repr@ == le_bytes(self@, 32),
    {
        proof {
            use_type_invariant(self);
            le_bytes_of_value(self.repr@);
            lemma_small(le_value(self.repr@), group_order());
        }
        self.repr
    }
}

impl View for Bn256Scalar {
    type V = int;

    closed spec fn view(&self) -> int {
        le_value(self.repr@) % group_order()
    }
}

impl TranscriptReprTrait for Bn256Scalar {
    open spec fn transcript_bytes(&self) -> Seq<u8> {
        le_bytes(self@, 32)
    }

    fn to_transcript_bytes(&self) -> (bytes: Vec<u8>) {
        array_to_vec(&self.to_repr())
    }
}

/// `PrimeField::from_repr` of the scalars succeeds on the bytes of the integers less than
/// the order, and on no others.
#[verifier::external_body]
fn fr_is_canonical(repr: &[u8; 32]) -> (r: bool)
    ensures
        r == (le_value(repr@) < group_order()),
{
    Fr::from_repr(*repr).is_some().into()
}

/// `From<u64>` of the scalars gives the scalar with that value.
#[verifier::external_body]
fn fr_from(v: u64) -> (r: Bn256Scalar)
    ensures
        r@ == v,
{
    Bn256Scalar { repr: Fr::from(v).to_repr() }
}

/// `+` on scalars is addition modulo the order.
#[verifier::external_body]
fn fr_add(a: &Bn256Scalar, b: &Bn256Scalar) -> (r: Bn256Scalar)
    requires
        a.canonical(),
        b.canonical(),
    ensures
        r@ == (a@ + b@) % group_order(),
{
    let x = Fr::from_repr(a.repr).unwrap();
    let y = Fr::from_repr(b.repr).unwrap();
    Bn256Scalar { repr: (x + y).to_repr() }
}

/// `-` on scalars is subtraction modulo the order.
#[verifier::external_body]
fn fr_sub(a: &Bn256Scalar, b: &Bn256Scalar) -> (r: Bn256Scalar)
    requires
        a.canonical(),
        b.canonical(),
    ensures
        r@ == (a@ - b@) % group_order(),
{
    let x = Fr::from_repr(a.repr).unwrap();
    let y = Fr::from_repr(b.repr).unwrap();
    Bn256Scalar { repr: (x - y).to_repr() }
}

/// `*` on scalars is multiplication modulo the order.
#[verifier::external_body]
fn fr_mul(a: &Bn256Scalar, b: &Bn256Scalar) -> (r: Bn256Scalar)
    requires
        a.canonical(),
        b.canonical(),
    ensures
        r@ == (a@ * b@) % group_order(),
{
    let x = Fr::from_repr(a.repr).unwrap();
    let y = Fr::from_repr(b.repr).unwrap();
    Bn256Scalar { repr: (x * y).to_repr() }
}

/// Unary `-` on scalars is negation modulo the order.
#[verifier::external_body]
fn fr_neg(a: &Bn256Scalar) -> (r: Bn256Scalar)
    requires
        a.canonical(),
    ensures
        r@ == (-a@) % group_order(),
{
    Bn256Scalar { repr: (-Fr::from_repr(a.repr).unwrap()).to_repr() }
}

/// `FromUniformBytes::from_uniform_bytes` of the scalars reduces a 512-bit little-endian
/// integer modulo the order.
#[verifier::external_body]
fn fr_from_uniform_bytes(bytes: &[u8; 64]) -> (r: Bn256Scalar)
    ensures
        r@ == le_value(bytes@) % group_order(),
{
    Bn256Scalar { repr: Fr::from_uniform_bytes(bytes).to_repr() }
}

/// A coordinate of a point of the first group.
#[derive(Clone, Copy, Debug)]
pub struct Bn256Base {
    repr: [u8; 32],
}

impl Bn256Base {
    spec fn canonical(self) -> bool {
        le_value(self.repr@) < base_order()
    }

    #[verifier::type_invariant]
    spec fn inv(self) -> bool {
        self.canonical()
    }

    /// The canonical little-endian bytes of a coordinate.
    pub fn to_repr(&self) -> (repr: [u8; 32])
        ensures
            repr@ == le_bytes(self@, 32),
    {
        proof {
            use_type_invariant(self);
            le_bytes_of_value(self.repr@);
            lemma_small(le_value(self.repr@), base_order());
        }
        self.repr
    }
}

impl View for Bn256Base {
    type V = int;

    closed spec fn view(&self) -> int {
        le_value(self.repr@) % base_order()
    }
}

impl TranscriptReprTrait for Bn256Base {
    open spec fn transcript_bytes(&self) -> Seq<u8> {
        le_bytes(self@, 32)
    }

    fn to_transcript_bytes(&self) -> (bytes: Vec<u8>) {
        array_to_vec(&self.to_repr())
    }
}

/// `From<u64>` of the field of coordinates gives the element with that value.
#[verifier::external_body]
fn fq_from(v: u64) -> (r: Bn256Base)
    ensures
        r@ == v,
{
    Bn256Base { repr: Fq::from(v).to_repr() }
}

/// A point of the first group.
#[derive(Clone, Copy, Debug)]
pub struct Bn256Point {
    x: Bn256Base,
    y: Bn256Base,
}

impl Bn256Point {
    spec fn is_multiple(self, k: int) -> bool {
        0 <= k < group_order() && (self.x@, self.y@) == g1_multiple(k as nat)
    }

    spec fn valid(self) -> bool {
        &&& self.x.canonical()
        &&& self.y.canonical()
        &&& exists|k: int| self.is_multiple(k)
    }

    #[verifier::type_invariant]
    spec fn inv(self) -> bool {
        self.valid()
    }

    /// The generator of the first group.
    pub fn generator() -> (r: Self)
        ensures
            r@ == 1,
    {
        let one = fr_from(1);
        proof {
            use_type_invariant(&one);
        }
        g1_generator_times(&one)
    }
}

impl View for Bn256Point {
    type V = int;

    closed spec fn view(&self) -> int {
        if exists|k: int| self.is_multiple(k) {
            choose|k: int| self.is_multiple(k)
        } else {
            0
        }
    }
}

/// The transcript bytes of the point with logarithm `k`: its coordinates, and a byte that
/// is 0 for the identity and 1 for every other point.
pub open spec fn g1_bytes(k: int) -> Seq<u8> {
    let (x, y) = g1_multiple(k as nat);
    le_bytes(x, 32) + le_bytes(y, 32) + seq![if k == 0 { 0u8 } else { 1u8 }]
}

impl TranscriptReprTrait for Bn256Point {
    open spec fn transcript_bytes(&self) -> Seq<u8> {
        g1_bytes(self@)
    }

    fn to_transcript_bytes(&self) -> (bytes: Vec<u8>) {
        proof {
            use_type_invariant(self);
        }
        let mut bytes = self.x.to_transcript_bytes();
        let mut y = self.y.to_transcript_bytes();
        bytes.append(&mut y);
        bytes.push(if g1_is_identity(self) { 0 } else { 1 });
        assert(bytes@ =~= g1_bytes(self@));
        bytes
    }
}

/// `*` of `Group::generator` of the first group by a scalar gives that multiple of the
/// generator, which has the scalar as its logarithm.
#[verifier::external_body]
fn g1_generator_times(s: &Bn256Scalar) -> (r: Bn256Point)
    requires
        s.canonical(),
    ensures
        (r.x@, r.y@) == g1_multiple(s@ as nat),
        r@ == s@,
{
    let p = (G1::generator() * Fr::from_repr(s.repr).unwrap()).to_affine();
    Bn256Point { x: Bn256Base { repr: p.x.to_repr() }, y: Bn256Base { repr: p.y.to_repr() } }
}

/// `Group::identity` of the first group is 0 times the generator; its affine form has the
/// coordinates `(0, 0)`.
#[verifier::external_body]
fn g1_identity() -> (r: Bn256Point)
    ensures
        (r.x@, r.y@) == g1_multiple(0),
        (r.x@, r.y@) == (0int, 0int),
        r@ == 0,
{
    let p = G1::identity().to_affine();
    Bn256Point { x: Bn256Base { repr: p.x.to_repr() }, y: Bn256Base { repr: p.y.to_repr() } }
}

/// `Group::is_identity` of the first group tells the identity from the other points.
#[verifier::external_body]
fn g1_is_identity(p: &Bn256Point) -> (r: bool)
    requires
        p.valid(),
    ensures
        r == (p@ == 0),
{
    let x = Fq::from_repr(p.x.repr).unwrap();
    let y = Fq::from_repr(p.y.repr).unwrap();
    G1::from(G1Affine { x, y }).is_identity().into()
}

/// `+` on the first group is the group operation: logarithms add up modulo the order.
#[verifier::external_body]
fn g1_add(p: &Bn256Point, q: &Bn256Point) -> (r: Bn256Point)
    requires
        p.valid(),
        q.valid(),
    ensures
        r@ == (p@ + q@) % group_order(),
{
    let (px, py) = (Fq::from_repr(p.x.repr).unwrap(), Fq::from_repr(p.y.repr).unwrap());
    let (qx, qy) = (Fq::from_repr(q.x.repr).unwrap(), Fq::from_repr(q.y.repr).unwrap());
    let r = G1::from(G1Affine { x: px, y: py }) + G1::from(G1Affine { x: qx, y: qy });
    let r = r.to_affine();
    Bn256Point { x: Bn256Base { repr: r.x.to_repr() }, y: Bn256Base { repr: r.y.to_repr() } }
}

/// `-` on the first group subtracts logarithms modulo the order.
#[verifier::external_body]
fn g1_sub(p: &Bn256Point, q: &Bn256Point) -> (r: Bn256Point)
    requires
        p.valid(),
        q.valid(),
    ensures
        r@ == (p@ - q@) % group_order(),
{
    let (px, py) = (Fq::from_repr(p.x.repr).unwrap(), Fq::from_repr(p.y.repr).unwrap());
    let (qx, qy) = (Fq::from_repr(q.x.repr).unwrap(), Fq::from_repr(q.y.repr).unwrap());
    let r = G1::from(G1Affine { x: px, y: py }) - G1::from(G1Affine { x: qx, y: qy });
    let r = r.to_affine();
    Bn256Point { x: Bn256Base { repr: r.x.to_repr() }, y: Bn256Base { repr: r.y.to_repr() } }
}

/// Unary `-` on the first group negates the logarithm modulo the order.
#[verifier::external_body]
fn g1_neg(p: &Bn256Point) -> (r: Bn256Point)
    requires
        p.valid(),
    ensures
        r@ == (-p@) % group_order(),
{
    let x = Fq::from_repr(p.x.repr).unwrap();
    let y = Fq::from_repr(p.y.repr).unwrap();
    let r = (-G1::from(G1Affine { x, y })).to_affine();
    Bn256Point { x: Bn256Base { repr: r.x.to_repr() }, y: Bn256Base { repr: r.y.to_repr() } }
}

/// `*` of a point of the first group by a scalar multiplies the logarithm by the scalar,
/// modulo the order.
#[verifier::external_body]
fn g1_mul(p: &Bn256Point, s: &Bn256Scalar) -> (r: Bn256Point)
    requires
        p.valid(),
        s.canonical(),
    ensures
        r@ == (p@ * s@) % group_order(),
{
    let x = Fq::from_repr(p.x.repr).unwrap();
    let y = Fq::from_repr(p.y.repr).unwrap();
    let r = (G1::from(G1Affine { x, y }) * Fr::from_repr(s.repr).unwrap()).to_affine();
    Bn256Point { x: Bn256Base { repr: r.x.to_repr() }, y: Bn256Base { repr: r.y.to_repr() } }
}

/// The compressed form of a point of the first group.
#[derive(Clone, Copy, Debug)]
pub struct Bn256Compressed {
    pub bytes: [u8; 32],
}

impl View for Bn256Compressed {
    type V = Seq<u8>;

    open spec fn view(&self) -> Seq<u8> {
        self.bytes@
    }
}

impl TranscriptReprTrait for Bn256Compressed {
    open spec fn transcript_bytes(&self) -> Seq<u8> {
        self.bytes@
    }

    fn to_transcript_bytes(&self) -> (bytes: Vec<u8>) {
        array_to_vec(&self.bytes)
    }
}

/// The compressed form of the point with logarithm `k`: the little-endian bytes of its
/// first coordinate, with the parity of the second at bit 254. The identity has bit 255
/// alone.
pub open spec fn g1_compressed(k: int) -> Seq<u8> {
    let (x, y) = g1_multiple(k as nat);
    if k == 0 {
        le_bytes(0x8000000000000000000000000000000000000000000000000000000000000000int, 32)
    } else {
        le_bytes(
            x + (y % 2) * 0x4000000000000000000000000000000000000000000000000000000000000000int,
            32,
        )
    }
}

/// The point with logarithm `k` is not the identity, has the first coordinate `x`, and the
/// parity of its second coordinate is `sign`.
pub open spec fn g1_has_form(k: int, x: int, sign: int) -> bool {
    &&& 1 <= k < group_order()
    &&& g1_multiple(k as nat).0 == x
    &&& g1_multiple(k as nat).1 % 2 == sign
}

/// The logarithm of the point that compressed bytes decode to: the point, if there is one,
/// with the first coordinate and the parity of the second that the bytes hold. Bit 255
/// counts only where the first coordinate is 0, and stands for the identity there.
pub open spec fn g1_from_bytes(bytes: Seq<u8>) -> Option<int> {
    let v = le_value(bytes);
    let x = v % 0x4000000000000000000000000000000000000000000000000000000000000000int;
    let sign = (v / 0x4000000000000000000000000000000000000000000000000000000000000000int) % 2;
    if x >= base_order() {
        None
    } else if x == 0 && v >= 0x8000000000000000000000000000000000000000000000000000000000000000int {
        Some(0)
    } else if exists|k: int| g1_has_form(k, x, sign) {
        Some(choose|k: int| g1_has_form(k, x, sign))
    } else {
        None
    }
}

/// `GroupEncoding::to_bytes` of the first group writes the compressed form, which
/// `GroupEncoding::from_bytes` reads back as the same point.
#[verifier::external_body]
fn g1_compress(p: &Bn256Point) -> (r: Bn256Compressed)
    requires
        p.valid(),
    ensures
        r@ == g1_compressed(p@),
        g1_from_bytes(r@) == Some(p@),
{
    let x = Fq::from_repr(p.x.repr).unwrap();
    let y = Fq::from_repr(p.y.repr).unwrap();
    let bytes = G1::from(G1Affine { x, y }).to_bytes();
    Bn256Compressed { bytes: bytes.as_ref().try_into().unwrap() }
}

/// `GroupEncoding::from_bytes` of the first group decodes compressed bytes, or finds that
/// they stand for no point. Of two opposite points the second coordinates have different
/// parities, so at most one point fits.
#[verifier::external_body]
fn g1_decompress(c: &Bn256Compressed) -> (r: Option<Bn256Point>)
    ensures
        r is Some <==> g1_from_bytes(c@) is Some,
        r is Some ==> Some(r->0@) == g1_from_bytes(c@),
{
    let mut repr = G1Compressed::default();
    repr.as_mut().copy_from_slice(&c.bytes);
    let p: Option<G1> = G1::from_bytes(&repr).into();
    match p.map(|p| p.to_affine()) {
        Some(p) => Some(
            Bn256Point {
                x: Bn256Base { repr: p.x.to_repr() },
                y: Bn256Base { repr: p.y.to_repr() },
            },
        ),
        None => None,
    }
}

/// `CurveExt::hash_to_curve` of the first group maps a message to a point, which depends on
/// the domain and the message alone.
#[verifier::external_body]
fn g1_hash_to_curve(domain: &str, message: &[u8]) -> (r: Bn256Point)
    requires
        domain@ == "from_uniform_bytes"@,
    ensures
        r@ == g1_hash(domain@, message@),
{
    let p = G1::hash_to_curve(domain)(message).to_affine();
    Bn256Point { x: Bn256Base { repr: p.x.to_repr() }, y: Bn256Base { repr: p.y.to_repr() } }
}

/// `sha3::Shake256` gives out a stream of bytes that depends on the input alone; how much
/// of it is read does not change it.
#[verifier::external_body]
fn shake256(input: &[u8], len: usize) -> (r: Vec<u8>)
    requires
        len <= isize::MAX,
    ensures
        r@ == Seq::new(len as nat, |i: int| shake256_byte(input@, i as nat)),
{
    let mut hasher = sha3::Shake256::default();
    hasher.update(input);
    let mut r = vec![0u8; len];
    hasher.finalize_xof().read(&mut r);
    r
}

/// A point of the second group.
#[derive(Clone, Copy, Debug)]
pub struct Bn256Point2 {
    raw: [u8; 128],
}

impl Bn256Point2 {
    spec fn is_multiple(self, k: int) -> bool {
        0 <= k < group_order() && self.raw@ == g2_multiple(k as nat)
    }

    spec fn valid(self) -> bool {
        exists|k: int| self.is_multiple(k)
    }

    #[verifier::type_invariant]
    spec fn inv(self) -> bool {
        self.valid()
    }

    /// The generator of the second group.
    pub fn generator() -> (r: Self)
        ensures
            r@ == 1,
    {
        let one = fr_from(1);
        proof {
            use_type_invariant(&one);
        }
        g2_generator_times(&one)
    }

    /// The memory form of a point of the second group.
    pub fn to_raw_bytes(&self) -> (raw: [u8; 128])
        ensures
            raw@ == g2_multiple(self@ as nat),
    {
        proof {
            use_type_invariant(self);
        }
        self.raw
    }
}

impl View for Bn256Point2 {
    type V = int;

    closed spec fn view(&self) -> int {
        if exists|k: int| self.is_multiple(k) {
            choose|k: int| self.is_multiple(k)
        } else {
            0
        }
    }
}

/// `*` of `Group::generator` of the second group by a scalar gives that multiple of the
/// generator, which has the scalar as its logarithm.
#[verifier::external_body]
fn g2_generator_times(s: &Bn256Scalar) -> (r: Bn256Point2)
    requires
        s.canonical(),
    ensures
        r.raw@ == g2_multiple(s@ as nat),
        r@ == s@,
{
    let p = (G2::generator() * Fr::from_repr(s.repr).unwrap()).to_affine();
    Bn256Point2 { raw: p.to_raw_bytes().try_into().unwrap() }
}

/// `*` of a point of the second group by a scalar multiplies the logarithm by the scalar,
/// modulo the order.
#[verifier::external_body]
fn g2_mul(p: &Bn256Point2, s: &Bn256Scalar) -> (r: Bn256Point2)
    requires
        p.valid(),
        s.canonical(),
    ensures
        r@ == (p@ * s@) % group_order(),
{
    let p = G2Affine::from_raw_bytes_unchecked(&p.raw);
    let r = (G2::from(p) * Fr::from_repr(s.repr).unwrap()).to_affine();
    Bn256Point2 { raw: r.to_raw_bytes().try_into().unwrap() }
}

/// `MultiMillerLoop::multi_miller_loop` with `final_exponentiation` multiplies the pairings
/// of the given points. A pairing is bilinear and not degenerate, so the product is the
/// identity exactly when the products of the logarithms add up to 0 modulo the order.
#[verifier::external_body]
fn pairing_check(p1: &Bn256Point, q1: &Bn256Point2, p2: &Bn256Point, q2: &Bn256Point2) -> (r: bool)
    requires
        p1.valid(),
        q1.valid(),
        p2.valid(),
        q2.valid(),
    ensures
        r == ((p1@ * q1@ + p2@ * q2@) % group_order() == 0),
{
    let (x1, y1) = (Fq::from_repr(p1.x.repr).unwrap(), Fq::from_repr(p1.y.repr).unwrap());
    let (x2, y2) = (Fq::from_repr(p2.x.repr).unwrap(), Fq::from_repr(p2.y.repr).unwrap());
    let terms = [
        (&G1Affine { x: x1, y: y1 }, &G2Prepared::from(G2Affine::from_raw_bytes_unchecked(&q1.raw))),
        (&G1Affine { x: x2, y: y2 }, &G2Prepared::from(G2Affine::from_raw_bytes_unchecked(&q2.raw))),
    ];
    Bn256::multi_miller_loop(&terms).final_exponentiation().is_identity().into()
}

/// The curve BN254 with its pairing.
#[derive(Clone, Copy, Debug)]
pub struct Bn256EngineKZG {}

impl Engine for Bn256EngineKZG {
    type Scalar = Bn256Scalar;

    type Base = Bn256Base;

    type GE = Bn256Point;

    type Compressed = Bn256Compressed;

    open spec fn order() -> int {
        group_order()
    }

    open spec fn scalar_bytes(s: int) -> Seq<u8> {
        le_bytes(s, 32)
    }

    open spec fn base_bytes(v: int) -> Seq<u8> {
        le_bytes(v, 32)
    }

    open spec fn point_bytes(k: int) -> Seq<u8> {
        g1_bytes(k)
    }

    open spec fn coordinates(k: int) -> (int, int) {
        g1_multiple(k as nat)
    }

    open spec fn compressed(k: int) -> Seq<u8> {
        g1_compressed(k)
    }

    open spec fn decompressed(bytes: Seq<u8>) -> Option<int> {
        g1_from_bytes(bytes)
    }

    open spec fn generators(label: Seq<u8>, n: nat) -> Seq<int> {
        let stream = shake256_stream(label, 32 * n);
        Seq::new(
            n,
            |i: int|
                g1_hash("from_uniform_bytes"@, stream.subrange(32 * i, 32 * i + 32))
                    % group_order(),
        )
    }

    proof fn order_range() {
    }

    proof fn scalar_view(s: Bn256Scalar) {
    }

    proof fn base_view(b: Bn256Base) {
    }

    proof fn point_view(p: Bn256Point) {
    }

    proof fn generators_range(label: Seq<u8>, n: nat) {
    }

    fn scalar_from(v: u64) -> (r: Bn256Scalar) {
        proof {
            lemma_small(v as int, group_order());
        }
        fr_from(v)
    }

    fn scalar_from_uniform(bytes: &[u8; 64]) -> (r: Bn256Scalar) {
        fr_from_uniform_bytes(bytes)
    }

    fn scalar_add(a: &Bn256Scalar, b: &Bn256Scalar) -> (r: Bn256Scalar) {
        proof {
            use_type_invariant(a);
            use_type_invariant(b);
        }
        fr_add(a, b)
    }

    fn scalar_sub(a: &Bn256Scalar, b: &Bn256Scalar) -> (r: Bn256Scalar) {
        proof {
            use_type_invariant(a);
            use_type_invariant(b);
        }
        fr_sub(a, b)
    }

    fn scalar_mul(a: &Bn256Scalar, b: &Bn256Scalar) -> (r: Bn256Scalar) {
        proof {
            use_type_invariant(a);
            use_type_invariant(b);
        }
        fr_mul(a, b)
    }

    fn scalar_neg(a: &Bn256Scalar) -> (r: Bn256Scalar) {
        proof {
            use_type_invariant(a);
        }
        fr_neg(a)
    }

    fn scalar_eq(a: &Bn256Scalar, b: &Bn256Scalar) -> (r: bool) {
        proof {
            use_type_invariant(a);
            use_type_invariant(b);
            le_bytes_of_value(a.repr@);
            le_bytes_of_value(b.repr@);
            lemma_small(le_value(a.repr@), group_order());
            lemma_small(le_value(b.repr@), group_order());
        }
        array_eq(&a.repr, &b.repr)
    }

    fn base_from_bit(bit: bool) -> (r: Bn256Base) {
        fq_from(if bit { 1 } else { 0 })
    }

    fn point_identity() -> (r: Bn256Point) {
        g1_identity()
    }

    fn point_is_identity(p: &Bn256Point) -> (r: bool) {
        proof {
            use_type_invariant(p);
        }
        g1_is_identity(p)
    }

    fn point_eq(p: &Bn256Point, q: &Bn256Point) -> (r: bool) {
        proof {
            use_type_invariant(p);
            use_type_invariant(q);
            le_bytes_of_value(p.x.repr@);
            le_bytes_of_value(p.y.repr@);
            le_bytes_of_value(q.x.repr@);
            le_bytes_of_value(q.y.repr@);
            lemma_small(le_value(p.x.repr@), base_order());
            lemma_small(le_value(p.y.repr@), base_order());
            lemma_small(le_value(q.x.repr@), base_order());
            lemma_small(le_value(q.y.repr@), base_order());
            if p.x.repr@ == q.x.repr@ && p.y.repr@ == q.y.repr@ {
                assert(p.x.repr == q.x.repr);
                assert(p.y.repr == q.y.repr);
            }
        }
        array_eq(&p.x.repr, &q.x.repr) && array_eq(&p.y.repr, &q.y.repr)
    }

    fn point_add(p: &Bn256Point, q: &Bn256Point) -> (r: Bn256Point) {
        proof {
            use_type_invariant(p);
            use_type_invariant(q);
        }
        g1_add(p, q)
    }

    fn point_sub(p: &Bn256Point, q: &Bn256Point) -> (r: Bn256Point) {
        proof {
            use_type_invariant(p);
            use_type_invariant(q);
        }
        g1_sub(p, q)
    }

    fn point_neg(p: &Bn256Point) -> (r: Bn256Point) {
        proof {
            use_type_invariant(p);
        }
        g1_neg(p)
    }

    fn point_mul(p: &Bn256Point, s: &Bn256Scalar) -> (r: Bn256Point) {
        proof {
            use_type_invariant(p);
            use_type_invariant(s);
        }
        g1_mul(p, s)
    }

    fn point_coordinates(p: &Bn256Point) -> (r: (Bn256Base, Bn256Base, bool)) {
        proof {
            use_type_invariant(p);
        }
        (p.x, p.y, g1_is_identity(p))
    }

    fn point_compress(p: &Bn256Point) -> (r: Bn256Compressed) {
        proof {
            use_type_invariant(p);
        }
        g1_compress(p)
    }

    fn point_decompress(c: &Bn256Compressed) -> (r: Option<Bn256Point>) {
        g1_decompress(c)
    }

    fn compressed_eq(a: &Bn256Compressed, b: &Bn256Compressed) -> (r: bool) {
        array_eq(&a.bytes, &b.bytes)
    }

    fn from_label(label: &[u8], n: usize) -> (r: Vec<Bn256Point>) {
        let stream = shake256(label, 32 * n);
        let mut r: Vec<Bn256Point> = Vec::new();
        let mut i: usize = 0;
        while i < n
            invariant
                i <= n,
                32 * n <= isize::MAX,
                stream@ == shake256_stream(label@, 32 * n as nat),
                stream@.len() == 32 * n,
                r@.map_values(|p: Bn256Point| p@) == Self::generators(label@, n as nat).take(
                    i as int,
                ),
            decreases n - i,
        {
            let block = vstd::slice::slice_subrange(stream.as_slice(), 32 * i, 32 * i + 32);
            let p = g1_hash_to_curve("from_uniform_bytes", block);
            proof {
                Self::point_view(p);
                lemma_small(p@, group_order());
            }
            let ghost before = r@;
            r.push(p);
            assert(r@.map_values(|p: Bn256Point| p@) =~= before.map_values(
                |p: Bn256Point| p@,
            ).push(p@));
            assert(Self::generators(label@, n as nat).take(i + 1) =~= Self::generators(
                label@,
                n as nat,
            ).take(i as int).push(p@));
            i = i + 1;
        }
        assert(Self::generators(label@, n as nat).take(i as int) =~= Self::generators(
            label@,
            n as nat,
        ));
        r
    }
}

/// Asking for more generators of a label adds to those that fewer would give.
pub proof fn generators_extend(label: Seq<u8>, k: nat, n: nat)
    requires
        k <= n,
    ensures
        Bn256EngineKZG::generators(label, n).take(k as int) == Bn256EngineKZG::generators(
            label,
            k,
        ),
{
    let (short, long) = (shake256_stream(label, 32 * k), shake256_stream(label, 32 * n));
    let g = Bn256EngineKZG::generators(label, n).take(k as int);
    assert forall|i: int| 0 <= i < k implies g[i] == Bn256EngineKZG::generators(label, k)[i] by {
        assert(long.subrange(32 * i, 32 * i + 32) =~= short.subrange(32 * i, 32 * i + 32));
    }
    assert(g =~= Bn256EngineKZG::generators(label, k));
}

impl PairingEngine for Bn256EngineKZG {
    type GE2 = Bn256Point2;

    fn point2_mul(p: &Bn256Point2, s: &Bn256Scalar) -> (r: Bn256Point2) {
        proof {
            use_type_invariant(p);
            use_type_invariant(s);
        }
        g2_mul(p, s)
    }

    fn pairing_product_is_identity(
        p1: &Bn256Point,
        q1: &Bn256Point2,
        p2: &Bn256Point,
        q2: &Bn256Point2,
    ) -> (r: bool) {
        proof {
            use_type_invariant(p1);
            use_type_invariant(q1);
            use_type_invariant(p2);
            use_type_invariant(q2);
        }
        pairing_check(p1, q1, p2, q2)
    }
}

} // verus!
