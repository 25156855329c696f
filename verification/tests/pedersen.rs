use multilinear_kzg::errors::NovaError;
use multilinear_kzg::provider::bn256::{
    Bn256Base, Bn256Compressed, Bn256EngineKZG, Bn256Point, Bn256Scalar,
};
use multilinear_kzg::provider::pedersen::{
    Commitment, CommitmentEngine, CommitmentKey, CommitmentKeyExtTrait, CompressedCommitment,
};
use multilinear_kzg::traits::{AbsorbInROTrait, Engine, Len, ROInput, TranscriptReprTrait};

type E = Bn256EngineKZG;
type CE = CommitmentEngine<E>;

fn scalars(v: &[u64]) -> Vec<Bn256Scalar> {
    v.iter().map(|x| E::scalar_from(*x)).collect()
}

fn point(k: u64) -> Bn256Point {
    E::point_mul(&Bn256Point::generator(), &E::scalar_from(k))
}

/// A key whose generators have known logarithms.
fn key(k: &[u64]) -> CommitmentKey<E> {
    CommitmentKey { ck: k.iter().map(|x| point(*x)).collect() }
}

fn is_multiple(c: &Commitment<E>, k: u64) -> bool {
    c.compress().comm.bytes == E::point_compress(&point(k)).bytes
}

fn bytes(k: &CommitmentKey<E>) -> Vec<[u8; 32]> {
    k.ck.iter().map(|p| E::point_compress(p).bytes).collect()
}

#[test]
fn key_length_is_a_power_of_two() {
    for (n, len) in [(0, 1), (1, 1), (2, 2), (3, 4), (5, 8), (8, 8)] {
        assert_eq!(CE::setup(b"test", n).length(), len);
    }
    let a = CE::setup(b"test", 4);
    assert_eq!(bytes(&a), bytes(&CE::setup(b"test", 4)));
    assert_ne!(bytes(&a), bytes(&CE::setup(b"tess", 4)));
    assert_eq!(bytes(&a), bytes(&a.clone()));
}

#[test]
fn commits_to_weighted_sums() {
    let ck = key(&[2, 3, 5, 7]);
    assert!(is_multiple(&CE::commit(&ck, &scalars(&[1, 10, 100, 1000])), 7532));
    assert!(is_multiple(&CE::commit(&ck, &scalars(&[1, 10])), 32));
    assert!(is_multiple(&CE::commit(&ck, &[]), 0));
}

#[test]
fn commitments_are_linear() {
    let ck = key(&[2, 3, 5]);
    let a = CE::commit(&ck, &scalars(&[1, 2, 3]));
    let b = CE::commit(&ck, &scalars(&[10, 20, 30]));
    let sum = CE::commit(&ck, &scalars(&[11, 22, 33]));
    assert!(is_multiple(&a, 23));
    assert!(is_multiple(&sum, 253));
    assert!(is_multiple(&(a + b), 253));
    assert!(is_multiple(&(a * E::scalar_from(10)), 230));
    assert!(is_multiple(&(&a * &E::scalar_from(10)), 230));
    let mut c = a;
    c *= E::scalar_from(10);
    assert!(is_multiple(&c, 230));
    assert!(is_multiple(&(a + Commitment::default()), 23));
}

#[test]
fn keys_split_and_combine() {
    let ck = key(&[2, 3, 5, 7, 11]);
    let (l, r) = ck.split_at(2);
    assert_eq!(bytes(&l), bytes(&key(&[2, 3])));
    assert_eq!(bytes(&r), bytes(&key(&[5, 7, 11])));
    assert_eq!(bytes(&l.combine(&r)), bytes(&ck));
    let (l, r) = ck.split_at(5);
    assert_eq!((l.length(), r.length()), (5, 0));
    let (l, r) = ck.split_at(0);
    assert_eq!((l.length(), r.length()), (0, 5));
    // 2*1 + 3*2 and 5*3 + 7*4 + 11*5
    let whole = CE::commit(&ck, &scalars(&[1, 2, 3, 4, 5]));
    assert!(is_multiple(&whole, 8 + 98));
}

#[test]
fn keys_fold() {
    let ck = key(&[2, 3, 5, 7]);
    let folded = ck.fold(&E::scalar_from(10), &E::scalar_from(100));
    assert_eq!(bytes(&folded), bytes(&key(&[520, 730])));
    // The last generator of a key of odd length is left out.
    let folded = key(&[2, 3, 5]).fold(&E::scalar_from(10), &E::scalar_from(100));
    assert_eq!(bytes(&folded), bytes(&key(&[320])));
    assert_eq!(key(&[2]).fold(&E::scalar_from(10), &E::scalar_from(100)).length(), 0);
    // 10 * (2*1 + 3*4) + 100 * (5*1 + 7*4)
    let folded = ck.fold(&E::scalar_from(10), &E::scalar_from(100));
    assert!(is_multiple(&CE::commit(&folded, &scalars(&[1, 4])), 140 + 3300));
}

#[test]
fn keys_scale() {
    let ck = key(&[2, 3, 5]);
    let scaled = ck.scale(&E::scalar_from(10));
    assert_eq!(bytes(&scaled), bytes(&key(&[20, 30, 50])));
    assert!(is_multiple(&CE::commit(&scaled, &scalars(&[1, 2, 3])), 230));
}

#[test]
fn commitments_are_compressed_and_read_back() {
    for k in [0u64, 1, 2, 77] {
        let c = Commitment::<E> { comm: point(k) };
        let d = Commitment::<E>::decompress(&c.compress()).unwrap();
        assert!(is_multiple(&d, k));
        assert_eq!(c.compress().to_transcript_bytes(), c.compress().comm.bytes.to_vec());
    }
    let mut bytes = [0u8; 32];
    bytes[0] = 4;
    let bad = CompressedCommitment::<E> { comm: Bn256Compressed { bytes } };
    assert!(matches!(Commitment::<E>::decompress(&bad), Err(NovaError::DecompressionError)));
}

#[test]
fn commitments_serve_as_keys() {
    let good: Vec<CompressedCommitment<E>> =
        [2, 3, 5].iter().map(|k| Commitment::<E> { comm: point(*k) }.compress()).collect();
    let ck = CommitmentKey::<E>::reinterpret_commitments_as_ck(&good).unwrap();
    assert_eq!(bytes(&ck), bytes(&key(&[2, 3, 5])));
    let mut b = [0u8; 32];
    b[0] = 4;
    let mut bad = good.clone();
    bad[1] = CompressedCommitment { comm: Bn256Compressed { bytes: b } };
    assert!(matches!(
        CommitmentKey::<E>::reinterpret_commitments_as_ck(&bad),
        Err(NovaError::DecompressionError)
    ));
    let empty = CommitmentKey::<E>::reinterpret_commitments_as_ck(&[]).unwrap();
    assert_eq!(empty.length(), 0);
}

#[test]
fn commitments_are_absorbed() {
    let g = Commitment::<E> { comm: point(1) };
    let (x, y, inf) = g.to_coordinates();
    assert_eq!((x.to_repr()[0], y.to_repr()[0], inf), (1, 2, false));
    let bytes = [x.to_repr().to_vec(), y.to_repr().to_vec(), vec![1]].concat();
    assert_eq!(g.to_transcript_bytes(), bytes);
    assert_eq!(Commitment::<E>::default().to_transcript_bytes(), vec![0u8; 65]);

    let mut ro: ROInput<Bn256Base> = ROInput::new();
    g.absorb_in_ro(&mut ro);
    Commitment::<E>::default().absorb_in_ro(&mut ro);
    let first: Vec<u8> = ro.elements.iter().map(|e| e.to_repr()[0]).collect();
    assert_eq!(first, vec![1, 2, 0, 0, 0, 1]);
}

#[test]
fn equality_compares_group_elements() {
    let (a, b) = (Commitment::<E> { comm: point(5) }, Commitment::<E> { comm: point(6) });
    let sum = Commitment::<E> { comm: point(2) } + Commitment { comm: point(3) };
    assert_eq!(a, sum);
    assert_ne!(a, b);
    assert_eq!(a.compress(), sum.compress());
    assert_ne!(a.compress(), b.compress());
    assert_eq!(key(&[1, 2]), key(&[1, 2]));
    assert_ne!(key(&[1, 2]), key(&[1, 3]));
    assert_ne!(key(&[1, 2]), key(&[1]));
}
