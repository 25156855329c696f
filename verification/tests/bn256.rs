use multilinear_kzg::provider::bn256::{
    Bn256Compressed, Bn256EngineKZG, Bn256Point, Bn256Point2, Bn256Scalar,
};
use multilinear_kzg::traits::{Engine, PairingEngine, TranscriptReprTrait};

type E = Bn256EngineKZG;

fn small(v: u8) -> [u8; 32] {
    let mut b = [0u8; 32];
    b[0] = v;
    b
}

/// The little-endian bytes of the order of the groups.
fn order() -> [u8; 32] {
    [
        0x01, 0x00, 0x00, 0xf0, 0x93, 0xf5, 0xe1, 0x43, 0x91, 0x70, 0xb9, 0x79, 0x48, 0xe8, 0x33,
        0x28, 0x5d, 0x58, 0x81, 0x81, 0xb6, 0x45, 0x50, 0xb8, 0x29, 0xa0, 0x31, 0xe1, 0x72, 0x4e,
        0x64, 0x30,
    ]
}

fn times(k: u64) -> Bn256Point {
    E::point_mul(&Bn256Point::generator(), &E::scalar_from(k))
}

fn bytes(p: &Bn256Point) -> [u8; 32] {
    E::point_compress(p).bytes
}

#[test]
fn scalars_compute_modulo_the_order() {
    let (a, b) = (E::scalar_from(7), E::scalar_from(5));
    assert_eq!(E::scalar_add(&a, &b).to_repr(), small(12));
    assert_eq!(E::scalar_sub(&a, &b).to_repr(), small(2));
    assert_eq!(E::scalar_mul(&a, &b).to_repr(), small(35));
    let minus_one = E::scalar_sub(&b, &E::scalar_from(6));
    let mut top = order();
    top[0] = 0;
    assert_eq!(minus_one.to_repr(), top);
    assert_eq!(E::scalar_neg(&E::scalar_from(1)).to_repr(), top);
    assert_eq!(E::scalar_neg(&E::scalar_from(0)).to_repr(), small(0));
    assert_eq!(E::scalar_add(&minus_one, &E::scalar_from(1)).to_repr(), small(0));
    assert!(E::scalar_eq(&a, &E::scalar_from(7)));
    assert!(!E::scalar_eq(&a, &b));
}

#[test]
fn scalars_are_read_from_canonical_bytes() {
    assert_eq!(Bn256Scalar::from_repr(small(9)).unwrap().to_repr(), small(9));
    let mut top = order();
    assert!(Bn256Scalar::from_repr(top).is_none());
    top[0] = 0;
    assert_eq!(Bn256Scalar::from_repr(top).unwrap().to_repr(), top);
    assert!(Bn256Scalar::from_repr([0xff; 32]).is_none());
}

#[test]
fn uniform_bytes_are_reduced() {
    let mut wide = [0u8; 64];
    wide[0] = 200;
    assert_eq!(E::scalar_from_uniform(&wide).to_repr(), small(200));
    wide[0] = 0;
    wide[32] = 1;
    let mut power = E::scalar_from(1);
    for _ in 0..256 {
        power = E::scalar_add(&power, &power);
    }
    assert_eq!(E::scalar_from_uniform(&wide).to_repr(), power.to_repr());
    let mut wide = [0u8; 64];
    wide[..32].copy_from_slice(&order());
    assert_eq!(E::scalar_from_uniform(&wide).to_repr(), small(0));
}

#[test]
fn points_compute_by_logarithms() {
    assert_eq!(bytes(&E::point_add(&times(2), &times(3))), bytes(&times(5)));
    assert_eq!(bytes(&E::point_add(&times(2), &times(2))), bytes(&times(4)));
    assert_eq!(bytes(&E::point_sub(&times(5), &times(3))), bytes(&times(2)));
    assert_eq!(bytes(&E::point_mul(&times(5), &E::scalar_from(3))), bytes(&times(15)));
    let minus = E::point_neg(&times(3));
    assert!(E::point_is_identity(&E::point_add(&minus, &times(3))));
    assert!(E::point_is_identity(&times(0)));
    assert!(E::point_is_identity(&E::point_identity()));
    assert!(!E::point_is_identity(&Bn256Point::generator()));
    assert_eq!(bytes(&E::point_add(&times(4), &E::point_identity())), bytes(&times(4)));
}

#[test]
fn generator_and_identity_have_known_coordinates() {
    let (x, y, inf) = E::point_coordinates(&Bn256Point::generator());
    assert_eq!((x.to_repr(), y.to_repr(), inf), (small(1), small(2), false));
    let (x, y, inf) = E::point_coordinates(&E::point_identity());
    assert_eq!((x.to_repr(), y.to_repr(), inf), (small(0), small(0), true));
    assert_eq!(E::base_from_bit(true).to_repr(), small(1));
    assert_eq!(E::base_from_bit(false).to_repr(), small(0));
}

#[test]
fn points_have_transcript_bytes() {
    let g = [small(1).to_vec(), small(2).to_vec(), vec![1]].concat();
    assert_eq!(Bn256Point::generator().to_transcript_bytes(), g);
    assert_eq!(E::point_identity().to_transcript_bytes(), vec![0u8; 65]);
    assert_eq!(E::scalar_from(6).to_transcript_bytes(), small(6).to_vec());
    assert_eq!(E::base_from_bit(true).to_transcript_bytes(), small(1).to_vec());
}

#[test]
fn points_are_compressed_and_read_back() {
    // The second coordinate of the generator is even.
    assert_eq!(bytes(&Bn256Point::generator()), small(1));
    let mut odd = small(1);
    odd[31] = 0x40;
    assert_eq!(bytes(&E::point_neg(&Bn256Point::generator())), odd);
    let mut inf = [0u8; 32];
    inf[31] = 0x80;
    assert_eq!(bytes(&E::point_identity()), inf);
    for k in [0u64, 1, 2, 3, 1000] {
        let c = E::point_compress(&times(k));
        assert_eq!(bytes(&E::point_decompress(&c).unwrap()), bytes(&times(k)));
    }
    // There is no point with first coordinate 4.
    assert!(E::point_decompress(&Bn256Compressed { bytes: small(4) }).is_none());
    assert!(E::point_decompress(&Bn256Compressed { bytes: [0x3f; 32] }).is_none());
}

#[test]
fn pairing_is_bilinear() {
    let h = Bn256Point2::generator();
    let h3 = E::point2_mul(&h, &E::scalar_from(3));
    let minus_six = E::point_neg(&times(6));
    assert!(E::pairing_product_is_identity(&times(2), &h3, &minus_six, &h));
    assert!(!E::pairing_product_is_identity(&times(2), &h3, &times(6), &h));
    let id = E::point_identity();
    assert!(E::pairing_product_is_identity(&id, &h, &id, &h3));
    assert!(!E::pairing_product_is_identity(&id, &h, &times(1), &h3));
}

#[test]
fn second_group_scales() {
    let h = Bn256Point2::generator();
    let six = E::point2_mul(&E::point2_mul(&h, &E::scalar_from(2)), &E::scalar_from(3));
    assert_eq!(six.to_raw_bytes(), E::point2_mul(&h, &E::scalar_from(6)).to_raw_bytes());
    assert_ne!(six.to_raw_bytes(), h.to_raw_bytes());
}

#[test]
fn generators_come_from_the_label() {
    let a = E::from_label(b"one", 3);
    let b = E::from_label(b"one", 2);
    let c = E::from_label(b"two", 3);
    assert_eq!(a.len(), 3);
    assert_eq!(bytes(&a[0]), bytes(&b[0]));
    assert_eq!(bytes(&a[1]), bytes(&b[1]));
    assert_ne!(bytes(&a[0]), bytes(&c[0]));
    assert_ne!(bytes(&a[0]), bytes(&a[1]));
    assert!(!E::point_is_identity(&a[0]));
    assert_eq!(E::from_label(b"one", 0).len(), 0);
}

#[test]
fn infinity_bit_counts_only_without_coordinate() {
    // With the first coordinate 1 the infinity bit is ignored, with 0 it stands for the
    // identity whatever the sign, and there is no other point with first coordinate 0.
    let read = |low: u8, flags: u8| -> Option<[u8; 32]> {
        let mut b = small(low);
        b[31] = flags;
        E::point_decompress(&Bn256Compressed { bytes: b }).map(|p| bytes(&p))
    };
    assert_eq!(read(1, 0x80), Some(bytes(&Bn256Point::generator())));
    assert_eq!(read(1, 0xc0), Some(bytes(&E::point_neg(&Bn256Point::generator()))));
    assert_eq!(read(0, 0x80), Some(bytes(&E::point_identity())));
    assert_eq!(read(0, 0xc0), Some(bytes(&E::point_identity())));
    assert_eq!(read(0, 0x00), None);
    assert_eq!(read(0, 0x40), None);
    // First coordinates that are not less than the size of the field are refused.
    assert_eq!(read(0, 0x3f), None);
}
