use multilinear_kzg::errors::NovaError;
use multilinear_kzg::provider::bn256::{Bn256EngineKZG, Bn256Scalar};
use multilinear_kzg::provider::keccak::Keccak256Transcript;
use multilinear_kzg::traits::{Engine, TranscriptEngineTrait};
use sha3::Digest;

type E = Bn256EngineKZG;
type TE = Keccak256Transcript<E>;

fn hex(b: &[u8]) -> String {
    b.iter().map(|x| format!("{:02x}", x)).collect()
}

fn state(input: &[u8]) -> [u8; 64] {
    let mut out = [0u8; 64];
    out[..32].copy_from_slice(&sha3::Keccak256::digest([input, &[0]].concat()));
    out[32..].copy_from_slice(&sha3::Keccak256::digest([input, &[1]].concat()));
    out
}

#[test]
fn challenges_have_known_values() {
    let mut t = TE::new(b"test");
    t.absorb(b"s1", &E::scalar_from(2));
    t.absorb(b"s2", &E::scalar_from(5));
    let c1 = t.squeeze(b"c1").unwrap();
    assert_eq!(
        hex(&c1.to_repr()),
        "9fb71e3b74bfd0b60d97349849b895595779a240b92a6fae86bd2812692b6b0e"
    );
    t.absorb(b"s3", &E::scalar_from(128));
    let c2 = t.squeeze(b"c2").unwrap();
    assert_eq!(
        hex(&c2.to_repr()),
        "bfd4c50b7d6317e9267d5d65c985eb455a3561129c0b3beef79bfc8461a84f18"
    );
}

#[test]
fn challenges_hash_what_was_absorbed() {
    let mut t = TE::new(b"label");
    let s0 = state(b"NoTRlabel");
    t.absorb(b"a", &vec![E::scalar_from(1), E::scalar_from(2)]);
    let c = t.squeeze(b"x").unwrap();
    let absorbed = [
        b"a".as_slice(),
        &E::scalar_from(1).to_repr(),
        &E::scalar_from(2).to_repr(),
    ]
    .concat();
    let s1 = state(&[&absorbed[..], b"NoDS", &[0, 0], &s0, b"x"].concat());
    assert_eq!(c.to_repr(), E::scalar_from_uniform(&s1).to_repr());
    let c = t.squeeze(b"y").unwrap();
    let s2 = state(&[b"NoDS".as_slice(), &[1, 0], &s1, b"y"].concat());
    assert_eq!(c.to_repr(), E::scalar_from_uniform(&s2).to_repr());
}

#[test]
fn labels_and_contents_matter() {
    let challenge = |start: &[u8], label: &[u8], v: u64| -> Bn256Scalar {
        let mut t = TE::new(start);
        t.absorb(label, &E::scalar_from(v));
        t.squeeze(b"c").unwrap()
    };
    let c = challenge(b"t", b"a", 1);
    assert_eq!(c.to_repr(), challenge(b"t", b"a", 1).to_repr());
    assert_ne!(c.to_repr(), challenge(b"u", b"a", 1).to_repr());
    assert_ne!(c.to_repr(), challenge(b"t", b"b", 1).to_repr());
    assert_ne!(c.to_repr(), challenge(b"t", b"a", 2).to_repr());
}

#[test]
fn rounds_run_out() {
    let mut t = TE::new(b"test");
    for _ in 0..65535 {
        assert!(t.squeeze(b"c").is_ok());
    }
    assert!(matches!(t.squeeze(b"c"), Err(NovaError::InternalTranscriptError)));
    assert!(matches!(t.squeeze(b"c"), Err(NovaError::InternalTranscriptError)));
}
