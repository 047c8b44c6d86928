use rand_core::OsRng;
use vrf::hash::OutputHash;
use vrf::point::Point;
use vrf::scalar::Scalar;
use vrf::{basepoint, hash_to_point, point_from_slice, public_key, scalar_from_canonical, scalar_random, VRF};

const ALPHA_0: &[u8] = b"hello from";
const ALPHA_1: &str = "zudo";

const ORDER: [u8; 32] = [
    0xed, 0xd3, 0xf5, 0x5c, 0x1a, 0x63, 0x12, 0x58, 0xd6, 0x9c, 0xf7, 0xa2, 0xde, 0xf9, 0xde,
    0x14, 0, 0, 0, 0, 0, 0, 0, 0, 0, 0, 0, 0, 0, 0, 0, 0x10,
];

const BASEPOINT: [u8; 32] = [
    0xe2, 0xf2, 0xae, 0x0a, 0x6a, 0xbc, 0x4e, 0x71, 0xa8, 0x84, 0xa9, 0x61, 0xc5, 0x00, 0x51,
    0x5f, 0x58, 0xe3, 0x0b, 0x6a, 0xa5, 0x82, 0xdd, 0x8d, 0xb6, 0xa6, 0x59, 0x45, 0xe0, 0x8d,
    0x2d, 0x76,
];

fn small(n: u8) -> Scalar {
    let mut b = [0u8; 32];
    b[0] = n;
    scalar_from_canonical(b).unwrap()
}

fn hex(b: &[u8]) -> String {
    b.iter().map(|x| format!("{:02x}", x)).collect()
}

#[test]
fn sign_verify() {
    let rng = &mut OsRng;
    let secret = scalar_random(rng);
    let public = public_key(&secret);
    let vrf_0 = VRF::sign(rng, &secret, ALPHA_0);
    let vrf_1 = VRF::sign(rng, &secret, ALPHA_0);
    assert_eq!(vrf_0.gamma, vrf_1.gamma);
    assert_ne!(vrf_0.c, vrf_1.c);
    assert_ne!(vrf_0.s, vrf_1.s);
    let beta_0 = vrf_0.beta(OutputHash::Sha224);
    let beta_1 = vrf_1.beta(OutputHash::Sha224);
    assert_eq!(beta_0, beta_1);
    assert!(vrf_0.verify(&public, ALPHA_0, &beta_0, OutputHash::Sha224));
    assert!(vrf_1.verify(&public, ALPHA_0, &beta_1, OutputHash::Sha224));
}

#[test]
fn sign_verify_fake() {
    let rng = &mut OsRng;
    let secret_0 = scalar_random(rng);
    let secret_1 = scalar_random(rng);
    let public_0 = public_key(&secret_0);
    let public_1 = public_key(&secret_1);
    let vrf = VRF::sign(rng, &secret_0, ALPHA_0);
    let beta = vrf.beta(OutputHash::Sha224);
    assert!(!vrf.verify(&public_1, ALPHA_0, &beta, OutputHash::Sha224));
    assert!(!vrf.verify(&public_0, ALPHA_1.as_bytes(), &beta, OutputHash::Sha224));
}

#[test]
fn to_bytes_from_slice() {
    let rng = &mut OsRng;
    let secret = scalar_random(rng);
    let public = public_key(&secret);
    let vrf = VRF::sign(rng, &secret, ALPHA_0);
    let secret_bytes = secret.to_bytes();
    let public_bytes = public.to_bytes();
    let vrf_bytes = vrf.to_bytes();
    assert_eq!(secret, scalar_from_canonical(secret_bytes).unwrap());
    assert_eq!(public, point_from_slice(&public_bytes).unwrap());
    assert_eq!(vrf, VRF::from_slice(&vrf_bytes).unwrap());
}

#[test]
fn blinding_scenario() {
    let rng = &mut OsRng;
    let alpha = [0u8, 1, 2, 3];
    let secret = scalar_random(rng);
    let public = public_key(&secret);
    let other = public_key(&scalar_random(rng));
    let p0 = VRF::sign(rng, &secret, &alpha);
    let p1 = VRF::sign(rng, &secret, &alpha);
    assert_eq!(p0.gamma, p1.gamma);
    assert_eq!(p0.beta(OutputHash::Sha224), p1.beta(OutputHash::Sha224));
    assert_ne!((p0.c, p0.s), (p1.c, p1.s));
    assert_ne!(p0.to_bytes(), p1.to_bytes());
    for p in [p0, p1] {
        let beta = p.beta(OutputHash::Sha224);
        assert!(p.verify(&public, &alpha, &beta, OutputHash::Sha224));
        assert!(!p.verify(&other, &alpha, &beta, OutputHash::Sha224));
        assert!(!p.verify(&public, &[3, 2, 1, 0], &beta, OutputHash::Sha224));
    }
}

#[test]
fn completeness_for_each_output_hash() {
    let rng = &mut OsRng;
    let secret = scalar_random(rng);
    let public = public_key(&secret);
    for alpha in [&b""[..], &b"x"[..], &[7u8; 200][..]] {
        for hash in [OutputHash::Sha224, OutputHash::Sha256, OutputHash::Sha512] {
            let p = VRF::sign(rng, &secret, alpha);
            let beta = p.beta(hash);
            assert!(p.verify(&public, alpha, &beta, hash));
        }
    }
}

#[test]
fn output_lengths_follow_the_hash() {
    let p = VRF::sign_with_nonce(&small(5), b"m", [9u8; 32]);
    assert_eq!(p.beta(OutputHash::Sha224).len(), 28);
    assert_eq!(p.beta(OutputHash::Sha256).len(), 32);
    assert_eq!(p.beta(OutputHash::Sha512).len(), 64);
}

#[test]
fn tampered_beta_or_proof_is_rejected() {
    let secret = small(11);
    let public = public_key(&secret);
    let p = VRF::sign_with_nonce(&secret, ALPHA_0, [42u8; 32]);
    let mut beta = p.beta(OutputHash::Sha256);
    assert!(p.verify(&public, ALPHA_0, &beta, OutputHash::Sha256));
    assert!(!p.verify(&public, ALPHA_0, &beta, OutputHash::Sha224));
    beta[0] ^= 1;
    assert!(!p.verify(&public, ALPHA_0, &beta, OutputHash::Sha256));
    let beta = p.beta(OutputHash::Sha256);
    let other = VRF::sign_with_nonce(&secret, ALPHA_0, [43u8; 32]);
    let mixed = VRF { gamma: p.gamma, c: p.c, s: other.s };
    assert!(!mixed.verify(&public, ALPHA_0, &beta, OutputHash::Sha256));
}

#[test]
fn sign_with_nonce_is_deterministic() {
    let secret = small(3);
    let p0 = VRF::sign_with_nonce(&secret, b"abc", [1u8; 32]);
    let p1 = VRF::sign_with_nonce(&secret, b"abc", [1u8; 32]);
    assert_eq!(p0.to_bytes(), p1.to_bytes());
    let p2 = VRF::sign_with_nonce(&secret, b"abc", [2u8; 32]);
    assert_eq!(p0.gamma, p2.gamma);
    assert_ne!(p0.c, p2.c);
}

#[test]
fn noncanonical_scalar_is_rejected() {
    assert!(scalar_from_canonical(ORDER).is_none());
    assert!(scalar_from_canonical([0xff; 32]).is_none());
    let mut below = ORDER;
    below[0] -= 1;
    assert_eq!(scalar_from_canonical(below).unwrap().to_bytes(), below);
    assert!(scalar_from_canonical([0; 32]).is_some());
}

#[test]
fn invalid_point_is_rejected() {
    assert!(point_from_slice(&[0xff; 32]).is_none());
    let mut odd = BASEPOINT;
    odd[0] ^= 1;
    assert!(point_from_slice(&odd).is_none());
    assert_eq!(point_from_slice(&BASEPOINT).unwrap().to_bytes(), BASEPOINT);
}

#[test]
fn proof_decoding_rejects_bad_fields() {
    let p = VRF::sign_with_nonce(&small(2), b"q", [5u8; 32]);
    let good = p.to_bytes();
    let mut bad_point = good;
    bad_point[..32].copy_from_slice(&[0xff; 32]);
    assert!(VRF::from_slice(&bad_point).is_none());
    let mut bad_c = good;
    bad_c[32..64].copy_from_slice(&ORDER);
    assert!(VRF::from_slice(&bad_c).is_none());
    let mut bad_s = good;
    bad_s[64..].copy_from_slice(&[0xff; 32]);
    assert!(VRF::from_slice(&bad_s).is_none());
    let q = VRF::from_slice(&good).unwrap();
    assert_eq!(q.to_bytes(), good);
    assert_eq!(&good[..32], &p.gamma.to_bytes()[..]);
}

#[test]
fn scalar_arithmetic_modulo_order() {
    let mut one_above = ORDER;
    one_above[0] += 1;
    let mut one = [0u8; 32];
    one[0] = 1;
    assert_eq!(Scalar::from_bytes_mod_order(one_above).to_bytes(), one);
    let mut six = [0u8; 32];
    six[0] = 6;
    assert_eq!(small(2).mul(&small(3)).to_bytes(), six);
    let mut below = ORDER;
    below[0] -= 1;
    assert_eq!(small(0).sub(&small(1)).to_bytes(), below);
    assert_eq!(small(5).sub(&small(2)).to_bytes(), small(3).to_bytes());
}

#[test]
fn point_arithmetic_agrees_with_basepoint() {
    let b = public_key(&small(1));
    assert_eq!(b.to_bytes(), BASEPOINT);
    let two_b = public_key(&small(2));
    assert_eq!(b.add(&b), two_b);
    assert_eq!(b.mul(&small(2)), two_b);
    assert_ne!(two_b, b);
    let zero = public_key(&small(0));
    assert_eq!(zero.to_bytes(), [0u8; 32]);
}

#[test]
fn hash_to_point_is_deterministic() {
    let a = hash_to_point(b"abc");
    assert_eq!(a, hash_to_point(b"abc"));
    assert_ne!(a, hash_to_point(b"abd"));
    assert_eq!(point_from_slice(&a.to_bytes()).unwrap(), a);
}

#[test]
fn output_hashes_match_known_digests() {
    assert_eq!(
        hex(&OutputHash::Sha224.digest(b"abc")),
        "23097d223405d8228642a477bda255b32aadbce4bda0b3f7e36c9da7"
    );
    assert_eq!(
        hex(&OutputHash::Sha256.digest(b"abc")),
        "ba7816bf8f01cfea414140de5dae2223b00361a396177a9cb410ff61f20015ad"
    );
    assert_eq!(
        hex(&OutputHash::Sha512.digest(b"abc")),
        "ddaf35a193617abacc417349ae20413112e6fa4e89a97ea20a9eeee64b55d39a2192992a274fc1a836ba3c23a3feebbd454d4423643ce80e2a9ac94fa54ca49f"
    );
}

#[test]
fn basepoint_generates_public_keys() {
    assert_eq!(basepoint().to_bytes(), BASEPOINT);
    assert_eq!(basepoint(), public_key(&small(1)));
    assert_eq!(basepoint().mul(&small(7)), public_key(&small(7)));
}

#[test]
fn random_scalars_are_canonical() {
    let rng = &mut OsRng;
    for _ in 0..16 {
        let s = scalar_random(rng);
        assert_eq!(scalar_from_canonical(s.to_bytes()), Some(s));
        let t = vrf::scalar::random(rng);
        assert!(scalar_from_canonical(t.to_bytes()).is_some());
    }
}
