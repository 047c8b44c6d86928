//! A verifiable random function over the Ristretto group.
//!
//! The holder of a secret scalar x maps a message `alpha` to an output
//! `beta` that depends on x and `alpha` alone, together with a proof
//! `(gamma, c, s)` that anyone holding the public key x·B can check:
//! `gamma = x·H(alpha)` and a Chaum-Pedersen proof that `gamma` and the public
//! key have the same discrete logarithm, made non-interactive by hashing the
//! transcript into the challenge `c`.
use vstd::prelude::*;

pub mod bytes;
pub mod hash;
pub mod point;
pub mod scalar;

use crate::bytes::{append, bytes_eq, concat96, split96};
use crate::hash::{sha256, sha256_of, sha512, sha512_of, OutputHash};
use crate::point::{basepoint_mul_of, encodes, from_uniform_of, is_point_encoding, Point};
use crate::scalar::{group_order, le_value, lemma_le_value_injective, lemma_le_value_zeros, Scalar};
use rand_core::OsRng;
use vstd::arithmetic::div_mod::{
    lemma_add_mod_noop, lemma_add_mod_noop_right, lemma_mul_mod_noop_left,
    lemma_mul_mod_noop_right, lemma_small_mod, lemma_sub_mod_noop_right,
};

verus! {

/// The encoding of the point that `alpha` hashes to: SHA-512 of `alpha`,
/// mapped onto the group.
pub open spec fn hash_point(alpha: Seq<u8>) -> Seq<u8> {
    from_uniform_of(sha512_of(alpha))
}

/// The Fiat-Shamir challenge: SHA-256 of the transcript, reduced modulo the
/// group order.
pub open spec fn challenge(
    alpha: Seq<u8>,
    public: Seq<u8>,
    gamma: Seq<u8>,
    u: Seq<u8>,
    v: Seq<u8>,
) -> int {
    (le_value(sha256_of(alpha + public + gamma + u + v)) % group_order()) as int
}

/// The proof `(gamma, c, s)` that the secret key x gives on `alpha` with the
/// nonce k, where `alpha` hashes to the point h·B.
pub open spec fn proof_spec(x: int, alpha: Seq<u8>, h: int, k: int) -> (Seq<u8>, int, int) {
    let l = group_order() as int;
    let gamma = basepoint_mul_of((x * h) % l);
    let c = challenge(alpha, basepoint_mul_of(x), gamma, basepoint_mul_of(k), basepoint_mul_of((k * h) % l));
    (gamma, c, (k - c * x) % l)
}

/// `p` is the proof that the secret key x gives on `alpha` with the nonce k,
/// for the logarithm of the point that `alpha` hashes to.
pub open spec fn signed_with(p: (Seq<u8>, int, int), x: int, alpha: Seq<u8>, k: int) -> bool {
    forall|h: int| #[trigger] encodes(hash_point(alpha), h) ==> p == proof_spec(x, alpha, h, k)
}

/// Whether a proof `(gamma, c, s)` with gamma = g·B passes both checks for
/// the public key y·B, the message `alpha` (which hashes to h·B) and the
/// claimed output `beta`: the recomputed challenge equals `c`, and `beta` is
/// the chosen hash of gamma.
pub open spec fn accepts(
    y: int,
    g: int,
    h: int,
    alpha: Seq<u8>,
    c: int,
    s: int,
    beta: Seq<u8>,
    hash: OutputHash,
) -> bool {
    let l = group_order() as int;
    let u = basepoint_mul_of((c * y + s) % l);
    let v = basepoint_mul_of((c * g + s * h) % l);
    &&& challenge(alpha, basepoint_mul_of(y), basepoint_mul_of(g), u, v) == c
    &&& beta == hash.digest_of(basepoint_mul_of(g))
}

/// Decodes a point from its compressed encoding.
pub fn point_from_slice(bytes: &[u8; 32]) -> (r: Option<Point>)
    ensures
        r.is_some() <==> is_point_encoding(bytes@),
        r matches Some(p) ==> p@ == bytes@,
{
    point::from_slice(bytes)
}

/// A scalar drawn from the operating system's secure random source.
pub fn scalar_random(rng: &mut OsRng) -> (r: Scalar)
    ensures
        r.value() < group_order(),
{
    scalar::random(rng)
}

/// Decodes a scalar from its canonical encoding.
pub fn scalar_from_canonical(bytes: [u8; 32]) -> (r: Option<Scalar>)
    ensures
        r.is_some() <==> le_value(bytes@) < group_order(),
        r matches Some(s) ==> s@ == bytes@,
{
    scalar::from_canonical(bytes)
}

/// The public key that belongs to a secret key: `secret·B`.
pub fn public_key(secret: &Scalar) -> (r: Point)
    ensures
        encodes(r@, secret.value() as int),
{
    Point::mul_base(secret)
}

/// The basepoint B that generates the group.
pub fn basepoint() -> (r: Point)
    ensures
        encodes(r@, 1),
{
    let mut one = [0u8; 32];
    one[0] = 1;
    proof {
        lemma_le_value_zeros(one@.drop_first());
        assert(le_value(one@) == 1);
        lemma_small_mod(1, group_order());
    }
    let s = Scalar::from_bytes_mod_order(one);
    Point::mul_base(&s)
}

/// Hashes a message to a group element: SHA-512 of `alpha`, mapped onto the
/// group. Total and deterministic.
pub fn hash_to_point(alpha: &[u8]) -> (r: Point)
    ensures
        r@ == hash_point(alpha@),
        is_point_encoding(r@),
{
    let digest = sha512(alpha);
    Point::from_uniform_bytes(&digest)
}

/// A scalar wrapper.
pub struct As(Scalar);

/// The challenge scalar of a transcript.
fn challenge_scalar(alpha: &[u8], public: &Point, gamma: &Point, u: &Point, v: &Point) -> (r: Scalar)
    ensures
        r.value() == challenge(alpha@, public@, gamma@, u@, v@),
{
    let mut transcript: Vec<u8> = Vec::new();
    append(&mut transcript, alpha);
    append(&mut transcript, &public.to_bytes());
    append(&mut transcript, &gamma.to_bytes());
    append(&mut transcript, &u.to_bytes());
    append(&mut transcript, &v.to_bytes());
    assert(transcript@ =~= alpha@ + public@ + gamma@ + u@ + v@);
    let digest = sha256(transcript.as_slice());
    Scalar::from_bytes_mod_order(digest)
}

/// A proof of evaluation: `gamma = x·H(alpha)` and the challenge and response
/// of the proof that `gamma` and the public key share the logarithm x.
#[derive(Clone, Copy, Debug, PartialEq, Eq)]
pub struct VRF {
    pub gamma: Point,
    pub c: Scalar,
    pub s: Scalar,
}

impl View for VRF {
    type V = (Seq<u8>, int, int);

    open spec fn view(&self) -> (Seq<u8>, int, int) {
        (self.gamma@, self.c.value() as int, self.s.value() as int)
    }
}

/// `(k - (c·x mod l)) mod l == (k - c·x) mod l`: the response of a proof
/// does not depend on where the product is reduced.
proof fn lemma_response(k: int, c: int, x: int)
    ensures
        (k - (c * x) % (group_order() as int)) % (group_order() as int) == (k - c * x) % (
        group_order() as int),
{
    lemma_sub_mod_noop_right(k, c * x, group_order() as int);
}

/// The logarithms of the points that `verify` recomputes, with the
/// reductions of the intermediate products taken out.
proof fn lemma_recomputed_logs(c: int, s: int, y: int, g: int, h: int)
    requires
        0 <= s < group_order(),
    ensures
        ((c * y) % (group_order() as int) + s) % (group_order() as int) == (c * y + s) % (
        group_order() as int),
        ((c * g) % (group_order() as int) + (s * h) % (group_order() as int)) % (
        group_order() as int) == (c * g + s * h) % (group_order() as int),
{
    let l = group_order() as int;
    lemma_add_mod_noop(c * y, s, l);
    lemma_small_mod(s as nat, l as nat);
    lemma_add_mod_noop(c * g, s * h, l);
}

impl VRF {
    /// The 96-byte encoding `gamma || c || s`.
    pub fn to_bytes(&self) -> (r: [u8; 96])
        ensures
            r@ == self.gamma@ + self.c@ + self.s@,
    {
        concat96(&self.gamma.to_bytes(), &self.c.to_bytes(), &self.s.to_bytes())
    }

    /// Decodes a proof from its 96-byte encoding; it fails if any of the
    /// three fields fails to decode.
    pub fn from_slice(bytes: &[u8; 96]) -> (r: Option<VRF>)
        ensures
            r.is_some() <==> proof_encoding_valid(bytes@),
            r matches Some(p) ==> p.gamma@ == bytes@.subrange(0, 32) && p.c@ == bytes@.subrange(
                32,
                64,
            ) && p.s@ == bytes@.subrange(64, 96),
    {
        let (g, c, s) = split96(bytes);
        let gamma = match point_from_slice(&g) {
            Some(p) => p,
            None => return None,
        };
        let c = match scalar_from_canonical(c) {
            Some(x) => x,
            None => return None,
        };
        let s = match scalar_from_canonical(s) {
            Some(x) => x,
            None => return None,
        };
        Some(VRF { gamma, c, s })
    }

    /// Evaluates the function on `alpha` with the secret key `secret`, with
    /// the nonce taken from 32 bytes `nonce` reduced modulo the group order.
    /// The nonce must be secret and fresh for every call.
    pub fn sign_with_nonce(secret: &Scalar, alpha: &[u8], nonce: [u8; 32]) -> (r: VRF)
        ensures
            is_point_encoding(hash_point(alpha@)),
            signed_with(r@, secret.value() as int, alpha@, (le_value(nonce@) % group_order()) as int),
    {
        let l = Ghost(group_order() as int);
        let a = hash_to_point(alpha);
        let gamma = a.mul(secret);
        let k = Scalar::from_bytes_mod_order(nonce);
        let public = Point::mul_base(secret);
        let u = Point::mul_base(&k);
        let v = a.mul(&k);
        let c = challenge_scalar(alpha, &public, &gamma, &u, &v);
        let s = k.sub(&c.mul(secret));
        let r = VRF { gamma, c, s };
        proof {
            let x = secret.value() as int;
            let kk = k.value() as int;
            assert forall|h: int| #[trigger]
                encodes(hash_point(alpha@), h) implies r@ == proof_spec(x, alpha@, h, kk) by {
                assert(encodes(a@, h));
                assert(encodes(gamma@, (x * h) % l@));
                assert(encodes(v@, (kk * h) % l@));
                lemma_response(kk, c.value() as int, x);
            }
        }
        r
    }

    /// Evaluates the function on `alpha` with the secret key `secret`,
    /// drawing the nonce from the secure random source.
    pub fn sign(rng: &mut OsRng, secret: &Scalar, alpha: &[u8]) -> (r: VRF)
        ensures
            is_point_encoding(hash_point(alpha@)),
            exists|k: int| 0 <= k < group_order() && #[trigger] signed_with(r@, secret.value() as int, alpha@, k),
    {
        let nonce = scalar_random(rng).to_bytes();
        let r = VRF::sign_with_nonce(secret, alpha, nonce);
        proof {
            let k = (le_value(nonce@) % group_order()) as int;
            assert(0 <= k < group_order() && signed_with(r@, secret.value() as int, alpha@, k));
        }
        r
    }

    /// The output: the chosen hash of the encoding of `gamma`. It depends on
    /// the secret key and the message alone, but is only to be trusted once
    /// `verify` has accepted the proof.
    pub fn beta(&self, hash: OutputHash) -> (r: Vec<u8>)
        ensures
            r@ == hash.digest_of(self.gamma@),
            r@.len() == hash.output_len(),
    {
        let g = self.gamma.to_bytes();
        hash.digest(&g)
    }

    /// Checks the proof against the public key `public`, the message `alpha`
    /// and the claimed output `beta`.
    pub fn verify(&self, public: &Point, alpha: &[u8], beta: &[u8], hash: OutputHash) -> (r: bool)
        ensures
            is_point_encoding(hash_point(alpha@)),
            forall|y: int, g: int, h: int|
                #![trigger encodes(public@, y), encodes(self.gamma@, g), encodes(hash_point(alpha@), h)]
                encodes(public@, y) && encodes(self.gamma@, g) && encodes(hash_point(alpha@), h)
                    ==> r == accepts(
                    y,
                    g,
                    h,
                    alpha@,
                    self.c.value() as int,
                    self.s.value() as int,
                    beta@,
                    hash,
                ),
    {
        let l = Ghost(group_order() as int);
        let a = hash_to_point(alpha);
        let cy = public.mul(&self.c);
        let sb = Point::mul_base(&self.s);
        let u = cy.add(&sb);
        let cg = self.gamma.mul(&self.c);
        let sh = a.mul(&self.s);
        let v = cg.add(&sh);
        let c = challenge_scalar(alpha, public, &self.gamma, &u, &v);
        let recomputed = c.to_bytes();
        let claimed = self.c.to_bytes();
        let challenge_ok = bytes_eq(&recomputed, &claimed);
        let expected = self.beta(hash);
        let beta_ok = bytes_eq(beta, expected.as_slice());
        proof {
            if c.value() == self.c.value() {
                lemma_le_value_injective(recomputed@, claimed@);
            }
            let cv = self.c.value() as int;
            let sv = self.s.value() as int;
            assert forall|y: int, g: int, h: int|
                #![trigger encodes(public@, y), encodes(self.gamma@, g), encodes(hash_point(alpha@), h)]
                encodes(public@, y) && encodes(self.gamma@, g) && encodes(hash_point(alpha@), h)
                    implies (challenge_ok && beta_ok) == accepts(y, g, h, alpha@, cv, sv, beta@, hash) by {
                assert(encodes(a@, h));
                assert(encodes(cy@, (cv * y) % l@));
                assert(encodes(sb@, sv));
                assert(encodes(u@, ((cv * y) % l@ + sv) % l@));
                assert(encodes(cg@, (cv * g) % l@));
                assert(encodes(sh@, (sv * h) % l@));
                assert(encodes(v@, ((cv * g) % l@ + (sv * h) % l@) % l@));
                lemma_recomputed_logs(cv, sv, y, g, h);
            }
        }
        challenge_ok && beta_ok
    }
}

/// `bytes` is a valid 96-byte proof encoding: a point followed by two
/// canonical scalars.
pub open spec fn proof_encoding_valid(bytes: Seq<u8>) -> bool {
    &&& is_point_encoding(bytes.subrange(0, 32))
    &&& le_value(bytes.subrange(32, 64)) < group_order()
    &&& le_value(bytes.subrange(64, 96)) < group_order()
}

/// Completeness: a proof made with the secret key x on `alpha`, with any
/// nonce, is accepted against the public key x·B, the same message and the
/// proof's own output, whichever output hash is chosen.
pub proof fn lemma_completeness(
    x: int,
    alpha: Seq<u8>,
    k: int,
    p: (Seq<u8>, int, int),
    hash: OutputHash,
)
    requires
        0 <= x < group_order(),
        0 <= k < group_order(),
        is_point_encoding(hash_point(alpha)),
        signed_with(p, x, alpha, k),
    ensures
        forall|h: int| #[trigger]
            encodes(hash_point(alpha), h) ==> encodes(p.0, (x * h) % (group_order() as int))
                && accepts(x, (x * h) % (group_order() as int), h, alpha, p.1, p.2, hash.digest_of(p.0), hash),
{
    let l = group_order() as int;
    assert forall|h: int| #[trigger]
        encodes(hash_point(alpha), h) implies encodes(p.0, (x * h) % l)
            && accepts(x, (x * h) % l, h, alpha, p.1, p.2, hash.digest_of(p.0), hash) by {
        let c = p.1;
        let s = p.2;
        assert(s == (k - c * x) % l);
        lemma_add_mod_noop_right(c * x, k - c * x, l);
        assert((c * x + s) % l == k);
        let g = (x * h) % l;
        let a = c * g;
        let b = s * h;
        lemma_add_mod_noop(a, b, l);
        lemma_mul_mod_noop_right(c, x * h, l);
        lemma_mul_mod_noop_left(k - c * x, h, l);
        lemma_add_mod_noop(c * (x * h), (k - c * x) * h, l);
        assert(c * (x * h) + (k - c * x) * h == k * h) by (nonlinear_arith);
        assert((c * g + s * h) % l == (k * h) % l);
    }
}

/// The output is determined by the secret key and the message: two proofs
/// made with one secret key on one message, whatever their nonces, carry the
/// same gamma and so the same output.
pub proof fn lemma_beta_determinism(
    x: int,
    alpha: Seq<u8>,
    k0: int,
    k1: int,
    p0: (Seq<u8>, int, int),
    p1: (Seq<u8>, int, int),
    hash: OutputHash,
)
    requires
        is_point_encoding(hash_point(alpha)),
        signed_with(p0, x, alpha, k0),
        signed_with(p1, x, alpha, k1),
    ensures
        p0.0 == p1.0,
        hash.digest_of(p0.0) == hash.digest_of(p1.0),
{
    let h = choose|h: int| encodes(hash_point(alpha), h);
    assert(p0 == proof_spec(x, alpha, h, k0));
    assert(p1 == proof_spec(x, alpha, h, k1));
}

/// Round trip: the 96-byte encoding of a proof whose fields are a group
/// element and two canonical scalars decodes, and each field decodes to its
/// own encoding; so do the 32-byte encodings of the keys it holds.
pub proof fn lemma_round_trip(p: VRF)
    requires
        is_point_encoding(p.gamma@),
        p.c.value() < group_order(),
        p.s.value() < group_order(),
    ensures
        proof_encoding_valid(p.gamma@ + p.c@ + p.s@),
        (p.gamma@ + p.c@ + p.s@).subrange(0, 32) == p.gamma@,
        (p.gamma@ + p.c@ + p.s@).subrange(32, 64) == p.c@,
        (p.gamma@ + p.c@ + p.s@).subrange(64, 96) == p.s@,
{
    p.gamma.lemma_len();
    p.c.lemma_len();
    p.s.lemma_len();
    let b = p.gamma@ + p.c@ + p.s@;
    assert(b.subrange(0, 32) =~= p.gamma@);
    assert(b.subrange(32, 64) =~= p.c@);
    assert(b.subrange(64, 96) =~= p.s@);
}

} // verus!
