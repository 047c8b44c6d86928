//! Elements of the Ristretto group, held as their canonical 32-byte
//! compressed encoding.
//!
//! The group is cyclic of prime order `group_order()` and generated by the
//! basepoint B, so every element is n·B for one residue n. Contracts speak of
//! these residues (discrete logarithms) through `encodes`.
use crate::scalar::{group_order, le_value, Scalar};
use curve25519_dalek::ristretto::CompressedRistretto;
use curve25519_dalek::RistrettoPoint;
use curve25519_dalek::Scalar as DalekScalar;
use vstd::prelude::*;

verus! {

/// The compressed encoding of n·B, B the Ristretto basepoint, for a residue
/// `0 <= n < group_order()`: what `RistrettoPoint::mul_base` returns.
pub uninterp spec fn basepoint_mul_of(n: int) -> Seq<u8>;

/// The encoding that `RistrettoPoint::from_uniform_bytes` gives for 64 bytes.
pub uninterp spec fn from_uniform_of(b: Seq<u8>) -> Seq<u8>;

/// `b` is the encoding of the group element n·B.
pub open spec fn encodes(b: Seq<u8>, n: int) -> bool {
    0 <= n < group_order() && b == basepoint_mul_of(n)
}

/// `b` is the canonical encoding of some group element.
pub open spec fn is_point_encoding(b: Seq<u8>) -> bool {
    exists|n: int| encodes(b, n)
}

/// Relies on `CompressedRistretto::decompress` of curve25519-dalek: it succeeds
/// exactly on canonical encodings of group elements.
#[verifier::external_body]
fn decompresses(bytes: &[u8; 32]) -> (r: bool)
    ensures
        r == is_point_encoding(bytes@),
{
    CompressedRistretto(*bytes).decompress().is_some()
}

/// Relies on `RistrettoPoint::mul_base` of curve25519-dalek: s·B, compressed.
#[verifier::external_body]
fn mul_base_bytes(s: &[u8; 32]) -> (r: [u8; 32])
    requires
        le_value(s@) < group_order(),
    ensures
        r@ == basepoint_mul_of(le_value(s@) as int),
{
    RistrettoPoint::mul_base(&DalekScalar::from_bytes_mod_order(*s)).compress().to_bytes()
}

/// Relies on `Scalar * RistrettoPoint` of curve25519-dalek: s·(n·B) is
/// (s·n mod order)·B.
#[verifier::external_body]
fn mul_bytes(s: &[u8; 32], p: &[u8; 32]) -> (r: [u8; 32])
    requires
        le_value(s@) < group_order(),
        is_point_encoding(p@),
    ensures
        forall|n: int| #[trigger]
            encodes(p@, n) ==> encodes(r@, (le_value(s@) * n) % (group_order() as int)),
{
    let point = CompressedRistretto(*p).decompress().unwrap();
    (DalekScalar::from_bytes_mod_order(*s) * point).compress().to_bytes()
}

/// Relies on `RistrettoPoint + RistrettoPoint` of curve25519-dalek:
/// n·B + m·B is (n + m mod order)·B.
#[verifier::external_body]
fn add_bytes(p: &[u8; 32], q: &[u8; 32]) -> (r: [u8; 32])
    requires
        is_point_encoding(p@),
        is_point_encoding(q@),
    ensures
        forall|n: int, m: int| #[trigger]
            encodes(p@, n) && #[trigger] encodes(q@, m) ==> encodes(
                r@,
                (n + m) % (group_order() as int),
            ),
{
    let a = CompressedRistretto(*p).decompress().unwrap();
    let b = CompressedRistretto(*q).decompress().unwrap();
    (a + b).compress().to_bytes()
}

/// Relies on `RistrettoPoint::from_uniform_bytes` of curve25519-dalek: a total
/// map from 64 bytes to the group, compressed.
#[verifier::external_body]
fn from_uniform_bytes_raw(b: &[u8; 64]) -> (r: [u8; 32])
    ensures
        r@ == from_uniform_of(b@),
        is_point_encoding(r@),
{
    RistrettoPoint::from_uniform_bytes(b).compress().to_bytes()
}

/// A group element, stored as its canonical compressed encoding.
#[derive(Clone, Copy, Debug, PartialEq, Eq)]
pub struct Point {
    bytes: [u8; 32],
}

impl View for Point {
    type V = Seq<u8>;

    closed spec fn view(&self) -> Seq<u8> {
        self.bytes@
    }
}

impl Point {
    #[verifier::type_invariant]
    pub closed spec fn valid(self) -> bool {
        is_point_encoding(self.bytes@)
    }

    /// The encoding of a point is 32 bytes long.
    pub proof fn lemma_len(self)
        ensures
            self@.len() == 32,
    {
    }

    /// The canonical 32-byte encoding.
    pub fn to_bytes(&self) -> (r: [u8; 32])
        ensures
            r@ == self@,
            is_point_encoding(r@),
    {
        proof {
            use_type_invariant(self);
        }
        self.bytes
    }

    /// `s·B`: the public key that belongs to the secret key `s`.
    pub fn mul_base(s: &Scalar) -> (r: Point)
        ensures
            encodes(r@, s.value() as int),
    {
        let b = s.to_bytes();
        let bytes = mul_base_bytes(&b);
        assert(encodes(bytes@, le_value(b@) as int));
        Point { bytes }
    }

    /// `s·self`.
    pub fn mul(&self, s: &Scalar) -> (r: Point)
        ensures
            forall|n: int| #[trigger]
                encodes(self@, n) ==> encodes(r@, (s.value() * n) % (group_order() as int)),
    {
        proof {
            use_type_invariant(self);
        }
        let sb = s.to_bytes();
        let bytes = mul_bytes(&sb, &self.bytes);
        proof {
            let n = choose|n: int| encodes(self.bytes@, n);
            assert(encodes(bytes@, (le_value(sb@) * n) % (group_order() as int)));
        }
        Point { bytes }
    }

    /// `self + other`.
    pub fn add(&self, other: &Point) -> (r: Point)
        ensures
            forall|n: int, m: int| #[trigger]
                encodes(self@, n) && #[trigger] encodes(other@, m) ==> encodes(
                    r@,
                    (n + m) % (group_order() as int),
                ),
    {
        proof {
            use_type_invariant(self);
            use_type_invariant(other);
        }
        let bytes = add_bytes(&self.bytes, &other.bytes);
        proof {
            let n = choose|n: int| encodes(self.bytes@, n);
            let m = choose|m: int| encodes(other.bytes@, m);
            assert(encodes(bytes@, (n + m) % (group_order() as int)));
        }
        Point { bytes }
    }

    /// The group element that 64 uniform bytes map to.
    pub fn from_uniform_bytes(b: &[u8; 64]) -> (r: Point)
        ensures
            r@ == from_uniform_of(b@),
            is_point_encoding(r@),
    {
        let bytes = from_uniform_bytes_raw(b);
        Point { bytes }
    }
}

/// Decodes a point from its compressed encoding; bytes that are not the
/// canonical encoding of a group element are refused.
pub fn from_slice(bytes: &[u8; 32]) -> (r: Option<Point>)
    ensures
        r.is_some() <==> is_point_encoding(bytes@),
        r matches Some(p) ==> p@ == bytes@,
{
    if decompresses(bytes) {
        Some(Point { bytes: *bytes })
    } else {
        None
    }
}

} // verus!
