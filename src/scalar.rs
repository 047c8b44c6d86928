//! Scalars modulo the order of the Ristretto group, held as their canonical
//! 32-byte little-endian encoding.
use curve25519_dalek::Scalar as DalekScalar;
use rand_core::OsRng;
use rand_core::RngCore;
use vstd::prelude::*;

verus! {

/// The order of the Ristretto group: 2^252 + 27742317777372353535851937790883648493.
pub open spec fn group_order() -> nat {
    7237005577332262213973186563042994240857116359379907606001950938285454250989nat
}

/// The integer that a byte string encodes, least significant byte first.
pub open spec fn le_value(b: Seq<u8>) -> nat
    decreases b.len(),
{
    if b.len() == 0 {
        0
    } else {
        b[0] as nat + 256 * le_value(b.drop_first())
    }
}

/// Two byte strings of one length that encode the same integer are equal.
pub proof fn lemma_le_value_injective(a: Seq<u8>, b: Seq<u8>)
    requires
        a.len() == b.len(),
        le_value(a) == le_value(b),
    ensures
        a == b,
    decreases a.len(),
{
    if a.len() > 0 {
        let x = a[0] as int;
        let y = b[0] as int;
        let p = le_value(a.drop_first()) as int;
        let q = le_value(b.drop_first()) as int;
        assert(x == y && p == q) by (nonlinear_arith)
            requires
                0 <= x < 256,
                0 <= y < 256,
                0 <= p,
                0 <= q,
                x + 256 * p == y + 256 * q,
        ;
        lemma_le_value_injective(a.drop_first(), b.drop_first());
        assert(a == seq![a[0]] + a.drop_first());
        assert(b == seq![b[0]] + b.drop_first());
    } else {
        assert(a =~= b);
    }
}

/// A byte string whose bytes are all zero encodes zero.
pub proof fn lemma_le_value_zeros(b: Seq<u8>)
    requires
        forall|i: int| 0 <= i < b.len() ==> b[i] == 0,
    ensures
        le_value(b) == 0,
    decreases b.len(),
{
    if b.len() > 0 {
        lemma_le_value_zeros(b.drop_first());
    }
}

/// An integer modulo the group order, stored in canonical form: the
/// little-endian encoding of its least non-negative representative.
#[derive(Clone, Copy, Debug, PartialEq, Eq)]
pub struct Scalar {
    bytes: [u8; 32],
}

impl View for Scalar {
    type V = Seq<u8>;

    closed spec fn view(&self) -> Seq<u8> {
        self.bytes@
    }
}

impl Scalar {
    #[verifier::type_invariant]
    pub closed spec fn canonical(self) -> bool {
        le_value(self.bytes@) < group_order()
    }

    /// The residue that this scalar stands for.
    pub open spec fn value(self) -> nat {
        le_value(self@)
    }

    /// The encoding of a scalar is 32 bytes long.
    pub proof fn lemma_len(self)
        ensures
            self@.len() == 32,
    {
    }

    /// The canonical 32-byte encoding.
    pub fn to_bytes(&self) -> (r: [u8; 32])
        ensures
            r@ == self@,
            le_value(r@) < group_order(),
    {
        proof {
            use_type_invariant(self);
        }
        self.bytes
    }

    /// Reduces a 256-bit little-endian integer modulo the group order.
    pub fn from_bytes_mod_order(bytes: [u8; 32]) -> (r: Scalar)
        ensures
            r.value() == le_value(bytes@) % group_order(),
    {
        let reduced = reduce(bytes);
        Scalar { bytes: reduced }
    }

    /// `self * other` modulo the group order.
    pub fn mul(&self, other: &Scalar) -> (r: Scalar)
        ensures
            r.value() == (self.value() * other.value()) % group_order(),
    {
        proof {
            use_type_invariant(self);
            use_type_invariant(other);
        }
        Scalar { bytes: mul_mod_order(&self.bytes, &other.bytes) }
    }

    /// `self - other` modulo the group order.
    pub fn sub(&self, other: &Scalar) -> (r: Scalar)
        ensures
            r.value() == (self.value() - other.value()) % (group_order() as int),
    {
        proof {
            use_type_invariant(self);
            use_type_invariant(other);
        }
        Scalar { bytes: sub_mod_order(&self.bytes, &other.bytes) }
    }
}

/// Relies on `Scalar::from_bytes_mod_order` and `Scalar::to_bytes` of
/// curve25519-dalek: the little-endian integer reduced modulo the group order,
/// written back in canonical little-endian form.
#[verifier::external_body]
fn reduce(bytes: [u8; 32]) -> (r: [u8; 32])
    ensures
        le_value(r@) == le_value(bytes@) % group_order(),
{
    DalekScalar::from_bytes_mod_order(bytes).to_bytes()
}

/// Relies on `Scalar * Scalar` of curve25519-dalek: the product modulo the
/// group order, in canonical form.
#[verifier::external_body]
fn mul_mod_order(a: &[u8; 32], b: &[u8; 32]) -> (r: [u8; 32])
    requires
        le_value(a@) < group_order(),
        le_value(b@) < group_order(),
    ensures
        le_value(r@) == (le_value(a@) * le_value(b@)) % group_order(),
{
    (DalekScalar::from_bytes_mod_order(*a) * DalekScalar::from_bytes_mod_order(*b)).to_bytes()
}

/// Relies on `Scalar - Scalar` of curve25519-dalek: the difference modulo the
/// group order, in canonical form.
#[verifier::external_body]
fn sub_mod_order(a: &[u8; 32], b: &[u8; 32]) -> (r: [u8; 32])
    requires
        le_value(a@) < group_order(),
        le_value(b@) < group_order(),
    ensures
        le_value(r@) == (le_value(a@) - le_value(b@)) % (group_order() as int),
{
    (DalekScalar::from_bytes_mod_order(*a) - DalekScalar::from_bytes_mod_order(*b)).to_bytes()
}

/// Relies on `Scalar::from_canonical_bytes` of curve25519-dalek: it accepts
/// exactly the encodings of integers below the group order.
#[verifier::external_body]
fn is_canonical(bytes: [u8; 32]) -> (r: bool)
    ensures
        r == (le_value(bytes@) < group_order()),
{
    bool::from(DalekScalar::from_canonical_bytes(bytes).is_some())
}

/// Relies on `RngCore::fill_bytes` of rand_core's `OsRng`: 32 bytes from the
/// operating system's secure random source. Nothing is known of their value.
#[verifier::external_body]
fn random_bytes(rng: &mut OsRng) -> (r: [u8; 32]) {
    let mut bytes = [0u8; 32];
    rng.fill_bytes(&mut bytes);
    bytes
}

#[verifier::external_type_specification]
#[verifier::external_body]
pub struct ExOsRng(OsRng);

/// A scalar drawn from 32 bytes of the secure random source, reduced modulo
/// the group order.
pub fn random(rng: &mut OsRng) -> (r: Scalar)
    ensures
        r.value() < group_order(),
{
    Scalar::from_bytes_mod_order(random_bytes(rng))
}

/// Decodes a scalar from its canonical encoding; any encoding of an integer
/// at or above the group order is refused.
pub fn from_canonical(bytes: [u8; 32]) -> (r: Option<Scalar>)
    ensures
        r.is_some() <==> le_value(bytes@) < group_order(),
        r matches Some(s) ==> s@ == bytes@,
{
    if is_canonical(bytes) {
        Some(Scalar { bytes })
    } else {
        None
    }
}

} // verus!
