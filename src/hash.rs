//! The hash functions that the construction uses: SHA-512 for hashing to the
//! group, SHA-256 for the challenge, and a caller's choice for the output.
use digest::Digest;
use sha2::{Sha224, Sha256, Sha512};
use vstd::prelude::*;

verus! {

/// The SHA-512 digest of a byte string.
pub uninterp spec fn sha512_of(data: Seq<u8>) -> Seq<u8>;

/// The SHA-256 digest of a byte string.
pub uninterp spec fn sha256_of(data: Seq<u8>) -> Seq<u8>;

/// The SHA-224 digest of a byte string.
pub uninterp spec fn sha224_of(data: Seq<u8>) -> Seq<u8>;

/// Relies on `Digest::digest` of sha2's `Sha512`: the 64-byte digest.
#[verifier::external_body]
pub(crate) fn sha512(data: &[u8]) -> (r: [u8; 64])
    ensures
        r@ == sha512_of(data@),
{
    Sha512::digest(data).into()
}

/// Relies on `Digest::digest` of sha2's `Sha256`: the 32-byte digest.
#[verifier::external_body]
pub(crate) fn sha256(data: &[u8]) -> (r: [u8; 32])
    ensures
        r@ == sha256_of(data@),
{
    Sha256::digest(data).into()
}

/// Relies on `Digest::digest` of sha2's `Sha224`: the 28-byte digest.
#[verifier::external_body]
pub(crate) fn sha224(data: &[u8]) -> (r: [u8; 28])
    ensures
        r@ == sha224_of(data@),
{
    Sha224::digest(data).into()
}

/// The hash from which the output of the function is taken; caller and
/// verifier must agree on it.
#[derive(Clone, Copy, Debug, PartialEq, Eq)]
pub enum OutputHash {
    Sha224,
    Sha256,
    Sha512,
}

impl OutputHash {
    /// The digest that this hash gives for `data`.
    pub open spec fn digest_of(self, data: Seq<u8>) -> Seq<u8> {
        match self {
            OutputHash::Sha224 => sha224_of(data),
            OutputHash::Sha256 => sha256_of(data),
            OutputHash::Sha512 => sha512_of(data),
        }
    }

    /// The length of the digest in bytes.
    pub open spec fn output_len(self) -> nat {
        match self {
            OutputHash::Sha224 => 28,
            OutputHash::Sha256 => 32,
            OutputHash::Sha512 => 64,
        }
    }

    /// Hashes `data`.
    pub fn digest(self, data: &[u8]) -> (r: Vec<u8>)
        ensures
            r@ == self.digest_of(data@),
            r@.len() == self.output_len(),
    {
        match self {
            OutputHash::Sha224 => {
                let d = sha224(data);
                array_to_vec(&d)
            },
            OutputHash::Sha256 => {
                let d = sha256(data);
                array_to_vec(&d)
            },
            OutputHash::Sha512 => {
                let d = sha512(data);
                array_to_vec(&d)
            },
        }
    }
}

/// Copies an array into a fresh vector.
fn array_to_vec<const N: usize>(a: &[u8; N]) -> (r: Vec<u8>)
    ensures
        r@ == a@,
{
    let mut v: Vec<u8> = Vec::new();
    let mut i: usize = 0;
    while i < N
        invariant
            i <= N,
            N == a@.len(),
            v@ == a@.subrange(0, i as int),
        decreases N - i,
    {
        v.push(a[i]);
        i = i + 1;
        assert(v@ =~= a@.subrange(0, i as int));
    }
    assert(v@ =~= a@);
    v
}

} // verus!
