//! Byte-string helpers for transcripts and the fixed-width proof layout.
use vstd::prelude::*;

verus! {

/// Appends `b` to `v`.
pub fn append(v: &mut Vec<u8>, b: &[u8])
    ensures
        final(v)@ == old(v)@ + b@,
{
    let mut i: usize = 0;
    while i < b.len()
        invariant
            i <= b@.len(),
            v@ == old(v)@ + b@.subrange(0, i as int),
        decreases b@.len() - i,
    {
        v.push(b[i]);
        i = i + 1;
        assert(v@ =~= old(v)@ + b@.subrange(0, i as int));
    }
    assert(b@.subrange(0, i as int) =~= b@);
}

/// Byte-wise equality that looks at every byte, whatever the first
/// difference.
pub fn bytes_eq(a: &[u8], b: &[u8]) -> (r: bool)
    ensures
        r == (a@ == b@),
{
    if a.len() != b.len() {
        return false;
    }
    let mut diff: u8 = 0;
    let mut i: usize = 0;
    assert(a@.subrange(0, 0) =~= b@.subrange(0, 0));
    while i < a.len()
        invariant
            i <= a@.len(),
            a@.len() == b@.len(),
            (diff == 0) == (a@.subrange(0, i as int) == b@.subrange(0, i as int)),
        decreases a@.len() - i,
    {
        let x = a[i];
        let y = b[i];
        let next = diff | (x ^ y);
        assert((next == 0) == (diff == 0 && x == y)) by (bit_vector)
            requires
                next == diff | (x ^ y),
        ;
        proof {
            let i = i as int;
            assert(a@.subrange(0, i + 1) =~= a@.subrange(0, i).push(x));
            assert(b@.subrange(0, i + 1) =~= b@.subrange(0, i).push(y));
            if a@.subrange(0, i + 1) == b@.subrange(0, i + 1) {
                assert(a@.subrange(0, i) =~= a@.subrange(0, i + 1).subrange(0, i));
                assert(b@.subrange(0, i) =~= b@.subrange(0, i + 1).subrange(0, i));
                assert(a@.subrange(0, i + 1)[i] == x);
            }
        }
        diff = next;
        i = i + 1;
    }
    assert(a@.subrange(0, i as int) =~= a@);
    assert(b@.subrange(0, i as int) =~= b@);
    diff == 0
}

/// The 96-byte concatenation `a || b || c`.
pub fn concat96(a: &[u8; 32], b: &[u8; 32], c: &[u8; 32]) -> (r: [u8; 96])
    ensures
        r@ == a@ + b@ + c@,
{
    let mut out = [0u8; 96];
    let mut i: usize = 0;
    while i < 32
        invariant
            i <= 32,
            out@.len() == 96,
            forall|j: int| 0 <= j < i ==> out@[j] == a@[j],
            forall|j: int| 0 <= j < i ==> out@[32 + j] == b@[j],
            forall|j: int| 0 <= j < i ==> out@[64 + j] == c@[j],
        decreases 32 - i,
    {
        out[i] = a[i];
        out[32 + i] = b[i];
        out[64 + i] = c[i];
        i = i + 1;
    }
    assert(out@ =~= a@ + b@ + c@);
    out
}

/// The three 32-byte fields of a 96-byte string.
pub fn split96(bytes: &[u8; 96]) -> (r: ([u8; 32], [u8; 32], [u8; 32]))
    ensures
        r.0@ == bytes@.subrange(0, 32),
        r.1@ == bytes@.subrange(32, 64),
        r.2@ == bytes@.subrange(64, 96),
{
    let mut a = [0u8; 32];
    let mut b = [0u8; 32];
    let mut c = [0u8; 32];
    let mut i: usize = 0;
    while i < 32
        invariant
            i <= 32,
            bytes@.len() == 96,
            forall|j: int| 0 <= j < i ==> a@[j] == bytes@[j],
            forall|j: int| 0 <= j < i ==> b@[j] == bytes@[32 + j],
            forall|j: int| 0 <= j < i ==> c@[j] == bytes@[64 + j],
        decreases 32 - i,
    {
        a[i] = bytes[i];
        b[i] = bytes[32 + i];
        c[i] = bytes[64 + i];
        i = i + 1;
    }
    assert(a@ =~= bytes@.subrange(0, 32));
    assert(b@ =~= bytes@.subrange(32, 64));
    assert(c@ =~= bytes@.subrange(64, 96));
    (a, b, c)
}

} // verus!
