//! Byte-level encodings shared by the store: fixed-width little-endian
//! integers and the lexicographic order in which the backing trees keep
//! their keys.

use vstd::prelude::*;
use vstd::bytes::{spec_u64_from_le_bytes, spec_u64_to_le_bytes, u64_from_le_bytes, u64_to_le_bytes};

verus! {

/// Width in bytes of an encoded 64-bit integer (record identifiers and
/// seen-counts are stored in this form).
pub const U64_LEN: usize = 8;

/// The little-endian bytes of a 64-bit integer.
pub open spec fn u64_le(x: u64) -> Seq<u8> {
    spec_u64_to_le_bytes(x)
}

/// The 64-bit integer read from eight little-endian bytes.
pub open spec fn le_u64(s: Seq<u8>) -> u64 {
    spec_u64_from_le_bytes(s)
}

/// Encoding then decoding a 64-bit integer gives it back, and the two
/// directions are mutually inverse on eight-byte strings.
pub proof fn lemma_u64_le_bijective()
    ensures
        forall|x: u64| (#[trigger] u64_le(x)).len() == 8 && le_u64(u64_le(x)) == x,
        forall|s: Seq<u8>| s.len() == 8 ==> #[trigger] u64_le(le_u64(s)) == s,
{
    vstd::bytes::lemma_auto_spec_u64_to_from_le_bytes();
}

/// Encode a 64-bit integer as its eight little-endian bytes.
pub fn encode_u64(x: u64) -> (out: Vec<u8>)
    ensures
        out@ == u64_le(x),
{
    u64_to_le_bytes(x)
}

/// Read the 64-bit integer stored at `off` inside `buf`.
pub fn read_u64_at(buf: &[u8], off: usize) -> (x: u64)
    requires
        off + 8 <= buf@.len(),
    ensures
        x == le_u64(buf@.subrange(off as int, off as int + 8)),
{
    let n = buf.len();
    assert(off + 8 <= n);
    let sub = vstd::slice::slice_subrange(buf, off, off + 8);
    u64_from_le_bytes(sub)
}

/// Exact equality of two byte strings.
pub fn bytes_eq(a: &[u8], b: &[u8]) -> (r: bool)
    ensures
        r == (a@ == b@),
{
    if a.len() != b.len() {
        assert(a@.len() != b@.len());
        return false;
    }
    let n = a.len();
    let mut i: usize = 0;
    while i < n
        invariant
            n == a@.len() == b@.len(),
            0 <= i <= n,
            forall|j: int| 0 <= j < i ==> a@[j] == b@[j],
        decreases n - i,
    {
        if a[i] != b[i] {
            assert(a@[i as int] != b@[i as int]);
            return false;
        }
        i += 1;
    }
    assert(a@ =~= b@);
    true
}

/// One more sighting of an image: seen-counts grow by exactly one per hit
/// and stop at the largest representable value instead of wrapping.
pub open spec fn bump(c: u64) -> u64 {
    if c == u64::MAX {
        c
    } else {
        (c + 1) as u64
    }
}

/// What the atomic counter update writes over the previous stored value:
/// a well-formed eight-byte counter is bumped; anything else (which a
/// well-formed store never holds) is left untouched.
pub open spec fn next_count_spec(s: Seq<u8>) -> Seq<u8> {
    if s.len() == 8 {
        u64_le(bump(le_u64(s)))
    } else {
        s
    }
}

/// Compute the bumped counter bytes from the previous stored bytes.
pub fn next_count(b: &[u8]) -> (out: Vec<u8>)
    ensures
        out@ == next_count_spec(b@),
{
    if b.len() == 8 {
        let c = read_u64_at(b, 0);
        assert(b@.subrange(0, 8) =~= b@);
        let n = if c == u64::MAX {
            c
        } else {
            c + 1
        };
        encode_u64(n)
    } else {
        vstd::slice::slice_to_vec(b)
    }
}

/// Strict lexicographic order on byte strings: the order in which the
/// backing trees enumerate their keys.
pub open spec fn lex_lt(a: Seq<u8>, b: Seq<u8>) -> bool
    decreases a.len(),
{
    if b.len() == 0 {
        false
    } else if a.len() == 0 {
        true
    } else if a[0] < b[0] {
        true
    } else if a[0] > b[0] {
        false
    } else {
        lex_lt(a.skip(1), b.skip(1))
    }
}

/// Reflexive closure of the lexicographic order.
pub open spec fn lex_leq(a: Seq<u8>, b: Seq<u8>) -> bool {
    a == b || lex_lt(a, b)
}

} // verus!
