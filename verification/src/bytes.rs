//! Byte-level helpers: overwriting a range of a buffer, reading little-endian words and
//! copying fixed-size keys out of a buffer.
use vstd::bytes::{u32_from_le_bytes, u64_from_le_bytes};
use vstd::prelude::*;
use vstd::slice::slice_subrange;

verus! {

/// `base` with the bytes `patch` written over it from offset `at` on.
pub open spec fn splice(base: Seq<u8>, at: int, patch: Seq<u8>) -> Seq<u8> {
    Seq::new(
        base.len(),
        |i: int|
            if at <= i < at + patch.len() {
                patch[i - at]
            } else {
                base[i]
            },
    )
}

/// `n` zero bytes.
pub open spec fn zeros(n: int) -> Seq<u8>
    recommends
        0 <= n,
{
    Seq::new(n as nat, |i: int| 0u8)
}

/// The little-endian 64-bit word that starts at offset `at`.
pub open spec fn word64(buf: Seq<u8>, at: int) -> u64
    recommends
        0 <= at,
        at + 8 <= buf.len(),
{
    vstd::bytes::spec_u64_from_le_bytes(buf.subrange(at, at + 8))
}

/// The little-endian 32-bit word that starts at offset `at`.
pub open spec fn word32(buf: Seq<u8>, at: int) -> u32
    recommends
        0 <= at,
        at + 4 <= buf.len(),
{
    vstd::bytes::spec_u32_from_le_bytes(buf.subrange(at, at + 4))
}

/// Writes `patch` over `buf` from offset `at` on.
pub fn write_at(buf: &mut Vec<u8>, at: usize, patch: &[u8])
    requires
        at + patch@.len() <= old(buf)@.len(),
    ensures
        final(buf)@ == splice(old(buf)@, at as int, patch@),
{
    let ghost before = buf@;
    let total: usize = buf.len();
    let n: usize = patch.len();
    let mut i: usize = 0;
    while i < n
        invariant
            n == patch@.len(),
            i <= n,
            at + n <= total,
            total == buf@.len(),
            buf@ == splice(before, at as int, patch@.subrange(0, i as int)),
        decreases n - i,
    {
        buf.set(at + i, patch[i]);
        i += 1;
        assert(buf@ =~= splice(before, at as int, patch@.subrange(0, i as int)));
    }
    assert(patch@.subrange(0, n as int) =~= patch@);
}

/// Reads the little-endian 64-bit word at offset `at`.
pub fn read_u64(buf: &[u8], at: usize) -> (word: u64)
    requires
        at + 8 <= buf@.len(),
    ensures
        word == word64(buf@, at as int),
{
    let total: usize = buf.len();
    assert(at + 8 <= total);
    u64_from_le_bytes(slice_subrange(buf, at, at + 8))
}

/// Reads the little-endian 32-bit word at offset `at`.
pub fn read_u32(buf: &[u8], at: usize) -> (word: u32)
    requires
        at + 4 <= buf@.len(),
    ensures
        word == word32(buf@, at as int),
{
    let total: usize = buf.len();
    assert(at + 4 <= total);
    u32_from_le_bytes(slice_subrange(buf, at, at + 4))
}

/// Copies the 32 bytes at offset `at`.
pub fn read_key(buf: &[u8], at: usize) -> (key: [u8; 32])
    requires
        at + 32 <= buf@.len(),
    ensures
        key@ == buf@.subrange(at as int, at + 32),
{
    let total: usize = buf.len();
    let mut key: [u8; 32] = [0u8; 32];
    let mut i: usize = 0;
    while i < 32
        invariant
            i <= 32,
            at + 32 <= total,
            total == buf@.len(),
            key@.len() == 32,
            forall|j: int| 0 <= j < i ==> key@[j] == buf@[at + j],
        decreases 32 - i,
    {
        key[i] = buf[at + i];
        i += 1;
    }
    assert(key@ =~= buf@.subrange(at as int, at + 32));
    key
}

/// Copies the `len` bytes at offset `at`.
pub fn read_bytes(buf: &[u8], at: usize, len: usize) -> (bytes: Vec<u8>)
    requires
        at + len <= buf@.len(),
    ensures
        bytes@ == buf@.subrange(at as int, at + len),
{
    let total: usize = buf.len();
    let mut bytes: Vec<u8> = Vec::new();
    let mut i: usize = 0;
    while i < len
        invariant
            i <= len,
            at + len <= total,
            total == buf@.len(),
            bytes@ == buf@.subrange(at as int, at + i),
        decreases len - i,
    {
        bytes.push(buf[at + i]);
        i += 1;
        assert(bytes@ =~= buf@.subrange(at as int, at + i));
    }
    bytes
}

/// Appends a copy of `tail`.
pub fn extend(bytes: &mut Vec<u8>, tail: &[u8])
    ensures
        final(bytes)@ == old(bytes)@ + tail@,
{
    let ghost before = bytes@;
    let mut i: usize = 0;
    while i < tail.len()
        invariant
            i <= tail@.len(),
            bytes@ == before + tail@.subrange(0, i as int),
        decreases tail@.len() - i,
    {
        bytes.push(tail[i]);
        i += 1;
        assert(bytes@ =~= before + tail@.subrange(0, i as int));
    }
    assert(tail@.subrange(0, tail@.len() as int) =~= tail@);
}

/// Whether two byte strings are equal.
pub fn same_bytes(a: &[u8], b: &[u8]) -> (same: bool)
    ensures
        same == (a@ == b@),
{
    if a.len() != b.len() {
        return false;
    }
    let mut i: usize = 0;
    while i < a.len()
        invariant
            i <= a@.len(),
            a@.len() == b@.len(),
            forall|j: int| 0 <= j < i ==> a@[j] == b@[j],
        decreases a@.len() - i,
    {
        if a[i] != b[i] {
            assert(a@[i as int] != b@[i as int]);
            return false;
        }
        i += 1;
    }
    assert(a@ =~= b@);
    true
}

} // verus!
