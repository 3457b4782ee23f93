//! Fixed-width integer decoding over byte sequences, and the text
//! helpers (lower-case hex, decimal) that the summaries use.

use vstd::prelude::*;

verus! {

/// Little-endian value of the two bytes starting at `i`.
pub open spec fn le16(s: Seq<u8>, i: int) -> int {
    s[i] + s[i + 1] * 0x100
}

/// Little-endian value of the four bytes starting at `i`.
pub open spec fn le32(s: Seq<u8>, i: int) -> int {
    le16(s, i) + le16(s, i + 2) * 0x1_0000
}

/// Little-endian value of the eight bytes starting at `i`.
pub open spec fn le64(s: Seq<u8>, i: int) -> int {
    le32(s, i) + le32(s, i + 4) * 0x1_0000_0000
}

/// Big-endian value of the four bytes starting at `i`.
pub open spec fn be32(s: Seq<u8>, i: int) -> int {
    s[i] * 0x100_0000 + s[i + 1] * 0x1_0000 + s[i + 2] * 0x100 + s[i + 3]
}

/// Big-endian value of the eight bytes starting at `i`.
pub open spec fn be64(s: Seq<u8>, i: int) -> int {
    be32(s, i) * 0x1_0000_0000 + be32(s, i + 4)
}

/// Whether the four bytes of `s` starting at `i` are `sig`.
pub open spec fn has_sig_at(s: Seq<u8>, i: int, sig: Seq<u8>) -> bool {
    &&& 0 <= i
    &&& i + 4 <= s.len()
    &&& sig.len() == 4
    &&& s[i] == sig[0]
    &&& s[i + 1] == sig[1]
    &&& s[i + 2] == sig[2]
    &&& s[i + 3] == sig[3]
}

pub fn read_le16(b: &[u8], i: usize) -> (r: u16)
    requires
        i + 2 <= b@.len(),
    ensures
        r == le16(b@, i as int),
{
    let lo = b[i] as u16;
    let hi = b[i + 1] as u16;
    lo + hi * 0x100
}

pub fn read_le32(b: &[u8], i: usize) -> (r: u32)
    requires
        i + 4 <= b@.len(),
    ensures
        r == le32(b@, i as int),
{
    let _n = b.len();
    let lo = read_le16(b, i) as u32;
    let hi = read_le16(b, i + 2) as u32;
    lo + hi * 0x1_0000
}

pub fn read_le64(b: &[u8], i: usize) -> (r: u64)
    requires
        i + 8 <= b@.len(),
    ensures
        r == le64(b@, i as int),
{
    let _n = b.len();
    let lo = read_le32(b, i) as u64;
    let hi = read_le32(b, i + 4) as u64;
    lo + hi * 0x1_0000_0000
}

pub fn read_be32(b: &[u8], i: usize) -> (r: u32)
    requires
        i + 4 <= b@.len(),
    ensures
        r == be32(b@, i as int),
{
    let b0 = b[i] as u32;
    let b1 = b[i + 1] as u32;
    let b2 = b[i + 2] as u32;
    let b3 = b[i + 3] as u32;
    b0 * 0x100_0000 + b1 * 0x1_0000 + b2 * 0x100 + b3
}

pub fn read_be64(b: &[u8], i: usize) -> (r: u64)
    requires
        i + 8 <= b@.len(),
    ensures
        r == be64(b@, i as int),
{
    let _n = b.len();
    let hi = read_be32(b, i) as u64;
    let lo = read_be32(b, i + 4) as u64;
    hi * 0x1_0000_0000 + lo
}

/// Compares the four bytes of `b` at `i` with `sig`.
pub fn sig_at(b: &[u8], i: usize, sig: &[u8; 4]) -> (r: bool)
    requires
        i + 4 <= b@.len(),
    ensures
        r == has_sig_at(b@, i as int, sig@),
{
    b[i] == sig[0] && b[i + 1] == sig[1] && b[i + 2] == sig[2] && b[i + 3] == sig[3]
}

} // verus!
