//! Fixed-width unsigned integers in a byte string, in either byte order.
//! The decoding itself is `byteorder`'s; this module states what it yields.

use byteorder::{BigEndian, ByteOrder, LittleEndian};
use vstd::prelude::*;

verus! {

/// The number whose two bytes are `s[0]` (low) and `s[1]` (high).
pub open spec fn le16(s: Seq<u8>) -> int {
    s[0] as int + 0x100 * (s[1] as int)
}

/// The number whose two bytes are `s[0]` (high) and `s[1]` (low).
pub open spec fn be16(s: Seq<u8>) -> int {
    0x100 * (s[0] as int) + s[1] as int
}

/// The number whose four bytes are `s[0..4]`, lowest first.
pub open spec fn le32(s: Seq<u8>) -> int {
    s[0] as int + 0x100 * (s[1] as int) + 0x1_0000 * (s[2] as int) + 0x100_0000 * (s[3] as int)
}

/// The number whose four bytes are `s[0..4]`, highest first.
pub open spec fn be32(s: Seq<u8>) -> int {
    0x100_0000 * (s[0] as int) + 0x1_0000 * (s[1] as int) + 0x100 * (s[2] as int) + s[3] as int
}

/// The number whose eight bytes are `s[0..8]`, lowest first.
pub open spec fn le64(s: Seq<u8>) -> int {
    le32(s) + 0x1_0000_0000 * le32(s.subrange(4, 8))
}

/// The number whose eight bytes are `s[0..8]`, highest first.
pub open spec fn be64(s: Seq<u8>) -> int {
    0x1_0000_0000 * be32(s) + be32(s.subrange(4, 8))
}

/// `byteorder::LittleEndian::read_u16`: decodes the first two bytes of `buf`,
/// the low byte first. It panics on a shorter slice, which `requires` rules
/// out.
#[verifier::external_body]
pub(crate) fn read_le16(buf: &[u8]) -> (v: u16)
    requires
        buf@.len() >= 2,
    ensures
        v == le16(buf@),
{
    LittleEndian::read_u16(buf)
}

/// `byteorder::BigEndian::read_u16`: decodes the first two bytes of `buf`,
/// the high byte first. It panics on a shorter slice, which `requires` rules
/// out.
#[verifier::external_body]
pub(crate) fn read_be16(buf: &[u8]) -> (v: u16)
    requires
        buf@.len() >= 2,
    ensures
        v == be16(buf@),
{
    BigEndian::read_u16(buf)
}

/// `byteorder::LittleEndian::read_u32`: decodes the first four bytes of `buf`,
/// the lowest byte first. It panics on a shorter slice, which `requires` rules
/// out.
#[verifier::external_body]
pub(crate) fn read_le32(buf: &[u8]) -> (v: u32)
    requires
        buf@.len() >= 4,
    ensures
        v == le32(buf@),
{
    LittleEndian::read_u32(buf)
}

/// `byteorder::BigEndian::read_u32`: decodes the first four bytes of `buf`,
/// the highest byte first. It panics on a shorter slice, which `requires`
/// rules out.
#[verifier::external_body]
pub(crate) fn read_be32(buf: &[u8]) -> (v: u32)
    requires
        buf@.len() >= 4,
    ensures
        v == be32(buf@),
{
    BigEndian::read_u32(buf)
}

/// `byteorder::LittleEndian::read_u64`: decodes the first eight bytes of
/// `buf`, the lowest byte first. It panics on a shorter slice, which
/// `requires` rules out.
#[verifier::external_body]
pub(crate) fn read_le64(buf: &[u8]) -> (v: u64)
    requires
        buf@.len() >= 8,
    ensures
        v == le64(buf@),
{
    LittleEndian::read_u64(buf)
}

/// `byteorder::BigEndian::read_u64`: decodes the first eight bytes of `buf`,
/// the highest byte first. It panics on a shorter slice, which `requires`
/// rules out.
#[verifier::external_body]
pub(crate) fn read_be64(buf: &[u8]) -> (v: u64)
    requires
        buf@.len() >= 8,
    ensures
        v == be64(buf@),
{
    BigEndian::read_u64(buf)
}

/// `byteorder::LittleEndian::write_u32`: encodes `v` into four bytes, the
/// lowest byte first, so that decoding them gives `v` again.
#[verifier::external_body]
pub(crate) fn write_le32(v: u32) -> (out: [u8; 4])
    ensures
        le32(out@) == v,
{
    let mut out = [0u8; 4];
    LittleEndian::write_u32(&mut out, v);
    out
}

/// The unsigned number of `n` bytes (2, 4 or 8) that stands at `pos`, read
/// highest byte first where `big` holds and lowest byte first otherwise.
pub open spec fn unsigned_at(big: bool, s: Seq<u8>, pos: int, n: int) -> int {
    let b = s.subrange(pos, pos + n);
    if n == 2 {
        if big {
            be16(b)
        } else {
            le16(b)
        }
    } else if n == 4 {
        if big {
            be32(b)
        } else {
            le32(b)
        }
    } else {
        if big {
            be64(b)
        } else {
            le64(b)
        }
    }
}

/// The 16-bit number at `pos`.
pub fn u16_at(big: bool, bytes: &[u8], pos: usize) -> (v: u16)
    requires
        pos + 2 <= bytes@.len(),
    ensures
        v == unsigned_at(big, bytes@, pos as int, 2),
{
    // a slice is no longer than `usize::MAX`, so the end does not overflow
    let n = bytes.len();
    assert(pos + 2 <= n);
    let b = vstd::slice::slice_subrange(bytes, pos, pos + 2);
    if big {
        read_be16(b)
    } else {
        read_le16(b)
    }
}

/// The 32-bit number at `pos`.
pub fn u32_at(big: bool, bytes: &[u8], pos: usize) -> (v: u32)
    requires
        pos + 4 <= bytes@.len(),
    ensures
        v == unsigned_at(big, bytes@, pos as int, 4),
{
    // a slice is no longer than `usize::MAX`, so the end does not overflow
    let n = bytes.len();
    assert(pos + 4 <= n);
    let b = vstd::slice::slice_subrange(bytes, pos, pos + 4);
    if big {
        read_be32(b)
    } else {
        read_le32(b)
    }
}

/// The 64-bit number at `pos`.
pub fn u64_at(big: bool, bytes: &[u8], pos: usize) -> (v: u64)
    requires
        pos + 8 <= bytes@.len(),
    ensures
        v == unsigned_at(big, bytes@, pos as int, 8),
{
    // a slice is no longer than `usize::MAX`, so the end does not overflow
    let n = bytes.len();
    assert(pos + 8 <= n);
    let b = vstd::slice::slice_subrange(bytes, pos, pos + 8);
    if big {
        read_be64(b)
    } else {
        read_le64(b)
    }
}

} // verus!
