//! Packed 24-bit unsigned integers: three bytes, least significant first.

use vstd::prelude::*;

verus! {

/// Largest value that fits in three bytes.
pub const U24_MAX: u32 = 0xFF_FFFF;

/// The number that three little-endian bytes stand for.
pub open spec fn u24_value(bytes: [u8; 3]) -> int {
    bytes[0] + 256 * bytes[1] + 65536 * bytes[2]
}

/// The three little-endian bytes of `v`.
pub open spec fn u24_bytes(v: int) -> [u8; 3] {
    [(v % 256) as u8, (v / 256 % 256) as u8, (v / 65536 % 256) as u8]
}

/// Expands three little-endian bytes to the 32-bit number they stand for.
pub fn unpack(bytes: &[u8; 3]) -> (v: u32)
    ensures
        v == u24_value(*bytes),
        v <= U24_MAX,
{
    let b0: u32 = bytes[0] as u32;
    let b1: u32 = bytes[1] as u32;
    let b2: u32 = bytes[2] as u32;
    b0 + 256 * b1 + 65536 * b2
}

/// Packs a number of at most 24 bits into three little-endian bytes.
pub fn pack(v: u32) -> (bytes: [u8; 3])
    requires
        v <= U24_MAX,
    ensures
        bytes == u24_bytes(v as int),
        u24_value(bytes) == v,
{
    let bytes: [u8; 3] = [(v % 256) as u8, (v / 256 % 256) as u8, (v / 65536) as u8];
    assert(bytes =~= u24_bytes(v as int));
    bytes
}

/// Unpacking the packed form of a number in range gives the number back.
pub proof fn lemma_unpack_pack(v: int)
    requires
        0 <= v <= U24_MAX,
    ensures
        u24_value(u24_bytes(v)) == v,
{
}

/// Packing the value of any three bytes gives the same three bytes back.
pub proof fn lemma_pack_unpack(bytes: [u8; 3])
    ensures
        u24_bytes(u24_value(bytes)) == bytes,
        0 <= u24_value(bytes) <= U24_MAX,
{
}

} // verus!
