//! Byte-level building blocks of the binary encoding: fixed-width
//! little-endian integers and the variable-length prefix that announces how
//! many items a sequence holds.

use crate::error::DecodeError;
use parity_scale_codec::{Compact, Decode, Encode};
use vstd::prelude::*;

verus! {

/// The `width` little-endian bytes of `v`, least significant first.
pub open spec fn le_bytes(v: nat, width: nat) -> Seq<u8>
    decreases width,
{
    if width == 0 {
        Seq::empty()
    } else {
        seq![(v % 256) as u8] + le_bytes(v / 256, (width - 1) as nat)
    }
}

/// The number that little-endian `bytes` stand for.
pub open spec fn le_value(bytes: Seq<u8>) -> nat
    decreases bytes.len(),
{
    if bytes.len() == 0 {
        0
    } else {
        bytes[0] as nat + 256 * le_value(bytes.skip(1))
    }
}

/// One more than the largest number that `width` bytes can hold.
pub open spec fn le_limit(width: nat) -> nat
    decreases width,
{
    if width == 0 {
        1
    } else {
        256 * le_limit((width - 1) as nat)
    }
}

/// `le_bytes` gives exactly `width` bytes.
pub proof fn lemma_le_bytes_len(v: nat, width: nat)
    ensures
        le_bytes(v, width).len() == width,
    decreases width,
{
    if width > 0 {
        lemma_le_bytes_len(v / 256, (width - 1) as nat);
    }
}

/// Reading back the bytes of a number that fits gives the number.
pub proof fn lemma_le_value_of_bytes(v: nat, width: nat)
    requires
        v < le_limit(width),
    ensures
        le_value(le_bytes(v, width)) == v,
    decreases width,
{
    if width > 0 {
        let rest = le_bytes(v / 256, (width - 1) as nat);
        lemma_le_value_of_bytes(v / 256, (width - 1) as nat);
        lemma_le_bytes_len(v / 256, (width - 1) as nat);
        assert(le_bytes(v, width).skip(1) =~= rest);
    }
}

/// Writing out the number that some bytes stand for gives the same bytes.
pub proof fn lemma_le_bytes_of_value(bytes: Seq<u8>)
    ensures
        le_value(bytes) < le_limit(bytes.len()),
        le_bytes(le_value(bytes), bytes.len()) == bytes,
    decreases bytes.len(),
{
    if bytes.len() > 0 {
        lemma_le_bytes_of_value(bytes.skip(1));
    }
}

/// Appends the two little-endian bytes of `v`.
pub fn put_u16(out: &mut Vec<u8>, v: u16)
    ensures
        final(out)@ == old(out)@ + le_bytes(v as nat, 2),
{
    out.push((v % 256) as u8);
    out.push((v / 256) as u8);
    proof {
        reveal_with_fuel(le_bytes, 3);
    }
}

/// Appends the eight little-endian bytes of `v`.
pub fn put_u64(out: &mut Vec<u8>, v: u64)
    ensures
        final(out)@ == old(out)@ + le_bytes(v as nat, 8),
{
    let ghost start = out@;
    let mut rest: u64 = v;
    let mut i: usize = 0;
    while i < 8
        invariant
            i <= 8,
            start + le_bytes(v as nat, 8) == out@ + le_bytes(rest as nat, (8 - i) as nat),
        decreases 8 - i,
    {
        out.push((rest % 256) as u8);
        rest = rest / 256;
        i += 1;
    }
}

/// Reads the two little-endian bytes that start at `at`.
pub fn get_u16(bytes: &[u8], at: usize) -> (v: u16)
    requires
        at + 2 <= bytes@.len(),
    ensures
        v == le_value(bytes@.subrange(at as int, at + 2)),
{
    let b0: u16 = bytes[at] as u16;
    let b1: u16 = bytes[at + 1] as u16;
    proof {
        reveal_with_fuel(le_value, 3);
    }
    b0 + 256 * b1
}

/// Reads the eight little-endian bytes that start at `at`.
pub fn get_u64(bytes: &[u8], at: usize) -> (v: u64)
    requires
        at + 8 <= bytes@.len(),
    ensures
        v == le_value(bytes@.subrange(at as int, at + 8)),
{
    let b0: u64 = bytes[at] as u64;
    let b1: u64 = bytes[at + 1] as u64;
    let b2: u64 = bytes[at + 2] as u64;
    let b3: u64 = bytes[at + 3] as u64;
    let b4: u64 = bytes[at + 4] as u64;
    let b5: u64 = bytes[at + 5] as u64;
    let b6: u64 = bytes[at + 6] as u64;
    let b7: u64 = bytes[at + 7] as u64;
    proof {
        reveal_with_fuel(le_value, 9);
    }
    b0 + 0x100 * b1 + 0x1_0000 * b2 + 0x100_0000 * b3 + 0x1_0000_0000 * b4 + 0x100_0000_0000 * b5
        + 0x1_0000_0000_0000 * b6 + 0x100_0000_0000_0000 * b7
}

/// The prefix that announces a sequence of `n` items. The two lowest bits of
/// the first byte tell how the number is stored: in the upper six bits of
/// that byte, in the upper bits of a two-byte or of a four-byte
/// little-endian integer, or in four bytes of its own after the first.
/// Every number has one form only, the shortest that holds it.
pub open spec fn length_prefix(n: u32) -> Seq<u8> {
    if n < 0x40 {
        le_bytes((4 * n) as nat, 1)
    } else if n < 0x4000 {
        le_bytes((4 * n + 1) as nat, 2)
    } else if n < 0x4000_0000 {
        le_bytes((4 * n + 2) as nat, 4)
    } else {
        seq![3u8] + le_bytes(n as nat, 4)
    }
}

/// The number whose length prefix starts `bytes`, if there is one.
pub open spec fn leading_length(bytes: Seq<u8>) -> Option<u32> {
    if exists|n: u32| length_prefix(n).is_prefix_of(bytes) {
        Some(choose|n: u32| length_prefix(n).is_prefix_of(bytes))
    } else {
        None
    }
}

/// A length prefix is one, two, four or five bytes long.
pub proof fn lemma_length_prefix_len(n: u32)
    ensures
        length_prefix(n).len() == if n < 0x40 {
            1nat
        } else if n < 0x4000 {
            2nat
        } else if n < 0x4000_0000 {
            4nat
        } else {
            5nat
        },
{
    lemma_le_bytes_len((4 * n) as nat, 1);
    lemma_le_bytes_len((4 * n + 1) as nat, 2);
    lemma_le_bytes_len((4 * n + 2) as nat, 4);
    lemma_le_bytes_len(n as nat, 4);
}

/// No length prefix starts another: at most one number's prefix starts any
/// given byte string.
pub proof fn lemma_length_prefix_unique(n: u32, m: u32, bytes: Seq<u8>)
    requires
        length_prefix(n).is_prefix_of(bytes),
        length_prefix(m).is_prefix_of(bytes),
    ensures
        n == m,
{
    reveal_with_fuel(le_bytes, 5);
    reveal_with_fuel(le_limit, 5);
    lemma_length_prefix_len(n);
    lemma_length_prefix_len(m);
    let a = length_prefix(n);
    let b = length_prefix(m);
    assert(a[0] == bytes[0] && b[0] == bytes[0]);
    assert(a =~= b);
    if n < 0x40 {
        lemma_le_value_of_bytes((4 * n) as nat, 1);
        lemma_le_value_of_bytes((4 * m) as nat, 1);
    } else if n < 0x4000 {
        lemma_le_value_of_bytes((4 * n + 1) as nat, 2);
        lemma_le_value_of_bytes((4 * m + 1) as nat, 2);
    } else if n < 0x4000_0000 {
        lemma_le_value_of_bytes((4 * n + 2) as nat, 4);
        lemma_le_value_of_bytes((4 * m + 2) as nat, 4);
    } else {
        lemma_le_value_of_bytes(n as nat, 4);
        lemma_le_value_of_bytes(m as nat, 4);
        assert(a.skip(1) =~= le_bytes(n as nat, 4));
        assert(b.skip(1) =~= le_bytes(m as nat, 4));
    }
}

/// Whatever follows the length prefix of `n`, the number read back is `n`.
pub proof fn lemma_leading_length(n: u32, rest: Seq<u8>)
    ensures
        leading_length(length_prefix(n) + rest) == Some(n),
{
    let bytes = length_prefix(n) + rest;
    let m = choose|m: u32| length_prefix(m).is_prefix_of(bytes);
    lemma_length_prefix_unique(n, m, bytes);
}

/// The error of `parity_scale_codec`, carried through and never looked into.
#[verifier::external_type_specification]
#[verifier::external_body]
pub struct ExCodecError(parity_scale_codec::Error);

/// `Encode::encode` of `parity_scale_codec::Compact<u32>`. Trusted: the bytes
/// it returns are `length_prefix(n)`.
#[verifier::external_body]
fn compact_encode(n: u32) -> (out: Vec<u8>)
    ensures
        out@ == length_prefix(n),
{
    Compact(n).encode()
}

/// `Decode::decode` of `parity_scale_codec::Compact<u32>` on a byte slice,
/// returning the number together with how many bytes were left unread.
/// Trusted: it succeeds with `n` exactly when the input starts with
/// `length_prefix(n)`, and then it has read those bytes and no more.
#[verifier::external_body]
fn compact_decode(bytes: &[u8]) -> (r: Result<(u32, usize), parity_scale_codec::Error>)
    ensures
        match r {
            Ok((n, left)) => length_prefix(n).is_prefix_of(bytes@) && left + length_prefix(n).len()
                == bytes@.len(),
            Err(_) => forall|n: u32| !length_prefix(n).is_prefix_of(bytes@),
        },
{
    let mut rest: &[u8] = bytes;
    match Compact::<u32>::decode(&mut rest) {
        Ok(n) => Ok((n.0, rest.len())),
        Err(e) => Err(e),
    }
}

/// Appends the length prefix of a sequence of `n` items.
pub fn put_length(out: &mut Vec<u8>, n: u32)
    ensures
        final(out)@ == old(out)@ + length_prefix(n),
{
    let mut prefix = compact_encode(n);
    out.append(&mut prefix);
}

/// Reads the length prefix at the start of `bytes`: the number of items it
/// announces, and the number of bytes the prefix takes.
pub fn get_length(bytes: &[u8]) -> (r: Result<(u32, usize), DecodeError>)
    ensures
        match r {
            Ok((n, used)) => leading_length(bytes@) == Some(n) && used == length_prefix(n).len(),
            Err(e) => e == DecodeError::InvalidLength && leading_length(bytes@) is None,
        },
{
    match compact_decode(bytes) {
        Ok((n, left)) => {
            proof {
                let m = choose|m: u32| length_prefix(m).is_prefix_of(bytes@);
                lemma_length_prefix_unique(n, m, bytes@);
            }
            Ok((n, bytes.len() - left))
        },
        Err(_) => Err(DecodeError::InvalidLength),
    }
}

} // verus!
