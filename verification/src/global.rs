//! Objects in the global history of pieces.

use crate::error::DecodeError;
use crate::order::{bytes_precede, compare_bytes, lemma_bytes_total, same_bytes};
use crate::packed::{pack, u24_bytes, u24_value, unpack, U24_MAX};
use crate::record::{
    decode_record, decoding, encode_record, lemma_canonical, lemma_round_trip, Record,
};
use crate::wire::{
    get_u16, get_u64, le_bytes, le_limit, le_value, lemma_le_bytes_len, lemma_le_bytes_of_value,
    lemma_le_value_of_bytes, put_u16, put_u64,
};
use std::cmp::Ordering;
use vstd::prelude::*;
use vstd::std_specs::cmp::{PartialEqSpec, PartialOrdSpec};

verus! {

/// Where an object begins in the history of pieces. The piece and the offset
/// say where the object starts; it may run on into the pieces that follow.
#[derive(Copy, Clone, Debug, Eq, Ord, Hash)]
pub enum GlobalObject {
    /// First version of the record, tag byte 0.
    V0 {
        /// Index of the piece in which the object begins.
        piece_index: u64,
        /// Offset of the object in that piece.
        offset: u16,
        /// Size of the object, 24 bits, little-endian.
        size: [u8; 3],
    },
}

impl GlobalObject {
    /// Number of bytes of an encoded record: the tag, the piece index, the
    /// offset and one packed field.
    pub const ENCODED_LEN: usize = 14;

    /// The index of the piece.
    pub open spec fn spec_piece_index(&self) -> u64 {
        self->piece_index
    }

    /// The offset.
    pub open spec fn spec_offset(&self) -> u16 {
        self->offset
    }

    /// The size as a number.
    pub open spec fn spec_size(&self) -> u32 {
        u24_value(self->size) as u32
    }

    /// `self` comes before `other`: by the piece index, then by the offset,
    /// then by the size.
    pub open spec fn precedes(self, other: Self) -> bool {
        self->piece_index < other->piece_index || (self->piece_index == other->piece_index && (
        self->offset < other->offset || (self->offset == other->offset && bytes_precede(
            self->size,
            other->size,
        ))))
    }

    /// The record with the given piece index, offset and size, if the size
    /// fits in 24 bits.
    pub fn new(piece_index: u64, offset: u16, size: u32) -> (r: Option<Self>)
        ensures
            r is Some <==> size <= U24_MAX,
            r matches Some(object) ==> object == (GlobalObject::V0 {
                piece_index,
                offset,
                size: u24_bytes(size as int),
            }) && object.spec_size() == size,
    {
        if size <= U24_MAX {
            Some(GlobalObject::V0 { piece_index, offset, size: pack(size) })
        } else {
            None
        }
    }

    /// Index of the piece in which the object begins.
    #[verifier::when_used_as_spec(spec_piece_index)]
    pub fn piece_index(&self) -> (v: u64)
        ensures
            v == self->piece_index,
            v == self.spec_piece_index(),
    {
        match self {
            GlobalObject::V0 { piece_index, .. } => *piece_index,
        }
    }

    /// Offset of the object in its piece.
    #[verifier::when_used_as_spec(spec_offset)]
    pub fn offset(&self) -> (v: u16)
        ensures
            v == self->offset,
            v == self.spec_offset(),
    {
        match self {
            GlobalObject::V0 { offset, .. } => *offset,
        }
    }

    /// Size of the object.
    #[verifier::when_used_as_spec(spec_size)]
    pub fn size(&self) -> (v: u32)
        ensures
            v == u24_value(self->size),
            v == self.spec_size(),
            v <= U24_MAX,
    {
        match self {
            GlobalObject::V0 { size, .. } => unpack(size),
        }
    }

    /// The fourteen bytes of the record.
    pub fn encode(&self) -> (out: Vec<u8>)
        ensures
            out@ == seq![0u8] + le_bytes(self->piece_index as nat, 8) + le_bytes(
                self->offset as nat,
                2,
            ) + self->size@,
            out@ == self.encoding(),
            out@.len() == 14,
            decoding::<GlobalObject>(out@) == Ok::<GlobalObject, DecodeError>(*self),
    {
        proof {
            self.lemma_encoding_len();
            lemma_round_trip(*self);
        }
        encode_record(self)
    }

    /// Decodes a record from exactly fourteen bytes.
    pub fn decode(bytes: &[u8]) -> (r: Result<Self, DecodeError>)
        ensures
            r == decoding::<GlobalObject>(bytes@),
            bytes@.len() == 0 ==> r == Err::<Self, _>(DecodeError::UnexpectedEnd),
            bytes@.len() > 0 && bytes@[0] != 0 ==> r == Err::<Self, _>(DecodeError::UnknownVariant),
            0 < bytes@.len() < 14 && bytes@[0] == 0 ==> r == Err::<Self, _>(
                DecodeError::UnexpectedEnd,
            ),
            bytes@.len() > 14 && bytes@[0] == 0 ==> r == Err::<Self, _>(DecodeError::TrailingBytes),
            bytes@.len() == 14 && bytes@[0] == 0 ==> r is Ok,
            bytes@.len() < 14 ==> r is Err,
            r matches Ok(object) ==> object.encoding() == bytes@,
    {
        let r = decode_record::<GlobalObject>(bytes);
        proof {
            lemma_canonical::<GlobalObject>(bytes@);
        }
        r
    }
}

impl Record for GlobalObject {
    open spec fn encoded_len() -> nat {
        14
    }

    open spec fn encoding(&self) -> Seq<u8> {
        seq![0u8] + le_bytes(self->piece_index as nat, 8) + le_bytes(self->offset as nat, 2)
            + self->size@
    }

    open spec fn leading(bytes: Seq<u8>) -> Result<Self, DecodeError> {
        if bytes.len() == 0 {
            Err(DecodeError::UnexpectedEnd)
        } else if bytes[0] != 0 {
            Err(DecodeError::UnknownVariant)
        } else if bytes.len() < 14 {
            Err(DecodeError::UnexpectedEnd)
        } else {
            Ok(
                GlobalObject::V0 {
                    piece_index: le_value(bytes.subrange(1, 9)) as u64,
                    offset: le_value(bytes.subrange(9, 11)) as u16,
                    size: [bytes[11], bytes[12], bytes[13]],
                },
            )
        }
    }

    proof fn lemma_encoding_len(&self) {
        lemma_le_bytes_len(self->piece_index as nat, 8);
        lemma_le_bytes_len(self->offset as nat, 2);
    }

    proof fn lemma_leading_of_encoding(&self, rest: Seq<u8>) {
        let bytes = self.encoding() + rest;
        let back = Self::leading(bytes);
        reveal_with_fuel(le_limit, 9);
        lemma_le_bytes_len(self->piece_index as nat, 8);
        lemma_le_bytes_len(self->offset as nat, 2);
        lemma_le_value_of_bytes(self->piece_index as nat, 8);
        lemma_le_value_of_bytes(self->offset as nat, 2);
        assert(bytes.subrange(1, 9) =~= le_bytes(self->piece_index as nat, 8));
        assert(bytes.subrange(9, 11) =~= le_bytes(self->offset as nat, 2));
        assert(back->Ok_0->size =~= self->size);
    }

    proof fn lemma_encoding_of_leading(bytes: Seq<u8>) {
        reveal_with_fuel(le_limit, 9);
        lemma_le_bytes_of_value(bytes.subrange(1, 9));
        lemma_le_bytes_of_value(bytes.subrange(9, 11));
    }

    fn encoded_size() -> (n: usize) {
        Self::ENCODED_LEN
    }

    fn encode_to(&self, out: &mut Vec<u8>) {
        match self {
            GlobalObject::V0 { piece_index, offset, size } => {
                out.push(0);
                put_u64(out, *piece_index);
                put_u16(out, *offset);
                out.push(size[0]);
                out.push(size[1]);
                out.push(size[2]);
            },
        }
    }

    fn decode_at(bytes: &[u8], at: usize) -> (r: Result<Self, DecodeError>) {
        if at >= bytes.len() {
            return Err(DecodeError::UnexpectedEnd);
        }
        if bytes[at] != 0 {
            return Err(DecodeError::UnknownVariant);
        }
        if bytes.len() - at < Self::ENCODED_LEN {
            return Err(DecodeError::UnexpectedEnd);
        }
        let piece_index: u64 = get_u64(bytes, at + 1);
        let offset: u16 = get_u16(bytes, at + 9);
        let size: [u8; 3] = [bytes[at + 11], bytes[at + 12], bytes[at + 13]];
        let object = GlobalObject::V0 { piece_index, offset, size };
        proof {
            let here = bytes@.skip(at as int);
            assert(here.subrange(1, 9) =~= bytes@.subrange(at + 1, at + 9));
            assert(here.subrange(9, 11) =~= bytes@.subrange(at + 9, at + 11));
        }
        Ok(object)
    }
}

impl PartialEq for GlobalObject {
    fn eq(&self, other: &Self) -> (r: bool) {
        match (self, other) {
            (
                GlobalObject::V0 { piece_index, offset, size },
                GlobalObject::V0 {
                    piece_index: other_piece_index,
                    offset: other_offset,
                    size: other_size,
                },
            ) => *piece_index == *other_piece_index && *offset == *other_offset && same_bytes(
                size,
                other_size,
            ),
        }
    }
}

impl vstd::std_specs::cmp::PartialEqSpecImpl for GlobalObject {
    open spec fn obeys_eq_spec() -> bool {
        true
    }

    open spec fn eq_spec(&self, other: &Self) -> bool {
        self->piece_index == other->piece_index && self->offset == other->offset && self->size
            == other->size
    }
}

impl PartialOrd for GlobalObject {
    fn partial_cmp(&self, other: &Self) -> (r: Option<Ordering>) {
        match (self, other) {
            (
                GlobalObject::V0 { piece_index, offset, size },
                GlobalObject::V0 {
                    piece_index: other_piece_index,
                    offset: other_offset,
                    size: other_size,
                },
            ) => {
                proof {
                    lemma_bytes_total(*size, *other_size);
                }
                if *piece_index < *other_piece_index {
                    Some(Ordering::Less)
                } else if *piece_index > *other_piece_index {
                    Some(Ordering::Greater)
                } else if *offset < *other_offset {
                    Some(Ordering::Less)
                } else if *offset > *other_offset {
                    Some(Ordering::Greater)
                } else {
                    Some(compare_bytes(size, other_size))
                }
            },
        }
    }
}

impl vstd::std_specs::cmp::PartialOrdSpecImpl for GlobalObject {
    open spec fn obeys_partial_cmp_spec() -> bool {
        true
    }

    open spec fn partial_cmp_spec(&self, other: &Self) -> Option<Ordering> {
        if self.precedes(*other) {
            Some(Ordering::Less)
        } else if other.precedes(*self) {
            Some(Ordering::Greater)
        } else {
            Some(Ordering::Equal)
        }
    }
}

/// Two records are equal exactly when they are the same value, and of two
/// records either one comes before the other or they are equal, never two
/// of these at once.
pub proof fn lemma_global_object_total(a: GlobalObject, b: GlobalObject)
    ensures
        a.eq_spec(&b) <==> a == b,
        a == b <==> (a->piece_index == b->piece_index && a->offset == b->offset && a->size == b->size),
        a.precedes(b) || a == b || b.precedes(a),
        !(a.precedes(b) && a == b),
        !(a.precedes(b) && b.precedes(a)),
        a.partial_cmp_spec(&b) == Some(Ordering::Less) <==> a.precedes(b),
        a.partial_cmp_spec(&b) == Some(Ordering::Equal) <==> a == b,
        a.partial_cmp_spec(&b) == Some(Ordering::Greater) <==> b.precedes(a),
{
    lemma_bytes_total(a->size, b->size);
}

/// What comes before a record comes before all that the record comes before.
pub proof fn lemma_global_object_transitive(a: GlobalObject, b: GlobalObject, c: GlobalObject)
    requires
        a.precedes(b),
        b.precedes(c),
    ensures
        a.precedes(c),
{
}

} // verus!
