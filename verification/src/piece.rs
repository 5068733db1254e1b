//! Objects inside one piece.

use crate::error::DecodeError;
use crate::order::{
    bytes_precede, compare_bytes, compare_sequences, lemma_bytes_total, lemma_lexicographic_equal,
    lexicographic, same_bytes,
};
use crate::packed::{pack, u24_bytes, u24_value, unpack, U24_MAX};
use crate::record::{
    decode_record, decode_sequence, decoding, encode_record, encode_sequence, lemma_canonical,
    lemma_empty_sequence_encoding, lemma_round_trip, lemma_sequence_canonical,
    lemma_sequence_round_trip, sequence_decoding, sequence_encoding, Record,
};
use crate::wire::{
    get_u16, le_bytes, le_limit, le_value, lemma_le_bytes_len, lemma_le_bytes_of_value,
    lemma_le_value_of_bytes, length_prefix, put_u16,
};
use std::cmp::Ordering;
use vstd::prelude::*;
use vstd::std_specs::cmp::{PartialEqSpec, PartialOrdSpec};

verus! {

/// Where an object lies in the bytes of a piece.
#[derive(Copy, Clone, Debug, Eq, Ord, Hash)]
pub enum PieceObject {
    /// First version of the record, tag byte 0.
    V0 {
        /// Offset of the object in the piece.
        offset: u16,
        /// Size of the object, 24 bits, little-endian.
        size: [u8; 3],
    },
}

impl PieceObject {
    /// Number of bytes of an encoded record: the tag, the offset and one
    /// packed field.
    pub const ENCODED_LEN: usize = 6;

    /// The offset.
    pub open spec fn spec_offset(&self) -> u16 {
        self->offset
    }

    /// The size as a number.
    pub open spec fn spec_size(&self) -> u32 {
        u24_value(self->size) as u32
    }

    /// `self` comes before `other`: by the offset, and where the offsets are
    /// the same, by the size.
    pub open spec fn precedes(self, other: Self) -> bool {
        self->offset < other->offset || (self->offset == other->offset && bytes_precede(
            self->size,
            other->size,
        ))
    }

    /// The record with the given offset and size, if the size fits in 24
    /// bits.
    pub fn new(offset: u16, size: u32) -> (r: Option<Self>)
        ensures
            r is Some <==> size <= U24_MAX,
            r matches Some(object) ==> object == (PieceObject::V0 {
                offset,
                size: u24_bytes(size as int),
            }) && object.spec_size() == size,
    {
        if size <= U24_MAX {
            Some(PieceObject::V0 { offset, size: pack(size) })
        } else {
            None
        }
    }

    /// Offset of the object in the piece.
    #[verifier::when_used_as_spec(spec_offset)]
    pub fn offset(&self) -> (v: u16)
        ensures
            v == self->offset,
            v == self.spec_offset(),
    {
        match self {
            PieceObject::V0 { offset, .. } => *offset,
        }
    }

    /// Size of the object.
    #[verifier::when_used_as_spec(spec_size)]
    pub fn size(&self) -> (v: u32)
        ensures
            v == u24_value(self->size),
            v == self.spec_size(),
            v <= U24_MAX,
    {
        match self {
            PieceObject::V0 { size, .. } => unpack(size),
        }
    }

    /// The six bytes of the record.
    pub fn encode(&self) -> (out: Vec<u8>)
        ensures
            out@ == seq![0u8] + le_bytes(self->offset as nat, 2) + self->size@,
            out@ == self.encoding(),
            out@.len() == 6,
            decoding::<PieceObject>(out@) == Ok::<PieceObject, DecodeError>(*self),
    {
        proof {
            self.lemma_encoding_len();
            lemma_round_trip(*self);
        }
        encode_record(self)
    }

    /// Decodes a record from exactly six bytes.
    pub fn decode(bytes: &[u8]) -> (r: Result<Self, DecodeError>)
        ensures
            r == decoding::<PieceObject>(bytes@),
            bytes@.len() == 0 ==> r == Err::<Self, _>(DecodeError::UnexpectedEnd),
            bytes@.len() > 0 && bytes@[0] != 0 ==> r == Err::<Self, _>(DecodeError::UnknownVariant),
            0 < bytes@.len() < 6 && bytes@[0] == 0 ==> r == Err::<Self, _>(
                DecodeError::UnexpectedEnd,
            ),
            bytes@.len() > 6 && bytes@[0] == 0 ==> r == Err::<Self, _>(DecodeError::TrailingBytes),
            bytes@.len() == 6 && bytes@[0] == 0 ==> r is Ok,
            bytes@.len() < 6 ==> r is Err,
            r matches Ok(object) ==> object.encoding() == bytes@,
    {
        let r = decode_record::<PieceObject>(bytes);
        proof {
            lemma_canonical::<PieceObject>(bytes@);
        }
        r
    }
}

impl Record for PieceObject {
    open spec fn encoded_len() -> nat {
        6
    }

    open spec fn encoding(&self) -> Seq<u8> {
        seq![0u8] + le_bytes(self->offset as nat, 2) + self->size@
    }

    open spec fn leading(bytes: Seq<u8>) -> Result<Self, DecodeError> {
        if bytes.len() == 0 {
            Err(DecodeError::UnexpectedEnd)
        } else if bytes[0] != 0 {
            Err(DecodeError::UnknownVariant)
        } else if bytes.len() < 6 {
            Err(DecodeError::UnexpectedEnd)
        } else {
            Ok(
                PieceObject::V0 {
                    offset: le_value(bytes.subrange(1, 3)) as u16,
                    size: [bytes[3], bytes[4], bytes[5]],
                },
            )
        }
    }

    proof fn lemma_encoding_len(&self) {
        lemma_le_bytes_len(self->offset as nat, 2);
    }

    proof fn lemma_leading_of_encoding(&self, rest: Seq<u8>) {
        let bytes = self.encoding() + rest;
        let back = Self::leading(bytes);
        reveal_with_fuel(le_limit, 3);
        lemma_le_bytes_len(self->offset as nat, 2);
        lemma_le_value_of_bytes(self->offset as nat, 2);
        assert(bytes.subrange(1, 3) =~= le_bytes(self->offset as nat, 2));
        assert(back->Ok_0->size =~= self->size);
    }

    proof fn lemma_encoding_of_leading(bytes: Seq<u8>) {
        reveal_with_fuel(le_limit, 3);
        lemma_le_bytes_of_value(bytes.subrange(1, 3));
    }

    fn encoded_size() -> (n: usize) {
        Self::ENCODED_LEN
    }

    fn encode_to(&self, out: &mut Vec<u8>) {
        match self {
            PieceObject::V0 { offset, size } => {
                out.push(0);
                put_u16(out, *offset);
                out.push(size[0]);
                out.push(size[1]);
                out.push(size[2]);
            },
        }
    }

    fn decode_at(bytes: &[u8], at: usize) -> (r: Result<Self, DecodeError>) {
        if at >= bytes.len() {
            return Err(DecodeError::UnexpectedEnd);
        }
        if bytes[at] != 0 {
            return Err(DecodeError::UnknownVariant);
        }
        if bytes.len() - at < Self::ENCODED_LEN {
            return Err(DecodeError::UnexpectedEnd);
        }
        let offset: u16 = get_u16(bytes, at + 1);
        let size: [u8; 3] = [bytes[at + 3], bytes[at + 4], bytes[at + 5]];
        let object = PieceObject::V0 { offset, size };
        proof {
            let here = bytes@.skip(at as int);
            assert(here.subrange(1, 3) =~= bytes@.subrange(at + 1, at + 3));
        }
        Ok(object)
    }
}

impl PartialEq for PieceObject {
    fn eq(&self, other: &Self) -> (r: bool) {
        match (self, other) {
            (
                PieceObject::V0 { offset, size },
                PieceObject::V0 { offset: other_offset, size: other_size },
            ) => *offset == *other_offset && same_bytes(size, other_size),
        }
    }
}

impl vstd::std_specs::cmp::PartialEqSpecImpl for PieceObject {
    open spec fn obeys_eq_spec() -> bool {
        true
    }

    open spec fn eq_spec(&self, other: &Self) -> bool {
        self->offset == other->offset && self->size == other->size
    }
}

impl PartialOrd for PieceObject {
    fn partial_cmp(&self, other: &Self) -> (r: Option<Ordering>) {
        match (self, other) {
            (
                PieceObject::V0 { offset, size },
                PieceObject::V0 { offset: other_offset, size: other_size },
            ) => {
                proof {
                    lemma_bytes_total(*size, *other_size);
                }
                if *offset < *other_offset {
                    Some(Ordering::Less)
                } else if *offset > *other_offset {
                    Some(Ordering::Greater)
                } else {
                    Some(compare_bytes(size, other_size))
                }
            },
        }
    }
}

impl vstd::std_specs::cmp::PartialOrdSpecImpl for PieceObject {
    open spec fn obeys_partial_cmp_spec() -> bool {
        true
    }

    open spec fn partial_cmp_spec(&self, other: &Self) -> Option<Ordering> {
        if self.precedes(*other) {
            Some(Ordering::Less)
        } else if other.precedes(*self) {
            Some(Ordering::Greater)
        } else {
            Some(Ordering::Equal)
        }
    }
}

/// Two records are equal exactly when they are the same value, and of two
/// records either one comes before the other or they are equal, never two
/// of these at once.
pub proof fn lemma_piece_object_total(a: PieceObject, b: PieceObject)
    ensures
        a.eq_spec(&b) <==> a == b,
        a == b <==> (a->offset == b->offset && a->size == b->size),
        a.precedes(b) || a == b || b.precedes(a),
        !(a.precedes(b) && a == b),
        !(a.precedes(b) && b.precedes(a)),
        a.partial_cmp_spec(&b) == Some(Ordering::Less) <==> a.precedes(b),
        a.partial_cmp_spec(&b) == Some(Ordering::Equal) <==> a == b,
        a.partial_cmp_spec(&b) == Some(Ordering::Greater) <==> b.precedes(a),
{
    lemma_bytes_total(a->size, b->size);
}

/// What comes before a record comes before all that the record comes before.
pub proof fn lemma_piece_object_transitive(a: PieceObject, b: PieceObject, c: PieceObject)
    requires
        a.precedes(b),
        b.precedes(c),
    ensures
        a.precedes(c),
{
}

/// The objects of one piece, in the order in which they lie in it. The order
/// is kept as it is given, and an object may occur more than once.
#[derive(Debug, Eq, Ord, Hash)]
pub struct PieceObjectMapping {
    /// Objects stored inside of the piece.
    pub objects: Vec<PieceObject>,
}

impl View for PieceObjectMapping {
    type V = Seq<PieceObject>;

    open spec fn view(&self) -> Seq<PieceObject> {
        self.objects@
    }
}

impl Clone for PieceObjectMapping {
    /// A copy of its own: the same objects in the same order.
    fn clone(&self) -> (r: Self)
        ensures
            r@ == self@,
    {
        let mut objects: Vec<PieceObject> = Vec::new();
        let mut i: usize = 0;
        while i < self.objects.len()
            invariant
                i <= self@.len(),
                objects@ == self@.take(i as int),
            decreases self@.len() - i,
        {
            objects.push(self.objects[i]);
            i += 1;
        }
        PieceObjectMapping { objects }
    }
}

impl Default for PieceObjectMapping {
    /// The mapping of a piece without objects.
    fn default() -> (r: Self)
        ensures
            r@ == Seq::<PieceObject>::empty(),
            sequence_encoding(r@) == seq![0u8],
    {
        let r = PieceObjectMapping { objects: Vec::new() };
        proof {
            lemma_empty_sequence_encoding::<PieceObject>();
        }
        r
    }
}

impl PieceObjectMapping {
    /// The length prefix followed by the records of the objects, six bytes
    /// each.
    pub fn encode(&self) -> (out: Vec<u8>)
        requires
            self@.len() <= u32::MAX,
        ensures
            out@ == sequence_encoding(self@),
            out@.len() == length_prefix(self@.len() as u32).len() + 6 * self@.len(),
            sequence_decoding::<PieceObject>(out@) == Ok::<Seq<PieceObject>, DecodeError>(self@),
    {
        proof {
            lemma_sequence_round_trip::<PieceObject>(self@);
        }
        encode_sequence(&self.objects)
    }

    /// Decodes a mapping from `bytes`, all of them.
    pub fn decode(bytes: &[u8]) -> (r: Result<Self, DecodeError>)
        ensures
            match r {
                Ok(mapping) => sequence_decoding::<PieceObject>(bytes@) == Ok::<
                    Seq<PieceObject>,
                    DecodeError,
                >(mapping@) && sequence_encoding(mapping@) == bytes@,
                Err(e) => sequence_decoding::<PieceObject>(bytes@) == Err::<
                    Seq<PieceObject>,
                    DecodeError,
                >(e),
            },
    {
        proof {
            lemma_sequence_canonical::<PieceObject>(bytes@);
        }
        match decode_sequence::<PieceObject>(bytes) {
            Ok(objects) => Ok(PieceObjectMapping { objects }),
            Err(e) => Err(e),
        }
    }
}

impl PartialEq for PieceObjectMapping {
    fn eq(&self, other: &Self) -> (r: bool) {
        let r = self.objects == other.objects;
        proof {
            if r {
                assert(self@ =~= other@);
            }
        }
        r
    }
}

impl vstd::std_specs::cmp::PartialEqSpecImpl for PieceObjectMapping {
    open spec fn obeys_eq_spec() -> bool {
        true
    }

    open spec fn eq_spec(&self, other: &Self) -> bool {
        self@ == other@
    }
}

impl PartialOrd for PieceObjectMapping {
    fn partial_cmp(&self, other: &Self) -> (r: Option<Ordering>) {
        compare_sequences(&self.objects, &other.objects)
    }
}

impl vstd::std_specs::cmp::PartialOrdSpecImpl for PieceObjectMapping {
    open spec fn obeys_partial_cmp_spec() -> bool {
        true
    }

    open spec fn partial_cmp_spec(&self, other: &Self) -> Option<Ordering> {
        lexicographic(self@, other@)
    }
}

/// Two mappings compare as equal exactly when they hold the same objects
/// in the same order, which is when `==` holds of them.
pub proof fn lemma_piece_mapping_equal(a: PieceObjectMapping, b: PieceObjectMapping)
    ensures
        a.partial_cmp_spec(&b) == Some(Ordering::Equal) <==> a@ == b@,
        a.eq_spec(&b) <==> a@ == b@,
{
    assert forall|x: PieceObject, y: PieceObject|
        #![trigger x.partial_cmp_spec(&y)]
        x.partial_cmp_spec(&y) == Some(Ordering::Equal) <==> x == y by {
        lemma_piece_object_total(x, y);
    }
    lemma_lexicographic_equal(a@, b@);
}

} // verus!
