//! Objects inside one block.

use crate::error::DecodeError;
use crate::order::{
    bytes_precede, compare_bytes, compare_sequences, lemma_bytes_total, lemma_lexicographic_equal,
    lexicographic, same_bytes,
};
use crate::packed::{pack, u24_bytes, u24_value, unpack, U24_MAX};
use crate::record::{
    decode_record, decode_sequence, decoding, encode_record, encode_sequence, lemma_canonical,
    lemma_empty_sequence_encoding, lemma_round_trip, lemma_sequence_canonical,
    lemma_sequence_round_trip, sequence_decoding, sequence_encoding, Record,
};
use crate::wire::length_prefix;
use std::cmp::Ordering;
use vstd::prelude::*;
use vstd::std_specs::cmp::{PartialEqSpec, PartialOrdSpec};

verus! {

/// Where an object lies in the bytes of a block.
#[derive(Copy, Clone, Debug, Eq, Ord, Hash)]
pub enum BlockObject {
    /// First version of the record, tag byte 0.
    V0 {
        /// Offset of the object in the block, 24 bits, little-endian.
        offset: [u8; 3],
        /// Size of the object, 24 bits, little-endian.
        size: [u8; 3],
    },
}

impl BlockObject {
    /// Number of bytes of an encoded record: the tag and two packed fields.
    pub const ENCODED_LEN: usize = 7;

    /// The offset as a number.
    pub open spec fn spec_offset(&self) -> u32 {
        u24_value(self->offset) as u32
    }

    /// The size as a number.
    pub open spec fn spec_size(&self) -> u32 {
        u24_value(self->size) as u32
    }

    /// `self` comes before `other`: by the offset, and where the offsets are
    /// the same, by the size.
    pub open spec fn precedes(self, other: Self) -> bool {
        bytes_precede(self->offset, other->offset) || (self->offset == other->offset
            && bytes_precede(self->size, other->size))
    }

    /// The record with the given offset and size, if both fit in 24 bits.
    pub fn new(offset: u32, size: u32) -> (r: Option<Self>)
        ensures
            r is Some <==> offset <= U24_MAX && size <= U24_MAX,
            r matches Some(object) ==> object == (BlockObject::V0 {
                offset: u24_bytes(offset as int),
                size: u24_bytes(size as int),
            }) && object.spec_offset() == offset && object.spec_size() == size,
    {
        if offset <= U24_MAX && size <= U24_MAX {
            Some(BlockObject::V0 { offset: pack(offset), size: pack(size) })
        } else {
            None
        }
    }

    /// Offset of the object in the block.
    #[verifier::when_used_as_spec(spec_offset)]
    pub fn offset(&self) -> (v: u32)
        ensures
            v == u24_value(self->offset),
            v == self.spec_offset(),
            v <= U24_MAX,
    {
        match self {
            BlockObject::V0 { offset, .. } => unpack(offset),
        }
    }

    /// Size of the object.
    #[verifier::when_used_as_spec(spec_size)]
    pub fn size(&self) -> (v: u32)
        ensures
            v == u24_value(self->size),
            v == self.spec_size(),
            v <= U24_MAX,
    {
        match self {
            BlockObject::V0 { size, .. } => unpack(size),
        }
    }

    /// The seven bytes of the record.
    pub fn encode(&self) -> (out: Vec<u8>)
        ensures
            out@ == seq![0u8] + self->offset@ + self->size@,
            out@ == self.encoding(),
            out@.len() == 7,
            decoding::<BlockObject>(out@) == Ok::<BlockObject, DecodeError>(*self),
    {
        proof {
            self.lemma_encoding_len();
            lemma_round_trip(*self);
        }
        encode_record(self)
    }

    /// Decodes a record from exactly seven bytes.
    pub fn decode(bytes: &[u8]) -> (r: Result<Self, DecodeError>)
        ensures
            r == decoding::<BlockObject>(bytes@),
            bytes@.len() == 0 ==> r == Err::<Self, _>(DecodeError::UnexpectedEnd),
            bytes@.len() > 0 && bytes@[0] != 0 ==> r == Err::<Self, _>(DecodeError::UnknownVariant),
            0 < bytes@.len() < 7 && bytes@[0] == 0 ==> r == Err::<Self, _>(
                DecodeError::UnexpectedEnd,
            ),
            bytes@.len() > 7 && bytes@[0] == 0 ==> r == Err::<Self, _>(DecodeError::TrailingBytes),
            bytes@.len() == 7 && bytes@[0] == 0 ==> r is Ok,
            bytes@.len() < 7 ==> r is Err,
            r matches Ok(object) ==> object.encoding() == bytes@,
    {
        let r = decode_record::<BlockObject>(bytes);
        proof {
            lemma_canonical::<BlockObject>(bytes@);
        }
        r
    }
}

impl Record for BlockObject {
    open spec fn encoded_len() -> nat {
        7
    }

    open spec fn encoding(&self) -> Seq<u8> {
        seq![0u8] + self->offset@ + self->size@
    }

    open spec fn leading(bytes: Seq<u8>) -> Result<Self, DecodeError> {
        if bytes.len() == 0 {
            Err(DecodeError::UnexpectedEnd)
        } else if bytes[0] != 0 {
            Err(DecodeError::UnknownVariant)
        } else if bytes.len() < 7 {
            Err(DecodeError::UnexpectedEnd)
        } else {
            Ok(
                BlockObject::V0 {
                    offset: [bytes[1], bytes[2], bytes[3]],
                    size: [bytes[4], bytes[5], bytes[6]],
                },
            )
        }
    }

    proof fn lemma_encoding_len(&self) {
    }

    proof fn lemma_leading_of_encoding(&self, rest: Seq<u8>) {
        let bytes = self.encoding() + rest;
        let back = Self::leading(bytes);
        assert(back->Ok_0->offset =~= self->offset);
        assert(back->Ok_0->size =~= self->size);
    }

    proof fn lemma_encoding_of_leading(bytes: Seq<u8>) {
    }

    fn encoded_size() -> (n: usize) {
        Self::ENCODED_LEN
    }

    fn encode_to(&self, out: &mut Vec<u8>) {
        match self {
            BlockObject::V0 { offset, size } => {
                out.push(0);
                out.push(offset[0]);
                out.push(offset[1]);
                out.push(offset[2]);
                out.push(size[0]);
                out.push(size[1]);
                out.push(size[2]);
            },
        }
    }

    fn decode_at(bytes: &[u8], at: usize) -> (r: Result<Self, DecodeError>) {
        if at >= bytes.len() {
            return Err(DecodeError::UnexpectedEnd);
        }
        if bytes[at] != 0 {
            return Err(DecodeError::UnknownVariant);
        }
        if bytes.len() - at < Self::ENCODED_LEN {
            return Err(DecodeError::UnexpectedEnd);
        }
        let offset: [u8; 3] = [bytes[at + 1], bytes[at + 2], bytes[at + 3]];
        let size: [u8; 3] = [bytes[at + 4], bytes[at + 5], bytes[at + 6]];
        let object = BlockObject::V0 { offset, size };
        Ok(object)
    }
}

impl PartialEq for BlockObject {
    fn eq(&self, other: &Self) -> (r: bool) {
        match (self, other) {
            (
                BlockObject::V0 { offset, size },
                BlockObject::V0 { offset: other_offset, size: other_size },
            ) => same_bytes(offset, other_offset) && same_bytes(size, other_size),
        }
    }
}

impl vstd::std_specs::cmp::PartialEqSpecImpl for BlockObject {
    open spec fn obeys_eq_spec() -> bool {
        true
    }

    open spec fn eq_spec(&self, other: &Self) -> bool {
        self->offset == other->offset && self->size == other->size
    }
}

impl PartialOrd for BlockObject {
    fn partial_cmp(&self, other: &Self) -> (r: Option<Ordering>) {
        match (self, other) {
            (
                BlockObject::V0 { offset, size },
                BlockObject::V0 { offset: other_offset, size: other_size },
            ) => {
                proof {
                    lemma_bytes_total(*offset, *other_offset);
                    lemma_bytes_total(*size, *other_size);
                }
                match compare_bytes(offset, other_offset) {
                    Ordering::Equal => Some(compare_bytes(size, other_size)),
                    unequal => Some(unequal),
                }
            },
        }
    }
}

impl vstd::std_specs::cmp::PartialOrdSpecImpl for BlockObject {
    open spec fn obeys_partial_cmp_spec() -> bool {
        true
    }

    open spec fn partial_cmp_spec(&self, other: &Self) -> Option<Ordering> {
        if self.precedes(*other) {
            Some(Ordering::Less)
        } else if other.precedes(*self) {
            Some(Ordering::Greater)
        } else {
            Some(Ordering::Equal)
        }
    }
}

/// Two records are equal exactly when they are the same value, and of two
/// records either one comes before the other or they are equal, never two
/// of these at once.
pub proof fn lemma_block_object_total(a: BlockObject, b: BlockObject)
    ensures
        a.eq_spec(&b) <==> a == b,
        a == b <==> (a->offset == b->offset && a->size == b->size),
        a.precedes(b) || a == b || b.precedes(a),
        !(a.precedes(b) && a == b),
        !(a.precedes(b) && b.precedes(a)),
        a.partial_cmp_spec(&b) == Some(Ordering::Less) <==> a.precedes(b),
        a.partial_cmp_spec(&b) == Some(Ordering::Equal) <==> a == b,
        a.partial_cmp_spec(&b) == Some(Ordering::Greater) <==> b.precedes(a),
{
    lemma_bytes_total(a->offset, b->offset);
    lemma_bytes_total(a->size, b->size);
}

/// What comes before a record comes before all that the record comes before.
pub proof fn lemma_block_object_transitive(a: BlockObject, b: BlockObject, c: BlockObject)
    requires
        a.precedes(b),
        b.precedes(c),
    ensures
        a.precedes(c),
{
}

/// The objects of one block, in the order in which they lie in it. The order
/// is kept as it is given, and an object may occur more than once.
#[derive(Debug, Eq, Ord, Hash)]
pub struct BlockObjectMapping {
    /// Objects stored inside of the block.
    pub objects: Vec<BlockObject>,
}

impl View for BlockObjectMapping {
    type V = Seq<BlockObject>;

    open spec fn view(&self) -> Seq<BlockObject> {
        self.objects@
    }
}

impl Clone for BlockObjectMapping {
    /// A copy of its own: the same objects in the same order.
    fn clone(&self) -> (r: Self)
        ensures
            r@ == self@,
    {
        let mut objects: Vec<BlockObject> = Vec::new();
        let mut i: usize = 0;
        while i < self.objects.len()
            invariant
                i <= self@.len(),
                objects@ == self@.take(i as int),
            decreases self@.len() - i,
        {
            objects.push(self.objects[i]);
            i += 1;
        }
        BlockObjectMapping { objects }
    }
}

impl Default for BlockObjectMapping {
    /// The mapping of a block without objects.
    fn default() -> (r: Self)
        ensures
            r@ == Seq::<BlockObject>::empty(),
            sequence_encoding(r@) == seq![0u8],
    {
        let r = BlockObjectMapping { objects: Vec::new() };
        proof {
            lemma_empty_sequence_encoding::<BlockObject>();
        }
        r
    }
}

impl BlockObjectMapping {
    /// The length prefix followed by the records of the objects, seven bytes
    /// each.
    pub fn encode(&self) -> (out: Vec<u8>)
        requires
            self@.len() <= u32::MAX,
        ensures
            out@ == sequence_encoding(self@),
            out@.len() == length_prefix(self@.len() as u32).len() + 7 * self@.len(),
            sequence_decoding::<BlockObject>(out@) == Ok::<Seq<BlockObject>, DecodeError>(self@),
    {
        proof {
            lemma_sequence_round_trip::<BlockObject>(self@);
        }
        encode_sequence(&self.objects)
    }

    /// Decodes a mapping from `bytes`, all of them.
    pub fn decode(bytes: &[u8]) -> (r: Result<Self, DecodeError>)
        ensures
            match r {
                Ok(mapping) => sequence_decoding::<BlockObject>(bytes@) == Ok::<
                    Seq<BlockObject>,
                    DecodeError,
                >(mapping@) && sequence_encoding(mapping@) == bytes@,
                Err(e) => sequence_decoding::<BlockObject>(bytes@) == Err::<
                    Seq<BlockObject>,
                    DecodeError,
                >(e),
            },
    {
        proof {
            lemma_sequence_canonical::<BlockObject>(bytes@);
        }
        match decode_sequence::<BlockObject>(bytes) {
            Ok(objects) => Ok(BlockObjectMapping { objects }),
            Err(e) => Err(e),
        }
    }
}

impl PartialEq for BlockObjectMapping {
    fn eq(&self, other: &Self) -> (r: bool) {
        let r = self.objects == other.objects;
        proof {
            if r {
                assert(self@ =~= other@);
            }
        }
        r
    }
}

impl vstd::std_specs::cmp::PartialEqSpecImpl for BlockObjectMapping {
    open spec fn obeys_eq_spec() -> bool {
        true
    }

    open spec fn eq_spec(&self, other: &Self) -> bool {
        self@ == other@
    }
}

impl PartialOrd for BlockObjectMapping {
    fn partial_cmp(&self, other: &Self) -> (r: Option<Ordering>) {
        compare_sequences(&self.objects, &other.objects)
    }
}

impl vstd::std_specs::cmp::PartialOrdSpecImpl for BlockObjectMapping {
    open spec fn obeys_partial_cmp_spec() -> bool {
        true
    }

    open spec fn partial_cmp_spec(&self, other: &Self) -> Option<Ordering> {
        lexicographic(self@, other@)
    }
}

/// Two mappings compare as equal exactly when they hold the same objects
/// in the same order, which is when `==` holds of them.
pub proof fn lemma_block_mapping_equal(a: BlockObjectMapping, b: BlockObjectMapping)
    ensures
        a.partial_cmp_spec(&b) == Some(Ordering::Equal) <==> a@ == b@,
        a.eq_spec(&b) <==> a@ == b@,
{
    assert forall|x: BlockObject, y: BlockObject|
        #![trigger x.partial_cmp_spec(&y)]
        x.partial_cmp_spec(&y) == Some(Ordering::Equal) <==> x == y by {
        lemma_block_object_total(x, y);
    }
    lemma_lexicographic_equal(a@, b@);
}

} // verus!
