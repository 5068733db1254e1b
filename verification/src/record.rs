//! What the record types have in common on the wire: each takes a fixed
//! number of bytes, and a sequence of them is a length prefix followed by
//! the records one after the other.

use crate::error::DecodeError;
use crate::wire::{
    get_length, le_bytes, leading_length, lemma_leading_length, lemma_length_prefix_len,
    length_prefix, put_length,
};
use vstd::prelude::*;

verus! {

/// A value with a binary encoding of fixed length.
pub trait Record: Sized {
    /// The number of bytes that every value of the type takes.
    spec fn encoded_len() -> nat;

    /// The bytes that stand for `self`.
    spec fn encoding(&self) -> Seq<u8>;

    /// What reading one value from the start of `bytes` gives. Bytes after
    /// the value play no part.
    spec fn leading(bytes: Seq<u8>) -> Result<Self, DecodeError>;

    /// Every encoding has the type's length, which is not zero.
    proof fn lemma_encoding_len(&self)
        ensures
            Self::encoded_len() > 0,
            self.encoding().len() == Self::encoded_len(),
    ;

    /// Reading from an encoding gives the value back, whatever follows it.
    proof fn lemma_leading_of_encoding(&self, rest: Seq<u8>)
        ensures
            Self::leading(self.encoding() + rest) == Ok::<Self, DecodeError>(*self),
    ;

    /// Only a value's own encoding reads as that value.
    proof fn lemma_encoding_of_leading(bytes: Seq<u8>)
        ensures
            Self::leading(bytes) matches Ok(value) ==> value.encoding().is_prefix_of(bytes),
    ;

    /// The number of bytes that every value of the type takes.
    fn encoded_size() -> (n: usize)
        ensures
            n == Self::encoded_len(),
    ;

    /// Appends the encoding of `self`.
    fn encode_to(&self, out: &mut Vec<u8>)
        ensures
            final(out)@ == old(out)@ + self.encoding(),
    ;

    /// Reads one value from `bytes`, starting at `at`.
    fn decode_at(bytes: &[u8], at: usize) -> (r: Result<Self, DecodeError>)
        requires
            at <= bytes@.len(),
        ensures
            r == Self::leading(bytes@.skip(at as int)),
    ;
}

/// What decoding `bytes` as one value gives: the value that its start reads
/// as, unless bytes are left over.
pub open spec fn decoding<T: Record>(bytes: Seq<u8>) -> Result<T, DecodeError> {
    match T::leading(bytes) {
        Ok(value) => if bytes.len() == T::encoded_len() {
            Ok(value)
        } else {
            Err(DecodeError::TrailingBytes)
        },
        Err(e) => Err(e),
    }
}

/// Decoding the encoding of a value gives the value back.
pub proof fn lemma_round_trip<T: Record>(value: T)
    ensures
        decoding::<T>(value.encoding()) == Ok::<T, DecodeError>(value),
{
    value.lemma_encoding_len();
    value.lemma_leading_of_encoding(Seq::empty());
}

/// A byte string decodes to a value only if it is the value's encoding.
pub proof fn lemma_canonical<T: Record>(bytes: Seq<u8>)
    ensures
        decoding::<T>(bytes) matches Ok(value) ==> value.encoding() == bytes,
{
    T::lemma_encoding_of_leading(bytes);
    if let Ok(value) = decoding::<T>(bytes) {
        value.lemma_encoding_len();
    }
}

/// The encoding of `value` as a vector of its own.
pub fn encode_record<T: Record>(value: &T) -> (out: Vec<u8>)
    ensures
        out@ == value.encoding(),
{
    let mut out: Vec<u8> = Vec::new();
    value.encode_to(&mut out);
    out
}

/// Decodes `bytes`, all of them, as one value.
pub fn decode_record<T: Record>(bytes: &[u8]) -> (r: Result<T, DecodeError>)
    ensures
        r == decoding::<T>(bytes@),
{
    assert(bytes@.skip(0) =~= bytes@);
    match T::decode_at(bytes, 0) {
        Ok(value) => if bytes.len() == T::encoded_size() {
            Ok(value)
        } else {
            Err(DecodeError::TrailingBytes)
        },
        Err(e) => Err(e),
    }
}

/// The encodings of `items`, one after the other.
pub open spec fn items_encoding<T: Record>(items: Seq<T>) -> Seq<u8>
    decreases items.len(),
{
    if items.len() == 0 {
        Seq::empty()
    } else {
        items[0].encoding() + items_encoding(items.skip(1))
    }
}

/// The bytes that stand for a sequence: the prefix that gives the number of
/// items, then the items in their order.
pub open spec fn sequence_encoding<T: Record>(items: Seq<T>) -> Seq<u8>
    recommends
        items.len() <= u32::MAX,
{
    length_prefix(items.len() as u32) + items_encoding(items)
}

/// What decoding `bytes` as exactly `count` items gives. The items are read
/// in order, the first that fails gives the error, and bytes left over after
/// the last are an error too.
pub open spec fn items_decoding<T: Record>(bytes: Seq<u8>, count: nat) -> Result<
    Seq<T>,
    DecodeError,
>
    decreases count,
{
    if count == 0 {
        if bytes.len() == 0 {
            Ok(Seq::empty())
        } else {
            Err(DecodeError::TrailingBytes)
        }
    } else {
        match T::leading(bytes) {
            Ok(first) => after(
                seq![first],
                items_decoding::<T>(bytes.skip(T::encoded_len() as int), (count - 1) as nat),
            ),
            Err(e) => Err(e),
        }
    }
}

/// The items `done` followed by the items of `rest`, or the error of `rest`.
pub open spec fn after<T>(done: Seq<T>, rest: Result<Seq<T>, DecodeError>) -> Result<
    Seq<T>,
    DecodeError,
> {
    match rest {
        Ok(more) => Ok(done + more),
        Err(e) => Err(e),
    }
}

/// What decoding `bytes` as a sequence gives: the length prefix is read
/// first, then as many items as it announces.
pub open spec fn sequence_decoding<T: Record>(bytes: Seq<u8>) -> Result<Seq<T>, DecodeError> {
    match leading_length(bytes) {
        Some(count) => items_decoding::<T>(
            bytes.skip(length_prefix(count).len() as int),
            count as nat,
        ),
        None => Err(DecodeError::InvalidLength),
    }
}

/// Adding an item at the end adds its encoding at the end.
pub proof fn lemma_items_encoding_push<T: Record>(items: Seq<T>, last: T)
    ensures
        items_encoding(items.push(last)) == items_encoding(items) + last.encoding(),
    decreases items.len(),
{
    if items.len() == 0 {
        assert(items.push(last).skip(1) =~= Seq::<T>::empty());
        assert(items_encoding(Seq::<T>::empty()) =~= Seq::<u8>::empty());
    } else {
        lemma_items_encoding_push(items.skip(1), last);
        assert(items.push(last).skip(1) =~= items.skip(1).push(last));
    }
}

/// The encodings of `n` items take `n` times the length of one.
pub proof fn lemma_items_encoding_len<T: Record>(items: Seq<T>)
    ensures
        items_encoding(items).len() == items.len() * T::encoded_len(),
    decreases items.len(),
{
    if items.len() > 0 {
        items[0].lemma_encoding_len();
        lemma_items_encoding_len(items.skip(1));
        assert(items.len() * T::encoded_len() == T::encoded_len() + (items.len() - 1)
            * T::encoded_len()) by (nonlinear_arith);
    }
}

/// Decoding the encodings of some items, as that many items, gives them back.
pub proof fn lemma_items_round_trip<T: Record>(items: Seq<T>)
    ensures
        items_decoding::<T>(items_encoding(items), items.len()) == Ok::<Seq<T>, DecodeError>(items),
    decreases items.len(),
{
    if items.len() > 0 {
        let first = items[0];
        let rest = items_encoding(items.skip(1));
        first.lemma_encoding_len();
        first.lemma_leading_of_encoding(rest);
        lemma_items_round_trip(items.skip(1));
        assert((first.encoding() + rest).skip(T::encoded_len() as int) =~= rest);
        assert(seq![first] + items.skip(1) =~= items);
    } else {
        assert(items =~= Seq::<T>::empty());
    }
}

/// Bytes decode to some items only if they are the encodings of those items.
pub proof fn lemma_items_canonical<T: Record>(bytes: Seq<u8>, count: nat)
    ensures
        items_decoding::<T>(bytes, count) matches Ok(items) ==> items.len() == count
            && items_encoding(items) == bytes,
    decreases count,
{
    if count > 0 {
        T::lemma_encoding_of_leading(bytes);
        lemma_items_canonical::<T>(bytes.skip(T::encoded_len() as int), (count - 1) as nat);
        if let Ok(items) = items_decoding::<T>(bytes, count) {
            let first = T::leading(bytes)->Ok_0;
            let others = items_decoding::<T>(
                bytes.skip(T::encoded_len() as int),
                (count - 1) as nat,
            )->Ok_0;
            first.lemma_encoding_len();
            assert(items.skip(1) =~= others);
        }
    }
}

/// Decoding the encoding of a sequence gives the sequence back.
pub proof fn lemma_sequence_round_trip<T: Record>(items: Seq<T>)
    requires
        items.len() <= u32::MAX,
    ensures
        sequence_decoding::<T>(sequence_encoding(items)) == Ok::<Seq<T>, DecodeError>(items),
{
    let count = items.len() as u32;
    let body = items_encoding(items);
    lemma_leading_length(count, body);
    lemma_items_round_trip(items);
    assert((length_prefix(count) + body).skip(length_prefix(count).len() as int) =~= body);
}

/// Bytes decode to a sequence only if they are the encoding of that
/// sequence: no sequence has two encodings.
pub proof fn lemma_sequence_canonical<T: Record>(bytes: Seq<u8>)
    ensures
        sequence_decoding::<T>(bytes) matches Ok(items) ==> items.len() <= u32::MAX
            && sequence_encoding(items) == bytes,
{
    if let Some(count) = leading_length(bytes) {
        let prefix = length_prefix(count);
        lemma_items_canonical::<T>(bytes.skip(prefix.len() as int), count as nat);
    }
}

/// The sequence without items is the single byte 0.
pub proof fn lemma_empty_sequence_encoding<T: Record>()
    ensures
        sequence_encoding(Seq::<T>::empty()) == seq![0u8],
{
    reveal_with_fuel(le_bytes, 2);
}

/// Encodes a sequence of records.
pub fn encode_sequence<T: Record>(items: &Vec<T>) -> (out: Vec<u8>)
    requires
        items@.len() <= u32::MAX,
    ensures
        out@ == sequence_encoding(items@),
        out@.len() == length_prefix(items@.len() as u32).len() + items@.len() * T::encoded_len(),
{
    proof {
        lemma_items_encoding_len(items@);
    }
    let mut out: Vec<u8> = Vec::new();
    put_length(&mut out, items.len() as u32);
    let ghost prefix = out@;
    let mut i: usize = 0;
    while i < items.len()
        invariant
            i <= items@.len(),
            out@ == prefix + items_encoding(items@.take(i as int)),
        decreases items@.len() - i,
    {
        items[i].encode_to(&mut out);
        proof {
            lemma_items_encoding_push(items@.take(i as int), items@[i as int]);
            assert(items@.take(i as int).push(items@[i as int]) =~= items@.take(i + 1));
        }
        i += 1;
    }
    assert(items@.take(i as int) =~= items@);
    out
}

/// Decodes a sequence of records from `bytes`, all of them.
pub fn decode_sequence<T: Record>(bytes: &[u8]) -> (r: Result<Vec<T>, DecodeError>)
    ensures
        match r {
            Ok(items) => sequence_decoding::<T>(bytes@) == Ok::<Seq<T>, DecodeError>(items@),
            Err(e) => sequence_decoding::<T>(bytes@) == Err::<Seq<T>, DecodeError>(e),
        },
{
    let (count, used) = match get_length(bytes) {
        Ok(found) => found,
        Err(e) => {
            return Err(e);
        },
    };
    proof {
        lemma_length_prefix_len(count);
    }
    let ghost whole = items_decoding::<T>(bytes@.skip(used as int), count as nat);
    let end: usize = bytes.len();
    let mut items: Vec<T> = Vec::new();
    let mut at: usize = used;
    let mut i: u32 = 0;
    while i < count
        invariant
            i <= count,
            at <= end == bytes@.len(),
            sequence_decoding::<T>(bytes@) == whole,
            whole == after(items@, items_decoding::<T>(bytes@.skip(at as int), (count - i) as nat)),
        decreases count - i,
    {
        let ghost here = bytes@.skip(at as int);
        match T::decode_at(bytes, at) {
            Ok(item) => {
                proof {
                    T::lemma_encoding_of_leading(here);
                    item.lemma_encoding_len();
                    assert(here.skip(T::encoded_len() as int) =~= bytes@.skip(
                        at + T::encoded_len(),
                    ));
                    let later = items_decoding::<T>(
                        bytes@.skip(at + T::encoded_len()),
                        (count - i - 1) as nat,
                    );
                    if let Ok(more) = later {
                        assert(items@ + (seq![item] + more) =~= items@.push(item) + more);
                    }
                }
                items.push(item);
                at = at + T::encoded_size();
                i += 1;
            },
            Err(e) => {
                return Err(e);
            },
        }
    }
    if at < end {
        Err(DecodeError::TrailingBytes)
    } else {
        Ok(items)
    }
}

} // verus!
