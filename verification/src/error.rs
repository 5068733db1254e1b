//! The ways in which decoding a byte string can fail.

use vstd::prelude::*;

verus! {

/// Why a byte string is not the encoding of a value.
#[derive(Clone, Copy, Debug, PartialEq, Eq, Structural, Hash)]
pub enum DecodeError {
    /// The input ends before the value does.
    UnexpectedEnd,
    /// The tag byte names a variant that this version does not know.
    UnknownVariant,
    /// Bytes remain after the value.
    TrailingBytes,
    /// The input does not start with a length prefix in canonical form.
    InvalidLength,
}

} // verus!
