//! Errors of the message codec.

use vstd::prelude::*;

verus! {

/// Why a payload could not be decoded.
#[derive(Clone, Copy, Debug, PartialEq, Eq, Structural)]
pub enum DecodeError {
    /// The payload ends before the layout of its message type does.
    Incomplete,
    /// Whole bytes are left after the message and its padding.
    TrailingData,
}

/// Why a message could not be encoded.
#[derive(Clone, Copy, Debug, PartialEq, Eq, Structural)]
pub enum EncodeError {
    /// A field holds a value that its width cannot represent.
    ValueOutOfRange,
    /// A repeated group's length differs from the count that the header implies.
    CountMismatch,
    /// The padding does not bring the message to a whole number of bytes.
    BadPadding,
    /// The header's message number is not one of the message's type.
    WrongMessageNumber,
    /// The message is an unsupported-type marker, which has no encoding.
    UnsupportedType,
}

} // verus!
