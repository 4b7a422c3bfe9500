//! The ways a byte buffer can fail to decode.

use vstd::prelude::*;

verus! {

/// Why decoding a buffer failed.
///
/// Every decoder in this crate reports failure through one of these kinds;
/// primitive-level errors propagate unchanged through header, payload and
/// packet decoding.
#[derive(Clone, Copy, Debug, PartialEq, Eq, Structural)]
pub enum ParseError {
    /// Fewer bytes were available than a field declares.
    TruncatedBuffer,
    /// A variable-length integer still had its continuation bit set after
    /// the last permitted digit.
    MalformedVariableLengthInt,
    /// A length-prefixed string's bytes are not valid UTF-8.
    InvalidUtf8,
    /// A variable header declared a non-empty properties block, which the
    /// codec does not support.
    UnsupportedProperties,
    /// The first byte's packet-type nibble has no registered packet kind.
    UnknownPacketType,
}

} // verus!
