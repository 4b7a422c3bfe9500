//! The primitive data types of the wire format and their encoders and
//! decoders.
//!
//! Each `parse_*` function consumes one primitive from the front of a byte
//! slice and returns the decoded value together with the unconsumed suffix;
//! it never reads past the primitive's byte-exact footprint and never
//! touches the caller's buffer.  Each `as_bytes` method produces exactly
//! the byte sequence the wire specification prescribes.

use vstd::prelude::*;
use vstd::slice::{slice_subrange, slice_to_vec};
use vstd::utf8::{encode_utf8, encode_utf8_decode_utf8, valid_utf8};

use crate::error::ParseError;
use crate::wire::{
    be16, be16_value, be32, lemma_parsed_string_fits, lemma_varint_value_bounded,
    spec_encode_binary_data, spec_encode_utf8_string, spec_encode_utf8_string_pair,
    spec_encode_varint, spec_parse_binary_data, spec_parse_byte, spec_parse_four_byte_int,
    spec_parse_two_byte_int, spec_parse_utf8_string, spec_parse_utf8_string_pair,
    spec_parse_varint, LENGTH_PREFIX_MAX, VARINT_MAX,
};

verus! {

/// One octet of the wire format.
pub type Byte = u8;

/// An owned byte buffer.
pub type Bytes = Vec<Byte>;

// ---------------------------------------------------------------------------
// Primitive value types
// ---------------------------------------------------------------------------

/// A two-byte big-endian integer.
#[derive(Debug, PartialEq)]
pub struct TwoByteInt(u16);

/// A four-byte big-endian integer.
#[derive(Debug, PartialEq)]
pub struct FourByteInt(u32);

/// A variable-length integer of at most four base-128 digits.
#[derive(Debug, PartialEq)]
pub struct VariableByteInt(u32);

/// A length-prefixed UTF-8 string.
#[derive(Debug, PartialEq)]
pub struct UTF8String(String);

/// Two length-prefixed UTF-8 strings: a key followed by a value.
#[derive(Debug, PartialEq)]
pub struct UTF8StringPair(String, String);

/// A length-prefixed blob of raw bytes.
#[derive(Debug, PartialEq)]
pub struct BinaryData(Bytes);

impl View for TwoByteInt {
    type V = u16;

    closed spec fn view(&self) -> u16 {
        self.0
    }
}

impl TwoByteInt {
    pub fn new(val: u16) -> (r: Self)
        ensures
            r@ == val,
    {
        TwoByteInt(val)
    }

    pub fn value(&self) -> (r: u16)
        ensures
            r == self@,
    {
        self.0
    }

    /// The two big-endian bytes of the integer.
    pub fn as_bytes(&self) -> (r: Bytes)
        ensures
            r@ == be16(self@),
    {
        let mut bytes: Bytes = Vec::new();
        bytes.push((self.0 / 256) as u8);
        bytes.push((self.0 % 256) as u8);
        proof {
            assert(bytes@ =~= be16(self.0));
        }
        bytes
    }
}

impl View for FourByteInt {
    type V = u32;

    closed spec fn view(&self) -> u32 {
        self.0
    }
}

impl FourByteInt {
    pub fn new(val: u32) -> (r: Self)
        ensures
            r@ == val,
    {
        FourByteInt(val)
    }

    pub fn value(&self) -> (r: u32)
        ensures
            r == self@,
    {
        self.0
    }

    /// The four big-endian bytes of the integer.
    pub fn as_bytes(&self) -> (r: Bytes)
        ensures
            r@ == be32(self@),
    {
        let mut bytes: Bytes = Vec::new();
        bytes.push((self.0 / 16777216) as u8);
        bytes.push(((self.0 / 65536) % 256) as u8);
        bytes.push(((self.0 / 256) % 256) as u8);
        bytes.push((self.0 % 256) as u8);
        proof {
            assert(bytes@ =~= be32(self.0));
        }
        bytes
    }
}

impl View for VariableByteInt {
    type V = u32;

    closed spec fn view(&self) -> u32 {
        self.0
    }
}

impl VariableByteInt {
    /// The value always fits the four-digit range of the encoding.
    #[verifier::type_invariant]
    closed spec fn type_inv(self) -> bool {
        self.0 <= VARINT_MAX
    }

    pub fn new(val: u32) -> (r: Self)
        requires
            val <= VARINT_MAX,
        ensures
            r@ == val,
    {
        VariableByteInt(val)
    }

    pub fn value(&self) -> (r: u32)
        ensures
            r == self@,
    {
        self.0
    }

    /// The base-128 encoding of the integer.
    pub fn as_bytes(&self) -> (r: Bytes)
        ensures
            r@ == spec_encode_varint(self@),
    {
        proof {
            use_type_invariant(self);
        }
        encode_variable_length_int(self.0)
    }
}

impl View for UTF8String {
    type V = Seq<char>;

    closed spec fn view(&self) -> Seq<char> {
        self.0@
    }
}

impl DeepView for UTF8String {
    type V = Seq<char>;

    open spec fn deep_view(&self) -> Seq<char> {
        self@
    }
}

impl UTF8String {
    /// The string's UTF-8 bytes always fit the two-byte length prefix.
    #[verifier::type_invariant]
    closed spec fn type_inv(self) -> bool {
        encode_utf8(self.0@).len() <= LENGTH_PREFIX_MAX
    }

    pub fn new(val: &str) -> (r: Self)
        requires
            encode_utf8(val@).len() <= LENGTH_PREFIX_MAX,
        ensures
            r@ == val@,
    {
        UTF8String(val.to_owned())
    }

    pub fn value(&self) -> (r: &str)
        ensures
            r@ == self@,
    {
        self.0.as_str()
    }

    /// The length-prefixed UTF-8 encoding of the string.
    pub fn as_bytes(&self) -> (r: Bytes)
        ensures
            r@ == spec_encode_utf8_string(self@),
    {
        proof {
            use_type_invariant(self);
        }
        encode_utf8_string(self.0.as_str())
    }
}

impl View for UTF8StringPair {
    type V = (Seq<char>, Seq<char>);

    closed spec fn view(&self) -> (Seq<char>, Seq<char>) {
        (self.0@, self.1@)
    }
}

impl UTF8StringPair {
    /// Both strings' UTF-8 bytes always fit their two-byte length prefixes.
    #[verifier::type_invariant]
    closed spec fn type_inv(self) -> bool {
        encode_utf8(self.0@).len() <= LENGTH_PREFIX_MAX && encode_utf8(self.1@).len()
            <= LENGTH_PREFIX_MAX
    }

    pub fn new(key: &str, val: &str) -> (r: Self)
        requires
            encode_utf8(key@).len() <= LENGTH_PREFIX_MAX,
            encode_utf8(val@).len() <= LENGTH_PREFIX_MAX,
        ensures
            r@ == (key@, val@),
    {
        UTF8StringPair(key.to_owned(), val.to_owned())
    }

    pub fn value(&self) -> (r: (&str, &str))
        ensures
            r.0@ == self@.0,
            r.1@ == self@.1,
    {
        (self.0.as_str(), self.1.as_str())
    }

    /// The concatenated encodings of key and value.
    pub fn as_bytes(&self) -> (r: Bytes)
        ensures
            r@ == spec_encode_utf8_string_pair(self@.0, self@.1),
    {
        proof {
            use_type_invariant(self);
        }
        let mut bytes = encode_utf8_string(self.0.as_str());
        let mut second = encode_utf8_string(self.1.as_str());
        bytes.append(&mut second);
        bytes
    }
}

impl View for BinaryData {
    type V = Seq<u8>;

    closed spec fn view(&self) -> Seq<u8> {
        self.0@
    }
}

impl BinaryData {
    /// The blob always fits the two-byte length prefix.
    #[verifier::type_invariant]
    closed spec fn type_inv(self) -> bool {
        self.0@.len() <= LENGTH_PREFIX_MAX
    }

    pub fn new(val: Bytes) -> (r: Self)
        requires
            val@.len() <= LENGTH_PREFIX_MAX,
        ensures
            r@ == val@,
    {
        BinaryData(val)
    }

    pub fn value(&self) -> (r: &[Byte])
        ensures
            r@ == self@,
    {
        self.0.as_slice()
    }

    /// The length-prefixed bytes of the blob.
    pub fn as_bytes(&self) -> (r: Bytes)
        ensures
            r@ == spec_encode_binary_data(self@),
    {
        proof {
            use_type_invariant(self);
        }
        let len: usize = self.0.len();
        let mut bytes: Bytes = Vec::new();
        bytes.push((len / 256) as u8);
        bytes.push((len % 256) as u8);
        bytes.extend_from_slice(self.0.as_slice());
        proof {
            assert(bytes@ =~= spec_encode_binary_data(self.0@));
        }
        bytes
    }
}

// ---------------------------------------------------------------------------
// Trusted boundary to the standard library's UTF-8 validation
// ---------------------------------------------------------------------------

/// Relies on `core::str::from_utf8`: it accepts exactly the byte sequences
/// that are valid UTF-8, and the returned string is a view of those very
/// bytes.
#[verifier::external_body]
fn bytes_to_string(b: &[u8]) -> (r: Option<String>)
    ensures
        match r {
            Some(s) => valid_utf8(b@) && encode_utf8(s@) == b@,
            None => !valid_utf8(b@),
        },
{
    match core::str::from_utf8(b) {
        Ok(s) => Some(s.to_string()),
        Err(_) => None,
    }
}

// ---------------------------------------------------------------------------
// Free encoding and decoding functions
// ---------------------------------------------------------------------------

/// Encode a value as a variable-length integer: base-128 digits, least
/// significant first, the high bit of each byte set exactly while more
/// digits follow.
pub fn encode_variable_length_int(value: u32) -> (r: Bytes)
    requires
        value <= VARINT_MAX,
    ensures
        r@ == spec_encode_varint(value),
{
    let mut bytes: Bytes = Vec::new();
    let mut cur: u32 = value;
    proof {
        assert(bytes@ + spec_encode_varint(cur) =~= spec_encode_varint(value));
    }
    loop
        invariant
            bytes@ + spec_encode_varint(cur) == spec_encode_varint(value),
        decreases cur,
    {
        let mut byte: u8 = (cur % 128) as u8;
        let next: u32 = cur / 128;
        if next > 0 {
            byte = byte + 128;
        }
        bytes.push(byte);
        if next == 0 {
            proof {
                assert(spec_encode_varint(cur) =~= seq![byte]);
                assert(bytes@ =~= spec_encode_varint(value));
            }
            return bytes;
        }
        proof {
            assert(spec_encode_varint(cur) =~= seq![byte] + spec_encode_varint(next));
            assert(bytes@ + spec_encode_varint(next) =~= spec_encode_varint(value));
        }
        cur = next;
    }
}

/// Decode a variable-length integer from the front of a buffer, returning
/// the value and the number of bytes it occupied.  A buffer that ends while
/// the continuation bit is still set is truncated; a fourth digit that
/// still carries the continuation bit makes the integer malformed.
pub fn decode_variable_length_int(bytes: &[Byte]) -> (r: Result<(u32, usize), ParseError>)
    ensures
        match r {
            Ok((v, n)) => spec_parse_varint(bytes@) == Ok::<(u32, int), ParseError>((v, n as int)),
            Err(e) => spec_parse_varint(bytes@) == Err::<(u32, int), ParseError>(e),
        },
{
    let n: usize = bytes.len();
    if n == 0 {
        return Err(ParseError::TruncatedBuffer);
    }
    let b0 = bytes[0];
    if b0 < 128 {
        return Ok((b0 as u32, 1));
    }
    if n == 1 {
        return Err(ParseError::TruncatedBuffer);
    }
    let b1 = bytes[1];
    if b1 < 128 {
        return Ok(((b0 - 128) as u32 + 128 * (b1 as u32), 2));
    }
    if n == 2 {
        return Err(ParseError::TruncatedBuffer);
    }
    let b2 = bytes[2];
    if b2 < 128 {
        return Ok(
            ((b0 - 128) as u32 + 128 * ((b1 - 128) as u32) + 16384 * (b2 as u32), 3),
        );
    }
    if n == 3 {
        return Err(ParseError::TruncatedBuffer);
    }
    let b3 = bytes[3];
    if b3 < 128 {
        return Ok(
            (
                (b0 - 128) as u32 + 128 * ((b1 - 128) as u32) + 16384 * ((b2 - 128) as u32)
                    + 2097152 * (b3 as u32),
                4,
            ),
        );
    }
    Err(ParseError::MalformedVariableLengthInt)
}

/// Encode a string as its two-byte big-endian byte-length prefix followed
/// by its UTF-8 bytes.
pub fn encode_utf8_string(string: &str) -> (r: Bytes)
    requires
        encode_utf8(string@).len() <= LENGTH_PREFIX_MAX,
    ensures
        r@ == spec_encode_utf8_string(string@),
{
    let len: usize = string.len();
    let mut bytes: Bytes = Vec::new();
    bytes.push((len / 256) as u8);
    bytes.push((len % 256) as u8);
    bytes.extend_from_slice(string.as_bytes());
    proof {
        assert(bytes@ =~= spec_encode_utf8_string(string@));
    }
    bytes
}

/// Decode a length-prefixed UTF-8 string from the front of a buffer,
/// returning the string and the unconsumed suffix.
pub fn decode_utf8_string(bytes: &[Byte]) -> (r: Result<(String, &[Byte]), ParseError>)
    ensures
        match r {
            Ok((s, rest)) => spec_parse_utf8_string(bytes@) == Ok::<
                (Seq<char>, Seq<u8>),
                ParseError,
            >((s@, rest@)),
            Err(e) => spec_parse_utf8_string(bytes@) == Err::<(Seq<char>, Seq<u8>), ParseError>(e),
        },
{
    if bytes.len() < 2 {
        return Err(ParseError::TruncatedBuffer);
    }
    let n: usize = (bytes[0] as usize) * 256 + (bytes[1] as usize);
    proof {
        assert(n == be16_value(bytes@[0], bytes@[1]));
    }
    if bytes.len() < 2 + n {
        return Err(ParseError::TruncatedBuffer);
    }
    let content = slice_subrange(bytes, 2, 2 + n);
    match bytes_to_string(content) {
        Some(s) => {
            let rest = slice_subrange(bytes, 2 + n, bytes.len());
            proof {
                encode_utf8_decode_utf8(s@);
            }
            Ok((s, rest))
        },
        None => Err(ParseError::InvalidUtf8),
    }
}

// ---------------------------------------------------------------------------
// Cursor-style parsers over byte slices
// ---------------------------------------------------------------------------

/// Consume one byte from the front of the buffer.
pub fn parse_byte(bytes: &[Byte]) -> (r: Result<(Byte, &[Byte]), ParseError>)
    ensures
        match r {
            Ok((v, rest)) => spec_parse_byte(bytes@) == Ok::<(u8, Seq<u8>), ParseError>(
                (v, rest@),
            ),
            Err(e) => spec_parse_byte(bytes@) == Err::<(u8, Seq<u8>), ParseError>(e),
        },
{
    if bytes.len() < 1 {
        return Err(ParseError::TruncatedBuffer);
    }
    let v = bytes[0];
    let rest = slice_subrange(bytes, 1, bytes.len());
    Ok((v, rest))
}

/// Consume a two-byte big-endian integer from the front of the buffer.
pub fn parse_two_byte_int(bytes: &[Byte]) -> (r: Result<(TwoByteInt, &[Byte]), ParseError>)
    ensures
        match r {
            Ok((v, rest)) => spec_parse_two_byte_int(bytes@) == Ok::<(u16, Seq<u8>), ParseError>(
                (v@, rest@),
            ),
            Err(e) => spec_parse_two_byte_int(bytes@) == Err::<(u16, Seq<u8>), ParseError>(e),
        },
{
    if bytes.len() < 2 {
        return Err(ParseError::TruncatedBuffer);
    }
    let val: u16 = (bytes[0] as u16) * 256 + (bytes[1] as u16);
    let rest = slice_subrange(bytes, 2, bytes.len());
    Ok((TwoByteInt(val), rest))
}

/// Consume a four-byte big-endian integer from the front of the buffer.
pub fn parse_four_byte_int(bytes: &[Byte]) -> (r: Result<(FourByteInt, &[Byte]), ParseError>)
    ensures
        match r {
            Ok((v, rest)) => spec_parse_four_byte_int(bytes@) == Ok::<(u32, Seq<u8>), ParseError>(
                (v@, rest@),
            ),
            Err(e) => spec_parse_four_byte_int(bytes@) == Err::<(u32, Seq<u8>), ParseError>(e),
        },
{
    if bytes.len() < 4 {
        return Err(ParseError::TruncatedBuffer);
    }
    let val: u32 = (bytes[0] as u32) * 16777216 + (bytes[1] as u32) * 65536 + (bytes[2] as u32)
        * 256 + (bytes[3] as u32);
    let rest = slice_subrange(bytes, 4, bytes.len());
    Ok((FourByteInt(val), rest))
}

/// Consume a variable-length integer from the front of the buffer.
pub fn parse_variable_byte_int(bytes: &[Byte]) -> (r: Result<
    (VariableByteInt, &[Byte]),
    ParseError,
>)
    ensures
        match r {
            Ok((v, rest)) => spec_parse_varint(bytes@) matches Ok(p) && p.0 == v@ && rest@
                == bytes@.skip(p.1),
            Err(e) => spec_parse_varint(bytes@) == Err::<(u32, int), ParseError>(e),
        },
{
    match decode_variable_length_int(bytes) {
        Ok((v, n)) => {
            proof {
                lemma_varint_value_bounded(bytes@);
            }
            let rest = slice_subrange(bytes, n, bytes.len());
            Ok((VariableByteInt(v), rest))
        },
        Err(e) => Err(e),
    }
}

/// Consume a length-prefixed UTF-8 string from the front of the buffer.
pub fn parse_utf8_string(bytes: &[Byte]) -> (r: Result<(UTF8String, &[Byte]), ParseError>)
    ensures
        match r {
            Ok((v, rest)) => spec_parse_utf8_string(bytes@) == Ok::<
                (Seq<char>, Seq<u8>),
                ParseError,
            >((v@, rest@)),
            Err(e) => spec_parse_utf8_string(bytes@) == Err::<(Seq<char>, Seq<u8>), ParseError>(e),
        },
{
    match decode_utf8_string(bytes) {
        Ok((s, rest)) => {
            proof {
                lemma_parsed_string_fits(bytes@);
            }
            Ok((UTF8String(s), rest))
        },
        Err(e) => Err(e),
    }
}

/// Consume two consecutive length-prefixed UTF-8 strings from the front of
/// the buffer.
pub fn parse_utf8_string_pair(bytes: &[Byte]) -> (r: Result<
    (UTF8StringPair, &[Byte]),
    ParseError,
>)
    ensures
        match r {
            Ok((v, rest)) => spec_parse_utf8_string_pair(bytes@) == Ok::<
                ((Seq<char>, Seq<char>), Seq<u8>),
                ParseError,
            >(((v@.0, v@.1), rest@)),
            Err(e) => spec_parse_utf8_string_pair(bytes@) == Err::<
                ((Seq<char>, Seq<char>), Seq<u8>),
                ParseError,
            >(e),
        },
{
    match decode_utf8_string(bytes) {
        Ok((key, key_leftover)) => {
            proof {
                lemma_parsed_string_fits(bytes@);
            }
            match decode_utf8_string(key_leftover) {
                Ok((val, leftover)) => {
                    proof {
                        lemma_parsed_string_fits(key_leftover@);
                    }
                    Ok((UTF8StringPair(key, val), leftover))
                },
                Err(e) => Err(e),
            }
        },
        Err(e) => Err(e),
    }
}

/// Consume a length-prefixed binary blob from the front of the buffer.
pub fn parse_binary_data(bytes: &[Byte]) -> (r: Result<(BinaryData, &[Byte]), ParseError>)
    ensures
        match r {
            Ok((v, rest)) => spec_parse_binary_data(bytes@) == Ok::<
                (Seq<u8>, Seq<u8>),
                ParseError,
            >((v@, rest@)),
            Err(e) => spec_parse_binary_data(bytes@) == Err::<(Seq<u8>, Seq<u8>), ParseError>(e),
        },
{
    if bytes.len() < 2 {
        return Err(ParseError::TruncatedBuffer);
    }
    let n: usize = (bytes[0] as usize) * 256 + (bytes[1] as usize);
    proof {
        assert(n == be16_value(bytes@[0], bytes@[1]));
    }
    if bytes.len() < 2 + n {
        return Err(ParseError::TruncatedBuffer);
    }
    let content = slice_to_vec(slice_subrange(bytes, 2, 2 + n));
    let rest = slice_subrange(bytes, 2 + n, bytes.len());
    Ok((BinaryData(content), rest))
}

} // verus!
