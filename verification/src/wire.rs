//! Byte-level specification of the wire format, and the laws that tie the
//! encoders and decoders together.
//!
//! Every executable encoder in this crate promises to produce exactly the
//! byte sequence given by one of the `spec_encode_*` functions here, and
//! every executable decoder promises to behave exactly as the matching
//! `spec_parse_*` function.  The `lemma_*_round_trip` proofs state the
//! round-trip guarantee once and for all at this level: decoding an encoded
//! value yields the value back, consumes exactly the encoding's bytes, and
//! leaves any appended suffix untouched.

use vstd::arithmetic::div_mod::{lemma_div_denominator, lemma_fundamental_div_mod};
use vstd::prelude::*;
use vstd::utf8::{
    decode_utf8, decode_utf8_encode_utf8, encode_utf8, encode_utf8_decode_utf8,
    encode_utf8_valid_utf8, valid_utf8,
};

use crate::error::ParseError;

verus! {

/// Largest value a variable-length integer can carry on the wire: four
/// base-128 digits of seven bits each.
pub const VARINT_MAX: u32 = 268435455;

/// Largest byte length the two-byte prefix of a string or a binary blob
/// can declare.
pub const LENGTH_PREFIX_MAX: usize = 65535;

// ---------------------------------------------------------------------------
// Fixed-width big-endian integers
// ---------------------------------------------------------------------------

/// The two big-endian bytes of a two-byte integer.
pub open spec fn be16(v: u16) -> Seq<u8> {
    seq![(v / 256) as u8, (v % 256) as u8]
}

/// The value carried by two big-endian bytes.
pub open spec fn be16_value(b0: u8, b1: u8) -> u16 {
    (b0 * 256 + b1) as u16
}

/// The four big-endian bytes of a four-byte integer.
pub open spec fn be32(v: u32) -> Seq<u8> {
    seq![
        (v / 16777216) as u8,
        ((v / 65536) % 256) as u8,
        ((v / 256) % 256) as u8,
        (v % 256) as u8,
    ]
}

/// The value carried by four big-endian bytes.
pub open spec fn be32_value(b0: u8, b1: u8, b2: u8, b3: u8) -> u32 {
    (b0 * 16777216 + b1 * 65536 + b2 * 256 + b3) as u32
}

// ---------------------------------------------------------------------------
// Primitive parsers: each consumes a byte-exact prefix and returns the
// decoded value together with the unconsumed suffix.
// ---------------------------------------------------------------------------

/// Consume one byte.
pub open spec fn spec_parse_byte(b: Seq<u8>) -> Result<(u8, Seq<u8>), ParseError> {
    if b.len() >= 1 {
        Ok((b[0], b.skip(1)))
    } else {
        Err(ParseError::TruncatedBuffer)
    }
}

/// Consume a two-byte big-endian integer.
pub open spec fn spec_parse_two_byte_int(b: Seq<u8>) -> Result<(u16, Seq<u8>), ParseError> {
    if b.len() >= 2 {
        Ok((be16_value(b[0], b[1]), b.skip(2)))
    } else {
        Err(ParseError::TruncatedBuffer)
    }
}

/// Consume a four-byte big-endian integer.
pub open spec fn spec_parse_four_byte_int(b: Seq<u8>) -> Result<(u32, Seq<u8>), ParseError> {
    if b.len() >= 4 {
        Ok((be32_value(b[0], b[1], b[2], b[3]), b.skip(4)))
    } else {
        Err(ParseError::TruncatedBuffer)
    }
}

// ---------------------------------------------------------------------------
// Variable-length integers: base-128 digits, least significant first, the
// high bit of each byte set exactly when more digits follow, at most four
// digits.
// ---------------------------------------------------------------------------

/// The seven-bit digit carried by one varint byte.
pub open spec fn varint_digit(b: u8) -> u32 {
    (b % 128) as u32
}

/// True when the byte announces that more digits follow.
pub open spec fn has_continuation_bit(b: u8) -> bool {
    b >= 128
}

/// The wire encoding of a variable-length integer.
pub open spec fn spec_encode_varint(v: u32) -> Seq<u8>
    decreases v,
{
    if v < 128 {
        seq![v as u8]
    } else {
        seq![(v % 128 + 128) as u8] + spec_encode_varint(v / 128)
    }
}

/// Consume a variable-length integer, returning its value and how many
/// bytes it occupied.  A buffer that ends while the continuation bit is
/// still set is truncated; a fourth digit that still carries the
/// continuation bit makes the integer malformed.
pub open spec fn spec_parse_varint(b: Seq<u8>) -> Result<(u32, int), ParseError> {
    if b.len() >= 1 && !has_continuation_bit(b[0]) {
        Ok((varint_digit(b[0]), 1))
    } else if b.len() >= 2 && !has_continuation_bit(b[1]) {
        Ok(((varint_digit(b[0]) + 128 * varint_digit(b[1])) as u32, 2))
    } else if b.len() >= 3 && !has_continuation_bit(b[2]) {
        Ok(
            (
                (varint_digit(b[0]) + 128 * varint_digit(b[1]) + 16384 * varint_digit(
                    b[2],
                )) as u32,
                3,
            ),
        )
    } else if b.len() >= 4 && !has_continuation_bit(b[3]) {
        Ok(
            (
                (varint_digit(b[0]) + 128 * varint_digit(b[1]) + 16384 * varint_digit(b[2])
                    + 2097152 * varint_digit(b[3])) as u32,
                4,
            ),
        )
    } else if b.len() < 4 {
        Err(ParseError::TruncatedBuffer)
    } else {
        Err(ParseError::MalformedVariableLengthInt)
    }
}

// ---------------------------------------------------------------------------
// Length-prefixed strings and binary data
// ---------------------------------------------------------------------------

/// The wire encoding of a UTF-8 string: a two-byte big-endian byte-length
/// prefix followed by the string's UTF-8 bytes.
pub open spec fn spec_encode_utf8_string(s: Seq<char>) -> Seq<u8>
    recommends
        encode_utf8(s).len() <= LENGTH_PREFIX_MAX,
{
    be16(encode_utf8(s).len() as u16) + encode_utf8(s)
}

/// Consume a length-prefixed UTF-8 string.
pub open spec fn spec_parse_utf8_string(b: Seq<u8>) -> Result<(Seq<char>, Seq<u8>), ParseError> {
    if b.len() < 2 {
        Err(ParseError::TruncatedBuffer)
    } else {
        let n = be16_value(b[0], b[1]) as int;
        if b.len() < 2 + n {
            Err(ParseError::TruncatedBuffer)
        } else if !valid_utf8(b.subrange(2, 2 + n)) {
            Err(ParseError::InvalidUtf8)
        } else {
            Ok((decode_utf8(b.subrange(2, 2 + n)), b.skip(2 + n)))
        }
    }
}

/// The wire encoding of a string pair: key then value, each a
/// length-prefixed UTF-8 string.
pub open spec fn spec_encode_utf8_string_pair(k: Seq<char>, v: Seq<char>) -> Seq<u8>
    recommends
        encode_utf8(k).len() <= LENGTH_PREFIX_MAX,
        encode_utf8(v).len() <= LENGTH_PREFIX_MAX,
{
    spec_encode_utf8_string(k) + spec_encode_utf8_string(v)
}

/// Consume two consecutive length-prefixed UTF-8 strings.
pub open spec fn spec_parse_utf8_string_pair(b: Seq<u8>) -> Result<
    ((Seq<char>, Seq<char>), Seq<u8>),
    ParseError,
> {
    match spec_parse_utf8_string(b) {
        Ok((k, rest)) => match spec_parse_utf8_string(rest) {
            Ok((v, rest2)) => Ok(((k, v), rest2)),
            Err(e) => Err(e),
        },
        Err(e) => Err(e),
    }
}

/// The wire encoding of a binary blob: a two-byte big-endian length prefix
/// followed by the raw bytes.
pub open spec fn spec_encode_binary_data(d: Seq<u8>) -> Seq<u8>
    recommends
        d.len() <= LENGTH_PREFIX_MAX,
{
    be16(d.len() as u16) + d
}

/// Consume a length-prefixed binary blob.
pub open spec fn spec_parse_binary_data(b: Seq<u8>) -> Result<(Seq<u8>, Seq<u8>), ParseError> {
    if b.len() < 2 {
        Err(ParseError::TruncatedBuffer)
    } else {
        let n = be16_value(b[0], b[1]) as int;
        if b.len() < 2 + n {
            Err(ParseError::TruncatedBuffer)
        } else {
            Ok((b.subrange(2, 2 + n), b.skip(2 + n)))
        }
    }
}

// ---------------------------------------------------------------------------
// Round-trip laws
// ---------------------------------------------------------------------------

/// Law: a single byte decodes to itself and consumes exactly one byte,
/// leaving any appended suffix untouched.
pub proof fn lemma_byte_round_trip(v: u8, suffix: Seq<u8>)
    ensures
        spec_parse_byte(seq![v] + suffix) == Ok::<(u8, Seq<u8>), ParseError>((v, suffix)),
{
    assert((seq![v] + suffix).skip(1) =~= suffix);
}

/// Law: a two-byte integer round-trips through its big-endian encoding and
/// consumes exactly its two bytes, leaving any appended suffix untouched.
pub proof fn lemma_two_byte_int_round_trip(v: u16, suffix: Seq<u8>)
    ensures
        spec_parse_two_byte_int(be16(v) + suffix) == Ok::<(u16, Seq<u8>), ParseError>((v, suffix)),
{
    let b = be16(v) + suffix;
    lemma_fundamental_div_mod(v as int, 256);
    assert(be16_value(b[0], b[1]) == v);
    assert(b.skip(2) =~= suffix);
}

/// Law: a four-byte integer round-trips through its big-endian encoding and
/// consumes exactly its four bytes, leaving any appended suffix untouched.
pub proof fn lemma_four_byte_int_round_trip(v: u32, suffix: Seq<u8>)
    ensures
        spec_parse_four_byte_int(be32(v) + suffix) == Ok::<(u32, Seq<u8>), ParseError>(
            (v, suffix),
        ),
{
    let b = be32(v) + suffix;
    lemma_fundamental_div_mod(v as int, 256);
    lemma_fundamental_div_mod(v as int / 256, 256);
    lemma_fundamental_div_mod(v as int / 65536, 256);
    lemma_div_denominator(v as int, 256, 256);
    lemma_div_denominator(v as int, 65536, 256);
    assert(be32_value(b[0], b[1], b[2], b[3]) == v);
    assert(b.skip(4) =~= suffix);
}

/// The encoding of a value within the variable-length integer's range takes
/// at most four bytes.
pub proof fn lemma_varint_encoding_len(v: u32)
    requires
        v <= VARINT_MAX,
    ensures
        1 <= spec_encode_varint(v).len() <= 4,
{
    lemma_div_denominator(v as int, 128, 128);
    lemma_div_denominator(v as int, 16384, 128);
    if v < 128 {
    } else if v < 16384 {
        assert(spec_encode_varint(v / 128).len() == 1);
    } else if v < 2097152 {
        assert(spec_encode_varint(v / 16384).len() == 1);
        assert(spec_encode_varint(v / 128).len() == 2);
    } else {
        assert(spec_encode_varint(v / 2097152).len() == 1);
        assert(spec_encode_varint(v / 16384).len() == 2);
        assert(spec_encode_varint(v / 128).len() == 3);
    }
}

/// Law: a variable-length integer round-trips through its encoding and
/// consumes exactly the encoding's bytes, leaving any appended suffix
/// untouched.
pub proof fn lemma_variable_byte_int_round_trip(v: u32, suffix: Seq<u8>)
    requires
        v <= VARINT_MAX,
    ensures
        1 <= spec_encode_varint(v).len() <= 4,
        spec_parse_varint(spec_encode_varint(v) + suffix) == Ok::<(u32, int), ParseError>(
            (v, spec_encode_varint(v).len() as int),
        ),
{
    lemma_varint_encoding_len(v);
    let enc = spec_encode_varint(v);
    let b = enc + suffix;
    lemma_fundamental_div_mod(v as int, 128);
    lemma_fundamental_div_mod(v as int / 128, 128);
    lemma_fundamental_div_mod(v as int / 16384, 128);
    lemma_div_denominator(v as int, 128, 128);
    lemma_div_denominator(v as int, 16384, 128);
    if v < 128 {
        assert(enc =~= seq![v as u8]);
    } else if v < 16384 {
        assert(spec_encode_varint(v / 128) =~= seq![(v / 128) as u8]);
        assert(enc =~= seq![(v % 128 + 128) as u8, (v / 128) as u8]);
    } else if v < 2097152 {
        assert(spec_encode_varint(v / 16384) =~= seq![(v / 16384) as u8]);
        assert(spec_encode_varint(v / 128) =~= seq![
            ((v / 128) % 128 + 128) as u8,
            (v / 16384) as u8,
        ]);
        assert(enc =~= seq![
            (v % 128 + 128) as u8,
            ((v / 128) % 128 + 128) as u8,
            (v / 16384) as u8,
        ]);
    } else {
        assert(spec_encode_varint(v / 2097152) =~= seq![(v / 2097152) as u8]);
        assert(spec_encode_varint(v / 16384) =~= seq![
            ((v / 16384) % 128 + 128) as u8,
            (v / 2097152) as u8,
        ]);
        assert(spec_encode_varint(v / 128) =~= seq![
            ((v / 128) % 128 + 128) as u8,
            ((v / 16384) % 128 + 128) as u8,
            (v / 2097152) as u8,
        ]);
        assert(enc =~= seq![
            (v % 128 + 128) as u8,
            ((v / 128) % 128 + 128) as u8,
            ((v / 16384) % 128 + 128) as u8,
            (v / 2097152) as u8,
        ]);
    }
    assert(b.skip(enc.len() as int) =~= suffix);
}

/// Law: a buffer whose first four bytes all still carry the continuation
/// bit decodes to no integer: the variable-length integer is malformed.
pub proof fn lemma_varint_malformed(b: Seq<u8>)
    requires
        b.len() >= 4,
        forall|i: int| 0 <= i < 4 ==> has_continuation_bit(#[trigger] b[i]),
    ensures
        spec_parse_varint(b) == Err::<(u32, int), ParseError>(
            ParseError::MalformedVariableLengthInt,
        ),
{
}

/// Every value a variable-length integer can decode to lies within the
/// four-digit range.
pub proof fn lemma_varint_value_bounded(b: Seq<u8>)
    ensures
        spec_parse_varint(b) matches Ok(p) ==> p.0 <= VARINT_MAX && 1 <= p.1 <= 4,
{
}

/// Law: a UTF-8 string round-trips through its length-prefixed encoding and
/// consumes exactly the encoding's bytes, leaving any appended suffix
/// untouched.
pub proof fn lemma_utf8_string_round_trip(s: Seq<char>, suffix: Seq<u8>)
    requires
        encode_utf8(s).len() <= LENGTH_PREFIX_MAX,
    ensures
        spec_parse_utf8_string(spec_encode_utf8_string(s) + suffix) == Ok::<
            (Seq<char>, Seq<u8>),
            ParseError,
        >((s, suffix)),
{
    let e = encode_utf8(s);
    let n = e.len() as int;
    let b = spec_encode_utf8_string(s) + suffix;
    lemma_fundamental_div_mod(n, 256);
    assert(be16_value(b[0], b[1]) == n);
    assert(b.subrange(2, 2 + n) =~= e);
    encode_utf8_valid_utf8(s);
    encode_utf8_decode_utf8(s);
    assert(b.skip(2 + n) =~= suffix);
}

/// Law: a string pair round-trips through its encoding and consumes exactly
/// the encoding's bytes, leaving any appended suffix untouched.
pub proof fn lemma_utf8_string_pair_round_trip(k: Seq<char>, v: Seq<char>, suffix: Seq<u8>)
    requires
        encode_utf8(k).len() <= LENGTH_PREFIX_MAX,
        encode_utf8(v).len() <= LENGTH_PREFIX_MAX,
    ensures
        spec_parse_utf8_string_pair(spec_encode_utf8_string_pair(k, v) + suffix) == Ok::<
            ((Seq<char>, Seq<char>), Seq<u8>),
            ParseError,
        >(((k, v), suffix)),
{
    assert(spec_encode_utf8_string_pair(k, v) + suffix =~= spec_encode_utf8_string(k) + (
    spec_encode_utf8_string(v) + suffix));
    lemma_utf8_string_round_trip(k, spec_encode_utf8_string(v) + suffix);
    lemma_utf8_string_round_trip(v, suffix);
}

/// Law: a binary blob round-trips through its length-prefixed encoding and
/// consumes exactly the encoding's bytes, leaving any appended suffix
/// untouched.
pub proof fn lemma_binary_data_round_trip(d: Seq<u8>, suffix: Seq<u8>)
    requires
        d.len() <= LENGTH_PREFIX_MAX,
    ensures
        spec_parse_binary_data(spec_encode_binary_data(d) + suffix) == Ok::<
            (Seq<u8>, Seq<u8>),
            ParseError,
        >((d, suffix)),
{
    let n = d.len() as int;
    let b = spec_encode_binary_data(d) + suffix;
    lemma_fundamental_div_mod(n, 256);
    assert(be16_value(b[0], b[1]) == n);
    assert(b.subrange(2, 2 + n) =~= d);
    assert(b.skip(2 + n) =~= suffix);
}

/// A decoded string's own encoding fits the two-byte length prefix again:
/// what was parsed can always be re-encoded.
pub proof fn lemma_parsed_string_fits(b: Seq<u8>)
    ensures
        spec_parse_utf8_string(b) matches Ok(p) ==> encode_utf8(p.0).len()
            <= LENGTH_PREFIX_MAX,
{
    if b.len() >= 2 {
        let n = be16_value(b[0], b[1]) as int;
        if b.len() >= 2 + n && valid_utf8(b.subrange(2, 2 + n)) {
            decode_utf8_encode_utf8(b.subrange(2, 2 + n));
        }
    }
}

} // verus!
