//! The variable header: the protocol name and version, a flags byte, the
//! keep-alive interval and the (always empty) properties block.

use vstd::prelude::*;
use vstd::slice::slice_to_vec;
use vstd::utf8::{encode_utf8, is_ascii_chars, is_ascii_chars_encode_utf8};

use crate::common::{
    parse_byte, parse_two_byte_int, parse_utf8_string, parse_variable_byte_int, Bytes, TwoByteInt,
    UTF8String,
};
use crate::error::ParseError;
use crate::wire::{
    be16, lemma_two_byte_int_round_trip, lemma_utf8_string_round_trip, spec_encode_utf8_string,
    spec_parse_byte, spec_parse_two_byte_int, spec_parse_utf8_string, spec_parse_varint,
};

verus! {

/// The version byte that follows the protocol name on the wire.
pub const PROTOCOL_VERSION: u8 = 5;

/// The protocol name that opens every variable header.
pub open spec fn spec_protocol_name() -> Seq<char> {
    "MQTT"@
}

/// The protocol name is four ASCII characters, so its UTF-8 encoding is
/// four bytes long.
pub proof fn lemma_protocol_name_len()
    ensures
        encode_utf8(spec_protocol_name()).len() == 4,
{
    reveal_strlit("MQTT");
    assert("MQTT"@.len() == 4);
    assert(is_ascii_chars("MQTT"@)) by {
        assert forall|i: int| 0 <= i < "MQTT"@.len() implies '\0' <= #[trigger] "MQTT"@[i]
            <= '\u{7f}' by {
            if i == 0 {
                assert("MQTT"@[0] == 'M');
            } else if i == 1 {
                assert("MQTT"@[1] == 'Q');
            } else if i == 2 {
                assert("MQTT"@[2] == 'T');
            } else {
                assert("MQTT"@[3] == 'T');
            }
        }
    }
    is_ascii_chars_encode_utf8("MQTT"@);
}

/// The packet-type-independent metadata that follows the fixed header:
/// protocol name and version, a flags byte, the keep-alive interval in
/// seconds, and an empty properties block.
#[derive(Debug, PartialEq, Eq, Structural)]
pub struct VariableHeader {
    pub keep_alive: u16,
}

impl VariableHeader {
    /// The bytes that open every variable header: the length-prefixed
    /// protocol name followed by the version byte.
    pub open spec fn spec_protocol_bytes() -> Seq<u8> {
        spec_encode_utf8_string(spec_protocol_name()) + seq![PROTOCOL_VERSION]
    }

    /// The header's wire encoding: protocol bytes, a zero flags byte, the
    /// keep-alive interval, and a zero property length.
    pub open spec fn spec_bytes(&self) -> Seq<u8> {
        Self::spec_protocol_bytes() + seq![0u8] + be16(self.keep_alive) + seq![0u8]
    }

    /// Consume a variable header from the front of a buffer.  The protocol
    /// name, version and flags bytes are consumed but not inspected; a
    /// non-zero property length is rejected.
    pub open spec fn spec_from_bytes(b: Seq<u8>) -> Result<(VariableHeader, Seq<u8>), ParseError> {
        match spec_parse_utf8_string(b) {
            Err(e) => Err(e),
            Ok((_protocol_name, r1)) => match spec_parse_byte(r1) {
                Err(e) => Err(e),
                Ok((_protocol_version, r2)) => match spec_parse_byte(r2) {
                    Err(e) => Err(e),
                    Ok((_flag_byte, r3)) => match spec_parse_two_byte_int(r3) {
                        Err(e) => Err(e),
                        Ok((keep_alive, r4)) => match spec_parse_varint(r4) {
                            Err(e) => Err(e),
                            Ok((prop_len, n)) => if prop_len > 0 {
                                Err(ParseError::UnsupportedProperties)
                            } else {
                                Ok((VariableHeader { keep_alive }, r4.skip(n)))
                            },
                        },
                    },
                },
            },
        }
    }

    /// The length-prefixed protocol name followed by the version byte.
    pub fn protocol_bytes(&self) -> (r: Bytes)
        ensures
            r@ == Self::spec_protocol_bytes(),
    {
        proof {
            lemma_protocol_name_len();
        }
        let protocol_name = UTF8String::new("MQTT");
        let mut bytes = protocol_name.as_bytes();
        bytes.push(PROTOCOL_VERSION);
        proof {
            assert(bytes@ =~= Self::spec_protocol_bytes());
        }
        bytes
    }

    /// The flags byte; no flag is currently set.
    pub fn flag_bytes(&self) -> (r: Bytes)
        ensures
            r@ == seq![0u8],
    {
        let mut bytes: Bytes = Vec::new();
        bytes.push(0);
        proof {
            assert(bytes@ =~= seq![0u8]);
        }
        bytes
    }

    /// The keep-alive interval as a two-byte big-endian integer.
    pub fn keep_alive_bytes(&self) -> (r: Bytes)
        ensures
            r@ == be16(self.keep_alive),
    {
        TwoByteInt::new(self.keep_alive).as_bytes()
    }

    /// The property-length byte; the properties block is always empty.
    pub fn property_bytes(&self) -> (r: Bytes)
        ensures
            r@ == seq![0u8],
    {
        let mut bytes: Bytes = Vec::new();
        bytes.push(0);
        proof {
            assert(bytes@ =~= seq![0u8]);
        }
        bytes
    }

    /// A variable header with the given keep-alive interval.
    pub fn new(keep_alive: u16) -> (r: Self)
        ensures
            r == (VariableHeader { keep_alive }),
    {
        VariableHeader { keep_alive }
    }

    /// Decode a variable header, returning it together with the unconsumed
    /// suffix of the buffer.
    pub fn from_bytes(bytes: Bytes) -> (r: Result<(Self, Bytes), ParseError>)
        ensures
            match r {
                Ok((h, rest)) => Self::spec_from_bytes(bytes@) == Ok::<
                    (VariableHeader, Seq<u8>),
                    ParseError,
                >((h, rest@)),
                Err(e) => Self::spec_from_bytes(bytes@) == Err::<
                    (VariableHeader, Seq<u8>),
                    ParseError,
                >(e),
            },
    {
        let byte_slice: &[u8] = bytes.as_slice();
        match parse_utf8_string(byte_slice) {
            Err(e) => Err(e),
            Ok((_protocol_name, pn_leftover)) => match parse_byte(pn_leftover) {
                Err(e) => Err(e),
                Ok((_protocol_version, pv_leftover)) => match parse_byte(pv_leftover) {
                    Err(e) => Err(e),
                    Ok((_flag_byte, f_leftover)) => match parse_two_byte_int(f_leftover) {
                        Err(e) => Err(e),
                        Ok((keep_alive, ka_leftover)) => match parse_variable_byte_int(
                            ka_leftover,
                        ) {
                            Err(e) => Err(e),
                            Ok((prop_len, prop_len_leftover)) => {
                                if prop_len.value() > 0 {
                                    return Err(ParseError::UnsupportedProperties);
                                }
                                let variable_header = VariableHeader::new(keep_alive.value());
                                Ok((variable_header, slice_to_vec(prop_len_leftover)))
                            },
                        },
                    },
                },
            },
        }
    }

    /// Encode the header: protocol bytes, flags, keep-alive, property
    /// length.
    pub fn as_bytes(&self) -> (r: Bytes)
        ensures
            r@ == self.spec_bytes(),
    {
        let mut bytes = self.protocol_bytes();
        let mut flags = self.flag_bytes();
        let mut keep_alive = self.keep_alive_bytes();
        let mut properties = self.property_bytes();
        bytes.append(&mut flags);
        bytes.append(&mut keep_alive);
        bytes.append(&mut properties);
        proof {
            assert(bytes@ =~= self.spec_bytes());
        }
        bytes
    }

    /// The byte length of the encoded header.
    pub fn len(&self) -> (r: u32)
        ensures
            r == self.spec_bytes().len(),
    {
        proof {
            lemma_protocol_name_len();
        }
        let bytes = self.as_bytes();
        bytes.len() as u32
    }
}

/// The encoded variable header is always eleven bytes long.
pub proof fn lemma_variable_header_len(h: VariableHeader)
    ensures
        h.spec_bytes().len() == 11,
{
    lemma_protocol_name_len();
}

/// Law: a variable header round-trips through its encoding, consumes
/// exactly its own bytes, and leaves any appended suffix untouched.
pub proof fn lemma_variable_header_round_trip(h: VariableHeader, suffix: Seq<u8>)
    ensures
        VariableHeader::spec_from_bytes(h.spec_bytes() + suffix) == Ok::<
            (VariableHeader, Seq<u8>),
            ParseError,
        >((h, suffix)),
{
    lemma_protocol_name_len();
    let b = h.spec_bytes() + suffix;
    let t1 = seq![PROTOCOL_VERSION] + (seq![0u8] + (be16(h.keep_alive) + (seq![0u8] + suffix)));
    assert(b =~= spec_encode_utf8_string(spec_protocol_name()) + t1);
    lemma_utf8_string_round_trip(spec_protocol_name(), t1);
    let t2 = seq![0u8] + (be16(h.keep_alive) + (seq![0u8] + suffix));
    assert(t1.skip(1) =~= t2);
    let t3 = be16(h.keep_alive) + (seq![0u8] + suffix);
    assert(t2.skip(1) =~= t3);
    lemma_two_byte_int_round_trip(h.keep_alive, seq![0u8] + suffix);
    let t4 = seq![0u8] + suffix;
    assert(!crate::wire::has_continuation_bit(t4[0]));
    assert(t4.skip(1) =~= suffix);
}

} // verus!
