//! The fixed header: the always-present first part of a control packet,
//! carrying the packet-type nibble, the flag bits and the remaining length
//! of everything that follows.

use vstd::arithmetic::div_mod::lemma_fundamental_div_mod_converse;
use vstd::prelude::*;
use vstd::slice::slice_to_vec;

use crate::common::{parse_byte, parse_variable_byte_int, Bytes, VariableByteInt};
use crate::error::ParseError;
use crate::wire::{
    lemma_varint_encoding_len, lemma_variable_byte_int_round_trip, lemma_varint_value_bounded,
    spec_encode_varint, spec_parse_byte, spec_parse_varint, VARINT_MAX,
};

verus! {

/// The first part of every control packet: a packet-type code of four
/// bits, the duplicate/QoS/retain flag bits, and the declared byte length
/// of everything after this header.
#[derive(Debug, PartialEq, Eq, Structural)]
pub struct FixedHeader {
    pub packet_type_value: u8,
    pub dup: bool,
    pub qos: u8,
    pub retain: bool,
    pub remaining_length: u32,
}

impl FixedHeader {
    /// The fields fit their wire footprint: a four-bit type code, a
    /// quality-of-service level of at most two, and a remaining length
    /// within the variable-length integer's range.
    pub open spec fn wf(&self) -> bool {
        &&& self.packet_type_value < 16
        &&& self.qos <= 2
        &&& self.remaining_length <= VARINT_MAX
    }

    /// The flag nibble: retain in bit zero, the QoS level in bits one and
    /// two, duplicate in bit three.
    pub open spec fn spec_flags_byte(&self) -> u8 {
        ((if self.retain {
            1int
        } else {
            0int
        }) + (if self.qos == 1 {
            2int
        } else {
            0int
        }) + (if self.qos == 2 {
            4int
        } else {
            0int
        }) + (if self.dup {
            8int
        } else {
            0int
        })) as u8
    }

    /// The first byte on the wire: type nibble above the flag nibble.
    pub open spec fn spec_first_byte(&self) -> u8 {
        (self.packet_type_value * 16 + self.spec_flags_byte()) as u8
    }

    /// The header's wire encoding: the type/flags byte followed by the
    /// remaining length as a variable-length integer.
    pub open spec fn spec_bytes(&self) -> Seq<u8> {
        seq![self.spec_first_byte()] + spec_encode_varint(self.remaining_length)
    }

    /// Consume a fixed header from the front of a buffer.  The flag bits of
    /// the first byte are not mapped back onto the discrete flag fields;
    /// the decoded header carries the constructor's flag values.
    pub open spec fn spec_from_bytes(b: Seq<u8>) -> Result<(FixedHeader, Seq<u8>), ParseError> {
        match spec_parse_byte(b) {
            Ok((first, rest)) => match spec_parse_varint(rest) {
                Ok((v, n)) => Ok(
                    (
                        FixedHeader {
                            packet_type_value: (first / 16) as u8,
                            dup: false,
                            qos: 1,
                            retain: false,
                            remaining_length: v,
                        },
                        rest.skip(n),
                    ),
                ),
                Err(e) => Err(e),
            },
            Err(e) => Err(e),
        }
    }

    /// A header for the given packet type and remaining length, with the
    /// flag fields at their fixed default values.
    pub fn new(packet_type_value: u8, remaining_length: u32) -> (r: Self)
        requires
            packet_type_value < 16,
            remaining_length <= VARINT_MAX,
        ensures
            r == (FixedHeader {
                packet_type_value,
                dup: false,
                qos: 1,
                retain: false,
                remaining_length,
            }),
            r.wf(),
    {
        FixedHeader { packet_type_value, dup: false, qos: 1, retain: false, remaining_length }
    }

    /// Assemble the flag nibble from the discrete flag fields.
    pub fn flags_byte(&self) -> (r: u8)
        requires
            self.wf(),
        ensures
            r == self.spec_flags_byte(),
    {
        let mut flags: u8 = 0;
        if self.retain {
            flags = flags + 1;
        }
        if self.qos == 1 {
            flags = flags + 2;
        }
        if self.qos == 2 {
            flags = flags + 4;
        }
        if self.dup {
            flags = flags + 8;
        }
        flags
    }

    /// The remaining length as a variable-length integer.
    pub fn remaining_length_bytes(&self) -> (r: Bytes)
        requires
            self.wf(),
        ensures
            r@ == spec_encode_varint(self.remaining_length),
    {
        VariableByteInt::new(self.remaining_length).as_bytes()
    }

    /// Decode a fixed header, returning it together with the unconsumed
    /// suffix of the buffer.
    pub fn from_bytes(bytes: Bytes) -> (r: Result<(Self, Bytes), ParseError>)
        ensures
            match r {
                Ok((h, rest)) => Self::spec_from_bytes(bytes@) == Ok::<
                    (FixedHeader, Seq<u8>),
                    ParseError,
                >((h, rest@)) && h.wf(),
                Err(e) => Self::spec_from_bytes(bytes@) == Err::<(FixedHeader, Seq<u8>), ParseError>(
                    e,
                ),
            },
    {
        let byte_slice: &[u8] = bytes.as_slice();
        match parse_byte(byte_slice) {
            Err(e) => Err(e),
            Ok((first_byte, first_byte_leftover)) => {
                let packet_type_value: u8 = first_byte / 16;
                match parse_variable_byte_int(first_byte_leftover) {
                    Err(e) => Err(e),
                    Ok((remaining_length, leftover)) => {
                        proof {
                            lemma_varint_value_bounded(first_byte_leftover@);
                        }
                        let fixed_header = FixedHeader::new(
                            packet_type_value,
                            remaining_length.value(),
                        );
                        Ok((fixed_header, slice_to_vec(leftover)))
                    },
                }
            },
        }
    }

    /// Encode the header: the type/flags byte followed by the remaining
    /// length.
    pub fn as_bytes(&self) -> (r: Bytes)
        requires
            self.wf(),
        ensures
            r@ == self.spec_bytes(),
    {
        let mut bytes: Bytes = Vec::new();
        bytes.push(self.packet_type_value * 16 + self.flags_byte());
        let mut rest = self.remaining_length_bytes();
        bytes.append(&mut rest);
        proof {
            assert(bytes@ =~= self.spec_bytes());
        }
        bytes
    }

    /// The byte length of the encoded header.
    pub fn len(&self) -> (r: u32)
        requires
            self.wf(),
        ensures
            r == self.spec_bytes().len(),
    {
        proof {
            lemma_varint_encoding_len(self.remaining_length);
        }
        let bytes = self.as_bytes();
        bytes.len() as u32
    }
}

/// Law: a fixed header that carries the constructor's flag values
/// round-trips through its encoding, consumes exactly its own bytes, and
/// leaves any appended suffix untouched.
pub proof fn lemma_fixed_header_round_trip(h: FixedHeader, suffix: Seq<u8>)
    requires
        h.wf(),
        h.dup == false,
        h.qos == 1,
        h.retain == false,
    ensures
        FixedHeader::spec_from_bytes(h.spec_bytes() + suffix) == Ok::<
            (FixedHeader, Seq<u8>),
            ParseError,
        >((h, suffix)),
{
    let b = h.spec_bytes() + suffix;
    let enc = spec_encode_varint(h.remaining_length);
    assert(b[0] == h.spec_first_byte());
    lemma_fundamental_div_mod_converse(
        h.spec_first_byte() as int,
        16,
        h.packet_type_value as int,
        h.spec_flags_byte() as int,
    );
    assert(b.skip(1) =~= enc + suffix);
    lemma_variable_byte_int_round_trip(h.remaining_length, suffix);
    assert((enc + suffix).skip(enc.len() as int) =~= suffix);
}

} // verus!
