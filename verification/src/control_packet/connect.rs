//! The handshake packet: the client introduces itself to the broker with a
//! client identifier.

use vstd::prelude::*;
use vstd::slice::slice_to_vec;
use vstd::utf8::encode_utf8;

use crate::common::{Byte, Bytes, UTF8String};
use crate::error::ParseError;
use crate::fixed_header::{lemma_fixed_header_round_trip, FixedHeader};
use crate::payload::{lemma_payload_bytes_singleton, spec_payload_bytes, Payload};
use crate::variable_header::{
    lemma_variable_header_len, lemma_variable_header_round_trip, VariableHeader,
};
use crate::wire::{lemma_utf8_string_round_trip, spec_encode_utf8_string, LENGTH_PREFIX_MAX};

verus! {

/// The packet-type nibble of the handshake packet.
pub const CONNECT_PACKET_TYPE: u8 = 1;

/// A complete handshake packet: fixed header, variable header, and a
/// payload holding the client identifier.
#[derive(Debug)]
pub struct Connect {
    pub fixed_header: FixedHeader,
    pub variable_header: VariableHeader,
    pub payload: Payload,
}

impl Connect {
    /// The shape every handshake packet built by [`Connect::new`] has:
    /// packet type one with the constructor's flag values, a single
    /// payload field that fits its length prefix, and a remaining length
    /// that is exactly the byte length of variable header plus payload.
    pub open spec fn wf_handshake(&self) -> bool {
        &&& self.fixed_header.wf()
        &&& self.fixed_header.packet_type_value == CONNECT_PACKET_TYPE
        &&& self.fixed_header.dup == false
        &&& self.fixed_header.qos == 1
        &&& self.fixed_header.retain == false
        &&& self.fixed_header.remaining_length == self.variable_header.spec_bytes().len()
            + spec_payload_bytes(self.payload.spec_values()).len()
        &&& self.payload.spec_values().len() == 1
        &&& encode_utf8(self.payload.spec_values()[0]).len() <= LENGTH_PREFIX_MAX
    }

    /// The packet's wire encoding: fixed header, variable header, payload,
    /// concatenated.
    pub open spec fn spec_bytes(&self) -> Seq<u8> {
        self.fixed_header.spec_bytes() + self.variable_header.spec_bytes() + spec_payload_bytes(
            self.payload.spec_values(),
        )
    }

    /// Consume a whole handshake packet: fixed header, then variable
    /// header, then payload, each step feeding its leftover to the next.
    pub open spec fn spec_from_bytes(b: Seq<u8>) -> Result<
        (FixedHeader, VariableHeader, Seq<Seq<char>>),
        ParseError,
    > {
        match FixedHeader::spec_from_bytes(b) {
            Err(e) => Err(e),
            Ok((fh, r1)) => match VariableHeader::spec_from_bytes(r1) {
                Err(e) => Err(e),
                Ok((vh, r2)) => match Payload::spec_from_bytes(r2) {
                    Err(e) => Err(e),
                    Ok(vals) => Ok((fh, vh, vals)),
                },
            },
        }
    }

    /// Build a handshake packet for the given client identifier, deriving
    /// the remaining length from the encoded variable header and payload.
    pub fn new(client_id: &str) -> (r: Connect)
        requires
            encode_utf8(client_id@).len() <= LENGTH_PREFIX_MAX,
        ensures
            r.wf_handshake(),
            r.payload.spec_values() == seq![client_id@],
            r.variable_header == (VariableHeader { keep_alive: 0 }),
    {
        let mut values: Vec<UTF8String> = Vec::new();
        values.push(UTF8String::new(client_id));
        let payload = Payload::new(values);

        let keep_alive: u16 = 0;
        let variable_header = VariableHeader::new(keep_alive);

        let packet_type_value: u8 = CONNECT_PACKET_TYPE;
        proof {
            lemma_variable_header_len(variable_header);
            assert(payload.spec_values() =~= seq![client_id@]);
            lemma_payload_bytes_singleton(client_id@);
        }
        let remaining_length: u32 = variable_header.len() + payload.len();
        let fixed_header = FixedHeader::new(packet_type_value, remaining_length);

        Connect { fixed_header, variable_header, payload }
    }

    /// The client identifier this packet introduces.
    pub fn client_id(&self) -> (r: &str)
        requires
            self.payload.spec_values().len() >= 1,
        ensures
            r@ == self.payload.spec_values()[0],
    {
        let values = self.payload.values();
        values[0].value()
    }

    /// The packet's fixed header.
    pub fn get_fixed_header(&self) -> (r: &FixedHeader)
        ensures
            *r == self.fixed_header,
    {
        &self.fixed_header
    }

    /// The packet's variable header.
    pub fn get_variable_header(&self) -> (r: &VariableHeader)
        ensures
            *r == self.variable_header,
    {
        &self.variable_header
    }

    /// The packet's payload.
    pub fn get_payload(&self) -> (r: &Payload)
        ensures
            *r == self.payload,
    {
        &self.payload
    }

    /// Serialize the packet: fixed header, variable header, payload, in
    /// order.
    pub fn as_bytes(&self) -> (r: Bytes)
        requires
            self.fixed_header.wf(),
        ensures
            r@ == self.spec_bytes(),
    {
        let mut bytes = self.fixed_header.as_bytes();
        let mut variable_header_bytes = self.variable_header.as_bytes();
        let mut payload_bytes = self.payload.as_bytes();
        bytes.append(&mut variable_header_bytes);
        bytes.append(&mut payload_bytes);
        bytes
    }

    /// Parse a handshake packet from a buffer: fixed header, then variable
    /// header, then payload, any failure short-circuiting into its error.
    pub fn from_bytes(bytes: &[Byte]) -> (r: Result<Connect, ParseError>)
        ensures
            match r {
                Ok(c) => Self::spec_from_bytes(bytes@) == Ok::<
                    (FixedHeader, VariableHeader, Seq<Seq<char>>),
                    ParseError,
                >((c.fixed_header, c.variable_header, c.payload.spec_values()))
                    && c.fixed_header.wf(),
                Err(e) => Self::spec_from_bytes(bytes@) == Err::<
                    (FixedHeader, VariableHeader, Seq<Seq<char>>),
                    ParseError,
                >(e),
            },
    {
        let byte_vec: Bytes = slice_to_vec(bytes);
        match FixedHeader::from_bytes(byte_vec) {
            Err(e) => Err(e),
            Ok((fixed_header, variable_header_bytes)) => match VariableHeader::from_bytes(
                variable_header_bytes,
            ) {
                Err(e) => Err(e),
                Ok((variable_header, payload_bytes)) => match Payload::from_bytes(payload_bytes) {
                    Err(e) => Err(e),
                    Ok(payload) => Ok(Connect { fixed_header, variable_header, payload }),
                },
            },
        }
    }
}

/// Law: serializing a handshake packet and parsing the bytes back yields
/// the same fixed header (so the same remaining length, which by
/// construction equals the byte length of variable header plus payload),
/// the same variable header, and the same client identifier.
#[verifier::rlimit(50)]
pub proof fn lemma_connect_round_trip(c: Connect)
    requires
        c.wf_handshake(),
    ensures
        Connect::spec_from_bytes(c.spec_bytes()) == Ok::<
            (FixedHeader, VariableHeader, Seq<Seq<char>>),
            ParseError,
        >((c.fixed_header, c.variable_header, c.payload.spec_values())),
{
    let payload_bytes = spec_payload_bytes(c.payload.spec_values());
    let tail1 = c.variable_header.spec_bytes() + payload_bytes;
    assert(c.spec_bytes() =~= c.fixed_header.spec_bytes() + tail1);
    lemma_fixed_header_round_trip(c.fixed_header, tail1);
    lemma_variable_header_round_trip(c.variable_header, payload_bytes);
    let id = c.payload.spec_values()[0];
    assert(c.payload.spec_values() =~= seq![id]);
    lemma_payload_bytes_singleton(id);
    lemma_utf8_string_round_trip(id, Seq::<u8>::empty());
    assert(spec_encode_utf8_string(id) + Seq::<u8>::empty() =~= spec_encode_utf8_string(id));
}

} // verus!
