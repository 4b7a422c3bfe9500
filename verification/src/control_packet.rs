//! Control packets: the tagged union over the known packet kinds, and the
//! dispatch that routes a buffer to the right parser by its type nibble.

use vstd::prelude::*;

use crate::common::{Byte, Bytes};
use crate::control_packet::connect::{Connect, CONNECT_PACKET_TYPE};
use crate::error::ParseError;
use crate::fixed_header::FixedHeader;
use crate::variable_header::VariableHeader;

pub mod connect;

verus! {

/// A decoded control packet of any known kind.
#[derive(Debug)]
pub enum ControlPacket {
    Connect(Connect),
}

/// Route a buffer to the parser for its packet kind.  An empty buffer is
/// truncated; a type nibble with no registered kind is unknown.
pub open spec fn spec_parse_packet(b: Seq<u8>) -> Result<
    (FixedHeader, VariableHeader, Seq<Seq<char>>),
    ParseError,
> {
    if b.len() == 0 {
        Err(ParseError::TruncatedBuffer)
    } else if b[0] / 16 == CONNECT_PACKET_TYPE {
        Connect::spec_from_bytes(b)
    } else {
        Err(ParseError::UnknownPacketType)
    }
}

impl ControlPacket {
    /// Serialize the packet, whatever its kind.
    pub fn as_bytes(&self) -> (r: Bytes)
        requires
            match self {
                ControlPacket::Connect(c) => c.fixed_header.wf(),
            },
        ensures
            match self {
                ControlPacket::Connect(c) => r@ == c.spec_bytes(),
            },
    {
        match self {
            ControlPacket::Connect(c) => c.as_bytes(),
        }
    }
}

/// Inspect the high nibble of the first byte and parse the packet with the
/// matching kind's parser; an unrecognized nibble yields an error, never a
/// panic.
pub fn parse_packet_bytes(bytes: &[Byte]) -> (r: Result<ControlPacket, ParseError>)
    ensures
        match r {
            Ok(packet) => match packet {
                ControlPacket::Connect(c) => spec_parse_packet(bytes@) == Ok::<
                    (FixedHeader, VariableHeader, Seq<Seq<char>>),
                    ParseError,
                >((c.fixed_header, c.variable_header, c.payload.spec_values())),
            },
            Err(e) => spec_parse_packet(bytes@) == Err::<
                (FixedHeader, VariableHeader, Seq<Seq<char>>),
                ParseError,
            >(e),
        },
{
    if bytes.len() == 0 {
        return Err(ParseError::TruncatedBuffer);
    }
    let first_byte = bytes[0];
    if first_byte / 16 == CONNECT_PACKET_TYPE {
        match Connect::from_bytes(bytes) {
            Ok(packet) => Ok(ControlPacket::Connect(packet)),
            Err(e) => Err(e),
        }
    } else {
        Err(ParseError::UnknownPacketType)
    }
}

} // verus!
