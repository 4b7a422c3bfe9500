//! The payload: the packet-type-specific fields that follow the variable
//! header.  For the handshake packet this is a single client-identifier
//! string.

use vstd::prelude::*;

use crate::common::{parse_utf8_string, Bytes, UTF8String};
use crate::error::ParseError;
use crate::wire::{
    spec_encode_utf8_string, spec_parse_utf8_string, VARINT_MAX,
};

verus! {

/// The concatenated wire encodings of the payload's fields, in order.
pub open spec fn spec_payload_bytes(vals: Seq<Seq<char>>) -> Seq<u8>
    decreases vals.len(),
{
    if vals.len() == 0 {
        Seq::empty()
    } else {
        spec_encode_utf8_string(vals[0]) + spec_payload_bytes(vals.drop_first())
    }
}

/// A payload of one field encodes to exactly that field's encoding.
pub proof fn lemma_payload_bytes_singleton(s: Seq<char>)
    ensures
        spec_payload_bytes(seq![s]) == spec_encode_utf8_string(s),
{
    assert(seq![s].drop_first() =~= Seq::<Seq<char>>::empty());
    assert(spec_payload_bytes(Seq::<Seq<char>>::empty()) == Seq::<u8>::empty());
    assert(spec_payload_bytes(seq![s]) == spec_encode_utf8_string(s) + Seq::<u8>::empty());
    assert(spec_encode_utf8_string(s) + Seq::<u8>::empty() =~= spec_encode_utf8_string(s));
}

/// Extending a prefix of the fields by one field appends that field's
/// encoding to the encoded prefix.
proof fn lemma_payload_bytes_take_snoc(vals: Seq<Seq<char>>, i: int)
    requires
        0 <= i < vals.len(),
    ensures
        spec_payload_bytes(vals.take(i + 1)) == spec_payload_bytes(vals.take(i))
            + spec_encode_utf8_string(vals[i]),
    decreases i,
{
    if i == 0 {
        assert(vals.take(0) =~= Seq::<Seq<char>>::empty());
        assert(vals.take(1) =~= seq![vals[0]]);
        lemma_payload_bytes_singleton(vals[0]);
        assert(Seq::<u8>::empty() + spec_encode_utf8_string(vals[0]) =~= spec_encode_utf8_string(
            vals[0],
        ));
    } else {
        let tail = vals.drop_first();
        lemma_payload_bytes_take_snoc(tail, i - 1);
        assert(vals.take(i + 1).drop_first() =~= tail.take(i));
        assert(vals.take(i).drop_first() =~= tail.take(i - 1));
        assert(vals.take(i + 1)[0] == vals[0]);
        assert(vals.take(i)[0] == vals[0]);
        assert(tail[i - 1] == vals[i]);
        assert(spec_encode_utf8_string(vals[0]) + (spec_payload_bytes(tail.take(i - 1))
            + spec_encode_utf8_string(vals[i])) =~= (spec_encode_utf8_string(vals[0])
            + spec_payload_bytes(tail.take(i - 1))) + spec_encode_utf8_string(vals[i]));
    }
}

/// The ordered fields that follow the variable header.
#[derive(Debug, PartialEq)]
pub struct Payload {
    values: Vec<UTF8String>,
}

impl Payload {
    /// The field values as character sequences, in declaration order.
    pub closed spec fn spec_values(&self) -> Seq<Seq<char>> {
        self.values.deep_view()
    }

    /// The encoded payload fits the remaining-length budget of a packet.
    pub open spec fn wf(&self) -> bool {
        spec_payload_bytes(self.spec_values()).len() <= VARINT_MAX
    }

    /// Consume a payload: a single client-identifier string.  Bytes after
    /// the identifier are deliberately ignored and left to the caller;
    /// consumption of the declared remaining length is not enforced here.
    pub open spec fn spec_from_bytes(b: Seq<u8>) -> Result<Seq<Seq<char>>, ParseError> {
        match spec_parse_utf8_string(b) {
            Ok((s, _rest)) => Ok(seq![s]),
            Err(e) => Err(e),
        }
    }

    /// A payload owning the given fields.
    pub fn new(values: Vec<UTF8String>) -> (r: Self)
        ensures
            r.spec_values() == values.deep_view(),
    {
        Payload { values }
    }

    /// Decode a payload: a single client-identifier string, with any
    /// trailing bytes ignored.
    pub fn from_bytes(bytes: Bytes) -> (r: Result<Self, ParseError>)
        ensures
            match r {
                Ok(p) => Self::spec_from_bytes(bytes@) == Ok::<Seq<Seq<char>>, ParseError>(
                    p.spec_values(),
                ),
                Err(e) => Self::spec_from_bytes(bytes@) == Err::<Seq<Seq<char>>, ParseError>(e),
            },
    {
        let byte_slice: &[u8] = bytes.as_slice();
        match parse_utf8_string(byte_slice) {
            Err(e) => Err(e),
            Ok((client_id, _leftover)) => {
                let mut values: Vec<UTF8String> = Vec::new();
                values.push(client_id);
                let payload = Payload { values };
                proof {
                    assert(payload.spec_values() =~= Self::spec_from_bytes(bytes@)->Ok_0);
                }
                Ok(payload)
            },
        }
    }

    /// Encode the payload: each field's encoding, concatenated in order.
    pub fn as_bytes(&self) -> (r: Bytes)
        ensures
            r@ == spec_payload_bytes(self.spec_values()),
    {
        let mut bytes: Bytes = Vec::new();
        let n: usize = self.values.len();
        let mut i: usize = 0;
        proof {
            assert(self.spec_values().take(0) =~= Seq::<Seq<char>>::empty());
        }
        while i < n
            invariant
                i <= n,
                n == self.values.len(),
                self.spec_values().len() == n,
                bytes@ == spec_payload_bytes(self.spec_values().take(i as int)),
            decreases n - i,
        {
            let mut piece = self.values[i].as_bytes();
            bytes.append(&mut piece);
            proof {
                lemma_payload_bytes_take_snoc(self.spec_values(), i as int);
            }
            i = i + 1;
        }
        proof {
            assert(self.spec_values().take(n as int) =~= self.spec_values());
        }
        bytes
    }

    /// The payload's fields.
    pub fn values(&self) -> (r: &[UTF8String])
        ensures
            r.deep_view() == self.spec_values(),
    {
        self.values.as_slice()
    }

    /// The byte length of the encoded payload.  Derived from the encoding
    /// itself, so it can never drift from the actual bytes.
    pub fn len(&self) -> (r: u32)
        requires
            self.wf(),
        ensures
            r == spec_payload_bytes(self.spec_values()).len(),
    {
        let bytes = self.as_bytes();
        bytes.len() as u32
    }
}

} // verus!
