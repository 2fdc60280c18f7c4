use vstd::prelude::*;

use super::{HeaderDecode, PacketId};
use crate::codec::values::{
    encode_u16, lemma_u16_round_trip, parse_u16, spec_encode_u16, spec_parse_u16,
};
use crate::codec::{encode_fixed, Decoded, Encodable};
use crate::error::{DecodeError, EncodeError};
use crate::fixed_header::PacketFlags;
use crate::status::Status;

verus! {

/// The variable header of the packets that hold a packet identifier and
/// nothing else.
#[derive(PartialEq, Debug)]
pub struct PacketIdentifier(PacketId);

impl View for PacketIdentifier {
    type V = PacketId;

    closed spec fn view(&self) -> PacketId {
        self.0
    }
}

impl PacketIdentifier {
    /// The header that holds `packet_identifier`.
    pub fn new(packet_identifier: PacketId) -> (r: Self)
        ensures
            r@ == packet_identifier,
    {
        Self(packet_identifier)
    }

    /// The identifier that the header holds.
    pub fn packet_identifier(&self) -> (r: PacketId)
        ensures
            r == self@,
    {
        self.0
    }
}

impl<'buf> HeaderDecode<'buf> for PacketIdentifier {
    open spec fn spec_decode(flags: PacketFlags, bytes: Seq<u8>) -> Decoded<PacketId> {
        spec_parse_u16(bytes)
    }

    fn decode(_flags: PacketFlags, bytes: &'buf [u8]) -> (r: Decoded<Self>) {
        let (offset, packet_identifier) = match parse_u16(bytes) {
            Ok(Status::Complete(v)) => v,
            Ok(Status::Partial(n)) => return Ok(Status::Partial(n)),
            Err(e) => return Err(e),
        };

        Ok(Status::Complete((offset, Self(packet_identifier))))
    }
}

impl Encodable for PacketIdentifier {
    open spec fn encoding(&self) -> Seq<u8> {
        spec_encode_u16(self@)
    }

    open spec fn encode_result(&self, capacity: usize) -> Result<usize, EncodeError> {
        encode_fixed(2, capacity)
    }

    fn encoded_len(&self) -> (n: usize) {
        2
    }

    fn encode(&self, bytes: &mut [u8]) -> (r: Result<usize, EncodeError>) {
        encode_u16(self.0, bytes)
    }
}

/// A packet identifier that is written and read back is the same
/// identifier, whatever follows it in the buffer.
pub proof fn lemma_packet_identifier_round_trip(id: PacketId, rest: Seq<u8>)
    ensures
        spec_parse_u16(spec_encode_u16(id) + rest) == Ok::<_, DecodeError>(
            Status::Complete((2usize, id)),
        ),
{
    lemma_u16_round_trip(id, 0, 0);
    let bytes = spec_encode_u16(id) + rest;
    assert(bytes[0] == (id / 256) as u8);
    assert(bytes[1] == (id % 256) as u8);
}

/// A packet identifier that was read is written as the bytes it was read
/// from.
pub proof fn lemma_packet_identifier_reencode(bytes: Seq<u8>)
    ensures
        spec_parse_u16(bytes) matches Ok(Status::Complete((n, id))) ==> n == 2 && n <= bytes.len()
            && spec_encode_u16(id) == bytes.subrange(0, 2),
{
    if bytes.len() >= 2 {
        lemma_u16_round_trip(0, bytes[0], bytes[1]);
        assert(bytes.subrange(0, 2) =~= seq![bytes[0], bytes[1]]);
    }
}

} // verus!
