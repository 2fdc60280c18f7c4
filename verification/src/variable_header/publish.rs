use vstd::prelude::*;
use vstd::utf8::encode_utf8;

use super::{HeaderDecode, PacketId};
use crate::codec::string::{
    encode_string, lemma_parse_string_prefix, lemma_string_encodes, lemma_string_reencode,
    lemma_string_round_trip, parse_string, spec_encode_string, spec_parse_string, valid_string,
};
use crate::codec::values::{
    encode_prefixed, encode_u16, parse_u16, skip, spec_encode_u16, spec_parse_u16,
};
use crate::codec::{
    encode_fixed, encode_then, prefix_agrees, space_left, Decoded, Encodable,
};
use crate::error::{DecodeError, EncodeError};
use crate::fixed_header::{spec_publish_qos, PacketFlags, PublishFlags};
use crate::qos;
use crate::status::Status;
use crate::variable_header::packet_identifier::{
    lemma_packet_identifier_reencode, lemma_packet_identifier_round_trip,
};

verus! {

/// The variable header of a Publish packet.
#[derive(PartialEq, Debug)]
pub struct Publish<'a> {
    topic_name: &'a str,
    packet_identifier: Option<PacketId>,
}

/// What the variable header of a Publish packet holds.
pub struct PublishView {
    pub topic_name: Seq<char>,
    pub packet_identifier: Option<PacketId>,
}

impl<'a> View for Publish<'a> {
    type V = PublishView;

    closed spec fn view(&self) -> PublishView {
        PublishView { topic_name: self.topic_name@, packet_identifier: self.packet_identifier }
    }
}

impl PublishView {
    /// The topic name, then the packet identifier if there is one.
    pub open spec fn encoding(self) -> Seq<u8> {
        spec_encode_string(self.topic_name) + (match self.packet_identifier {
            Some(id) => spec_encode_u16(id),
            None => Seq::empty(),
        })
    }

    /// What writing the header into a buffer of `capacity` bytes returns.
    pub open spec fn encode_result(self, capacity: usize) -> Result<usize, EncodeError> {
        let topic_len = encode_utf8(self.topic_name).len();
        encode_then(
            encode_prefixed(topic_len, capacity),
            match self.packet_identifier {
                Some(_) => encode_fixed(2, space_left(capacity, 2 + topic_len)),
                None => Ok(0),
            },
        )
    }
}

/// The variable header of a Publish packet whose fixed header has the flags
/// `flags`: a topic name, and a packet identifier unless the quality of
/// service in the flags is at most once. Flags without a quality of service
/// are refused before a byte is read.
pub open spec fn spec_decode_publish(flags: u8, bytes: Seq<u8>) -> Decoded<PublishView> {
    match spec_publish_qos(flags) {
        Err(e) => Err(DecodeError::InvalidQoS(e)),
        Ok(qos) => match spec_parse_string(bytes) {
            Err(e) => Err(e),
            Ok(Status::Partial(n)) => Ok(Status::Partial(n)),
            Ok(Status::Complete((n, topic_name))) => if qos == qos::QoS::AtMostOnce {
                Ok(Status::Complete((n, PublishView { topic_name, packet_identifier: None })))
            } else {
                match spec_parse_u16(bytes.skip(n as int)) {
                    Err(e) => Err(e),
                    Ok(Status::Partial(m)) => Ok(Status::Partial(m)),
                    Ok(Status::Complete((_, id))) => Ok(
                        Status::Complete(
                            (
                                (n + 2) as usize,
                                PublishView { topic_name, packet_identifier: Some(id) },
                            ),
                        ),
                    ),
                }
            },
        },
    }
}

impl<'a> Publish<'a> {
    /// A header with the given topic name and packet identifier.
    pub fn new(topic_name: &'a str, packet_identifier: Option<PacketId>) -> (r: Self)
        ensures
            r@ == (PublishView { topic_name: topic_name@, packet_identifier }),
    {
        Self { topic_name, packet_identifier }
    }

    /// The topic that the message is published to.
    pub fn topic_name(&self) -> (r: &'a str)
        ensures
            r@ == self@.topic_name,
    {
        self.topic_name
    }

    /// The packet identifier, which a message sent at most once has not.
    pub fn packet_identifier(&self) -> (r: Option<PacketId>)
        ensures
            r == self@.packet_identifier,
    {
        self.packet_identifier
    }
}

impl<'a> HeaderDecode<'a> for Publish<'a> {
    open spec fn spec_decode(flags: PacketFlags, bytes: Seq<u8>) -> Decoded<PublishView> {
        spec_decode_publish(flags.0, bytes)
    }

    fn decode(flags: PacketFlags, bytes: &'a [u8]) -> (r: Decoded<Self>) {
        let publish_flags = match PublishFlags::try_from(flags) {
            Ok(f) => f,
            Err(e) => return Err(DecodeError::from(e)),
        };
        proof {
            crate::fixed_header::lemma_publish_flags_view(flags.0);
        }
        let qos = match publish_flags.qos() {
            Ok(q) => q,
            Err(e) => return Err(DecodeError::from(e)),
        };

        let (offset, topic_name) = match parse_string(bytes) {
            Ok(Status::Complete(v)) => v,
            Ok(Status::Partial(n)) => return Ok(Status::Partial(n)),
            Err(e) => return Err(e),
        };
        proof {
            lemma_string_reencode(bytes@);
        }

        let (offset, packet_identifier) = if qos != qos::QoS::AtMostOnce {
            let (o, packet_identifier) = match parse_u16(skip(bytes, offset)) {
                Ok(Status::Complete(v)) => v,
                Ok(Status::Partial(n)) => return Ok(Status::Partial(n)),
                Err(e) => return Err(e),
            };
            (offset + o, Some(packet_identifier))
        } else {
            (offset, None)
        };

        Ok(Status::Complete((offset, Self { topic_name, packet_identifier })))
    }
}

impl<'a> Encodable for Publish<'a> {
    open spec fn encoding(&self) -> Seq<u8> {
        self@.encoding()
    }

    open spec fn encode_result(&self, capacity: usize) -> Result<usize, EncodeError> {
        self@.encode_result(capacity)
    }

    fn encoded_len(&self) -> (n: usize) {
        self.topic_name.encoded_len() + (match self.packet_identifier {
            Some(_) => 2,
            None => 0,
        })
    }

    fn encode(&self, bytes: &mut [u8]) -> (r: Result<usize, EncodeError>) {
        let mut offset: usize = 0;
        offset += match encode_string(self.topic_name, bytes) {
            Ok(o) => o,
            Err(e) => return Err(e),
        };
        assert(offset == 2 + encode_utf8(self@.topic_name).len());
        if let Some(packet_identifier) = self.packet_identifier {
            let (_, rest) = bytes.split_at_mut(offset);
            offset += match encode_u16(packet_identifier, rest) {
                Ok(o) => o,
                Err(e) => return Err(e),
            };
        }
        assert(bytes@ =~= self@.encoding() + old(bytes)@.skip(offset as int));
        Ok(offset)
    }
}

impl PublishView {
    /// The header can be written and read back under the flags `flags`: its
    /// topic name is a valid string, the flags hold a quality of service,
    /// and the header has a packet identifier if and only if that quality of
    /// service is not at most once.
    pub open spec fn valid(self, flags: u8) -> bool {
        &&& valid_string(self.topic_name)
        &&& spec_publish_qos(flags) matches Ok(qos) && (qos != qos::QoS::AtMostOnce
            <==> self.packet_identifier is Some)
    }
}

/// A valid Publish header that is written and read back is the same header,
/// whatever follows it in the buffer.
pub proof fn lemma_publish_round_trip(header: PublishView, flags: u8, rest: Seq<u8>)
    requires
        header.valid(flags),
    ensures
        spec_decode_publish(flags, header.encoding() + rest) == Ok::<_, DecodeError>(
            Status::Complete((header.encoding().len() as usize, header)),
        ),
        header.encoding().len() <= 65539,
{
    let tail = match header.packet_identifier {
        Some(id) => spec_encode_u16(id),
        None => Seq::empty(),
    };
    let bytes = header.encoding() + rest;
    assert(bytes =~= spec_encode_string(header.topic_name) + (tail + rest));
    lemma_string_round_trip(header.topic_name, tail + rest);
    let n = spec_encode_string(header.topic_name).len();
    assert(bytes.skip(n as int) =~= tail + rest);
    if let Some(id) = header.packet_identifier {
        lemma_packet_identifier_round_trip(id, rest);
    }
}

/// A Publish header that was read is valid under the flags it was read
/// under, and it is written as the bytes it was read from.
pub proof fn lemma_publish_reencode(flags: u8, bytes: Seq<u8>)
    ensures
        spec_decode_publish(flags, bytes) matches Ok(Status::Complete((n, header))) ==> {
            &&& header.valid(flags)
            &&& n <= bytes.len()
            &&& header.encoding() == bytes.subrange(0, n as int)
        },
{
    if let Ok(Status::Complete((n, header))) = spec_decode_publish(flags, bytes) {
        lemma_string_reencode(bytes);
        if let Ok(Status::Complete((m, _))) = spec_parse_string(bytes) {
            lemma_packet_identifier_reencode(bytes.skip(m as int));
            assert(header.encoding() =~= bytes.subrange(0, n as int));
        }
    }
}

/// The first `k` bytes of a buffer decode as the whole buffer does, or ask
/// for more: see [`prefix_agrees`].
pub proof fn lemma_publish_prefix(flags: u8, bytes: Seq<u8>, k: int)
    requires
        0 <= k <= bytes.len(),
    ensures
        prefix_agrees(
            spec_decode_publish(flags, bytes),
            spec_decode_publish(flags, bytes.subrange(0, k)),
            k,
        ),
{
    lemma_parse_string_prefix(bytes, k);
    lemma_string_reencode(bytes);
    if let Ok(Status::Complete((m, _))) = spec_parse_string(bytes) {
        if k >= m {
            assert(bytes.subrange(0, k).skip(m as int) =~= bytes.skip(m as int).subrange(0, k - m));
        }
    }
}

/// A valid Publish header is written into every buffer that has room for
/// it.
pub proof fn lemma_publish_encodes(header: PublishView, flags: u8, capacity: usize)
    requires
        header.valid(flags),
    ensures
        header.encode_result(capacity) == encode_fixed(header.encoding().len(), capacity),
{
    lemma_string_encodes(header.topic_name, capacity);
}

} // verus!
