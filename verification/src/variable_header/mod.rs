//! The variable header, the part of a packet behind the fixed header whose
//! shape depends on the packet type.

use vstd::prelude::*;

use crate::codec::values::{spec_encode_u16, spec_parse_u16};
use crate::codec::{
    decoded_view, decoded_within, encode_fixed, prefix_agrees, spec_map, Decoded, Encodable,
};
use crate::error::{DecodeError, EncodeError};
use crate::fixed_header::{PacketFlags, PacketType};
use crate::status::Status;

pub mod connack;
pub mod connect;
pub mod packet_identifier;
pub mod publish;

verus! {

/// The number that ties a request to its acknowledgement.
pub type PacketId = u16;

/// A variable header that can be read from the front of a byte buffer, given
/// the flags of the fixed header that stands before it.
pub trait HeaderDecode<'a>: Sized + View {
    /// What decoding from `bytes` gives under the flags `flags`.
    spec fn spec_decode(flags: PacketFlags, bytes: Seq<u8>) -> Decoded<Self::V>;

    /// Decodes a variable header from the front of `bytes`. The header
    /// borrows from `bytes` whatever it holds of variable length.
    fn decode(flags: PacketFlags, bytes: &'a [u8]) -> (r: Decoded<Self>)
        ensures
            decoded_view(r) == Self::spec_decode(flags, bytes@),
            decoded_within(r, bytes@.len()),
    ;
}

/// The variable header of a packet, for each packet type that has one.
#[derive(Debug)]
pub enum VariableHeader<'a> {
    Connect(connect::Connect<'a>),
    Connack(connack::Connack),
    Subscribe(packet_identifier::PacketIdentifier),
    Suback(packet_identifier::PacketIdentifier),
    Publish(publish::Publish<'a>),
    Puback(packet_identifier::PacketIdentifier),
    Unsubscribe(packet_identifier::PacketIdentifier),
    Unsuback(packet_identifier::PacketIdentifier),
}

/// What a variable header holds.
pub enum VariableHeaderView {
    Connect(connect::ConnectView),
    Connack(connack::ConnackView),
    Subscribe(PacketId),
    Suback(PacketId),
    Publish(publish::PublishView),
    Puback(PacketId),
    Unsubscribe(PacketId),
    Unsuback(PacketId),
}

impl<'a> View for VariableHeader<'a> {
    type V = VariableHeaderView;

    open spec fn view(&self) -> VariableHeaderView {
        match self {
            VariableHeader::Connect(c) => VariableHeaderView::Connect(c@),
            VariableHeader::Connack(c) => VariableHeaderView::Connack(c@),
            VariableHeader::Subscribe(c) => VariableHeaderView::Subscribe(c@),
            VariableHeader::Suback(c) => VariableHeaderView::Suback(c@),
            VariableHeader::Publish(c) => VariableHeaderView::Publish(c@),
            VariableHeader::Puback(c) => VariableHeaderView::Puback(c@),
            VariableHeader::Unsubscribe(c) => VariableHeaderView::Unsubscribe(c@),
            VariableHeader::Unsuback(c) => VariableHeaderView::Unsuback(c@),
        }
    }
}

impl VariableHeaderView {
    /// The packet type that a variable header of this shape belongs to.
    pub open spec fn packet_type(self) -> PacketType {
        match self {
            VariableHeaderView::Connect(_) => PacketType::Connect,
            VariableHeaderView::Connack(_) => PacketType::Connack,
            VariableHeaderView::Subscribe(_) => PacketType::Subscribe,
            VariableHeaderView::Suback(_) => PacketType::Suback,
            VariableHeaderView::Publish(_) => PacketType::Publish,
            VariableHeaderView::Puback(_) => PacketType::Puback,
            VariableHeaderView::Unsubscribe(_) => PacketType::Unsubscribe,
            VariableHeaderView::Unsuback(_) => PacketType::Unsuback,
        }
    }

    /// The bytes that the header is written as.
    pub open spec fn encoding(self) -> Seq<u8> {
        match self {
            VariableHeaderView::Connect(c) => c.encoding(),
            VariableHeaderView::Connack(c) => c.encoding(),
            VariableHeaderView::Publish(c) => c.encoding(),
            VariableHeaderView::Subscribe(id)
            | VariableHeaderView::Suback(id)
            | VariableHeaderView::Puback(id)
            | VariableHeaderView::Unsubscribe(id)
            | VariableHeaderView::Unsuback(id) => spec_encode_u16(id),
        }
    }

    /// What writing the header into a buffer of `capacity` bytes returns.
    pub open spec fn encode_result(self, capacity: usize) -> Result<usize, EncodeError> {
        match self {
            VariableHeaderView::Connect(c) => c.encode_result(capacity),
            VariableHeaderView::Publish(c) => c.encode_result(capacity),
            _ => encode_fixed(2, capacity),
        }
    }

    /// The header can be written and read back under the flags `flags`.
    pub open spec fn valid(self, flags: u8) -> bool {
        match self {
            VariableHeaderView::Connect(c) => c.valid(),
            VariableHeaderView::Connack(c) => c.valid(),
            VariableHeaderView::Publish(c) => c.valid(flags),
            _ => true,
        }
    }
}

/// Whether packets of the given type have a variable header.
pub open spec fn spec_has_variable_header(packet_type: PacketType) -> bool {
    match packet_type {
        PacketType::Connect
        | PacketType::Connack
        | PacketType::Publish
        | PacketType::Puback
        | PacketType::Subscribe
        | PacketType::Suback
        | PacketType::Unsubscribe
        | PacketType::Unsuback => true,
        _ => false,
    }
}

/// The variable header of a packet of the given type and flags at the front
/// of `bytes`, or `None` where packets of that type have none.
pub open spec fn spec_decode_variable_header(
    packet_type: PacketType,
    flags: u8,
    bytes: Seq<u8>,
) -> Option<Decoded<VariableHeaderView>> {
    match packet_type {
        PacketType::Connect => Some(
            spec_map(connect::spec_decode_connect(bytes), |c| VariableHeaderView::Connect(c)),
        ),
        PacketType::Connack => Some(
            spec_map(connack::spec_decode_connack(bytes), |c| VariableHeaderView::Connack(c)),
        ),
        PacketType::Publish => Some(
            spec_map(
                publish::spec_decode_publish(flags, bytes),
                |c| VariableHeaderView::Publish(c),
            ),
        ),
        PacketType::Subscribe => Some(
            spec_map(spec_parse_u16(bytes), |c| VariableHeaderView::Subscribe(c)),
        ),
        PacketType::Suback => Some(
            spec_map(spec_parse_u16(bytes), |c| VariableHeaderView::Suback(c)),
        ),
        PacketType::Puback => Some(
            spec_map(spec_parse_u16(bytes), |c| VariableHeaderView::Puback(c)),
        ),
        PacketType::Unsubscribe => Some(
            spec_map(spec_parse_u16(bytes), |c| VariableHeaderView::Unsubscribe(c)),
        ),
        PacketType::Unsuback => Some(
            spec_map(spec_parse_u16(bytes), |c| VariableHeaderView::Unsuback(c)),
        ),
        _ => None,
    }
}

impl<'a> VariableHeader<'a> {
    /// Decodes the variable header of a Connect packet.
    fn connect(flags: PacketFlags, bytes: &'a [u8]) -> (r: Decoded<Self>)
        ensures
            Some(decoded_view(r)) == spec_decode_variable_header(
                PacketType::Connect,
                flags.0,
                bytes@,
            ),
            decoded_within(r, bytes@.len()),
    {
        let (offset, var_header) = match connect::Connect::decode(flags, bytes) {
            Ok(Status::Complete(v)) => v,
            Ok(Status::Partial(n)) => return Ok(Status::Partial(n)),
            Err(e) => return Err(e),
        };
        Ok(Status::Complete((offset, VariableHeader::Connect(var_header))))
    }

    /// Decodes the variable header of a Connack packet.
    fn connack(flags: PacketFlags, bytes: &'a [u8]) -> (r: Decoded<Self>)
        ensures
            Some(decoded_view(r)) == spec_decode_variable_header(
                PacketType::Connack,
                flags.0,
                bytes@,
            ),
            decoded_within(r, bytes@.len()),
    {
        let (offset, var_header) = match connack::Connack::decode(flags, bytes) {
            Ok(Status::Complete(v)) => v,
            Ok(Status::Partial(n)) => return Ok(Status::Partial(n)),
            Err(e) => return Err(e),
        };
        Ok(Status::Complete((offset, VariableHeader::Connack(var_header))))
    }

    /// Decodes the variable header of a Publish packet.
    fn publish(flags: PacketFlags, bytes: &'a [u8]) -> (r: Decoded<Self>)
        ensures
            Some(decoded_view(r)) == spec_decode_variable_header(
                PacketType::Publish,
                flags.0,
                bytes@,
            ),
            decoded_within(r, bytes@.len()),
    {
        let (offset, var_header) = match publish::Publish::decode(flags, bytes) {
            Ok(Status::Partial(n)) => return Ok(Status::Partial(n)),
            Err(e) => return Err(e),
            Ok(Status::Complete(x)) => x,
        };
        Ok(Status::Complete((offset, VariableHeader::Publish(var_header))))
    }

    /// Decodes a variable header that is a packet identifier.
    fn packet_identifier(flags: PacketFlags, bytes: &'a [u8]) -> (r: Decoded<
        packet_identifier::PacketIdentifier,
    >)
        ensures
            decoded_view(r) == spec_parse_u16(bytes@),
            decoded_within(r, bytes@.len()),
    {
        packet_identifier::PacketIdentifier::decode(flags, bytes)
    }

    /// Decodes the variable header of a packet of the given type and flags
    /// from the front of `bytes`. Returns `None`, and reads nothing, where
    /// packets of that type have no variable header.
    pub fn decode(packet_type: PacketType, flags: PacketFlags, bytes: &'a [u8]) -> (r: Option<
        Decoded<Self>,
    >)
        ensures
            match r {
                Some(d) => Some(decoded_view(d)),
                None => None,
            } == spec_decode_variable_header(packet_type, flags.0, bytes@),
            r matches Some(d) ==> decoded_within(d, bytes@.len()),
    {
        match packet_type {
            PacketType::Connect => Some(VariableHeader::connect(flags, bytes)),
            PacketType::Connack => Some(VariableHeader::connack(flags, bytes)),
            PacketType::Publish => Some(VariableHeader::publish(flags, bytes)),
            PacketType::Subscribe => Some(
                match VariableHeader::packet_identifier(flags, bytes) {
                    Ok(Status::Complete((n, id))) => Ok(
                        Status::Complete((n, VariableHeader::Subscribe(id))),
                    ),
                    Ok(Status::Partial(n)) => Ok(Status::Partial(n)),
                    Err(e) => Err(e),
                },
            ),
            PacketType::Suback => Some(
                match VariableHeader::packet_identifier(flags, bytes) {
                    Ok(Status::Complete((n, id))) => Ok(
                        Status::Complete((n, VariableHeader::Suback(id))),
                    ),
                    Ok(Status::Partial(n)) => Ok(Status::Partial(n)),
                    Err(e) => Err(e),
                },
            ),
            PacketType::Puback => Some(
                match VariableHeader::packet_identifier(flags, bytes) {
                    Ok(Status::Complete((n, id))) => Ok(
                        Status::Complete((n, VariableHeader::Puback(id))),
                    ),
                    Ok(Status::Partial(n)) => Ok(Status::Partial(n)),
                    Err(e) => Err(e),
                },
            ),
            PacketType::Unsubscribe => Some(
                match VariableHeader::packet_identifier(flags, bytes) {
                    Ok(Status::Complete((n, id))) => Ok(
                        Status::Complete((n, VariableHeader::Unsubscribe(id))),
                    ),
                    Ok(Status::Partial(n)) => Ok(Status::Partial(n)),
                    Err(e) => Err(e),
                },
            ),
            PacketType::Unsuback => Some(
                match VariableHeader::packet_identifier(flags, bytes) {
                    Ok(Status::Complete((n, id))) => Ok(
                        Status::Complete((n, VariableHeader::Unsuback(id))),
                    ),
                    Ok(Status::Partial(n)) => Ok(Status::Partial(n)),
                    Err(e) => Err(e),
                },
            ),
            _ => None,
        }
    }
}

impl<'buf> Encodable for VariableHeader<'buf> {
    open spec fn encoding(&self) -> Seq<u8> {
        self@.encoding()
    }

    open spec fn encode_result(&self, capacity: usize) -> Result<usize, EncodeError> {
        self@.encode_result(capacity)
    }

    fn encoded_len(&self) -> (n: usize) {
        match self {
            VariableHeader::Connect(c) => c.encoded_len(),
            VariableHeader::Connack(c) => c.encoded_len(),
            VariableHeader::Publish(c) => c.encoded_len(),
            VariableHeader::Subscribe(c) => c.encoded_len(),
            VariableHeader::Suback(c) => c.encoded_len(),
            VariableHeader::Puback(c) => c.encoded_len(),
            VariableHeader::Unsubscribe(c) => c.encoded_len(),
            VariableHeader::Unsuback(c) => c.encoded_len(),
        }
    }

    fn encode(&self, bytes: &mut [u8]) -> (r: Result<usize, EncodeError>) {
        match self {
            VariableHeader::Connect(c) => c.encode(bytes),
            VariableHeader::Connack(c) => c.encode(bytes),
            VariableHeader::Publish(c) => c.encode(bytes),
            VariableHeader::Subscribe(c) => c.encode(bytes),
            VariableHeader::Suback(c) => c.encode(bytes),
            VariableHeader::Puback(c) => c.encode(bytes),
            VariableHeader::Unsubscribe(c) => c.encode(bytes),
            VariableHeader::Unsuback(c) => c.encode(bytes),
        }
    }
}

/// A valid variable header that is written and read back, as the header of
/// a packet of its own type, is the same header, whatever follows it in the
/// buffer.
pub proof fn lemma_variable_header_round_trip(header: VariableHeaderView, flags: u8, rest: Seq<u8>)
    requires
        header.valid(flags),
    ensures
        spec_decode_variable_header(header.packet_type(), flags, header.encoding() + rest) == Some(
            Ok::<_, DecodeError>(Status::Complete((header.encoding().len() as usize, header))),
        ),
        header.encoding().len() <= 65543,
{
    match header {
        VariableHeaderView::Connect(c) => connect::lemma_connect_round_trip(c, rest),
        VariableHeaderView::Connack(c) => connack::lemma_connack_round_trip(c, rest),
        VariableHeaderView::Publish(c) => publish::lemma_publish_round_trip(c, flags, rest),
        VariableHeaderView::Subscribe(id)
        | VariableHeaderView::Suback(id)
        | VariableHeaderView::Puback(id)
        | VariableHeaderView::Unsubscribe(id)
        | VariableHeaderView::Unsuback(id) => {
            packet_identifier::lemma_packet_identifier_round_trip(id, rest)
        },
    }
}

/// A variable header that was read belongs to the packet type it was read
/// for, is valid under the flags it was read under, and is written as the
/// bytes it was read from.
pub proof fn lemma_variable_header_reencode(packet_type: PacketType, flags: u8, bytes: Seq<u8>)
    ensures
        spec_decode_variable_header(packet_type, flags, bytes) matches Some(
            Ok(Status::Complete((n, header))),
        ) ==> {
            &&& header.packet_type() == packet_type
            &&& header.valid(flags)
            &&& n <= bytes.len()
            &&& header.encoding() == bytes.subrange(0, n as int)
        },
        spec_decode_variable_header(packet_type, flags, bytes) is Some
            <==> spec_has_variable_header(packet_type),
{
    connect::lemma_connect_reencode(bytes);
    connack::lemma_connack_reencode(bytes);
    publish::lemma_publish_reencode(flags, bytes);
    packet_identifier::lemma_packet_identifier_reencode(bytes);
}

/// The first `k` bytes of a buffer decode as the whole buffer does, or ask
/// for more: see [`prefix_agrees`].
pub proof fn lemma_variable_header_prefix(
    packet_type: PacketType,
    flags: u8,
    bytes: Seq<u8>,
    k: int,
)
    requires
        0 <= k <= bytes.len(),
    ensures
        spec_decode_variable_header(packet_type, flags, bytes) matches Some(full) ==> prefix_agrees(
            full,
            spec_decode_variable_header(packet_type, flags, bytes.subrange(0, k))->Some_0,
            k,
        ),
{
    connect::lemma_connect_prefix(bytes, k);
    connack::lemma_connack_prefix(bytes, k);
    publish::lemma_publish_prefix(flags, bytes, k);
    crate::codec::values::lemma_parse_u16_prefix(bytes, k);
}

/// A valid variable header is written into every buffer that has room for
/// it.
pub proof fn lemma_variable_header_encodes(header: VariableHeaderView, flags: u8, capacity: usize)
    requires
        header.valid(flags),
    ensures
        header.encode_result(capacity) == encode_fixed(header.encoding().len(), capacity),
{
    match header {
        VariableHeaderView::Connect(c) => connect::lemma_connect_encodes(c, capacity),
        VariableHeaderView::Publish(c) => publish::lemma_publish_encodes(c, flags, capacity),
        _ => {},
    }
}

} // verus!
