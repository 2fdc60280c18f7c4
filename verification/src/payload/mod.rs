//! The payload, the part of a packet behind the variable header.

use vstd::prelude::*;

use crate::codec::values::copy_to_front;
use crate::codec::{
    decoded_view, decoded_within, encode_fixed, spec_map, Decodable, Decoded, Encodable,
};
use crate::error::EncodeError;
use crate::fixed_header::PacketType;
use crate::status::Status;

pub mod connect;
pub mod suback;
pub mod subscribe;

verus! {

/// The payload of a packet: bytes that stand for themselves, or one of the
/// payloads that have a shape of their own.
#[derive(Debug)]
pub enum Payload<'a> {
    Bytes(&'a [u8]),
    Connect(connect::Connect<'a>),
    Subscribe(subscribe::Subscribe<'a>),
    Suback(suback::Suback<'a>),
}

/// What a payload holds.
pub enum PayloadView {
    Bytes(Seq<u8>),
    Connect(connect::ConnectView),
    Subscribe(Seq<subscribe::Topic>),
    Suback(Seq<u8>),
}

impl<'a> View for Payload<'a> {
    type V = PayloadView;

    open spec fn view(&self) -> PayloadView {
        match self {
            Payload::Bytes(c) => PayloadView::Bytes(c@),
            Payload::Connect(c) => PayloadView::Connect(c@),
            Payload::Subscribe(c) => PayloadView::Subscribe(c@),
            Payload::Suback(c) => PayloadView::Suback(c@),
        }
    }
}

impl PayloadView {
    /// The bytes that the payload is written as.
    pub open spec fn encoding(self) -> Seq<u8> {
        match self {
            PayloadView::Bytes(c) => c,
            PayloadView::Connect(c) => c.encoding(),
            PayloadView::Subscribe(c) => subscribe::spec_encode_topics(c),
            PayloadView::Suback(c) => c,
        }
    }

    /// What writing the payload into a buffer of `capacity` bytes returns.
    pub open spec fn encode_result(self, capacity: usize) -> Result<usize, EncodeError> {
        match self {
            PayloadView::Bytes(c) => encode_fixed(c.len(), capacity),
            PayloadView::Connect(c) => c.encode_result(capacity),
            PayloadView::Subscribe(c) => subscribe::spec_encode_topics_result(c, capacity),
            PayloadView::Suback(c) => encode_fixed(c.len(), capacity),
        }
    }
}

/// The payload of a packet of the given type, which is all of `bytes`, or
/// `None` where the bytes of such a packet stand for themselves.
pub open spec fn spec_decode_payload(packet_type: PacketType, bytes: Seq<u8>) -> Option<
    Decoded<PayloadView>,
> {
    match packet_type {
        PacketType::Suback => Some(
            spec_map(suback::spec_decode_suback(bytes), |c| PayloadView::Suback(c)),
        ),
        PacketType::Subscribe => Some(
            spec_map(subscribe::spec_decode_subscribe(bytes), |c| PayloadView::Subscribe(c)),
        ),
        _ => None,
    }
}

impl<'a> Payload<'a> {
    /// Decodes the payload of a packet of the given type from `bytes`, which
    /// are to be the whole payload. Returns `None`, and reads nothing, where
    /// the bytes of such a packet stand for themselves. The payload of a
    /// Connect packet is not decoded here: it cannot be read without the
    /// flags of the variable header.
    pub fn decode(packet_type: PacketType, bytes: &'a [u8]) -> (r: Option<Decoded<Self>>)
        ensures
            match r {
                Some(d) => Some(decoded_view(d)),
                None => None,
            } == spec_decode_payload(packet_type, bytes@),
            r matches Some(d) ==> decoded_within(d, bytes@.len()),
    {
        Some(
            match packet_type {
                PacketType::Suback => match suback::Suback::decode(bytes) {
                    Err(e) => Err(e),
                    Ok(Status::Partial(p)) => Ok(Status::Partial(p)),
                    Ok(Status::Complete((offset, p))) => {
                        Ok(Status::Complete((offset, Payload::Suback(p))))
                    },
                },
                PacketType::Subscribe => match subscribe::Subscribe::decode(bytes) {
                    Err(e) => Err(e),
                    Ok(Status::Partial(p)) => Ok(Status::Partial(p)),
                    Ok(Status::Complete((offset, p))) => {
                        Ok(Status::Complete((offset, Payload::Subscribe(p))))
                    },
                },
                _ => return None,
            },
        )
    }
}

impl<'a> Encodable for Payload<'a> {
    open spec fn encoding(&self) -> Seq<u8> {
        self@.encoding()
    }

    open spec fn encode_result(&self, capacity: usize) -> Result<usize, EncodeError> {
        self@.encode_result(capacity)
    }

    fn encoded_len(&self) -> (n: usize) {
        match self {
            Payload::Connect(c) => c.encoded_len(),
            Payload::Subscribe(c) => c.encoded_len(),
            Payload::Suback(c) => c.encoded_len(),
            Payload::Bytes(c) => c.len(),
        }
    }

    fn encode(&self, bytes: &mut [u8]) -> (r: Result<usize, EncodeError>) {
        match self {
            Payload::Connect(c) => c.encode(bytes),
            Payload::Subscribe(c) => c.encode(bytes),
            Payload::Suback(c) => c.encode(bytes),
            Payload::Bytes(c) => {
                if bytes.len() < c.len() {
                    return Err(EncodeError::OutOfSpace);
                }
                copy_to_front(c, bytes);

                Ok(c.len())
            },
        }
    }
}

impl<'a> Default for Payload<'a> {
    fn default() -> (r: Self)
        ensures
            r@ == PayloadView::Bytes(Seq::empty()),
    {
        let empty: &'static [u8] = &[];
        assert(empty@ =~= Seq::empty());
        Payload::Bytes(empty)
    }
}

} // verus!
