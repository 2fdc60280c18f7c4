//! Whole packets: a fixed header, the variable header that the packet type
//! calls for, and the payload.

use vstd::prelude::*;

use crate::codec::values::skip;
use crate::codec::{
    encode_at, encode_fixed, encode_then, prefix_agrees, space_left, spec_consumed, Decodable,
    Decoded, Encodable,
};
use crate::error::{DecodeError, EncodeError};
use crate::fixed_header::{
    lemma_fixed_header_bounds, lemma_fixed_header_prefix, lemma_fixed_header_round_trip,
    spec_decode_fixed_header, spec_publish_qos, FixedHeader, FixedHeaderView, PacketFlags,
    PacketType, PublishFlags, MAX_REMAINING_LENGTH,
};
use crate::payload::connect::{
    lemma_connect_payload_encodes, lemma_connect_payload_reencode,
    lemma_connect_payload_round_trip, spec_decode_connect_payload,
};
use crate::payload::suback::spec_valid_return_codes;
use crate::payload::subscribe::{
    lemma_subscribe_encodes, lemma_subscribe_reencode, lemma_subscribe_round_trip,
    spec_valid_topics,
};
use crate::payload::{spec_decode_payload, Payload, PayloadView};
use crate::qos;
use crate::seqs::{
    lemma_concat_assoc, lemma_prefix_skip, lemma_skip_concat, lemma_skip_skip, lemma_split,
};
use crate::status::Status;
use crate::variable_header::{
    lemma_variable_header_encodes, lemma_variable_header_prefix,
    lemma_variable_header_reencode, lemma_variable_header_round_trip,
    spec_decode_variable_header, spec_has_variable_header, VariableHeader, VariableHeaderView,
};
use crate::{payload, variable_header};

verus! {

/// A full packet with fixed header, variable header and payload.
///
/// Variable header and payload are optional for some packet types.
#[derive(Debug)]
#[allow(dead_code)]
pub struct Packet<'a> {
    fixed_header: FixedHeader,
    variable_header: Option<VariableHeader<'a>>,
    payload: Payload<'a>,
}

/// What a packet holds.
pub struct PacketView {
    pub fixed_header: FixedHeaderView,
    pub variable_header: Option<VariableHeaderView>,
    pub payload: PayloadView,
}

/// The view of a variable header that may not be there.
pub open spec fn spec_header_view(header: Option<VariableHeader>) -> Option<VariableHeaderView> {
    match header {
        Some(h) => Some(h@),
        None => None,
    }
}

/// The bytes of a variable header that may not be there.
pub open spec fn spec_header_encoding(header: Option<VariableHeaderView>) -> Seq<u8> {
    match header {
        Some(h) => h.encoding(),
        None => Seq::empty(),
    }
}

impl<'a> View for Packet<'a> {
    type V = PacketView;

    closed spec fn view(&self) -> PacketView {
        PacketView {
            fixed_header: self.fixed_header@,
            variable_header: spec_header_view(self.variable_header),
            payload: self.payload@,
        }
    }
}

impl PacketView {
    /// The bytes of the packet: the fixed header, then the variable header
    /// if there is one, then the payload.
    pub open spec fn encoding(self) -> Seq<u8> {
        self.fixed_header.encoding() + spec_header_encoding(self.variable_header)
            + self.payload.encoding()
    }

    /// The remaining length of the fixed header is the number of bytes that
    /// the variable header and the payload are written in.
    pub open spec fn consistent(self) -> bool {
        self.fixed_header.len == spec_header_encoding(self.variable_header).len()
            + self.payload.encoding().len()
    }

    /// What writing the packet into a buffer of `capacity` bytes returns:
    /// the three parts are written in their order, and the first that is
    /// too big or finds no room decides.
    pub open spec fn encode_result(self, capacity: usize) -> Result<usize, EncodeError> {
        let a = self.fixed_header.encoding().len();
        let b = spec_header_encoding(self.variable_header).len();
        encode_then(
            encode_fixed(a, capacity),
            encode_then(
                match self.variable_header {
                    Some(h) => h.encode_result(space_left(capacity, a)),
                    None => Ok(0),
                },
                self.payload.encode_result(space_left(capacity, a + b)),
            ),
        )
    }
}

/// The packet of the given type and flags that holds the given variable
/// header and payload.
pub open spec fn spec_packet(
    packet_type: PacketType,
    flags: u8,
    variable_header: Option<VariableHeaderView>,
    payload: PayloadView,
) -> PacketView {
    PacketView {
        fixed_header: FixedHeaderView {
            packet_type,
            flags,
            len: (spec_header_encoding(variable_header).len() + payload.encoding().len()) as u32,
        },
        variable_header,
        payload,
    }
}

/// What the constructors of packets return: the packet, unless its variable
/// header and payload together take more bytes than a remaining length can
/// count.
pub open spec fn spec_constructed(
    r: Result<Packet, EncodeError>,
    packet_type: PacketType,
    flags: u8,
    variable_header: Option<VariableHeaderView>,
    payload: PayloadView,
) -> bool {
    let len = spec_header_encoding(variable_header).len() + payload.encoding().len();
    match r {
        Ok(p) => {
            &&& len <= MAX_REMAINING_LENGTH
            &&& p@ == spec_packet(packet_type, flags, variable_header, payload)
            &&& p@.consistent()
        },
        Err(e) => len > MAX_REMAINING_LENGTH && e == EncodeError::ValueTooBig,
    }
}

impl<'a> Packet<'a> {
    /// The remaining length counts the variable header and the payload.
    #[verifier::type_invariant]
    spec fn length_is_counted(self) -> bool {
        self.fixed_header@.len == spec_header_encoding(
            spec_header_view(self.variable_header),
        ).len() + self.payload@.encoding().len()
    }

    /// Create a CONNECT packet.
    pub fn connect(
        variable_header: variable_header::connect::Connect<'a>,
        payload: payload::connect::Connect<'a>,
    ) -> (r: Result<Self, EncodeError>)
        requires
            variable_header@.encoding().len() <= usize::MAX,
            payload@.encoding().len() <= usize::MAX,
        ensures
            spec_constructed(
                r,
                PacketType::Connect,
                0,
                Some(VariableHeaderView::Connect(variable_header@)),
                PayloadView::Connect(payload@),
            ),
    {
        Self::packet(
            PacketType::Connect,
            PacketFlags(PacketFlags::CONNECT),
            Some(VariableHeader::Connect(variable_header)),
            Payload::Connect(payload),
        )
    }

    /// Create a SUBSCRIBE packet.
    pub fn subscribe(
        variable_header: variable_header::packet_identifier::PacketIdentifier,
        payload: payload::subscribe::Subscribe<'a>,
    ) -> (r: Result<Self, EncodeError>)
        requires
            payload.encoding().len() <= usize::MAX,
        ensures
            spec_constructed(
                r,
                PacketType::Subscribe,
                2,
                Some(VariableHeaderView::Subscribe(variable_header@)),
                PayloadView::Subscribe(payload@),
            ),
    {
        Self::packet(
            PacketType::Subscribe,
            PacketFlags(PacketFlags::SUBSCRIBE),
            Some(VariableHeader::Subscribe(variable_header)),
            Payload::Subscribe(payload),
        )
    }

    /// Create a PUBLISH packet. The flags must hold a quality of service,
    /// and a message that is not sent at most once must have a packet
    /// identifier.
    pub fn publish(
        flags: PublishFlags,
        variable_header: variable_header::publish::Publish<'a>,
        payload: &'a [u8],
    ) -> (r: Result<Self, EncodeError>)
        requires
            spec_publish_qos(flags@) matches Ok(q) && (q == qos::QoS::AtMostOnce
                || variable_header@.packet_identifier is Some),
            variable_header@.encoding().len() <= usize::MAX,
        ensures
            spec_constructed(
                r,
                PacketType::Publish,
                flags@,
                Some(VariableHeaderView::Publish(variable_header@)),
                PayloadView::Bytes(payload@),
            ),
    {
        assert(payload.len() == payload@.len());
        Self::packet(
            PacketType::Publish,
            PacketFlags::from(flags),
            Some(VariableHeader::Publish(variable_header)),
            Payload::Bytes(payload),
        )
    }

    /// Create a PUBACK packet.
    pub fn puback(variable_header: variable_header::packet_identifier::PacketIdentifier) -> (r:
        Result<Self, EncodeError>)
        ensures
            r is Ok,
            spec_constructed(
                r,
                PacketType::Puback,
                0,
                Some(VariableHeaderView::Puback(variable_header@)),
                PayloadView::Bytes(Seq::empty()),
            ),
    {
        Self::packet(
            PacketType::Puback,
            PacketFlags(PacketFlags::PUBACK),
            Some(VariableHeader::Puback(variable_header)),
            Payload::default(),
        )
    }

    /// Create a PINGREQ packet.
    pub fn pingreq() -> (r: Self)
        ensures
            r@ == spec_packet(PacketType::Pingreq, 0, None, PayloadView::Bytes(Seq::empty())),
            r@.consistent(),
    {
        Self {
            fixed_header: FixedHeader::new(
                PacketType::Pingreq,
                PacketFlags(PacketFlags::PINGREQ),
                0,
            ),
            variable_header: None,
            payload: Payload::default(),
        }
    }

    /// Create a PINGRESP packet.
    pub fn pingresp() -> (r: Self)
        ensures
            r@ == spec_packet(PacketType::Pingresp, 0, None, PayloadView::Bytes(Seq::empty())),
            r@.consistent(),
    {
        Self {
            fixed_header: FixedHeader::new(
                PacketType::Pingresp,
                PacketFlags(PacketFlags::PINGRESP),
                0,
            ),
            variable_header: None,
            payload: Payload::default(),
        }
    }

    /// Create a packet with the given type, flags, variable header and payload.
    ///
    /// Constructs a fixed header with the appropriate `len` field for the given
    /// variable header and payload.
    fn packet(
        packet_type: PacketType,
        flags: PacketFlags,
        variable_header: Option<VariableHeader<'a>>,
        payload: Payload<'a>,
    ) -> (r: Result<Self, EncodeError>)
        requires
            spec_header_encoding(spec_header_view(variable_header)).len() <= usize::MAX,
            payload@.encoding().len() <= usize::MAX,
        ensures
            spec_constructed(
                r,
                packet_type,
                flags.0,
                spec_header_view(variable_header),
                payload@,
            ),
    {
        let header_len = match &variable_header {
            Some(h) => h.encoded_len(),
            None => 0,
        };
        let total = match header_len.checked_add(payload.encoded_len()) {
            Some(t) => t,
            None => return Err(EncodeError::ValueTooBig),
        };
        let len = match u32::try_from(total) {
            Ok(l) => l,
            Err(e) => return Err(EncodeError::from(e)),
        };
        if len > MAX_REMAINING_LENGTH {
            return Err(EncodeError::ValueTooBig);
        }
        Ok(
            Self {
                fixed_header: FixedHeader::new(packet_type, flags, len),
                variable_header: variable_header,
                payload: payload,
            },
        )
    }

    /// Return a reference to the fixed header of the packet.
    ///
    /// The len field of the returned header will be valid.
    pub fn fixed_header(&self) -> (r: &FixedHeader)
        ensures
            r@ == self@.fixed_header,
            self@.consistent(),
    {
        proof {
            use_type_invariant(self);
        }
        &self.fixed_header
    }

    /// Return a reference to the variable header of the packet.
    pub fn variable_header(&self) -> (r: &Option<VariableHeader<'a>>)
        ensures
            spec_header_view(*r) == self@.variable_header,
    {
        &self.variable_header
    }

    /// Return a reference to the payload of the packet.
    pub fn payload(&self) -> (r: &Payload<'a>)
        ensures
            r@ == self@.payload,
    {
        &self.payload
    }
}

impl<'a> Decodable<'a> for Packet<'a> {
    open spec fn spec_decode(bytes: Seq<u8>) -> Decoded<PacketView> {
        spec_decode_packet(bytes)
    }

    /// Decode any MQTT packet from a pre-allocated buffer.
    ///
    /// If an unrecoverable error occurs an `Err(x)` is returned, the caller should
    /// disconnect and network connection and discard the contents of the connection
    /// receive buffer.
    ///
    /// Decoding may return an `Ok(Status::Partial(x))` in which case the caller
    /// should buffer at most `x` more bytes and then attempt decoding again.
    ///
    /// If decoding succeeds an `Ok(Status::Complete(x))` will be returned
    /// containing the number of bytes read from the buffer and the decoded packet.
    /// The lifetime of the decoded packet is tied to the input buffer.
    fn decode(bytes: &'a [u8]) -> (r: Decoded<Self>) {
        let (fixed_header_offset, fixed_header) = match FixedHeader::decode(bytes) {
            Ok(Status::Complete(v)) => v,
            Ok(Status::Partial(n)) => return Ok(Status::Partial(n)),
            Err(e) => return Err(e),
        };
        proof {
            lemma_fixed_header_bounds(bytes@);
        }
        let rest = skip(bytes, fixed_header_offset);
        let len = fixed_header.len() as usize;
        let ghost fixed = fixed_header@;
        proof {
            lemma_variable_header_reencode(fixed.packet_type, fixed.flags, rest@);
        }

        let (variable_header_consumed, variable_header) = if let Some(result) =
            VariableHeader::decode(fixed_header.packet_type(), fixed_header.flags(), rest) {
            let (variable_header_offset, variable_header) = match result {
                Ok(Status::Complete(v)) => v,
                Ok(Status::Partial(n)) => return Ok(Status::Partial(n)),
                Err(e) => return Err(e),
            };
            (variable_header_offset, Some(variable_header))
        } else {
            (0, None)
        };
        let ghost header = spec_header_view(variable_header);

        // The variable header may not reach beyond the end of the packet.
        if variable_header_consumed > len {
            return Err(DecodeError::InvalidLength);
        }
        let payload_len = len - variable_header_consumed;

        let available = rest.len() - variable_header_consumed;
        if available < payload_len {
            return Ok(Status::Partial(payload_len - available));
        }
        let payload_bytes = &rest[variable_header_consumed..len];
        proof {
            reveal(spec_decode_packet_payload);
            lemma_packet_payload_decoded(fixed.packet_type, header, payload_bytes@);
        }

        let payload = match &variable_header {
            Some(VariableHeader::Connect(connect)) => {
                match payload::connect::Connect::decode(connect.flags(), payload_bytes) {
                    Err(e) => return Err(e),
                    Ok(Status::Partial(n)) => return Ok(Status::Partial(n)),
                    Ok(Status::Complete((n, payload))) => {
                        // No byte of the packet may be left over.
                        if n != payload_len {
                            return Err(DecodeError::InvalidLength);
                        }
                        Payload::Connect(payload)
                    },
                }
            },
            _ => {
                if let Some(result) = Payload::decode(fixed_header.packet_type(), payload_bytes) {
                    match result {
                        Err(e) => return Err(e),
                        Ok(Status::Partial(n)) => return Ok(Status::Partial(n)),
                        Ok(Status::Complete((_, payload))) => payload,
                    }
                } else {
                    Payload::Bytes(payload_bytes)
                }
            },
        };

        Ok(
            Status::Complete(
                (fixed_header_offset + len, Self { fixed_header, variable_header, payload }),
            ),
        )
    }
}

impl<'a> Encodable for Packet<'a> {
    open spec fn encoding(&self) -> Seq<u8> {
        self@.encoding()
    }

    open spec fn encode_result(&self, capacity: usize) -> Result<usize, EncodeError> {
        self@.encode_result(capacity)
    }

    /// Calculate the exact length of the fully encoded packet.
    ///
    /// The encode buffer will need to hold at least this number of bytes.
    fn encoded_len(&self) -> (n: usize) {
        proof {
            use_type_invariant(self);
        }
        self.fixed_header.encoded_len() + self.fixed_header.len() as usize
    }

    /// Encode a packet for sending over a network connection.
    ///
    /// If encoding fails an `Err(x)` is returned.
    ///
    /// If encoding succeeds an `Ok(written)` is returned with the number of
    /// bytes written to the buffer.
    fn encode(&self, bytes: &mut [u8]) -> (r: Result<usize, EncodeError>) {
        let ghost before = bytes@;
        let ghost capacity = bytes.len();
        let ghost view = self@;
        let ghost a = view.fixed_header.encoding().len();
        let ghost b = spec_header_encoding(view.variable_header).len();
        let ghost r1 = encode_fixed(a, capacity);
        let ghost r2 = match view.variable_header {
            Some(h) => h.encode_result(space_left(capacity, a)),
            None => Ok(0),
        };
        let ghost r3 = view.payload.encode_result(space_left(capacity, a + b));
        let ghost mut written = Seq::<u8>::empty();
        let mut offset: usize = 0;
        proof {
            assert(view.encode_result(capacity) == encode_then(r1, encode_then(r2, r3)));
            lemma_skip_skip(before, 0, 0);
            lemma_split(before, 0, 0);
        }

        let first = encode_at(&self.fixed_header, bytes, offset, Ghost(before), Ghost(written));
        assert(first == r1);
        offset += match first {
            Ok(o) => o,
            Err(e) => return Err(e),
        };
        proof {
            written = written + view.fixed_header.encoding();
        }
        if let Some(variable_header) = &self.variable_header {
            let second = encode_at(variable_header, bytes, offset, Ghost(before), Ghost(written));
            assert(second == r2);
            offset += match second {
                Ok(o) => o,
                Err(e) => return Err(e),
            };
        }
        proof {
            lemma_split(written, 0, 0);
            written = written + spec_header_encoding(view.variable_header);
            assert(offset == a + b);
        }
        let third = encode_at(&self.payload, bytes, offset, Ghost(before), Ghost(written));
        assert(third == r3);
        offset += match third {
            Ok(o) => o,
            Err(e) => return Err(e),
        };

        Ok(offset)
    }
}

/// The payload of a packet of the given type and variable header, which is
/// all of `bytes`. The payload of a Connect packet is read under the flags
/// of its variable header and must take every byte. Other payloads are read
/// by the rule of their packet type, and where there is none, the bytes
/// stand for themselves.
#[verifier::opaque]
pub open spec fn spec_decode_packet_payload(
    packet_type: PacketType,
    header: Option<VariableHeaderView>,
    bytes: Seq<u8>,
) -> Decoded<PayloadView> {
    match header {
        Some(VariableHeaderView::Connect(c)) => match spec_decode_connect_payload(
            c.flags,
            bytes,
        ) {
            Err(e) => Err(e),
            Ok(Status::Partial(n)) => Ok(Status::Partial(n)),
            Ok(Status::Complete((n, p))) => if n == bytes.len() {
                Ok(Status::Complete((n, PayloadView::Connect(p))))
            } else {
                Err(DecodeError::InvalidLength)
            },
        },
        _ => match spec_decode_payload(packet_type, bytes) {
            Some(r) => r,
            None => Ok(Status::Complete((bytes.len() as usize, PayloadView::Bytes(bytes)))),
        },
    }
}

/// The packet whose fixed header `fixed` took `offset` bytes and whose
/// variable header `header` took the first `consumed` bytes of `bytes`,
/// which are what follows the fixed header. The remaining length of the
/// fixed header says where the packet ends: a variable header that went
/// beyond that is refused, bytes that end before that are waited for, and
/// what lies between the variable header and that end is the payload.
pub open spec fn spec_decode_after_header(
    fixed: FixedHeaderView,
    offset: usize,
    header: Option<VariableHeaderView>,
    consumed: usize,
    bytes: Seq<u8>,
) -> Decoded<PacketView> {
    if consumed > fixed.len {
        Err(DecodeError::InvalidLength)
    } else if bytes.len() < fixed.len {
        Ok(Status::Partial((fixed.len - bytes.len()) as usize))
    } else {
        match spec_decode_packet_payload(
            fixed.packet_type,
            header,
            bytes.subrange(consumed as int, fixed.len as int),
        ) {
            Err(e) => Err(e),
            Ok(Status::Partial(n)) => Ok(Status::Partial(n)),
            Ok(Status::Complete((_, payload))) => Ok(
                Status::Complete(
                    (
                        (offset + fixed.len) as usize,
                        PacketView { fixed_header: fixed, variable_header: header, payload },
                    ),
                ),
            ),
        }
    }
}

/// The packet whose fixed header `fixed` took `offset` bytes and is
/// followed by `bytes`: the variable header, where packets of that type
/// have one, and then the rest.
pub open spec fn spec_decode_after_fixed_header(
    fixed: FixedHeaderView,
    offset: usize,
    bytes: Seq<u8>,
) -> Decoded<PacketView> {
    match spec_decode_variable_header(fixed.packet_type, fixed.flags, bytes) {
        Some(Err(e)) => Err(e),
        Some(Ok(Status::Partial(n))) => Ok(Status::Partial(n)),
        Some(Ok(Status::Complete((consumed, header)))) => spec_decode_after_header(
            fixed,
            offset,
            Some(header),
            consumed,
            bytes,
        ),
        None => spec_decode_after_header(fixed, offset, None, 0, bytes),
    }
}

/// The packet at the front of `bytes`: a fixed header, and what follows it.
pub open spec fn spec_decode_packet(bytes: Seq<u8>) -> Decoded<PacketView> {
    match spec_decode_fixed_header(bytes) {
        Err(e) => Err(e),
        Ok(Status::Partial(n)) => Ok(Status::Partial(n)),
        Ok(Status::Complete((offset, fixed))) => spec_decode_after_fixed_header(
            fixed,
            offset,
            bytes.skip(offset as int),
        ),
    }
}

impl PacketView {
    /// The payload is one that a packet of this type and variable header
    /// has, and it can be written and read back.
    pub open spec fn payload_valid(self) -> bool {
        match self.variable_header {
            Some(VariableHeaderView::Connect(c)) => self.payload matches PayloadView::Connect(p)
                && p.valid(c.flags),
            _ => match self.fixed_header.packet_type {
                PacketType::Subscribe => self.payload matches PayloadView::Subscribe(t)
                    && spec_valid_topics(t),
                PacketType::Suback => self.payload matches PayloadView::Suback(c)
                    && spec_valid_return_codes(c),
                _ => self.payload is Bytes,
            },
        }
    }

    /// The variable header is one that a packet of this type has, and it
    /// can be written and read back.
    pub open spec fn header_valid(self) -> bool {
        match self.variable_header {
            Some(h) => h.packet_type() == self.fixed_header.packet_type && h.valid(
                self.fixed_header.flags,
            ),
            None => !spec_has_variable_header(self.fixed_header.packet_type),
        }
    }

    /// The packet can be written and read back: its parts are valid, they
    /// are the parts that a packet of its type has, and the remaining
    /// length counts them.
    pub open spec fn valid(self) -> bool {
        &&& self.fixed_header.valid()
        &&& self.consistent()
        &&& self.header_valid()
        &&& self.payload_valid()
    }
}

/// A payload that was read is one that a packet of that type and variable
/// header has, it is valid, and it is written in as many bytes as it was
/// read from.
pub proof fn lemma_packet_payload_decoded(
    packet_type: PacketType,
    header: Option<VariableHeaderView>,
    bytes: Seq<u8>,
)
    requires
        header matches Some(h) ==> h.packet_type() == packet_type,
    ensures
        spec_decode_packet_payload(packet_type, header, bytes) matches Ok(
            Status::Complete((_, payload)),
        ) ==> {
            let p = PacketView {
                fixed_header: FixedHeaderView { packet_type, flags: 0, len: 0 },
                variable_header: header,
                payload,
            };
            &&& p.payload_valid()
            &&& payload.encoding().len() == bytes.len()
        },
{
    reveal(spec_decode_packet_payload);
    match header {
        Some(VariableHeaderView::Connect(c)) => {
            lemma_connect_payload_reencode(c.flags, bytes);
            assert(bytes.subrange(0, bytes.len() as int) =~= bytes);
        },
        _ => {
            if packet_type == PacketType::Subscribe {
                if spec_decode_packet_payload(packet_type, header, bytes) is Ok {
                    lemma_subscribe_reencode(bytes);
                }
            }
        },
    }
}

/// A valid payload that is written and read back, as the payload of a
/// packet of its type and variable header, is the same payload.
pub proof fn lemma_packet_payload_round_trip(p: PacketView)
    requires
        p.payload_valid(),
        p.header_valid(),
    ensures
        spec_decode_packet_payload(
            p.fixed_header.packet_type,
            p.variable_header,
            p.payload.encoding(),
        ) matches Ok(Status::Complete((_, payload))) && payload == p.payload,
{
    reveal(spec_decode_packet_payload);
    match p.variable_header {
        Some(VariableHeaderView::Connect(c)) => {
            let payload = p.payload->Connect_0;
            lemma_connect_payload_round_trip(payload, c.flags, Seq::empty());
            lemma_split(payload.encoding(), 0, 0);
        },
        _ => {
            match p.payload {
                PayloadView::Subscribe(t) => {
                    lemma_subscribe_round_trip(t);
                },
                _ => {},
            }
        },
    }
}

/// What was read behind a fixed header is a valid packet whose remaining
/// length counts its variable header and payload, and it ends where the
/// remaining length says.
pub proof fn lemma_after_fixed_header_decoded(fixed: FixedHeaderView, offset: usize, bytes: Seq<u8>)
    requires
        fixed.valid(),
        offset + fixed.len <= usize::MAX,
    ensures
        spec_decode_after_fixed_header(fixed, offset, bytes) matches Ok(
            Status::Complete((n, p)),
        ) ==> {
            &&& n == offset + fixed.len
            &&& fixed.len <= bytes.len()
            &&& p.fixed_header == fixed
            &&& p.valid()
        },
{
    if let Ok(Status::Complete((n, p))) = spec_decode_after_fixed_header(fixed, offset, bytes) {
        lemma_variable_header_reencode(fixed.packet_type, fixed.flags, bytes);
        let consumed = match spec_decode_variable_header(fixed.packet_type, fixed.flags, bytes) {
            Some(Ok(Status::Complete((c, _)))) => c,
            _ => 0,
        };
        lemma_packet_payload_decoded(
            fixed.packet_type,
            p.variable_header,
            bytes.subrange(consumed as int, fixed.len as int),
        );
    }
}

/// A packet that was read is valid, its remaining length counts its
/// variable header and payload, and it took no more bytes than there are.
pub proof fn lemma_packet_decoded(bytes: Seq<u8>)
    ensures
        spec_decode_packet(bytes) matches Ok(Status::Complete((n, p))) ==> {
            &&& n <= bytes.len()
            &&& n == spec_consumed(spec_decode_fixed_header(bytes)) + p.fixed_header.len
            &&& p.valid()
        },
{
    if let Ok(Status::Complete((n, p))) = spec_decode_packet(bytes) {
        lemma_fixed_header_bounds(bytes);
        let offset = spec_consumed(spec_decode_fixed_header(bytes)) as usize;
        lemma_after_fixed_header_decoded(p.fixed_header, offset, bytes.skip(offset as int));
    }
}

/// Round trip: a valid packet that is written and read back is the same
/// packet, and reading takes exactly the bytes that writing gave, whatever
/// follows them in the buffer.
pub proof fn lemma_packet_round_trip(p: PacketView, rest: Seq<u8>)
    requires
        p.valid(),
    ensures
        spec_decode_packet(p.encoding() + rest) == Ok::<_, DecodeError>(
            Status::Complete((p.encoding().len() as usize, p)),
        ),
        p.encoding().len() <= MAX_REMAINING_LENGTH + 5,
{
    let e1 = p.fixed_header.encoding();
    let e2 = spec_header_encoding(p.variable_header);
    let e3 = p.payload.encoding();
    let fixed = p.fixed_header;
    lemma_concat_assoc(e1 + e2, e3, rest);
    lemma_concat_assoc(e1, e2, e3 + rest);
    lemma_fixed_header_round_trip(fixed, e2 + (e3 + rest));
    lemma_skip_concat(e1, e2 + (e3 + rest));
    let tail = e2 + (e3 + rest);
    if let Some(h) = p.variable_header {
        lemma_variable_header_round_trip(h, fixed.flags, e3 + rest);
    } else {
        lemma_variable_header_reencode(fixed.packet_type, fixed.flags, tail);
    }
    lemma_packet_payload_round_trip(p);
    lemma_concat_assoc(e2, e3, rest);
    lemma_skip_concat(e2 + e3, rest);
    lemma_skip_concat(e2, e3);
    assert(tail.subrange(e2.len() as int, fixed.len as int) =~= e3);
}

/// What follows a fixed header decodes from a truncated buffer as
/// [`prefix_agrees`] says, counted from the end of the fixed header.
pub proof fn lemma_after_fixed_header_prefix(
    fixed: FixedHeaderView,
    offset: usize,
    bytes: Seq<u8>,
    k: int,
)
    requires
        0 <= k <= bytes.len(),
        fixed.valid(),
        offset + fixed.len <= usize::MAX,
    ensures
        ({
            let full = spec_decode_after_fixed_header(fixed, offset, bytes);
            let part = spec_decode_after_fixed_header(fixed, offset, bytes.subrange(0, k));
            full matches Ok(Status::Complete(_)) ==> if k >= fixed.len {
                part == full
            } else {
                part matches Ok(Status::Partial(m)) && 0 < m && k + m <= fixed.len
            }
        }),
{
    if let Ok(Status::Complete((n, p))) = spec_decode_after_fixed_header(fixed, offset, bytes) {
        let part = bytes.subrange(0, k);
        lemma_variable_header_prefix(fixed.packet_type, fixed.flags, bytes, k);
        lemma_variable_header_reencode(fixed.packet_type, fixed.flags, bytes);
        lemma_variable_header_reencode(fixed.packet_type, fixed.flags, part);
        let consumed = match spec_decode_variable_header(fixed.packet_type, fixed.flags, bytes) {
            Some(Ok(Status::Complete((c, _)))) => c,
            _ => 0,
        };
        if k >= fixed.len {
            assert(part.subrange(consumed as int, fixed.len as int) =~= bytes.subrange(
                consumed as int,
                fixed.len as int,
            ));
        }
    }
}

/// Partial monotonicity: where a buffer holds a packet of `n` bytes, its
/// first `k` bytes decode to the same packet if `k` is at least `n`; and if
/// `k` is less, they decode to a request for more bytes, at least one and no
/// more than the packet still lacks, never to a packet and never to an
/// error. See [`prefix_agrees`].
pub proof fn lemma_packet_prefix(bytes: Seq<u8>, k: int)
    requires
        0 <= k <= bytes.len(),
    ensures
        prefix_agrees(spec_decode_packet(bytes), spec_decode_packet(bytes.subrange(0, k)), k),
{
    if let Ok(Status::Complete((n, p))) = spec_decode_packet(bytes) {
        let part = bytes.subrange(0, k);
        lemma_fixed_header_prefix(bytes, k);
        lemma_fixed_header_bounds(bytes);
        lemma_packet_decoded(bytes);
        let offset = spec_consumed(spec_decode_fixed_header(bytes)) as usize;
        if k >= offset {
            lemma_prefix_skip(bytes, k, offset as int);
            lemma_after_fixed_header_prefix(
                p.fixed_header,
                offset,
                bytes.skip(offset as int),
                k - offset,
            );
        }
    }
}

/// A valid packet is written into every buffer that has room for it: with
/// [`lemma_packet_round_trip`], what is then in the buffer decodes to the
/// packet again.
pub proof fn lemma_packet_encodes(p: PacketView, capacity: usize)
    requires
        p.valid(),
    ensures
        p.encode_result(capacity) == encode_fixed(p.encoding().len(), capacity),
{
    let a = p.fixed_header.encoding().len();
    let b = spec_header_encoding(p.variable_header).len();
    lemma_fixed_header_round_trip(p.fixed_header, Seq::empty());
    if let Some(h) = p.variable_header {
        lemma_variable_header_encodes(h, p.fixed_header.flags, space_left(capacity, a));
    }
    match p.payload {
        PayloadView::Connect(c) => {
            lemma_connect_payload_encodes(
                c,
                p.variable_header->Some_0->Connect_0.flags,
                space_left(capacity, a + b),
            );
        },
        PayloadView::Subscribe(t) => {
            lemma_subscribe_encodes(t, space_left(capacity, a + b));
        },
        _ => {},
    }
}

/// The Connect packet that [`Packet::connect`] makes is valid if its
/// variable header and its payload are, and if the flags of the one
/// announce the fields of the other.
pub proof fn lemma_connect_packet_valid(
    header: variable_header::connect::ConnectView,
    payload: payload::connect::ConnectView,
)
    requires
        header.valid(),
        payload.valid(header.flags),
    ensures
        spec_packet(
            PacketType::Connect,
            0,
            Some(VariableHeaderView::Connect(header)),
            PayloadView::Connect(payload),
        ).valid(),
{
    variable_header::connect::lemma_connect_round_trip(header, Seq::empty());
    lemma_connect_payload_round_trip(payload, header.flags, Seq::empty());
}

/// The Subscribe packet that [`Packet::subscribe`] makes is valid if its
/// topic filters are valid strings and it is not too long.
pub proof fn lemma_subscribe_packet_valid(id: u16, topics: Seq<payload::subscribe::Topic>)
    requires
        spec_valid_topics(topics),
        2 + payload::subscribe::spec_encode_topics(topics).len() <= MAX_REMAINING_LENGTH,
    ensures
        spec_packet(
            PacketType::Subscribe,
            2,
            Some(VariableHeaderView::Subscribe(id)),
            PayloadView::Subscribe(topics),
        ).valid(),
{
}

/// The Publish packet that [`Packet::publish`] makes is valid if its flags
/// are four bits, its topic name is a valid string, it has a packet
/// identifier if and only if its quality of service is not at most once,
/// and it is not too long.
pub proof fn lemma_publish_packet_valid(
    flags: u8,
    header: variable_header::publish::PublishView,
    payload: Seq<u8>,
)
    requires
        flags < 16,
        header.valid(flags),
        header.encoding().len() + payload.len() <= MAX_REMAINING_LENGTH,
    ensures
        spec_packet(
            PacketType::Publish,
            flags,
            Some(VariableHeaderView::Publish(header)),
            PayloadView::Bytes(payload),
        ).valid(),
{
}

/// The packets that [`Packet::puback`], [`Packet::pingreq`] and
/// [`Packet::pingresp`] make are valid.
pub proof fn lemma_small_packets_valid(id: u16)
    ensures
        spec_packet(
            PacketType::Puback,
            0,
            Some(VariableHeaderView::Puback(id)),
            PayloadView::Bytes(Seq::empty()),
        ).valid(),
        spec_packet(PacketType::Pingreq, 0, None, PayloadView::Bytes(Seq::empty())).valid(),
        spec_packet(PacketType::Pingresp, 0, None, PayloadView::Bytes(Seq::empty())).valid(),
{
}

} // verus!
