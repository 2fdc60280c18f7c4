use vstd::prelude::*;
use vstd::std_specs::convert::{FromSpecImpl, TryFromSpecImpl};
use vstd::utf8::{encode_utf8, is_ascii_chars, is_ascii_chars_encode_utf8};

use super::HeaderDecode;
use crate::bits;
use crate::bits::spec_weight;
use crate::codec::string::{
    encode_string, lemma_parse_string_prefix, lemma_string_encodes, lemma_string_reencode,
    lemma_string_round_trip, parse_string, spec_encode_string, spec_parse_string, valid_string,
};
use crate::codec::values::{
    encode_prefixed, encode_u16, encode_u8, lemma_u16_round_trip, parse_u16, parse_u8, skip,
    spec_encode_u16, spec_u16,
};
use crate::codec::{
    encode_fixed, encode_then, prefix_agrees, space_left, Decoded, Encodable,
};
use crate::error::{DecodeError, EncodeError};
use crate::fixed_header::PacketFlags;
use crate::qos;
use crate::qos::{spec_qos, spec_qos_bits};
use crate::status::Status;

verus! {

/// The protocol that a client asks for by name.
#[derive(PartialEq, Eq, Debug, Clone, Copy, Structural)]
pub enum Protocol {
    MQTT,
}

impl Protocol {
    /// The name of the protocol as it goes on the wire.
    pub fn name(self) -> (r: &'static str)
        ensures
            r@ == "MQTT"@,
    {
        match self {
            Protocol::MQTT => "MQTT",
        }
    }
}

/// The revision of the protocol. There is one, and its number is 4.
#[derive(PartialEq, Eq, Debug, Clone, Copy, Structural)]
pub enum Level {
    Level3_1_1,
}

/// The number of the one protocol level.
pub const PROTOCOL_LEVEL_MQTT_3_1_1: u8 = 4;

impl TryFrom<u8> for Level {
    type Error = ();

    fn try_from(val: u8) -> (r: Result<Self, Self::Error>) {
        if val == 4 {
            Ok(Level::Level3_1_1)
        } else {
            Err(())
        }
    }
}

impl TryFromSpecImpl<u8> for Level {
    open spec fn obeys_try_from_spec() -> bool {
        true
    }

    open spec fn try_from_spec(val: u8) -> Result<Self, Self::Error> {
        if val == 4 {
            Ok(Level::Level3_1_1)
        } else {
            Err(())
        }
    }
}

impl From<Level> for u8 {
    fn from(val: Level) -> (r: u8) {
        match val {
            Level::Level3_1_1 => 4,
        }
    }
}

impl FromSpecImpl<Level> for u8 {
    open spec fn obeys_from_spec() -> bool {
        true
    }

    open spec fn from_spec(val: Level) -> u8 {
        4
    }
}

/// The flags of a Connect packet: bit 7 says that a user name follows, bit 6
/// a password, bit 2 a will; bit 5 and bits 4 and 3 say how the will is
/// kept and delivered; bit 1 asks for a clean session.
#[derive(PartialEq, Clone, Copy, Debug)]
pub struct Flags(u8);

impl View for Flags {
    type V = u8;

    closed spec fn view(&self) -> u8 {
        self.0
    }
}

/// Whether Connect flags announce a user name.
pub open spec fn spec_has_username(flags: u8) -> bool {
    flags / 128 % 2 == 1
}

/// Whether Connect flags announce a password.
pub open spec fn spec_has_password(flags: u8) -> bool {
    flags / 64 % 2 == 1
}

/// Whether Connect flags ask the server to retain the will.
pub open spec fn spec_will_retain(flags: u8) -> bool {
    flags / 32 % 2 == 1
}

/// The quality of service of the will in Connect flags.
pub open spec fn spec_will_qos(flags: u8) -> Result<qos::QoS, qos::Error> {
    spec_qos((flags / 8 % 4) as u8)
}

/// Whether Connect flags announce a will.
pub open spec fn spec_has_will(flags: u8) -> bool {
    flags / 4 % 2 == 1
}

/// Whether Connect flags ask for a clean session.
pub open spec fn spec_clean_session(flags: u8) -> bool {
    flags / 2 % 2 == 1
}

impl Default for Flags {
    fn default() -> (r: Self)
        ensures
            r@ == 0,
    {
        Flags(0)
    }
}

impl Flags {
    /// Whether a user name follows in the payload.
    pub fn has_username(&self) -> (r: bool)
        ensures
            r == spec_has_username(self@),
    {
        proof {
            bits::lemma_bit(self.0);
        }
        bits::bit(self.0, 7)
    }

    /// Sets bit 7 and leaves the others.
    pub fn set_has_username(&mut self, value: bool)
        ensures
            final(self)@ == old(self)@ - spec_weight(spec_has_username(old(self)@), 128)
                + spec_weight(value, 128),
            spec_has_username(final(self)@) == value,
    {
        proof {
            bits::lemma_bit(self.0);
            bits::lemma_set_bit(self.0, value);
        }
        bits::set_bit(&mut self.0, 7, value)
    }

    /// Whether a password follows in the payload.
    pub fn has_password(&self) -> (r: bool)
        ensures
            r == spec_has_password(self@),
    {
        proof {
            bits::lemma_bit(self.0);
        }
        bits::bit(self.0, 6)
    }

    /// Sets bit 6 and leaves the others.
    pub fn set_has_password(&mut self, value: bool)
        ensures
            final(self)@ == old(self)@ - spec_weight(spec_has_password(old(self)@), 64)
                + spec_weight(value, 64),
            spec_has_password(final(self)@) == value,
    {
        proof {
            bits::lemma_bit(self.0);
            bits::lemma_set_bit(self.0, value);
        }
        bits::set_bit(&mut self.0, 6, value)
    }

    /// Whether the server is to retain the will.
    pub fn will_retain(&self) -> (r: bool)
        ensures
            r == spec_will_retain(self@),
    {
        proof {
            bits::lemma_bit(self.0);
        }
        bits::bit(self.0, 5)
    }

    /// Sets bit 5 and leaves the others.
    pub fn set_will_retain(&mut self, value: bool)
        ensures
            final(self)@ == old(self)@ - spec_weight(spec_will_retain(old(self)@), 32)
                + spec_weight(value, 32),
            spec_will_retain(final(self)@) == value,
    {
        proof {
            bits::lemma_bit(self.0);
            bits::lemma_set_bit(self.0, value);
        }
        bits::set_bit(&mut self.0, 5, value)
    }

    /// Whether a will follows in the payload.
    pub fn has_will(&self) -> (r: bool)
        ensures
            r == spec_has_will(self@),
    {
        proof {
            bits::lemma_bit(self.0);
        }
        bits::bit(self.0, 2)
    }

    /// Sets bit 2 and leaves the others.
    pub fn set_has_will_flag(&mut self, value: bool)
        ensures
            final(self)@ == old(self)@ - spec_weight(spec_has_will(old(self)@), 4) + spec_weight(
                value,
                4,
            ),
            spec_has_will(final(self)@) == value,
    {
        proof {
            bits::lemma_bit(self.0);
            bits::lemma_set_bit(self.0, value);
        }
        bits::set_bit(&mut self.0, 2, value)
    }

    /// Whether the client asks for a clean session.
    pub fn clean_session(&self) -> (r: bool)
        ensures
            r == spec_clean_session(self@),
    {
        proof {
            bits::lemma_bit(self.0);
        }
        bits::bit(self.0, 1)
    }

    /// Sets bit 1 and leaves the others.
    pub fn set_clean_session(&mut self, value: bool)
        ensures
            final(self)@ == old(self)@ - spec_weight(spec_clean_session(old(self)@), 2)
                + spec_weight(value, 2),
            spec_clean_session(final(self)@) == value,
    {
        proof {
            bits::lemma_bit(self.0);
            bits::lemma_set_bit(self.0, value);
        }
        bits::set_bit(&mut self.0, 1, value)
    }

    /// The quality of service of the will, unless both of its bits are set.
    pub fn will_qos(&self) -> (r: Result<qos::QoS, qos::Error>)
        ensures
            r == spec_will_qos(self@),
    {
        proof {
            bits::lemma_bit_range(self.0);
        }
        let qos_bits: u8 = bits::bit_range(self.0, 4, 3);
        qos::QoS::try_from(qos_bits)
    }

    /// Sets the quality of service of the will and leaves the other bits.
    #[allow(dead_code)]
    pub fn set_will_qos(&mut self, qos: qos::QoS)
        ensures
            final(self)@ == old(self)@ - (old(self)@ / 8 % 4) * 8 + spec_qos_bits(qos) * 8,
            spec_will_qos(final(self)@) == Ok::<qos::QoS, qos::Error>(qos),
    {
        let field = u8::from(qos);
        proof {
            bits::lemma_set_bit_range(self.0, field);
        }
        bits::set_bit_range(&mut self.0, 4, 3, field)
    }
}

impl From<Flags> for u8 {
    fn from(val: Flags) -> (r: u8) {
        val.0
    }
}

impl FromSpecImpl<Flags> for u8 {
    open spec fn obeys_from_spec() -> bool {
        true
    }

    open spec fn from_spec(val: Flags) -> u8 {
        val@
    }
}

/// The variable header of a Connect packet.
#[derive(PartialEq, Debug)]
pub struct Connect<'buf> {
    name: &'buf str,
    level: Level,
    flags: Flags,
    keep_alive: u16,
}

/// What the variable header of a Connect packet holds.
pub struct ConnectView {
    pub name: Seq<char>,
    pub level: Level,
    pub flags: u8,
    pub keep_alive: u16,
}

impl<'buf> View for Connect<'buf> {
    type V = ConnectView;

    closed spec fn view(&self) -> ConnectView {
        ConnectView {
            name: self.name@,
            level: self.level,
            flags: self.flags@,
            keep_alive: self.keep_alive,
        }
    }
}

impl ConnectView {
    /// The protocol name, the level, the flags and the keep-alive time.
    pub open spec fn encoding(self) -> Seq<u8> {
        spec_encode_string(self.name) + seq![PROTOCOL_LEVEL_MQTT_3_1_1, self.flags]
            + spec_encode_u16(self.keep_alive)
    }

    /// What writing the header into a buffer of `capacity` bytes returns.
    pub open spec fn encode_result(self, capacity: usize) -> Result<usize, EncodeError> {
        let name_len = encode_utf8(self.name).len();
        encode_then(
            encode_prefixed(name_len, capacity),
            encode_fixed(4, space_left(capacity, 2 + name_len)),
        )
    }

    /// The header can be written and read back: its protocol name is a
    /// valid string, and its flags hold a quality of service for the will.
    pub open spec fn valid(self) -> bool {
        &&& valid_string(self.name)
        &&& spec_will_qos(self.flags) is Ok
    }
}

/// The variable header of a Connect packet: the protocol name, which may be
/// any string; the protocol level, which must be 4; the flags, in which the
/// quality of service of the will must not have both bits set; and the
/// keep-alive time. Each field is checked as soon as it is there.
pub open spec fn spec_decode_connect(bytes: Seq<u8>) -> Decoded<ConnectView> {
    match spec_parse_string(bytes) {
        Err(e) => Err(e),
        Ok(Status::Partial(n)) => Ok(Status::Partial(n)),
        Ok(Status::Complete((n, name))) => if bytes.len() < n + 1 {
            Ok(Status::Partial(1))
        } else if bytes[n as int] != PROTOCOL_LEVEL_MQTT_3_1_1 {
            Err(DecodeError::InvalidProtocolLevel)
        } else if bytes.len() < n + 2 {
            Ok(Status::Partial(1))
        } else if spec_will_qos(bytes[n + 1]) is Err {
            Err(DecodeError::InvalidConnectFlag)
        } else if bytes.len() < n + 4 {
            Ok(Status::Partial((n + 4 - bytes.len()) as usize))
        } else {
            Ok(
                Status::Complete(
                    (
                        (n + 4) as usize,
                        ConnectView {
                            name,
                            level: Level::Level3_1_1,
                            flags: bytes[n + 1],
                            keep_alive: spec_u16(bytes[n + 2], bytes[n + 3]),
                        },
                    ),
                ),
            )
        },
    }
}

impl<'buf> Connect<'buf> {
    /// A header that asks for the given protocol and level.
    pub fn new(protocol: Protocol, level: Level, flags: Flags, keep_alive: u16) -> (r: Self)
        ensures
            r@ == (ConnectView { name: "MQTT"@, level, flags: flags@, keep_alive }),
    {
        let name = protocol.name();
        Connect { name: name, level, flags, keep_alive }
    }

    /// The name of the protocol.
    pub fn name(&self) -> (r: &str)
        ensures
            r@ == self@.name,
    {
        self.name
    }

    /// The level of the protocol.
    pub fn level(&self) -> (r: Level)
        ensures
            r == self@.level,
    {
        self.level
    }

    /// The flags of the connection request.
    pub fn flags(&self) -> (r: Flags)
        ensures
            r@ == self@.flags,
    {
        self.flags
    }

    /// The longest time in seconds that the client lets pass between two
    /// packets.
    pub fn keep_alive(&self) -> (r: u16)
        ensures
            r == self@.keep_alive,
    {
        self.keep_alive
    }
}

impl<'buf> HeaderDecode<'buf> for Connect<'buf> {
    open spec fn spec_decode(flags: PacketFlags, bytes: Seq<u8>) -> Decoded<ConnectView> {
        spec_decode_connect(bytes)
    }

    fn decode(_flags: PacketFlags, bytes: &'buf [u8]) -> (r: Decoded<Connect<'buf>>) {
        // read protocol name
        let (offset, name) = match parse_string(bytes) {
            Ok(Status::Complete(v)) => v,
            Ok(Status::Partial(n)) => return Ok(Status::Partial(n)),
            Err(e) => return Err(e),
        };
        proof {
            lemma_string_reencode(bytes@);
        }

        // read protocol revision
        let (o, level) = match parse_u8(skip(bytes, offset)) {
            Ok(Status::Complete(v)) => v,
            Ok(Status::Partial(n)) => return Ok(Status::Partial(n)),
            Err(e) => return Err(e),
        };
        let offset = offset + o;

        let level = match Level::try_from(level) {
            Ok(l) => l,
            Err(_) => return Err(DecodeError::InvalidProtocolLevel),
        };
        if level != Level::Level3_1_1 {
            return Err(DecodeError::InvalidProtocolLevel);
        }
        // read protocol flags

        let (o, flags) = match parse_u8(skip(bytes, offset)) {
            Ok(Status::Complete(v)) => v,
            Ok(Status::Partial(n)) => return Ok(Status::Partial(n)),
            Err(e) => return Err(e),
        };
        let offset = offset + o;

        let flags = Flags(flags);

        if let Err(e) = flags.will_qos() {
            match e {
                qos::Error::BadPattern => return Err(DecodeError::InvalidConnectFlag),
            }
        }
        // read protocol keep alive

        let (o, keep_alive) = match parse_u16(skip(bytes, offset)) {
            Ok(Status::Complete(v)) => v,
            Ok(Status::Partial(n)) => return Ok(Status::Partial(n)),
            Err(e) => return Err(e),
        };
        let offset = offset + o;

        Ok(Status::Complete((offset, Connect { name, level, flags, keep_alive })))
    }
}

impl<'buf> Encodable for Connect<'buf> {
    open spec fn encoding(&self) -> Seq<u8> {
        self@.encoding()
    }

    open spec fn encode_result(&self, capacity: usize) -> Result<usize, EncodeError> {
        self@.encode_result(capacity)
    }

    fn encoded_len(&self) -> (n: usize) {
        self.name.encoded_len() + 1 + 1 + 2
    }

    fn encode(&self, bytes: &mut [u8]) -> (r: Result<usize, EncodeError>) {
        let mut offset: usize = 0;
        offset += match encode_string(self.name, bytes) {
            Ok(o) => o,
            Err(e) => return Err(e),
        };
        assert(offset == 2 + encode_utf8(self@.name).len());
        let (_, rest) = bytes.split_at_mut(offset);
        offset += match encode_u8(u8::from(self.level), rest) {
            Ok(o) => o,
            Err(e) => return Err(e),
        };
        let (_, rest) = rest.split_at_mut(1);
        offset += match encode_u8(u8::from(self.flags), rest) {
            Ok(o) => o,
            Err(e) => return Err(e),
        };
        let (_, rest) = rest.split_at_mut(1);
        offset += match encode_u16(self.keep_alive, rest) {
            Ok(o) => o,
            Err(e) => return Err(e),
        };
        assert(bytes@ =~= self@.encoding() + old(bytes)@.skip(offset as int));
        Ok(offset)
    }
}

/// A valid Connect header that is written and read back is the same header,
/// whatever follows it in the buffer.
pub proof fn lemma_connect_round_trip(header: ConnectView, rest: Seq<u8>)
    requires
        header.valid(),
    ensures
        spec_decode_connect(header.encoding() + rest) == Ok::<_, DecodeError>(
            Status::Complete((header.encoding().len() as usize, header)),
        ),
        header.encoding().len() == 6 + encode_utf8(header.name).len(),
{
    let tail = seq![PROTOCOL_LEVEL_MQTT_3_1_1, header.flags] + spec_encode_u16(header.keep_alive);
    let bytes = header.encoding() + rest;
    assert(bytes =~= spec_encode_string(header.name) + (tail + rest));
    lemma_string_round_trip(header.name, tail + rest);
    lemma_u16_round_trip(header.keep_alive, 0, 0);
    let n = spec_encode_string(header.name).len() as int;
    assert(bytes[n] == PROTOCOL_LEVEL_MQTT_3_1_1);
    assert(bytes[n + 1] == header.flags);
    assert(bytes[n + 2] == (header.keep_alive / 256) as u8);
    assert(bytes[n + 3] == (header.keep_alive % 256) as u8);
}

/// A Connect header that was read is valid, and it is written as the bytes
/// it was read from.
pub proof fn lemma_connect_reencode(bytes: Seq<u8>)
    ensures
        spec_decode_connect(bytes) matches Ok(Status::Complete((n, header))) ==> {
            &&& header.valid()
            &&& n <= bytes.len()
            &&& header.encoding() == bytes.subrange(0, n as int)
        },
{
    if let Ok(Status::Complete((n, header))) = spec_decode_connect(bytes) {
        lemma_string_reencode(bytes);
        lemma_u16_round_trip(0, bytes[n - 2], bytes[n - 1]);
        assert(header.encoding() =~= bytes.subrange(0, n as int));
    }
}

/// The first `k` bytes of a buffer decode as the whole buffer does, or ask
/// for more: see [`prefix_agrees`].
pub proof fn lemma_connect_prefix(bytes: Seq<u8>, k: int)
    requires
        0 <= k <= bytes.len(),
    ensures
        prefix_agrees(spec_decode_connect(bytes), spec_decode_connect(bytes.subrange(0, k)), k),
{
    lemma_parse_string_prefix(bytes, k);
    lemma_string_reencode(bytes);
}

/// The name of the protocol is a valid string.
pub proof fn lemma_protocol_name_valid()
    ensures
        valid_string("MQTT"@),
        encode_utf8("MQTT"@).len() == 4,
{
    reveal_strlit("MQTT");
    let name = "MQTT"@;
    assert(is_ascii_chars(name));
    is_ascii_chars_encode_utf8(name);
    assert(!name.contains('\0')) by {
        if name.contains('\0') {
            let i = choose|i: int| 0 <= i < name.len() && name[i] == '\0';
            assert(name[i] != '\0');
        }
    }
}

/// A valid Connect header is written into every buffer that has room for
/// it.
pub proof fn lemma_connect_encodes(header: ConnectView, capacity: usize)
    requires
        header.valid(),
    ensures
        header.encode_result(capacity) == encode_fixed(header.encoding().len(), capacity),
{
    lemma_string_encodes(header.name, capacity);
}

} // verus!
