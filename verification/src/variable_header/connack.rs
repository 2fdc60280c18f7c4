use vstd::prelude::*;
use vstd::std_specs::convert::TryFromSpecImpl;

use super::HeaderDecode;
use crate::bits;
use crate::codec::values::{encode_u8, parse_u8, skip};
use crate::codec::{encode_fixed, prefix_agrees, Decoded, Encodable};
use crate::error::{DecodeError, EncodeError};
use crate::fixed_header::PacketFlags;
use crate::status::Status;

verus! {

/// The flags of a Connack packet: bit 0 says that the server holds a
/// session for the client, and no other bit is ever set.
#[derive(PartialEq, Clone, Copy, Debug)]
pub struct Flags(u8);

impl View for Flags {
    type V = u8;

    closed spec fn view(&self) -> u8 {
        self.0
    }
}

/// The session bit of Connack flags.
pub open spec fn spec_session_present(flags: u8) -> bool {
    flags % 2 == 1
}

/// The Connack flags that are the byte `bits`.
pub closed spec fn spec_flags(bits: u8) -> Flags {
    Flags(bits)
}

/// Connack flags are their byte and nothing else.
pub broadcast proof fn lemma_flags_view(bits: u8)
    ensures
        #[trigger] spec_flags(bits)@ == bits,
{
}

impl Flags {
    /// Whether the server holds a session for the client.
    pub fn session_present(&self) -> (r: bool)
        ensures
            r == spec_session_present(self@),
    {
        proof {
            bits::lemma_bit(self.0);
        }
        bits::bit(self.0, 0)
    }
}

impl TryFrom<u8> for Flags {
    type Error = ();

    fn try_from(from: u8) -> (r: Result<Flags, ()>) {
        assert((0b11111110 & from != 0) == (from >= 2)) by (bit_vector);
        if 0b11111110 & from != 0 {
            Err(())
        } else {
            Ok(Flags(from))
        }
    }
}

impl TryFromSpecImpl<u8> for Flags {
    open spec fn obeys_try_from_spec() -> bool {
        true
    }

    open spec fn try_from_spec(from: u8) -> Result<Flags, ()> {
        if from >= 2 {
            Err(())
        } else {
            Ok(spec_flags(from))
        }
    }
}

impl Encodable for Flags {
    open spec fn encoding(&self) -> Seq<u8> {
        seq![self@]
    }

    open spec fn encode_result(&self, capacity: usize) -> Result<usize, EncodeError> {
        encode_fixed(1, capacity)
    }

    fn encoded_len(&self) -> (n: usize) {
        1
    }

    fn encode(&self, bytes: &mut [u8]) -> (r: Result<usize, EncodeError>) {
        encode_u8(self.0, bytes)
    }
}

/// The answer of the server to a connection request.
#[derive(PartialEq, Eq, Debug, Clone, Copy, Structural)]
pub enum ReturnCode {
    Accepted,
    RefusedProtocolVersion,
    RefusedClientIdentifier,
    RefusedServerUnavailable,
    RefusedUsernameOrPassword,
    RefusedNotAuthorized,
}

/// The byte that a return code is written as.
pub open spec fn spec_return_code_byte(code: ReturnCode) -> u8 {
    match code {
        ReturnCode::Accepted => 0,
        ReturnCode::RefusedProtocolVersion => 1,
        ReturnCode::RefusedClientIdentifier => 2,
        ReturnCode::RefusedServerUnavailable => 3,
        ReturnCode::RefusedUsernameOrPassword => 4,
        ReturnCode::RefusedNotAuthorized => 5,
    }
}

/// The return code that a byte stands for: a byte above 5 stands for none.
pub open spec fn spec_return_code(from: u8) -> Result<ReturnCode, ()> {
    if from == 0 {
        Ok(ReturnCode::Accepted)
    } else if from == 1 {
        Ok(ReturnCode::RefusedProtocolVersion)
    } else if from == 2 {
        Ok(ReturnCode::RefusedClientIdentifier)
    } else if from == 3 {
        Ok(ReturnCode::RefusedServerUnavailable)
    } else if from == 4 {
        Ok(ReturnCode::RefusedUsernameOrPassword)
    } else if from == 5 {
        Ok(ReturnCode::RefusedNotAuthorized)
    } else {
        Err(())
    }
}

impl TryFrom<u8> for ReturnCode {
    type Error = ();

    fn try_from(from: u8) -> (r: Result<ReturnCode, ()>) {
        Ok(
            match from {
                0 => ReturnCode::Accepted,
                1 => ReturnCode::RefusedProtocolVersion,
                2 => ReturnCode::RefusedClientIdentifier,
                3 => ReturnCode::RefusedServerUnavailable,
                4 => ReturnCode::RefusedUsernameOrPassword,
                5 => ReturnCode::RefusedNotAuthorized,
                _ => return Err(()),
            },
        )
    }
}

impl TryFromSpecImpl<u8> for ReturnCode {
    open spec fn obeys_try_from_spec() -> bool {
        true
    }

    open spec fn try_from_spec(from: u8) -> Result<ReturnCode, ()> {
        spec_return_code(from)
    }
}

impl Encodable for ReturnCode {
    open spec fn encoding(&self) -> Seq<u8> {
        seq![spec_return_code_byte(*self)]
    }

    open spec fn encode_result(&self, capacity: usize) -> Result<usize, EncodeError> {
        encode_fixed(1, capacity)
    }

    fn encoded_len(&self) -> (n: usize) {
        1
    }

    fn encode(&self, bytes: &mut [u8]) -> (r: Result<usize, EncodeError>) {
        if bytes.len() < 1 {
            return Err(EncodeError::OutOfSpace);
        }
        let val: u8 = match *self {
            ReturnCode::Accepted => 0,
            ReturnCode::RefusedProtocolVersion => 1,
            ReturnCode::RefusedClientIdentifier => 2,
            ReturnCode::RefusedServerUnavailable => 3,
            ReturnCode::RefusedUsernameOrPassword => 4,
            ReturnCode::RefusedNotAuthorized => 5,
        };

        bytes[0] = val;
        assert(bytes@ =~= seq![val] + old(bytes)@.skip(1));

        Ok(1)
    }
}

/// The variable header of a Connack packet.
#[derive(PartialEq, Debug)]
pub struct Connack {
    flags: Flags,
    return_code: ReturnCode,
}

/// What the variable header of a Connack packet holds.
pub struct ConnackView {
    pub flags: u8,
    pub return_code: ReturnCode,
}

impl View for Connack {
    type V = ConnackView;

    closed spec fn view(&self) -> ConnackView {
        ConnackView { flags: self.flags@, return_code: self.return_code }
    }
}

impl ConnackView {
    /// The flags, then the return code.
    pub open spec fn encoding(self) -> Seq<u8> {
        seq![self.flags, spec_return_code_byte(self.return_code)]
    }

    /// The header can be written and read back: no flag but the session
    /// bit is set.
    pub open spec fn valid(self) -> bool {
        self.flags < 2
    }
}

/// The variable header of a Connack packet: a flags byte of which only bit 0
/// may be set, and a return code from 0 to 5. Nothing is looked at before
/// both bytes are there.
pub open spec fn spec_decode_connack(bytes: Seq<u8>) -> Decoded<ConnackView> {
    if bytes.len() < 2 {
        Ok(Status::Partial((2 - bytes.len()) as usize))
    } else if bytes[0] >= 2 {
        Err(DecodeError::InvalidConnackFlag)
    } else {
        match spec_return_code(bytes[1]) {
            Err(_) => Err(DecodeError::InvalidConnackReturnCode),
            Ok(return_code) => Ok(
                Status::Complete((2, ConnackView { flags: bytes[0], return_code })),
            ),
        }
    }
}

impl Connack {
    /// The flags of the header.
    pub fn flags(&self) -> (r: Flags)
        ensures
            r@ == self@.flags,
    {
        self.flags
    }

    /// The answer of the server.
    pub fn return_code(&self) -> (r: ReturnCode)
        ensures
            r == self@.return_code,
    {
        self.return_code
    }
}

impl<'buf> HeaderDecode<'buf> for Connack {
    open spec fn spec_decode(flags: PacketFlags, bytes: Seq<u8>) -> Decoded<ConnackView> {
        spec_decode_connack(bytes)
    }

    fn decode(_flags: PacketFlags, bytes: &'buf [u8]) -> (r: Decoded<Self>) {
        if bytes.len() < 2 {
            return Ok(Status::Partial(2 - bytes.len()));
        }
        // read connack flags

        let (offset, flags) = match parse_u8(bytes) {
            Ok(Status::Complete(v)) => v,
            Ok(Status::Partial(n)) => return Ok(Status::Partial(n)),
            Err(e) => return Err(e),
        };
        let flags = match Flags::try_from(flags) {
            Ok(f) => f,
            Err(_) => return Err(DecodeError::InvalidConnackFlag),
        };
        proof {
            lemma_flags_view(bytes@[0]);
        }

        // read return code
        let (o, return_code) = match parse_u8(skip(bytes, offset)) {
            Ok(Status::Complete(v)) => v,
            Ok(Status::Partial(n)) => return Ok(Status::Partial(n)),
            Err(e) => return Err(e),
        };
        let return_code = match ReturnCode::try_from(return_code) {
            Ok(c) => c,
            Err(_) => return Err(DecodeError::InvalidConnackReturnCode),
        };

        Ok(Status::Complete((offset + o, Connack { flags, return_code })))
    }
}

impl Encodable for Connack {
    open spec fn encoding(&self) -> Seq<u8> {
        self@.encoding()
    }

    open spec fn encode_result(&self, capacity: usize) -> Result<usize, EncodeError> {
        encode_fixed(2, capacity)
    }

    fn encoded_len(&self) -> (n: usize) {
        2
    }

    fn encode(&self, bytes: &mut [u8]) -> (r: Result<usize, EncodeError>) {
        match self.flags.encode(bytes) {
            Ok(_) => {},
            Err(e) => return Err(e),
        }
        let (_, rest) = bytes.split_at_mut(1);
        match self.return_code.encode(rest) {
            Ok(_) => {},
            Err(e) => return Err(e),
        }
        assert(bytes@ =~= self@.encoding() + old(bytes)@.skip(2));
        Ok(2)
    }
}

/// A valid Connack header that is written and read back is the same header,
/// whatever follows it in the buffer.
pub proof fn lemma_connack_round_trip(header: ConnackView, rest: Seq<u8>)
    requires
        header.valid(),
    ensures
        spec_decode_connack(header.encoding() + rest) == Ok::<_, DecodeError>(
            Status::Complete((2usize, header)),
        ),
{
    let bytes = header.encoding() + rest;
    assert(bytes[0] == header.flags);
    assert(bytes[1] == spec_return_code_byte(header.return_code));
}

/// A Connack header that was read is valid, and it is written as the bytes
/// it was read from.
pub proof fn lemma_connack_reencode(bytes: Seq<u8>)
    ensures
        spec_decode_connack(bytes) matches Ok(Status::Complete((n, header))) ==> {
            &&& header.valid()
            &&& n == 2
            &&& n <= bytes.len()
            &&& header.encoding() == bytes.subrange(0, 2)
        },
{
    if let Ok(Status::Complete((n, header))) = spec_decode_connack(bytes) {
        assert(header.encoding() =~= bytes.subrange(0, 2));
    }
}

/// The first `k` bytes of a buffer decode as the whole buffer does, or ask
/// for more: see [`prefix_agrees`].
pub proof fn lemma_connack_prefix(bytes: Seq<u8>, k: int)
    requires
        0 <= k <= bytes.len(),
    ensures
        prefix_agrees(spec_decode_connack(bytes), spec_decode_connack(bytes.subrange(0, k)), k),
{
}

} // verus!
