use vstd::prelude::*;
use vstd::std_specs::convert::FromSpecImpl;

use crate::qos;

verus! {

/// The error of `core::str::from_utf8`; nothing in it is read.
#[verifier::external_type_specification]
#[verifier::external_body]
pub struct ExUtf8Error(core::str::Utf8Error);

/// Why a byte sequence is not a packet. None of these can be recovered from:
/// the stream that produced the bytes has to be given up.
#[derive(Copy, Clone, PartialEq, Eq, Debug, Structural)]
pub enum DecodeError {
    /// Invalid packet type in header
    PacketType,
    /// Invalid packet type flag in header
    PacketFlag,
    /// Malformed remaining length in header
    RemainingLength,
    /// Invalid buffer length
    InvalidLength,
    /// Invalid UTF-8 encoding
    Utf8,
    /// Invalid QoS value
    InvalidQoS(qos::Error),
    /// Invalid protocol level
    InvalidProtocolLevel,
    /// Invalid connect flag value
    InvalidConnectFlag,
    /// Invalid Connack flag
    InvalidConnackFlag,
    /// Invalid Connack Return Code
    InvalidConnackReturnCode,
    /// Invalid Suback Return Code
    InvalidSubackReturnCode,
}

impl DecodeError {
    /// The description of each error.
    pub open spec fn spec_desc(self) -> Seq<char> {
        match self {
            DecodeError::PacketType => "invalid packet type in header"@,
            DecodeError::PacketFlag => "invalid packet type flag in header"@,
            DecodeError::RemainingLength => "malformed remaining length in header"@,
            DecodeError::InvalidLength => "invalid buffer length"@,
            DecodeError::Utf8 => "invalid utf-8 encoding"@,
            DecodeError::InvalidQoS(_) => "invalid QoS bit pattern"@,
            DecodeError::InvalidProtocolLevel => "invalid protocol level"@,
            DecodeError::InvalidConnectFlag => "invalid connect flag value"@,
            DecodeError::InvalidConnackFlag => "invalid connack flag value"@,
            DecodeError::InvalidConnackReturnCode => "invalid connack return code"@,
            DecodeError::InvalidSubackReturnCode => "invalid suback return code"@,
        }
    }

    /// A short description of the error.
    pub fn desc(&self) -> (r: &'static str)
        ensures
            r@ == self.spec_desc(),
    {
        match *self {
            DecodeError::PacketType => "invalid packet type in header",
            DecodeError::PacketFlag => "invalid packet type flag in header",
            DecodeError::RemainingLength => "malformed remaining length in header",
            DecodeError::InvalidLength => "invalid buffer length",
            DecodeError::Utf8 => "invalid utf-8 encoding",
            DecodeError::InvalidQoS(_) => "invalid QoS bit pattern",
            DecodeError::InvalidProtocolLevel => "invalid protocol level",
            DecodeError::InvalidConnectFlag => "invalid connect flag value",
            DecodeError::InvalidConnackFlag => "invalid connack flag value",
            DecodeError::InvalidConnackReturnCode => "invalid connack return code",
            DecodeError::InvalidSubackReturnCode => "invalid suback return code",
        }
    }
}

impl From<core::str::Utf8Error> for DecodeError {
    fn from(_err: core::str::Utf8Error) -> (r: Self) {
        DecodeError::Utf8
    }
}

impl FromSpecImpl<core::str::Utf8Error> for DecodeError {
    open spec fn obeys_from_spec() -> bool {
        true
    }

    open spec fn from_spec(_err: core::str::Utf8Error) -> Self {
        DecodeError::Utf8
    }
}

impl From<qos::Error> for DecodeError {
    fn from(err: qos::Error) -> (r: Self) {
        DecodeError::InvalidQoS(err)
    }
}

impl FromSpecImpl<qos::Error> for DecodeError {
    open spec fn obeys_from_spec() -> bool {
        true
    }

    open spec fn from_spec(err: qos::Error) -> Self {
        DecodeError::InvalidQoS(err)
    }
}

/// Why a value was not written. `OutOfSpace` asks for a larger buffer;
/// `ValueTooBig` says that no buffer would do.
#[derive(Copy, Clone, PartialEq, Eq, Debug, Structural)]
pub enum EncodeError {
    /// Not enough space in buffer to encode
    OutOfSpace,
    /// Value too big for field
    ValueTooBig,
}

impl EncodeError {
    /// The description of each error.
    pub open spec fn spec_desc(self) -> Seq<char> {
        match self {
            EncodeError::OutOfSpace => "not enough space in encode buffer"@,
            EncodeError::ValueTooBig => "value too big to ever be encoded"@,
        }
    }

    /// A short description of the error.
    pub fn desc(&self) -> (r: &'static str)
        ensures
            r@ == self.spec_desc(),
    {
        match *self {
            EncodeError::OutOfSpace => "not enough space in encode buffer",
            EncodeError::ValueTooBig => "value too big to ever be encoded",
        }
    }
}

impl From<core::num::TryFromIntError> for EncodeError {
    fn from(_err: core::num::TryFromIntError) -> (r: EncodeError) {
        EncodeError::ValueTooBig
    }
}

impl FromSpecImpl<core::num::TryFromIntError> for EncodeError {
    open spec fn obeys_from_spec() -> bool {
        true
    }

    open spec fn from_spec(_err: core::num::TryFromIntError) -> EncodeError {
        EncodeError::ValueTooBig
    }
}

} // verus!
