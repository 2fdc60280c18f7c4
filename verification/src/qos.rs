use vstd::prelude::*;
use vstd::std_specs::convert::{FromSpecImpl, TryFromSpecImpl};

verus! {

/// The delivery guarantee of a message, a two-bit field on the wire.
#[derive(Copy, Clone, PartialEq, Eq, Debug, Structural)]
pub enum QoS {
    AtMostOnce,
    AtLeastOnce,
    ExactlyOnce,
}

impl View for QoS {
    type V = QoS;

    open spec fn view(&self) -> QoS {
        *self
    }
}

/// Why two bits are not a quality of service.
#[derive(PartialEq, Eq, Debug, Clone, Copy, Structural)]
pub enum Error {
    /// Both bits are set.
    BadPattern,
}

/// The two low bits of `byte` as a quality of service: `0b11` is no level.
pub open spec fn spec_qos(byte: u8) -> Result<QoS, Error> {
    let bits = byte % 4;
    if bits == 0 {
        Ok(QoS::AtMostOnce)
    } else if bits == 1 {
        Ok(QoS::AtLeastOnce)
    } else if bits == 2 {
        Ok(QoS::ExactlyOnce)
    } else {
        Err(Error::BadPattern)
    }
}

/// The number that a quality of service is written as.
pub open spec fn spec_qos_bits(qos: QoS) -> u8 {
    match qos {
        QoS::AtMostOnce => 0,
        QoS::AtLeastOnce => 1,
        QoS::ExactlyOnce => 2,
    }
}

impl TryFrom<u8> for QoS {
    type Error = Error;

    fn try_from(byte: u8) -> (r: Result<QoS, Error>) {
        assert(byte & 0b11 == byte % 4) by (bit_vector);
        let qos = match byte & 0b11 {
            0b00 => QoS::AtMostOnce,
            0b01 => QoS::AtLeastOnce,
            0b10 => QoS::ExactlyOnce,
            _ => return Err(Error::BadPattern),
        };

        Ok(qos)
    }
}

impl TryFromSpecImpl<u8> for QoS {
    open spec fn obeys_try_from_spec() -> bool {
        true
    }

    open spec fn try_from_spec(byte: u8) -> Result<QoS, Error> {
        spec_qos(byte)
    }
}

impl From<QoS> for u8 {
    fn from(qos: QoS) -> (r: u8) {
        match qos {
            QoS::AtMostOnce => 0b00,
            QoS::AtLeastOnce => 0b01,
            QoS::ExactlyOnce => 0b10,
        }
    }
}

impl FromSpecImpl<QoS> for u8 {
    open spec fn obeys_from_spec() -> bool {
        true
    }

    open spec fn from_spec(qos: QoS) -> u8 {
        spec_qos_bits(qos)
    }
}

impl Error {
    /// A short description of the error.
    pub fn desc(&self) -> (r: &'static str)
        ensures
            r@ == "invalid QoS bit pattern"@,
    {
        match *self {
            Error::BadPattern => "invalid QoS bit pattern",
        }
    }
}

/// Writing a quality of service and reading it back gives the same level, and
/// a byte whose two low bits are a valid level is read as the level that is
/// written as those bits.
pub proof fn lemma_qos_round_trip(qos: QoS, byte: u8)
    ensures
        spec_qos(spec_qos_bits(qos)) == Ok::<QoS, Error>(qos),
        spec_qos(byte) matches Ok(q) ==> spec_qos_bits(q) == byte % 4,
        spec_qos(byte) is Err <==> byte % 4 == 3,
{
}

} // verus!
