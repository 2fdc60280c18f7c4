use vstd::prelude::*;
use vstd::std_specs::convert::{FromSpecImpl, TryFromSpecImpl};

use crate::bits;
use crate::bits::spec_weight;
use crate::qos;
use crate::qos::{spec_qos, spec_qos_bits};

verus! {

/// The low four bits of the first byte of a packet, as they stand.
#[derive(PartialEq, Eq, Debug, Clone, Copy, Structural)]
pub struct PacketFlags(pub u8);

#[allow(dead_code)]
impl PacketFlags {
    pub const CONNECT: u8 = 0b0000;

    pub const CONNACK: u8 = 0b0000;

    // publish is special
    pub const PUBACK: u8 = 0b0000;

    pub const PUBREC: u8 = 0b0000;

    pub const PUBREL: u8 = 0b0010;

    pub const PUBCOMP: u8 = 0b0000;

    pub const SUBSCRIBE: u8 = 0b0010;

    pub const SUBACK: u8 = 0b0000;

    pub const UNSUBSCRIBE: u8 = 0b0010;

    pub const UNSUBACK: u8 = 0b0000;

    pub const PINGREQ: u8 = 0b0000;

    pub const PINGRESP: u8 = 0b0000;

    pub const DISCONNECT: u8 = 0b0000;
}

impl From<PublishFlags> for PacketFlags {
    fn from(flags: PublishFlags) -> (r: Self) {
        PacketFlags(flags.0)
    }
}

impl FromSpecImpl<PublishFlags> for PacketFlags {
    open spec fn obeys_from_spec() -> bool {
        true
    }

    open spec fn from_spec(flags: PublishFlags) -> Self {
        PacketFlags(flags@)
    }
}

/// The flags of a Publish packet: DUP in bit 3, the quality of service in
/// bits 2 and 1, RETAIN in bit 0.
#[derive(PartialEq, Eq, Clone, Copy, Debug)]
pub struct PublishFlags(u8);

impl View for PublishFlags {
    type V = u8;

    closed spec fn view(&self) -> u8 {
        self.0
    }
}

/// The DUP bit of Publish flags.
pub open spec fn spec_dup(flags: u8) -> bool {
    flags / 8 % 2 == 1
}

/// The RETAIN bit of Publish flags.
pub open spec fn spec_retain(flags: u8) -> bool {
    flags % 2 == 1
}

/// The quality of service in Publish flags.
pub open spec fn spec_publish_qos(flags: u8) -> Result<qos::QoS, qos::Error> {
    spec_qos((flags / 2 % 4) as u8)
}

impl Default for PublishFlags {
    fn default() -> (r: Self)
        ensures
            r@ == 0,
    {
        PublishFlags(0)
    }
}

impl PublishFlags {
    /// Whether the packet is sent again.
    pub fn dup(&self) -> (r: bool)
        ensures
            r == spec_dup(self@),
    {
        proof {
            bits::lemma_bit(self.0);
        }
        bits::bit(self.0, 3)
    }

    /// Sets the DUP bit and leaves the others.
    pub fn set_dup(&mut self, value: bool)
        ensures
            final(self)@ == old(self)@ - spec_weight(spec_dup(old(self)@), 8) + spec_weight(
                value,
                8,
            ),
            spec_dup(final(self)@) == value,
            spec_retain(final(self)@) == spec_retain(old(self)@),
            spec_publish_qos(final(self)@) == spec_publish_qos(old(self)@),
    {
        proof {
            bits::lemma_bit(self.0);
            bits::lemma_set_bit(self.0, value);
        }
        bits::set_bit(&mut self.0, 3, value)
    }

    /// Whether the server is to keep the message.
    pub fn retain(&self) -> (r: bool)
        ensures
            r == spec_retain(self@),
    {
        proof {
            bits::lemma_bit(self.0);
        }
        bits::bit(self.0, 0)
    }

    /// Sets the RETAIN bit and leaves the others.
    pub fn set_retain(&mut self, value: bool)
        ensures
            final(self)@ == old(self)@ - spec_weight(spec_retain(old(self)@), 1) + spec_weight(
                value,
                1,
            ),
            spec_retain(final(self)@) == value,
            spec_dup(final(self)@) == spec_dup(old(self)@),
            spec_publish_qos(final(self)@) == spec_publish_qos(old(self)@),
    {
        proof {
            bits::lemma_bit(self.0);
            bits::lemma_set_bit(self.0, value);
        }
        bits::set_bit(&mut self.0, 0, value)
    }

    /// The quality of service, unless both of its bits are set.
    pub fn qos(&self) -> (r: Result<qos::QoS, qos::Error>)
        ensures
            r == spec_publish_qos(self@),
    {
        proof {
            bits::lemma_bit_range(self.0);
        }
        let qos_bits: u8 = bits::bit_range(self.0, 2, 1);
        qos::QoS::try_from(qos_bits)
    }

    /// Sets the quality of service and leaves the other bits.
    #[allow(dead_code)]
    pub fn set_qos(&mut self, qos: qos::QoS)
        ensures
            final(self)@ == old(self)@ - (old(self)@ / 2 % 4) * 2 + spec_qos_bits(qos) * 2,
            spec_publish_qos(final(self)@) == Ok::<qos::QoS, qos::Error>(qos),
            spec_dup(final(self)@) == spec_dup(old(self)@),
            spec_retain(final(self)@) == spec_retain(old(self)@),
    {
        let field = u8::from(qos);
        proof {
            bits::lemma_set_bit_range(self.0, field);
        }
        bits::set_bit_range(&mut self.0, 2, 1, field)
    }
}

impl TryFrom<PacketFlags> for PublishFlags {
    type Error = qos::Error;

    fn try_from(flags: PacketFlags) -> (r: Result<Self, Self::Error>) {
        let flags = PublishFlags(flags.0);
        match flags.qos() {
            Ok(_) => Ok(flags),
            Err(e) => Err(e),
        }
    }
}

impl TryFromSpecImpl<PacketFlags> for PublishFlags {
    open spec fn obeys_try_from_spec() -> bool {
        true
    }

    open spec fn try_from_spec(flags: PacketFlags) -> Result<Self, Self::Error> {
        match spec_publish_qos(flags.0) {
            Ok(_) => Ok(spec_publish_flags(flags.0)),
            Err(e) => Err(e),
        }
    }
}

/// The Publish flags that are the byte `bits`.
pub closed spec fn spec_publish_flags(bits: u8) -> PublishFlags {
    PublishFlags(bits)
}

/// Publish flags are their byte and nothing else.
pub broadcast proof fn lemma_publish_flags_view(bits: u8)
    ensures
        #[trigger] spec_publish_flags(bits)@ == bits,
{
}

} // verus!
