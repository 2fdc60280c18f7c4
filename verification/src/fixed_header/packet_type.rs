use vstd::prelude::*;

verus! {

/// The fourteen kinds of control packet.
#[derive(Copy, Clone, PartialEq, Eq, Debug, Structural)]
pub enum PacketType {
    Connect,
    Connack,
    Publish,
    Puback,
    Pubrec,
    Pubrel,
    Pubcomp,
    Subscribe,
    Suback,
    Unsubscribe,
    Unsuback,
    Pingreq,
    Pingresp,
    Disconnect,
}

/// The number of each packet type, which the high four bits of the first
/// byte of a packet hold.
pub open spec fn spec_type_code(packet_type: PacketType) -> u8 {
    match packet_type {
        PacketType::Connect => 1,
        PacketType::Connack => 2,
        PacketType::Publish => 3,
        PacketType::Puback => 4,
        PacketType::Pubrec => 5,
        PacketType::Pubrel => 6,
        PacketType::Pubcomp => 7,
        PacketType::Subscribe => 8,
        PacketType::Suback => 9,
        PacketType::Unsubscribe => 10,
        PacketType::Unsuback => 11,
        PacketType::Pingreq => 12,
        PacketType::Pingresp => 13,
        PacketType::Disconnect => 14,
    }
}

/// The packet type of a number: 0 and 15 are no packet type.
pub open spec fn spec_packet_type(code: u8) -> Option<PacketType> {
    if code == 1 {
        Some(PacketType::Connect)
    } else if code == 2 {
        Some(PacketType::Connack)
    } else if code == 3 {
        Some(PacketType::Publish)
    } else if code == 4 {
        Some(PacketType::Puback)
    } else if code == 5 {
        Some(PacketType::Pubrec)
    } else if code == 6 {
        Some(PacketType::Pubrel)
    } else if code == 7 {
        Some(PacketType::Pubcomp)
    } else if code == 8 {
        Some(PacketType::Subscribe)
    } else if code == 9 {
        Some(PacketType::Suback)
    } else if code == 10 {
        Some(PacketType::Unsubscribe)
    } else if code == 11 {
        Some(PacketType::Unsuback)
    } else if code == 12 {
        Some(PacketType::Pingreq)
    } else if code == 13 {
        Some(PacketType::Pingresp)
    } else if code == 14 {
        Some(PacketType::Disconnect)
    } else {
        None
    }
}

/// The flags that a packet type prescribes: `0b0010` for three of them,
/// `0b0000` for ten, and none for Publish, whose flags carry fields.
pub open spec fn spec_required_flags(packet_type: PacketType) -> Option<u8> {
    match packet_type {
        PacketType::Publish => None,
        PacketType::Pubrel | PacketType::Subscribe | PacketType::Unsubscribe => Some(0b0010u8),
        _ => Some(0b0000u8),
    }
}

} // verus!
