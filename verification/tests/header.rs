use mqtt_codec::error::DecodeError;
use mqtt_codec::fixed_header::{parse_packet_type, parse_remaining_length, PacketType};

#[test]
fn header_packet_type() {
    let mut inputs: [([u8; 1], PacketType); 14] = [
        ([01 << 4 | 0b0000], PacketType::Connect),
        ([02 << 4 | 0b0000], PacketType::Connack),
        ([03 << 4 | 0b0000], PacketType::Publish),
        ([04 << 4 | 0b0000], PacketType::Puback),
        ([05 << 4 | 0b0000], PacketType::Pubrec),
        ([06 << 4 | 0b0010], PacketType::Pubrel),
        ([07 << 4 | 0b0000], PacketType::Pubcomp),
        ([08 << 4 | 0b0010], PacketType::Subscribe),
        ([09 << 4 | 0b0000], PacketType::Suback),
        ([10 << 4 | 0b0010], PacketType::Unsubscribe),
        ([11 << 4 | 0b0000], PacketType::Unsuback),
        ([12 << 4 | 0b0000], PacketType::Pingreq),
        ([13 << 4 | 0b0000], PacketType::Pingresp),
        ([14 << 4 | 0b0000], PacketType::Disconnect),
    ];

    for (buf, expected_type) in inputs.iter_mut() {
        let expected_flag = buf[0] & 0xF;
        let (packet_type, flag) = parse_packet_type(buf[0]).unwrap();
        assert_eq!(packet_type, *expected_type);
        assert_eq!(flag.0, expected_flag);
    }
}

#[test]
fn header_bad_packet_type() {
    let result = parse_packet_type(15 << 4);
    assert_eq!(result, Err(DecodeError::PacketType));
}

#[test]
fn header_bad_zero_flags() {
    let mut inputs: [([u8; 1], PacketType); 10] = [
        ([01 << 4 | 1], PacketType::Connect),
        ([02 << 4 | 1], PacketType::Connack),
        ([04 << 4 | 1], PacketType::Puback),
        ([05 << 4 | 1], PacketType::Pubrec),
        ([07 << 4 | 1], PacketType::Pubcomp),
        ([09 << 4 | 1], PacketType::Suback),
        ([11 << 4 | 1], PacketType::Unsuback),
        ([12 << 4 | 1], PacketType::Pingreq),
        ([13 << 4 | 1], PacketType::Pingresp),
        ([14 << 4 | 1], PacketType::Disconnect),
    ];
    for (buf, _) in inputs.iter_mut() {
        let result = parse_packet_type(buf[0]);
        assert_eq!(result, Err(DecodeError::PacketFlag));
    }
}

#[test]
fn header_bad_one_flags() {
    let mut inputs: [([u8; 1], PacketType); 3] = [
        ([06 << 4 | 0], PacketType::Pubrel),
        ([08 << 4 | 0], PacketType::Subscribe),
        ([10 << 4 | 0], PacketType::Unsubscribe),
    ];
    for (buf, _) in inputs.iter_mut() {
        let result = parse_packet_type(buf[0]);
        assert_eq!(result, Err(DecodeError::PacketFlag));
    }
}

#[test]
fn header_publish_flags() {
    for i in 0..15 {
        let input = 03 << 4 | i;
        let (packet_type, flag) = parse_packet_type(input).unwrap();
        assert_eq!(packet_type, PacketType::Publish);
        assert_eq!(flag.0, i);
    }
}

#[test]
fn header_bad_remaining_length() {
    let buf = [0xFF, 0xFF, 0xFF, 0xFF];
    let result = parse_remaining_length(&buf);
    assert_eq!(result, Err(DecodeError::RemainingLength));
}
