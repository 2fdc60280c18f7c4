use mqtt_codec::codec::Encodable;
use mqtt_codec::error::{DecodeError, EncodeError};
use mqtt_codec::fixed_header::{PacketFlags, PacketType};
use mqtt_codec::qos;
use mqtt_codec::status::Status;
use mqtt_codec::variable_header::connack::{Connack, ReturnCode};
use mqtt_codec::variable_header::connect::{
    Connect, Flags, Level, Protocol, PROTOCOL_LEVEL_MQTT_3_1_1,
};
use mqtt_codec::variable_header::packet_identifier::PacketIdentifier;
use mqtt_codec::variable_header::publish::Publish;
use mqtt_codec::variable_header::{HeaderDecode, VariableHeader};

/// Connect flags with the given bits, made as a caller makes them.
fn connect_flags(bits: u8) -> Flags {
    let mut flags = Flags::default();
    flags.set_has_username(bits & 0b1000_0000 != 0);
    flags.set_has_password(bits & 0b0100_0000 != 0);
    flags.set_will_retain(bits & 0b0010_0000 != 0);
    flags.set_will_qos(match (bits >> 3) & 0b11 {
        0 => qos::QoS::AtMostOnce,
        1 => qos::QoS::AtLeastOnce,
        _ => qos::QoS::ExactlyOnce,
    });
    flags.set_has_will_flag(bits & 0b0000_0100 != 0);
    flags.set_clean_session(bits & 0b0000_0010 != 0);
    assert_eq!(u8::from(flags), bits);
    flags
}

#[test]
fn connect_parse_flags() {
    let flags = connect_flags(0b11100110);
    assert_eq!(flags.has_username(), true);
    assert_eq!(flags.has_password(), true);
    assert_eq!(flags.will_retain(), true);
    assert_eq!(flags.has_will(), true);
    assert_eq!(flags.clean_session(), true);

    let flags = connect_flags(0b00000000);
    assert_eq!(flags.has_username(), false);
    assert_eq!(flags.has_password(), false);
    assert_eq!(flags.will_retain(), false);
    assert_eq!(flags.has_will(), false);
    assert_eq!(flags.clean_session(), false);
}

#[test]
fn connect_parse_qos() {
    let flags = connect_flags(0b00010000);
    assert_eq!(flags.will_qos(), Ok(qos::QoS::ExactlyOnce));

    let flags = connect_flags(0b00001000);
    assert_eq!(flags.will_qos(), Ok(qos::QoS::AtLeastOnce));

    let flags = connect_flags(0b00000000);
    assert_eq!(flags.will_qos(), Ok(qos::QoS::AtMostOnce));
}

#[test]
fn connect_parse_connect() {
    let buf = [
        0b00000000, // Protocol Name Length
        0b00000100, 0b01001101, // 'M'
        0b01010001, // 'Q'
        0b01010100, // 'T'
        0b01010100, // 'T'
        0b00000100, // Level 4
        0b11001110, // Connect Flags - Username 1
        //               - Password 1
        //               - Will Retain 0
        //               - Will QoS 01
        //               - Will Flag 1
        //               - Clean Session 1
        //               - Reserved 0
        0b00000000, // Keep Alive (10s)
        0b00001010, //
    ];

    let connect = Connect::decode(PacketFlags(PacketFlags::CONNECT), &buf);

    assert_eq!(
        connect,
        Ok(Status::Complete((
            10,
            Connect::new(
                Protocol::MQTT,
                Level::Level3_1_1,
                connect_flags(0b11001110),
                10
            )
        )))
    );
}

#[test]
fn publish_encode() {
    let header = Publish::new("a/b", Some(1));

    assert_eq!(7, header.encoded_len());

    let mut buf = [0u8; 7];
    let res = header.encode(&mut buf[..]);
    assert_eq!(res, Ok(7));

    assert_eq!(
        buf,
        [
            0b0000_0000,
            0b0000_0011,
            0x61,
            0x2f,
            0x62,
            0b0000_0000,
            0b0000_0001,
        ]
    );
}

#[test]
fn connect_flags_each_bit() {
    let mut flags = Flags::default();
    assert_eq!(u8::from(flags), 0);
    flags.set_has_username(true);
    assert_eq!(u8::from(flags), 0b1000_0000);
    flags.set_has_password(true);
    assert_eq!(u8::from(flags), 0b1100_0000);
    flags.set_will_retain(true);
    assert_eq!(u8::from(flags), 0b1110_0000);
    flags.set_will_qos(qos::QoS::ExactlyOnce);
    assert_eq!(u8::from(flags), 0b1111_0000);
    flags.set_has_will_flag(true);
    assert_eq!(u8::from(flags), 0b1111_0100);
    flags.set_clean_session(true);
    assert_eq!(u8::from(flags), 0b1111_0110);
    flags.set_will_qos(qos::QoS::AtLeastOnce);
    assert_eq!(u8::from(flags), 0b1110_1110);
    assert_eq!(flags.will_qos(), Ok(qos::QoS::AtLeastOnce));
    flags.set_has_username(false);
    assert_eq!(u8::from(flags), 0b0110_1110);
    flags.set_has_password(false);
    flags.set_will_retain(false);
    flags.set_has_will_flag(false);
    flags.set_clean_session(false);
    assert_eq!(u8::from(flags), 0b0000_1000);
    assert!(!flags.has_username());
    assert!(!flags.clean_session());
}

#[test]
fn connect_header_getters() {
    let header = Connect::new(Protocol::MQTT, Level::Level3_1_1, connect_flags(0b10), 60);
    assert_eq!(header.name(), "MQTT");
    assert_eq!(header.level(), Level::Level3_1_1);
    assert_eq!(u8::from(header.flags()), 0b10);
    assert_eq!(header.keep_alive(), 60);
    assert_eq!(Protocol::MQTT.name(), "MQTT");
    assert_eq!(u8::from(Level::Level3_1_1), 4);
    assert_eq!(PROTOCOL_LEVEL_MQTT_3_1_1, 4);
    assert_eq!(Level::try_from(4), Ok(Level::Level3_1_1));
    assert_eq!(Level::try_from(3), Err(()));
    assert_eq!(Level::try_from(5), Err(()));
}

#[test]
fn connect_header_round_trip() {
    let header = Connect::new(Protocol::MQTT, Level::Level3_1_1, connect_flags(0b1100_1110), 300);
    assert_eq!(header.encoded_len(), 10);
    let mut buf = [0u8; 12];
    assert_eq!(header.encode(&mut buf), Ok(10));
    assert_eq!(buf, [0, 4, b'M', b'Q', b'T', b'T', 4, 0b1100_1110, 1, 44, 0, 0]);
    assert_eq!(
        Connect::decode(PacketFlags(0), &buf),
        Ok(Status::Complete((10, header)))
    );
}

#[test]
fn connect_header_partial() {
    let buf = [0, 4, b'M', b'Q', b'T', b'T', 4, 0b10, 0, 60];
    let expected = [2, 1, 4, 3, 2, 1, 1, 1, 2, 1];
    for k in 0..10 {
        assert_eq!(
            Connect::decode(PacketFlags(0), &buf[..k]),
            Ok(Status::Partial(expected[k])),
            "prefix of {} bytes",
            k
        );
    }
}

#[test]
fn connect_header_errors() {
    // Level 3.
    let buf = [0, 4, b'M', b'Q', b'T', b'T', 3, 0b10, 0, 60];
    assert_eq!(
        Connect::decode(PacketFlags(0), &buf),
        Err(DecodeError::InvalidProtocolLevel)
    );
    // The level is refused as soon as it is there.
    assert_eq!(
        Connect::decode(PacketFlags(0), &buf[..7]),
        Err(DecodeError::InvalidProtocolLevel)
    );
    // Both bits of the quality of service of the will.
    let buf = [0, 4, b'M', b'Q', b'T', b'T', 4, 0b0001_1000, 0, 60];
    assert_eq!(
        Connect::decode(PacketFlags(0), &buf),
        Err(DecodeError::InvalidConnectFlag)
    );
    // A protocol name that is no string.
    let buf = [0, 1, 0xFF, 4, 0, 0, 60];
    assert_eq!(Connect::decode(PacketFlags(0), &buf), Err(DecodeError::Utf8));
    // Any other protocol name is taken.
    let buf = [0, 2, b'h', b'i', 4, 0, 0, 60];
    let (n, header) = Connect::decode(PacketFlags(0), &buf).unwrap().unwrap();
    assert_eq!(n, 8);
    assert_eq!(header.name(), "hi");
}

#[test]
fn connect_header_out_of_space() {
    let header = Connect::new(Protocol::MQTT, Level::Level3_1_1, connect_flags(0), 1);
    for size in 0..10 {
        let mut buf = vec![0u8; size];
        assert_eq!(header.encode(&mut buf), Err(EncodeError::OutOfSpace));
    }
}

#[test]
fn connack_decode() {
    let (n, connack) = Connack::decode(PacketFlags(0), &[1, 0]).unwrap().unwrap();
    assert_eq!(n, 2);
    assert!(connack.flags().session_present());
    assert_eq!(connack.return_code(), ReturnCode::Accepted);

    let (_, connack) = Connack::decode(PacketFlags(0), &[0, 5, 9]).unwrap().unwrap();
    assert!(!connack.flags().session_present());
    assert_eq!(connack.return_code(), ReturnCode::RefusedNotAuthorized);

    let codes = [
        ReturnCode::Accepted,
        ReturnCode::RefusedProtocolVersion,
        ReturnCode::RefusedClientIdentifier,
        ReturnCode::RefusedServerUnavailable,
        ReturnCode::RefusedUsernameOrPassword,
        ReturnCode::RefusedNotAuthorized,
    ];
    for (byte, code) in codes.iter().enumerate() {
        assert_eq!(ReturnCode::try_from(byte as u8), Ok(*code));
        let bytes = [0, byte as u8];
        let (_, connack) = Connack::decode(PacketFlags(0), &bytes).unwrap().unwrap();
        assert_eq!(connack.return_code(), *code);
        let mut buf = [9u8; 2];
        assert_eq!(connack.encode(&mut buf), Ok(2));
        assert_eq!(buf, [0, byte as u8]);
        assert_eq!(code.encoded_len(), 1);
        let mut one = [9u8; 1];
        assert_eq!(code.encode(&mut one), Ok(1));
        assert_eq!(one, [byte as u8]);
    }
}

#[test]
fn connack_errors() {
    assert_eq!(Connack::decode(PacketFlags(0), &[]), Ok(Status::Partial(2)));
    assert_eq!(Connack::decode(PacketFlags(0), &[2]), Ok(Status::Partial(1)));
    assert_eq!(
        Connack::decode(PacketFlags(0), &[2, 0]),
        Err(DecodeError::InvalidConnackFlag)
    );
    assert_eq!(
        Connack::decode(PacketFlags(0), &[0x80, 0]),
        Err(DecodeError::InvalidConnackFlag)
    );
    assert_eq!(
        Connack::decode(PacketFlags(0), &[1, 6]),
        Err(DecodeError::InvalidConnackReturnCode)
    );
    assert_eq!(
        Connack::decode(PacketFlags(0), &[0, 255]),
        Err(DecodeError::InvalidConnackReturnCode)
    );
    assert_eq!(ReturnCode::try_from(6), Err(()));
}

#[test]
fn connack_encode() {
    let (_, connack) = Connack::decode(PacketFlags(0), &[1, 3]).unwrap().unwrap();
    assert_eq!(connack.encoded_len(), 2);
    assert_eq!(connack.flags().encoded_len(), 1);
    let mut buf = [0u8; 3];
    assert_eq!(connack.encode(&mut buf), Ok(2));
    assert_eq!(buf, [1, 3, 0]);
    let mut one = [0u8; 1];
    assert_eq!(connack.encode(&mut one), Err(EncodeError::OutOfSpace));
    let mut none: [u8; 0] = [];
    assert_eq!(connack.encode(&mut none), Err(EncodeError::OutOfSpace));
    assert_eq!(connack.flags().encode(&mut none), Err(EncodeError::OutOfSpace));
    assert_eq!(
        ReturnCode::Accepted.encode(&mut none),
        Err(EncodeError::OutOfSpace)
    );
}

#[test]
fn packet_identifier_codec() {
    let id = PacketIdentifier::new(0x1234);
    assert_eq!(id.packet_identifier(), 0x1234);
    assert_eq!(id.encoded_len(), 2);
    let mut buf = [0u8; 2];
    assert_eq!(id.encode(&mut buf), Ok(2));
    assert_eq!(buf, [0x12, 0x34]);
    assert_eq!(
        PacketIdentifier::decode(PacketFlags(0), &buf),
        Ok(Status::Complete((2, PacketIdentifier::new(0x1234))))
    );
    assert_eq!(
        PacketIdentifier::decode(PacketFlags(0), &buf[..1]),
        Ok(Status::Partial(1))
    );
    let mut one = [0u8; 1];
    assert_eq!(id.encode(&mut one), Err(EncodeError::OutOfSpace));
}

#[test]
fn publish_decode_by_quality_of_service() {
    let buf = [0, 3, b'a', b'/', b'b', 0, 7, 0xEE];
    // At most once: no packet identifier is read.
    let (n, header) = Publish::decode(PacketFlags(0b0000), &buf).unwrap().unwrap();
    assert_eq!(n, 5);
    assert_eq!(header.topic_name(), "a/b");
    assert_eq!(header.packet_identifier(), None);
    // At least once and exactly once: it is.
    for flags in [0b0010, 0b0100, 0b1011] {
        let (n, header) = Publish::decode(PacketFlags(flags), &buf).unwrap().unwrap();
        assert_eq!(n, 7);
        assert_eq!(header.topic_name(), "a/b");
        assert_eq!(header.packet_identifier(), Some(7));
    }
    assert_eq!(
        Publish::decode(PacketFlags(0b0010), &buf[..6]),
        Ok(Status::Partial(1))
    );
    assert_eq!(
        Publish::decode(PacketFlags(0b0010), &buf[..5]),
        Ok(Status::Partial(2))
    );
    assert_eq!(
        Publish::decode(PacketFlags(0b0010), &buf[..3]),
        Ok(Status::Partial(2))
    );
}

#[test]
fn publish_decode_invalid_qos() {
    let buf = [0, 3, b'a', b'/', b'b', 0, 7];
    assert_eq!(
        Publish::decode(PacketFlags(0b0110), &buf),
        Err(DecodeError::InvalidQoS(qos::Error::BadPattern))
    );
    // The flags are looked at before the bytes.
    assert_eq!(
        Publish::decode(PacketFlags(0b0110), &[]),
        Err(DecodeError::InvalidQoS(qos::Error::BadPattern))
    );
}

#[test]
fn publish_encode_without_identifier() {
    let header = Publish::new("t", None);
    assert_eq!(header.encoded_len(), 3);
    let mut buf = [9u8; 4];
    assert_eq!(header.encode(&mut buf), Ok(3));
    assert_eq!(buf, [0, 1, b't', 9]);
    let mut short = [0u8; 2];
    assert_eq!(header.encode(&mut short), Err(EncodeError::OutOfSpace));
    let header = Publish::new("t", Some(1));
    let mut short = [0u8; 4];
    assert_eq!(header.encode(&mut short), Err(EncodeError::OutOfSpace));
}

#[test]
fn publish_encode_too_big() {
    let topic = "t".repeat(65536);
    let header = Publish::new(&topic, Some(1));
    let mut buf = vec![0u8; 70000];
    assert_eq!(header.encode(&mut buf), Err(EncodeError::ValueTooBig));
}

#[test]
fn variable_header_by_packet_type() {
    let id = [0, 9];
    for packet_type in [
        PacketType::Subscribe,
        PacketType::Suback,
        PacketType::Puback,
        PacketType::Unsubscribe,
        PacketType::Unsuback,
    ] {
        let (n, header) = VariableHeader::decode(packet_type, PacketFlags(0), &id)
            .unwrap()
            .unwrap()
            .unwrap();
        assert_eq!(n, 2);
        assert_eq!(header.encoded_len(), 2);
        let mut buf = [0u8; 2];
        assert_eq!(header.encode(&mut buf), Ok(2));
        assert_eq!(buf, id);
        let same = match (packet_type, header) {
            (PacketType::Subscribe, VariableHeader::Subscribe(h)) => h.packet_identifier() == 9,
            (PacketType::Suback, VariableHeader::Suback(h)) => h.packet_identifier() == 9,
            (PacketType::Puback, VariableHeader::Puback(h)) => h.packet_identifier() == 9,
            (PacketType::Unsubscribe, VariableHeader::Unsubscribe(h)) => {
                h.packet_identifier() == 9
            }
            (PacketType::Unsuback, VariableHeader::Unsuback(h)) => h.packet_identifier() == 9,
            _ => false,
        };
        assert!(same);
    }
    for packet_type in [
        PacketType::Pubrec,
        PacketType::Pubrel,
        PacketType::Pubcomp,
        PacketType::Pingreq,
        PacketType::Pingresp,
        PacketType::Disconnect,
    ] {
        assert!(VariableHeader::decode(packet_type, PacketFlags(0), &id).is_none());
    }
    let connack = VariableHeader::decode(PacketType::Connack, PacketFlags(0), &[1, 0]);
    assert!(matches!(
        connack,
        Some(Ok(Status::Complete((2, VariableHeader::Connack(_)))))
    ));
    let publish = VariableHeader::decode(PacketType::Publish, PacketFlags(0), &[0, 1, b't']);
    assert!(matches!(
        publish,
        Some(Ok(Status::Complete((3, VariableHeader::Publish(_)))))
    ));
    let connect = VariableHeader::decode(
        PacketType::Connect,
        PacketFlags(0),
        &[0, 4, b'M', b'Q', b'T', b'T', 4, 2, 0, 60],
    );
    assert!(matches!(
        connect,
        Some(Ok(Status::Complete((10, VariableHeader::Connect(_)))))
    ));
    let partial = VariableHeader::decode(PacketType::Puback, PacketFlags(0), &[0]);
    assert!(matches!(partial, Some(Ok(Status::Partial(1)))));
    let error = VariableHeader::decode(PacketType::Connack, PacketFlags(0), &[4, 0]);
    assert!(matches!(error, Some(Err(DecodeError::InvalidConnackFlag))));
}
