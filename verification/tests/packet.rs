use mqtt_codec::codec::{Decodable, Encodable};
use mqtt_codec::error::{DecodeError, EncodeError};
use mqtt_codec::fixed_header::{PacketFlags, PacketType, PublishFlags};
use mqtt_codec::packet::Packet;
use mqtt_codec::payload::Payload;
use mqtt_codec::status::Status;
use mqtt_codec::variable_header::connect::{Flags, Level, Protocol};
use mqtt_codec::variable_header::VariableHeader;
use mqtt_codec::{payload, qos, variable_header};

#[test]
fn encode_publish() {
    let payload = b"{}";
    assert_eq!(2, payload.len());

    let mut publish_flags = PublishFlags::default();
    publish_flags.set_qos(qos::QoS::AtLeastOnce);
    let publish_id = 2;
    let publish = Packet::publish(
        publish_flags,
        variable_header::publish::Publish::new("a/b", Some(publish_id)),
        payload,
    )
    .expect("valid packet");

    assert_eq!(11, publish.encoded_len());
    assert_eq!(2, publish.fixed_header().encoded_len());
    assert_eq!(9, publish.fixed_header().len());
    assert_eq!(
        7,
        publish
            .variable_header()
            .as_ref()
            .expect("variable header")
            .encoded_len()
    );
    assert_eq!(2, publish.payload().encoded_len());
}

#[test]
fn encode_subscribe() {
    let subscribe_id = 1;
    let sub = Packet::subscribe(
        variable_header::packet_identifier::PacketIdentifier::new(subscribe_id),
        payload::subscribe::Subscribe::new(&[
            ("c/a", qos::QoS::AtMostOnce),
            ("c/b", qos::QoS::AtLeastOnce),
            ("c/c", qos::QoS::ExactlyOnce),
        ]),
    )
    .expect("valid packet");

    assert_eq!(22, sub.encoded_len());
    assert_eq!(2, sub.fixed_header().encoded_len());
    assert_eq!(20, sub.fixed_header().len());
    assert_eq!(
        2,
        sub.variable_header()
            .as_ref()
            .expect("variable header")
            .encoded_len()
    );
    assert_eq!(18, sub.payload().encoded_len());
}

fn encode(packet: &Packet) -> Vec<u8> {
    let mut buf = vec![0xAAu8; packet.encoded_len() + 3];
    let written = packet.encode(&mut buf).expect("room enough");
    assert_eq!(written, packet.encoded_len());
    assert_eq!(&buf[written..], &[0xAA, 0xAA, 0xAA]);
    buf.truncate(written);
    buf
}

/// Every proper prefix asks for more bytes, no more than are missing, and
/// the whole decodes to `n` bytes whatever follows.
fn check_prefixes(bytes: &[u8]) {
    let n = bytes.len();
    for k in 0..n {
        match Packet::decode(&bytes[..k]) {
            Ok(Status::Partial(m)) => {
                assert!(m > 0, "prefix of {} bytes", k);
                assert!(k + m <= n, "prefix of {} bytes asks for {}", k, m);
            }
            other => panic!("prefix of {} bytes gave {:?}", k, other),
        }
    }
    let mut longer = bytes.to_vec();
    longer.extend_from_slice(&[0xFF, 0x00, 0x10]);
    for k in n..=longer.len() {
        match Packet::decode(&longer[..k]) {
            Ok(Status::Complete((consumed, packet))) => {
                assert_eq!(consumed, n);
                assert_eq!(encode(&packet), bytes);
            }
            other => panic!("{} bytes gave {:?}", k, other),
        }
    }
}

#[test]
fn connect_round_trip_scenario() {
    let mut flags = Flags::default();
    flags.set_clean_session(true);
    let packet = Packet::connect(
        variable_header::connect::Connect::new(Protocol::MQTT, Level::Level3_1_1, flags, 60),
        payload::connect::Connect::new("abc", None, None, None),
    )
    .expect("valid packet");
    assert_eq!(packet.encoded_len(), 17);
    let bytes = encode(&packet);
    assert_eq!(
        bytes,
        [0x10, 15, 0, 4, b'M', b'Q', b'T', b'T', 4, 0b10, 0, 60, 0, 3, b'a', b'b', b'c']
    );

    let (consumed, decoded) = Packet::decode(&bytes).unwrap().unwrap();
    assert_eq!(consumed, bytes.len());
    assert_eq!(decoded.fixed_header(), packet.fixed_header());
    assert_eq!(decoded.fixed_header().packet_type(), PacketType::Connect);
    assert_eq!(decoded.fixed_header().flags(), PacketFlags(0));
    assert_eq!(decoded.fixed_header().len(), 15);
    match (decoded.variable_header(), packet.variable_header()) {
        (Some(VariableHeader::Connect(a)), Some(VariableHeader::Connect(b))) => {
            assert_eq!(a, b);
            assert_eq!(a.name(), "MQTT");
            assert_eq!(a.level(), Level::Level3_1_1);
            assert_eq!(u8::from(a.flags()), 0b10);
            assert_eq!(a.keep_alive(), 60);
        }
        other => panic!("variable headers {:?}", other),
    }
    match decoded.payload() {
        Payload::Connect(c) => {
            assert_eq!(c.client_id(), "abc");
            assert!(c.will().is_none());
            assert_eq!(c.username(), None);
            assert_eq!(c.password(), None);
        }
        other => panic!("payload {:?}", other),
    }
    assert_eq!(format!("{:?}", decoded), format!("{:?}", packet));
    assert_eq!(encode(&decoded), bytes);
    check_prefixes(&bytes);
}

#[test]
fn connect_round_trip_all_fields() {
    let mut flags = Flags::default();
    flags.set_has_username(true);
    flags.set_has_password(true);
    flags.set_has_will_flag(true);
    flags.set_will_qos(qos::QoS::AtLeastOnce);
    flags.set_will_retain(true);
    let packet = Packet::connect(
        variable_header::connect::Connect::new(Protocol::MQTT, Level::Level3_1_1, flags, 0xABCD),
        payload::connect::Connect::new(
            "client",
            Some(payload::connect::Will::new("will/topic", &[0, 1, 2])),
            Some("user"),
            Some(&[0xFF, 0xFE]),
        ),
    )
    .expect("valid packet");
    let bytes = encode(&packet);
    assert_eq!(bytes.len(), 2 + 10 + 8 + 17 + 6 + 4);
    let (consumed, decoded) = Packet::decode(&bytes).unwrap().unwrap();
    assert_eq!(consumed, bytes.len());
    assert_eq!(format!("{:?}", decoded), format!("{:?}", packet));
    match decoded.payload() {
        Payload::Connect(c) => {
            assert_eq!(c.client_id(), "client");
            let will = c.will().as_ref().unwrap();
            assert_eq!(will.topic(), "will/topic");
            assert_eq!(will.message(), &[0, 1, 2]);
            assert_eq!(c.username(), Some("user"));
            assert_eq!(c.password(), Some(&[0xFFu8, 0xFE][..]));
        }
        other => panic!("payload {:?}", other),
    }
    check_prefixes(&bytes);
}

#[test]
fn publish_round_trip() {
    let mut flags = PublishFlags::default();
    flags.set_qos(qos::QoS::ExactlyOnce);
    flags.set_retain(true);
    let packet = Packet::publish(
        flags,
        variable_header::publish::Publish::new("a/b", Some(0x0102)),
        b"hello",
    )
    .expect("valid packet");
    let bytes = encode(&packet);
    assert_eq!(
        bytes,
        [0x35, 12, 0, 3, b'a', b'/', b'b', 1, 2, b'h', b'e', b'l', b'l', b'o']
    );
    let (consumed, decoded) = Packet::decode(&bytes).unwrap().unwrap();
    assert_eq!(consumed, 14);
    assert_eq!(decoded.fixed_header(), packet.fixed_header());
    match decoded.variable_header() {
        Some(VariableHeader::Publish(h)) => {
            assert_eq!(h.topic_name(), "a/b");
            assert_eq!(h.packet_identifier(), Some(0x0102));
        }
        other => panic!("variable header {:?}", other),
    }
    assert!(matches!(decoded.payload(), Payload::Bytes(b) if *b == b"hello"));
    check_prefixes(&bytes);
}

#[test]
fn publish_at_most_once_round_trip() {
    let packet = Packet::publish(
        PublishFlags::default(),
        variable_header::publish::Publish::new("t", None),
        &[],
    )
    .expect("valid packet");
    let bytes = encode(&packet);
    assert_eq!(bytes, [0x30, 3, 0, 1, b't']);
    let (consumed, decoded) = Packet::decode(&bytes).unwrap().unwrap();
    assert_eq!(consumed, 5);
    match decoded.variable_header() {
        Some(VariableHeader::Publish(h)) => {
            assert_eq!(h.topic_name(), "t");
            assert_eq!(h.packet_identifier(), None);
        }
        other => panic!("variable header {:?}", other),
    }
    assert!(matches!(decoded.payload(), Payload::Bytes(b) if b.is_empty()));
    check_prefixes(&bytes);
}

#[test]
fn publish_long_payload_round_trip() {
    let body = vec![0x5Au8; 20_000];
    let mut flags = PublishFlags::default();
    flags.set_qos(qos::QoS::AtLeastOnce);
    let packet = Packet::publish(
        flags,
        variable_header::publish::Publish::new("big", Some(1)),
        &body,
    )
    .expect("valid packet");
    assert_eq!(packet.fixed_header().len(), 20_007);
    assert_eq!(packet.fixed_header().encoded_len(), 4);
    let bytes = encode(&packet);
    assert_eq!(bytes.len(), 20_011);
    let (consumed, decoded) = Packet::decode(&bytes).unwrap().unwrap();
    assert_eq!(consumed, 20_011);
    assert!(matches!(decoded.payload(), Payload::Bytes(b) if *b == &body[..]));
    assert!(matches!(
        Packet::decode(&bytes[..11]),
        Ok(Status::Partial(20_000))
    ));
    assert!(matches!(
        Packet::decode(&bytes[..20_010]),
        Ok(Status::Partial(1))
    ));
}

#[test]
fn subscribe_round_trip() {
    let topics = [
        ("c/a", qos::QoS::AtMostOnce),
        ("c/b", qos::QoS::AtLeastOnce),
        ("c/c", qos::QoS::ExactlyOnce),
    ];
    let packet = Packet::subscribe(
        variable_header::packet_identifier::PacketIdentifier::new(1),
        payload::subscribe::Subscribe::new(&topics),
    )
    .expect("valid packet");
    let bytes = encode(&packet);
    assert_eq!(bytes.len(), 22);
    assert_eq!(&bytes[..4], &[0x82, 20, 0, 1]);
    let (consumed, decoded) = Packet::decode(&bytes).unwrap().unwrap();
    assert_eq!(consumed, 22);
    assert_eq!(decoded.fixed_header(), packet.fixed_header());
    assert!(matches!(
        decoded.variable_header(),
        Some(VariableHeader::Subscribe(id)) if id.packet_identifier() == 1
    ));
    match decoded.payload() {
        Payload::Subscribe(sub) => {
            let mut iter = sub.topics();
            for topic in topics {
                assert_eq!(iter.next(), Some(topic));
            }
            assert_eq!(iter.next(), None);
        }
        other => panic!("payload {:?}", other),
    }
    check_prefixes(&bytes);
}

#[test]
fn puback_round_trip() {
    let packet = Packet::puback(variable_header::packet_identifier::PacketIdentifier::new(
        0xBEEF,
    ))
    .expect("valid packet");
    assert_eq!(packet.encoded_len(), 4);
    let bytes = encode(&packet);
    assert_eq!(bytes, [0x40, 2, 0xBE, 0xEF]);
    let (consumed, decoded) = Packet::decode(&bytes).unwrap().unwrap();
    assert_eq!(consumed, 4);
    assert_eq!(decoded.fixed_header(), packet.fixed_header());
    assert!(matches!(
        decoded.variable_header(),
        Some(VariableHeader::Puback(id)) if id.packet_identifier() == 0xBEEF
    ));
    assert!(matches!(decoded.payload(), Payload::Bytes(b) if b.is_empty()));
    check_prefixes(&bytes);
}

#[test]
fn ping_round_trip() {
    let request = Packet::pingreq();
    let response = Packet::pingresp();
    assert_eq!(request.encoded_len(), 2);
    assert_eq!(encode(&request), [0xC0, 0]);
    assert_eq!(encode(&response), [0xD0, 0]);
    for (packet, packet_type) in [
        (request, PacketType::Pingreq),
        (response, PacketType::Pingresp),
    ] {
        let bytes = encode(&packet);
        let (consumed, decoded) = Packet::decode(&bytes).unwrap().unwrap();
        assert_eq!(consumed, 2);
        assert_eq!(decoded.fixed_header().packet_type(), packet_type);
        assert_eq!(decoded.fixed_header().len(), 0);
        assert!(decoded.variable_header().is_none());
        assert!(matches!(decoded.payload(), Payload::Bytes(b) if b.is_empty()));
        check_prefixes(&bytes);
    }
}

#[test]
fn decode_suback_packet() {
    let bytes = [0x90, 5, 0, 7, 0x00, 0x01, 0x80];
    let (consumed, decoded) = Packet::decode(&bytes).unwrap().unwrap();
    assert_eq!(consumed, 7);
    assert!(matches!(
        decoded.variable_header(),
        Some(VariableHeader::Suback(id)) if id.packet_identifier() == 7
    ));
    match decoded.payload() {
        Payload::Suback(codes) => {
            assert_eq!(codes.len(), 3);
            assert_eq!(u8::from(codes.get(0).unwrap()), 0);
            assert_eq!(u8::from(codes.get(1).unwrap()), 1);
            assert_eq!(u8::from(codes.get(2).unwrap()), 0x80);
        }
        other => panic!("payload {:?}", other),
    }
    assert_eq!(encode(&decoded), bytes);
    check_prefixes(&bytes);
    let bad = [0x90, 3, 0, 7, 0x83];
    assert!(matches!(
        Packet::decode(&bad),
        Err(DecodeError::InvalidSubackReturnCode)
    ));
}

#[test]
fn decode_connack_packet() {
    let bytes = [0x20, 2, 1, 0];
    let (consumed, decoded) = Packet::decode(&bytes).unwrap().unwrap();
    assert_eq!(consumed, 4);
    assert!(matches!(
        decoded.variable_header(),
        Some(VariableHeader::Connack(c)) if c.flags().session_present()
    ));
    assert!(matches!(decoded.payload(), Payload::Bytes(b) if b.is_empty()));
    assert_eq!(encode(&decoded), bytes);
    check_prefixes(&bytes);
}

#[test]
fn decode_packets_without_variable_header() {
    // Disconnect, and a Pubrel whose two bytes stand for themselves.
    let (consumed, decoded) = Packet::decode(&[0xE0, 0]).unwrap().unwrap();
    assert_eq!(consumed, 2);
    assert_eq!(decoded.fixed_header().packet_type(), PacketType::Disconnect);
    let bytes = [0x62, 2, 0, 9];
    let (consumed, decoded) = Packet::decode(&bytes).unwrap().unwrap();
    assert_eq!(consumed, 4);
    assert!(decoded.variable_header().is_none());
    assert!(matches!(decoded.payload(), Payload::Bytes(b) if *b == &[0, 9]));
    assert_eq!(encode(&decoded), bytes);
    check_prefixes(&bytes);
}

#[test]
fn decode_two_packets_from_one_buffer() {
    let bytes = [0xC0, 0, 0x40, 2, 0, 1, 0xD0];
    let (first, packet) = Packet::decode(&bytes).unwrap().unwrap();
    assert_eq!(first, 2);
    assert_eq!(packet.fixed_header().packet_type(), PacketType::Pingreq);
    let (second, packet) = Packet::decode(&bytes[first..]).unwrap().unwrap();
    assert_eq!(second, 4);
    assert_eq!(packet.fixed_header().packet_type(), PacketType::Puback);
    assert!(matches!(
        Packet::decode(&bytes[first + second..]),
        Ok(Status::Partial(1))
    ));
}

#[test]
fn decode_errors() {
    assert!(matches!(Packet::decode(&[]), Ok(Status::Partial(2))));
    assert!(matches!(Packet::decode(&[0x00, 0]), Err(DecodeError::PacketType)));
    assert!(matches!(Packet::decode(&[0x12, 0]), Err(DecodeError::PacketFlag)));
    assert!(matches!(
        Packet::decode(&[0x30, 0xFF, 0xFF, 0xFF, 0xFF, 0x7F]),
        Err(DecodeError::RemainingLength)
    ));
    // Publish flags with both bits of the quality of service.
    assert!(matches!(
        Packet::decode(&[0x36, 3, 0, 1, b't']),
        Err(DecodeError::InvalidQoS(qos::Error::BadPattern))
    ));
    // A topic with U+0000.
    assert!(matches!(
        Packet::decode(&[0x30, 3, 0, 1, 0]),
        Err(DecodeError::Utf8)
    ));
    // A variable header that reaches beyond the end of the packet.
    assert!(matches!(
        Packet::decode(&[0x40, 1, 0, 9]),
        Err(DecodeError::InvalidLength)
    ));
    assert!(matches!(
        Packet::decode(&[0x20, 0, 0, 0]),
        Err(DecodeError::InvalidLength)
    ));
    // A Subscribe payload that ends in the middle of a subscription.
    assert!(matches!(
        Packet::decode(&[0x82, 5, 0, 1, 0, 1, b'a']),
        Err(DecodeError::InvalidLength)
    ));
    // A Connect payload that does not take every byte of the packet.
    let connect = [
        0x10, 14, 0, 4, b'M', b'Q', b'T', b'T', 4, 0, 0, 60, 0, 1, b'c', 0xEE,
    ];
    assert!(matches!(
        Packet::decode(&connect),
        Err(DecodeError::InvalidLength)
    ));
    let connect = [0x10, 10, 0, 4, b'M', b'Q', b'T', b'T', 5, 0, 0, 60];
    assert!(matches!(
        Packet::decode(&connect),
        Err(DecodeError::InvalidProtocolLevel)
    ));
    let connect = [0x10, 10, 0, 4, b'M', b'Q', b'T', b'T', 4, 0x18, 0, 60];
    assert!(matches!(
        Packet::decode(&connect),
        Err(DecodeError::InvalidConnectFlag)
    ));
    assert!(matches!(
        Packet::decode(&[0x20, 2, 2, 0]),
        Err(DecodeError::InvalidConnackFlag)
    ));
    assert!(matches!(
        Packet::decode(&[0x20, 2, 0, 6]),
        Err(DecodeError::InvalidConnackReturnCode)
    ));
}

#[test]
fn decode_partial_payload_shortfall() {
    // Ten bytes are announced, the variable header takes five, two more are there.
    let bytes = [0x30, 10, 0, 3, b'a', b'/', b'b', 1, 2];
    assert!(matches!(Packet::decode(&bytes), Ok(Status::Partial(3))));
}

#[test]
fn encode_out_of_space() {
    let packet = Packet::publish(
        PublishFlags::default(),
        variable_header::publish::Publish::new("a/b", None),
        b"xy",
    )
    .expect("valid packet");
    assert_eq!(packet.encoded_len(), 9);
    for size in 0..9 {
        let mut buf = vec![0u8; size];
        assert_eq!(packet.encode(&mut buf), Err(EncodeError::OutOfSpace));
    }
    let mut buf = [0u8; 9];
    assert_eq!(packet.encode(&mut buf), Ok(9));
}

#[test]
fn encode_value_too_big() {
    let topic = "t".repeat(65536);
    let packet = Packet::publish(
        PublishFlags::default(),
        variable_header::publish::Publish::new(&topic, None),
        &[],
    )
    .expect("the length is counted all the same");
    assert_eq!(packet.fixed_header().len(), 65538);
    let mut buf = vec![0u8; 70000];
    assert_eq!(packet.encode(&mut buf), Err(EncodeError::ValueTooBig));
}

#[test]
fn construct_too_long() {
    // 4095 subscriptions of 65538 bytes and one of 57343 bytes make, with
    // the packet identifier, the longest packet that can be counted.
    let big = "t".repeat(65535);
    let last = "t".repeat(57_340);
    let mut topics = vec![(big.as_str(), qos::QoS::AtMostOnce); 4095];
    topics.push((last.as_str(), qos::QoS::AtMostOnce));
    let fits = Packet::subscribe(
        variable_header::packet_identifier::PacketIdentifier::new(1),
        payload::subscribe::Subscribe::new(&topics),
    )
    .expect("valid packet");
    assert_eq!(fits.fixed_header().len(), 268_435_455);
    assert_eq!(fits.fixed_header().encoded_len(), 5);
    assert_eq!(fits.encoded_len(), 268_435_460);

    let longer = "t".repeat(57_341);
    topics[4095] = (longer.as_str(), qos::QoS::AtMostOnce);
    let result = Packet::subscribe(
        variable_header::packet_identifier::PacketIdentifier::new(1),
        payload::subscribe::Subscribe::new(&topics),
    );
    assert!(matches!(result, Err(EncodeError::ValueTooBig)));
}
