use mqtt_codec::codec::{Decodable, Encodable};
use mqtt_codec::error::{DecodeError, EncodeError};
use mqtt_codec::fixed_header::PacketType;
use mqtt_codec::payload::connect::{Connect, Will};
use mqtt_codec::payload::suback::{ReturnCode, Suback};
use mqtt_codec::payload::subscribe::{parse_subscription, Subscribe};
use mqtt_codec::payload::Payload;
use mqtt_codec::qos;
use mqtt_codec::status::Status;
use mqtt_codec::variable_header::connect::Flags;

fn code(byte: u8) -> ReturnCode {
    ReturnCode::try_from(byte).unwrap()
}

#[test]
fn suback_encode() {
    let return_codes = [code(ReturnCode::SUCCESS_QOS_0)];

    let payload = Suback::new(&return_codes[..]);
    let mut buf = [0u8; 1];
    let used = payload.encode(&mut buf[..]);
    assert_eq!(used, Ok(1));
    assert_eq!(buf, [0b0000_0000]);
}

#[test]
fn decode() {
    let return_code_bytes = [0b1000_0000, 0b0000_0010, 0b0000_0001, 0b0000_0000];

    let return_codes = [
        code(ReturnCode::FAILURE),
        code(ReturnCode::SUCCESS_QOS_2),
        code(ReturnCode::SUCCESS_QOS_1),
        code(ReturnCode::SUCCESS_QOS_0),
    ];

    let payload = Suback::decode(&return_code_bytes[..]);
    assert_eq!(
        payload,
        Ok(Status::Complete((4, Suback::new(&return_codes[..]))))
    );
}

#[test]
fn decode_literal() {
    let topics = [
        ("a", qos::QoS::AtMostOnce),
        ("b", qos::QoS::AtLeastOnce),
        ("c", qos::QoS::ExactlyOnce),
    ];

    let sub = Subscribe::new(&topics);

    let mut iter = sub.topics();

    let next = iter.next();
    assert_eq!(next, Some(("a", qos::QoS::AtMostOnce)));

    let next = iter.next();
    assert_eq!(next, Some(("b", qos::QoS::AtLeastOnce)));

    let next = iter.next();
    assert_eq!(next, Some(("c", qos::QoS::ExactlyOnce)));

    let next = iter.next();
    assert_eq!(next, None);
}

#[test]
fn decode_bytes() {
    let bytes = [
        0b0000_0000, // 1
        0b0000_0001,
        0x61,        // 'a'
        0x0000_0000, // AtMostOnce
        0b0000_0000, // 1
        0b0000_0001,
        0x62,        // 'b'
        0b0000_0001, // AtLeastOnce
        0b0000_0000, // 1
        0b0000_0001,
        0x63,        // 'c'
        0b0000_0010, // ExactlyOnce
    ];

    let (_, sub) = Subscribe::decode(&bytes).expect("valid").unwrap();

    let mut iter = sub.topics();

    let next = iter.next();
    assert_eq!(next, Some(("a", qos::QoS::AtMostOnce)));

    let next = iter.next();
    assert_eq!(next, Some(("b", qos::QoS::AtLeastOnce)));

    let next = iter.next();
    assert_eq!(next, Some(("c", qos::QoS::ExactlyOnce)));

    let next = iter.next();
    assert_eq!(next, None);
}

#[test]
fn decode_bytes_error() {
    let bytes = [
        0b0000_0000, // 1
        0b0000_0001,
        0x61,        // 'a'
        0x0000_0000, // AtMostOnce
        0b0000_0000, // 1
        0b0000_0001,
        0x62,        // 'b'
        0b0000_0001, // AtLeastOnce
        0b0000_0000, // 1
        0b0000_0001,
        0x63, // 'c'

              // Intentionally omitted
              //0b0000_0010, // ExactlyOnce
              //
    ];

    let sub = Subscribe::decode(&bytes);
    assert!(sub.is_err());
    assert_eq!(sub.unwrap_err(), DecodeError::InvalidLength);
}

#[test]
fn suback_return_codes_scenario() {
    let bytes = [0x80, 0x02, 0x01, 0x00];
    let (n, payload) = Suback::decode(&bytes).unwrap().unwrap();
    assert_eq!(n, 4);
    assert_eq!(payload.len(), 4);
    let failure = payload.get(0).unwrap();
    assert!(failure.failure());
    assert_eq!(failure, code(ReturnCode::FAILURE));
    let granted = [
        payload.get(1).unwrap(),
        payload.get(2).unwrap(),
        payload.get(3).unwrap(),
    ];
    assert_eq!(granted[0].max_qos(), Ok(qos::QoS::ExactlyOnce));
    assert_eq!(granted[1].max_qos(), Ok(qos::QoS::AtLeastOnce));
    assert_eq!(granted[2].max_qos(), Ok(qos::QoS::AtMostOnce));
    assert!(granted.iter().all(|c| !c.failure()));
    assert_eq!(payload.get(4), None);

    assert_eq!(
        Suback::decode(&[0x83]),
        Err(DecodeError::InvalidSubackReturnCode)
    );
    assert_eq!(
        Suback::decode(&[0x00, 0x81]),
        Err(DecodeError::InvalidSubackReturnCode)
    );
}

#[test]
fn suback_reserved_bits_are_refused() {
    for byte in 0..=255u8 {
        let bytes = [0x00, byte];
        let result = Suback::decode(&bytes);
        if byte == 0x00 || byte == 0x01 || byte == 0x02 || byte == 0x80 {
            assert!(matches!(result, Ok(Status::Complete((2, _)))));
            assert_eq!(u8::from(code(byte)), byte);
        } else {
            assert_eq!(result, Err(DecodeError::InvalidSubackReturnCode));
            assert_eq!(ReturnCode::try_from(byte), Err(()));
        }
    }
}

#[test]
fn suback_both_qos_bits_are_refused() {
    assert_eq!(ReturnCode::try_from(0x03), Err(()));
    assert_eq!(
        Suback::decode(&[0x03]),
        Err(DecodeError::InvalidSubackReturnCode)
    );
    assert_eq!(
        Suback::decode(&[0x00, 0x01, 0x03, 0x02]),
        Err(DecodeError::InvalidSubackReturnCode)
    );
    assert!(matches!(
        Payload::decode(PacketType::Suback, &[0x03]),
        Some(Err(DecodeError::InvalidSubackReturnCode))
    ));
}

#[test]
fn suback_empty() {
    let (n, payload) = Suback::decode(&[]).unwrap().unwrap();
    assert_eq!(n, 0);
    assert_eq!(payload.len(), 0);
    assert_eq!(payload.encoded_len(), 0);
    assert_eq!(payload, Suback::new(&[]));
}

#[test]
fn suback_equality() {
    let codes = [code(1), code(2)];
    let (_, decoded) = Suback::decode(&[1, 2]).unwrap().unwrap();
    assert_eq!(decoded, Suback::new(&codes));
    assert_ne!(decoded, Suback::new(&codes[..1]));
    let other = [code(1), code(0)];
    assert_ne!(decoded, Suback::new(&other));
    let (_, again) = Suback::decode(&[1, 2, 0x80]).unwrap().unwrap();
    assert_ne!(decoded, again);
}

#[test]
fn suback_encode_round_trip() {
    let codes = [code(0x80), code(2), code(1), code(0)];
    let payload = Suback::new(&codes);
    assert_eq!(payload.encoded_len(), 4);
    let mut buf = [9u8; 5];
    assert_eq!(payload.encode(&mut buf), Ok(4));
    assert_eq!(buf, [0x80, 2, 1, 0, 9]);
    let (n, decoded) = Suback::decode(&buf[..4]).unwrap().unwrap();
    assert_eq!(n, 4);
    assert_eq!(decoded, payload);
    let mut again = [0u8; 4];
    assert_eq!(decoded.encode(&mut again), Ok(4));
    assert_eq!(again, [0x80, 2, 1, 0]);
    let mut short = [0u8; 3];
    assert_eq!(payload.encode(&mut short), Err(EncodeError::OutOfSpace));
}

#[test]
fn return_code_setters() {
    let mut c = code(ReturnCode::SUCCESS_QOS_0);
    assert!(!c.failure());
    c.set_max_qos(qos::QoS::ExactlyOnce);
    assert_eq!(u8::from(c), 2);
    assert_eq!(c, code(ReturnCode::SUCCESS_QOS_2));
    c.set_max_qos(qos::QoS::AtLeastOnce);
    assert_eq!(u8::from(c), 1);
    c.set_max_qos(qos::QoS::AtMostOnce);
    c.set_failure(true);
    assert_eq!(u8::from(c), 0x80);
    assert!(c.failure());
    c.set_failure(false);
    assert_eq!(u8::from(c), 0);
    assert_eq!(ReturnCode::SUCCESS_QOS_0, 0);
    assert_eq!(ReturnCode::SUCCESS_QOS_1, 1);
    assert_eq!(ReturnCode::SUCCESS_QOS_2, 2);
    assert_eq!(ReturnCode::FAILURE, 0x80);
}

#[test]
fn subscribe_encode() {
    let topics = [
        ("c/a", qos::QoS::AtMostOnce),
        ("c/b", qos::QoS::AtLeastOnce),
        ("c/c", qos::QoS::ExactlyOnce),
    ];
    let sub = Subscribe::new(&topics);
    assert_eq!(sub.encoded_len(), 18);
    let mut buf = [9u8; 19];
    assert_eq!(sub.encode(&mut buf), Ok(18));
    assert_eq!(
        buf,
        [
            0, 3, b'c', b'/', b'a', 0, 0, 3, b'c', b'/', b'b', 1, 0, 3, b'c', b'/', b'c', 2, 9
        ]
    );
    let (n, decoded) = Subscribe::decode(&buf[..18]).unwrap().unwrap();
    assert_eq!(n, 18);
    assert_eq!(decoded.encoded_len(), 18);
    let mut again = [0u8; 18];
    assert_eq!(decoded.encode(&mut again), Ok(18));
    assert_eq!(&again[..], &buf[..18]);
    let mut iter = decoded.topics();
    for topic in topics {
        assert_eq!(iter.next(), Some(topic));
    }
    assert_eq!(iter.next(), None);
    assert_eq!(iter.next(), None);
}

#[test]
fn subscribe_walked_twice() {
    let bytes = [0, 1, b'a', 0, 0, 1, b'b', 1];
    let (_, sub) = Subscribe::decode(&bytes).unwrap().unwrap();
    for _ in 0..2 {
        let mut iter = sub.topics();
        assert_eq!(iter.next(), Some(("a", qos::QoS::AtMostOnce)));
        assert_eq!(iter.next(), Some(("b", qos::QoS::AtLeastOnce)));
        assert_eq!(iter.next(), None);
    }
}

#[test]
fn subscribe_encode_errors() {
    let topics = [("ab", qos::QoS::AtMostOnce), ("c", qos::QoS::AtLeastOnce)];
    let sub = Subscribe::new(&topics);
    assert_eq!(sub.encoded_len(), 9);
    for size in 0..9 {
        let mut buf = vec![0u8; size];
        assert_eq!(sub.encode(&mut buf), Err(EncodeError::OutOfSpace));
    }
    let big = "t".repeat(65536);
    let topics = [("ab", qos::QoS::AtMostOnce), (big.as_str(), qos::QoS::AtLeastOnce)];
    let sub = Subscribe::new(&topics);
    let mut buf = vec![0u8; 70000];
    assert_eq!(sub.encode(&mut buf), Err(EncodeError::ValueTooBig));
    // The first subscription finds no room before the second is looked at.
    let mut short = [0u8; 4];
    assert_eq!(sub.encode(&mut short), Err(EncodeError::OutOfSpace));
}

#[test]
fn subscribe_empty() {
    let sub = Subscribe::new(&[]);
    assert_eq!(sub.encoded_len(), 0);
    let mut buf: [u8; 0] = [];
    assert_eq!(sub.encode(&mut buf), Ok(0));
    assert_eq!(sub.topics().next(), None);
    let (n, decoded) = Subscribe::decode(&[]).unwrap().unwrap();
    assert_eq!(n, 0);
    assert_eq!(decoded.topics().next(), None);
}

#[test]
fn subscribe_decode_errors() {
    // Both bits of the quality of service.
    assert_eq!(
        Subscribe::decode(&[0, 1, b'a', 3]).unwrap_err(),
        DecodeError::InvalidQoS(qos::Error::BadPattern)
    );
    // A topic that is no string.
    assert_eq!(
        Subscribe::decode(&[0, 1, 0xFF, 0]).unwrap_err(),
        DecodeError::Utf8
    );
    // A topic that ends early.
    assert_eq!(
        Subscribe::decode(&[0, 1, b'a', 0, 0, 5, b'b']).unwrap_err(),
        DecodeError::InvalidLength
    );
    assert_eq!(
        Subscribe::decode(&[0]).unwrap_err(),
        DecodeError::InvalidLength
    );
}

#[test]
fn parse_subscription_cases() {
    assert_eq!(
        parse_subscription(&[0, 1, b'a', 2, 9]),
        Ok(Status::Complete((4, ("a", qos::QoS::ExactlyOnce))))
    );
    // Of the byte only the two low bits are read.
    assert_eq!(
        parse_subscription(&[0, 1, b'a', 0b1111_1101]),
        Ok(Status::Complete((4, ("a", qos::QoS::AtLeastOnce))))
    );
    assert_eq!(parse_subscription(&[0, 1, b'a']), Ok(Status::Partial(1)));
    assert_eq!(parse_subscription(&[0, 1]), Ok(Status::Partial(1)));
    assert_eq!(parse_subscription(&[]), Ok(Status::Partial(2)));
    assert_eq!(
        parse_subscription(&[0, 1, b'a', 3]),
        Err(DecodeError::InvalidQoS(qos::Error::BadPattern))
    );
}

fn flags(will: bool, username: bool, password: bool) -> Flags {
    let mut flags = Flags::default();
    flags.set_has_will_flag(will);
    flags.set_has_username(username);
    flags.set_has_password(password);
    flags
}

#[test]
fn will_codec() {
    let will = Will::new("t", &[1, 2, 3]);
    assert_eq!(will.topic(), "t");
    assert_eq!(will.message(), &[1, 2, 3]);
    assert_eq!(will.encoded_len(), 8);
    let mut buf = [9u8; 9];
    assert_eq!(will.encode(&mut buf), Ok(8));
    assert_eq!(buf, [0, 1, b't', 0, 3, 1, 2, 3, 9]);
    let (n, decoded) = Will::decode(&buf).unwrap().unwrap();
    assert_eq!(n, 8);
    assert_eq!(decoded.topic(), "t");
    assert_eq!(decoded.message(), &[1, 2, 3]);
    assert!(matches!(Will::decode(&buf[..7]), Ok(Status::Partial(1))));
    assert!(matches!(Will::decode(&buf[..4]), Ok(Status::Partial(1))));
    assert!(matches!(Will::decode(&buf[..3]), Ok(Status::Partial(2))));
    let mut short = [0u8; 7];
    assert_eq!(will.encode(&mut short), Err(EncodeError::OutOfSpace));
}

#[test]
fn connect_payload_all_fields() {
    let payload = Connect::new(
        "abc",
        Some(Will::new("w", &[0xFF, 0x00])),
        Some("user"),
        Some(&[1, 2]),
    );
    assert_eq!(payload.encoded_len(), 5 + 7 + 6 + 4);
    let mut buf = [9u8; 23];
    assert_eq!(payload.encode(&mut buf), Ok(22));
    let expected = [
        0, 3, b'a', b'b', b'c', 0, 1, b'w', 0, 2, 0xFF, 0x00, 0, 4, b'u', b's', b'e', b'r', 0, 2,
        1, 2, 9,
    ];
    assert_eq!(buf, expected);

    let (n, decoded) = Connect::decode(flags(true, true, true), &buf).unwrap().unwrap();
    assert_eq!(n, 22);
    assert_eq!(decoded.client_id(), "abc");
    let will = decoded.will().as_ref().unwrap();
    assert_eq!(will.topic(), "w");
    assert_eq!(will.message(), &[0xFF, 0x00]);
    assert_eq!(decoded.username(), Some("user"));
    assert_eq!(decoded.password(), Some(&[1u8, 2][..]));
}

#[test]
fn connect_payload_by_flags() {
    let buf = [0, 1, b'c', 0, 1, b'x', 0, 1, b'y'];
    let (n, decoded) = Connect::decode(flags(false, false, false), &buf).unwrap().unwrap();
    assert_eq!(n, 3);
    assert_eq!(decoded.client_id(), "c");
    assert!(decoded.will().is_none());
    assert_eq!(decoded.username(), None);
    assert_eq!(decoded.password(), None);

    let (n, decoded) = Connect::decode(flags(false, true, false), &buf).unwrap().unwrap();
    assert_eq!(n, 6);
    assert_eq!(decoded.username(), Some("x"));
    assert_eq!(decoded.password(), None);

    let (n, decoded) = Connect::decode(flags(false, false, true), &buf).unwrap().unwrap();
    assert_eq!(n, 6);
    assert_eq!(decoded.username(), None);
    assert_eq!(decoded.password(), Some(&b"x"[..]));

    let (n, decoded) = Connect::decode(flags(false, true, true), &buf).unwrap().unwrap();
    assert_eq!(n, 9);
    assert_eq!(decoded.username(), Some("x"));
    assert_eq!(decoded.password(), Some(&b"y"[..]));

    let (n, decoded) = Connect::decode(flags(true, false, false), &buf).unwrap().unwrap();
    assert_eq!(n, 9);
    let will = decoded.will().as_ref().unwrap();
    assert_eq!(will.topic(), "x");
    assert_eq!(will.message(), b"y");

    assert!(matches!(
        Connect::decode(flags(true, true, false), &buf),
        Ok(Status::Partial(2))
    ));
}

#[test]
fn connect_payload_errors() {
    assert!(matches!(
        Connect::decode(flags(false, false, false), &[0, 1, 0]),
        Err(DecodeError::Utf8)
    ));
    assert!(matches!(
        Connect::decode(flags(false, true, false), &[0, 0, 0, 1, 0xFF]),
        Err(DecodeError::Utf8)
    ));
    // A password may hold any bytes.
    let (n, decoded) = Connect::decode(flags(false, false, true), &[0, 0, 0, 1, 0xFF])
        .unwrap()
        .unwrap();
    assert_eq!(n, 5);
    assert_eq!(decoded.client_id(), "");
    assert_eq!(decoded.password(), Some(&[0xFFu8][..]));

    let big = vec![0u8; 65536];
    let payload = Connect::new("c", None, Some("u"), Some(&big));
    let mut buf = vec![0u8; 70000];
    assert_eq!(payload.encode(&mut buf), Err(EncodeError::ValueTooBig));
    // The user name finds no room before the password is looked at.
    let mut short = [0u8; 5];
    assert_eq!(payload.encode(&mut short), Err(EncodeError::OutOfSpace));
}

#[test]
fn payload_by_packet_type() {
    let suback = Payload::decode(PacketType::Suback, &[0, 1, 2]);
    assert!(matches!(
        suback,
        Some(Ok(Status::Complete((3, Payload::Suback(_)))))
    ));
    let suback = Payload::decode(PacketType::Suback, &[4]);
    assert!(matches!(
        suback,
        Some(Err(DecodeError::InvalidSubackReturnCode))
    ));
    let subscribe = Payload::decode(PacketType::Subscribe, &[0, 1, b'a', 1]);
    assert!(matches!(
        subscribe,
        Some(Ok(Status::Complete((4, Payload::Subscribe(_)))))
    ));
    let subscribe = Payload::decode(PacketType::Subscribe, &[0, 1, b'a']);
    assert!(matches!(subscribe, Some(Err(DecodeError::InvalidLength))));
    for packet_type in [
        PacketType::Connect,
        PacketType::Connack,
        PacketType::Publish,
        PacketType::Puback,
        PacketType::Pubrec,
        PacketType::Pubrel,
        PacketType::Pubcomp,
        PacketType::Unsubscribe,
        PacketType::Unsuback,
        PacketType::Pingreq,
        PacketType::Pingresp,
        PacketType::Disconnect,
    ] {
        assert!(Payload::decode(packet_type, &[1, 2, 3]).is_none());
    }
}

#[test]
fn payload_bytes() {
    let payload = Payload::Bytes(&[1, 2, 3]);
    assert_eq!(payload.encoded_len(), 3);
    let mut buf = [9u8; 4];
    assert_eq!(payload.encode(&mut buf), Ok(3));
    assert_eq!(buf, [1, 2, 3, 9]);
    let mut short = [0u8; 2];
    assert_eq!(payload.encode(&mut short), Err(EncodeError::OutOfSpace));
    let empty = Payload::default();
    assert_eq!(empty.encoded_len(), 0);
    assert!(matches!(empty, Payload::Bytes(b) if b.is_empty()));
}
