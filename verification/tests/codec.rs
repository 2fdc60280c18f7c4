use std::io::{Cursor, Write};

use byteorder::{BigEndian, ByteOrder, WriteBytesExt};

use mqtt_codec::codec::string::{encode_string, parse_string};
use mqtt_codec::codec::values::{
    encode_bytes, encode_u16, encode_u8, parse_bytes, parse_u16, parse_u8,
};
use mqtt_codec::codec::{Decodable, Encodable};
use mqtt_codec::error::{DecodeError, EncodeError};
use mqtt_codec::status::Status;

#[test]
fn string_small_buffer() {
    assert_eq!(Ok(Status::Partial(2)), parse_string(&[]));
    assert_eq!(Ok(Status::Partial(1)), parse_string(&[0]));

    let mut buf = [0u8; 2];
    BigEndian::write_u16(&mut buf, 16);
    assert_eq!(Ok(Status::Partial(16)), parse_string(&buf));
}

#[test]
fn string_empty_str() {
    let mut buf = [0u8; 2];
    BigEndian::write_u16(&mut buf, 0);
    assert_eq!(Ok(Status::Complete((2, ""))), parse_string(&buf));
}

#[test]
fn string_parse_str() {
    let inp = "don't panic!";
    let mut buf = Cursor::new(Vec::new());
    buf.write_u16::<BigEndian>(inp.len() as u16).unwrap();
    buf.write(inp.as_bytes()).unwrap();
    assert_eq!(
        Status::Complete((14, inp)),
        parse_string(buf.get_ref().as_ref()).unwrap()
    );
}

#[test]
fn string_invalid_utf8() {
    let inp = [0, 159, 146, 150];
    let mut buf = Cursor::new(Vec::new());
    buf.write_u16::<BigEndian>(inp.len() as u16).unwrap();
    buf.write(&inp).unwrap();
    assert_eq!(Err(DecodeError::Utf8), parse_string(buf.get_ref().as_ref()));
}

#[test]
fn string_null_utf8() {
    let inp = format!("don't {} panic!", '\u{0000}');
    let mut buf = Cursor::new(Vec::new());
    buf.write_u16::<BigEndian>(inp.len() as u16).unwrap();
    buf.write(inp.as_bytes()).unwrap();
    assert_eq!(Err(DecodeError::Utf8), parse_string(buf.get_ref().as_ref()));
}

#[test]
fn string_encode() {
    let mut buf = [0u8; 3];
    let result = encode_string("a", &mut buf[0..3]);
    assert_eq!(result, Ok(3));
    assert_eq!(buf, [0b00000000, 0b00000001, 0x61]);
}

#[test]
fn string_partial_body() {
    // Five bytes are announced and three are there.
    assert_eq!(Ok(Status::Partial(2)), parse_string(&[0, 5, b'a', b'b', b'c']));
}

#[test]
fn string_stops_at_its_length() {
    let buf = [0, 2, b'h', b'i', 0xFF, 0x00];
    assert_eq!(Ok(Status::Complete((4, "hi"))), parse_string(&buf));
}

#[test]
fn string_multibyte_characters() {
    let inp = "gr\u{00FC}\u{00DF}e \u{4E16}\u{754C} \u{1F600}";
    let mut buf = vec![0u8; 2 + inp.len()];
    assert_eq!(encode_string(inp, &mut buf), Ok(2 + inp.len()));
    assert_eq!(Ok(Status::Complete((2 + inp.len(), inp))), parse_string(&buf));
}

#[test]
fn string_byte_order_mark_is_kept() {
    let inp = "\u{FEFF}a";
    let mut buf = [0u8; 6];
    assert_eq!(encode_string(inp, &mut buf), Ok(6));
    assert_eq!(Ok(Status::Complete((6, inp))), parse_string(&buf));
}

#[test]
fn string_surrogate_is_refused() {
    // U+D800 written in three bytes.
    let buf = [0, 3, 0xED, 0xA0, 0x80];
    assert_eq!(Err(DecodeError::Utf8), parse_string(&buf));
}

#[test]
fn string_overlong_nul_is_refused() {
    let buf = [0, 2, 0xC0, 0x80];
    assert_eq!(Err(DecodeError::Utf8), parse_string(&buf));
}

#[test]
fn string_lone_nul_is_refused() {
    assert_eq!(Err(DecodeError::Utf8), parse_string(&[0, 1, 0]));
}

#[test]
fn string_encode_out_of_space() {
    let mut buf = [0u8; 2];
    assert_eq!(encode_string("a", &mut buf), Err(EncodeError::OutOfSpace));
    let mut none: [u8; 0] = [];
    assert_eq!(encode_string("", &mut none), Err(EncodeError::OutOfSpace));
}

#[test]
fn string_encode_too_big() {
    let big = "x".repeat(65536);
    let mut buf = vec![0u8; 70000];
    assert_eq!(encode_string(&big, &mut buf), Err(EncodeError::ValueTooBig));
    // The size is looked at before the room.
    let mut small = [0u8; 1];
    assert_eq!(encode_string(&big, &mut small), Err(EncodeError::ValueTooBig));
}

#[test]
fn string_encode_largest() {
    let big = "x".repeat(65535);
    let mut buf = vec![0u8; 65537];
    assert_eq!(encode_string(&big, &mut buf), Ok(65537));
    assert_eq!(&buf[0..2], &[0xFF, 0xFF]);
    assert_eq!(Ok(Status::Complete((65537, big.as_str()))), parse_string(&buf));
}

#[test]
fn string_encode_leaves_the_rest() {
    let mut buf = [7u8; 6];
    assert_eq!(encode_string("ab", &mut buf), Ok(4));
    assert_eq!(buf, [0, 2, b'a', b'b', 7, 7]);
}

#[test]
fn string_traits() {
    assert_eq!("abc".encoded_len(), 5);
    let mut buf = [0u8; 5];
    assert_eq!("abc".encode(&mut buf), Ok(5));
    assert_eq!(buf, [0, 3, b'a', b'b', b'c']);
    let decoded: Result<Status<(usize, &str)>, DecodeError> = Decodable::decode(&buf);
    assert_eq!(decoded, Ok(Status::Complete((5, "abc"))));
}

#[test]
fn u8_round_trip() {
    assert_eq!(parse_u8(&[]), Ok(Status::Partial(1)));
    assert_eq!(parse_u8(&[0xAB, 1]), Ok(Status::Complete((1, 0xAB))));
    let mut buf = [0u8; 2];
    assert_eq!(encode_u8(0xAB, &mut buf), Ok(1));
    assert_eq!(buf, [0xAB, 0]);
    let mut none: [u8; 0] = [];
    assert_eq!(encode_u8(1, &mut none), Err(EncodeError::OutOfSpace));
}

#[test]
fn u16_is_big_endian() {
    assert_eq!(parse_u16(&[]), Ok(Status::Partial(2)));
    assert_eq!(parse_u16(&[1]), Ok(Status::Partial(1)));
    assert_eq!(parse_u16(&[1, 2]), Ok(Status::Complete((2, 258))));
    assert_eq!(parse_u16(&[0xFF, 0xFE, 9]), Ok(Status::Complete((2, 0xFFFE))));
    let mut buf = [9u8; 3];
    assert_eq!(encode_u16(258, &mut buf), Ok(2));
    assert_eq!(buf, [1, 2, 9]);
    let mut short = [0u8; 1];
    assert_eq!(encode_u16(258, &mut short), Err(EncodeError::OutOfSpace));
}

#[test]
fn u16_round_trip_all() {
    for value in 0..=u16::MAX {
        let mut buf = [0u8; 2];
        assert_eq!(encode_u16(value, &mut buf), Ok(2));
        assert_eq!(parse_u16(&buf), Ok(Status::Complete((2, value))));
    }
}

#[test]
fn bytes_round_trip() {
    let value = [0u8, 159, 146, 150, 0];
    let mut buf = [1u8; 9];
    assert_eq!(encode_bytes(&value, &mut buf), Ok(7));
    assert_eq!(buf, [0, 5, 0, 159, 146, 150, 0, 1, 1]);
    assert_eq!(parse_bytes(&buf), Ok(Status::Complete((7, &value[..]))));
    assert_eq!(parse_bytes(&buf[..6]), Ok(Status::Partial(1)));
    assert_eq!(parse_bytes(&buf[..1]), Ok(Status::Partial(1)));
    assert_eq!(parse_bytes(&buf[..0]), Ok(Status::Partial(2)));
}

#[test]
fn bytes_errors() {
    let big = vec![0u8; 65536];
    let mut buf = vec![0u8; 70000];
    assert_eq!(encode_bytes(&big, &mut buf), Err(EncodeError::ValueTooBig));
    let mut short = [0u8; 3];
    assert_eq!(encode_bytes(&[1, 2], &mut short), Err(EncodeError::OutOfSpace));
    let mut one = [0u8; 1];
    assert_eq!(encode_bytes(&[], &mut one), Err(EncodeError::OutOfSpace));
}

#[test]
fn bytes_traits() {
    let value: &[u8] = &[1, 2, 3];
    assert_eq!(value.encoded_len(), 5);
    let mut buf = [0u8; 5];
    assert_eq!(value.encode(&mut buf), Ok(5));
    let decoded: Result<Status<(usize, &[u8])>, DecodeError> = Decodable::decode(&buf);
    assert_eq!(decoded, Ok(Status::Complete((5, value))));
}

#[test]
fn status_methods() {
    let complete: Status<u8> = Status::Complete(3);
    let partial: Status<u8> = Status::Partial(2);
    assert!(complete.is_complete());
    assert!(!complete.is_partial());
    assert!(partial.is_partial());
    assert!(!partial.is_complete());
    assert_eq!(complete.unwrap(), 3);
}

#[test]
fn error_descriptions() {
    assert_eq!(DecodeError::PacketType.desc(), "invalid packet type in header");
    assert_eq!(DecodeError::PacketFlag.desc(), "invalid packet type flag in header");
    assert_eq!(DecodeError::RemainingLength.desc(), "malformed remaining length in header");
    assert_eq!(DecodeError::InvalidLength.desc(), "invalid buffer length");
    assert_eq!(DecodeError::Utf8.desc(), "invalid utf-8 encoding");
    assert_eq!(
        DecodeError::InvalidQoS(mqtt_codec::qos::Error::BadPattern).desc(),
        "invalid QoS bit pattern"
    );
    assert_eq!(DecodeError::InvalidProtocolLevel.desc(), "invalid protocol level");
    assert_eq!(DecodeError::InvalidConnectFlag.desc(), "invalid connect flag value");
    assert_eq!(DecodeError::InvalidConnackFlag.desc(), "invalid connack flag value");
    assert_eq!(DecodeError::InvalidConnackReturnCode.desc(), "invalid connack return code");
    assert_eq!(DecodeError::InvalidSubackReturnCode.desc(), "invalid suback return code");
    assert_eq!(EncodeError::OutOfSpace.desc(), "not enough space in encode buffer");
    assert_eq!(EncodeError::ValueTooBig.desc(), "value too big to ever be encoded");
    assert_eq!(mqtt_codec::qos::Error::BadPattern.desc(), "invalid QoS bit pattern");
}

#[test]
fn error_conversions() {
    let utf8 = std::str::from_utf8(&[0xFF]).unwrap_err();
    assert_eq!(DecodeError::from(utf8), DecodeError::Utf8);
    assert_eq!(
        DecodeError::from(mqtt_codec::qos::Error::BadPattern),
        DecodeError::InvalidQoS(mqtt_codec::qos::Error::BadPattern)
    );
    let too_big = u8::try_from(256u32).unwrap_err();
    assert_eq!(EncodeError::from(too_big), EncodeError::ValueTooBig);
}
