//! The byte-level wire codec: what it accepts and what it produces.

use lightnode::cbor::{decode_from_cbor, encode_to_cbor, ParseError, Value};
use lightnode::packet::{
    send_handshake, send_hardcoded_blob_after_handshake, send_msg_getblocks, send_msg_getheaders,
    send_msg_subscribe, MsgType,
};
use lightnode::types::HeaderHash;

const HANDSHAKE_BYTES: [u8; 282] = [
    0x84, 0x1a, 0x2d, 0x96, 0x4a, 0x09, 0x83, 0x00, 0x01, 0x00, 0xb3, 0x04,
    0x82, 0x00, 0xd8, 0x18, 0x41, 0x05, 0x05, 0x82, 0x00, 0xd8, 0x18, 0x41,
    0x04, 0x06, 0x82, 0x00, 0xd8, 0x18, 0x41, 0x07, 0x18, 0x22, 0x82, 0x00,
    0xd8, 0x18, 0x42, 0x18, 0x5e, 0x18, 0x25, 0x82, 0x00, 0xd8, 0x18, 0x42,
    0x18, 0x5e, 0x18, 0x2b, 0x82, 0x00, 0xd8, 0x18, 0x42, 0x18, 0x5d, 0x18,
    0x31, 0x82, 0x00, 0xd8, 0x18, 0x42, 0x18, 0x5c, 0x18, 0x37, 0x82, 0x00,
    0xd8, 0x18, 0x42, 0x18, 0x62, 0x18, 0x3d, 0x82, 0x00, 0xd8, 0x18, 0x42,
    0x18, 0x61, 0x18, 0x43, 0x82, 0x00, 0xd8, 0x18, 0x42, 0x18, 0x60, 0x18,
    0x49, 0x82, 0x00, 0xd8, 0x18, 0x42, 0x18, 0x5f, 0x18, 0x53, 0x82, 0x00,
    0xd8, 0x18, 0x41, 0x00, 0x18, 0x5c, 0x82, 0x00, 0xd8, 0x18, 0x42, 0x18,
    0x31, 0x18, 0x5d, 0x82, 0x00, 0xd8, 0x18, 0x42, 0x18, 0x2b, 0x18, 0x5e,
    0x82, 0x00, 0xd8, 0x18, 0x42, 0x18, 0x25, 0x18, 0x5f, 0x82, 0x00, 0xd8,
    0x18, 0x42, 0x18, 0x49, 0x18, 0x60, 0x82, 0x00, 0xd8, 0x18, 0x42, 0x18,
    0x43, 0x18, 0x61, 0x82, 0x00, 0xd8, 0x18, 0x42, 0x18, 0x3d, 0x18, 0x62,
    0x82, 0x00, 0xd8, 0x18, 0x42, 0x18, 0x37, 0xad, 0x04, 0x82, 0x00, 0xd8,
    0x18, 0x41, 0x05, 0x05, 0x82, 0x00, 0xd8, 0x18, 0x41, 0x04, 0x06, 0x82,
    0x00, 0xd8, 0x18, 0x41, 0x07, 0x0d, 0x82, 0x00, 0xd8, 0x18, 0x41, 0x00,
    0x0e, 0x82, 0x00, 0xd8, 0x18, 0x41, 0x00, 0x18, 0x25, 0x82, 0x00, 0xd8,
    0x18, 0x42, 0x18, 0x5e, 0x18, 0x2b, 0x82, 0x00, 0xd8, 0x18, 0x42, 0x18,
    0x5d, 0x18, 0x31, 0x82, 0x00, 0xd8, 0x18, 0x42, 0x18, 0x5c, 0x18, 0x37,
    0x82, 0x00, 0xd8, 0x18, 0x42, 0x18, 0x62, 0x18, 0x3d, 0x82, 0x00, 0xd8,
    0x18, 0x42, 0x18, 0x61, 0x18, 0x43, 0x82, 0x00, 0xd8, 0x18, 0x42, 0x18,
    0x60, 0x18, 0x49, 0x82, 0x00, 0xd8, 0x18, 0x42, 0x18, 0x5f, 0x18, 0x53,
    0x82, 0x00, 0xd8, 0x18, 0x41, 0x00,
];

fn nested_sample() -> Value {
    Value::Array(vec![
        Value::U64(0),
        Value::U64(23),
        Value::U64(24),
        Value::U64(0xff),
        Value::U64(0x100),
        Value::U64(0xffff),
        Value::U64(0x10000),
        Value::U64(0xffffffff),
        Value::U64(0x100000000),
        Value::U64(u64::MAX),
        Value::Bytes(vec![1, 2, 3]),
        Value::Text(vec![b'h', b'i']),
        Value::IArray(vec![Value::U64(1), Value::Array(vec![])]),
        Value::Object(vec![(Value::U64(4), Value::Bytes(vec![5]))]),
        Value::Tag(24, Box::new(Value::Bytes(vec![0x05]))),
    ])
}

#[test]
fn byte_roundtrip_nested() {
    let v = nested_sample();
    let bytes = encode_to_cbor(&v);
    let w = decode_from_cbor(&bytes).unwrap();
    assert_eq!(v, w);
}

#[test]
fn integer_wire_forms() {
    assert_eq!(encode_to_cbor(&Value::U64(0)), vec![0x00]);
    assert_eq!(encode_to_cbor(&Value::U64(23)), vec![0x17]);
    assert_eq!(encode_to_cbor(&Value::U64(24)), vec![0x18, 0x18]);
    assert_eq!(encode_to_cbor(&Value::U64(0xff)), vec![0x18, 0xff]);
    assert_eq!(encode_to_cbor(&Value::U64(0x100)), vec![0x19, 0x01, 0x00]);
    assert_eq!(encode_to_cbor(&Value::U64(0x10000)), vec![0x1a, 0x00, 0x01, 0x00, 0x00]);
    assert_eq!(
        encode_to_cbor(&Value::U64(0x100000000)),
        vec![0x1b, 0x00, 0x00, 0x00, 0x01, 0x00, 0x00, 0x00, 0x00]
    );
}

#[test]
fn rejects_non_minimal_integers() {
    assert_eq!(decode_from_cbor(&[0x18, 0x05]), Err(ParseError::NonMinimal));
    assert_eq!(decode_from_cbor(&[0x19, 0x00, 0x05]), Err(ParseError::NonMinimal));
}

#[test]
fn rejects_truncated_input() {
    assert_eq!(decode_from_cbor(&[]), Err(ParseError::Truncated));
    assert_eq!(decode_from_cbor(&[0x58, 0x20]), Err(ParseError::Truncated));
    assert_eq!(decode_from_cbor(&[0x82, 0x01]), Err(ParseError::Truncated));
    assert_eq!(decode_from_cbor(&[0x9f, 0x01]), Err(ParseError::Truncated));
}

#[test]
fn rejects_trailing_bytes() {
    assert_eq!(decode_from_cbor(&[0x01, 0x02]), Err(ParseError::Trailing));
}

#[test]
fn rejects_constructs_outside_the_model() {
    assert_eq!(decode_from_cbor(&[0x20]), Err(ParseError::Unsupported));
    assert_eq!(decode_from_cbor(&[0xf6]), Err(ParseError::Unsupported));
}

#[test]
fn indefinite_array_wire_form() {
    let v = decode_from_cbor(&[0x9f, 0x01, 0x02, 0xff]).unwrap();
    assert_eq!(v, Value::IArray(vec![Value::U64(1), Value::U64(2)]));
    assert_eq!(encode_to_cbor(&v), vec![0x9f, 0x01, 0x02, 0xff]);
}

#[test]
fn handshake_matches_golden_bytes() {
    assert_eq!(send_handshake(764824073), HANDSHAKE_BYTES.to_vec());
}

#[test]
fn handshake_blob_roundtrips_through_codec() {
    let v = decode_from_cbor(&HANDSHAKE_BYTES).unwrap();
    assert_eq!(encode_to_cbor(&v), HANDSHAKE_BYTES.to_vec());
}

#[test]
fn hardcoded_blob_after_handshake() {
    assert_eq!(
        send_hardcoded_blob_after_handshake(),
        vec![0x53, 0x78, 0x29, 0x6e, 0xc5, 0xd4, 0x5c, 0x95, 0x24]
    );
}

#[test]
fn msg_type_tags() {
    assert_eq!(MsgType::MsgSubscribe.to_u8(), 0x0e);
    assert_eq!(MsgType::MsgGetHeaders.to_u8(), 0x04);
    assert_eq!(MsgType::MsgGetBlocks.to_u8(), 0x06);
}

#[test]
fn subscribe_payload() {
    assert_eq!(send_msg_subscribe(true), (0x0e, vec![0x18, 0x2b]));
    assert_eq!(send_msg_subscribe(false), (0x0e, vec![0x18, 0x2a]));
}

#[test]
fn getblocks_payload() {
    let from = HeaderHash::from_bytes([1; 32]);
    let to = HeaderHash::from_bytes([2; 32]);
    let (tag, dat) = send_msg_getblocks(&from, &to);
    assert_eq!(tag, 0x06);
    let mut expected = vec![0x82, 0x58, 0x20];
    expected.extend_from_slice(&[1; 32]);
    expected.extend_from_slice(&[0x58, 0x20]);
    expected.extend_from_slice(&[2; 32]);
    assert_eq!(dat, expected);
}

#[test]
fn getheaders_payload_with_target() {
    let from = vec![HeaderHash::from_bytes([1; 32])];
    let to = HeaderHash::from_bytes([2; 32]);
    let (tag, dat) = send_msg_getheaders(&from, Some(&to));
    assert_eq!(tag, 0x04);
    let mut expected = vec![0x82, 0x9f, 0x58, 0x20];
    expected.extend_from_slice(&[1; 32]);
    expected.push(0xff);
    expected.extend_from_slice(&[0x81, 0x58, 0x20]);
    expected.extend_from_slice(&[2; 32]);
    assert_eq!(dat, expected);
}

#[test]
fn getheaders_payload_without_target() {
    let from = vec![HeaderHash::from_bytes([1; 32])];
    let (tag, dat) = send_msg_getheaders(&from, None);
    assert_eq!(tag, 0x04);
    let mut expected = vec![0x82, 0x9f, 0x58, 0x20];
    expected.extend_from_slice(&[1; 32]);
    expected.push(0xff);
    expected.push(0x80);
    assert_eq!(dat, expected);
}

#[test]
fn hash_from_slice_checks_length() {
    assert!(HeaderHash::from_slice(&[0; 31]).is_none());
    assert!(HeaderHash::from_slice(&[0; 33]).is_none());
    let h = HeaderHash::from_slice(&[7; 32]).unwrap();
    assert_eq!(h.bytes().as_slice(), &[7; 32][..]);
}
