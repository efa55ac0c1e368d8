use raigeki::addr::IpAddress;
use raigeki::error::{Error, PacketError};
use raigeki::frame::{chat_json, rejection_frame, write_string, DisconnectPacket, MAX_REASON_BYTES};
use raigeki::varint::{read_varint, varint_length, write_varint};

fn encode(v: i32) -> Vec<u8> {
    let mut out = Vec::new();
    write_varint(v, &mut out);
    out
}

#[test]
fn varint_encodes_known_values() {
    assert_eq!(encode(0), vec![0x00]);
    assert_eq!(encode(1), vec![0x01]);
    assert_eq!(encode(127), vec![0x7f]);
    assert_eq!(encode(128), vec![0x80, 0x01]);
    assert_eq!(encode(300), vec![0xac, 0x02]);
    assert_eq!(encode(25565), vec![0xdd, 0xc7, 0x01]);
    assert_eq!(encode(2147483647), vec![0xff, 0xff, 0xff, 0xff, 0x07]);
    assert_eq!(encode(-1), vec![0xff, 0xff, 0xff, 0xff, 0x0f]);
}

#[test]
fn varint_appends_to_existing_bytes() {
    let mut out = vec![9u8];
    write_varint(128, &mut out);
    assert_eq!(out, vec![9, 0x80, 0x01]);
}

#[test]
fn varint_length_matches_encoding() {
    for v in [0, 1, 127, 128, 16383, 16384, 2097151, 2097152, 268435455, 268435456, i32::MAX, -1, i32::MIN] {
        assert_eq!(varint_length(v), encode(v).len());
    }
    assert_eq!(varint_length(-1), 5);
}

#[test]
fn varint_round_trip_over_range() {
    let mut v: i64 = 0;
    while v < (1i64 << 31) {
        let n = v as i32;
        let mut bytes = encode(n);
        let len = bytes.len();
        bytes.push(0xff);
        assert_eq!(read_varint(&bytes), Ok((n, len)));
        v = v * 3 + 1;
    }
    for n in [i32::MAX, i32::MIN, -1, -300] {
        let bytes = encode(n);
        assert_eq!(read_varint(&bytes), Ok((n, bytes.len())));
    }
}

#[test]
fn varint_read_errors() {
    assert_eq!(read_varint(&[]), Err(PacketError::UnexpectedEof));
    assert_eq!(read_varint(&[0x80]), Err(PacketError::UnexpectedEof));
    assert_eq!(read_varint(&[0xff, 0xff, 0xff, 0xff]), Err(PacketError::UnexpectedEof));
    assert_eq!(read_varint(&[0x80, 0x80, 0x80, 0x80, 0x80, 0x01]), Err(PacketError::InvalidData));
    assert_eq!(read_varint(&[0x80, 0x80, 0x80, 0x80, 0x01]), Ok((1 << 28, 5)));
}

#[test]
fn string_is_length_prefixed() {
    let mut out = Vec::new();
    write_string("hi", &mut out);
    assert_eq!(out, vec![2, b'h', b'i']);
    let mut out = Vec::new();
    write_string("é", &mut out);
    assert_eq!(out, vec![2, 0xc3, 0xa9]);
    let mut out = Vec::new();
    write_string("", &mut out);
    assert_eq!(out, vec![0]);
}

#[test]
fn chat_object_is_bold_red_json() {
    assert_eq!(chat_json("bye"), r#"{"bold":true,"color":"red","text":"bye"}"#);
    assert_eq!(chat_json("a\"b\\c\n"), r#"{"bold":true,"color":"red","text":"a\"b\\c\n"}"#);
}

#[test]
fn disconnect_frame_layout() {
    let frame = DisconnectPacket::new("x".to_string()).serialize().unwrap();
    assert_eq!(frame, vec![3, 0x19, 1, b'x']);
    let reason = "r".repeat(200);
    let frame = DisconnectPacket::new(reason.clone()).serialize().unwrap();
    assert_eq!(&frame[..5], &[0xcb, 0x01, 0x19, 0xc8, 0x01]);
    assert_eq!(&frame[5..], reason.as_bytes());
}

#[test]
fn disconnect_frame_rejects_oversized_reason() {
    let reason = "r".repeat(MAX_REASON_BYTES + 1);
    assert_eq!(DisconnectPacket::new(reason).serialize(), Err(PacketError::InvalidData));
    let reason = "r".repeat(MAX_REASON_BYTES);
    assert!(DisconnectPacket::new(reason).serialize().is_ok());
}

#[test]
fn cache_blocked_frame_mentions_block() {
    let ip = IpAddress::V4([10, 0, 0, 2]);
    let frame = rejection_frame(&Error::IpBlockedInCache(ip)).unwrap();
    let (len, prefix) = read_varint(&frame).unwrap();
    assert_eq!(prefix + len as usize, frame.len());
    let body = &frame[prefix..];
    assert_eq!(body[0], 0x19);
    let (text_len, text_prefix) = read_varint(&body[1..]).unwrap();
    let text = std::str::from_utf8(&body[1 + text_prefix..]).unwrap();
    assert_eq!(text.len(), text_len as usize);
    assert_eq!(text, r#"{"bold":true,"color":"red","text":"IP address is blocked ip=10.0.0.2"}"#);
    assert!(text.contains("blocked"));
}

#[test]
fn error_messages() {
    let ip = IpAddress::V4([10, 0, 0, 3]);
    assert_eq!(Error::AsnBlocked(ip).to_string(), "ASN is blocked ip=10.0.0.3");
    assert_eq!(Error::CountryBlocked(ip).to_string(), "Country is blocked ip=10.0.0.3");
    assert_eq!(Error::InvalidConnection.to_string(), "invalid connection");
}
