use raigeki::error::PacketError;
use raigeki::packet::{build_disconnect_packet, PacketBuilder, PacketDirection, ProtocolState};
use uuid::Uuid;

fn builder() -> PacketBuilder {
    PacketBuilder::new(0x10, ProtocolState::Play, PacketDirection::Serverbound)
}

#[test]
fn builder_writes_big_endian_fields() {
    let mut b = builder();
    b.write_bool(true);
    b.write_bool(false);
    b.write_byte(-2);
    b.write_ubyte(200);
    b.write_short(-2);
    b.write_ushort(0x1234);
    b.write_int(0x01020304);
    b.write_long(-1);
    b.write_bytes(&[9, 8]);
    let p = b.build();
    assert_eq!(p.packet_id, 0x10);
    assert_eq!(p.state, ProtocolState::Play);
    assert_eq!(p.bound_to, PacketDirection::Serverbound);
    assert_eq!(
        p.data.as_ref(),
        &[1, 0, 0xfe, 200, 0xff, 0xfe, 0x12, 0x34, 1, 2, 3, 4, 0xff, 0xff, 0xff, 0xff, 0xff, 0xff, 0xff, 0xff, 9, 8]
    );
}

#[test]
fn builder_writes_variable_length_fields() {
    let mut b = builder();
    b.write_varint(300);
    b.write_varint(-1);
    b.write_varlong(1 << 35);
    b.write_string("ok").unwrap();
    let p = b.build();
    assert_eq!(
        p.data.as_ref(),
        &[0xac, 0x02, 0xff, 0xff, 0xff, 0xff, 0x0f, 0x80, 0x80, 0x80, 0x80, 0x80, 0x01, 2, b'o', b'k']
    );
}

#[test]
fn packet_serialises_with_length_and_id() {
    let mut b = builder();
    b.write_ubyte(7);
    let p = b.build();
    assert_eq!(p.serialize().as_ref(), &[2, 0x10, 7]);
    let empty = PacketBuilder::new(300, ProtocolState::Login, PacketDirection::Clientbound).build();
    assert_eq!(empty.serialize().as_ref(), &[2, 0xac, 0x02]);
}

#[test]
fn reader_reads_back_what_builder_wrote() {
    let id = Uuid::from_bytes([7; 16]);
    let mut b = builder();
    b.write_bool(true);
    b.write_byte(-5);
    b.write_ubyte(250);
    b.write_short(-300);
    b.write_ushort(65000);
    b.write_int(-70000);
    b.write_long(i64::MIN);
    b.write_varint(-123456);
    b.write_string("héllo").unwrap();
    b.write_uuid(id);
    b.write_bytes(&[1, 2, 3]);
    let p = b.build();
    let mut r = p.reader();
    assert_eq!(r.read_bool(), Ok(true));
    assert_eq!(r.read_byte(), Ok(-5));
    assert_eq!(r.read_ubyte(), Ok(250));
    assert_eq!(r.read_short(), Ok(-300));
    assert_eq!(r.read_ushort(), Ok(65000));
    assert_eq!(r.read_int(), Ok(-70000));
    assert_eq!(r.read_long(), Ok(i64::MIN));
    assert_eq!(r.read_varint(), Ok(-123456));
    assert_eq!(r.read_string(), Ok("héllo".to_string()));
    assert_eq!(r.read_uuid(), Ok(id));
    assert_eq!(r.remaining(), 3);
    assert_eq!(r.read_bytes(3).unwrap().as_ref(), &[1, 2, 3]);
    assert_eq!(r.remaining(), 0);
    assert_eq!(r.read_ubyte(), Err(PacketError::InvalidData));
}

#[test]
fn uuid_fields_are_raw_bytes() {
    let raw: [u8; 16] = [0, 1, 2, 3, 4, 5, 6, 7, 8, 9, 10, 11, 12, 13, 14, 15];
    let mut b = builder();
    b.write_uuid(Uuid::from_bytes(raw));
    let p = b.build();
    assert_eq!(p.data.as_ref(), &raw);
    assert_eq!(p.reader().read_uuid().unwrap().as_bytes(), &raw);
}

#[test]
fn reader_failures_take_nothing() {
    let mut b = builder();
    b.write_ubyte(1);
    let p = b.build();
    let mut r = p.reader();
    assert_eq!(r.read_short(), Err(PacketError::InvalidData));
    assert_eq!(r.read_int(), Err(PacketError::InvalidData));
    assert_eq!(r.read_long(), Err(PacketError::InvalidData));
    assert!(r.read_uuid().is_err());
    assert!(r.read_bytes(2).is_err());
    assert_eq!(r.remaining(), 1);
    assert_eq!(r.read_ubyte(), Ok(1));
}

#[test]
fn reader_string_errors() {
    let mut b = builder();
    b.write_varint(3);
    b.write_bytes(&[0xff, 0xfe, 0xfd]);
    let p = b.build();
    let mut r = p.reader();
    assert_eq!(r.read_string(), Err(PacketError::Utf8));
    assert_eq!(r.remaining(), 4);

    let mut b = builder();
    b.write_varint(-1);
    let p = b.build();
    assert_eq!(p.reader().read_string(), Err(PacketError::InvalidData));

    let mut b = builder();
    b.write_varint(10);
    b.write_bytes(b"short");
    let p = b.build();
    assert_eq!(p.reader().read_string(), Err(PacketError::InvalidData));

    let mut b = builder();
    b.write_bytes(&[0x80, 0x80, 0x80, 0x80, 0x80]);
    let p = b.build();
    assert_eq!(p.reader().read_varint(), Err(PacketError::InvalidData));
}

#[test]
fn play_disconnect_packet_carries_chat_text() {
    let p = build_disconnect_packet("Server closed").unwrap();
    assert_eq!(p.packet_id, 0x1A);
    assert_eq!(p.state, ProtocolState::Play);
    assert_eq!(p.bound_to, PacketDirection::Clientbound);
    let mut r = p.reader();
    assert_eq!(r.read_string(), Ok(r#"{"text":"Server closed"}"#.to_string()));
    let mut b = builder();
    b.write_chat("say \"hi\"").unwrap();
    let mut r = b.build().reader();
    assert_eq!(r.read_string(), Ok(r#"{"text":"say \"hi\""}"#.to_string()));
}
