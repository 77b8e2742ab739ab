use exam_monitor_core::protocol::{
    decode_header, decode_packet, read_packet, write_packet, PacketType, ProtocolError,
    HEADER_SIZE, MAX_PAYLOAD_SIZE,
};
use std::io::Cursor;

#[test]
fn packet_round_trip_matches_swift_header_format() {
    let mut bytes = Vec::new();
    write_packet(&mut bytes, PacketType::Name, b"Ada|STU-001").unwrap();

    assert_eq!(&bytes[0..2], b"HE");
    assert_eq!(u16::from_be_bytes([bytes[2], bytes[3]]), 0);
    assert_eq!(
        u32::from_be_bytes([bytes[4], bytes[5], bytes[6], bytes[7]]),
        11
    );

    let packet = read_packet(&mut Cursor::new(bytes)).unwrap();
    assert_eq!(packet.packet_type, PacketType::Name);
    assert_eq!(packet.payload, b"Ada|STU-001");
}

#[test]
fn picture_header_carries_type_two_and_big_endian_length() {
    let mut bytes = Vec::new();
    let payload = vec![7u8; 300];
    write_packet(&mut bytes, PacketType::Picture, &payload).unwrap();
    assert_eq!(&bytes[..HEADER_SIZE], &[0x48, 0x45, 0, 2, 0, 0, 1, 44]);
    assert_eq!(bytes.len(), HEADER_SIZE + 300);
}

#[test]
fn write_appends_to_what_is_already_there() {
    let mut bytes = vec![1u8, 2, 3];
    write_packet(&mut bytes, PacketType::Message, b"hi").unwrap();
    assert_eq!(bytes, vec![1, 2, 3, 0x48, 0x45, 0, 1, 0, 0, 0, 2, b'h', b'i']);
}

#[test]
fn consecutive_packets_are_read_in_order() {
    let mut bytes = Vec::new();
    write_packet(&mut bytes, PacketType::Name, b"a|b|c").unwrap();
    write_packet(&mut bytes, PacketType::Picture, b"").unwrap();
    write_packet(&mut bytes, PacketType::Message, b"NO_SCREEN_PERMISSION").unwrap();
    let mut cursor = Cursor::new(bytes);
    let first = read_packet(&mut cursor).unwrap();
    assert_eq!(first.packet_type, PacketType::Name);
    assert_eq!(first.payload, b"a|b|c");
    assert_eq!(cursor.position(), 13);
    let second = read_packet(&mut cursor).unwrap();
    assert_eq!(second.packet_type, PacketType::Picture);
    assert!(second.payload.is_empty());
    let third = read_packet(&mut cursor).unwrap();
    assert_eq!(third.packet_type, PacketType::Message);
    assert_eq!(third.payload, b"NO_SCREEN_PERMISSION");
    assert!(matches!(read_packet(&mut cursor), Err(ProtocolError::TruncatedHeader)));
}

#[test]
fn bad_magic_is_refused() {
    let bytes = vec![b'H', b'X', 0, 0, 0, 0, 0, 0];
    let mut cursor = Cursor::new(bytes);
    assert!(matches!(read_packet(&mut cursor), Err(ProtocolError::InvalidMagic)));
    assert_eq!(cursor.position(), 8);
}

#[test]
fn unknown_type_is_refused() {
    let bytes = vec![b'H', b'E', 0, 3, 0, 0, 0, 0];
    assert!(matches!(
        decode_packet(&bytes),
        Err(ProtocolError::UnknownPacketType(3))
    ));
    assert!(matches!(
        PacketType::try_from(7u16),
        Err(ProtocolError::UnknownPacketType(7))
    ));
    assert_eq!(PacketType::try_from(2u16).unwrap(), PacketType::Picture);
}

#[test]
fn oversized_length_is_refused_before_reading_the_payload() {
    let len = MAX_PAYLOAD_SIZE + 1;
    let mut bytes = vec![b'H', b'E', 0, 2];
    bytes.extend_from_slice(&len.to_be_bytes());
    assert!(matches!(
        decode_header(&bytes),
        Err(ProtocolError::PayloadExceedsMaximum)
    ));
    assert!(matches!(
        decode_packet(&bytes),
        Err(ProtocolError::PayloadExceedsMaximum)
    ));
}

#[test]
fn short_payload_is_reported_as_closed_mid_payload() {
    let bytes = vec![b'H', b'E', 0, 1, 0, 0, 0, 5, b'a', b'b'];
    let mut cursor = Cursor::new(bytes);
    let err = read_packet(&mut cursor).err().unwrap();
    assert_eq!(err, ProtocolError::TruncatedPayload);
    assert!(err.is_unexpected_eof());
    assert_eq!(err.message(), "connection closed mid-payload");
    assert_eq!(cursor.position(), 10);
}

#[test]
fn header_decoding_gives_type_and_length() {
    let mut bytes = Vec::new();
    write_packet(&mut bytes, PacketType::Message, b"WRONG_CODE").unwrap();
    assert_eq!(
        decode_header(&bytes[..HEADER_SIZE]).unwrap(),
        (PacketType::Message, 10)
    );
    let (packet, used) = decode_packet(&bytes).unwrap();
    assert_eq!(used, HEADER_SIZE + 10);
    assert_eq!(packet.payload, b"WRONG_CODE");
}

#[test]
fn packet_type_codes() {
    assert_eq!(PacketType::Name.code(), 0);
    assert_eq!(PacketType::Message.code(), 1);
    assert_eq!(PacketType::Picture.code(), 2);
}
