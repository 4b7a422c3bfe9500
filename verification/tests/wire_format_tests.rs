use mqtt::common::{
    decode_utf8_string, decode_variable_length_int, encode_utf8_string, encode_variable_length_int,
    parse_binary_data, parse_utf8_string_pair, BinaryData, Byte, UTF8StringPair,
};
use mqtt::control_packet::{parse_packet_bytes, ControlPacket};
use mqtt::control_packet::connect::Connect;
use mqtt::error::ParseError;
use mqtt::fixed_header::FixedHeader;
use mqtt::server::Server;
use mqtt::variable_header::VariableHeader;

#[test]
fn varint_boundary_encodings() {
    assert_eq!(encode_variable_length_int(0), vec![0x00]);
    assert_eq!(encode_variable_length_int(127), vec![0x7F]);
    assert_eq!(encode_variable_length_int(128), vec![0x80, 0x01]);
    assert_eq!(encode_variable_length_int(16_383), vec![0xFF, 0x7F]);
    assert_eq!(encode_variable_length_int(16_384), vec![0x80, 0x80, 0x01]);
    assert_eq!(encode_variable_length_int(2_097_151), vec![0xFF, 0xFF, 0x7F]);
    assert_eq!(
        encode_variable_length_int(268_435_455),
        vec![0xFF, 0xFF, 0xFF, 0x7F]
    );
}

#[test]
fn varint_boundary_round_trips() {
    for value in [0, 127, 128, 16_383, 16_384, 2_097_151, 268_435_455] {
        let encoded = encode_variable_length_int(value);
        let expected_len = encoded.len();
        let (decoded, consumed) = decode_variable_length_int(encoded.as_slice()).unwrap();
        assert_eq!(decoded, value);
        assert_eq!(consumed, expected_len);
    }
}

#[test]
fn varint_fourth_continuation_bit_is_malformed() {
    let bytes: &[Byte] = &[0x80, 0x80, 0x80, 0x80];
    let err = decode_variable_length_int(bytes).unwrap_err();
    assert_eq!(err, ParseError::MalformedVariableLengthInt);
}

#[test]
fn varint_short_buffer_is_truncated() {
    assert_eq!(
        decode_variable_length_int(&[]).unwrap_err(),
        ParseError::TruncatedBuffer
    );
    assert_eq!(
        decode_variable_length_int(&[0x80]).unwrap_err(),
        ParseError::TruncatedBuffer
    );
    assert_eq!(
        decode_variable_length_int(&[0x80, 0x80, 0x80]).unwrap_err(),
        ParseError::TruncatedBuffer
    );
}

#[test]
fn utf8_string_empty_and_exact_suffix() {
    assert_eq!(encode_utf8_string(""), vec![0x00, 0x00]);
    let bytes: &[Byte] = &[0x00, 0x00, 9, 8, 7];
    let (decoded, leftover) = decode_utf8_string(bytes).unwrap();
    assert_eq!(decoded, "");
    assert_eq!(leftover, vec![9, 8, 7]);
}

#[test]
fn utf8_string_decode_rejects_invalid_bytes() {
    let bytes: &[Byte] = &[0x00, 0x02, 0xFF, 0xFF];
    assert_eq!(
        decode_utf8_string(bytes).unwrap_err(),
        ParseError::InvalidUtf8
    );
}

#[test]
fn utf8_string_decode_rejects_short_buffers() {
    assert_eq!(
        decode_utf8_string(&[0x00]).unwrap_err(),
        ParseError::TruncatedBuffer
    );
    assert_eq!(
        decode_utf8_string(&[0x00, 0x05, b'a', b'b']).unwrap_err(),
        ParseError::TruncatedBuffer
    );
}

#[test]
fn utf8_string_multibyte_round_trip() {
    let text = "caf\u{e9}\u{1f600}";
    let encoded = encode_utf8_string(text);
    let (decoded, leftover) = decode_utf8_string(encoded.as_slice()).unwrap();
    assert_eq!(decoded, text);
    assert!(leftover.is_empty());
}

#[test]
fn utf8_string_pair_round_trip_keeps_order() {
    let encoded = UTF8StringPair::new("key", "value").as_bytes();
    let (pair, leftover) = parse_utf8_string_pair(encoded.as_slice()).unwrap();
    assert_eq!(pair.value(), ("key", "value"));
    assert!(leftover.is_empty());
}

#[test]
fn binary_data_round_trip() {
    let encoded = BinaryData::new(vec![0, 255, 3]).as_bytes();
    let (blob, leftover) = parse_binary_data(encoded.as_slice()).unwrap();
    assert_eq!(blob.value(), &[0, 255, 3]);
    assert!(leftover.is_empty());
}

#[test]
fn fixed_header_flags_nibble() {
    let header = FixedHeader::new(1, 3);
    assert_eq!(header.flags_byte(), 2);
    assert_eq!(header.as_bytes(), vec![0x12, 0x03]);
}

#[test]
fn variable_header_rejects_nonempty_properties() {
    let bytes = vec![0, 4, 77, 81, 84, 84, 5, 0, 0, 3, 1];
    assert_eq!(
        VariableHeader::from_bytes(bytes).unwrap_err(),
        ParseError::UnsupportedProperties
    );
}

#[test]
fn connect_remaining_length_matches_parts() {
    let packet = Connect::new("foo");
    let remaining_length = packet.get_fixed_header().remaining_length;
    let parts = packet.get_variable_header().len() + packet.get_payload().len();
    assert_eq!(remaining_length, parts);
    assert_eq!(remaining_length, 16);

    let reparsed = Connect::from_bytes(packet.as_bytes().as_slice()).unwrap();
    assert_eq!(reparsed.client_id(), "foo");
    assert_eq!(reparsed.get_fixed_header().remaining_length, remaining_length);
}

#[test]
fn dispatch_routes_connect_packets() {
    let bytes = Connect::new("foo").as_bytes();
    let packet = parse_packet_bytes(bytes.as_slice()).unwrap();
    match packet {
        ControlPacket::Connect(connect) => assert_eq!(connect.client_id(), "foo"),
    }
}

#[test]
fn dispatch_rejects_unknown_packet_type() {
    let bytes: &[Byte] = &[0x02, 0x00];
    assert_eq!(
        parse_packet_bytes(bytes).unwrap_err(),
        ParseError::UnknownPacketType
    );
}

#[test]
fn dispatch_rejects_empty_buffer() {
    let bytes: &[Byte] = &[];
    assert_eq!(
        parse_packet_bytes(bytes).unwrap_err(),
        ParseError::TruncatedBuffer
    );
}

#[test]
fn server_starts_and_shuts_down() {
    let server = Server::new();
    server.shutdown();
}
