use mqtt::control_packet::connect::Connect;

#[test]
fn test_client_id() {
    let packet = Connect::new("foobar");
    assert_eq!(packet.client_id(), "foobar");
}

#[test]
fn test_connect_as_bytes_from_bytes() {
    let bytes = Connect::new("foo").as_bytes();
    let byte_slice = bytes.as_slice();
    let packet = Connect::from_bytes(byte_slice).unwrap();
    assert_eq!(packet.client_id(), "foo");
}
