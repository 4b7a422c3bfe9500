use mqtt::common::{Bytes, UTF8String};
use mqtt::payload::Payload;

const CLIENT_ID: &str = "id1";

#[test]
fn payload_test_as_bytes() {
    let values: Vec<UTF8String> = vec![UTF8String::new(CLIENT_ID)];
    let payload = Payload::new(values);
    let bytes = payload.as_bytes();
    assert_eq!(bytes, vec![0, 3, 105, 100, 49]);
}

#[test]
fn payload_test_from_bytes() {
    let values: Vec<UTF8String> = vec![UTF8String::new(CLIENT_ID)];
    let payload = Payload::new(values);
    let bytes: Bytes = vec![0, 3, 105, 100, 49, 2, 3];
    let parsed_payload = Payload::from_bytes(bytes).unwrap();
    assert_eq!(parsed_payload, payload);
}

#[test]
fn payload_test_len() {
    let values: Vec<UTF8String> = vec![UTF8String::new(CLIENT_ID)];
    let payload = Payload::new(values);
    let len = payload.len();
    assert_eq!(len, 5);
}
