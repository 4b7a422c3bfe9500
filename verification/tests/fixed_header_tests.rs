use mqtt::common::Bytes;
use mqtt::fixed_header::FixedHeader;

const PACKET_TYPE_VALUE: u8 = 1;
const REMAINING_LENGTH: u32 = 3;

#[test]
fn fixed_header_test_as_bytes() {
    let fixed_header = FixedHeader::new(PACKET_TYPE_VALUE, REMAINING_LENGTH);
    let bytes = fixed_header.as_bytes();
    assert_eq!(bytes, vec![18, 3]);
}

#[test]
fn fixed_header_test_from_bytes() {
    let fixed_header = FixedHeader::new(PACKET_TYPE_VALUE, REMAINING_LENGTH);
    let bytes: Bytes = vec![18, 3, 2, 3];
    let (parsed_fixed_header, leftover) = FixedHeader::from_bytes(bytes).unwrap();
    assert_eq!(parsed_fixed_header, fixed_header);
    assert_eq!(leftover, vec![2, 3]);
}

#[test]
fn fixed_header_test_as_bytes_from_bytes() {
    let fixed_header = FixedHeader::new(PACKET_TYPE_VALUE, REMAINING_LENGTH);
    let bytes = fixed_header.as_bytes();
    let (parsed_fixed_header, _leftover) = FixedHeader::from_bytes(bytes).unwrap();
    assert_eq!(parsed_fixed_header, fixed_header);
}

#[test]
fn fixed_header_test_len() {
    let fixed_header = FixedHeader::new(PACKET_TYPE_VALUE, REMAINING_LENGTH);
    let len = fixed_header.len();
    assert_eq!(len, 2);
}
