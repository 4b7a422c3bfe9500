use mqtt::variable_header::VariableHeader;

const KEEP_ALIVE: u16 = 3;

#[test]
fn variable_header_test_as_bytes() {
    let variable_header = VariableHeader::new(KEEP_ALIVE);
    let bytes = variable_header.as_bytes();
    assert_eq!(bytes, vec![0, 4, 77, 81, 84, 84, 5, 0, 0, 3, 0]);
}

#[test]
fn variable_header_test_from_bytes() {
    let bytes = vec![0, 4, 77, 81, 84, 84, 5, 0, 0, 3, 0, 2, 3];
    let (parsed_variable_header, leftover) = VariableHeader::from_bytes(bytes).unwrap();
    let variable_header = VariableHeader::new(KEEP_ALIVE);
    assert_eq!(parsed_variable_header, variable_header);
    assert_eq!(leftover, vec![2, 3]);
}

#[test]
fn variable_header_test_as_bytes_from_bytes() {
    let variable_header = VariableHeader::new(KEEP_ALIVE);
    let bytes = variable_header.as_bytes();
    let (parsed_variable_header, _leftover) = VariableHeader::from_bytes(bytes).unwrap();
    assert_eq!(parsed_variable_header, variable_header);
}

#[test]
fn variable_header_test_len() {
    let variable_header = VariableHeader::new(KEEP_ALIVE);
    let len = variable_header.len();
    assert_eq!(len, 11);
}
