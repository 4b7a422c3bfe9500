use mqtt::common::{
    decode_utf8_string, decode_variable_length_int, encode_utf8_string, encode_variable_length_int,
    parse_binary_data, parse_byte, parse_four_byte_int, parse_two_byte_int, parse_utf8_string,
    parse_utf8_string_pair, parse_variable_byte_int, BinaryData, Byte, Bytes, FourByteInt,
    TwoByteInt, UTF8String, UTF8StringPair, VariableByteInt,
};

#[test]
fn test_parse_byte() {
    let bytes: &[Byte] = &[1, 2, 3];
    let (byte, leftover) = parse_byte(bytes).unwrap();
    assert_eq!(byte, 1);
    assert_eq!(leftover, vec![2, 3]);
}

#[test]
fn test_parse_two_byte_int() {
    let bytes: &[Byte] = &[1, 1, 2, 3];
    let (two_byte_int, leftover) = parse_two_byte_int(bytes).unwrap();
    assert_eq!(two_byte_int, TwoByteInt::new(257));
    assert_eq!(leftover, vec![2, 3]);
}

#[test]
fn test_parse_four_byte_int() {
    let bytes: &[Byte] = &[1, 1, 1, 1, 2, 3];
    let (four_byte_int, leftover) = parse_four_byte_int(bytes).unwrap();
    assert_eq!(four_byte_int, FourByteInt::new(16_843_009));
    assert_eq!(leftover, vec![2, 3]);
}

#[test]
fn test_parse_variable_byte_int() {
    let bytes: &[Byte] = &[encode_variable_length_int(578).as_slice(), &[2, 3]].concat();
    let (variable_length_int, leftover) = parse_variable_byte_int(bytes).unwrap();
    assert_eq!(variable_length_int, VariableByteInt::new(578));
    assert_eq!(leftover, vec![2, 3]);
}

#[test]
fn test_parse_utf8_string() {
    let bytes: &[Byte] = &[encode_utf8_string("foobar").as_slice(), &[2, 3]].concat();
    let (utf8_string, leftover) = parse_utf8_string(bytes).unwrap();
    assert_eq!(utf8_string, UTF8String::new("foobar"));
    assert_eq!(leftover, vec![2, 3]);
}

#[test]
fn test_parse_utf8_string_pair() {
    let encoded_1: Bytes = encode_utf8_string("foo");
    let encoded_2: Bytes = encode_utf8_string("bar");
    let data: Bytes = [encoded_1, encoded_2, vec![2, 3]].concat();
    let bytes: &[Byte] = data.as_slice();
    let (utf8_string_pair, leftover) = parse_utf8_string_pair(bytes).unwrap();
    assert_eq!(utf8_string_pair, UTF8StringPair::new("foo", "bar"));
    assert_eq!(leftover, vec![2, 3]);
}

#[test]
fn test_parse_binary_data() {
    let bytes: &[Byte] = &[0, 4, 1, 1, 1, 1, 2, 3];
    let (binary_data, leftover) = parse_binary_data(bytes).unwrap();
    assert_eq!(binary_data, BinaryData::new(vec![1, 1, 1, 1]));
    assert_eq!(leftover, vec![2, 3]);
}

#[test]
fn test_parse_byte_sequence() {
    let byte_sequence: &[Byte] = &[1, 0, 2, 0, 0, 0, 3, 0, 3, 102, 111, 111];
    let (byte, leftover_1) = parse_byte(byte_sequence).unwrap();
    let (two_byte_int, leftover_2) = parse_two_byte_int(leftover_1).unwrap();
    let (four_byte_int, leftover_3) = parse_four_byte_int(leftover_2).unwrap();
    let (utf8_string, _) = parse_utf8_string(leftover_3).unwrap();
    assert_eq!(byte, 1);
    assert_eq!(two_byte_int, TwoByteInt::new(2));
    assert_eq!(four_byte_int, FourByteInt::new(3));
    assert_eq!(utf8_string, UTF8String::new("foo"));
}

#[test]
fn common_test_as_bytes() {
    let two_byte_int_bytes = TwoByteInt::new(512).as_bytes();
    assert_eq!(two_byte_int_bytes, vec![2, 0]);
    let four_byte_int_bytes = FourByteInt::new(4_000_000).as_bytes();
    assert_eq!(four_byte_int_bytes, vec![0, 61, 9, 0]);
    let utf8_string_bytes = UTF8String::new("foo").as_bytes();
    assert_eq!(utf8_string_bytes, vec![0, 3, 102, 111, 111]);
    let utf8_string_pair_bytes = UTF8StringPair::new("foo", "bar").as_bytes();
    assert_eq!(
        utf8_string_pair_bytes,
        vec![0, 3, 102, 111, 111, 0, 3, 98, 97, 114]
    );
    let binary_data_bytes = BinaryData::new(vec![1, 2, 3, 4, 5]).as_bytes();
    assert_eq!(binary_data_bytes, vec![0, 5, 1, 2, 3, 4, 5]);
}

#[test]
fn test_encode_variable_length_int() {
    let actual: Bytes = encode_variable_length_int(128);
    let expected: Bytes = vec![0x80, 0x01];
    assert_eq!(actual, expected);
}

#[test]
fn test_decode_variable_length_int() {
    let bytes: &[Byte] = &[0x80, 0x01, 0xFF, 0x30];
    let actual: (u32, usize) = decode_variable_length_int(bytes).unwrap();
    let expected: (u32, usize) = (128, 2);
    assert_eq!(actual, expected);
}

#[test]
fn test_encode_decode_variable_length_int() {
    let int: u32 = 20_668;
    let encoded: Bytes = encode_variable_length_int(int);
    let bytes: &[Byte] = encoded.as_slice();
    let (decoded, byte_num): (u32, usize) = decode_variable_length_int(bytes).unwrap();
    assert_eq!(decoded, int);
    assert_eq!(byte_num, 3);
}

#[test]
fn test_encode_utf8_string() {
    let actual: Bytes = encode_utf8_string("foobar");
    let expected: Bytes = vec![0, 6, 102, 111, 111, 98, 97, 114];
    assert_eq!(actual, expected);
}

#[test]
fn test_encode_utf8_string_empty() {
    let actual: Bytes = encode_utf8_string("");
    let expected: Bytes = vec![0, 0];
    assert_eq!(actual, expected);
}

#[test]
fn test_decode_utf8_string() {
    let bytes: &[Byte] = &[0, 3, 102, 111, 111, 1, 2, 3];
    let (string, leftover) = decode_utf8_string(bytes).unwrap();
    assert_eq!(string, "foo");
    assert_eq!(leftover, vec![1, 2, 3]);
}

#[test]
fn test_encode_decode_utf8_string() {
    let string = "foobar";
    let encoded: Bytes = encode_utf8_string(string);
    let bytes: &[Byte] = encoded.as_slice();
    let (decoded, _) = decode_utf8_string(bytes).unwrap();
    assert_eq!(decoded, string);
}
