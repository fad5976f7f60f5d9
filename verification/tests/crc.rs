use zac::crc::crc32;

#[test]
fn empty_input_matches_reference() {
    assert_eq!(crc32(b""), 0);
}

#[test]
fn known_vector_check_message() {
    assert_eq!(crc32(b"123456789"), 0xCBF4_3926);
}

#[test]
fn single_byte_vector() {
    assert_eq!(crc32(b"a"), 0xE8B7_BE43);
}
