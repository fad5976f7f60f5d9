use zac::header::Header;

fn good_header_bytes() -> Vec<u8> {
    let h = Header {
        version_major: 1,
        version_minor: 0,
        version_patch: 0,
        flags: 0,
        section_count: 3,
        body_offset: 0x60,
        body_size: 0x40,
    };
    h.encode().to_vec()
}

#[test]
fn round_trip_good_header() {
    let bytes = good_header_bytes();
    let h = Header::parse(&bytes).unwrap();
    assert_eq!(h.section_count, 3);
    assert_eq!(h.body_offset, 0x60);
    assert_eq!(h.encode().to_vec(), bytes);
}

#[test]
fn rejects_bad_magic() {
    let mut bytes = good_header_bytes();
    bytes[0] = b'X';
    assert_eq!(Header::parse(&bytes).unwrap_err().code(), "E001");
}

#[test]
fn rejects_bad_version() {
    let mut bytes = good_header_bytes();
    bytes[4] = 2;
    assert_eq!(Header::parse(&bytes).unwrap_err().code(), "E002");
}

#[test]
fn rejects_non_zero_flags() {
    let mut bytes = good_header_bytes();
    bytes[7] = 1;
    assert_eq!(Header::parse(&bytes).unwrap_err().code(), "E003");
}

#[test]
fn rejects_truncated() {
    let bytes = vec![0u8; 16];
    assert_eq!(Header::parse(&bytes).unwrap_err().code(), "E015");
}

#[test]
fn header_layout_is_little_endian() {
    let bytes = good_header_bytes();
    assert_eq!(&bytes[0..4], b"ZAC1");
    assert_eq!(&bytes[4..8], &[1, 0, 0, 0]);
    assert_eq!(&bytes[8..10], &[3, 0]);
    assert_eq!(&bytes[12..16], &[0x20, 0, 0, 0]);
    assert_eq!(&bytes[16..20], &[0x60, 0, 0, 0]);
    assert_eq!(&bytes[20..24], &[0x40, 0, 0, 0]);
    assert!(bytes[24..32].iter().all(|b| *b == 0));
}
