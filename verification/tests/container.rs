use zac::hash::{file_hash, r1cs_hash};
use zac::header::Header;
use zac::index::{parse_index, IndexEntry};
use zac::section::{InterfaceSection, Section};
use zac::trailer::Trailer;
use zac::{ZacError, ZacFile};

fn blank_header() -> Header {
    Header {
        version_major: 1,
        version_minor: 2,
        version_patch: 3,
        flags: 0,
        section_count: 0,
        body_offset: 0,
        body_size: 0,
    }
}

fn file_with(sections: Vec<Section>) -> ZacFile {
    ZacFile { header: blank_header(), sections, trailer: Trailer { file_hash: [0u8; 32] } }
}

fn sample() -> ZacFile {
    file_with(vec![
        Section::Vkey(vec![1, 2, 3, 4, 5]),
        Section::Interface(InterfaceSection {
            public_input_count: 2,
            names: vec!["out".to_string(), "x".to_string()],
        }),
        Section::R1csHash(r1cs_hash(b"circuit")),
        Section::Vendor { tag: 0x80, body: vec![9; 11] },
    ])
}

#[test]
fn encode_then_parse_gives_the_sections_back() {
    let zf = sample();
    let bytes = zf.encode();
    let parsed = ZacFile::parse(&bytes).unwrap();
    assert_eq!(parsed.sections, zf.sections);
    assert_eq!(parsed.header.section_count, 4);
    assert_eq!(parsed.header.body_offset, 0x20 + 4 * 16);
    assert_eq!((parsed.header.version_minor, parsed.header.version_patch), (2, 3));
    // The trailer hash is the domain-tagged hash of version and body region.
    let body_end = bytes.len() - 40;
    assert_eq!(parsed.trailer.file_hash, file_hash(&bytes[4..8], &bytes[0x20..body_end]));
    // A parsed file encodes back to the same bytes.
    assert_eq!(parsed.encode(), bytes);
}

#[test]
fn bodies_are_eight_byte_aligned_and_zero_padded() {
    let bytes = sample().encode();
    for i in 0..4 {
        let base = 0x20 + i * 16;
        let off = u32::from_le_bytes(bytes[base + 4..base + 8].try_into().unwrap()) as usize;
        let size = u32::from_le_bytes(bytes[base + 8..base + 12].try_into().unwrap()) as usize;
        assert_eq!(off % 8, 0);
        let crc = u32::from_le_bytes(bytes[base + 12..base + 16].try_into().unwrap());
        assert_eq!(crc, zac::crc::crc32(&bytes[off..off + size]));
    }
    assert_eq!(&bytes[bytes.len() - 40..bytes.len() - 36], b"ZACT");
}

#[test]
fn corrupted_body_is_e008() {
    let mut bytes = sample().encode();
    let off = u32::from_le_bytes(bytes[0x24..0x28].try_into().unwrap()) as usize;
    bytes[off] ^= 0xFF;
    assert_eq!(ZacFile::parse(&bytes).unwrap_err().code(), "E008");
}

#[test]
fn corrupted_trailer_hash_is_e009() {
    let mut bytes = sample().encode();
    let n = bytes.len();
    bytes[n - 1] ^= 1;
    assert_eq!(ZacFile::parse(&bytes).unwrap_err().code(), "E009");
}

#[test]
fn duplicate_type_is_e006() {
    let mut zf = sample();
    zf.sections.push(Section::Vkey(vec![7]));
    assert_eq!(ZacFile::parse(&zf.encode()).unwrap_err().code(), "E006");
}

#[test]
fn forbidden_type_is_e007() {
    let mut zf = sample();
    zf.sections.push(Section::Vendor { tag: 0x05, body: vec![1] });
    assert_eq!(ZacFile::parse(&zf.encode()).unwrap_err().code(), "E007");
}

#[test]
fn missing_mandatory_section_is_e016() {
    let zf = file_with(vec![Section::Vkey(vec![1]), Section::R1csHash([0u8; 32])]);
    match ZacFile::parse(&zf.encode()).unwrap_err() {
        ZacError::MissingMandatorySection { missing_type, name } => {
            assert_eq!(missing_type, 0x02);
            assert_eq!(name, "INTERFACE");
        }
        other => panic!("unexpected {other:?}"),
    }
}

#[test]
fn overlapping_entries_are_e005() {
    let mut bytes = sample().encode();
    // Point the second entry's offset back at the first body.
    let first = bytes[0x24..0x28].to_vec();
    bytes[0x34..0x38].copy_from_slice(&first);
    assert_eq!(ZacFile::parse(&bytes).unwrap_err().code(), "E005");
}

#[test]
fn misaligned_offset_is_e004() {
    let mut bytes = sample().encode();
    bytes[0x24] = bytes[0x24].wrapping_add(1);
    assert_eq!(ZacFile::parse(&bytes).unwrap_err().code(), "E004");
}

#[test]
fn truncated_file_is_e015() {
    let bytes = sample().encode();
    assert_eq!(ZacFile::parse(&bytes[..20]).unwrap_err().code(), "E015");
}

#[test]
fn bad_interface_name_is_rejected() {
    let zf = file_with(vec![
        Section::Vkey(vec![1]),
        Section::Interface(InterfaceSection { public_input_count: 1, names: vec!["a\0b".to_string()] }),
        Section::R1csHash([0u8; 32]),
    ]);
    assert_eq!(ZacFile::parse(&zf.encode()).unwrap_err().code(), "E003");
    let empty = file_with(vec![
        Section::Vkey(vec![1]),
        Section::Interface(InterfaceSection { public_input_count: 1, names: vec![String::new()] }),
        Section::R1csHash([0u8; 32]),
    ]);
    assert!(ZacFile::parse(&empty.encode()).is_ok());
}

#[test]
fn index_entries_round_trip() {
    let bytes = sample().encode();
    let entries = parse_index(&bytes, 0x20, 4, 0x60, (bytes.len() - 40 - 0x60) as u32).unwrap();
    assert_eq!(entries.len(), 4);
    let e: &IndexEntry = &entries[0];
    assert_eq!(e.section_type, 0x01);
    assert_eq!(e.encode().to_vec(), bytes[0x20..0x30].to_vec());
}

#[test]
fn wider_zero_padding_is_accepted_and_re_encodes_packed() {
    let packed = sample().encode();
    // Move every body after the first one 8 bytes further, leaving 8 zero
    // bytes after the first body.
    let first_off = u32::from_le_bytes(packed[0x20 + 4..0x20 + 8].try_into().unwrap()) as usize;
    let second_off = u32::from_le_bytes(packed[0x30 + 4..0x30 + 8].try_into().unwrap()) as usize;
    assert!(first_off < second_off);
    let body_end = packed.len() - 40;
    let mut wide = packed[..second_off].to_vec();
    wide.extend_from_slice(&[0u8; 8]);
    wide.extend_from_slice(&packed[second_off..body_end]);
    for i in 1..4 {
        let base = 0x20 + i * 16 + 4;
        let off = u32::from_le_bytes(wide[base..base + 4].try_into().unwrap()) + 8;
        wide[base..base + 4].copy_from_slice(&off.to_le_bytes());
    }
    let size = u32::from_le_bytes(wide[0x14..0x18].try_into().unwrap()) + 8;
    wide[0x14..0x18].copy_from_slice(&size.to_le_bytes());
    let hash = file_hash(&wide[4..8], &wide[0x20..]);
    wide.extend_from_slice(&packed[body_end..body_end + 8]);
    wide.extend_from_slice(&hash);
    let parsed = ZacFile::parse(&wide).unwrap();
    assert_eq!(parsed.sections, sample().sections);
    let again = parsed.encode();
    assert_ne!(again, wide);
    assert_eq!(again.len() + 8, wide.len());
    assert_eq!(ZacFile::parse(&again).unwrap().sections, sample().sections);
}

#[test]
fn empty_body_before_another_round_trips() {
    let zf = ZacFile {
        header: Header {
            version_major: 1,
            version_minor: 0,
            version_patch: 0,
            flags: 0,
            section_count: 0,
            body_offset: 0,
            body_size: 0,
        },
        sections: vec![
            Section::Vendor { tag: 0x80, body: vec![] },
            Section::Vkey(vec![1; 8]),
            Section::Interface(InterfaceSection { public_input_count: 0, names: vec![] }),
            Section::R1csHash([0; 32]),
        ],
        trailer: Trailer { file_hash: [0; 32] },
    };
    let bytes = zf.encode();
    let first = u32::from_le_bytes(bytes[0x20 + 4..0x20 + 8].try_into().unwrap());
    let second = u32::from_le_bytes(bytes[0x30 + 4..0x30 + 8].try_into().unwrap());
    assert_eq!(second, first + 8);
    let parsed = ZacFile::parse(&bytes).unwrap();
    assert_eq!(parsed.sections, zf.sections);
    assert_eq!(parsed.encode(), bytes);
}

#[test]
fn empty_last_body_round_trips() {
    let mut zf = sample();
    zf.sections[3] = Section::Vendor { tag: 0x80, body: vec![] };
    let bytes = zf.encode();
    let parsed = ZacFile::parse(&bytes).unwrap();
    assert_eq!(parsed.sections, zf.sections);
    assert_eq!(parsed.encode(), bytes);
}
