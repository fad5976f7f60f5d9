use zac::cli::{
    compute_index_for, le32_to_decimal, raw_hash, section_name, CliError, RawKind, EXIT_IO,
    EXIT_REJECT,
};
use zac::hash::{r1cs_hash, vk_fingerprint};
use zac::section::{InterfaceSection, Section};

#[test]
fn decimal_of_small_and_large_values() {
    assert_eq!(le32_to_decimal(&[0u8; 32]), "0");
    let mut one = [0u8; 32];
    one[0] = 1;
    assert_eq!(le32_to_decimal(&one), "1");
    let mut v = [0u8; 32];
    v[..8].copy_from_slice(&1_000_000_000u64.to_le_bytes());
    assert_eq!(le32_to_decimal(&v), "1000000000");
    let mut w = [0u8; 32];
    w[..8].copy_from_slice(&u64::MAX.to_le_bytes());
    assert_eq!(le32_to_decimal(&w), "18446744073709551615");
    assert_eq!(
        le32_to_decimal(&[0xFF; 32]),
        "115792089237316195423570985008687907853269984665640564039457584007913129639935"
    );
    assert_eq!(
        le32_to_decimal(&zac::iden3::BN254_R_LE),
        "21888242871839275222246405745257275088548364400416034343698204186575808495617"
    );
}

#[test]
fn cli_error_codes_and_messages() {
    let r = CliError::Reject("verify: REJECTED (E017)".to_string());
    assert_eq!(r.exit_code(), EXIT_REJECT);
    assert_eq!(r.message(), "verify: REJECTED (E017)");
    let i = CliError::Io("read x: missing".to_string());
    assert_eq!(i.exit_code(), EXIT_IO);
    assert_eq!(i.message(), "read x: missing");
    assert_eq!((EXIT_REJECT, EXIT_IO), (2, 3));
}

#[test]
fn raw_hash_applies_the_right_tag() {
    assert_eq!(raw_hash(RawKind::Vkey, b"abc"), vk_fingerprint(b"abc"));
    assert_eq!(raw_hash(RawKind::R1cs, b"abc"), r1cs_hash(b"abc"));
    assert_ne!(raw_hash(RawKind::Vkey, b"abc"), raw_hash(RawKind::R1cs, b"abc"));
}

#[test]
fn section_names() {
    assert_eq!(section_name(&Section::Vkey(vec![])), "VKEY");
    assert_eq!(
        section_name(&Section::Interface(InterfaceSection { public_input_count: 0, names: vec![] })),
        "INTERFACE"
    );
    assert_eq!(section_name(&Section::R1csHash([0; 32])), "R1CS_HASH");
    assert_eq!(section_name(&Section::MetaCbor(vec![])), "META_CBOR");
    assert_eq!(section_name(&Section::Vendor { tag: 0x90, body: vec![] }), "VENDOR");
}

#[test]
fn index_fields_are_read_from_disk() {
    let mut bytes = vec![0u8; 0x20 + 32];
    bytes[0x30 + 4..0x30 + 8].copy_from_slice(&0x80u32.to_le_bytes());
    bytes[0x30 + 8..0x30 + 12].copy_from_slice(&17u32.to_le_bytes());
    bytes[0x30 + 12..0x30 + 16].copy_from_slice(&0xDEAD_BEEFu32.to_le_bytes());
    assert_eq!(compute_index_for(&bytes, 1), (0x80, 17, 0xDEAD_BEEF));
    assert_eq!(compute_index_for(&bytes, 0), (0, 0, 0));
}
