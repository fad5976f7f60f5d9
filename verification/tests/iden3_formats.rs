use ark_bn254::{Fq, Fr};
use ark_ff::{BigInteger, PrimeField};

use zac::iden3::r1cs::{encode_r1cs, multiplier_circuit};
use zac::iden3::wtns::{encode_wtns, fr_u64_le, parse_wtns};
use zac::iden3::{find_section, read_binfile_header, BN254_Q_LE, BN254_R_LE};

#[test]
fn bn254_q_le_matches_arkworks() {
    let ark = Fq::MODULUS.to_bytes_le();
    assert_eq!(&ark[..], &BN254_Q_LE[..]);
}

#[test]
fn bn254_r_le_matches_arkworks() {
    let ark = Fr::MODULUS.to_bytes_le();
    assert_eq!(&ark[..], &BN254_R_LE[..]);
}

#[test]
fn multiplier_roundtrips_through_header_parser() {
    let bytes = encode_r1cs(&multiplier_circuit());
    let (hdr, sects) = read_binfile_header(&bytes, b"r1cs").unwrap();
    assert_eq!(hdr.version, 1);
    assert_eq!(hdr.n_sections, 3);
    assert!(find_section(&sects, 0x01).is_some());
    assert!(find_section(&sects, 0x02).is_some());
    assert!(find_section(&sects, 0x03).is_some());
}

#[test]
fn multiplier_r1cs_layout() {
    let bytes = encode_r1cs(&multiplier_circuit());
    let (hdr, sects) = read_binfile_header(&bytes, b"r1cs").unwrap();
    assert_eq!(&hdr.magic, b"r1cs");
    let h = find_section(&sects, 1).unwrap();
    assert_eq!((h.offset, h.size), (24, 64));
    // n8 = 32, prime r, nWires 4, nPubOut 1, nPubIn 0, nPrvIn 2, nLabels 4, nConstraints 1.
    assert_eq!(&bytes[24..28], &[32, 0, 0, 0]);
    assert_eq!(&bytes[28..60], &BN254_R_LE[..]);
    assert_eq!(&bytes[60..64], &[4, 0, 0, 0]);
    assert_eq!(&bytes[64..68], &[1, 0, 0, 0]);
    assert_eq!(&bytes[76..84], &[4, 0, 0, 0, 0, 0, 0, 0]);
    assert_eq!(&bytes[84..88], &[1, 0, 0, 0]);
    let c = find_section(&sects, 2).unwrap();
    // Three one-term linear combinations of 4 + 4 + 32 bytes each.
    assert_eq!(c.size, 3 * 40);
    assert_eq!(&bytes[c.offset..c.offset + 8], &[1, 0, 0, 0, 2, 0, 0, 0]);
    assert_eq!(bytes[c.offset + 8], 1);
    let l = find_section(&sects, 3).unwrap();
    assert_eq!(l.size, 4 * 8);
    assert_eq!(&bytes[l.offset + 24..l.offset + 32], &[3, 0, 0, 0, 0, 0, 0, 0]);
    assert_eq!(l.offset + l.size as usize, bytes.len());
}

#[test]
fn binfile_reader_rejects_bad_magic_and_truncation() {
    let bytes = encode_r1cs(&multiplier_circuit());
    assert_eq!(read_binfile_header(&bytes, b"wtns").unwrap_err().code(), "E001");
    assert_eq!(read_binfile_header(&bytes[..8], b"r1cs").unwrap_err().code(), "E015");
    assert_eq!(
        read_binfile_header(&bytes[..bytes.len() - 1], b"r1cs").unwrap_err().code(),
        "E015"
    );
}

#[test]
fn find_section_returns_first_match() {
    let mut bytes = Vec::new();
    bytes.extend_from_slice(b"zkey");
    bytes.extend_from_slice(&1u32.to_le_bytes());
    bytes.extend_from_slice(&2u32.to_le_bytes());
    for body in [[1u8, 2], [3u8, 4]] {
        bytes.extend_from_slice(&7u32.to_le_bytes());
        bytes.extend_from_slice(&2u64.to_le_bytes());
        bytes.extend_from_slice(&body);
    }
    let (_, sects) = read_binfile_header(&bytes, b"zkey").unwrap();
    assert_eq!(sects.len(), 2);
    assert_eq!(find_section(&sects, 7).unwrap().offset, 24);
    assert!(find_section(&sects, 8).is_none());
}

#[test]
fn encode_decode_round_trip() {
    let vals = vec![fr_u64_le(1), fr_u64_le(33), fr_u64_le(3), fr_u64_le(11)];
    let bytes = encode_wtns(&vals);
    let w = parse_wtns(&bytes).unwrap();
    assert_eq!(w.n8, 32);
    assert_eq!(w.prime_le, BN254_R_LE);
    assert_eq!(w.values.len(), 4);
    assert_eq!(w.values_le, vals);
    assert_eq!(Fr::from_le_bytes_mod_order(&w.values[0]), Fr::from(1u64));
    assert_eq!(Fr::from_le_bytes_mod_order(&w.values[1]), Fr::from(33u64));
    assert_eq!(Fr::from_le_bytes_mod_order(&w.values[2]), Fr::from(3u64));
    assert_eq!(Fr::from_le_bytes_mod_order(&w.values[3]), Fr::from(11u64));
}

#[test]
fn fr_u64_le_is_zero_padded_little_endian() {
    let b = fr_u64_le(0x0102_0304_0506_0708);
    assert_eq!(&b[..8], &[8, 7, 6, 5, 4, 3, 2, 1]);
    assert!(b[8..].iter().all(|x| *x == 0));
}

#[test]
fn wtns_rejects_value_at_modulus_and_wrong_prime() {
    let vals = vec![fr_u64_le(1), BN254_R_LE];
    let bytes = encode_wtns(&vals);
    match parse_wtns(&bytes) {
        Err(zac::ZacError::NonCanonicalFr { offset, input_index }) => {
            assert_eq!(input_index, 1);
            assert_eq!(offset, 76 + 32);
        }
        other => panic!("unexpected {other:?}"),
    }
    let mut bad = encode_wtns(&[fr_u64_le(1)]);
    bad[28] ^= 1;
    assert_eq!(parse_wtns(&bad).unwrap_err().code(), "E003");
    let mut bad_n8 = encode_wtns(&[fr_u64_le(1)]);
    bad_n8[24] = 31;
    assert_eq!(parse_wtns(&bad_n8).unwrap_err().code(), "E003");
}

#[test]
fn wtns_rejects_wrong_value_section_size_and_missing_sections() {
    let mut bytes = encode_wtns(&[fr_u64_le(1), fr_u64_le(2)]);
    // Declare three witnesses while only two are present.
    bytes[60] = 3;
    assert_eq!(parse_wtns(&bytes).unwrap_err().code(), "E015");
    let mut only_header = Vec::new();
    only_header.extend_from_slice(b"wtns");
    only_header.extend_from_slice(&2u32.to_le_bytes());
    only_header.extend_from_slice(&0u32.to_le_bytes());
    assert_eq!(parse_wtns(&only_header).unwrap_err().code(), "E016");
}
