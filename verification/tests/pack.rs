use ark_bn254::{Fq, Fr, G1Affine, G2Affine};
use ark_ec::AffineRepr;
use ark_ff::{BigInteger, PrimeField};

use zac::cli::{default_names, pack_file};
use zac::iden3::zkey::{parse_zkey, vkey_bytes_compressed, Zkey};
use zac::iden3::{BN254_Q_LE, BN254_R_LE};
use zac::section::{InterfaceSection, Section};
use zac::{r1cs_hash, ZacFile};

fn mont_fq(x: &Fq) -> Vec<u8> {
    x.0.to_bytes_le()
}

fn g1_wire(p: &G1Affine) -> Vec<u8> {
    if p.infinity {
        return vec![0u8; 64];
    }
    let mut v = mont_fq(&p.x);
    v.extend(mont_fq(&p.y));
    v
}

fn g2_wire(p: &G2Affine) -> Vec<u8> {
    let mut v = mont_fq(&p.x.c0);
    v.extend(mont_fq(&p.x.c1));
    v.extend(mont_fq(&p.y.c0));
    v.extend(mont_fq(&p.y.c1));
    v
}

fn section(out: &mut Vec<u8>, id: u32, body: &[u8]) {
    out.extend_from_slice(&id.to_le_bytes());
    out.extend_from_slice(&(body.len() as u64).to_le_bytes());
    out.extend_from_slice(body);
}

/// A key with nVars = 2, nPublic = 1, domainSize = 2 and every point the
/// generator (the second IC point is the identity).
fn sample_zkey() -> Zkey {
    let g1 = G1Affine::generator();
    let g2 = G2Affine::generator();
    let mut out = Vec::new();
    out.extend_from_slice(b"zkey");
    out.extend_from_slice(&1u32.to_le_bytes());
    out.extend_from_slice(&9u32.to_le_bytes());
    section(&mut out, 1, &1u32.to_le_bytes());
    let mut h = Vec::new();
    h.extend_from_slice(&32u32.to_le_bytes());
    h.extend_from_slice(&BN254_Q_LE);
    h.extend_from_slice(&32u32.to_le_bytes());
    h.extend_from_slice(&BN254_R_LE);
    h.extend_from_slice(&2u32.to_le_bytes());
    h.extend_from_slice(&1u32.to_le_bytes());
    h.extend_from_slice(&2u32.to_le_bytes());
    h.extend(g1_wire(&g1));
    h.extend(g1_wire(&g1));
    h.extend(g2_wire(&g2));
    h.extend(g2_wire(&g2));
    h.extend(g1_wire(&g1));
    h.extend(g2_wire(&g2));
    section(&mut out, 2, &h);
    let mut ic = g1_wire(&g1);
    ic.extend(g1_wire(&G1Affine::identity()));
    section(&mut out, 3, &ic);
    let mut c = Vec::new();
    c.extend_from_slice(&1u32.to_le_bytes());
    c.extend_from_slice(&0u32.to_le_bytes());
    c.extend_from_slice(&1u32.to_le_bytes());
    c.extend_from_slice(&1u32.to_le_bytes());
    c.extend(Fr::from(5u64).0.to_bytes_le());
    section(&mut out, 4, &c);
    let two_g1: Vec<u8> = [g1_wire(&g1), g1_wire(&g1)].concat();
    section(&mut out, 5, &two_g1);
    section(&mut out, 6, &two_g1);
    section(&mut out, 7, &[g2_wire(&g2), g2_wire(&g2)].concat());
    section(&mut out, 8, &[]);
    section(&mut out, 9, &two_g1);
    parse_zkey(&out).unwrap()
}

#[test]
fn default_names_count_from_zero() {
    assert_eq!(default_names(0), Vec::<String>::new());
    assert_eq!(default_names(3), vec!["pub_0", "pub_1", "pub_2"]);
    let many = default_names(11);
    assert_eq!(many[10], "pub_10");
}

#[test]
fn pack_builds_vkey_interface_and_r1cs_hash() {
    let z = sample_zkey();
    let zf = pack_file(&z, b"r1cs bytes", None).unwrap();
    assert_eq!((zf.header.version_major, zf.header.version_minor, zf.header.flags), (1, 0, 0));
    assert_eq!(
        zf.sections,
        vec![
            Section::Vkey(vkey_bytes_compressed(&z)),
            Section::Interface(InterfaceSection {
                public_input_count: 1,
                names: vec!["pub_0".to_string()],
            }),
            Section::R1csHash(r1cs_hash(b"r1cs bytes")),
        ]
    );
    // What pack builds parses back with the same sections.
    let parsed = ZacFile::parse(&zf.encode()).unwrap();
    assert_eq!(parsed.sections, zf.sections);
}

#[test]
fn pack_keeps_given_names() {
    let z = sample_zkey();
    let zf = pack_file(&z, b"", Some(vec!["out".to_string()])).unwrap();
    match &zf.sections[1] {
        Section::Interface(i) => assert_eq!(i.names, vec!["out".to_string()]),
        _ => panic!("section 1 is not INTERFACE"),
    }
}

#[test]
fn pack_refuses_a_wrong_number_of_names() {
    let z = sample_zkey();
    let e = pack_file(&z, b"", Some(vec!["a".to_string(), "b".to_string()])).unwrap_err();
    assert_eq!((e.declared, e.expected), (2, 1));
}
