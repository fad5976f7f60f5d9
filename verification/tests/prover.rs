use ark_bn254::{Fq, Fr, G1Affine, G2Affine};
use ark_ec::AffineRepr;
use ark_ff::{BigInteger, PrimeField};
use ark_serialize::CanonicalSerialize;

use zac::groth16::{G1Point, G2Point};
use zac::hash::{r1cs_hash, vk_fingerprint};
use zac::header::Header;
use zac::iden3::wtns::Wtns;
use zac::iden3::zkey::{parse_zkey, vkey_bytes_compressed, Zkey};
use zac::iden3::{BN254_Q_LE, BN254_R_LE};
use zac::prover::{bind_proof, check_witness};
use zac::section::{InterfaceSection, Section};
use zac::trailer::Trailer;
use zac::{verify, ZacError, ZacFile};

fn mont_fq(x: &Fq) -> Vec<u8> {
    x.0.to_bytes_le()
}

fn g1_wire(p: &G1Affine) -> Vec<u8> {
    if p.infinity {
        return vec![0u8; 64];
    }
    let mut v = mont_fq(&p.x);
    v.extend(mont_fq(&p.y));
    v
}

fn g2_wire(p: &G2Affine) -> Vec<u8> {
    let mut v = mont_fq(&p.x.c0);
    v.extend(mont_fq(&p.x.c1));
    v.extend(mont_fq(&p.y.c0));
    v.extend(mont_fq(&p.y.c1));
    v
}

fn section(out: &mut Vec<u8>, id: u32, body: &[u8]) {
    out.extend_from_slice(&id.to_le_bytes());
    out.extend_from_slice(&(body.len() as u64).to_le_bytes());
    out.extend_from_slice(body);
}

/// A key with nVars = 2, nPublic = 1, domainSize = 2 and every point the
/// generator (the second IC point is the identity).
fn sample_zkey() -> Zkey {
    let g1 = G1Affine::generator();
    let g2 = G2Affine::generator();
    let mut out = Vec::new();
    out.extend_from_slice(b"zkey");
    out.extend_from_slice(&1u32.to_le_bytes());
    out.extend_from_slice(&9u32.to_le_bytes());
    section(&mut out, 1, &1u32.to_le_bytes());
    let mut h = Vec::new();
    h.extend_from_slice(&32u32.to_le_bytes());
    h.extend_from_slice(&BN254_Q_LE);
    h.extend_from_slice(&32u32.to_le_bytes());
    h.extend_from_slice(&BN254_R_LE);
    h.extend_from_slice(&2u32.to_le_bytes());
    h.extend_from_slice(&1u32.to_le_bytes());
    h.extend_from_slice(&2u32.to_le_bytes());
    h.extend(g1_wire(&g1));
    h.extend(g1_wire(&g1));
    h.extend(g2_wire(&g2));
    h.extend(g2_wire(&g2));
    h.extend(g1_wire(&g1));
    h.extend(g2_wire(&g2));
    section(&mut out, 2, &h);
    let mut ic = g1_wire(&g1);
    ic.extend(g1_wire(&G1Affine::identity()));
    section(&mut out, 3, &ic);
    let mut c = Vec::new();
    c.extend_from_slice(&1u32.to_le_bytes());
    c.extend_from_slice(&0u32.to_le_bytes());
    c.extend_from_slice(&1u32.to_le_bytes());
    c.extend_from_slice(&1u32.to_le_bytes());
    c.extend(Fr::from(5u64).0.to_bytes_le());
    section(&mut out, 4, &c);
    let two_g1: Vec<u8> = [g1_wire(&g1), g1_wire(&g1)].concat();
    section(&mut out, 5, &two_g1);
    section(&mut out, 6, &two_g1);
    section(&mut out, 7, &[g2_wire(&g2), g2_wire(&g2)].concat());
    section(&mut out, 8, &[]);
    section(&mut out, 9, &two_g1);
    parse_zkey(&out).unwrap()
}

fn fr_bytes(x: u64) -> [u8; 32] {
    let mut out = [0u8; 32];
    out.copy_from_slice(&Fr::from(x).into_bigint().to_bytes_le());
    out
}

fn witness(values: Vec<[u8; 32]>) -> Wtns {
    Wtns { n8: 32, prime_le: BN254_R_LE, values: values.clone(), values_le: values }
}

fn container(vkey: Vec<u8>) -> ZacFile {
    let mut sections = Vec::new();
    if !vkey.is_empty() {
        sections.push(Section::Vkey(vkey));
    }
    sections.push(Section::Interface(InterfaceSection {
        public_input_count: 1,
        names: vec!["out".to_string()],
    }));
    sections.push(Section::R1csHash(r1cs_hash(b"r1cs")));
    let zf = ZacFile {
        header: Header {
            version_major: 1,
            version_minor: 0,
            version_patch: 0,
            flags: 0,
            section_count: 0,
            body_offset: 0,
            body_size: 0,
        },
        sections,
        trailer: Trailer { file_hash: [0u8; 32] },
    };
    ZacFile::parse(&zf.encode()).unwrap_or(zf)
}

fn g1_point(p: &G1Affine) -> G1Point {
    G1Point { x: p.x.into_bigint().0, y: p.y.into_bigint().0, infinity: p.infinity }
}

fn g2_point(p: &G2Affine) -> G2Point {
    G2Point {
        x_c0: p.x.c0.into_bigint().0,
        x_c1: p.x.c1.into_bigint().0,
        y_c0: p.y.c0.into_bigint().0,
        y_c1: p.y.c1.into_bigint().0,
        infinity: p.infinity,
    }
}

#[test]
fn witness_of_the_right_shape_is_accepted() {
    let z = sample_zkey();
    assert!(check_witness(&z, &witness(vec![fr_bytes(1), fr_bytes(33)])).is_ok());
}

#[test]
fn witness_of_the_wrong_length_is_e013() {
    let z = sample_zkey();
    let err = check_witness(&z, &witness(vec![fr_bytes(1)])).unwrap_err();
    assert!(matches!(err, ZacError::PublicInputCountMismatch { offset: 0, declared: 1, expected: 2 }));
    assert_eq!(err.code(), "E013");
}

#[test]
fn witness_whose_first_wire_is_not_one_is_e012() {
    let z = sample_zkey();
    for first in [0u64, 2, 256] {
        let err = check_witness(&z, &witness(vec![fr_bytes(first), fr_bytes(33)])).unwrap_err();
        assert!(matches!(err, ZacError::NonCanonicalFr { offset: 0, input_index: 0 }));
    }
}

#[test]
fn bound_proof_carries_points_inputs_and_hashes() {
    let z = sample_zkey();
    let vk = vkey_bytes_compressed(&z);
    let zac = container(vk.clone());
    let w = witness(vec![fr_bytes(1), fr_bytes(33)]);
    let a = G1Affine::generator();
    let b = G2Affine::generator();
    let c = G1Affine::identity();
    let zp = bind_proof(&zac, &z, &w, &g1_point(&a), &g2_point(&b), &g1_point(&c)).unwrap();
    let mut expected = Vec::new();
    a.serialize_compressed(&mut expected).unwrap();
    b.serialize_compressed(&mut expected).unwrap();
    c.serialize_compressed(&mut expected).unwrap();
    assert_eq!(zp.proof.to_vec(), expected);
    assert_eq!(zp.public_inputs, vec![fr_bytes(33)]);
    assert_eq!(zp.header.public_input_count, 1);
    assert_eq!(zp.header.zac_file_hash, zac.trailer.file_hash);
    assert_eq!(zp.header.vk_fingerprint, vk_fingerprint(&vk));
    assert_eq!((zp.header.version_major, zp.header.version_minor, zp.header.flags), (1, 0, 0));
}

#[test]
fn container_from_another_setup_is_e014() {
    let z = sample_zkey();
    let mut vk = vkey_bytes_compressed(&z);
    vk[0] ^= 1;
    let zac = container(vk);
    let w = witness(vec![fr_bytes(1), fr_bytes(33)]);
    let g = g1_point(&G1Affine::generator());
    let h = g2_point(&G2Affine::generator());
    assert!(matches!(bind_proof(&zac, &z, &w, &g, &h, &g), Err(ZacError::VkFingerprintMismatch)));
}

#[test]
fn container_without_vkey_is_e016() {
    let z = sample_zkey();
    let zac = container(Vec::new());
    let w = witness(vec![fr_bytes(1), fr_bytes(33)]);
    let g = g1_point(&G1Affine::generator());
    let h = g2_point(&G2Affine::generator());
    let err = bind_proof(&zac, &z, &w, &g, &h, &g).unwrap_err();
    assert!(matches!(err, ZacError::MissingMandatorySection { missing_type: 0x01, name: "VKEY" }));
    assert_eq!(err.code(), "E016");
}

#[test]
fn bound_proof_passes_the_binding_checks_of_verify() {
    let z = sample_zkey();
    let zac = container(vkey_bytes_compressed(&z));
    let w = witness(vec![fr_bytes(1), fr_bytes(33)]);
    let g = g1_point(&G1Affine::generator());
    let h = g2_point(&G2Affine::generator());
    let zp = bind_proof(&zac, &z, &w, &g, &h, &g).unwrap();
    // Points chosen at random do not satisfy the pairing equation: the
    // answer comes from the pairing, not from a binding check.
    assert_eq!(verify(&zac, &zp).unwrap_err().code(), "E017");
}
