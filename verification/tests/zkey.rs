use ark_bn254::{Bn254, Fq, Fr, G1Affine, G2Affine};
use ark_ec::AffineRepr;
use ark_ff::{BigInteger, PrimeField};
use ark_groth16::VerifyingKey;
use ark_serialize::CanonicalSerialize;
use std::str::FromStr;

use zac::iden3::zkey::{fr_from_mont_le, is_lt_modulus, parse_zkey, reattribute, vkey_bytes_compressed};
use zac::iden3::{BN254_Q_LE, BN254_R_LE};
use zac::ZacError;

fn mont_fq(x: &Fq) -> Vec<u8> {
    x.0.to_bytes_le()
}

fn g1_wire(p: &G1Affine) -> Vec<u8> {
    if p.infinity {
        return vec![0u8; 64];
    }
    let mut v = mont_fq(&p.x);
    v.extend(mont_fq(&p.y));
    v
}

fn g2_wire(p: &G2Affine) -> Vec<u8> {
    let mut v = mont_fq(&p.x.c0);
    v.extend(mont_fq(&p.x.c1));
    v.extend(mont_fq(&p.y.c0));
    v.extend(mont_fq(&p.y.c1));
    v
}

fn section(out: &mut Vec<u8>, id: u32, body: &[u8]) {
    out.extend_from_slice(&id.to_le_bytes());
    out.extend_from_slice(&(body.len() as u64).to_le_bytes());
    out.extend_from_slice(body);
}

/// A key with nVars = 2, nPublic = 1, domainSize = 2, every point the
/// generator, and one coefficient of value 5.
fn sample_zkey(coef_value_mont: &[u8], protocol: u32) -> Vec<u8> {
    let g1 = G1Affine::generator();
    let g2 = G2Affine::generator();
    let mut out = Vec::new();
    out.extend_from_slice(b"zkey");
    out.extend_from_slice(&1u32.to_le_bytes());
    out.extend_from_slice(&9u32.to_le_bytes());
    section(&mut out, 1, &protocol.to_le_bytes());
    let mut h = Vec::new();
    h.extend_from_slice(&32u32.to_le_bytes());
    h.extend_from_slice(&BN254_Q_LE);
    h.extend_from_slice(&32u32.to_le_bytes());
    h.extend_from_slice(&BN254_R_LE);
    h.extend_from_slice(&2u32.to_le_bytes());
    h.extend_from_slice(&1u32.to_le_bytes());
    h.extend_from_slice(&2u32.to_le_bytes());
    h.extend(g1_wire(&g1));
    h.extend(g1_wire(&g1));
    h.extend(g2_wire(&g2));
    h.extend(g2_wire(&g2));
    h.extend(g1_wire(&g1));
    h.extend(g2_wire(&g2));
    section(&mut out, 2, &h);
    let mut ic = g1_wire(&g1);
    ic.extend(g1_wire(&G1Affine::identity()));
    section(&mut out, 3, &ic);
    let mut c = Vec::new();
    c.extend_from_slice(&1u32.to_le_bytes());
    c.extend_from_slice(&0u32.to_le_bytes());
    c.extend_from_slice(&1u32.to_le_bytes());
    c.extend_from_slice(&1u32.to_le_bytes());
    c.extend_from_slice(coef_value_mont);
    section(&mut out, 4, &c);
    let two_g1: Vec<u8> = [g1_wire(&g1), g1_wire(&g1)].concat();
    section(&mut out, 5, &two_g1);
    section(&mut out, 6, &two_g1);
    section(&mut out, 7, &[g2_wire(&g2), g2_wire(&g2)].concat());
    section(&mut out, 8, &[]);
    section(&mut out, 9, &two_g1);
    out
}

fn five_mont() -> Vec<u8> {
    Fr::from(5u64).0.to_bytes_le()
}

#[test]
fn parses_a_well_formed_key() {
    let z = parse_zkey(&sample_zkey(&five_mont(), 1)).unwrap();
    let g1 = G1Affine::generator();
    let g2 = G2Affine::generator();
    assert_eq!((z.n_vars, z.n_public, z.domain_size), (2, 1, 2));
    assert_eq!(z.alpha_g1.x, g1.x.into_bigint().0);
    assert_eq!(z.alpha_g1.y, g1.y.into_bigint().0);
    assert!(!z.alpha_g1.infinity);
    assert_eq!(z.beta_g2.x_c1, g2.x.c1.into_bigint().0);
    assert_eq!(z.beta_g2.y_c0, g2.y.c0.into_bigint().0);
    assert_eq!(z.ic.len(), 2);
    assert!(z.ic[1].infinity);
    assert_eq!(z.ic[1].x, [0u64; 4]);
    assert_eq!(z.coefs.len(), 1);
    assert_eq!((z.coefs[0].matrix, z.coefs[0].constraint, z.coefs[0].signal), (0, 1, 1));
    let mut five = [0u8; 32];
    five[0] = 5;
    assert_eq!(z.coefs[0].value, five);
    assert_eq!(z.a_query.len(), 2);
    assert_eq!(z.b_g2_query.len(), 2);
    assert_eq!(z.c_query.len(), 0);
    assert_eq!(z.h_query.len(), 2);
    assert_eq!(z.raw_header_groth.len(), 84 + 3 * 64 + 3 * 128);
}

#[test]
fn compressed_vkey_matches_arkworks_serialization() {
    let z = parse_zkey(&sample_zkey(&five_mont(), 1)).unwrap();
    let g1 = G1Affine::generator();
    let g2 = G2Affine::generator();
    let vk = VerifyingKey::<Bn254> {
        alpha_g1: g1,
        beta_g2: g2,
        gamma_g2: g2,
        delta_g2: g2,
        gamma_abc_g1: vec![g1, G1Affine::identity()],
    };
    let mut expected = Vec::new();
    vk.serialize_compressed(&mut expected).unwrap();
    assert_eq!(vkey_bytes_compressed(&z), expected);
}

#[test]
fn rejects_wrong_protocol() {
    assert_eq!(parse_zkey(&sample_zkey(&five_mont(), 2)).unwrap_err().code(), "E003");
}

#[test]
fn rejects_coefficient_at_modulus() {
    let bytes = sample_zkey(&BN254_R_LE, 1);
    match parse_zkey(&bytes) {
        Err(ZacError::NonCanonicalFr { offset, input_index }) => {
            assert_eq!(input_index, 0);
            assert_eq!(&bytes[offset..offset + 32], &BN254_R_LE[..]);
        }
        other => panic!("unexpected {other:?}"),
    }
}

#[test]
fn rejects_off_curve_point_at_its_offset() {
    let mut bytes = sample_zkey(&five_mont(), 1);
    // alpha_g1 starts 84 bytes into section 2, whose body starts at 12 + 16 + 12.
    let alpha = 12 + 16 + 12 + 84;
    bytes[alpha + 32] ^= 1;
    match parse_zkey(&bytes) {
        Err(ZacError::NonCanonicalPoint { offset, .. }) => assert_eq!(offset, alpha),
        other => panic!("unexpected {other:?}"),
    }
}

#[test]
fn rejects_coordinate_not_below_q() {
    let mut bytes = sample_zkey(&five_mont(), 1);
    let alpha = 12 + 16 + 12 + 84;
    bytes[alpha + 32..alpha + 64].copy_from_slice(&BN254_Q_LE);
    match parse_zkey(&bytes) {
        Err(ZacError::NonCanonicalPoint { offset, reason }) => {
            assert_eq!(offset, alpha + 32);
            assert_eq!(reason, "Fq Montgomery integer >= q");
        }
        other => panic!("unexpected {other:?}"),
    }
}

#[test]
fn section_two_running_past_the_end_is_truncation() {
    let mut out = Vec::new();
    out.extend_from_slice(b"zkey");
    out.extend_from_slice(&1u32.to_le_bytes());
    out.extend_from_slice(&2u32.to_le_bytes());
    section(&mut out, 1, &1u32.to_le_bytes());
    let mut h = Vec::new();
    h.extend_from_slice(&32u32.to_le_bytes());
    h.extend_from_slice(&BN254_Q_LE[..10]);
    section(&mut out, 2, &h);
    assert_eq!(parse_zkey(&out).unwrap_err().code(), "E015");
}

#[test]
fn missing_sections_are_reported() {
    let mut out = Vec::new();
    out.extend_from_slice(b"zkey");
    out.extend_from_slice(&1u32.to_le_bytes());
    out.extend_from_slice(&0u32.to_le_bytes());
    assert_eq!(parse_zkey(&out).unwrap_err().code(), "E016");
}

#[test]
fn r_inv_q_times_2_pow_256_eq_1() {
    let mut r = Fq::from(1u64);
    for _ in 0..256 {
        r = r + r;
    }
    let r_inv = Fq::from_str(
        "20988524275117001072002809824448087578619730785600314334253784976379291040311",
    )
    .unwrap();
    assert_eq!(r * r_inv, Fq::from(1u64));
}

#[test]
fn r_inv_r_times_2_pow_256_eq_1() {
    let mut r = Fr::from(1u64);
    for _ in 0..256 {
        r = r + r;
    }
    let r_inv = Fr::from_str(
        "9915499612839321149637521777990102151350674507940716049588462388200839649614",
    )
    .unwrap();
    assert_eq!(r * r_inv, Fr::from(1u64));
}

#[test]
fn montgomery_form_decodes_to_the_standard_form() {
    // One in Montgomery form is 2^256 mod r; decoding it gives one.
    let one_mont = Fr::from(1u64).0.to_bytes_le();
    let mut buf = [0u8; 32];
    buf.copy_from_slice(&one_mont);
    let mut one = [0u8; 32];
    one[0] = 1;
    assert_eq!(fr_from_mont_le(&buf).unwrap(), one);
    let seven = Fr::from(7u64).0.to_bytes_le();
    buf.copy_from_slice(&seven);
    assert_eq!(Fr::from_le_bytes_mod_order(&fr_from_mont_le(&buf).unwrap()), Fr::from(7u64));
    assert_eq!(fr_from_mont_le(&BN254_R_LE).unwrap_err().code(), "E012");
}

#[test]
fn is_lt_modulus_is_strict() {
    assert!(!is_lt_modulus(&BN254_Q_LE, &BN254_Q_LE));
    let mut below = BN254_Q_LE;
    below[0] -= 1;
    assert!(is_lt_modulus(&below, &BN254_Q_LE));
    let mut above = BN254_Q_LE;
    above[31] += 1;
    assert!(!is_lt_modulus(&above, &BN254_Q_LE));
}

#[test]
fn reattribute_moves_only_point_errors() {
    let e = ZacError::NonCanonicalPoint { offset: 0, reason: "r" };
    match reattribute(e, 99) {
        ZacError::NonCanonicalPoint { offset, reason } => {
            assert_eq!(offset, 99);
            assert_eq!(reason, "r");
        }
        other => panic!("unexpected {other:?}"),
    }
    match reattribute(ZacError::SubgroupCheckFailed { offset: 3 }, 99) {
        ZacError::SubgroupCheckFailed { offset } => assert_eq!(offset, 3),
        other => panic!("unexpected {other:?}"),
    }
}
