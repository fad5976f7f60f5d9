use ark_bn254::Fr;
use ark_ff::{BigInt, BigInteger, PrimeField, Zero};

use zac::groth16::{decode_fr_canonical, ge_le};

fn to_fr(b: &[u8; 32]) -> Fr {
    Fr::from_le_bytes_mod_order(b)
}

#[test]
fn zero_is_canonical() {
    let buf = [0u8; 32];
    let fr = decode_fr_canonical(&buf, 0, 0).expect("zero must be accepted");
    assert_eq!(to_fr(&fr), Fr::zero());
}

#[test]
fn r_is_rejected_with_e012() {
    let m = Fr::MODULUS.to_bytes_le();
    let mut buf = [0u8; 32];
    buf.copy_from_slice(&m);
    let err = decode_fr_canonical(&buf, 0xD0, 0).expect_err("r must be rejected");
    assert_eq!(err.code(), "E012", "{err:?}");
}

#[test]
fn r_minus_one_is_accepted() {
    let mut m = Fr::MODULUS;
    let borrowed = m.sub_with_borrow(&BigInt::from(1u64));
    assert!(!borrowed, "r >= 1");
    let bytes = m.to_bytes_le();
    let mut buf = [0u8; 32];
    buf.copy_from_slice(&bytes);
    let fr = decode_fr_canonical(&buf, 0xD0, 0).expect("r-1 must be accepted");
    assert_eq!(to_fr(&fr) + Fr::from(1u64), Fr::zero());
}

#[test]
fn fr_zero_is_canonical() {
    let zero = [0u8; 32];
    let fr = decode_fr_canonical(&zero, 0, 0).unwrap();
    assert_eq!(to_fr(&fr), Fr::zero());
}

#[test]
fn fr_modulus_is_rejected() {
    let m = Fr::MODULUS.to_bytes_le();
    let mut buf = [0u8; 32];
    buf.copy_from_slice(&m);
    let err = decode_fr_canonical(&buf, 0, 0).unwrap_err();
    assert_eq!(err.code(), "E012");
}

#[test]
fn fr_modulus_minus_one_is_accepted() {
    let mut m = Fr::MODULUS;
    m.sub_with_borrow(&BigInt::from(1u64));
    let bytes = m.to_bytes_le();
    let mut buf = [0u8; 32];
    buf.copy_from_slice(&bytes);
    let fr = decode_fr_canonical(&buf, 0, 0).unwrap();
    assert_eq!(to_fr(&fr) + Fr::from(1u64), Fr::zero());
}

#[test]
fn accepted_scalar_is_returned_unchanged_and_error_carries_position() {
    let mut buf = [0u8; 32];
    buf[0] = 7;
    buf[31] = 0x30;
    assert_eq!(decode_fr_canonical(&buf, 0xF0, 1).unwrap(), buf);
    let all_ff = [0xFFu8; 32];
    match decode_fr_canonical(&all_ff, 0xF0, 1) {
        Err(zac::ZacError::NonCanonicalFr { offset, input_index }) => {
            assert_eq!(offset, 0xF0);
            assert_eq!(input_index, 1);
        }
        other => panic!("unexpected {other:?}"),
    }
}

#[test]
fn ge_le_compares_from_the_top_byte() {
    let mut a = [0u8; 32];
    let mut b = [0u8; 32];
    assert!(ge_le(&a, &b));
    a[0] = 1;
    assert!(ge_le(&a, &b));
    b[1] = 1;
    assert!(!ge_le(&a, &b));
    a[31] = 1;
    assert!(ge_le(&a, &b));
}
