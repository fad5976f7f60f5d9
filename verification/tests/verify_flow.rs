use ark_bn254::{Bn254, Fr, G1Affine, G1Projective, G2Affine, G2Projective};
use ark_ec::{AffineRepr, CurveGroup, Group};
use ark_ff::{BigInteger, PrimeField};
use ark_groth16::{Proof, VerifyingKey};
use ark_serialize::CanonicalSerialize;

use zac::groth16::{decode_proof, decode_vk};
use zac::hash::{r1cs_hash, vk_fingerprint};
use zac::header::Header;
use zac::section::{InterfaceSection, Section};
use zac::trailer::Trailer;
use zac::zac_proof::{ProofHeader, ZacProofFile};
use zac::{verify, ZacError, ZacFile};

fn ser<T: CanonicalSerialize>(v: &T) -> Vec<u8> {
    let mut out = Vec::new();
    v.serialize_compressed(&mut out).unwrap();
    out
}

fn fr_le(x: &Fr) -> [u8; 32] {
    let mut out = [0u8; 32];
    out.copy_from_slice(&x.into_bigint().to_bytes_le());
    out
}

/// A verifying key and a proof for one public input `x` that satisfy the
/// Groth16 equation by construction: with `A = alpha`, `B = beta`, and
/// `gamma = delta`, the equation holds when `C = -(IC0 + x·IC1)`.
fn key_and_proof(x: u64) -> (VerifyingKey<Bn254>, Proof<Bn254>) {
    let g1 = G1Projective::generator();
    let g2 = G2Projective::generator();
    let alpha = (g1 * Fr::from(3u64)).into_affine();
    let beta = (g2 * Fr::from(5u64)).into_affine();
    let gamma = (g2 * Fr::from(11u64)).into_affine();
    let ic0 = g1 * Fr::from(7u64);
    let ic1 = g1 * Fr::from(13u64);
    let vk = VerifyingKey::<Bn254> {
        alpha_g1: alpha,
        beta_g2: beta,
        gamma_g2: gamma,
        delta_g2: gamma,
        gamma_abc_g1: vec![ic0.into_affine(), ic1.into_affine()],
    };
    let c = -(ic0 + ic1 * Fr::from(x));
    let proof = Proof::<Bn254> { a: alpha, b: beta, c: c.into_affine() };
    (vk, proof)
}

fn container(vk_bytes: &[u8], count: u32) -> ZacFile {
    let zf = ZacFile {
        header: Header {
            version_major: 1,
            version_minor: 0,
            version_patch: 0,
            flags: 0,
            section_count: 0,
            body_offset: 0,
            body_size: 0,
        },
        sections: vec![
            Section::Vkey(vk_bytes.to_vec()),
            Section::Interface(InterfaceSection {
                public_input_count: count,
                names: (0..count).map(|i| format!("pub_{i}")).collect(),
            }),
            Section::R1csHash(r1cs_hash(b"r1cs")),
        ],
        trailer: Trailer { file_hash: [0u8; 32] },
    };
    ZacFile::parse(&zf.encode()).unwrap()
}

fn proof_file(zac: &ZacFile, vk_bytes: &[u8], proof: &Proof<Bn254>, inputs: Vec<[u8; 32]>) -> ZacProofFile {
    let mut block = [0u8; 128];
    block.copy_from_slice(&ser(proof));
    ZacProofFile {
        header: ProofHeader {
            version_major: 1,
            version_minor: 0,
            version_patch: 0,
            flags: 0,
            public_input_count: inputs.len() as u32,
            zac_file_hash: zac.trailer.file_hash,
            vk_fingerprint: vk_fingerprint(vk_bytes),
        },
        proof: block,
        public_inputs: inputs,
    }
}

fn happy() -> (ZacFile, ZacProofFile, Vec<u8>) {
    let (vk, proof) = key_and_proof(42);
    let vk_bytes = ser(&vk);
    let zac = container(&vk_bytes, 1);
    let zp = proof_file(&zac, &vk_bytes, &proof, vec![fr_le(&Fr::from(42u64))]);
    (zac, zp, vk_bytes)
}

#[test]
fn valid_proof_verifies_and_survives_the_wire() {
    let (zac, zp, _) = happy();
    assert!(verify(&zac, &zp).is_ok());
    let reparsed = ZacProofFile::parse(&zp.encode()).unwrap();
    assert!(verify(&zac, &reparsed).is_ok());
}

#[test]
fn wrong_public_input_is_e017() {
    let (zac, mut zp, _) = happy();
    zp.public_inputs[0] = fr_le(&Fr::from(43u64));
    assert_eq!(verify(&zac, &zp).unwrap_err().code(), "E017");
}

#[test]
fn fingerprint_mismatch_is_e014() {
    let (zac, mut zp, _) = happy();
    zp.header.vk_fingerprint[0] ^= 1;
    assert_eq!(verify(&zac, &zp).unwrap_err().code(), "E014");
}

#[test]
fn file_hash_mismatch_is_e009() {
    let (zac, mut zp, _) = happy();
    zp.header.zac_file_hash[5] ^= 1;
    match verify(&zac, &zp).unwrap_err() {
        ZacError::BadFileHash { trailer, computed } => {
            assert_eq!(trailer, zac.trailer.file_hash);
            assert_eq!(computed, zp.header.zac_file_hash);
        }
        other => panic!("unexpected {other:?}"),
    }
}

#[test]
fn count_mismatch_is_e013() {
    let (zac, mut zp, _) = happy();
    zp.header.public_input_count = 2;
    match verify(&zac, &zp).unwrap_err() {
        ZacError::PublicInputCountMismatch { offset, declared, expected } => {
            assert_eq!((offset, declared, expected), (8, 2, 1));
        }
        other => panic!("unexpected {other:?}"),
    }
}

#[test]
fn ic_length_mismatch_is_e013() {
    let (vk, proof) = key_and_proof(1);
    let vk_bytes = ser(&vk);
    let zac = container(&vk_bytes, 2);
    let zp = proof_file(&zac, &vk_bytes, &proof, vec![fr_le(&Fr::from(1u64)); 2]);
    match verify(&zac, &zp).unwrap_err() {
        ZacError::PublicInputCountMismatch { offset, declared, expected } => {
            assert_eq!((offset, declared, expected), (0, 2, 3));
        }
        other => panic!("unexpected {other:?}"),
    }
}

#[test]
fn non_canonical_input_is_e012() {
    let (zac, mut zp, _) = happy();
    zp.public_inputs[0] = [0xFF; 32];
    match verify(&zac, &zp).unwrap_err() {
        ZacError::NonCanonicalFr { offset, input_index } => assert_eq!((offset, input_index), (0xD0, 0)),
        other => panic!("unexpected {other:?}"),
    }
}

#[test]
fn missing_vkey_is_e016() {
    let (zac, zp, _) = happy();
    let mut hand = zac.clone();
    hand.sections.remove(0);
    assert_eq!(verify(&hand, &zp).unwrap_err().code(), "E016");
}

#[test]
fn identity_pi_a_is_e018() {
    let (zac, mut zp, _) = happy();
    let zero = ser(&G1Affine::identity());
    zp.proof[0..32].copy_from_slice(&zero);
    match verify(&zac, &zp).unwrap_err() {
        ZacError::IdentityNotAllowed { offset, what } => {
            assert_eq!(offset, 0x50);
            assert_eq!(what, "pi_a");
        }
        other => panic!("unexpected {other:?}"),
    }
}

#[test]
fn identity_in_vk_is_e018_but_allowed_in_ic() {
    let (mut vk, _) = key_and_proof(1);
    vk.gamma_abc_g1[1] = G1Affine::identity();
    assert!(decode_vk(&ser(&vk)).is_ok());
    vk.delta_g2 = G2Affine::identity();
    match decode_vk(&ser(&vk)).unwrap_err() {
        ZacError::IdentityNotAllowed { what, .. } => assert_eq!(what, "vk.delta_g2"),
        other => panic!("unexpected {other:?}"),
    }
}

#[test]
fn decode_vk_reads_points_and_tolerates_trailing_bytes() {
    let (vk, _) = key_and_proof(1);
    let mut bytes = ser(&vk);
    let dv = decode_vk(&bytes).unwrap();
    assert_eq!(dv.gamma_abc_g1.len(), 2);
    assert_eq!(dv.alpha_g1.x, vk.alpha_g1.x.into_bigint().0);
    assert_eq!(dv.beta_g2.y_c1, vk.beta_g2.y.c1.into_bigint().0);
    bytes.push(0xEE);
    assert!(decode_vk(&bytes).is_ok());
}

#[test]
fn truncated_vk_is_e015() {
    let (vk, _) = key_and_proof(1);
    let bytes = ser(&vk);
    assert_eq!(decode_vk(&bytes[..bytes.len() - 1]).unwrap_err().code(), "E015");
    assert_eq!(decode_vk(&bytes[..200]).unwrap_err().code(), "E015");
    assert_eq!(decode_vk(&[]).unwrap_err().code(), "E015");
}

#[test]
fn off_subgroup_g2_is_e011_and_garbage_is_e010() {
    // A point on the twist but outside the prime-order subgroup: search the
    // x-coordinates 1, 2, 3, ... for one that decompresses.
    let (mut vk, _) = key_and_proof(1);
    let good = ser(&vk);
    let mut found = false;
    for k in 1u64..200 {
        let mut cand = [0u8; 64];
        cand[0] = k as u8;
        if let Ok(p) = <G2Affine as ark_serialize::CanonicalDeserialize>::deserialize_compressed_unchecked(&cand[..]) {
            if !p.is_in_correct_subgroup_assuming_on_curve() {
                vk.beta_g2 = p;
                found = true;
                break;
            }
        }
    }
    assert!(found);
    assert_eq!(decode_vk(&ser(&vk)).unwrap_err().code(), "E011");
    let mut garbage = good.clone();
    garbage[0..32].copy_from_slice(&[0xFF; 32]);
    assert_eq!(decode_vk(&garbage).unwrap_err().code(), "E010");
}

#[test]
fn decode_proof_reads_three_points() {
    let (_, proof) = key_and_proof(9);
    let mut block = [0u8; 128];
    block.copy_from_slice(&ser(&proof));
    let p = decode_proof(&block).unwrap();
    assert_eq!(p.a.x, proof.a.x.into_bigint().0);
    assert_eq!(p.b.x_c0, proof.b.x.c0.into_bigint().0);
    assert_eq!(p.c.y, proof.c.y.into_bigint().0);
    let zero2 = ser(&G2Affine::identity());
    block[32..96].copy_from_slice(&zero2);
    match decode_proof(&block).unwrap_err() {
        ZacError::IdentityNotAllowed { offset, what } => assert_eq!((offset, what), (0x70, "pi_b")),
        other => panic!("unexpected {other:?}"),
    }
}

#[test]
fn non_canonical_infinity_encoding_is_e010() {
    let (zac, mut zp, _) = happy();
    let mut enc = [0u8; 32];
    enc[0] = 5;
    enc[31] = 0x40;
    zp.proof[0..32].copy_from_slice(&enc);
    match verify(&zac, &zp).unwrap_err() {
        ZacError::NonCanonicalPoint { offset, .. } => assert_eq!(offset, 0x50),
        other => panic!("unexpected {other:?}"),
    }
    let (mut vk, _) = key_and_proof(1);
    vk.gamma_abc_g1[1] = G1Affine::identity();
    let mut bytes = ser(&vk);
    let at = bytes.len() - 32;
    assert_eq!(bytes[bytes.len() - 1], 0x40);
    bytes[at] = 9;
    assert_eq!(decode_vk(&bytes).unwrap_err().code(), "E010");
}

#[test]
fn non_canonical_infinity_in_ic_is_e010() {
    let (mut vk, _) = key_and_proof(1);
    vk.gamma_abc_g1[1] = G1Affine::identity();
    let mut bytes = ser(&vk);
    // IC point 1 starts at 232 + 32: keep the infinity flag, dirty the x bytes.
    assert_eq!(bytes[232 + 32 + 31], 0x40);
    bytes[232 + 32] = 1;
    assert_eq!(decode_vk(&bytes).unwrap_err().code(), "E010");
}

#[test]
fn fewer_inputs_than_the_interface_declares_is_rejected() {
    let (zac, mut zp, _) = happy();
    // The header still declares one input, but none is carried.
    zp.public_inputs.clear();
    assert_eq!(verify(&zac, &zp).unwrap_err().code(), "E017");
}
