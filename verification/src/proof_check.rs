//! Verifying a `.zacp` proof against a `.zac` container.
//!
//! The checks run in a fixed order and the first failure is reported:
//!
//! 1. the VKEY and INTERFACE sections are present (E016);
//! 2. the proof's `vk_fingerprint` is the fingerprint of the VKEY (E014);
//! 3. the proof's `zac_file_hash` is the container's file hash (E009);
//! 4. the proof's public-input count is the INTERFACE count, and that count
//!    is at most 4096 (E013);
//! 5. the VKEY decodes and passes its point checks (E010 / E011 / E015 /
//!    E018);
//! 6. the VKEY has one IC point more than there are public inputs (E013);
//! 7. the proof block decodes and passes its point checks;
//! 8. every public input is below `r` (E012);
//! 9. the Groth16 pairing equation holds (E017 otherwise).
use vstd::prelude::*;

use crate::error::{ZacError, ZacResult};
use crate::groth16::{
    decode_fr_canonical, decode_proof, decode_vk, fr_result, groth16_accepts, pairing_check,
    proof_result, vk_result, OFFSET_PUBLIC_INPUTS,
};
use crate::hash::{vk_fingerprint, vk_fingerprint_spec};
use crate::index::{SECTION_INTERFACE, SECTION_VKEY};
use crate::section::{InterfaceSection, InterfaceV, Section, SectionV};
use crate::wire::{bytes32_eq, lemma_to_arr32, to_arr32};
use crate::zac_file::{ZacFile, ZacFileV};
use crate::zac_proof::{ZacProofFile, ZacProofFileV, MAX_PUBLIC_INPUTS};

verus! {

/// The last VKEY body among the first `k` sections.
pub open spec fn vkey_in(svs: Seq<SectionV>, k: nat) -> Option<Seq<u8>>
    decreases k,
{
    if k == 0 {
        None
    } else {
        match svs[k - 1] {
            SectionV::Vkey(b) => Some(b),
            _ => vkey_in(svs, (k - 1) as nat),
        }
    }
}

/// The last INTERFACE among the first `k` sections.
pub open spec fn interface_in(svs: Seq<SectionV>, k: nat) -> Option<InterfaceV>
    decreases k,
{
    if k == 0 {
        None
    } else {
        match svs[k - 1] {
            SectionV::Interface(i) => Some(i),
            _ => interface_in(svs, (k - 1) as nat),
        }
    }
}

/// What `find_vkey_and_interface` gives for a container's sections.
pub open spec fn vkey_and_interface(svs: Seq<SectionV>) -> Result<(Seq<u8>, InterfaceV), ZacError> {
    match vkey_in(svs, svs.len()) {
        None => Err(ZacError::MissingMandatorySection { missing_type: SECTION_VKEY, name: "VKEY" }),
        Some(vk) => match interface_in(svs, svs.len()) {
            None => Err(
                ZacError::MissingMandatorySection { missing_type: SECTION_INTERFACE, name: "INTERFACE" },
            ),
            Some(i) => Ok((vk, i)),
        },
    }
}

/// Locate the VKEY body and the INTERFACE section (the last of each, should
/// a hand-built container hold several).
pub fn find_vkey_and_interface(zac: &ZacFile) -> (r: ZacResult<(&[u8], &InterfaceSection)>)
    ensures
        match r {
            Ok((vk, i)) => vkey_and_interface(zac@.sections) == Ok::<
                (Seq<u8>, InterfaceV),
                ZacError,
            >((vk@, i@)),
            Err(e) => vkey_and_interface(zac@.sections) == Err::<(Seq<u8>, InterfaceV), ZacError>(
                e,
            ),
        },
{
    let ghost svs = zac@.sections;
    let mut vkey: Option<&[u8]> = None;
    let mut iface: Option<&InterfaceSection> = None;
    let mut k: usize = 0;
    while k < zac.sections.len()
        invariant
            k <= zac.sections@.len(),
            svs == zac.sections@.map_values(|s: Section| s@),
            match vkey {
                Some(v) => vkey_in(svs, k as nat) == Some(v@),
                None => vkey_in(svs, k as nat) is None,
            },
            match iface {
                Some(i) => interface_in(svs, k as nat) == Some(i@),
                None => interface_in(svs, k as nat) is None,
            },
        decreases zac.sections@.len() - k,
    {
        let s = &zac.sections[k];
        assert(svs[k as int] == s@);
        match s {
            Section::Vkey(b) => {
                vkey = Some(b.as_slice());
            },
            Section::Interface(i) => {
                iface = Some(i);
            },
            _ => {},
        }
        k = k + 1;
    }
    let vk = match vkey {
        Some(v) => v,
        None => {
            return Err(ZacError::MissingMandatorySection { missing_type: SECTION_VKEY, name: "VKEY" });
        },
    };
    let it = match iface {
        Some(i) => i,
        None => {
            return Err(
                ZacError::MissingMandatorySection {
                    missing_type: SECTION_INTERFACE,
                    name: "INTERFACE",
                },
            );
        },
    };
    Ok((vk, it))
}

/// The first public input among the first `k` that is not below `r`.
pub open spec fn inputs_check(ins: Seq<Seq<u8>>, k: nat) -> Option<ZacError>
    decreases k,
{
    if k == 0 {
        None
    } else {
        match inputs_check(ins, (k - 1) as nat) {
            Some(e) => Some(e),
            None => match fr_result(
                ins[k - 1],
                (OFFSET_PUBLIC_INPUTS + 32 * (k - 1)) as usize,
                (k - 1) as usize,
            ) {
                Err(e) => Some(e),
                Ok(_) => None,
            },
        }
    }
}

/// What `verify` answers for a container and a proof.
pub open spec fn verify_result(z: ZacFileV, p: ZacProofFileV) -> Result<(), ZacError> {
    match vkey_and_interface(z.sections) {
        Err(e) => Err(e),
        Ok((vk, it)) => if vk_fingerprint_spec(vk)@ != p.header.vk_fingerprint {
            Err(ZacError::VkFingerprintMismatch)
        } else if p.header.zac_file_hash != z.file_hash {
            Err(
                ZacError::BadFileHash {
                    trailer: to_arr32(z.file_hash),
                    computed: to_arr32(p.header.zac_file_hash),
                },
            )
        } else if p.header.public_input_count != it.count {
            Err(
                ZacError::PublicInputCountMismatch {
                    offset: 8,
                    declared: p.header.public_input_count as u64,
                    expected: it.count as u64,
                },
            )
        } else {
            checks_after_binding(vk, it, p)
        },
    }
}

/// What `verify` answers once the proof is bound to the container (matching
/// fingerprint, file hash and public-input count): the count limit, the key
/// and proof decoding, the public inputs, and the pairing equation.
pub open spec fn checks_after_binding(vk: Seq<u8>, it: InterfaceV, p: ZacProofFileV) -> Result<
    (),
    ZacError,
> {
    if it.count > MAX_PUBLIC_INPUTS {
        Err(
            ZacError::PublicInputCountMismatch {
                offset: 0,
                declared: it.count as u64,
                expected: MAX_PUBLIC_INPUTS as u64,
            },
        )
    } else {
        match vk_result(vk) {
            Err(e) => Err(e),
            Ok(v) => if v.gamma_abc_g1.len() != it.count + 1 {
                Err(
                    ZacError::PublicInputCountMismatch {
                        offset: 0,
                        declared: v.gamma_abc_g1.len() as u64,
                        expected: (it.count + 1) as u64,
                    },
                )
            } else {
                match proof_result(p.proof) {
                    Err(e) => Err(e),
                    Ok(_) => match inputs_check(p.public_inputs, p.public_inputs.len()) {
                        Some(e) => Err(e),
                        None => match groth16_accepts(vk, p.proof, p.public_inputs) {
                            Some(true) => Ok(()),
                            Some(false) => Err(
                                ZacError::ProofRejected {
                                    reason: "Groth16 pairing equation does not hold",
                                },
                            ),
                            None => Err(
                                ZacError::ProofRejected {
                                    reason: "arkworks verifier returned error (see trace)",
                                },
                            ),
                        },
                    },
                }
            },
        }
    }
}

/// What `verify` accepts: a container with a VKEY and an INTERFACE, a proof
/// whose header carries that VKEY's fingerprint, the container's file hash
/// and the INTERFACE's input count (at most 4096), a key that decodes with
/// one IC point more than that count, a proof block that decodes, public
/// inputs all below `r`, and the Groth16 verifier's acceptance.
pub proof fn lemma_verify_accepts(z: ZacFileV, p: ZacProofFileV)
    ensures
        verify_result(z, p) is Ok <==> match vkey_and_interface(z.sections) {
            Ok((vk, it)) => {
                &&& vk_fingerprint_spec(vk)@ == p.header.vk_fingerprint
                &&& p.header.zac_file_hash == z.file_hash
                &&& p.header.public_input_count == it.count
                &&& it.count <= MAX_PUBLIC_INPUTS
                &&& vk_result(vk) matches Ok(v) && v.gamma_abc_g1.len() == it.count + 1
                &&& proof_result(p.proof) is Ok
                &&& inputs_check(p.public_inputs, p.public_inputs.len()) is None
                &&& groth16_accepts(vk, p.proof, p.public_inputs) == Some(true)
            },
            Err(_) => false,
        },
{
}

proof fn lemma_inputs_check_stable(ins: Seq<Seq<u8>>, k: nat, k2: nat)
    requires
        inputs_check(ins, k) is Some,
        k <= k2,
    ensures
        inputs_check(ins, k2) == inputs_check(ins, k),
    decreases k2 - k,
{
    if k < k2 {
        lemma_inputs_check_stable(ins, k, (k2 - 1) as nat);
    }
}

/// Verify a parsed `.zacp` against a parsed `.zac`: `Ok(())` exactly when
/// every binding and decoding check passes and the pairing equation holds;
/// otherwise the first failure, in the order of the module documentation.
#[verifier::loop_isolation(false)]
pub fn verify(zac: &ZacFile, proof: &ZacProofFile) -> (r: ZacResult<()>)
    requires
        OFFSET_PUBLIC_INPUTS + 32 * proof.public_inputs@.len() <= usize::MAX,
    ensures
        r == verify_result(zac@, proof@),
        r is Ok ==> (vkey_and_interface(zac@.sections) matches Ok((_, it))
            && proof.public_inputs@.len() == it.count),
{
    let (vkey_bytes, iface) = match find_vkey_and_interface(zac) {
        Ok(x) => x,
        Err(e) => {
            return Err(e);
        },
    };
    let recomputed_fp = vk_fingerprint(vkey_bytes);
    if !bytes32_eq(&recomputed_fp, &proof.header.vk_fingerprint) {
        return Err(ZacError::VkFingerprintMismatch);
    }
    if !bytes32_eq(&proof.header.zac_file_hash, &zac.trailer.file_hash) {
        proof {
            lemma_to_arr32(zac.trailer.file_hash);
            lemma_to_arr32(proof.header.zac_file_hash);
        }
        return Err(
            ZacError::BadFileHash {
                trailer: zac.trailer.file_hash,
                computed: proof.header.zac_file_hash,
            },
        );
    }
    if proof.header.public_input_count != iface.public_input_count {
        return Err(
            ZacError::PublicInputCountMismatch {
                offset: 8,
                declared: proof.header.public_input_count as u64,
                expected: iface.public_input_count as u64,
            },
        );
    }
    if iface.public_input_count as usize > MAX_PUBLIC_INPUTS {
        return Err(
            ZacError::PublicInputCountMismatch {
                offset: 0,
                declared: iface.public_input_count as u64,
                expected: MAX_PUBLIC_INPUTS as u64,
            },
        );
    }
    let decoded_vk = match decode_vk(vkey_bytes) {
        Ok(v) => v,
        Err(e) => {
            return Err(e);
        },
    };
    let ic_len = decoded_vk.gamma_abc_g1.len();
    let expected_ic_len = iface.public_input_count as usize + 1;
    if ic_len != expected_ic_len {
        return Err(
            ZacError::PublicInputCountMismatch {
                offset: 0,
                declared: ic_len as u64,
                expected: expected_ic_len as u64,
            },
        );
    }
    match decode_proof(&proof.proof) {
        Ok(_) => {},
        Err(e) => {
            return Err(e);
        },
    }
    let ghost ins = proof@.public_inputs;
    let n = proof.public_inputs.len();
    let mut i: usize = 0;
    while i < n
        invariant
            n == proof.public_inputs@.len(),
            OFFSET_PUBLIC_INPUTS + 32 * n <= usize::MAX,
            ins == proof.public_inputs@.map_values(|a: [u8; 32]| a@),
            i <= n,
            inputs_check(ins, i as nat) is None,
        decreases n - i,
    {
        let off = OFFSET_PUBLIC_INPUTS + i * 32;
        match decode_fr_canonical(&proof.public_inputs[i], off, i) {
            Ok(_) => {},
            Err(e) => {
                proof {
                    lemma_inputs_check_stable(ins, (i + 1) as nat, n as nat);
                }
                return Err(e);
            },
        }
        i = i + 1;
    }
    match pairing_check(vkey_bytes, &proof.proof, proof.public_inputs.as_slice()) {
        Some(true) => Ok(()),
        Some(false) => Err(
            ZacError::ProofRejected { reason: "Groth16 pairing equation does not hold" },
        ),
        None => Err(ZacError::ProofRejected { reason: "arkworks verifier returned error (see trace)" }),
    }
}

} // verus!
