//! Turning a Groth16 proof into a `.zacp` bound to its container.
//!
//! Computing the three proof points (the multi-scalar multiplications and
//! the FFT over the evaluation domain) is not part of this library. What is
//! decided here is whether a witness fits the key before proving and, once
//! the points are known, which public inputs, hashes and bytes the `.zacp`
//! carries, and that the container's VKEY really is the key's verifying key.
use vstd::prelude::*;

use crate::error::{ZacError, ZacResult};
use crate::groth16::{G1Point, G2Point};
use crate::hash::{vk_fingerprint, vk_fingerprint_spec};
use crate::iden3::wtns::{Wtns, WtnsV};
use crate::iden3::zkey::{
    compress_g1, compress_g2, g1_compressed, g2_compressed, vkey_bytes_compressed, vkey_bytes_of,
    Zkey, ZkeyV,
};
use crate::proof_check::{checks_after_binding, interface_in, verify_result, vkey_in};
use crate::section::{section_type_of, InterfaceV, Section, SectionV};
use crate::wire::{push_slice, copy_array};
use crate::zac_file::{ZacFile, ZacFileV};
use crate::zac_proof::{ProofHeader, ProofHeaderV, ZacProofFile, ZacProofFileV};

verus! {

/// The field element one as 32 little-endian bytes.
pub open spec fn fr_one_bytes() -> Seq<u8> {
    seq![1u8] + Seq::new(31, |i: int| 0u8)
}

/// Whether a witness fits a proving key: one value per wire, the first
/// being the constant one.
pub open spec fn witness_result(n_vars: u32, values: Seq<Seq<u8>>) -> Result<(), ZacError> {
    if values.len() != n_vars {
        Err(
            ZacError::PublicInputCountMismatch {
                offset: 0,
                declared: values.len() as u64,
                expected: n_vars as u64,
            },
        )
    } else if values[0] != fr_one_bytes() {
        Err(ZacError::NonCanonicalFr { offset: 0, input_index: 0 })
    } else {
        Ok(())
    }
}

/// Check a witness against a proving key before proving (E013 for a wrong
/// length, E012 when wire 0 is not one).
pub fn check_witness(zkey: &Zkey, wtns: &Wtns) -> (r: ZacResult<()>)
    requires
        wtns.values@.len() > 0 || zkey.n_vars > 0,
    ensures
        r == witness_result(zkey.n_vars, wtns@.values),
{
    if wtns.values.len() != zkey.n_vars as usize {
        return Err(
            ZacError::PublicInputCountMismatch {
                offset: 0,
                declared: wtns.values.len() as u64,
                expected: zkey.n_vars as u64,
            },
        );
    }
    let v0 = &wtns.values[0];
    let mut is_one = v0[0] == 1;
    let mut k: usize = 1;
    while k < 32
        invariant
            1 <= k <= 32,
            v0@.len() == 32,
            is_one == (v0@[0] == 1 && forall|j: int| 1 <= j < k ==> v0@[j] == 0),
        decreases 32 - k,
    {
        if v0[k] != 0 {
            is_one = false;
        }
        k = k + 1;
    }
    assert(wtns@.values[0] == v0@);
    if !is_one {
        assert(v0@ != fr_one_bytes()) by {
            if v0@ == fr_one_bytes() {
                assert(v0@[0] == 1);
                assert forall|j: int| 1 <= j < 32 implies v0@[j] == 0 by {
                    assert(fr_one_bytes()[j] == 0);
                }
            }
        }
        return Err(ZacError::NonCanonicalFr { offset: 0, input_index: 0 });
    }
    assert(v0@ =~= fr_one_bytes());
    Ok(())
}

/// The first VKEY body among the sections from index `i` on.
pub open spec fn first_vkey_from(svs: Seq<SectionV>, i: int) -> Option<Seq<u8>>
    decreases svs.len() - i,
{
    if i < 0 || i >= svs.len() {
        None
    } else {
        match svs[i] {
            SectionV::Vkey(b) => Some(b),
            _ => first_vkey_from(svs, i + 1),
        }
    }
}

/// The compressed proof block of three points.
pub open spec fn proof_block(a: G1Point, b: G2Point, c: G1Point) -> Seq<u8> {
    g1_compressed(a)@ + g2_compressed(b)@ + g1_compressed(c)@
}

/// What `bind_proof` gives: the proof block, wires `1..=nPublic` as public
/// inputs, and the container's hashes, provided the container's (first)
/// VKEY is exactly the key's compressed verifying key.
pub open spec fn bind_result(
    z: ZacFileV,
    zk: ZkeyV,
    values: Seq<Seq<u8>>,
    a: G1Point,
    b: G2Point,
    c: G1Point,
) -> Result<ZacProofFileV, ZacError> {
    match first_vkey_from(z.sections, 0) {
        None => Err(ZacError::MissingMandatorySection { missing_type: 0x01, name: "VKEY" }),
        Some(vk) => if vkey_bytes_of(zk) != vk {
            Err(ZacError::VkFingerprintMismatch)
        } else {
            Ok(
                ZacProofFileV {
                    header: ProofHeaderV {
                        version_major: 1,
                        version_minor: 0,
                        version_patch: 0,
                        flags: 0,
                        public_input_count: zk.header.n_public,
                        zac_file_hash: z.file_hash,
                        vk_fingerprint: vk_fingerprint_spec(vk)@,
                    },
                    proof: proof_block(a, b, c),
                    public_inputs: values.subrange(1, zk.header.n_public + 1),
                },
            )
        },
    }
}

/// Whether two byte slices are equal.
fn slices_eq(a: &[u8], b: &[u8]) -> (r: bool)
    ensures
        r == (a@ == b@),
{
    if a.len() != b.len() {
        return false;
    }
    let mut i: usize = 0;
    while i < a.len()
        invariant
            a@.len() == b@.len(),
            i <= a@.len(),
            forall|j: int| 0 <= j < i ==> a@[j] == b@[j],
        decreases a@.len() - i,
    {
        if a[i] != b[i] {
            return false;
        }
        i = i + 1;
    }
    assert(a@ =~= b@);
    true
}

/// The public inputs of a bound proof are the witness wires `1..=nPublic`,
/// in order (wire 0 being the constant one), its header declares `nPublic`
/// of them, and it carries the container's file hash and the fingerprint
/// of the container's VKEY.
pub proof fn lemma_bound_public_inputs(
    z: ZacFileV,
    zk: ZkeyV,
    values: Seq<Seq<u8>>,
    a: G1Point,
    b: G2Point,
    c: G1Point,
)
    requires
        zk.header.n_public < values.len(),
    ensures
        bind_result(z, zk, values, a, b, c) matches Ok(p) ==> {
            &&& p.public_inputs.len() == zk.header.n_public
            &&& forall|i: int|
                0 <= i < zk.header.n_public ==> #[trigger] p.public_inputs[i] == values[i + 1]
            &&& p.header.public_input_count == zk.header.n_public
            &&& p.header.zac_file_hash == z.file_hash
            &&& first_vkey_from(z.sections, 0) matches Some(vk) && p.header.vk_fingerprint
                == vk_fingerprint_spec(vk)@
        },
{
}

/// A VKEY found from index `k` on stands at some index from `k` on.
proof fn lemma_first_vkey_at(svs: Seq<SectionV>, k: int) -> (i: int)
    requires
        first_vkey_from(svs, k) is Some,
    ensures
        k <= i < svs.len(),
        svs[i] == SectionV::Vkey(first_vkey_from(svs, k)->0),
    decreases svs.len() - k,
{
    match svs[k] {
        SectionV::Vkey(_) => k,
        _ => lemma_first_vkey_at(svs, k + 1),
    }
}

/// With the VKEY at index `i` the only one, the last VKEY among the first
/// `m > i` sections is that one.
proof fn lemma_only_vkey(svs: Seq<SectionV>, i: int, m: nat)
    requires
        0 <= i < m <= svs.len(),
        svs[i] is Vkey,
        forall|j: int| 0 <= j < svs.len() && j != i ==> !(#[trigger] svs[j] is Vkey),
    ensures
        vkey_in(svs, m) == Some(svs[i]->Vkey_0),
    decreases m,
{
    if m > i + 1 {
        lemma_only_vkey(svs, i, (m - 1) as nat);
    }
}

/// A proof bound to a container passes every binding check of `verify`:
/// for a container whose section types are pairwise distinct (as every
/// parsed one is) and whose INTERFACE declares the key's public-input
/// count, what `verify` answers for the `.zacp` that `bind_proof` builds is
/// decided by the key, the proof points, the public inputs and the pairing
/// alone — never E014, E009 or a count mismatch in the proof header.
pub proof fn lemma_bound_proof_passes_binding(
    z: ZacFileV,
    zk: ZkeyV,
    values: Seq<Seq<u8>>,
    a: G1Point,
    b: G2Point,
    c: G1Point,
    it: InterfaceV,
)
    requires
        forall|i: int, j: int|
            0 <= i < j < z.sections.len() ==> section_type_of(#[trigger] z.sections[i])
                != section_type_of(#[trigger] z.sections[j]),
        interface_in(z.sections, z.sections.len()) == Some(it),
        it.count == zk.header.n_public,
    ensures
        match bind_result(z, zk, values, a, b, c) {
            Ok(p) => verify_result(z, p) == checks_after_binding(vkey_bytes_of(zk), it, p),
            Err(_) => true,
        },
{
    let svs = z.sections;
    if let Ok(p) = bind_result(z, zk, values, a, b, c) {
        let i = lemma_first_vkey_at(svs, 0);
        assert forall|j: int| 0 <= j < svs.len() && j != i implies !(#[trigger] svs[j] is Vkey) by {
            if svs[j] is Vkey {
                if j < i {
                    assert(section_type_of(svs[j]) != section_type_of(svs[i]));
                } else {
                    assert(section_type_of(svs[i]) != section_type_of(svs[j]));
                }
            }
        }
        lemma_only_vkey(svs, i, svs.len());
    }
}

/// Wires `1..=n` of a witness, in order.
fn public_wires(values: &Vec<[u8; 32]>, n: usize) -> (r: Vec<[u8; 32]>)
    requires
        n < values@.len(),
    ensures
        r@ == values@.subrange(1, n + 1),
{
    let len = values.len();
    let mut out: Vec<[u8; 32]> = Vec::new();
    let mut i: usize = 1;
    while i <= n
        invariant
            n < len,
            len == values@.len(),
            1 <= i <= n + 1,
            out@ == values@.subrange(1, i as int),
        decreases n + 1 - i,
    {
        out.push(values[i]);
        assert(out@ =~= values@.subrange(1, i + 1));
        i = i + 1;
    }
    out
}

/// The first VKEY body of a container, if it has one.
fn first_vkey(zac: &ZacFile) -> (r: Option<&Vec<u8>>)
    ensures
        match r {
            Some(b) => first_vkey_from(zac@.sections, 0) == Some(b@),
            None => first_vkey_from(zac@.sections, 0) is None,
        },
{
    let ghost svs = zac@.sections;
    let mut k: usize = 0;
    while k < zac.sections.len()
        invariant
            k <= zac.sections@.len(),
            svs == zac.sections@.map_values(|s: Section| s@),
            first_vkey_from(svs, 0) == first_vkey_from(svs, k as int),
        decreases zac.sections@.len() - k,
    {
        let s = &zac.sections[k];
        assert(svs[k as int] == s@);
        if let Section::Vkey(body) = s {
            return Some(body);
        }
        k = k + 1;
    }
    None
}

/// Build the `.zacp` for the proof points `(a, b, c)` of a witness under a
/// proving key, bound to the container `zac`.
pub fn bind_proof(
    zac: &ZacFile,
    zkey: &Zkey,
    wtns: &Wtns,
    a: &G1Point,
    b: &G2Point,
    c: &G1Point,
) -> (r: ZacResult<ZacProofFile>)
    requires
        zkey.n_public < wtns.values@.len(),
    ensures
        match r {
            Ok(p) => bind_result(zac@, zkey@, wtns@.values, *a, *b, *c) == Ok::<
                ZacProofFileV,
                ZacError,
            >(p@),
            Err(e) => bind_result(zac@, zkey@, wtns@.values, *a, *b, *c) == Err::<
                ZacProofFileV,
                ZacError,
            >(e),
        },
        r matches Ok(p) ==> {
            &&& p.public_inputs@.len() == zkey.n_public
            &&& forall|i: int|
                0 <= i < zkey.n_public ==> (#[trigger] p.public_inputs@[i])@ == wtns@.values[i + 1]
            &&& p.header.public_input_count == zkey.n_public
            &&& p.header.zac_file_hash == zac.trailer.file_hash
            &&& p.proof@ == g1_compressed(*a)@ + g2_compressed(*b)@ + g1_compressed(*c)@
            &&& first_vkey_from(zac@.sections, 0) == Some(vkey_bytes_of(zkey@))
            &&& p.header.vk_fingerprint@ == vk_fingerprint_spec(vkey_bytes_of(zkey@))@
        },
{
    let mut block: Vec<u8> = Vec::new();
    let ca = compress_g1(a);
    push_slice(&mut block, ca.as_slice());
    let cb = compress_g2(b);
    push_slice(&mut block, cb.as_slice());
    let cc = compress_g1(c);
    push_slice(&mut block, cc.as_slice());
    let proof: [u8; 128] = copy_array(block.as_slice(), 0);
    assert(block@.subrange(0, 128) =~= block@);
    let n = zkey.n_public as usize;
    let public_inputs = public_wires(&wtns.values, n);
    let body = match first_vkey(zac) {
        Some(b) => b,
        None => {
            return Err(ZacError::MissingMandatorySection { missing_type: 0x01, name: "VKEY" });
        },
    };
    let fp = vk_fingerprint(body.as_slice());
    let zkey_vk = vkey_bytes_compressed(zkey);
    if !slices_eq(zkey_vk.as_slice(), body.as_slice()) {
        return Err(ZacError::VkFingerprintMismatch);
    }
    let count: u32 = zkey.n_public;
    let p = ZacProofFile {
        header: ProofHeader {
            version_major: 1,
            version_minor: 0,
            version_patch: 0,
            flags: 0,
            public_input_count: count,
            zac_file_hash: zac.trailer.file_hash,
            vk_fingerprint: fp,
        },
        proof,
        public_inputs,
    };
    assert(p@.public_inputs =~= wtns@.values.subrange(1, n + 1));
    proof {
        lemma_bound_public_inputs(zac@, zkey@, wtns@.values, *a, *b, *c);
        assert forall|i: int| 0 <= i < zkey.n_public implies (#[trigger] p.public_inputs@[i])@
            == wtns@.values[i + 1] by {
            assert(p@.public_inputs[i] == p.public_inputs@[i]@);
        }
    }
    Ok(p)
}

} // verus!
