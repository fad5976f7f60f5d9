//! BLAKE3 helpers with mandatory domain separation.
//!
//! Every tag is NUL-terminated ASCII and the trailing NUL is part of the hash
//! input, so no domain's input is a prefix of another's.
use vstd::prelude::*;

use crate::wire::push_slice;

verus! {

/// The 32-byte BLAKE3 hash of `data` (named, not stated).
pub uninterp spec fn blake3_spec(data: Seq<u8>) -> [u8; 32];

/// BLAKE3 of `data`.
///
/// Calls `blake3::hash`; the contract claims only that the 32 returned
/// bytes are `blake3_spec(data)`, a fixed function of the input bytes.
#[verifier::external_body]
fn blake3_digest(data: &[u8]) -> (r: [u8; 32])
    ensures
        r == blake3_spec(data@),
{
    *blake3::hash(data).as_bytes()
}

/// `"zac1.file.v1\0"`.
pub open spec fn tag_file() -> Seq<u8> {
    seq![0x7au8, 0x61, 0x63, 0x31, 0x2e, 0x66, 0x69, 0x6c, 0x65, 0x2e, 0x76, 0x31, 0x00]
}

/// `"zac1.vkey.v1\0"`.
pub open spec fn tag_vkey() -> Seq<u8> {
    seq![0x7au8, 0x61, 0x63, 0x31, 0x2e, 0x76, 0x6b, 0x65, 0x79, 0x2e, 0x76, 0x31, 0x00]
}

/// `"zac1.r1cs.v1\0"`.
pub open spec fn tag_r1cs() -> Seq<u8> {
    seq![0x7au8, 0x61, 0x63, 0x31, 0x2e, 0x72, 0x31, 0x63, 0x73, 0x2e, 0x76, 0x31, 0x00]
}

/// `file_hash = BLAKE3("zac1.file.v1\0" || version_bytes || body_bytes)`.
pub open spec fn file_hash_spec(version_bytes: Seq<u8>, body_bytes: Seq<u8>) -> [u8; 32] {
    blake3_spec(tag_file() + version_bytes + body_bytes)
}

/// `vk_fingerprint = BLAKE3("zac1.vkey.v1\0" || vkey_bytes)`.
pub open spec fn vk_fingerprint_spec(vkey_bytes: Seq<u8>) -> [u8; 32] {
    blake3_spec(tag_vkey() + vkey_bytes)
}

/// `r1cs_hash = BLAKE3("zac1.r1cs.v1\0" || r1cs_bytes)`.
pub open spec fn r1cs_hash_spec(r1cs_bytes: Seq<u8>) -> [u8; 32] {
    blake3_spec(tag_r1cs() + r1cs_bytes)
}

fn push_tag(out: &mut Vec<u8>, kind: u8)
    requires
        kind <= 2,
    ensures
        final(out)@ == old(out)@ + (if kind == 0 {
            tag_file()
        } else if kind == 1 {
            tag_vkey()
        } else {
            tag_r1cs()
        }),
{
    let ghost start = out@;
    out.push(0x7a);
    out.push(0x61);
    out.push(0x63);
    out.push(0x31);
    out.push(0x2e);
    if kind == 0 {
        out.push(0x66);
        out.push(0x69);
        out.push(0x6c);
        out.push(0x65);
    } else if kind == 1 {
        out.push(0x76);
        out.push(0x6b);
        out.push(0x65);
        out.push(0x79);
    } else {
        out.push(0x72);
        out.push(0x31);
        out.push(0x63);
        out.push(0x73);
    }
    out.push(0x2e);
    out.push(0x76);
    out.push(0x31);
    out.push(0x00);
    assert(out@ =~= start + (if kind == 0 {
        tag_file()
    } else if kind == 1 {
        tag_vkey()
    } else {
        tag_r1cs()
    }));
}

/// `file_hash = BLAKE3("zac1.file.v1\0" || version_bytes || body_bytes)`.
///
/// `version_bytes` is `[0x04, 0x08)` of the `.zac`; `body_bytes` is the file
/// from `0x20` up to (excluding) the trailer.
pub fn file_hash(version_bytes: &[u8], body_bytes: &[u8]) -> (r: [u8; 32])
    ensures
        r == file_hash_spec(version_bytes@, body_bytes@),
        r == blake3_spec(seq![0x7au8, 0x61, 0x63, 0x31, 0x2e, 0x66, 0x69, 0x6c, 0x65, 0x2e, 0x76, 0x31, 0x00] + version_bytes@ + body_bytes@),
{
    let mut buf: Vec<u8> = Vec::new();
    push_tag(&mut buf, 0);
    push_slice(&mut buf, version_bytes);
    push_slice(&mut buf, body_bytes);
    assert(buf@ =~= tag_file() + version_bytes@ + body_bytes@);
    proof {
        lemma_hash_inputs(version_bytes@, body_bytes@, Seq::empty());
    }
    blake3_digest(buf.as_slice())
}

/// `vk_fingerprint = BLAKE3("zac1.vkey.v1\0" || vkey_bytes)`.
pub fn vk_fingerprint(vkey_bytes: &[u8]) -> (r: [u8; 32])
    ensures
        r == vk_fingerprint_spec(vkey_bytes@),
        r == blake3_spec(seq![0x7au8, 0x61, 0x63, 0x31, 0x2e, 0x76, 0x6b, 0x65, 0x79, 0x2e, 0x76, 0x31, 0x00] + vkey_bytes@),
{
    let mut buf: Vec<u8> = Vec::new();
    push_tag(&mut buf, 1);
    push_slice(&mut buf, vkey_bytes);
    proof {
        lemma_hash_inputs(Seq::empty(), Seq::empty(), vkey_bytes@);
    }
    blake3_digest(buf.as_slice())
}

/// `r1cs_hash = BLAKE3("zac1.r1cs.v1\0" || r1cs_bytes)`.
pub fn r1cs_hash(r1cs_bytes: &[u8]) -> (r: [u8; 32])
    ensures
        r == r1cs_hash_spec(r1cs_bytes@),
        r == blake3_spec(seq![0x7au8, 0x61, 0x63, 0x31, 0x2e, 0x72, 0x31, 0x63, 0x73, 0x2e, 0x76, 0x31, 0x00] + r1cs_bytes@),
{
    let mut buf: Vec<u8> = Vec::new();
    push_tag(&mut buf, 2);
    push_slice(&mut buf, r1cs_bytes);
    proof {
        lemma_hash_inputs(Seq::empty(), Seq::empty(), r1cs_bytes@);
    }
    blake3_digest(buf.as_slice())
}

/// Domain separation: the hash inputs of the three domains never coincide,
/// whatever bytes follow the tags, because the tags are equally long and
/// differ at byte 5.
pub proof fn lemma_domain_inputs_differ(a: Seq<u8>, b: Seq<u8>, c: Seq<u8>, d: Seq<u8>)
    ensures
        tag_file() + a + b != tag_vkey() + c,
        tag_file() + a + b != tag_r1cs() + c,
        tag_vkey() + c != tag_r1cs() + d,
{
    assert((tag_file() + a + b)[5] == 0x66);
    assert((tag_vkey() + c)[5] == 0x76);
    assert((tag_r1cs() + c)[5] == 0x72);
    assert((tag_r1cs() + d)[5] == 0x72);
}

/// What each digest hashes, with its domain tag written out byte by byte:
/// `file_hash` hashes `"zac1.file.v1\0"`, the version bytes and the body,
/// `vk_fingerprint` hashes `"zac1.vkey.v1\0"` and the key, `r1cs_hash`
/// hashes `"zac1.r1cs.v1\0"` and the R1CS bytes.
pub proof fn lemma_hash_inputs(version_bytes: Seq<u8>, body_bytes: Seq<u8>, x: Seq<u8>)
    ensures
        file_hash_spec(version_bytes, body_bytes) == blake3_spec(seq![0x7au8, 0x61, 0x63, 0x31, 0x2e, 0x66, 0x69, 0x6c, 0x65, 0x2e, 0x76, 0x31, 0x00] + version_bytes + body_bytes),
        vk_fingerprint_spec(x) == blake3_spec(seq![0x7au8, 0x61, 0x63, 0x31, 0x2e, 0x76, 0x6b, 0x65, 0x79, 0x2e, 0x76, 0x31, 0x00] + x),
        r1cs_hash_spec(x) == blake3_spec(seq![0x7au8, 0x61, 0x63, 0x31, 0x2e, 0x72, 0x31, 0x63, 0x73, 0x2e, 0x76, 0x31, 0x00] + x),
{
    assert(tag_file() =~= seq![0x7au8, 0x61, 0x63, 0x31, 0x2e, 0x66, 0x69, 0x6c, 0x65, 0x2e, 0x76, 0x31, 0x00]);
    assert(tag_vkey() =~= seq![0x7au8, 0x61, 0x63, 0x31, 0x2e, 0x76, 0x6b, 0x65, 0x79, 0x2e, 0x76, 0x31, 0x00]);
    assert(tag_r1cs() =~= seq![0x7au8, 0x61, 0x63, 0x31, 0x2e, 0x72, 0x31, 0x63, 0x73, 0x2e, 0x76, 0x31, 0x00]);
}

} // verus!
