//! `.zacp` proof files: an 80-byte header, a 128-byte proof block, then the
//! public inputs as 32-byte little-endian field elements.
use vstd::prelude::*;

use crate::error::{ZacError, ZacResult};
use crate::header::four;
use crate::wire::{
    concat_all, lemma_concat_all_push, lemma_concat_all_windows, copy_array, le_u32, lemma_le_u32_bytes, lemma_le_u32_frame, lemma_u32_roundtrip, push_slice,
    push_u32, push_zeros, read_u32, u32_bytes, zeros,
};

verus! {

/// Size of the proof block in bytes (32 + 64 + 32).
pub const PROOF_SIZE: usize = 128;

/// `"ZAP1"`.
pub const MAGIC_ZACP: [u8; 4] = [0x5a, 0x41, 0x50, 0x31];

/// Fixed prefix size before public inputs (header + proof).
pub const PROOF_PREFIX_SIZE: usize = 0xD0;

/// Maximum allowed public-input count.
pub const MAX_PUBLIC_INPUTS: usize = 4096;

/// Parsed `.zacp` header.
#[derive(Debug, Clone, PartialEq, Eq)]
pub struct ProofHeader {
    /// Major version.
    pub version_major: u8,
    /// Minor version.
    pub version_minor: u8,
    /// Patch version.
    pub version_patch: u8,
    /// Flags. MUST be 0 in v1.0.
    pub flags: u8,
    /// Number of public inputs (0..=4096).
    pub public_input_count: u32,
    /// BLAKE3 hash of the bound `.zac`.
    pub zac_file_hash: [u8; 32],
    /// BLAKE3 fingerprint of the VKEY body.
    pub vk_fingerprint: [u8; 32],
}

/// Fully-parsed `.zacp` file.
#[derive(Debug, Clone, PartialEq, Eq)]
pub struct ZacProofFile {
    /// Header.
    pub header: ProofHeader,
    /// 128-byte proof block (`pi_a || pi_b || pi_c`, compressed).
    pub proof: [u8; PROOF_SIZE],
    /// Public inputs as raw 32-byte little-endian chunks.
    pub public_inputs: Vec<[u8; 32]>,
}

/// The mathematical content of a `.zacp` header.
pub struct ProofHeaderV {
    /// Major version.
    pub version_major: u8,
    /// Minor version.
    pub version_minor: u8,
    /// Patch version.
    pub version_patch: u8,
    /// Flags.
    pub flags: u8,
    /// Declared public-input count.
    pub public_input_count: u32,
    /// Bound `.zac` file hash.
    pub zac_file_hash: Seq<u8>,
    /// VKEY fingerprint.
    pub vk_fingerprint: Seq<u8>,
}

/// The mathematical content of a `.zacp` file.
pub struct ZacProofFileV {
    /// Header.
    pub header: ProofHeaderV,
    /// Proof block bytes.
    pub proof: Seq<u8>,
    /// Public inputs, 32 bytes each.
    pub public_inputs: Seq<Seq<u8>>,
}

impl View for ProofHeader {
    type V = ProofHeaderV;

    open spec fn view(&self) -> ProofHeaderV {
        ProofHeaderV {
            version_major: self.version_major,
            version_minor: self.version_minor,
            version_patch: self.version_patch,
            flags: self.flags,
            public_input_count: self.public_input_count,
            zac_file_hash: self.zac_file_hash@,
            vk_fingerprint: self.vk_fingerprint@,
        }
    }
}

impl View for ZacProofFile {
    type V = ZacProofFileV;

    open spec fn view(&self) -> ZacProofFileV {
        ZacProofFileV {
            header: self.header@,
            proof: self.proof@,
            public_inputs: self.public_inputs@.map_values(|a: [u8; 32]| a@),
        }
    }
}

/// `"ZAP1"`.
pub open spec fn magic_zacp() -> Seq<u8> {
    seq![0x5au8, 0x41, 0x50, 0x31]
}

/// The error `ZacProofFile::parse` returns for `s`, if any.
pub open spec fn zacp_error(s: Seq<u8>) -> Option<ZacError> {
    if s.len() < 0xD0 {
        Some(ZacError::Truncated { offset: 0, need: 0xD0, have: s.len() as usize })
    } else if s.subrange(0, 4) != magic_zacp() {
        Some(ZacError::BadMagic { offset: 0, expected: "ZAP1", got: four(s, 0) })
    } else if s[4] != 1 {
        Some(ZacError::UnsupportedVersion { offset: 4, major: s[4], minor: s[5], patch: s[6] })
    } else if s[7] != 0 {
        Some(ZacError::BadFlags { offset: 7, field: "flags", value: s[7] as u64 })
    } else if le_u32(s, 8) > 4096 {
        Some(
            ZacError::PublicInputCountMismatch {
                offset: 8,
                declared: le_u32(s, 8) as u64,
                expected: 4096,
            },
        )
    } else if le_u32(s, 12) != 0 {
        Some(ZacError::BadFlags { offset: 12, field: "_reserved", value: le_u32(s, 12) as u64 })
    } else if s.len() != 0xD0 + 32 * le_u32(s, 8) {
        Some(
            ZacError::Truncated {
                offset: 0xD0,
                need: (32 * le_u32(s, 8)) as usize,
                have: (s.len() - 0xD0) as usize,
            },
        )
    } else {
        None
    }
}

/// The content a well-formed `.zacp` byte string carries.
pub open spec fn zacp_content(s: Seq<u8>) -> ZacProofFileV {
    ZacProofFileV {
        header: ProofHeaderV {
            version_major: s[4],
            version_minor: s[5],
            version_patch: s[6],
            flags: s[7],
            public_input_count: le_u32(s, 8),
            zac_file_hash: s.subrange(16, 48),
            vk_fingerprint: s.subrange(48, 80),
        },
        proof: s.subrange(80, 208),
        public_inputs: Seq::new(
            le_u32(s, 8) as nat,
            |i: int| s.subrange(0xD0 + 32 * i, 0xD0 + 32 * i + 32),
        ),
    }
}

/// The bytes `ZacProofFile::encode` writes: the count field is the number of
/// public inputs actually present.
pub open spec fn zacp_bytes(p: ZacProofFileV) -> Seq<u8> {
    magic_zacp() + seq![
        p.header.version_major,
        p.header.version_minor,
        p.header.version_patch,
        p.header.flags,
    ] + u32_bytes(p.public_inputs.len() as u32) + zeros(4) + p.header.zac_file_hash
        + p.header.vk_fingerprint + p.proof + concat_all(p.public_inputs)
}

impl ZacProofFile {
    /// Parse a `.zacp` byte stream.
    pub fn parse(bytes: &[u8]) -> (r: ZacResult<ZacProofFile>)
        ensures
            match r {
                Ok(p) => zacp_error(bytes@) is None && p@ == zacp_content(bytes@),
                Err(e) => zacp_error(bytes@) == Some(e),
            },
    {
        if bytes.len() < PROOF_PREFIX_SIZE {
            return Err(
                ZacError::Truncated { offset: 0, need: PROOF_PREFIX_SIZE, have: bytes.len() },
            );
        }
        let magic: [u8; 4] = [bytes[0], bytes[1], bytes[2], bytes[3]];
        if !(bytes[0] == 0x5a && bytes[1] == 0x41 && bytes[2] == 0x50 && bytes[3] == 0x31) {
            proof {
                if bytes@.subrange(0, 4) == magic_zacp() {
                    assert(bytes@[0] == bytes@.subrange(0, 4)[0]);
                    assert(bytes@[1] == bytes@.subrange(0, 4)[1]);
                    assert(bytes@[2] == bytes@.subrange(0, 4)[2]);
                    assert(bytes@[3] == bytes@.subrange(0, 4)[3]);
                }
            }
            return Err(ZacError::BadMagic { offset: 0, expected: "ZAP1", got: magic });
        }
        assert(bytes@.subrange(0, 4) =~= magic_zacp());
        let major = bytes[4];
        let minor = bytes[5];
        let patch = bytes[6];
        let flags = bytes[7];
        if major != 1 {
            return Err(ZacError::UnsupportedVersion { offset: 4, major, minor, patch });
        }
        if flags != 0 {
            return Err(ZacError::BadFlags { offset: 7, field: "flags", value: flags as u64 });
        }
        let public_input_count = read_u32(bytes, 8);
        if public_input_count as usize > MAX_PUBLIC_INPUTS {
            return Err(
                ZacError::PublicInputCountMismatch {
                    offset: 8,
                    declared: public_input_count as u64,
                    expected: MAX_PUBLIC_INPUTS as u64,
                },
            );
        }
        let reserved = read_u32(bytes, 12);
        if reserved != 0 {
            return Err(ZacError::BadFlags { offset: 12, field: "_reserved", value: reserved as u64 });
        }
        let zac_file_hash: [u8; 32] = copy_array(bytes, 16);
        let vk_fingerprint: [u8; 32] = copy_array(bytes, 48);
        let proof: [u8; PROOF_SIZE] = copy_array(bytes, 80);
        let n = public_input_count as usize;
        let expected_len = PROOF_PREFIX_SIZE + 32 * n;
        if bytes.len() != expected_len {
            return Err(
                ZacError::Truncated {
                    offset: PROOF_PREFIX_SIZE,
                    need: expected_len - PROOF_PREFIX_SIZE,
                    have: bytes.len() - PROOF_PREFIX_SIZE,
                },
            );
        }
        let mut public_inputs: Vec<[u8; 32]> = Vec::new();
        let mut i: usize = 0;
        while i < n
            invariant
                n <= 4096,
                bytes@.len() == 0xD0 + 32 * n,
                i <= n,
                public_inputs@.len() == i,
                forall|j: int|
                    0 <= j < i ==> (#[trigger] public_inputs@[j])@ == bytes@.subrange(
                        0xD0 + 32 * j,
                        0xD0 + 32 * j + 32,
                    ),
            decreases n - i,
        {
            let off = PROOF_PREFIX_SIZE + i * 32;
            let buf: [u8; 32] = copy_array(bytes, off);
            public_inputs.push(buf);
            i = i + 1;
        }
        let r = ZacProofFile {
            header: ProofHeader {
                version_major: major,
                version_minor: minor,
                version_patch: patch,
                flags,
                public_input_count,
                zac_file_hash,
                vk_fingerprint,
            },
            proof,
            public_inputs,
        };
        assert(r@.public_inputs =~= zacp_content(bytes@).public_inputs);
        Ok(r)
    }

    /// Encode to bytes. The count field is taken from
    /// `public_inputs.len()`, so it always matches the inputs present.
    pub fn encode(&self) -> (r: Vec<u8>)
        requires
            self.public_inputs@.len() <= u32::MAX,
        ensures
            r@ == zacp_bytes(self@),
    {
        let n = self.public_inputs.len();
        let mut out: Vec<u8> = Vec::new();
        out.push(0x5a);
        out.push(0x41);
        out.push(0x50);
        out.push(0x31);
        out.push(self.header.version_major);
        out.push(self.header.version_minor);
        out.push(self.header.version_patch);
        out.push(self.header.flags);
        push_u32(&mut out, n as u32);
        push_zeros(&mut out, 4);
        push_slice(&mut out, self.header.zac_file_hash.as_slice());
        push_slice(&mut out, self.header.vk_fingerprint.as_slice());
        push_slice(&mut out, self.proof.as_slice());
        let ghost prefix = out@;
        let ghost ins = self@.public_inputs;
        let mut i: usize = 0;
        while i < n
            invariant
                n == self.public_inputs@.len(),
                ins == self.public_inputs@.map_values(|a: [u8; 32]| a@),
                i <= n,
                out@ == prefix + concat_all(ins.take(i as int)),
            decreases n - i,
        {
            push_slice(&mut out, self.public_inputs[i].as_slice());
            proof {
                assert(ins.take(i + 1) =~= ins.take(i as int).push(ins[i as int]));
                lemma_concat_all_push(ins.take(i as int), ins[i as int]);
            }
            i = i + 1;
        }
        assert(ins.take(n as int) =~= ins);
        assert(out@ =~= zacp_bytes(self@));
        out
    }
}

/// What `ZacProofFile::encode` writes, field by field: `ZAP1`, the version
/// and flags bytes, the number of inputs, four zero bytes, the two hashes,
/// the proof block, then each input in its 32-byte window from `0xD0`.
pub proof fn lemma_zacp_layout(p: ZacProofFileV)
    requires
        p.header.zac_file_hash.len() == 32,
        p.header.vk_fingerprint.len() == 32,
        p.proof.len() == 128,
        p.public_inputs.len() <= u32::MAX,
        forall|i: int| 0 <= i < p.public_inputs.len() ==> (#[trigger] p.public_inputs[i]).len() == 32,
    ensures
        ({
            let s = zacp_bytes(p);
            let n = p.public_inputs.len();
            &&& s.len() == 0xD0 + 32 * n
            &&& s.subrange(0, 4) == magic_zacp()
            &&& s.subrange(4, 8) == seq![
                p.header.version_major,
                p.header.version_minor,
                p.header.version_patch,
                p.header.flags,
            ]
            &&& le_u32(s, 8) == n
            &&& s.subrange(12, 16) == zeros(4)
            &&& s.subrange(16, 48) == p.header.zac_file_hash
            &&& s.subrange(48, 80) == p.header.vk_fingerprint
            &&& s.subrange(80, 208) == p.proof
            &&& forall|i: int|
                0 <= i < n ==> s.subrange(0xD0 + 32 * i, 0xD0 + 32 * i + 32)
                    == #[trigger] p.public_inputs[i]
        }),
{
    let s = zacp_bytes(p);
    let n = p.public_inputs.len();
    lemma_u32_roundtrip(n as u32);
    lemma_concat_all_windows(p.public_inputs);
    assert(s.subrange(0, 4) =~= magic_zacp());
    assert(s.subrange(4, 8) =~= seq![
        p.header.version_major,
        p.header.version_minor,
        p.header.version_patch,
        p.header.flags,
    ]);
    assert(s.subrange(8, 12) =~= u32_bytes(n as u32));
    assert(u32_bytes(n as u32).subrange(0, 4) =~= u32_bytes(n as u32));
    lemma_le_u32_frame(s, u32_bytes(n as u32), 8, 0);
    assert(s.subrange(12, 16) =~= zeros(4));
    assert(s.subrange(16, 48) =~= p.header.zac_file_hash);
    assert(s.subrange(48, 80) =~= p.header.vk_fingerprint);
    assert(s.subrange(80, 208) =~= p.proof);
    let c = concat_all(p.public_inputs);
    assert forall|i: int| 0 <= i < n implies s.subrange(0xD0 + 32 * i, 0xD0 + 32 * i + 32)
        == #[trigger] p.public_inputs[i] by {
        assert(s.subrange(0xD0 + 32 * i, 0xD0 + 32 * i + 32) =~= c.subrange(32 * i, 32 * i + 32));
    }
}

/// Encoding a `.zacp` with a supported header and at most 4096 32-byte
/// inputs, then parsing, gives back the same content (the count field now
/// equal to the number of inputs).
pub proof fn lemma_zacp_encode_parse(p: ZacProofFileV)
    requires
        p.header.version_major == 1,
        p.header.flags == 0,
        p.header.zac_file_hash.len() == 32,
        p.header.vk_fingerprint.len() == 32,
        p.proof.len() == 128,
        p.public_inputs.len() <= 4096,
        forall|i: int| 0 <= i < p.public_inputs.len() ==> (#[trigger] p.public_inputs[i]).len() == 32,
    ensures
        zacp_error(zacp_bytes(p)) is None,
        zacp_content(zacp_bytes(p)) == (ZacProofFileV {
            header: ProofHeaderV { public_input_count: p.public_inputs.len() as u32, ..p.header },
            ..p
        }),
{
    let s = zacp_bytes(p);
    let n = p.public_inputs.len();
    lemma_u32_roundtrip(n as u32);
    lemma_concat_all_windows(p.public_inputs);
    assert(s.subrange(0, 4) =~= magic_zacp());
    assert(s.subrange(8, 12) =~= u32_bytes(n as u32));
    assert(u32_bytes(n as u32).subrange(0, 4) =~= u32_bytes(n as u32));
    lemma_le_u32_frame(s, u32_bytes(n as u32), 8, 0);
    assert(le_u32(s, 12) == 0);
    assert(s.subrange(16, 48) =~= p.header.zac_file_hash);
    assert(s.subrange(48, 80) =~= p.header.vk_fingerprint);
    assert(s.subrange(80, 208) =~= p.proof);
    let c = concat_all(p.public_inputs);
    assert forall|i: int| 0 <= i < n implies s.subrange(0xD0 + 32 * i, 0xD0 + 32 * i + 32)
        == p.public_inputs[i] by {
        assert(s.subrange(0xD0 + 32 * i, 0xD0 + 32 * i + 32) =~= c.subrange(32 * i, 32 * i + 32));
    }
    assert(zacp_content(s).public_inputs =~= p.public_inputs);
}

/// A `.zacp` the parser accepts is canonical: encoding what it carries gives
/// back exactly the bytes it was read from.
pub proof fn lemma_zacp_parse_encode(s: Seq<u8>)
    requires
        zacp_error(s) is None,
    ensures
        zacp_bytes(zacp_content(s)) == s,
{
    let p = zacp_content(s);
    let n = le_u32(s, 8);
    lemma_le_u32_bytes(s, 8);
    lemma_le_u32_bytes(s, 12);
    assert forall|i: int| 0 <= i < p.public_inputs.len() implies (#[trigger] p.public_inputs[i]).len()
        == 32 by {}
    lemma_concat_all_windows(p.public_inputs);
    let c = concat_all(p.public_inputs);
    let tail = s.subrange(0xD0, s.len() as int);
    assert(c.len() == tail.len());
    assert forall|k: int| 0 <= k < c.len() implies c[k] == tail[k] by {
        let i = k / 32;
        assert(0 <= i < n);
        assert(c.subrange(32 * i, 32 * i + 32)[k - 32 * i] == c[k]);
        assert(p.public_inputs[i][k - 32 * i] == s[0xD0 + k]);
    }
    assert(c =~= tail);
    assert(s.subrange(12, 16) =~= u32_bytes(0));
    assert(zacp_bytes(p) =~= s);
}

} // verus!
