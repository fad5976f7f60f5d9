//! `.zac` header: the fixed 32-byte record at offset 0.
//!
//! Every field is validated eagerly so a malformed container is refused
//! before any work is spent on its index or bodies.
use vstd::prelude::*;

use crate::error::{ZacError, ZacResult};
use crate::wire::{
    all_zero, first_nonzero, first_nonzero_from, le_u16, le_u32, lemma_first_nonzero,
    lemma_le_u16_bytes, lemma_le_u32_bytes, lemma_le_u32_frame, lemma_u16_roundtrip,
    lemma_u32_roundtrip, read_u16, read_u32, u16_bytes, u32_bytes, zeros,
};

verus! {

/// Total header size in bytes.
pub const HEADER_SIZE: usize = 32;

/// `"ZAC1"`.
pub const MAGIC_ZAC: [u8; 4] = [0x5a, 0x41, 0x43, 0x31];

/// Mandatory `index_offset` value.
pub const INDEX_OFFSET: u32 = 0x20;

/// Maximum number of sections allowed in v1.0.
pub const MAX_SECTIONS: usize = 16;

/// Parsed representation of the 32-byte `.zac` header.
#[derive(Debug, Clone, PartialEq, Eq, Structural)]
pub struct Header {
    /// Major version byte. Always `1` in v1.0.
    pub version_major: u8,
    /// Minor version byte.
    pub version_minor: u8,
    /// Patch version byte.
    pub version_patch: u8,
    /// Flags byte. MUST be 0 in v1.0.
    pub flags: u8,
    /// Number of section index entries (1..=16).
    pub section_count: u16,
    /// Offset of the first section body.
    pub body_offset: u32,
    /// Total length of all section bodies plus padding.
    pub body_size: u32,
}

/// `"ZAC1"`.
pub open spec fn magic_zac() -> Seq<u8> {
    seq![0x5au8, 0x41, 0x43, 0x31]
}

/// The four bytes at `s[off..off + 4]` as an array.
pub open spec fn four(s: Seq<u8>, off: int) -> [u8; 4] {
    [s[off], s[off + 1], s[off + 2], s[off + 3]]
}

/// What `Header::parse` returns for the bytes `s`.
pub open spec fn header_result(s: Seq<u8>) -> Result<Header, ZacError> {
    if s.len() < 32 {
        Err(ZacError::Truncated { offset: 0, need: 32, have: s.len() as usize })
    } else if s.subrange(0, 4) != magic_zac() {
        Err(ZacError::BadMagic { offset: 0, expected: "ZAC1", got: four(s, 0) })
    } else if s[4] != 1 {
        Err(ZacError::UnsupportedVersion { offset: 4, major: s[4], minor: s[5], patch: s[6] })
    } else if s[7] != 0 {
        Err(ZacError::BadFlags { offset: 7, field: "flags", value: s[7] as u64 })
    } else if le_u16(s, 8) == 0 || le_u16(s, 8) > 16 {
        Err(ZacError::BadFlags { offset: 8, field: "section_count", value: le_u16(s, 8) as u64 })
    } else if le_u16(s, 10) != 0 {
        Err(ZacError::BadFlags { offset: 10, field: "_reserved", value: le_u16(s, 10) as u64 })
    } else if le_u32(s, 12) != 0x20 {
        Err(ZacError::BadAlignment { offset: 12, reason: "index_offset must be 0x20" })
    } else if le_u32(s, 16) % 8 != 0 {
        Err(ZacError::BadAlignment { offset: 16, reason: "body_offset must be 8-aligned" })
    } else if let Some(i) = first_nonzero_from(s, 24, 32) {
        Err(ZacError::BadFlags { offset: i as usize, field: "_reserved2", value: s[i] as u64 })
    } else {
        Ok(
            Header {
                version_major: s[4],
                version_minor: s[5],
                version_patch: s[6],
                flags: s[7],
                section_count: le_u16(s, 8),
                body_offset: le_u32(s, 16),
                body_size: le_u32(s, 20),
            },
        )
    }
}

/// The 32 bytes `Header::encode` writes for `h`.
pub open spec fn header_bytes(h: Header) -> Seq<u8> {
    magic_zac() + seq![h.version_major, h.version_minor, h.version_patch, h.flags] + u16_bytes(
        h.section_count,
    ) + seq![0u8, 0u8] + u32_bytes(0x20) + u32_bytes(h.body_offset) + u32_bytes(h.body_size)
        + zeros(8)
}

/// A header that v1.0 accepts: version 1, no flags, 1..=16 sections and an
/// 8-aligned body offset.
pub open spec fn header_valid(h: Header) -> bool {
    &&& h.version_major == 1
    &&& h.flags == 0
    &&& 1 <= h.section_count <= 16
    &&& h.body_offset % 8 == 0
}

impl Header {
    /// Parse the 32-byte header from the start of `bytes`.
    pub fn parse(bytes: &[u8]) -> (r: ZacResult<Header>)
        ensures
            r == header_result(bytes@),
    {
        if bytes.len() < HEADER_SIZE {
            return Err(ZacError::Truncated { offset: 0, need: HEADER_SIZE, have: bytes.len() });
        }
        let magic: [u8; 4] = [bytes[0], bytes[1], bytes[2], bytes[3]];
        if !(bytes[0] == 0x5a && bytes[1] == 0x41 && bytes[2] == 0x43 && bytes[3] == 0x31) {
            proof {
                if bytes@.subrange(0, 4) == magic_zac() {
                    assert(bytes@[0] == bytes@.subrange(0, 4)[0]);
                    assert(bytes@[1] == bytes@.subrange(0, 4)[1]);
                    assert(bytes@[2] == bytes@.subrange(0, 4)[2]);
                    assert(bytes@[3] == bytes@.subrange(0, 4)[3]);
                }
            }
            return Err(ZacError::BadMagic { offset: 0, expected: "ZAC1", got: magic });
        }
        assert(bytes@.subrange(0, 4) =~= magic_zac());
        let major = bytes[4];
        let minor = bytes[5];
        let patch = bytes[6];
        let flags = bytes[7];
        if major != 1 {
            return Err(ZacError::UnsupportedVersion { offset: 4, major, minor, patch });
        }
        if flags != 0 {
            return Err(ZacError::BadFlags { offset: 7, field: "flags", value: flags as u64 });
        }
        let section_count = read_u16(bytes, 8);
        if section_count == 0 || section_count as usize > MAX_SECTIONS {
            return Err(
                ZacError::BadFlags {
                    offset: 8,
                    field: "section_count",
                    value: section_count as u64,
                },
            );
        }
        let reserved_a = read_u16(bytes, 10);
        if reserved_a != 0 {
            return Err(
                ZacError::BadFlags { offset: 10, field: "_reserved", value: reserved_a as u64 },
            );
        }
        let index_offset = read_u32(bytes, 12);
        if index_offset != INDEX_OFFSET {
            return Err(ZacError::BadAlignment { offset: 12, reason: "index_offset must be 0x20" });
        }
        let body_offset = read_u32(bytes, 16);
        if body_offset % 8 != 0 {
            return Err(
                ZacError::BadAlignment { offset: 16, reason: "body_offset must be 8-aligned" },
            );
        }
        let body_size = read_u32(bytes, 20);
        match first_nonzero(bytes, 24, 32) {
            Some(i) => {
                return Err(
                    ZacError::BadFlags { offset: i, field: "_reserved2", value: bytes[i] as u64 },
                );
            },
            None => {},
        }
        Ok(
            Header {
                version_major: major,
                version_minor: minor,
                version_patch: patch,
                flags,
                section_count,
                body_offset,
                body_size,
            },
        )
    }

    /// Serialise the header to its fixed 32 bytes (the index offset is always
    /// `0x20`, reserved bytes are zero).
    pub fn encode(&self) -> (r: [u8; HEADER_SIZE])
        ensures
            r@ == header_bytes(*self),
    {
        let sc = self.section_count;
        let bo = self.body_offset;
        let bs = self.body_size;
        let r: [u8; HEADER_SIZE] = [
            0x5a,
            0x41,
            0x43,
            0x31,
            self.version_major,
            self.version_minor,
            self.version_patch,
            self.flags,
            (sc % 256) as u8,
            (sc / 256) as u8,
            0,
            0,
            0x20,
            0,
            0,
            0,
            (bo % 256) as u8,
            ((bo / 256) % 256) as u8,
            ((bo / 65536) % 256) as u8,
            (bo / 16777216) as u8,
            (bs % 256) as u8,
            ((bs / 256) % 256) as u8,
            ((bs / 65536) % 256) as u8,
            (bs / 16777216) as u8,
            0,
            0,
            0,
            0,
            0,
            0,
            0,
            0,
        ];
        assert(r@ =~= header_bytes(*self));
        r
    }
}

/// Encoding a valid header and parsing the bytes gives the header back.
pub proof fn lemma_header_encode_parse(h: Header)
    requires
        header_valid(h),
    ensures
        header_bytes(h).len() == 32,
        header_result(header_bytes(h)) == Ok::<Header, ZacError>(h),
{
    let s = header_bytes(h);
    lemma_u16_roundtrip(h.section_count);
    lemma_u32_roundtrip(0x20);
    lemma_u32_roundtrip(h.body_offset);
    lemma_u32_roundtrip(h.body_size);
    assert(s.len() == 32);
    assert(s.subrange(0, 4) =~= magic_zac());
    assert(s.subrange(8, 10) =~= u16_bytes(h.section_count));
    assert(le_u16(s, 8) == le_u16(u16_bytes(h.section_count), 0));
    assert(le_u16(s, 10) == 0);
    assert(s.subrange(12, 16) =~= u32_bytes(0x20));
    assert(s.subrange(16, 20) =~= u32_bytes(h.body_offset));
    assert(s.subrange(20, 24) =~= u32_bytes(h.body_size));
    assert(u32_bytes(0x20).subrange(0, 4) =~= u32_bytes(0x20));
    assert(u32_bytes(h.body_offset).subrange(0, 4) =~= u32_bytes(h.body_offset));
    assert(u32_bytes(h.body_size).subrange(0, 4) =~= u32_bytes(h.body_size));
    lemma_le_u32_frame(s, u32_bytes(0x20), 12, 0);
    lemma_le_u32_frame(s, u32_bytes(h.body_offset), 16, 0);
    lemma_le_u32_frame(s, u32_bytes(h.body_size), 20, 0);
    assert(all_zero(s, 24, 32));
    lemma_first_nonzero(s, 24, 32);
}

/// A header the parser accepts is canonical: encoding it again gives back
/// exactly the 32 bytes it was read from, and it is valid.
pub proof fn lemma_header_parse_encode(s: Seq<u8>)
    requires
        header_result(s) is Ok,
    ensures
        header_valid(header_result(s)->Ok_0),
        header_bytes(header_result(s)->Ok_0) == s.subrange(0, 32),
{
    let h = header_result(s)->Ok_0;
    lemma_first_nonzero(s, 24, 32);
    lemma_le_u16_bytes(s, 8);
    lemma_le_u32_bytes(s, 12);
    lemma_le_u32_bytes(s, 16);
    lemma_le_u32_bytes(s, 20);
    assert(s[10] == 0 && s[11] == 0);
    assert(header_bytes(h) =~= s.subrange(0, 32));
}

} // verus!
