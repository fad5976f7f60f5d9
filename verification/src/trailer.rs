//! `.zac` trailer: the final 40 bytes of the file.
use vstd::prelude::*;

use crate::error::{ZacError, ZacResult};
use crate::header::four;
use crate::wire::{copy_array, le_u32, zeros};

verus! {

/// Trailer size in bytes.
pub const TRAILER_SIZE: usize = 40;

/// `"ZACT"`.
pub const TRAILER_MAGIC: [u8; 4] = [0x5a, 0x41, 0x43, 0x54];

/// Decoded `.zac` trailer.
#[derive(Debug, Clone, PartialEq, Eq)]
pub struct Trailer {
    /// 32-byte BLAKE3 file hash.
    pub file_hash: [u8; 32],
}

/// `"ZACT"`.
pub open spec fn magic_trailer() -> Seq<u8> {
    seq![0x5au8, 0x41, 0x43, 0x54]
}

/// The error `Trailer::parse` returns for `s` read at `abs`, if any.
pub open spec fn trailer_error(s: Seq<u8>, abs: usize) -> Option<ZacError> {
    if s.len() < 40 {
        Some(ZacError::Truncated { offset: abs, need: 40, have: s.len() as usize })
    } else if s.subrange(0, 4) != magic_trailer() {
        Some(ZacError::BadMagic { offset: abs, expected: "ZACT", got: four(s, 0) })
    } else if le_u32(s, 4) != 0 {
        Some(
            ZacError::BadFlags {
                offset: (abs + 4) as usize,
                field: "trailer._reserved",
                value: le_u32(s, 4) as u64,
            },
        )
    } else {
        None
    }
}

/// The 40 bytes `Trailer::encode` writes for a file hash `h`.
pub open spec fn trailer_bytes(h: Seq<u8>) -> Seq<u8> {
    magic_trailer() + zeros(4) + h
}

impl Trailer {
    /// Parse the trailer from a slice positioned at the trailer's absolute
    /// file offset `abs_offset` (used only in errors).
    pub fn parse(bytes: &[u8], abs_offset: usize) -> (r: ZacResult<Trailer>)
        requires
            abs_offset + 4 <= usize::MAX,
        ensures
            match r {
                Ok(t) => trailer_error(bytes@, abs_offset) is None && t.file_hash@ == bytes@.subrange(8, 40),
                Err(e) => trailer_error(bytes@, abs_offset) == Some(e),
            },
    {
        if bytes.len() < TRAILER_SIZE {
            return Err(
                ZacError::Truncated { offset: abs_offset, need: TRAILER_SIZE, have: bytes.len() },
            );
        }
        let magic: [u8; 4] = [bytes[0], bytes[1], bytes[2], bytes[3]];
        if !(bytes[0] == 0x5a && bytes[1] == 0x41 && bytes[2] == 0x43 && bytes[3] == 0x54) {
            proof {
                if bytes@.subrange(0, 4) == magic_trailer() {
                    assert(bytes@[0] == bytes@.subrange(0, 4)[0]);
                    assert(bytes@[1] == bytes@.subrange(0, 4)[1]);
                    assert(bytes@[2] == bytes@.subrange(0, 4)[2]);
                    assert(bytes@[3] == bytes@.subrange(0, 4)[3]);
                }
            }
            return Err(ZacError::BadMagic { offset: abs_offset, expected: "ZACT", got: magic });
        }
        assert(bytes@.subrange(0, 4) =~= magic_trailer());
        let reserved = crate::wire::read_u32(bytes, 4);
        if reserved != 0 {
            return Err(
                ZacError::BadFlags {
                    offset: abs_offset + 4,
                    field: "trailer._reserved",
                    value: reserved as u64,
                },
            );
        }
        let file_hash: [u8; 32] = copy_array(bytes, 8);
        Ok(Trailer { file_hash })
    }

    /// Serialise the trailer to its 40 raw bytes.
    pub fn encode(&self) -> (r: [u8; TRAILER_SIZE])
        ensures
            r@ == trailer_bytes(self.file_hash@),
    {
        let mut r = [0u8; TRAILER_SIZE];
        r[0] = 0x5a;
        r[1] = 0x41;
        r[2] = 0x43;
        r[3] = 0x54;
        let mut i: usize = 0;
        while i < 32
            invariant
                i <= 32,
                r@.len() == 40,
                r@[0] == 0x5a && r@[1] == 0x41 && r@[2] == 0x43 && r@[3] == 0x54,
                forall|j: int| 4 <= j < 8 ==> r@[j] == 0,
                forall|j: int| 0 <= j < i ==> r@[8 + j] == self.file_hash@[j],
            decreases 32 - i,
        {
            r[8 + i] = self.file_hash[i];
            i = i + 1;
        }
        assert(r@ =~= trailer_bytes(self.file_hash@));
        r
    }
}

/// Encoding a trailer and parsing the bytes gives the same file hash back.
pub proof fn lemma_trailer_round_trip(h: Seq<u8>, abs: usize)
    requires
        h.len() == 32,
    ensures
        trailer_bytes(h).len() == 40,
        trailer_error(trailer_bytes(h), abs) is None,
        trailer_bytes(h).subrange(8, 40) == h,
{
    let s = trailer_bytes(h);
    assert(s.subrange(0, 4) =~= magic_trailer());
    assert(le_u32(s, 4) == 0);
    assert(s.subrange(8, 40) =~= h);
}

/// A trailer the parser accepts is canonical: its bytes are exactly the
/// encoding of the hash it carries.
pub proof fn lemma_trailer_canonical(s: Seq<u8>, abs: usize)
    requires
        trailer_error(s, abs) is None,
    ensures
        trailer_bytes(s.subrange(8, 40)) == s.subrange(0, 40),
{
    crate::wire::lemma_le_u32_bytes(s, 4);
    assert(s.subrange(4, 8) =~= crate::wire::u32_bytes(0));
    assert(trailer_bytes(s.subrange(8, 40)) =~= s.subrange(0, 40));
}

} // verus!
