//! Section index: `section_count` 16-byte entries starting at offset `0x20`.
//!
//! Every structural invariant of the index is enforced here so body parsing
//! never starts on a malformed index.
use vstd::prelude::*;

use crate::error::{ZacError, ZacResult};
use crate::header::MAX_SECTIONS;
use crate::wire::{
    le_u16, le_u32, lemma_le_u16_bytes, lemma_le_u32_bytes, lemma_le_u32_frame,
    lemma_u32_roundtrip, read_u16, read_u32, u32_bytes,
};

verus! {

/// Size of one section index entry in bytes.
pub const INDEX_ENTRY_SIZE: usize = 16;

/// Section type byte: VKEY.
pub const SECTION_VKEY: u8 = 0x01;

/// Section type byte: INTERFACE.
pub const SECTION_INTERFACE: u8 = 0x02;

/// Section type byte: R1CS_HASH.
pub const SECTION_R1CS_HASH: u8 = 0x03;

/// Section type byte: META_CBOR.
pub const SECTION_META_CBOR: u8 = 0x04;

/// One parsed index entry (matches the on-wire 16-byte layout one-for-one).
#[derive(Debug, Clone, PartialEq, Eq, Structural)]
pub struct IndexEntry {
    /// Section type byte.
    pub section_type: u8,
    /// Per-entry flags, MUST be 0 in v1.0.
    pub flags: u8,
    /// Absolute file offset where the body begins.
    pub offset: u32,
    /// Length of the body in bytes (no padding).
    pub size: u32,
    /// IEEE CRC-32 of the body.
    pub crc32: u32,
}

/// Section types a v1.0 file may carry: the four known ones and the vendor
/// range `0x80..=0xFE`.
pub open spec fn allowed_section_type(t: u8) -> bool {
    (0x01 <= t <= 0x04) || (0x80 <= t <= 0xFE)
}

/// What parsing the 16 bytes `t` of entry `i` (read at absolute offset
/// `abs`) yields.
pub open spec fn entry_result(t: Seq<u8>, i: usize, abs: usize) -> Result<IndexEntry, ZacError> {
    if t.len() < 16 {
        Err(ZacError::Truncated { offset: abs, need: 16, have: t.len() as usize })
    } else if t[1] != 0 {
        Err(
            ZacError::BadFlags {
                offset: (abs + 1) as usize,
                field: "entry.flags",
                value: t[1] as u64,
            },
        )
    } else if le_u16(t, 2) != 0 {
        Err(
            ZacError::BadFlags {
                offset: (abs + 2) as usize,
                field: "entry._pad",
                value: le_u16(t, 2) as u64,
            },
        )
    } else if t[0] == 0x00 || t[0] == 0xFF {
        Err(ZacError::ForbiddenSectionType { entry_index: i, section_type: t[0] })
    } else if 0x05 <= t[0] <= 0x7F {
        Err(ZacError::ForbiddenSectionType { entry_index: i, section_type: t[0] })
    } else if le_u32(t, 4) % 8 != 0 {
        Err(
            ZacError::BadAlignment {
                offset: (abs + 4) as usize,
                reason: "section offset must be 8-aligned",
            },
        )
    } else {
        Ok(
            IndexEntry {
                section_type: t[0],
                flags: t[1],
                offset: le_u32(t, 4),
                size: le_u32(t, 8),
                crc32: le_u32(t, 12),
            },
        )
    }
}

/// The 16 bytes `IndexEntry::encode` writes (the pad is always zero).
pub open spec fn entry_bytes(e: IndexEntry) -> Seq<u8> {
    seq![e.section_type, e.flags, 0u8, 0u8] + u32_bytes(e.offset) + u32_bytes(e.size) + u32_bytes(
        e.crc32,
    )
}

/// Some entry of `es` already has type `t`.
pub open spec fn type_seen(es: Seq<IndexEntry>, t: u8) -> bool {
    exists|j: int| 0 <= j < es.len() && es[j].section_type == t
}

/// Parsing the first `k` entries of the index at `base` of `s`: stops at the
/// first entry that fails or repeats an earlier type.
pub open spec fn index_scan(s: Seq<u8>, base: int, k: nat) -> Result<Seq<IndexEntry>, ZacError>
    decreases k,
{
    if k == 0 {
        Ok(Seq::empty())
    } else {
        match index_scan(s, base, (k - 1) as nat) {
            Err(e) => Err(e),
            Ok(es) => {
                let abs = base + (k - 1) * 16;
                match entry_result(s.subrange(abs, abs + 16), (k - 1) as usize, abs as usize) {
                    Err(e) => Err(e),
                    Ok(e) => if type_seen(es, e.section_type) {
                        Err(
                            ZacError::DuplicateSectionType {
                                entry_index: (k - 1) as usize,
                                section_type: e.section_type,
                            },
                        )
                    } else {
                        Ok(es.push(e))
                    },
                }
            },
        }
    }
}

/// End of entry `e`'s body.
pub open spec fn entry_end(e: IndexEntry) -> int {
    e.offset + e.size
}

/// The first ordering violation among consecutive entries from `k` on.
pub open spec fn order_error(es: Seq<IndexEntry>, k: int) -> Option<ZacError>
    decreases es.len() - k,
{
    if k < 0 || k + 1 >= es.len() {
        None
    } else if es[k + 1].offset < entry_end(es[k]) || es[k + 1].offset <= es[k].offset {
        Some(
            ZacError::SectionOverlap {
                entry_index: k as usize,
                this_end: entry_end(es[k]) as u64,
                next_offset: es[k + 1].offset as u64,
            },
        )
    } else {
        order_error(es, k + 1)
    }
}

/// `n` rounded up to a multiple of 8.
pub open spec fn align8(n: int) -> int {
    ((n + 7) / 8) * 8
}

/// `align8(n)` is the least multiple of 8 not below `n`.
pub proof fn lemma_align8_facts(n: int)
    ensures
        n <= align8(n) < n + 8,
        align8(n) % 8 == 0,
        n % 8 == 0 ==> align8(n) == n,
{
}

/// What `parse_index` returns.
pub open spec fn index_result(
    s: Seq<u8>,
    base: usize,
    count: u16,
    body_offset: u32,
    body_size: u32,
) -> Result<Seq<IndexEntry>, ZacError> {
    let need = count * 16;
    let avail = if s.len() >= base {
        s.len() - base
    } else {
        0
    };
    if count == 0 || count > 16 {
        Err(ZacError::BadFlags { offset: 8, field: "section_count", value: count as u64 })
    } else if avail < need {
        Err(ZacError::Truncated { offset: base, need: need as usize, have: avail as usize })
    } else {
        match index_scan(s, base as int, count as nat) {
            Err(e) => Err(e),
            Ok(es) => {
                let last_end = entry_end(es.last());
                let expected_end = body_offset + body_size;
                if es[0].offset != body_offset {
                    Err(
                        ZacError::BadAlignment {
                            offset: (base + 4) as usize,
                            reason: "first section offset must equal body_offset",
                        },
                    )
                } else if order_error(es, 0) is Some {
                    Err(order_error(es, 0).unwrap())
                } else if last_end > expected_end {
                    Err(
                        ZacError::SectionOverlap {
                            entry_index: (es.len() - 1) as usize,
                            this_end: last_end as u64,
                            next_offset: expected_end as u64,
                        },
                    )
                } else if align8(last_end) != expected_end {
                    Err(
                        ZacError::BadAlignment {
                            offset: 20,
                            reason: "body_size must cover last section + 8-byte pad",
                        },
                    )
                } else {
                    Ok(es)
                }
            },
        }
    }
}

/// The invariants every accepted index satisfies: 1..=16 entries, no flags,
/// allowed and unique types, 8-aligned strictly increasing non-overlapping
/// offsets, the first body at `body_offset`, and the last body ending (after
/// 8-byte padding) exactly at `body_offset + body_size`.
pub open spec fn index_well_formed(es: Seq<IndexEntry>, body_offset: u32, body_size: u32) -> bool {
    &&& 1 <= es.len() <= 16
    &&& forall|i: int| 0 <= i < es.len() ==> (#[trigger] es[i]).flags == 0
    &&& forall|i: int| 0 <= i < es.len() ==> allowed_section_type((#[trigger] es[i]).section_type)
    &&& forall|i: int| 0 <= i < es.len() ==> (#[trigger] es[i]).offset % 8 == 0
    &&& forall|i: int, j: int|
        0 <= i < j < es.len() ==> (#[trigger] es[i]).section_type != (#[trigger] es[j]).section_type
    &&& forall|i: int|
        0 <= i < es.len() - 1 ==> entry_end(#[trigger] es[i]) <= es[i + 1].offset && es[i].offset
            < es[i + 1].offset
    &&& es[0].offset == body_offset
    &&& align8(entry_end(es.last())) == body_offset + body_size
}

impl IndexEntry {
    /// Parse entry `entry_index` from the 16 bytes of `bytes` at `abs_offset`.
    fn parse(bytes: &[u8], entry_index: usize, abs_offset: usize) -> (r: ZacResult<IndexEntry>)
        requires
            abs_offset + 16 <= bytes.len(),
        ensures
            r == entry_result(
                bytes@.subrange(abs_offset as int, abs_offset + 16),
                entry_index,
                abs_offset,
            ),
    {
        let ghost t = bytes@.subrange(abs_offset as int, abs_offset + 16);
        let section_type = bytes[abs_offset];
        let flags = bytes[abs_offset + 1];
        let pad = read_u16(bytes, abs_offset + 2);
        let offset = read_u32(bytes, abs_offset + 4);
        let size = read_u32(bytes, abs_offset + 8);
        let crc32 = read_u32(bytes, abs_offset + 12);
        proof {
            assert(t[0] == section_type && t[1] == flags);
            assert(le_u16(t, 2) == pad);
            assert(le_u32(t, 4) == offset);
            assert(le_u32(t, 8) == size);
            assert(le_u32(t, 12) == crc32);
        }
        if flags != 0 {
            return Err(
                ZacError::BadFlags {
                    offset: abs_offset + 1,
                    field: "entry.flags",
                    value: flags as u64,
                },
            );
        }
        if pad != 0 {
            return Err(
                ZacError::BadFlags { offset: abs_offset + 2, field: "entry._pad", value: pad as u64 },
            );
        }
        if section_type == 0x00 || section_type == 0xFF {
            return Err(ZacError::ForbiddenSectionType { entry_index, section_type });
        }
        if 0x05 <= section_type && section_type <= 0x7F {
            return Err(ZacError::ForbiddenSectionType { entry_index, section_type });
        }
        if offset % 8 != 0 {
            return Err(
                ZacError::BadAlignment {
                    offset: abs_offset + 4,
                    reason: "section offset must be 8-aligned",
                },
            );
        }
        Ok(IndexEntry { section_type, flags, offset, size, crc32 })
    }

    /// Encode this entry as 16 raw bytes.
    pub fn encode(&self) -> (r: [u8; INDEX_ENTRY_SIZE])
        ensures
            r@ == entry_bytes(*self),
    {
        let o = self.offset;
        let s = self.size;
        let c = self.crc32;
        let r: [u8; INDEX_ENTRY_SIZE] = [
            self.section_type,
            self.flags,
            0,
            0,
            (o % 256) as u8,
            ((o / 256) % 256) as u8,
            ((o / 65536) % 256) as u8,
            (o / 16777216) as u8,
            (s % 256) as u8,
            ((s / 256) % 256) as u8,
            ((s / 65536) % 256) as u8,
            (s / 16777216) as u8,
            (c % 256) as u8,
            ((c / 256) % 256) as u8,
            ((c / 65536) % 256) as u8,
            (c / 16777216) as u8,
        ];
        assert(r@ =~= entry_bytes(*self));
        r
    }
}

/// Parse the full index — `count` entries starting at `bytes_offset` of
/// `bytes` — and enforce every structural invariant against the header's
/// `body_offset` and `body_size`.
pub fn parse_index(
    bytes: &[u8],
    bytes_offset: usize,
    count: u16,
    body_offset: u32,
    body_size: u32,
) -> (r: ZacResult<Vec<IndexEntry>>)
    ensures
        match r {
            Ok(es) => index_result(bytes@, bytes_offset, count, body_offset, body_size) == Ok::<
                Seq<IndexEntry>,
                ZacError,
            >(es@),
            Err(e) => index_result(bytes@, bytes_offset, count, body_offset, body_size) == Err::<
                Seq<IndexEntry>,
                ZacError,
            >(e),
        },
        r matches Ok(es) ==> index_well_formed(es@, body_offset, body_size),
{
    let count_usize = count as usize;
    if count_usize == 0 || count_usize > MAX_SECTIONS {
        return Err(ZacError::BadFlags { offset: 8, field: "section_count", value: count as u64 });
    }
    let need = count_usize * INDEX_ENTRY_SIZE;
    let avail = bytes.len().saturating_sub(bytes_offset);
    if avail < need {
        return Err(ZacError::Truncated { offset: bytes_offset, need, have: avail });
    }
    let mut entries: Vec<IndexEntry> = Vec::new();
    let mut seen_types = [false; 256];
    let mut i: usize = 0;
    while i < count_usize
        invariant
            1 <= count_usize <= 16,
            count_usize == count,
            bytes_offset + count_usize * 16 <= bytes.len(),
            i <= count_usize,
            index_scan(bytes@, bytes_offset as int, i as nat) == Ok::<Seq<IndexEntry>, ZacError>(
                entries@,
            ),
            entries@.len() == i,
            seen_types@.len() == 256,
            forall|t: u8| #[trigger] seen_types@[t as int] == type_seen(entries@, t),
        decreases count_usize - i,
    {
        let abs = bytes_offset + i * INDEX_ENTRY_SIZE;
        let entry = match IndexEntry::parse(bytes, i, abs) {
            Ok(e) => e,
            Err(e) => {
                proof {
                    lemma_scan_err_stable(bytes@, bytes_offset as int, (i + 1) as nat, count as nat);
                }
                return Err(e);
            },
        };
        let t = entry.section_type;
        if seen_types[t as usize] {
            proof {
                lemma_scan_err_stable(bytes@, bytes_offset as int, (i + 1) as nat, count as nat);
            }
            return Err(ZacError::DuplicateSectionType { entry_index: i, section_type: t });
        }
        seen_types[t as usize] = true;
        let ghost old_entries = entries@;
        entries.push(entry);
        i = i + 1;
        proof {
            assert forall|u: u8| #[trigger] seen_types@[u as int] == type_seen(entries@, u) by {
                if u == t {
                    assert(entries@[entries@.len() - 1].section_type == t);
                } else {
                    if type_seen(entries@, u) {
                        let j = choose|j: int|
                            0 <= j < entries@.len() && entries@[j].section_type == u;
                        assert(old_entries[j].section_type == u);
                    }
                    if type_seen(old_entries, u) {
                        let j = choose|j: int|
                            0 <= j < old_entries.len() && old_entries[j].section_type == u;
                        assert(entries@[j].section_type == u);
                    }
                }
            }
        }
    }
    proof {
        lemma_scan_facts(bytes@, bytes_offset as int, count as nat);
    }
    if entries[0].offset != body_offset {
        return Err(
            ZacError::BadAlignment {
                offset: bytes_offset + 4,
                reason: "first section offset must equal body_offset",
            },
        );
    }
    let n = entries.len();
    let mut k: usize = 0;
    while k + 1 < n
        invariant
            n == entries@.len(),
            1 <= n <= 16,
            k < n,
            order_error(entries@, 0) == order_error(entries@, k as int),
            index_scan(bytes@, bytes_offset as int, count as nat) == Ok::<Seq<IndexEntry>, ZacError>(
                entries@,
            ),
            n == count,
            bytes_offset + n * 16 <= bytes.len(),
            entries@[0].offset == body_offset,
            forall|j: int|
                0 <= j < k ==> entry_end(#[trigger] entries@[j]) <= entries@[j + 1].offset
                    && entries@[j].offset < entries@[j + 1].offset,
        decreases n - k,
    {
        let this_end = entries[k].offset as u64 + entries[k].size as u64;
        let next_off = entries[k + 1].offset as u64;
        if next_off < this_end {
            assert(order_error(entries@, k as int) == Some(
                ZacError::SectionOverlap { entry_index: k, this_end, next_offset: next_off },
            ));
            return Err(
                ZacError::SectionOverlap { entry_index: k, this_end, next_offset: next_off },
            );
        }
        if next_off <= entries[k].offset as u64 {
            assert(order_error(entries@, k as int) == Some(
                ZacError::SectionOverlap { entry_index: k, this_end, next_offset: next_off },
            ));
            return Err(
                ZacError::SectionOverlap { entry_index: k, this_end, next_offset: next_off },
            );
        }
        k = k + 1;
    }
    let last_end = entries[n - 1].offset as u64 + entries[n - 1].size as u64;
    let expected_end = body_offset as u64 + body_size as u64;
    if last_end > expected_end {
        return Err(
            ZacError::SectionOverlap {
                entry_index: n - 1,
                this_end: last_end,
                next_offset: expected_end,
            },
        );
    }
    let last_end_padded = (last_end + 7) / 8 * 8;
    if last_end_padded != expected_end {
        return Err(
            ZacError::BadAlignment {
                offset: 20,
                reason: "body_size must cover last section + 8-byte pad",
            },
        );
    }
    proof {
        assert(entries@.last() == entries@[n - 1]);
        assert forall|i: int, j: int|
            0 <= i < j < entries@.len() implies (#[trigger] entries@[i]).section_type
            != (#[trigger] entries@[j]).section_type by {
            lemma_scan_unique(bytes@, bytes_offset as int, count as nat, i, j);
        }
    }
    Ok(entries)
}

/// Once the scan has failed, scanning further entries reports the same failure.
proof fn lemma_scan_err_stable(s: Seq<u8>, base: int, k: nat, k2: nat)
    requires
        index_scan(s, base, k) is Err,
        k <= k2,
    ensures
        index_scan(s, base, k2) == index_scan(s, base, k),
    decreases k2 - k,
{
    if k < k2 {
        lemma_scan_err_stable(s, base, k, (k2 - 1) as nat);
    }
}

/// Facts about every entry an index scan accepted.
proof fn lemma_scan_facts(s: Seq<u8>, base: int, k: nat)
    requires
        index_scan(s, base, k) is Ok,
    ensures
        index_scan(s, base, k)->Ok_0.len() == k,
        forall|i: int|
            0 <= i < k ==> {
                let e = #[trigger] index_scan(s, base, k)->Ok_0[i];
                &&& e.flags == 0
                &&& allowed_section_type(e.section_type)
                &&& e.offset % 8 == 0
            },
    decreases k,
{
    if k > 0 {
        lemma_scan_facts(s, base, (k - 1) as nat);
    }
}

/// Entries an index scan accepted have pairwise distinct types.
proof fn lemma_scan_unique(s: Seq<u8>, base: int, k: nat, i: int, j: int)
    requires
        index_scan(s, base, k) is Ok,
        0 <= i < j < k,
    ensures
        index_scan(s, base, k)->Ok_0[i].section_type != index_scan(s, base, k)->Ok_0[j].section_type,
    decreases k,
{
    lemma_scan_facts(s, base, k);
    let es = index_scan(s, base, (k - 1) as nat)->Ok_0;
    lemma_scan_facts(s, base, (k - 1) as nat);
    if j < k - 1 {
        lemma_scan_unique(s, base, (k - 1) as nat, i, j);
    } else {
        if index_scan(s, base, k)->Ok_0[i].section_type == index_scan(
            s,
            base,
            k,
        )->Ok_0[j].section_type {
            assert(es[i].section_type == index_scan(s, base, k)->Ok_0[j].section_type);
        }
    }
}

/// Encoding an entry and parsing the 16 bytes back gives the entry, provided
/// it is one the parser accepts (no flags, allowed type, 8-aligned offset).
pub proof fn lemma_entry_round_trip(e: IndexEntry, i: usize, abs: usize)
    requires
        e.flags == 0,
        allowed_section_type(e.section_type),
        e.offset % 8 == 0,
    ensures
        entry_bytes(e).len() == 16,
        entry_result(entry_bytes(e), i, abs) == Ok::<IndexEntry, ZacError>(e),
{
    let t = entry_bytes(e);
    lemma_u32_roundtrip(e.offset);
    lemma_u32_roundtrip(e.size);
    lemma_u32_roundtrip(e.crc32);
    assert(t.subrange(4, 8) =~= u32_bytes(e.offset));
    assert(t.subrange(8, 12) =~= u32_bytes(e.size));
    assert(t.subrange(12, 16) =~= u32_bytes(e.crc32));
    assert(u32_bytes(e.offset).subrange(0, 4) =~= u32_bytes(e.offset));
    assert(u32_bytes(e.size).subrange(0, 4) =~= u32_bytes(e.size));
    assert(u32_bytes(e.crc32).subrange(0, 4) =~= u32_bytes(e.crc32));
    lemma_le_u32_frame(t, u32_bytes(e.offset), 4, 0);
    lemma_le_u32_frame(t, u32_bytes(e.size), 8, 0);
    lemma_le_u32_frame(t, u32_bytes(e.crc32), 12, 0);
    assert(le_u16(t, 2) == 0);
}

/// An entry the parser accepts is canonical: its encoding is exactly the 16
/// bytes it was read from.
pub proof fn lemma_entry_canonical(t: Seq<u8>, i: usize, abs: usize)
    requires
        entry_result(t, i, abs) is Ok,
    ensures
        entry_bytes(entry_result(t, i, abs)->Ok_0) == t.subrange(0, 16),
{
    lemma_le_u16_bytes(t, 2);
    lemma_le_u32_bytes(t, 4);
    lemma_le_u32_bytes(t, 8);
    lemma_le_u32_bytes(t, 12);
    assert(t[2] == 0 && t[3] == 0);
    assert(entry_bytes(entry_result(t, i, abs)->Ok_0) =~= t.subrange(0, 16));
}

/// Every entry an index scan accepted is the entry its 16 bytes read as.
proof fn lemma_scan_entries(s: Seq<u8>, base: int, k: nat)
    requires
        index_scan(s, base, k) is Ok,
    ensures
        forall|i: int|
            0 <= i < k ==> entry_result(
                #[trigger] s.subrange(base + 16 * i, base + 16 * i + 16),
                i as usize,
                (base + 16 * i) as usize,
            ) == Ok::<IndexEntry, ZacError>(index_scan(s, base, k)->Ok_0[i]),
    decreases k,
{
    if k > 0 {
        lemma_scan_entries(s, base, (k - 1) as nat);
        lemma_scan_facts(s, base, (k - 1) as nat);
    }
}

/// No overlap reported from entry `k` on means every later pair of entries
/// is ordered and disjoint.
proof fn lemma_order_none(es: Seq<IndexEntry>, k: int)
    requires
        0 <= k,
        order_error(es, k) is None,
    ensures
        forall|i: int|
            k <= i < es.len() - 1 ==> entry_end(#[trigger] es[i]) <= es[i + 1].offset && es[i].offset
                < es[i + 1].offset,
    decreases es.len() - k,
{
    if k + 1 < es.len() {
        lemma_order_none(es, k + 1);
    }
}

/// What an accepted index is: `count` entries, well formed, each one the
/// entry its 16 bytes read as.
pub proof fn lemma_index_facts(s: Seq<u8>, base: usize, count: u16, body_offset: u32, body_size: u32)
    requires
        index_result(s, base, count, body_offset, body_size) is Ok,
    ensures
        ({
            let es = index_result(s, base, count, body_offset, body_size)->Ok_0;
            &&& es.len() == count
            &&& base + 16 * count <= s.len()
            &&& index_well_formed(es, body_offset, body_size)
            &&& forall|i: int|
                0 <= i < count ==> entry_result(
                    #[trigger] s.subrange(base + 16 * i, base + 16 * i + 16),
                    i as usize,
                    (base + 16 * i) as usize,
                ) == Ok::<IndexEntry, ZacError>(es[i])
        }),
{
    let es = index_scan(s, base as int, count as nat)->Ok_0;
    lemma_scan_facts(s, base as int, count as nat);
    lemma_scan_entries(s, base as int, count as nat);
    lemma_order_none(es, 0);
    assert forall|i: int, j: int|
        0 <= i < j < es.len() implies (#[trigger] es[i]).section_type
        != (#[trigger] es[j]).section_type by {
        lemma_scan_unique(s, base as int, count as nat, i, j);
    }
}

/// Entries whose 16-byte windows read as `es`, with pairwise distinct
/// types, make the scan of the first `k` read `es.take(k)`.
proof fn lemma_scan_reads(s: Seq<u8>, base: int, es: Seq<IndexEntry>, k: nat)
    requires
        k <= es.len(),
        forall|i: int|
            0 <= i < es.len() ==> entry_result(
                #[trigger] s.subrange(base + 16 * i, base + 16 * i + 16),
                i as usize,
                (base + 16 * i) as usize,
            ) == Ok::<IndexEntry, ZacError>(es[i]),
        forall|i: int, j: int|
            0 <= i < j < es.len() ==> (#[trigger] es[i]).section_type
                != (#[trigger] es[j]).section_type,
    ensures
        index_scan(s, base, k) == Ok::<Seq<IndexEntry>, ZacError>(es.take(k as int)),
    decreases k,
{
    if k == 0 {
        assert(es.take(0) =~= Seq::<IndexEntry>::empty());
    } else {
        let j = (k - 1) as int;
        lemma_scan_reads(s, base, es, (k - 1) as nat);
        assert(entry_result(s.subrange(base + 16 * j, base + 16 * j + 16), j as usize, (base + 16
            * j) as usize) == Ok::<IndexEntry, ZacError>(es[j]));
        let prev = es.take(j);
        if type_seen(prev, es[j].section_type) {
            let q = choose|q: int| 0 <= q < prev.len() && prev[q].section_type == es[j].section_type;
            assert(es[q].section_type != es[j].section_type);
        }
        assert(es.take(k as int) =~= prev.push(es[j]));
    }
}

/// Ordered, disjoint entries from `k` on report no overlap.
pub proof fn lemma_order_ok(es: Seq<IndexEntry>, k: int)
    requires
        0 <= k,
        forall|i: int|
            k <= i < es.len() - 1 ==> entry_end(#[trigger] es[i]) <= es[i + 1].offset && es[i].offset
                < es[i + 1].offset,
    ensures
        order_error(es, k) is None,
    decreases es.len() - k,
{
    if k + 1 < es.len() {
        lemma_order_ok(es, k + 1);
    }
}

/// The converse of `lemma_index_facts`: `count` entries, each of whose 16
/// bytes the entry parser accepts, forming a well-formed index, are
/// accepted, and read back as themselves.
pub proof fn lemma_index_accepts(
    s: Seq<u8>,
    base: usize,
    count: u16,
    body_offset: u32,
    body_size: u32,
    es: Seq<IndexEntry>,
)
    requires
        es.len() == count,
        base + 16 * count <= s.len(),
        forall|i: int|
            0 <= i < count ==> entry_result(
                #[trigger] s.subrange(base + 16 * i, base + 16 * i + 16),
                i as usize,
                (base + 16 * i) as usize,
            ) == Ok::<IndexEntry, ZacError>(es[i]),
        index_well_formed(es, body_offset, body_size),
    ensures
        index_result(s, base, count, body_offset, body_size) == Ok::<Seq<IndexEntry>, ZacError>(
            es,
        ),
{
    lemma_scan_reads(s, base as int, es, count as nat);
    assert(es.take(count as int) =~= es);
    lemma_order_ok(es, 0);
    assert(es.last() == es[es.len() - 1]);
}

/// The entries the `count` 16-byte windows from `base` read as.
pub open spec fn entries_read(s: Seq<u8>, base: usize, count: u16) -> Seq<IndexEntry> {
    Seq::new(
        count as nat,
        |i: int|
            entry_result(s.subrange(base + 16 * i, base + 16 * i + 16), i as usize, (base + 16 * i) as usize)->Ok_0,
    )
}

/// When an index is accepted: it has room for its entries, each entry's 16
/// bytes are accepted by the entry parser (no flags or padding, an allowed
/// type, an 8-aligned offset), and the entries they read as form a
/// well-formed index (1..=16 entries, distinct types, ordered and disjoint,
/// the first at `body_offset`, the last ending, padded to 8, at
/// `body_offset + body_size`). It then reads as exactly those entries.
pub proof fn lemma_index_result_ok(s: Seq<u8>, base: usize, count: u16, body_offset: u32, body_size: u32)
    ensures
        index_result(s, base, count, body_offset, body_size) is Ok <==> {
            &&& base + 16 * count <= s.len()
            &&& forall|i: int|
                0 <= i < count ==> (#[trigger] entry_result(
                    s.subrange(base + 16 * i, base + 16 * i + 16),
                    i as usize,
                    (base + 16 * i) as usize,
                )) is Ok
            &&& index_well_formed(entries_read(s, base, count), body_offset, body_size)
        },
        index_result(s, base, count, body_offset, body_size) is Ok ==> index_result(
            s,
            base,
            count,
            body_offset,
            body_size,
        )->Ok_0 == entries_read(s, base, count),
{
    let es = entries_read(s, base, count);
    if index_result(s, base, count, body_offset, body_size) is Ok {
        lemma_index_facts(s, base, count, body_offset, body_size);
        assert(index_result(s, base, count, body_offset, body_size)->Ok_0 =~= es);
    }
    if base + 16 * count <= s.len() && (forall|i: int|
        0 <= i < count ==> (#[trigger] entry_result(
            s.subrange(base + 16 * i, base + 16 * i + 16),
            i as usize,
            (base + 16 * i) as usize,
        )) is Ok) && index_well_formed(es, body_offset, body_size) {
        assert forall|i: int| 0 <= i < count implies entry_result(
            #[trigger] s.subrange(base + 16 * i, base + 16 * i + 16),
            i as usize,
            (base + 16 * i) as usize,
        ) == Ok::<IndexEntry, ZacError>(es[i]) by {
            assert(entry_result(
                s.subrange(base + 16 * i, base + 16 * i + 16),
                i as usize,
                (base + 16 * i) as usize,
            ) is Ok);
        }
        lemma_index_accepts(s, base, count, body_offset, body_size, es);
    }
}

} // verus!
