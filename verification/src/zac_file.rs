//! Top-level `.zac` files: header, section index, aligned section bodies and
//! the trailer.
use vstd::prelude::*;

use crate::crc::{crc32, crc32_ieee};
use crate::error::{ZacError, ZacResult};
use crate::hash::{file_hash, file_hash_spec};
use crate::header::{
    header_bytes, header_result, header_valid, lemma_header_encode_parse,
    lemma_header_parse_encode, Header, HEADER_SIZE,
    INDEX_OFFSET,
};
use crate::index::{
    align8, allowed_section_type, entry_bytes, entry_end, entry_result, index_scan,
    lemma_align8_facts, lemma_entry_canonical, lemma_order_ok, lemma_entry_round_trip, lemma_index_facts,
    order_error, type_seen, index_result, index_well_formed, parse_index, IndexEntry, INDEX_ENTRY_SIZE,
};
use crate::section::{
    body_bytes, lemma_section_canonical, lemma_section_round_trip, section_result, section_type_of, section_valid, Section,
    SectionV,
};
use crate::trailer::{lemma_trailer_canonical, lemma_trailer_round_trip, trailer_bytes, trailer_error, Trailer, TRAILER_SIZE};
use crate::wire::{
    all_zero, first_nonzero, first_nonzero_from, lemma_first_nonzero, lemma_to_arr32, push_slice,
    push_zeros, to_arr32, zeros,
};

verus! {

/// A fully-parsed `.zac` file.
#[derive(Debug, Clone, PartialEq, Eq)]
pub struct ZacFile {
    /// 32-byte header.
    pub header: Header,
    /// All parsed sections in on-wire order.
    pub sections: Vec<Section>,
    /// 40-byte trailer.
    pub trailer: Trailer,
}

/// The mathematical content of a `.zac` file.
pub struct ZacFileV {
    /// Header.
    pub header: Header,
    /// Sections in on-wire order.
    pub sections: Seq<SectionV>,
    /// Trailer file hash.
    pub file_hash: Seq<u8>,
}

impl View for ZacFile {
    type V = ZacFileV;

    open spec fn view(&self) -> ZacFileV {
        ZacFileV {
            header: self.header,
            sections: self.sections@.map_values(|s: Section| s@),
            file_hash: self.trailer.file_hash@,
        }
    }
}

/// Where padding after entry `i`'s body ends: the next body, or the end of
/// the body region for the last entry.
pub open spec fn pad_end_of(es: Seq<IndexEntry>, i: int, h: Header) -> int {
    if i + 1 < es.len() {
        es[i + 1].offset as int
    } else {
        h.body_offset + h.body_size
    }
}

/// `n - m`, or 0 when `m > n`.
pub open spec fn sat_sub(n: int, m: int) -> int {
    if n >= m {
        n - m
    } else {
        0
    }
}

/// Reading the body of index entry `i`: bounds, CRC-32, zero padding up to
/// the next body, then the typed section.
pub open spec fn body_step(s: Seq<u8>, es: Seq<IndexEntry>, h: Header, i: int) -> Result<
    SectionV,
    ZacError,
> {
    let e = es[i];
    let abs = e.offset as int;
    let end = abs + e.size;
    if end > s.len() - 40 {
        Err(
            ZacError::Truncated {
                offset: abs as usize,
                need: e.size as usize,
                have: sat_sub(s.len() as int, abs) as usize,
            },
        )
    } else {
        let body = s.subrange(abs, end);
        if crc32_ieee(body) != e.crc32 {
            Err(
                ZacError::BadCrc32 {
                    entry_index: i as usize,
                    section_type: e.section_type,
                    expected: e.crc32,
                    got: crc32_ieee(body),
                },
            )
        } else if let Some(j) = first_nonzero_from(s, end, pad_end_of(es, i, h)) {
            Err(ZacError::BadAlignment { offset: j as usize, reason: "non-zero alignment padding" })
        } else {
            section_result(e.section_type, body, abs, i as usize)
        }
    }
}

/// Reading the bodies of the first `k` index entries, stopping at the first
/// failure.
pub open spec fn sections_scan(s: Seq<u8>, es: Seq<IndexEntry>, h: Header, k: nat) -> Result<
    Seq<SectionV>,
    ZacError,
>
    decreases k,
{
    if k == 0 {
        Ok(Seq::empty())
    } else {
        match sections_scan(s, es, h, (k - 1) as nat) {
            Err(e) => Err(e),
            Ok(svs) => match body_step(s, es, h, k - 1) {
                Err(e) => Err(e),
                Ok(sv) => Ok(svs.push(sv)),
            },
        }
    }
}

/// Some section is a VKEY.
pub open spec fn has_vkey(svs: Seq<SectionV>) -> bool {
    exists|i: int| 0 <= i < svs.len() && svs[i] is Vkey
}

/// Some section is an INTERFACE.
pub open spec fn has_interface(svs: Seq<SectionV>) -> bool {
    exists|i: int| 0 <= i < svs.len() && svs[i] is Interface
}

/// Some section is an R1CS_HASH.
pub open spec fn has_r1cs_hash(svs: Seq<SectionV>) -> bool {
    exists|i: int| 0 <= i < svs.len() && svs[i] is R1csHash
}

/// The first mandatory section missing, in the order VKEY, INTERFACE,
/// R1CS_HASH.
pub open spec fn missing_error(svs: Seq<SectionV>) -> Option<ZacError> {
    if !has_vkey(svs) {
        Some(ZacError::MissingMandatorySection { missing_type: 0x01, name: "VKEY" })
    } else if !has_interface(svs) {
        Some(ZacError::MissingMandatorySection { missing_type: 0x02, name: "INTERFACE" })
    } else if !has_r1cs_hash(svs) {
        Some(ZacError::MissingMandatorySection { missing_type: 0x03, name: "R1CS_HASH" })
    } else {
        None
    }
}

/// The recomputed file hash of a `.zac` byte string.
pub open spec fn recomputed_hash(s: Seq<u8>) -> [u8; 32] {
    file_hash_spec(s.subrange(4, 8), s.subrange(32, s.len() - 40))
}

/// The checks on the header, the file geometry, the padding before the first
/// body and the index: the header and entries, or the first failure.
pub open spec fn zac_prefix(s: Seq<u8>) -> Result<(Header, Seq<IndexEntry>), ZacError> {
    if s.len() < 72 {
        Err(ZacError::Truncated { offset: 0, need: 72, have: s.len() as usize })
    } else {
        match header_result(s.subrange(0, 32)) {
            Err(e) => Err(e),
            Ok(h) => {
                let index_end = 32 + h.section_count * 16;
                let body_end = h.body_offset + h.body_size;
                if index_end > s.len() {
                    Err(
                        ZacError::Truncated {
                            offset: 32,
                            need: (h.section_count * 16) as usize,
                            have: (s.len() - 32) as usize,
                        },
                    )
                } else if h.body_offset < index_end {
                    Err(ZacError::BadAlignment { offset: 16, reason: "body_offset overlaps the index" })
                } else if body_end + 40 > s.len() {
                    Err(
                        ZacError::Truncated {
                            offset: h.body_offset as usize,
                            need: (body_end + 40 - s.len()) as usize,
                            have: 0,
                        },
                    )
                } else if body_end + 40 != s.len() {
                    Err(
                        ZacError::BadAlignment {
                            offset: 20,
                            reason: "file size doesn't equal body_offset + body_size + 40",
                        },
                    )
                } else if let Some(i) = first_nonzero_from(s, index_end, h.body_offset as int) {
                    Err(
                        ZacError::BadAlignment {
                            offset: i as usize,
                            reason: "non-zero padding between index and first body",
                        },
                    )
                } else {
                    match index_result(s, 32, h.section_count, h.body_offset, h.body_size) {
                        Err(e) => Err(e),
                        Ok(es) => Ok((h, es)),
                    }
                }
            },
        }
    }
}

/// The checks after the bodies: the trailer, then the recomputed file hash.
pub open spec fn zac_tail(s: Seq<u8>, h: Header, svs: Seq<SectionV>) -> Result<ZacFileV, ZacError> {
    let t = s.subrange(s.len() - 40, s.len() as int);
    let th = s.subrange(s.len() - 32, s.len() as int);
    if trailer_error(t, (s.len() - 40) as usize) is Some {
        Err(trailer_error(t, (s.len() - 40) as usize).unwrap())
    } else if recomputed_hash(s)@ != th {
        Err(ZacError::BadFileHash { trailer: to_arr32(th), computed: recomputed_hash(s) })
    } else {
        Ok(ZacFileV { header: h, sections: svs, file_hash: th })
    }
}

/// What `ZacFile::parse` returns for the bytes `s`.
pub open spec fn zac_result(s: Seq<u8>) -> Result<ZacFileV, ZacError> {
    match zac_prefix(s) {
        Err(e) => Err(e),
        Ok((h, es)) => match sections_scan(s, es, h, es.len()) {
            Err(e) => Err(e),
            Ok(svs) => if missing_error(svs) is Some {
                Err(missing_error(svs).unwrap())
            } else {
                zac_tail(s, h, svs)
            },
        },
    }
}

/// Once the body scan has failed, scanning further entries reports the same
/// failure.
proof fn lemma_sections_err_stable(s: Seq<u8>, es: Seq<IndexEntry>, h: Header, k: nat, k2: nat)
    requires
        sections_scan(s, es, h, k) is Err,
        k <= k2,
    ensures
        sections_scan(s, es, h, k2) == sections_scan(s, es, h, k),
    decreases k2 - k,
{
    if k < k2 {
        lemma_sections_err_stable(s, es, h, k, (k2 - 1) as nat);
    }
}

/// In a well-formed index every body ends no later than where its padding
/// ends, which is no later than the end of the body region.
proof fn lemma_wf_entry_bounds(es: Seq<IndexEntry>, h: Header, i: int)
    requires
        index_well_formed(es, h.body_offset, h.body_size),
        0 <= i < es.len(),
    ensures
        crate::index::entry_end(es[i]) <= pad_end_of(es, i, h),
        pad_end_of(es, i, h) <= h.body_offset + h.body_size,
        i + 1 == es.len() ==> pad_end_of(es, i, h) == h.body_offset + h.body_size,
    decreases es.len() - i,
{
    assert(es.last() == es[es.len() - 1]);
    let last_end = crate::index::entry_end(es.last());
    assert(last_end <= crate::index::align8(last_end));
    if i + 1 < es.len() {
        lemma_wf_entry_bounds(es, h, i + 1);
        assert(crate::index::entry_end(es[i]) <= es[i + 1].offset);
        assert(es[i + 1].offset <= crate::index::entry_end(es[i + 1]));
    }
}

/// Header, geometry, padding and index checks.
fn parse_prefix(bytes: &[u8]) -> (r: ZacResult<(Header, Vec<IndexEntry>)>)
    ensures
        match r {
            Ok((h, es)) => zac_prefix(bytes@) == Ok::<(Header, Seq<IndexEntry>), ZacError>(
                (h, es@),
            ) && index_well_formed(es@, h.body_offset, h.body_size) && h.body_offset
                + h.body_size + 40 == bytes@.len(),
            Err(e) => zac_prefix(bytes@) == Err::<(Header, Seq<IndexEntry>), ZacError>(e),
        },
{
    let len = bytes.len();
    if len < HEADER_SIZE + TRAILER_SIZE {
        return Err(ZacError::Truncated { offset: 0, need: HEADER_SIZE + TRAILER_SIZE, have: len });
    }
    let header = Header::parse(vstd::slice::slice_subrange(bytes, 0, HEADER_SIZE))?;
    let sc = header.section_count as usize;
    let index_end = INDEX_OFFSET as usize + sc * INDEX_ENTRY_SIZE;
    if index_end > len {
        return Err(
            ZacError::Truncated {
                offset: INDEX_OFFSET as usize,
                need: index_end - INDEX_OFFSET as usize,
                have: len - INDEX_OFFSET as usize,
            },
        );
    }
    let body_offset = header.body_offset as usize;
    if body_offset < index_end {
        return Err(ZacError::BadAlignment { offset: 16, reason: "body_offset overlaps the index" });
    }
    let body_end = header.body_offset as u64 + header.body_size as u64;
    let file_len = len as u64;
    if body_end + TRAILER_SIZE as u64 > file_len {
        return Err(
            ZacError::Truncated {
                offset: body_offset,
                need: (body_end + TRAILER_SIZE as u64 - file_len) as usize,
                have: 0,
            },
        );
    }
    if body_end + TRAILER_SIZE as u64 != file_len {
        return Err(
            ZacError::BadAlignment {
                offset: 20,
                reason: "file size doesn't equal body_offset + body_size + 40",
            },
        );
    }
    if let Some(i) = first_nonzero(bytes, index_end, body_offset) {
        return Err(
            ZacError::BadAlignment {
                offset: i,
                reason: "non-zero padding between index and first body",
            },
        );
    }
    let entries = parse_index(
        bytes,
        INDEX_OFFSET as usize,
        header.section_count,
        header.body_offset,
        header.body_size,
    )?;
    Ok((header, entries))
}

/// Read, check and type the body of index entry `i`.
fn parse_body(bytes: &[u8], entries: &Vec<IndexEntry>, header: &Header, i: usize) -> (r: ZacResult<
    Section,
>)
    requires
        i < entries@.len(),
        crate::index::entry_end(entries@[i as int]) <= pad_end_of(entries@, i as int, *header),
        i + 1 == entries@.len() ==> pad_end_of(entries@, i as int, *header) == header.body_offset
            + header.body_size,
        pad_end_of(entries@, i as int, *header) <= header.body_offset + header.body_size,
        header.body_offset + header.body_size + 40 == bytes@.len(),
    ensures
        match r {
            Ok(sec) => body_step(bytes@, entries@, *header, i as int) matches Ok(sv) && sec@ == sv,
            Err(e) => body_step(bytes@, entries@, *header, i as int) == Err::<SectionV, ZacError>(e),
        },
{
    let len = bytes.len();
    let n = entries.len();
    let entry = &entries[i];
    let abs = entry.offset as usize;
    if entry.offset as u64 + entry.size as u64 > (len - TRAILER_SIZE) as u64 {
        return Err(
            ZacError::Truncated { offset: abs, need: entry.size as usize, have: len.saturating_sub(abs) },
        );
    }
    let end = abs + entry.size as usize;
    let body = vstd::slice::slice_subrange(bytes, abs, end);
    let observed = crc32(body);
    if observed != entry.crc32 {
        return Err(
            ZacError::BadCrc32 {
                entry_index: i,
                section_type: entry.section_type,
                expected: entry.crc32,
                got: observed,
            },
        );
    }
    let pad_end = if i + 1 < n {
        entries[i + 1].offset as usize
    } else {
        (header.body_offset as u64 + header.body_size as u64) as usize
    };
    assert(entries@[i as int] == *entry);
    if let Some(j) = first_nonzero(bytes, end, pad_end) {
        return Err(ZacError::BadAlignment { offset: j, reason: "non-zero alignment padding" });
    }
    Section::parse(entry.section_type, body, abs, i)
}

/// The first mandatory section missing from `sections`, if any.
fn check_mandatory(sections: &Vec<Section>) -> (r: ZacResult<()>)
    ensures
        match r {
            Ok(_) => missing_error(sections@.map_values(|s: Section| s@)) is None,
            Err(e) => missing_error(sections@.map_values(|s: Section| s@)) == Some(e),
        },
{
    let ghost svs = sections@.map_values(|s: Section| s@);
    let n = sections.len();
    let mut has_vkey_b = false;
    let mut has_iface_b = false;
    let mut has_r1cs_b = false;
    let mut k: usize = 0;
    while k < n
        invariant
            n == sections@.len(),
            svs == sections@.map_values(|s: Section| s@),
            k <= n,
            has_vkey_b <==> exists|j: int| 0 <= j < k && svs[j] is Vkey,
            has_iface_b <==> exists|j: int| 0 <= j < k && svs[j] is Interface,
            has_r1cs_b <==> exists|j: int| 0 <= j < k && svs[j] is R1csHash,
        decreases n - k,
    {
        assert(svs[k as int] == sections@[k as int]@);
        match &sections[k] {
            Section::Vkey(_) => {
                has_vkey_b = true;
            },
            Section::Interface(_) => {
                has_iface_b = true;
            },
            Section::R1csHash(_) => {
                has_r1cs_b = true;
            },
            _ => {},
        }
        k = k + 1;
    }
    if !has_vkey_b {
        return Err(ZacError::MissingMandatorySection { missing_type: 0x01, name: "VKEY" });
    }
    if !has_iface_b {
        return Err(ZacError::MissingMandatorySection { missing_type: 0x02, name: "INTERFACE" });
    }
    if !has_r1cs_b {
        return Err(ZacError::MissingMandatorySection { missing_type: 0x03, name: "R1CS_HASH" });
    }
    Ok(())
}

/// Trailer and file-hash checks.
fn parse_tail(bytes: &[u8]) -> (r: ZacResult<Trailer>)
    requires
        bytes@.len() >= 72,
    ensures
        match r {
            Ok(t) => t.file_hash@ == bytes@.subrange(bytes@.len() - 32, bytes@.len() as int)
                && trailer_error(
                bytes@.subrange(bytes@.len() - 40, bytes@.len() as int),
                (bytes@.len() - 40) as usize,
            ) is None && recomputed_hash(bytes@)@ == t.file_hash@,
            Err(e) => trailer_error(
                bytes@.subrange(bytes@.len() - 40, bytes@.len() as int),
                (bytes@.len() - 40) as usize,
            ) == Some(e) || (trailer_error(
                bytes@.subrange(bytes@.len() - 40, bytes@.len() as int),
                (bytes@.len() - 40) as usize,
            ) is None && recomputed_hash(bytes@)@ != bytes@.subrange(
                bytes@.len() - 32,
                bytes@.len() as int,
            ) && e == ZacError::BadFileHash {
                trailer: to_arr32(bytes@.subrange(bytes@.len() - 32, bytes@.len() as int)),
                computed: recomputed_hash(bytes@),
            }),
        },
{
    let len = bytes.len();
    let trailer_off = len - TRAILER_SIZE;
    let trailer = Trailer::parse(vstd::slice::slice_subrange(bytes, trailer_off, len), trailer_off)?;
    let computed = file_hash(
        vstd::slice::slice_subrange(bytes, 4, 8),
        vstd::slice::slice_subrange(bytes, INDEX_OFFSET as usize, trailer_off),
    );
    let mut same = true;
    let mut q: usize = 0;
    while q < 32
        invariant
            q <= 32,
            same <==> forall|j: int| 0 <= j < q ==> computed@[j] == trailer.file_hash@[j],
        decreases 32 - q,
    {
        if computed[q] != trailer.file_hash[q] {
            same = false;
        }
        q = q + 1;
    }
    proof {
        assert(trailer.file_hash@ =~= bytes@.subrange(len - 32, len as int));
        assert(same <==> computed@ =~= trailer.file_hash@);
        lemma_to_arr32(trailer.file_hash);
    }
    if !same {
        return Err(ZacError::BadFileHash { trailer: trailer.file_hash, computed });
    }
    Ok(trailer)
}

impl ZacFile {
    /// Parse a complete `.zac` byte stream, enforcing every structural rule,
    /// every section CRC-32, the mandatory sections and the trailer
    /// `file_hash`.
    pub fn parse(bytes: &[u8]) -> (r: ZacResult<ZacFile>)
        ensures
            match r {
                Ok(z) => zac_result(bytes@) matches Ok(zv) && z@ == zv,
                Err(e) => zac_result(bytes@) == Err::<ZacFileV, ZacError>(e),
            },
    {
        let (header, entries) = parse_prefix(bytes)?;
        let n = entries.len();
        let ghost es = entries@;
        let mut sections: Vec<Section> = Vec::new();
        let mut i: usize = 0;
        while i < n
            invariant
                n == entries@.len(),
                index_well_formed(entries@, header.body_offset, header.body_size),
                header.body_offset + header.body_size + 40 == bytes@.len(),
                zac_prefix(bytes@) == Ok::<(Header, Seq<IndexEntry>), ZacError>((header, entries@)),
                i <= n,
                sections_scan(bytes@, entries@, header, i as nat) matches Ok(svs) && svs
                    == sections@.map_values(|s: Section| s@),
            decreases n - i,
        {
            let ghost prev = sections@.map_values(|s: Section| s@);
            proof {
                lemma_wf_entry_bounds(entries@, header, i as int);
            }
            let section = match parse_body(bytes, &entries, &header, i) {
                Ok(s) => s,
                Err(e) => {
                    proof {
                        lemma_sections_err_stable(bytes@, entries@, header, (i + 1) as nat, n as nat);
                    }
                    return Err(e);
                },
            };
            sections.push(section);
            i = i + 1;
            assert(sections@.map_values(|s: Section| s@) =~= prev.push(section@));
        }
        check_mandatory(&sections)?;
        let trailer = parse_tail(bytes)?;
        Ok(ZacFile { header, sections, trailer })
    }
}

/// The body bytes of every section.
pub open spec fn bodies_of(svs: Seq<SectionV>) -> Seq<Seq<u8>> {
    svs.map_values(|sv: SectionV| body_bytes(sv))
}

/// How many bytes body slot `len` takes before padding: its length, except
/// that an empty body other than the last still takes 8 bytes, so that the
/// next body starts strictly after it.
pub open spec fn slot_len(len: int, last: bool) -> int {
    if len == 0 && !last {
        8
    } else {
        len
    }
}

/// Where body `k` starts when bodies are laid out from `start`, each slot
/// padded to a multiple of 8 (for `k == bs.len()`: the end of the body
/// region).
pub open spec fn body_pos(bs: Seq<Seq<u8>>, start: int, k: nat) -> int
    decreases k,
{
    if k == 0 {
        start
    } else {
        align8(
            body_pos(bs, start, (k - 1) as nat) + slot_len(bs[k - 1].len() as int, k == bs.len()),
        )
    }
}

/// Offset of the first body for `n` sections: the end of the index, rounded
/// up to a multiple of 8.
pub open spec fn first_body(n: nat) -> int {
    align8(32 + 16 * n as int)
}

/// The index entries `ZacFile::encode` writes.
pub open spec fn encoded_entries(svs: Seq<SectionV>) -> Seq<IndexEntry> {
    let bs = bodies_of(svs);
    Seq::new(
        svs.len(),
        |i: int|
            IndexEntry {
                section_type: section_type_of(svs[i]),
                flags: 0,
                offset: body_pos(bs, first_body(svs.len()), i as nat) as u32,
                size: bs[i].len() as u32,
                crc32: crc32_ieee(bs[i]),
            },
    )
}

/// The concatenated encodings of the first `k` entries.
pub open spec fn entries_bytes(es: Seq<IndexEntry>, k: nat) -> Seq<u8>
    decreases k,
{
    if k == 0 {
        Seq::empty()
    } else {
        entries_bytes(es, (k - 1) as nat) + entry_bytes(es[k - 1])
    }
}

/// The first `k` bodies, each followed by its zero padding.
pub open spec fn body_region(bs: Seq<Seq<u8>>, start: int, k: nat) -> Seq<u8>
    decreases k,
{
    if k == 0 {
        Seq::empty()
    } else {
        body_region(bs, start, (k - 1) as nat) + bs[k - 1] + zeros(
            (body_pos(bs, start, k) - body_pos(bs, start, (k - 1) as nat) - bs[k - 1].len()) as nat,
        )
    }
}

/// The header `ZacFile::encode` writes: geometry recomputed, version and
/// flags kept.
pub open spec fn encoded_header(h: Header, svs: Seq<SectionV>) -> Header {
    let n = svs.len();
    let fb = first_body(n);
    Header {
        section_count: n as u16,
        body_offset: fb as u32,
        body_size: (body_pos(bodies_of(svs), fb, n) - fb) as u32,
        ..h
    }
}

/// Everything `ZacFile::encode` writes before the trailer.
#[verifier::opaque]
pub open spec fn zac_pre_bytes(h: Header, svs: Seq<SectionV>) -> Seq<u8> {
    let n = svs.len();
    let fb = first_body(n);
    header_bytes(encoded_header(h, svs)) + entries_bytes(encoded_entries(svs), n) + zeros(
        (fb - (32 + 16 * n)) as nat,
    ) + body_region(bodies_of(svs), fb, n)
}

/// The bytes `ZacFile::encode` writes.
#[verifier::opaque]
pub open spec fn zac_bytes(h: Header, svs: Seq<SectionV>) -> Seq<u8> {
    let pre = zac_pre_bytes(h, svs);
    pre + trailer_bytes(file_hash_spec(pre.subrange(4, 8), pre.subrange(32, pre.len() as int))@)
}

/// `body_pos` never decreases, each step covers its body, and every body
/// but the last starts strictly before the next one.
proof fn lemma_body_pos_step(bs: Seq<Seq<u8>>, start: int, k: nat)
    requires
        k < bs.len(),
    ensures
        body_pos(bs, start, k) + bs[k as int].len() <= body_pos(bs, start, k + 1),
        body_pos(bs, start, k + 1) <= body_pos(bs, start, k) + bs[k as int].len() + 15,
        body_pos(bs, start, k + 1) % 8 == 0,
        k + 1 < bs.len() ==> body_pos(bs, start, k) < body_pos(bs, start, k + 1),
        k + 1 == bs.len() ==> body_pos(bs, start, k + 1) == align8(
            body_pos(bs, start, k) + bs[k as int].len(),
        ),
{
    let x = body_pos(bs, start, k) + slot_len(bs[k as int].len() as int, k + 1 == bs.len());
    assert(align8(x) == ((x + 7) / 8) * 8);
}

proof fn lemma_body_pos_mono(bs: Seq<Seq<u8>>, start: int, j: nat, k: nat)
    requires
        j <= k <= bs.len(),
    ensures
        body_pos(bs, start, j) <= body_pos(bs, start, k),
    decreases k - j,
{
    if j < k {
        lemma_body_pos_mono(bs, start, j, (k - 1) as nat);
        lemma_body_pos_step(bs, start, (k - 1) as nat);
    }
}

proof fn lemma_body_region_len(bs: Seq<Seq<u8>>, start: int, k: nat)
    requires
        k <= bs.len(),
    ensures
        body_region(bs, start, k).len() == body_pos(bs, start, k) - start,
    decreases k,
{
    if k > 0 {
        lemma_body_region_len(bs, start, (k - 1) as nat);
        lemma_body_pos_step(bs, start, (k - 1) as nat);
    }
}

/// Round `n` up to a multiple of `align` (a power of two).
fn align_up(n: usize, align: usize) -> (r: usize)
    requires
        align == 8,
        n + 7 <= usize::MAX,
    ensures
        r == align8(n as int),
{
    (n + 7) / 8 * 8
}

/// The layout of the bodies: each encoded body, its offset, size and CRC-32,
/// and the end of the body region.
#[verifier::rlimit(40)]
fn layout_bodies(sections: &Vec<Section>) -> (r: (Vec<Vec<u8>>, Vec<u32>, Vec<u32>, Vec<u32>, usize))
    requires
        1 <= sections@.len() <= 16,
        body_pos(
            bodies_of(sections@.map_values(|s: Section| s@)),
            first_body(sections@.len() as nat),
            sections@.len() as nat,
        ) + 48 <= usize::MAX,
    ensures
        ({
            let (bodies, offsets, sizes, crcs, end) = r;
            let svs = sections@.map_values(|s: Section| s@);
            let bs = bodies_of(svs);
            let es = encoded_entries(svs);
            let n = sections@.len();
            &&& bodies@.len() == n && offsets@.len() == n && sizes@.len() == n && crcs@.len() == n
            &&& forall|j: int| 0 <= j < n ==> (#[trigger] bodies@[j])@ == bs[j]
            &&& forall|j: int|
                0 <= j < n ==> offsets@[j] == es[j].offset && sizes@[j] == es[j].size
                    && crcs@[j] == es[j].crc32
            &&& end == body_pos(bs, first_body(n as nat), n as nat)
        }),
{
    let n = sections.len();
    let ghost svs = sections@.map_values(|s: Section| s@);
    let ghost bs = bodies_of(svs);
    let ghost fb = first_body(n as nat);
    let index_end = INDEX_OFFSET as usize + n * INDEX_ENTRY_SIZE;
    let mut cursor = align_up(index_end, 8);
    let mut bodies: Vec<Vec<u8>> = Vec::new();
    let mut offsets: Vec<u32> = Vec::new();
    let mut sizes: Vec<u32> = Vec::new();
    let mut crcs: Vec<u32> = Vec::new();
    let mut i: usize = 0;
    while i < n
        invariant
            n == sections@.len(),
            svs == sections@.map_values(|s: Section| s@),
            bs == bodies_of(svs),
            fb == first_body(n as nat),
            body_pos(bs, fb, n as nat) + 48 <= usize::MAX,
            i <= n,
            cursor == body_pos(bs, fb, i as nat),
            bodies@.len() == i && offsets@.len() == i && sizes@.len() == i && crcs@.len() == i,
            forall|j: int| 0 <= j < i ==> (#[trigger] bodies@[j])@ == bs[j],
            forall|j: int| 0 <= j < i ==> #[trigger] offsets@[j] == body_pos(bs, fb, j as nat) as u32,
            forall|j: int| 0 <= j < i ==> #[trigger] sizes@[j] == bs[j].len() as u32,
            forall|j: int| 0 <= j < i ==> #[trigger] crcs@[j] == crc32_ieee(bs[j]),
        decreases n - i,
    {
        proof {
            lemma_body_pos_step(bs, fb, i as nat);
            lemma_body_pos_mono(bs, fb, (i + 1) as nat, n as nat);
        }
        let body = sections[i].encode_body();
        assert(body@ == bs[i as int]);
        let crc = crc32(body.as_slice());
        offsets.push(cursor as u32);
        sizes.push(body.len() as u32);
        crcs.push(crc);
        let slot = if body.len() == 0 && i + 1 < n { 8 } else { body.len() };
        cursor = align_up(cursor + slot, 8);
        bodies.push(body);
        i = i + 1;
    }
    let ghost es = encoded_entries(svs);
    assert forall|j: int| 0 <= j < n implies offsets@[j] == es[j].offset && sizes@[j] == es[j].size
        && crcs@[j] == es[j].crc32 by {
        assert(bodies@[j]@ == bs[j]);
    }
    (bodies, offsets, sizes, crcs, cursor)
}

/// Append the index entries.
fn write_index(
    out: &mut Vec<u8>,
    sections: &Vec<Section>,
    offsets: &Vec<u32>,
    sizes: &Vec<u32>,
    crcs: &Vec<u32>,
)
    requires
        offsets@.len() == sections@.len() && sizes@.len() == sections@.len() && crcs@.len()
            == sections@.len(),
        forall|j: int|
            0 <= j < sections@.len() ==> offsets@[j] == encoded_entries(
                sections@.map_values(|s: Section| s@),
            )[j].offset && sizes@[j] == encoded_entries(
                sections@.map_values(|s: Section| s@),
            )[j].size && crcs@[j] == encoded_entries(sections@.map_values(|s: Section| s@))[j].crc32,
    ensures
        final(out)@ == old(out)@ + entries_bytes(
            encoded_entries(sections@.map_values(|s: Section| s@)),
            sections@.len() as nat,
        ),
{
    let n = sections.len();
    let ghost start = out@;
    let ghost svs = sections@.map_values(|s: Section| s@);
    let ghost es = encoded_entries(svs);
    let mut k: usize = 0;
    while k < n
        invariant
            n == sections@.len(),
            svs == sections@.map_values(|s: Section| s@),
            es == encoded_entries(svs),
            offsets@.len() == n && sizes@.len() == n && crcs@.len() == n,
            forall|j: int|
                0 <= j < n ==> offsets@[j] == es[j].offset && sizes@[j] == es[j].size && crcs@[j]
                    == es[j].crc32,
            k <= n,
            out@ == start + entries_bytes(es, k as nat),
        decreases n - k,
    {
        let entry = IndexEntry {
            section_type: sections[k].section_type(),
            flags: 0,
            offset: offsets[k],
            size: sizes[k],
            crc32: crcs[k],
        };
        assert(entry == es[k as int]);
        let eb = entry.encode();
        push_slice(out, eb.as_slice());
        k = k + 1;
    }
}

/// Append the bodies, each zero-padded to a multiple of 8.
fn write_bodies(out: &mut Vec<u8>, bodies: &Vec<Vec<u8>>, Ghost(bs): Ghost<Seq<Seq<u8>>>)
    requires
        bodies@.len() == bs.len(),
        forall|j: int| 0 <= j < bs.len() ==> (#[trigger] bodies@[j])@ == bs[j],
        old(out)@.len() % 8 == 0,
        body_pos(bs, old(out)@.len() as int, bs.len()) + 48 <= usize::MAX,
    ensures
        final(out)@ == old(out)@ + body_region(bs, old(out)@.len() as int, bs.len()),
{
    let n = bodies.len();
    let ghost start = out@;
    let ghost fb = start.len() as int;
    let mut b: usize = 0;
    while b < n
        invariant
            n == bodies@.len(),
            n == bs.len(),
            forall|j: int| 0 <= j < n ==> (#[trigger] bodies@[j])@ == bs[j],
            body_pos(bs, fb, n as nat) + 48 <= usize::MAX,
            b <= n,
            out@ == start + body_region(bs, fb, b as nat),
            start.len() == fb,
        decreases n - b,
    {
        proof {
            lemma_body_pos_step(bs, fb, b as nat);
            lemma_body_pos_mono(bs, fb, (b + 1) as nat, n as nat);
            lemma_body_region_len(bs, fb, b as nat);
        }
        let ghost before = out@;
        let slot_start = out.len();
        push_slice(out, bodies[b].as_slice());
        let slot = if bodies[b].len() == 0 && b + 1 < n { 8 } else { bodies[b].len() };
        let next = align_up(slot_start + slot, 8);
        let pad = next - out.len();
        push_zeros(out, pad);
        b = b + 1;
        assert(out@ =~= before + bs[b - 1] + zeros(
            (body_pos(bs, fb, b as nat) - body_pos(bs, fb, (b - 1) as nat) - bs[b - 1].len()) as nat,
        ));
    }
}

impl ZacFile {
    /// Encode to bytes. Header geometry (section count, body offset, body
    /// size), every index entry and the trailer `file_hash` are recomputed;
    /// version and flags come from `self.header`. Each body starts 8-aligned;
    /// an empty body other than the last still takes an 8-byte slot, so
    /// section offsets strictly increase.
    pub fn encode(&self) -> (r: Vec<u8>)
        requires
            1 <= self.sections@.len() <= 16,
            body_pos(
                bodies_of(self@.sections),
                first_body(self.sections@.len() as nat),
                self.sections@.len() as nat,
            ) + 48 <= usize::MAX,
        ensures
            r@ == zac_bytes(self.header, self@.sections),
    {
        let n = self.sections.len();
        let ghost svs = self@.sections;
        let ghost bs = bodies_of(svs);
        let ghost fb = first_body(n as nat);
        let index_end = INDEX_OFFSET as usize + n * INDEX_ENTRY_SIZE;
        let body_offset_calc = align_up(index_end, 8);
        let (bodies, offsets, sizes, crcs, body_end) = layout_bodies(&self.sections);
        proof {
            lemma_body_pos_mono(bs, fb, 0, n as nat);
        }
        let header = Header {
            version_major: self.header.version_major,
            version_minor: self.header.version_minor,
            version_patch: self.header.version_patch,
            flags: self.header.flags,
            section_count: n as u16,
            body_offset: body_offset_calc as u32,
            body_size: (body_end - body_offset_calc) as u32,
        };
        assert(header == encoded_header(self.header, svs));
        let header_bytes_arr = header.encode();
        let mut out: Vec<u8> = Vec::new();
        push_slice(&mut out, header_bytes_arr.as_slice());
        write_index(&mut out, &self.sections, &offsets, &sizes, &crcs);
        proof {
            crate::index::lemma_align8_facts(32 + 16 * n);
            lemma_entries_bytes_len(encoded_entries(svs), n as nat);
        }
        push_zeros(&mut out, body_offset_calc - index_end);
        assert(out@.len() == fb);
        write_bodies(&mut out, &bodies, Ghost(bs));
        assert(out@ =~= zac_pre_bytes(self.header, svs)) by {
            reveal(zac_pre_bytes);
        }
        proof {
            lemma_body_region_len(bs, fb, n as nat);
        }
        let total = out.len();
        let computed = file_hash(
            vstd::slice::slice_subrange(out.as_slice(), 4, 8),
            vstd::slice::slice_subrange(out.as_slice(), INDEX_OFFSET as usize, total),
        );
        let trailer = Trailer { file_hash: computed };
        let tb = trailer.encode();
        push_slice(&mut out, tb.as_slice());
        proof {
            reveal(zac_bytes);
        }
        out
    }
}

proof fn lemma_entries_bytes_len(es: Seq<IndexEntry>, k: nat)
    ensures
        entries_bytes(es, k).len() == 16 * k,
    decreases k,
{
    if k > 0 {
        lemma_entries_bytes_len(es, (k - 1) as nat);
    }
}

/// The sections of a `.zac` that `ZacFile::encode` writes losslessly: v1.0
/// version and flags, 1..=16 sections, each one encodable, pairwise distinct
/// types, the three mandatory sections present, and the whole layout within
/// `u32` offsets.
pub open spec fn zac_encodable(h: Header, svs: Seq<SectionV>) -> bool {
    let n = svs.len();
    let bs = bodies_of(svs);
    &&& h.version_major == 1
    &&& h.flags == 0
    &&& 1 <= n <= 16
    &&& forall|i: int| 0 <= i < n ==> section_valid(#[trigger] svs[i])
    &&& forall|i: int, j: int|
        0 <= i < j < n ==> section_type_of(#[trigger] svs[i]) != section_type_of(#[trigger] svs[j])
    &&& has_vkey(svs) && has_interface(svs) && has_r1cs_hash(svs)
    &&& body_pos(bs, first_body(n), n) + 40 <= u32::MAX
}

proof fn lemma_entries_bytes_window(es: Seq<IndexEntry>, k: nat, j: int)
    requires
        0 <= j < k,
    ensures
        entries_bytes(es, k).len() == 16 * k,
        entries_bytes(es, k).subrange(16 * j, 16 * j + 16) == entry_bytes(es[j]),
    decreases k,
{
    lemma_entries_bytes_len(es, k);
    lemma_entries_bytes_len(es, (k - 1) as nat);
    if j < k - 1 {
        lemma_entries_bytes_window(es, (k - 1) as nat, j);
        assert(entries_bytes(es, k).subrange(16 * j, 16 * j + 16) =~= entries_bytes(
            es,
            (k - 1) as nat,
        ).subrange(16 * j, 16 * j + 16));
    } else {
        assert(entries_bytes(es, k).subrange(16 * j, 16 * j + 16) =~= entry_bytes(es[j]));
    }
}

proof fn lemma_region_window(bs: Seq<Seq<u8>>, start: int, k: nat, j: int)
    requires
        0 <= j < k <= bs.len(),
    ensures
        body_region(bs, start, k).subrange(
            body_pos(bs, start, j as nat) - start,
            body_pos(bs, start, j as nat) - start + bs[j].len(),
        ) == bs[j],
        all_zero(
            body_region(bs, start, k),
            body_pos(bs, start, j as nat) - start + bs[j].len(),
            body_pos(bs, start, (j + 1) as nat) - start,
        ),
    decreases k,
{
    lemma_body_region_len(bs, start, k);
    lemma_body_region_len(bs, start, (k - 1) as nat);
    lemma_body_pos_step(bs, start, (k - 1) as nat);
    let r = body_region(bs, start, k);
    let r0 = body_region(bs, start, (k - 1) as nat);
    let a = body_pos(bs, start, j as nat) - start;
    lemma_body_pos_mono(bs, start, 0, j as nat);
    if j < k - 1 {
        lemma_region_window(bs, start, (k - 1) as nat, j);
        lemma_body_pos_step(bs, start, j as nat);
        lemma_body_pos_mono(bs, start, (j + 1) as nat, (k - 1) as nat);
        assert(r.subrange(a, a + bs[j].len()) =~= r0.subrange(a, a + bs[j].len()));
        assert forall|q: int|
            a + bs[j].len() <= q < body_pos(bs, start, (j + 1) as nat) - start implies r[q] == 0 by {
            assert(r[q] == r0[q]);
        }
    } else {
        assert(a == r0.len());
        assert(r.subrange(a, a + bs[j].len()) =~= bs[j]);
    }
}

proof fn lemma_scan_encoded(s: Seq<u8>, es: Seq<IndexEntry>, k: nat)
    requires
        k <= es.len(),
        32 + 16 * es.len() as int <= s.len(),
        s.subrange(32, 32 + 16 * es.len() as int) == entries_bytes(es, es.len()),
        forall|i: int|
            0 <= i < es.len() ==> (#[trigger] es[i]).flags == 0 && allowed_section_type(
                es[i].section_type,
            ) && es[i].offset % 8 == 0,
        forall|i: int, j: int|
            0 <= i < j < es.len() ==> (#[trigger] es[i]).section_type
                != (#[trigger] es[j]).section_type,
    ensures
        index_scan(s, 32, k) == Ok::<Seq<IndexEntry>, ZacError>(es.take(k as int)),
    decreases k,
{
    if k == 0 {
        assert(es.take(0) =~= Seq::<IndexEntry>::empty());
    } else {
        let j = (k - 1) as int;
        lemma_scan_encoded(s, es, (k - 1) as nat);
        lemma_entries_bytes_window(es, es.len(), j);
        let abs = 32 + j * 16;
        assert(s.subrange(abs, abs + 16) =~= entries_bytes(es, es.len()).subrange(
            16 * j,
            16 * j + 16,
        ));
        lemma_entry_round_trip(es[j], j as usize, abs as usize);
        let prev = es.take(j);
        if type_seen(prev, es[j].section_type) {
            let q = choose|q: int| 0 <= q < prev.len() && prev[q].section_type == es[j].section_type;
            assert(es[q].section_type != es[j].section_type);
        }
        assert(es.take(k as int) =~= prev.push(es[j]));
    }
}

#[verifier::rlimit(50)]
proof fn lemma_body_step_encoded(h: Header, svs: Seq<SectionV>, j: int)
    requires
        zac_encodable(h, svs),
        0 <= j < svs.len(),
    ensures
        body_step(zac_bytes(h, svs), encoded_entries(svs), encoded_header(h, svs), j) == Ok::<
            SectionV,
            ZacError,
        >(svs[j]),
{
    let s = zac_bytes(h, svs);
    let es = encoded_entries(svs);
    let hh = encoded_header(h, svs);
    let n = svs.len();
    let bs = bodies_of(svs);
    let fb = first_body(n);
    lemma_layout(h, svs);
    let pos = body_pos(bs, fb, j as nat);
    let end = pos + bs[j].len();
    lemma_body_pos_step(bs, fb, j as nat);
    lemma_body_pos_mono(bs, fb, (j + 1) as nat, n);
    lemma_body_pos_mono(bs, fb, 0, j as nat);
    lemma_region_window(bs, fb, n, j);
    assert(es[j].offset == pos && es[j].size == bs[j].len());
    let region = body_region(bs, fb, n);
    assert(s.subrange(pos, end) =~= region.subrange(pos - fb, pos - fb + bs[j].len()));
    let pe = pad_end_of(es, j, hh);
    assert(pe == body_pos(bs, fb, (j + 1) as nat));
    assert(all_zero(s, end, pe)) by {
        assert forall|q: int| end <= q < pe implies s[q] == 0 by {
            assert(s[q] == region[q - fb]);
        }
    }
    lemma_first_nonzero(s, end, pe);
    assert(section_valid(svs[j]));
    lemma_section_round_trip(svs[j], pos, j as usize);
}

proof fn lemma_sections_scan_encoded(h: Header, svs: Seq<SectionV>, k: nat)
    requires
        zac_encodable(h, svs),
        k <= svs.len(),
    ensures
        sections_scan(
            zac_bytes(h, svs),
            encoded_entries(svs),
            encoded_header(h, svs),
            k,
        ) == Ok::<Seq<SectionV>, ZacError>(svs.take(k as int)),
    decreases k,
{
    if k == 0 {
        assert(svs.take(0) =~= Seq::<SectionV>::empty());
    } else {
        let j = (k - 1) as int;
        lemma_sections_scan_encoded(h, svs, (k - 1) as nat);
        lemma_body_step_encoded(h, svs, j);
        assert(svs.take(k as int) =~= svs.take(j).push(svs[j]));
    }
}

/// What `ZacFile::encode` writes, byte by byte: the header with the
/// geometry recomputed, one index entry per section (type, offset, size,
/// CRC-32), zero padding up to the first body at the end of the index
/// rounded up to 8, each body at its 8-aligned slot followed by zero
/// padding, and the trailer carrying the hash of bytes 4..8 and of
/// everything from the index to the end of the bodies.
pub proof fn lemma_layout(h: Header, svs: Seq<SectionV>)
    requires
        1 <= svs.len() <= 16,
        body_pos(bodies_of(svs), first_body(svs.len()), svs.len()) + 40 <= u32::MAX,
    ensures
        ({
            let s = zac_bytes(h, svs);
            let pre = zac_pre_bytes(h, svs);
            let n = svs.len();
            let bs = bodies_of(svs);
            let fb = first_body(n);
            let e = body_pos(bs, fb, n);
            let es = encoded_entries(svs);
            &&& 32 + 16 * n as int <= fb < 32 + 16 * n as int + 8
            &&& fb % 8 == 0
            &&& fb <= e
            &&& pre.len() == e
            &&& s.len() == e + 40
            &&& s.subrange(0, 32) == header_bytes(encoded_header(h, svs))
            &&& s.subrange(32, 32 + 16 * n as int) == entries_bytes(es, n)
            &&& all_zero(s, 32 + 16 * n as int, fb)
            &&& s.subrange(fb, e) == body_region(bs, fb, n)
            &&& s.subrange(0, e) == pre
            &&& s.subrange(e, e + 40) == trailer_bytes(
                file_hash_spec(pre.subrange(4, 8), pre.subrange(32, e))@,
            )
            &&& forall|i: int|
                0 <= i < n ==> (#[trigger] es[i]).offset == body_pos(bs, fb, i as nat) && es[i].size
                    == bs[i].len() && es[i].offset % 8 == 0
        }),
{
    let s = zac_bytes(h, svs);
    let pre = zac_pre_bytes(h, svs);
    let n = svs.len();
    let bs = bodies_of(svs);
    let fb = first_body(n);
    let e = body_pos(bs, fb, n);
    let es = encoded_entries(svs);
    lemma_align8_facts(32 + 16 * n as int);
    lemma_body_pos_mono(bs, fb, 0, n);
    lemma_body_region_len(bs, fb, n);
    lemma_entries_bytes_len(es, n);
    reveal(zac_pre_bytes);
    reveal(zac_bytes);
    let hb = header_bytes(encoded_header(h, svs));
    let eb = entries_bytes(es, n);
    let zb = zeros((fb - (32 + 16 * n as int)) as nat);
    let rb = body_region(bs, fb, n);
    assert(pre == hb + eb + zb + rb);
    assert(hb.len() == 32);
    assert(pre.len() == e);
    let hash = file_hash_spec(pre.subrange(4, 8), pre.subrange(32, e));
    assert(s == pre + trailer_bytes(hash@));
    assert(s.subrange(0, 32) =~= hb);
    assert(s.subrange(32, 32 + 16 * n as int) =~= eb);
    assert forall|q: int| 32 + 16 * n as int <= q < fb implies s[q] == 0 by {
        assert(s[q] == zb[q - (32 + 16 * n as int)]);
    }
    assert(s.subrange(fb, e) =~= rb);
    assert(s.subrange(0, e) =~= pre);
    assert(s.subrange(e, e + 40) =~= trailer_bytes(hash@));
    assert forall|i: int| 0 <= i < n implies (#[trigger] es[i]).offset == body_pos(bs, fb, i as nat)
        && es[i].size == bs[i].len() && es[i].offset % 8 == 0 by {
        lemma_body_pos_mono(bs, fb, i as nat, n);
        lemma_body_pos_mono(bs, fb, 0, i as nat);
        if i > 0 {
            lemma_body_pos_step(bs, fb, (i - 1) as nat);
        }
        lemma_body_pos_mono(bs, fb, (i + 1) as nat, n);
        lemma_body_pos_step(bs, fb, i as nat);
    }
}

/// The header and index of an encoded file read back as written.
proof fn lemma_round_trip_prefix(h: Header, svs: Seq<SectionV>)
    requires
        zac_encodable(h, svs),
    ensures
        zac_prefix(zac_bytes(h, svs)) == Ok::<(Header, Seq<IndexEntry>), ZacError>(
            (encoded_header(h, svs), encoded_entries(svs)),
        ),
{
    let s = zac_bytes(h, svs);
    let pre = zac_pre_bytes(h, svs);
    let n = svs.len();
    let bs = bodies_of(svs);
    let fb = first_body(n);
    let e = body_pos(bs, fb, n);
    let es = encoded_entries(svs);
    let hh = encoded_header(h, svs);
    lemma_layout(h, svs);
    // header
    assert(header_valid(hh));
    lemma_header_encode_parse(hh);
    assert(hh.body_offset == fb && hh.body_size == e - fb);
    lemma_first_nonzero(s, 32 + 16 * n as int, fb);
    // index
    assert forall|i: int| 0 <= i < es.len() implies (#[trigger] es[i]).flags == 0
        && allowed_section_type(es[i].section_type) && es[i].offset % 8 == 0 by {
        assert(section_valid(svs[i]));
    }
    assert forall|i: int, j: int| 0 <= i < j < es.len() implies (#[trigger] es[i]).section_type
        != (#[trigger] es[j]).section_type by {
        assert(section_type_of(svs[i]) != section_type_of(svs[j]));
    }
    lemma_scan_encoded(s, es, n);
    assert(es.take(n as int) =~= es);
    assert forall|i: int| 0 <= i < es.len() - 1 implies entry_end(#[trigger] es[i])
        <= es[i + 1].offset && es[i].offset < es[i + 1].offset by {
        lemma_body_pos_step(bs, fb, i as nat);
    }
    lemma_order_ok(es, 0);
    assert(es.last() == es[n - 1]);
    lemma_body_pos_step(bs, fb, (n - 1) as nat);
    assert(align8(entry_end(es.last())) == e);
    assert(index_result(s, 32, hh.section_count, hh.body_offset, hh.body_size) == Ok::<
        Seq<IndexEntry>,
        ZacError,
    >(es));
    assert(zac_prefix(s) == Ok::<(Header, Seq<IndexEntry>), ZacError>((hh, es)));
}

/// Encoding then parsing gives the file back: for every encodable header and
/// section list, `ZacFile::parse` accepts the bytes `ZacFile::encode`
/// writes, and returns the same sections, the header with its geometry
/// recomputed, and the file hash the trailer carries.
pub proof fn lemma_zac_round_trip(h: Header, svs: Seq<SectionV>)
    requires
        zac_encodable(h, svs),
    ensures
        ({
            let s = zac_bytes(h, svs);
            zac_result(s) == Ok::<ZacFileV, ZacError>(
                ZacFileV {
                    header: encoded_header(h, svs),
                    sections: svs,
                    file_hash: s.subrange(s.len() - 32, s.len() as int),
                },
            )
        }),
{
    let s = zac_bytes(h, svs);
    let pre = zac_pre_bytes(h, svs);
    let n = svs.len();
    let bs = bodies_of(svs);
    let fb = first_body(n);
    let e = body_pos(bs, fb, n);
    lemma_layout(h, svs);
    lemma_round_trip_prefix(h, svs);
    // bodies
    lemma_sections_scan_encoded(h, svs, n);
    assert(svs.take(n as int) =~= svs);
    lemma_round_trip_tail(h, svs);
}

/// Encoding is stable: parsing the bytes `ZacFile::encode` writes and
/// encoding the result again reproduces the same bytes.
pub proof fn lemma_zac_reencode(h: Header, svs: Seq<SectionV>)
    requires
        zac_encodable(h, svs),
    ensures
        match zac_result(zac_bytes(h, svs)) {
            Ok(f) => zac_bytes(f.header, f.sections) == zac_bytes(h, svs),
            Err(_) => false,
        },
{
    lemma_zac_round_trip(h, svs);
    let h2 = encoded_header(h, svs);
    assert(encoded_header(h2, svs) == h2);
    reveal(zac_pre_bytes);
    assert(zac_pre_bytes(h2, svs) == zac_pre_bytes(h, svs));
    reveal(zac_bytes);
}

/// Whether the bodies sit where `ZacFile::encode` puts them: the first at
/// the end of the index rounded up to 8 bytes, each next one at the end of
/// the previous one's slot (8 bytes for an empty body) rounded up to 8.
pub open spec fn packed(h: Header, es: Seq<IndexEntry>) -> bool {
    &&& h.body_offset == first_body(es.len())
    &&& forall|i: int|
        1 <= i < es.len() ==> #[trigger] es[i].offset == align8(
            es[i - 1].offset + slot_len(es[i - 1].size as int, false),
        )
}

/// Every body a successful scan read is the one its entry's step gives.
proof fn lemma_sections_scan_ok(s: Seq<u8>, es: Seq<IndexEntry>, h: Header, k: nat)
    requires
        sections_scan(s, es, h, k) is Ok,
    ensures
        sections_scan(s, es, h, k)->Ok_0.len() == k,
        forall|i: int|
            0 <= i < k ==> #[trigger] body_step(s, es, h, i) == Ok::<SectionV, ZacError>(
                sections_scan(s, es, h, k)->Ok_0[i],
            ),
    decreases k,
{
    if k > 0 {
        lemma_sections_scan_ok(s, es, h, (k - 1) as nat);
    }
}

/// The concatenated encodings of entries read from `s` are the bytes they
/// were read from.
proof fn lemma_entries_from(s: Seq<u8>, es: Seq<IndexEntry>, k: nat)
    requires
        k <= es.len(),
        32 + 16 * k <= s.len(),
        forall|i: int|
            0 <= i < k ==> entry_bytes(#[trigger] es[i]) == s.subrange(32 + 16 * i, 32 + 16 * i + 16),
    ensures
        entries_bytes(es, k) == s.subrange(32, 32 + 16 * k as int),
    decreases k,
{
    if k > 0 {
        let j = k - 1;
        lemma_entries_from(s, es, j as nat);
        assert(entry_bytes(es[j]) == s.subrange(32 + 16 * j, 32 + 16 * j + 16));
        assert(s.subrange(32, 32 + 16 * k as int) =~= s.subrange(32, 32 + 16 * j) + s.subrange(
            32 + 16 * j,
            32 + 16 * j + 16,
        ));
    }
}

/// Bodies found in `s` where `body_pos` puts them, each followed by zero
/// padding, make up the body region.
#[verifier::rlimit(60)]
proof fn lemma_region_from(s: Seq<u8>, bs: Seq<Seq<u8>>, start: int, k: nat)
    requires
        0 <= start,
        k <= bs.len(),
        body_pos(bs, start, k) <= s.len(),
        forall|i: int|
            0 <= i < k ==> s.subrange(
                body_pos(bs, start, i as nat),
                body_pos(bs, start, i as nat) + bs[i].len(),
            ) == #[trigger] bs[i] && all_zero(
                s,
                body_pos(bs, start, i as nat) + bs[i].len(),
                body_pos(bs, start, (i + 1) as nat),
            ),
    ensures
        body_region(bs, start, k) == s.subrange(start, body_pos(bs, start, k)),
    decreases k,
{
    if k > 0 {
        let j = (k - 1) as nat;
        lemma_body_pos_step(bs, start, j);
        lemma_body_pos_mono(bs, start, 0, j);
        lemma_region_from(s, bs, start, j);
        let p = body_pos(bs, start, j);
        let q = p + bs[j as int].len();
        let e = body_pos(bs, start, k);
        assert(bs[j as int] == s.subrange(p, q));
        assert(all_zero(s, q, e));
        assert(s.subrange(q, e) =~= zeros((e - q) as nat));
        assert(s.subrange(start, e) =~= s.subrange(start, p) + s.subrange(p, q) + s.subrange(q, e));
    }
}

/// In a packed file each entry sits at `body_pos` of the bodies before it.
proof fn lemma_packed_positions(h: Header, es: Seq<IndexEntry>, bs: Seq<Seq<u8>>, k: nat)
    requires
        packed(h, es),
        es.len() == bs.len(),
        k < es.len(),
        es[0].offset == h.body_offset,
        forall|i: int| 0 <= i < es.len() ==> (#[trigger] es[i]).size == bs[i].len(),
    ensures
        es[k as int].offset == body_pos(bs, first_body(es.len()), k),
    decreases k,
{
    if k > 0 {
        lemma_packed_positions(h, es, bs, (k - 1) as nat);
        assert(es[k as int].offset == align8(
            es[k - 1].offset + slot_len(es[k - 1].size as int, false),
        ));
    }
}

/// The entries of an accepted index encode back to the bytes they were
/// read from.
proof fn lemma_index_bytes(s: Seq<u8>, count: u16, body_offset: u32, body_size: u32)
    requires
        index_result(s, 32, count, body_offset, body_size) is Ok,
    ensures
        ({
            let es = index_result(s, 32, count, body_offset, body_size)->Ok_0;
            &&& es.len() == count
            &&& 32 + 16 * count <= s.len()
            &&& index_well_formed(es, body_offset, body_size)
            &&& entries_bytes(es, es.len()) == s.subrange(32, 32 + 16 * es.len() as int)
        }),
{
    let es = index_result(s, 32, count, body_offset, body_size)->Ok_0;
    lemma_index_facts(s, 32, count, body_offset, body_size);
    assert forall|i: int| 0 <= i < es.len() implies entry_bytes(#[trigger] es[i]) == s.subrange(
        32 + 16 * i,
        32 + 16 * i + 16,
    ) by {
        let t = s.subrange(32 + 16 * i, 32 + 16 * i + 16);
        lemma_entry_canonical(t, i as usize, (32 + 16 * i) as usize);
        assert(t.subrange(0, 16) =~= t);
    }
    lemma_entries_from(s, es, es.len());
}

/// What an accepted header and index say about the bytes: the header and
/// the entries encode back to the bytes they were read from, the padding
/// before the first body is zero, and the index is well formed.
#[verifier::rlimit(40)]
proof fn lemma_parsed_prefix(s: Seq<u8>)
    requires
        zac_prefix(s) is Ok,
    ensures
        ({
            let (h, es) = zac_prefix(s)->Ok_0;
            let ie: int = 32 + 16 * es.len() as int;
            &&& s.len() == h.body_offset + h.body_size + 40
            &&& ie <= h.body_offset
            &&& es.len() == h.section_count
            &&& header_bytes(h) == s.subrange(0, 32)
            &&& entries_bytes(es, es.len()) == s.subrange(32, ie)
            &&& all_zero(s, ie, h.body_offset as int)
            &&& index_well_formed(es, h.body_offset, h.body_size)
        }),
{
    let (h, es) = zac_prefix(s)->Ok_0;
    let hs = s.subrange(0, 32);
    assert(header_result(hs) == Ok::<Header, ZacError>(h));
    lemma_header_parse_encode(hs);
    assert(hs.subrange(0, 32) =~= hs);
    assert(index_result(s, 32, h.section_count, h.body_offset, h.body_size) == Ok::<
        Seq<IndexEntry>,
        ZacError,
    >(es));
    lemma_index_bytes(s, h.section_count, h.body_offset, h.body_size);
    lemma_first_nonzero(s, 32 + 16 * es.len() as int, h.body_offset as int);
}

/// What accepted bodies say about the bytes: each body is its entry's range
/// of `s`, of the entry's type and CRC, followed by zero padding.
proof fn lemma_parsed_bodies(s: Seq<u8>, es: Seq<IndexEntry>, h: Header)
    requires
        index_well_formed(es, h.body_offset, h.body_size),
        s.len() == h.body_offset + h.body_size + 40,
        sections_scan(s, es, h, es.len()) is Ok,
    ensures
        sections_scan(s, es, h, es.len())->Ok_0.len() == es.len(),
        forall|i: int|
            0 <= i < es.len() ==> #[trigger] body_laid_out(
                s,
                h,
                es,
                sections_scan(s, es, h, es.len())->Ok_0,
                i,
            ),
{
    let n = es.len();
    let svs = sections_scan(s, es, h, n)->Ok_0;
    lemma_sections_scan_ok(s, es, h, n);
    assert forall|i: int| 0 <= i < n implies #[trigger] body_laid_out(s, h, es, svs, i) by {
        assert(body_step(s, es, h, i) == Ok::<SectionV, ZacError>(svs[i]));
        let e = es[i];
        let body = s.subrange(e.offset as int, e.offset + e.size);
        lemma_section_canonical(e.section_type, body, e.offset as int, i as usize);
        lemma_first_nonzero(s, e.offset + e.size, pad_end_of(es, i, h));
    }
}

/// The parts of an accepted file: its header and index, its sections, and
/// a trailer whose hash is the recomputed one.
proof fn lemma_parsed_parts(s: Seq<u8>)
    requires
        zac_result(s) is Ok,
    ensures
        zac_prefix(s) is Ok,
        ({
            let (h, es) = zac_prefix(s)->Ok_0;
            let th = s.subrange(s.len() - 32, s.len() as int);
            &&& sections_scan(s, es, h, es.len()) is Ok
            &&& zac_result(s)->Ok_0 == ZacFileV {
                header: h,
                sections: sections_scan(s, es, h, es.len())->Ok_0,
                file_hash: th,
            }
            &&& trailer_error(s.subrange(s.len() - 40, s.len() as int), (s.len() - 40) as usize) is None
            &&& recomputed_hash(s)@ == th
        }),
{
}

/// Body `i` of an accepted file: its entry's range of `s`, of the entry's
/// type and CRC, followed by zero padding, the entry without flags.
pub open spec fn body_laid_out(
    s: Seq<u8>,
    h: Header,
    es: Seq<IndexEntry>,
    svs: Seq<SectionV>,
    i: int,
) -> bool {
    let bs = bodies_of(svs);
    &&& es[i].flags == 0
    &&& es[i].size == bs[i].len()
    &&& bs[i] == s.subrange(es[i].offset as int, es[i].offset + es[i].size)
    &&& section_type_of(svs[i]) == es[i].section_type
    &&& crc32_ieee(bs[i]) == es[i].crc32
    &&& all_zero(s, es[i].offset + es[i].size, pad_end_of(es, i, h))
}

/// The layout an accepted file has: the header and entries encode back to
/// their bytes, the padding before the first body is zero, the bodies run
/// from `body_offset` to the end of the body region, and each body is laid
/// out as `body_laid_out` says.
pub open spec fn parsed_layout(s: Seq<u8>, h: Header, es: Seq<IndexEntry>, svs: Seq<SectionV>) -> bool {
    let ie: int = 32 + 16 * es.len() as int;
    &&& svs.len() == es.len()
    &&& 1 <= es.len() <= 16
    &&& s.len() == h.body_offset + h.body_size + 40
    &&& ie <= h.body_offset
    &&& es.len() == h.section_count
    &&& header_bytes(h) == s.subrange(0, 32)
    &&& entries_bytes(es, es.len()) == s.subrange(32, ie)
    &&& all_zero(s, ie, h.body_offset as int)
    &&& es[0].offset == h.body_offset
    &&& align8(entry_end(es[es.len() - 1])) == h.body_offset + h.body_size
    &&& forall|i: int| 0 <= i < es.len() ==> #[trigger] body_laid_out(s, h, es, svs, i)
}

/// In a packed file the bodies sit at `body_pos` and make up the body
/// region.
#[verifier::rlimit(60)]
proof fn lemma_packed_region(s: Seq<u8>, h: Header, es: Seq<IndexEntry>, svs: Seq<SectionV>)
    requires
        packed(h, es),
        parsed_layout(s, h, es, svs),
    ensures
        forall|i: int|
            0 <= i < es.len() ==> (#[trigger] es[i]).offset == body_pos(
                bodies_of(svs),
                first_body(es.len()),
                i as nat,
            ),
        body_pos(bodies_of(svs), first_body(es.len()), es.len()) == h.body_offset + h.body_size,
        body_region(bodies_of(svs), first_body(es.len()), es.len()) == s.subrange(
            first_body(es.len()),
            h.body_offset + h.body_size,
        ),
{
    let n = es.len();
    let fb = first_body(n);
    let bs = bodies_of(svs);
    assert forall|i: int| 0 <= i < n implies (#[trigger] es[i]).size == bs[i].len() by {
        assert(body_laid_out(s, h, es, svs, i));
    }
    assert forall|i: int| 0 <= i < n implies (#[trigger] es[i]).offset == body_pos(
        bs,
        fb,
        i as nat,
    ) by {
        lemma_packed_positions(h, es, bs, i as nat);
    }
    assert forall|i: int| 0 <= i < n implies s.subrange(
        body_pos(bs, fb, i as nat),
        body_pos(bs, fb, i as nat) + bs[i].len(),
    ) == #[trigger] bs[i] && all_zero(
        s,
        body_pos(bs, fb, i as nat) + bs[i].len(),
        body_pos(bs, fb, (i + 1) as nat),
    ) by {
        assert(body_laid_out(s, h, es, svs, i));
        if i + 1 < n {
            assert(es[i + 1].offset == align8(es[i].offset + slot_len(es[i].size as int, false)));
        }
    }
    lemma_region_from(s, bs, fb, n);
}

/// In a packed file the header and entries `ZacFile::encode` writes are the
/// ones read.
#[verifier::rlimit(40)]
proof fn lemma_packed_encoded(s: Seq<u8>, h: Header, es: Seq<IndexEntry>, svs: Seq<SectionV>)
    requires
        packed(h, es),
        parsed_layout(s, h, es, svs),
    ensures
        encoded_header(h, svs) == h,
        encoded_entries(svs) == es,
{
    let n = es.len();
    lemma_packed_region(s, h, es, svs);
    assert forall|i: int| 0 <= i < n implies #[trigger] encoded_entries(svs)[i] == es[i] by {
        assert(body_laid_out(s, h, es, svs, i));
    }
    assert(encoded_entries(svs) =~= es);
}

/// Bytes made of the encoded header, the encoded entries, zero padding up
/// to the first body and the body region are everything `ZacFile::encode`
/// writes before the trailer.
#[verifier::rlimit(40)]
proof fn lemma_pre_from_parts(s: Seq<u8>, h: Header, svs: Seq<SectionV>, e: int)
    requires
        32 + 16 * svs.len() <= first_body(svs.len()) <= e <= s.len(),
        header_bytes(encoded_header(h, svs)) == s.subrange(0, 32),
        entries_bytes(encoded_entries(svs), svs.len()) == s.subrange(32, 32 + 16 * svs.len() as int),
        all_zero(s, 32 + 16 * svs.len() as int, first_body(svs.len())),
        body_region(bodies_of(svs), first_body(svs.len()), svs.len()) == s.subrange(
            first_body(svs.len()),
            e,
        ),
    ensures
        zac_pre_bytes(h, svs) == s.subrange(0, e),
{
    let n = svs.len();
    let ie: int = 32 + 16 * n as int;
    let fb = first_body(n);
    let hb = s.subrange(0, 32);
    let eb = s.subrange(32, ie);
    let zb = s.subrange(ie, fb);
    let rb = s.subrange(fb, e);
    assert(zb =~= zeros((fb - ie) as nat));
    assert(s.subrange(0, e) =~= hb + eb + zb + rb);
    reveal(zac_pre_bytes);
}

/// In a packed file everything before the trailer is what `ZacFile::encode`
/// writes there.
#[verifier::rlimit(60)]
proof fn lemma_packed_pre(s: Seq<u8>, h: Header, es: Seq<IndexEntry>, svs: Seq<SectionV>)
    requires
        packed(h, es),
        parsed_layout(s, h, es, svs),
    ensures
        zac_pre_bytes(h, svs) == s.subrange(0, h.body_offset + h.body_size),
{
    lemma_packed_region(s, h, es, svs);
    lemma_packed_encoded(s, h, es, svs);
    lemma_pre_from_parts(s, h, svs, h.body_offset + h.body_size);
}

/// Bytes laid out as the encoding of `(h, svs)` lays them out, with a
/// trailer carrying the recomputed hash, are that encoding.
proof fn lemma_packed_bytes(s: Seq<u8>, h: Header, es: Seq<IndexEntry>, svs: Seq<SectionV>)
    requires
        packed(h, es),
        parsed_layout(s, h, es, svs),
        trailer_error(s.subrange(s.len() - 40, s.len() as int), (s.len() - 40) as usize) is None,
        recomputed_hash(s)@ == s.subrange(s.len() - 32, s.len() as int),
    ensures
        zac_bytes(h, svs) == s,
{
    let e = h.body_offset + h.body_size;
    lemma_packed_pre(s, h, es, svs);
    let pre = zac_pre_bytes(h, svs);
    let t = s.subrange(s.len() - 40, s.len() as int);
    lemma_trailer_canonical(t, (s.len() - 40) as usize);
    assert(t.subrange(8, 40) =~= s.subrange(s.len() - 32, s.len() as int));
    assert(pre.subrange(4, 8) =~= s.subrange(4, 8));
    assert(pre.subrange(32, pre.len() as int) =~= s.subrange(32, s.len() - 40));
    reveal(zac_bytes);
    assert(s =~= s.subrange(0, e) + t);
}

/// A `.zac` whose bodies are packed as `ZacFile::encode` packs them is
/// canonical: encoding what `ZacFile::parse` returns gives back exactly the
/// bytes it was read from. (The parser also accepts wider zero padding
/// before a body; such a file re-encodes packed.)
pub proof fn lemma_zac_parse_encode(s: Seq<u8>)
    requires
        zac_result(s) is Ok,
        packed(zac_prefix(s)->Ok_0.0, zac_prefix(s)->Ok_0.1),
    ensures
        zac_bytes(zac_result(s)->Ok_0.header, zac_result(s)->Ok_0.sections) == s,
{
    lemma_parsed_parts(s);
    let (h, es) = zac_prefix(s)->Ok_0;
    lemma_parsed_prefix(s);
    lemma_parsed_bodies(s, es, h);
    let svs = sections_scan(s, es, h, es.len())->Ok_0;
    assert(parsed_layout(s, h, es, svs));
    lemma_packed_bytes(s, h, es, svs);
}

/// The header an accepted encoding reads is the one encode wrote.
#[verifier::rlimit(80)]
proof fn lemma_encoded_header_reads(h: Header, svs: Seq<SectionV>)
    requires
        1 <= svs.len() <= 16,
        body_pos(bodies_of(svs), first_body(svs.len()), svs.len()) + 40 <= u32::MAX,
        zac_prefix(zac_bytes(h, svs)) is Ok,
    ensures
        zac_prefix(zac_bytes(h, svs))->Ok_0.0 == encoded_header(h, svs),
{
    let s = zac_bytes(h, svs);
    let n = svs.len();
    let eh = encoded_header(h, svs);
    lemma_layout(h, svs);
    let hh = zac_prefix(s)->Ok_0.0;
    let hs = s.subrange(0, 32);
    assert(header_result(hs) == Ok::<Header, ZacError>(hh));
    lemma_header_parse_encode(hs);
    assert(hs[4] == eh.version_major && hs[7] == eh.flags);
    crate::index::lemma_align8_facts(32 + 16 * n as int);
    lemma_header_encode_parse(eh);
}

/// An accepted index whose bytes are the encodings of entries without flags
/// and at 8-aligned offsets reads back as those entries.
#[verifier::rlimit(80)]
proof fn lemma_index_reads_back(
    s: Seq<u8>,
    count: u16,
    body_offset: u32,
    body_size: u32,
    ees: Seq<IndexEntry>,
)
    requires
        index_result(s, 32, count, body_offset, body_size) is Ok,
        ees.len() == count,
        32 + 16 * ees.len() <= s.len(),
        s.subrange(32, 32 + 16 * ees.len() as int) == entries_bytes(ees, ees.len()),
        forall|i: int| 0 <= i < ees.len() ==> (#[trigger] ees[i]).flags == 0 && ees[i].offset % 8 == 0,
    ensures
        index_result(s, 32, count, body_offset, body_size)->Ok_0 == ees,
{
    let n = ees.len();
    let es = index_result(s, 32, count, body_offset, body_size)->Ok_0;
    lemma_index_facts(s, 32, count, body_offset, body_size);
    assert forall|j: int| 0 <= j < n implies #[trigger] es[j] == ees[j] by {
        lemma_entries_bytes_window(ees, n, j);
        let w = s.subrange(32 + 16 * j, 32 + 16 * j + 16);
        assert(w =~= s.subrange(32, 32 + 16 * n as int).subrange(16 * j, 16 * j + 16));
        assert(entry_result(w, j as usize, (32 + 16 * j) as usize) == Ok::<IndexEntry, ZacError>(
            es[j],
        ));
        lemma_entry_reads_back(w, j as usize, (32 + 16 * j) as usize, ees[j], es[j]);
    }
    assert(es =~= ees);
}

/// The 16 bytes of an entry without flags at an 8-aligned offset read back
/// as that entry.
proof fn lemma_entry_reads_back(w: Seq<u8>, i: usize, abs: usize, e: IndexEntry, read: IndexEntry)
    requires
        w == entry_bytes(e),
        e.flags == 0,
        e.offset % 8 == 0,
        entry_result(w, i, abs) == Ok::<IndexEntry, ZacError>(read),
    ensures
        read == e,
{
    assert(w[0] == e.section_type);
    lemma_entry_round_trip(e, i, abs);
}

/// The entries an accepted encoding reads are the ones encode wrote.
#[verifier::rlimit(80)]
proof fn lemma_encoded_entries_read(h: Header, svs: Seq<SectionV>)
    requires
        1 <= svs.len() <= 16,
        body_pos(bodies_of(svs), first_body(svs.len()), svs.len()) + 40 <= u32::MAX,
        zac_prefix(zac_bytes(h, svs)) is Ok,
        zac_prefix(zac_bytes(h, svs))->Ok_0.0 == encoded_header(h, svs),
    ensures
        zac_prefix(zac_bytes(h, svs))->Ok_0.1 == encoded_entries(svs),
{
    let s = zac_bytes(h, svs);
    let n = svs.len();
    let ees = encoded_entries(svs);
    lemma_layout(h, svs);
    let (hh, es) = zac_prefix(s)->Ok_0;
    assert(index_result(s, 32, hh.section_count, hh.body_offset, hh.body_size) == Ok::<
        Seq<IndexEntry>,
        ZacError,
    >(es));
    lemma_index_reads_back(s, hh.section_count, hh.body_offset, hh.body_size, ees);
}

/// Encoding is stable on every encoding the parser accepts: when
/// `ZacFile::parse` accepts the bytes `ZacFile::encode` writes (with its
/// offsets within 32 bits), encoding what it returns gives the same bytes.
pub proof fn lemma_encode_parse_encode(h: Header, svs: Seq<SectionV>)
    requires
        1 <= svs.len() <= 16,
        body_pos(bodies_of(svs), first_body(svs.len()), svs.len()) + 40 <= u32::MAX,
        zac_result(zac_bytes(h, svs)) is Ok,
    ensures
        ({
            let s = zac_bytes(h, svs);
            zac_bytes(zac_result(s)->Ok_0.header, zac_result(s)->Ok_0.sections) == s
        }),
{
    let s = zac_bytes(h, svs);
    let n = svs.len();
    let bs = bodies_of(svs);
    let fb = first_body(n);
    lemma_parsed_parts(s);
    lemma_encoded_header_reads(h, svs);
    lemma_encoded_entries_read(h, svs);
    lemma_layout(h, svs);
    let (hh, es) = zac_prefix(s)->Ok_0;
    assert forall|i: int| 1 <= i < es.len() implies #[trigger] es[i].offset == align8(
        es[i - 1].offset + slot_len(es[i - 1].size as int, false),
    ) by {
        lemma_body_pos_step(bs, fb, (i - 1) as nat);
        lemma_body_pos_mono(bs, fb, i as nat, n);
        lemma_body_pos_mono(bs, fb, (i - 1) as nat, n);
    }
    assert(packed(hh, es));
    lemma_zac_parse_encode(s);
}

/// The trailer of an encoded file reads back, and its hash is the hash
/// recomputed from the file.
proof fn lemma_round_trip_tail(h: Header, svs: Seq<SectionV>)
    requires
        zac_encodable(h, svs),
    ensures
        ({
            let s = zac_bytes(h, svs);
            zac_tail(s, encoded_header(h, svs), svs) == Ok::<ZacFileV, ZacError>(
                ZacFileV {
                    header: encoded_header(h, svs),
                    sections: svs,
                    file_hash: s.subrange(s.len() - 32, s.len() as int),
                },
            )
        }),
{
    let s = zac_bytes(h, svs);
    let pre = zac_pre_bytes(h, svs);
    let n = svs.len();
    let bs = bodies_of(svs);
    let fb = first_body(n);
    let e = body_pos(bs, fb, n);
    lemma_layout(h, svs);
    let hash = file_hash_spec(pre.subrange(4, 8), pre.subrange(32, e));
    lemma_trailer_round_trip(hash@, e as usize);
    assert(s.subrange(s.len() - 40, s.len() as int) == trailer_bytes(hash@));
    assert(s.subrange(4, 8) =~= pre.subrange(4, 8));
    assert(s.subrange(32, s.len() - 40) =~= pre.subrange(32, e));
    assert(s.subrange(s.len() - 32, s.len() as int) =~= trailer_bytes(hash@).subrange(8, 40));
}
} // verus!
