//! iden3 binary files (R1CS, WTNS, ZKEY): the common binfile framing and
//! little-endian field-element helpers.
//!
//! A binfile is a 4-byte magic, a `u32` version and a `u32` section count,
//! followed by sections laid out as `id: u32 | size: u64 | body`.
use vstd::prelude::*;

use crate::error::{ZacError, ZacResult};
use crate::header::four;
use crate::wire::{
    le_u32, le_u64, lemma_le_u32_frame, lemma_le_u64_frame, lemma_u32_roundtrip,
    lemma_u64_roundtrip, push_u32, read_u32, read_u64, u32_bytes, u64_bytes, zeros,
};

pub mod r1cs;
pub mod wtns;
pub mod zkey;

verus! {

/// iden3 binfile common prefix.
#[derive(Debug, Clone, PartialEq, Eq)]
pub struct BinFileHeader {
    /// 4-byte ASCII magic ("r1cs", "wtns", "zkey").
    pub magic: [u8; 4],
    /// File-format version.
    pub version: u32,
    /// Number of sections that follow.
    pub n_sections: u32,
}

/// One section of a binfile: its id, the absolute offset of its body, and
/// the body size.
#[derive(Debug, Clone, PartialEq, Eq, Structural)]
pub struct SectionRef {
    /// `section_id` from the 4-byte section header.
    pub id: u32,
    /// Absolute file offset of the body (just after the 12-byte section
    /// header).
    pub offset: usize,
    /// Size in bytes of the body.
    pub size: u64,
}

/// The name reported for an expected magic.
pub open spec fn magic_name(m: Seq<u8>) -> &'static str {
    if m == seq![0x72u8, 0x31, 0x63, 0x73] {
        "r1cs"
    } else if m == seq![0x77u8, 0x74, 0x6e, 0x73] {
        "wtns"
    } else if m == seq![0x7au8, 0x6b, 0x65, 0x79] {
        "zkey"
    } else {
        "iden3-binfile"
    }
}

/// Reading the first `k` section headers: the sections so far and the
/// cursor after the last body, or the first failure.
pub open spec fn binfile_scan(s: Seq<u8>, k: nat) -> Result<(Seq<SectionRef>, int), ZacError>
    decreases k,
{
    if k == 0 {
        Ok((Seq::empty(), 12))
    } else {
        match binfile_scan(s, (k - 1) as nat) {
            Err(e) => Err(e),
            Ok((refs, cur)) => if cur + 12 > s.len() {
                Err(
                    ZacError::Truncated {
                        offset: cur as usize,
                        need: 12,
                        have: (s.len() - cur) as usize,
                    },
                )
            } else {
                let id = le_u32(s, cur);
                let size = le_u64(s, cur + 4);
                let bo = cur + 12;
                if bo + size > s.len() {
                    Err(
                        ZacError::Truncated {
                            offset: bo as usize,
                            need: size as usize,
                            have: (s.len() - bo) as usize,
                        },
                    )
                } else {
                    Ok((refs.push(SectionRef { id, offset: bo as usize, size }), bo + size))
                }
            },
        }
    }
}

/// What `read_binfile_header` returns for bytes `s` and an expected magic.
#[verifier::opaque]
pub open spec fn binfile_result(s: Seq<u8>, magic: Seq<u8>) -> Result<
    (BinFileHeader, Seq<SectionRef>),
    ZacError,
> {
    if s.len() < 12 {
        Err(ZacError::Truncated { offset: 0, need: 12, have: s.len() as usize })
    } else if s.subrange(0, 4) != magic {
        Err(ZacError::BadMagic { offset: 0, expected: magic_name(magic), got: four(s, 0) })
    } else {
        match binfile_scan(s, le_u32(s, 8) as nat) {
            Err(e) => Err(e),
            Ok((refs, _)) => Ok(
                (
                    BinFileHeader {
                        magic: four(s, 0),
                        version: le_u32(s, 4),
                        n_sections: le_u32(s, 8),
                    },
                    refs,
                ),
            ),
        }
    }
}

/// Once the section walk has failed, walking further reports the same
/// failure.
proof fn lemma_binfile_err_stable(s: Seq<u8>, k: nat, k2: nat)
    requires
        binfile_scan(s, k) is Err,
        k <= k2,
    ensures
        binfile_scan(s, k2) == binfile_scan(s, k),
    decreases k2 - k,
{
    if k < k2 {
        lemma_binfile_err_stable(s, k, (k2 - 1) as nat);
    }
}

fn expected_name(m: &[u8; 4]) -> (r: &'static str)
    ensures
        r == magic_name(m@),
{
    if m[0] == 0x72 && m[1] == 0x31 && m[2] == 0x63 && m[3] == 0x73 {
        assert(m@ =~= seq![0x72u8, 0x31, 0x63, 0x73]);
        "r1cs"
    } else if m[0] == 0x77 && m[1] == 0x74 && m[2] == 0x6e && m[3] == 0x73 {
        assert(m@ =~= seq![0x77u8, 0x74, 0x6e, 0x73]);
        "wtns"
    } else if m[0] == 0x7a && m[1] == 0x6b && m[2] == 0x65 && m[3] == 0x79 {
        assert(m@ =~= seq![0x7au8, 0x6b, 0x65, 0x79]);
        "zkey"
    } else {
        proof {
            if m@ == seq![0x72u8, 0x31, 0x63, 0x73] {
                assert(m@[0] == 0x72 && m@[1] == 0x31 && m@[2] == 0x63 && m@[3] == 0x73);
            }
            if m@ == seq![0x77u8, 0x74, 0x6e, 0x73] {
                assert(m@[0] == 0x77 && m@[1] == 0x74 && m@[2] == 0x6e && m@[3] == 0x73);
            }
            if m@ == seq![0x7au8, 0x6b, 0x65, 0x79] {
                assert(m@[0] == 0x7a && m@[1] == 0x6b && m@[2] == 0x65 && m@[3] == 0x79);
            }
        }
        "iden3-binfile"
    }
}

/// Parse the 12-byte binfile header and walk the section table, returning
/// the header and every section in file order (duplicate ids are kept).
pub fn read_binfile_header(bytes: &[u8], expected_magic: &[u8; 4]) -> (r: ZacResult<
    (BinFileHeader, Vec<SectionRef>),
>)
    ensures
        match r {
            Ok((h, refs)) => binfile_result(bytes@, expected_magic@) == Ok::<
                (BinFileHeader, Seq<SectionRef>),
                ZacError,
            >((h, refs@)),
            Err(e) => binfile_result(bytes@, expected_magic@) == Err::<
                (BinFileHeader, Seq<SectionRef>),
                ZacError,
            >(e),
        },
{
    reveal(binfile_result);
    let len = bytes.len();
    if len < 12 {
        return Err(ZacError::Truncated { offset: 0, need: 12, have: len });
    }
    let magic: [u8; 4] = [bytes[0], bytes[1], bytes[2], bytes[3]];
    if !(bytes[0] == expected_magic[0] && bytes[1] == expected_magic[1] && bytes[2]
        == expected_magic[2] && bytes[3] == expected_magic[3]) {
        proof {
            if bytes@.subrange(0, 4) == expected_magic@ {
                assert(bytes@[0] == bytes@.subrange(0, 4)[0]);
                assert(bytes@[1] == bytes@.subrange(0, 4)[1]);
                assert(bytes@[2] == bytes@.subrange(0, 4)[2]);
                assert(bytes@[3] == bytes@.subrange(0, 4)[3]);
            }
        }
        return Err(
            ZacError::BadMagic { offset: 0, expected: expected_name(expected_magic), got: magic },
        );
    }
    assert(bytes@.subrange(0, 4) =~= expected_magic@);
    assert(magic == four(bytes@, 0));
    let version = read_u32(bytes, 4);
    let n_sections = read_u32(bytes, 8);
    let mut sections: Vec<SectionRef> = Vec::new();
    let mut cur: usize = 12;
    let mut i: u32 = 0;
    while i < n_sections
        invariant
            len == bytes@.len(),
            len >= 12,
            bytes@.subrange(0, 4) == expected_magic@,
            magic == four(bytes@, 0),
            version == le_u32(bytes@, 4),
            n_sections == le_u32(bytes@, 8),
            i <= n_sections,
            cur <= len,
            binfile_scan(bytes@, i as nat) == Ok::<(Seq<SectionRef>, int), ZacError>(
                (sections@, cur as int),
            ),
        decreases n_sections - i,
    {
        proof {
            reveal(binfile_result);
        }
        if len - cur < 12 {
            proof {
                lemma_binfile_err_stable(bytes@, (i + 1) as nat, n_sections as nat);
            }
            return Err(ZacError::Truncated { offset: cur, need: 12, have: len - cur });
        }
        let id = read_u32(bytes, cur);
        let size = read_u64(bytes, cur + 4);
        let body_off = cur + 12;
        if size > (len - body_off) as u64 {
            proof {
                lemma_binfile_err_stable(bytes@, (i + 1) as nat, n_sections as nat);
            }
            return Err(
                ZacError::Truncated { offset: body_off, need: size as usize, have: len - body_off },
            );
        }
        sections.push(SectionRef { id, offset: body_off, size });
        cur = body_off + size as usize;
        i = i + 1;
    }
    Ok((BinFileHeader { magic, version, n_sections }, sections))
}

/// The index of the first section with id `id` at or after `from`.
pub open spec fn first_with_id(secs: Seq<SectionRef>, id: u32, from: int) -> Option<int>
    decreases secs.len() - from,
{
    if from < 0 || from >= secs.len() {
        None
    } else if secs[from].id == id {
        Some(from)
    } else {
        first_with_id(secs, id, from + 1)
    }
}

/// The first section with the given `id`, or `None`.
pub fn find_section(sections: &[SectionRef], id: u32) -> (r: Option<&SectionRef>)
    ensures
        match first_with_id(sections@, id, 0) {
            Some(i) => r == Some(&sections@[i]),
            None => r is None,
        },
{
    let mut i: usize = 0;
    while i < sections.len()
        invariant
            i <= sections@.len(),
            first_with_id(sections@, id, 0) == first_with_id(sections@, id, i as int),
        decreases sections@.len() - i,
    {
        if sections[i].id == id {
            return Some(&sections[i]);
        }
        i = i + 1;
    }
    None
}

/// The 12-byte binfile header.
pub open spec fn binfile_header_bytes(magic: Seq<u8>, version: u32, n_sections: u32) -> Seq<u8> {
    magic + u32_bytes(version) + u32_bytes(n_sections)
}

/// One section: id, body size, body.
pub open spec fn section_frame(id: u32, body: Seq<u8>) -> Seq<u8> {
    u32_bytes(id) + u64_bytes(body.len() as u64) + body
}

/// Append the 12-byte binfile header.
pub(crate) fn write_binfile_header(out: &mut Vec<u8>, magic: &[u8; 4], version: u32, n_sections: u32)
    ensures
        final(out)@ == old(out)@ + binfile_header_bytes(magic@, version, n_sections),
{
    crate::wire::push_slice(out, magic.as_slice());
    push_u32(out, version);
    push_u32(out, n_sections);
    assert(out@ =~= old(out)@ + binfile_header_bytes(magic@, version, n_sections));
}

/// Begin a section: append the id and a placeholder 8-byte size; return the
/// offset of the placeholder.
pub(crate) fn begin_section(out: &mut Vec<u8>, id: u32) -> (r: usize)
    requires
        old(out)@.len() + 12 <= usize::MAX,
    ensures
        final(out)@ == old(out)@ + u32_bytes(id) + zeros(8),
        r == old(out)@.len() + 4,
{
    push_u32(out, id);
    let size_off = out.len();
    crate::wire::push_zeros(out, 8);
    assert(out@ =~= old(out)@ + u32_bytes(id) + zeros(8));
    size_off
}

/// Finish the section whose size placeholder sits at `size_off` and whose
/// body starts at `body_start`: write the body length there.
pub(crate) fn end_section(out: &mut Vec<u8>, size_off: usize, body_start: usize)
    requires
        size_off + 8 <= body_start <= old(out)@.len(),
    ensures
        final(out)@ == old(out)@.subrange(0, size_off as int) + u64_bytes(
            (old(out)@.len() - body_start) as u64,
        ) + old(out)@.subrange(size_off + 8, old(out)@.len() as int),
{
    let body_len = (out.len() - body_start) as u64;
    let ghost before = out@;
    let lo = (body_len % 4294967296) as u32;
    let hi = (body_len / 4294967296) as u32;
    let mut k: usize = 0;
    while k < 8
        invariant
            size_off + 8 <= body_start <= before.len(),
            out@.len() == before.len(),
            k <= 8,
            forall|j: int| 0 <= j < k ==> out@[size_off + j] == u64_bytes(body_len)[j],
            forall|j: int|
                0 <= j < out@.len() && !(size_off <= j < size_off + k) ==> out@[j] == before[j],
            lo == (body_len % 4294967296) as u32,
            hi == (body_len / 4294967296) as u32,
        decreases 8 - k,
    {
        let v = if k < 4 {
            lo
        } else {
            hi
        };
        let kk = k % 4;
        let b: u8 = if kk == 0 {
            (v % 256) as u8
        } else if kk == 1 {
            ((v / 256) % 256) as u8
        } else if kk == 2 {
            ((v / 65536) % 256) as u8
        } else {
            (v / 16777216) as u8
        };
        assert(b == u64_bytes(body_len)[k as int]);
        out.set(size_off + k, b);
        k = k + 1;
    }
    assert(out@ =~= before.subrange(0, size_off as int) + u64_bytes(body_len) + before.subrange(
        size_off + 8,
        before.len() as int,
    ));
}

/// Every section the walk finds lies inside the bytes, after the 12-byte
/// file header.
proof fn lemma_binfile_scan_bounds(s: Seq<u8>, k: nat)
    requires
        binfile_scan(s, k) is Ok,
        s.len() <= usize::MAX,
    ensures
        ({
            let (refs, cur) = binfile_scan(s, k)->Ok_0;
            &&& refs.len() == k
            &&& 12 <= cur
            &&& k > 0 ==> cur <= s.len()
            &&& forall|i: int|
                0 <= i < k ==> 12 <= (#[trigger] refs[i]).offset && refs[i].offset + refs[i].size
                    <= cur
        }),
    decreases k,
{
    if k > 0 {
        lemma_binfile_scan_bounds(s, (k - 1) as nat);
        let (refs0, cur0) = binfile_scan(s, (k - 1) as nat)->Ok_0;
        let (refs, cur) = binfile_scan(s, k)->Ok_0;
        assert forall|i: int| 0 <= i < k implies 12 <= (#[trigger] refs[i]).offset && refs[i].offset
            + refs[i].size <= cur by {
            if i < k - 1 {
                assert(refs[i] == refs0[i]);
            }
        }
    }
}

/// Every section of a binfile that reads successfully lies inside its bytes.
pub proof fn lemma_binfile_refs_in_bounds(s: Seq<u8>, magic: Seq<u8>)
    requires
        binfile_result(s, magic) is Ok,
        s.len() <= usize::MAX,
    ensures
        ({
            let (h, refs) = binfile_result(s, magic)->Ok_0;
            &&& refs.len() == h.n_sections
            &&& forall|i: int|
                0 <= i < refs.len() ==> 12 <= (#[trigger] refs[i]).offset && refs[i].offset
                    + refs[i].size <= s.len()
        }),
{
    reveal(binfile_result);
    let n = le_u32(s, 8) as nat;
    lemma_binfile_scan_bounds(s, n);
}

/// A section found by `first_with_id` has the id asked for.
pub proof fn lemma_first_with_id(secs: Seq<SectionRef>, id: u32, from: int)
    ensures
        match first_with_id(secs, id, from) {
            Some(i) => from <= i < secs.len() && 0 <= i && secs[i].id == id,
            None => true,
        },
    decreases secs.len() - from,
{
    if 0 <= from < secs.len() && secs[from].id != id {
        lemma_first_with_id(secs, id, from + 1);
    }
}

/// Sections written one after another: `ids[i]` with body `bodies[i]`, for
/// `i < k`.
pub open spec fn frames(ids: Seq<u32>, bodies: Seq<Seq<u8>>, k: nat) -> Seq<u8>
    decreases k,
{
    if k == 0 {
        Seq::empty()
    } else {
        frames(ids, bodies, (k - 1) as nat) + section_frame(ids[k - 1], bodies[k - 1])
    }
}

/// The section table a reader finds in `frames(ids, bodies, k)` when it
/// follows a 12-byte file header.
pub open spec fn frame_refs(ids: Seq<u32>, bodies: Seq<Seq<u8>>, k: nat) -> Seq<SectionRef>
    decreases k,
{
    if k == 0 {
        Seq::empty()
    } else {
        frame_refs(ids, bodies, (k - 1) as nat).push(
            SectionRef {
                id: ids[k - 1],
                offset: (24 + frames(ids, bodies, (k - 1) as nat).len()) as usize,
                size: bodies[k - 1].len() as u64,
            },
        )
    }
}

proof fn lemma_frames_prefix(ids: Seq<u32>, bodies: Seq<Seq<u8>>, k: nat, n: nat)
    requires
        k <= n,
    ensures
        frames(ids, bodies, k).len() <= frames(ids, bodies, n).len(),
        frames(ids, bodies, n).subrange(0, frames(ids, bodies, k).len() as int) == frames(
            ids,
            bodies,
            k,
        ),
    decreases n - k,
{
    if k < n {
        lemma_frames_prefix(ids, bodies, k, (n - 1) as nat);
        let a = frames(ids, bodies, k);
        let b = frames(ids, bodies, (n - 1) as nat);
        let c = frames(ids, bodies, n);
        assert(c.subrange(0, a.len() as int) =~= b.subrange(0, a.len() as int));
    } else {
        assert(frames(ids, bodies, n).subrange(0, frames(ids, bodies, n).len() as int) =~= frames(
            ids,
            bodies,
            n,
        ));
    }
}

/// A frame that follows `f0` inside `all` sits right after it in
/// `pre + all`.
proof fn lemma_frame_window(pre: Seq<u8>, all: Seq<u8>, f0: Seq<u8>, fr: Seq<u8>)
    requires
        (f0 + fr).len() <= all.len(),
        all.subrange(0, (f0 + fr).len() as int) == f0 + fr,
    ensures
        (pre + all).subrange(
            pre.len() + f0.len() as int,
            pre.len() + f0.len() + fr.len() as int,
        ) == fr,
{
    let s = pre + all;
    let a: int = pre.len() + f0.len() as int;
    let t = all.subrange(0, (f0 + fr).len() as int);
    assert forall|j: int| 0 <= j < fr.len() implies s.subrange(a, a + fr.len() as int)[j] == fr[j] by {
        assert(s[a + j] == all[f0.len() + j]);
        assert(t[f0.len() + j] == all[f0.len() + j]);
        assert((f0 + fr)[f0.len() + j] == fr[j]);
    }
    assert(s.subrange(a, a + fr.len() as int) =~= fr);
}

/// Walking the sections of a file whose 12-byte header is followed by
/// `frames(ids, bodies, n)` finds exactly those sections.
#[verifier::rlimit(50)]
proof fn lemma_frames_scan(pre: Seq<u8>, ids: Seq<u32>, bodies: Seq<Seq<u8>>, n: nat, k: nat)
    requires
        pre.len() == 12,
        k <= n,
        n <= ids.len(),
        n <= bodies.len(),
        forall|i: int| 0 <= i < n ==> (#[trigger] bodies[i]).len() <= u64::MAX,
    ensures
        binfile_scan(pre + frames(ids, bodies, n), k) == Ok::<(Seq<SectionRef>, int), ZacError>(
            (frame_refs(ids, bodies, k), 12 + frames(ids, bodies, k).len() as int),
        ),
    decreases k,
{
    if k > 0 {
        let km = (k - 1) as nat;
        lemma_frames_scan(pre, ids, bodies, n, km);
        let all = frames(ids, bodies, n);
        let s = pre + all;
        let f0 = frames(ids, bodies, km);
        let id = ids[k - 1];
        let body = bodies[k - 1];
        let fr = section_frame(id, body);
        let f1 = frames(ids, bodies, k);
        assert(f1 == f0 + fr);
        lemma_frames_prefix(ids, bodies, k, n);
        let cur: int = 12 + f0.len() as int;
        assert(s.subrange(cur, cur + fr.len() as int) == fr) by {
            lemma_frame_window(pre, all, f0, fr);
        }
        assert(le_u32(s, cur) == id) by {
            lemma_u32_roundtrip(id);
            assert(s.subrange(cur, cur + 4) =~= fr.subrange(0, 4));
            assert(fr.subrange(0, 4) =~= u32_bytes(id).subrange(0, 4));
            lemma_le_u32_frame(s, u32_bytes(id), cur, 0);
        }
        assert(le_u64(s, cur + 4) == body.len()) by {
            lemma_u64_roundtrip(body.len() as u64);
            assert(s.subrange(cur + 4, cur + 12) =~= fr.subrange(4, 12));
            assert(fr.subrange(4, 12) =~= u64_bytes(body.len() as u64).subrange(0, 8));
            lemma_le_u64_frame(s, u64_bytes(body.len() as u64), cur + 4, 0);
        }
        assert(s.len() >= 12 + f1.len());
    }
}

/// A binfile made of a header naming `n` sections and those `n` sections
/// reads back as that header and exactly those sections.
pub proof fn lemma_frames_read(magic: Seq<u8>, version: u32, ids: Seq<u32>, bodies: Seq<Seq<u8>>)
    requires
        magic.len() == 4,
        ids.len() == bodies.len(),
        ids.len() <= u32::MAX,
        forall|i: int| 0 <= i < bodies.len() ==> (#[trigger] bodies[i]).len() <= u64::MAX,
    ensures
        binfile_result(
            binfile_header_bytes(magic, version, ids.len() as u32) + frames(
                ids,
                bodies,
                ids.len(),
            ),
            magic,
        ) == Ok::<(BinFileHeader, Seq<SectionRef>), ZacError>(
            (
                BinFileHeader {
                    magic: four(magic, 0),
                    version,
                    n_sections: ids.len() as u32,
                },
                frame_refs(ids, bodies, ids.len()),
            ),
        ),
{
    reveal(binfile_result);
    let n = ids.len() as u32;
    let pre = binfile_header_bytes(magic, version, n);
    let s = pre + frames(ids, bodies, ids.len());
    lemma_frames_scan(pre, ids, bodies, ids.len(), ids.len());
    lemma_u32_roundtrip(version);
    lemma_u32_roundtrip(n);
    assert(s.subrange(0, 4) =~= magic);
    assert(s.subrange(4, 8) =~= u32_bytes(version).subrange(0, 4));
    assert(s.subrange(8, 12) =~= u32_bytes(n).subrange(0, 4));
    lemma_le_u32_frame(s, u32_bytes(version), 4, 0);
    lemma_le_u32_frame(s, u32_bytes(n), 8, 0);
    assert(four(s, 0) == four(magic, 0));
}

/// After `begin_section` and a body and `end_section`, the bytes are the
/// prefix followed by one section frame.
pub proof fn lemma_section_written(pre: Seq<u8>, id: u32, body: Seq<u8>, after: Seq<u8>)
    requires
        ({
            let w = pre + u32_bytes(id) + zeros(8) + body;
            let so: int = pre.len() as int + 4;
            after == w.subrange(0, so as int) + u64_bytes((w.len() - (so + 8)) as u64)
                + w.subrange(so + 8, w.len() as int)
        }),
    ensures
        after == pre + section_frame(id, body),
{
    let w = pre + u32_bytes(id) + zeros(8) + body;
    let so: int = pre.len() as int + 4;
    assert(w.subrange(0, so as int) =~= pre + u32_bytes(id));
    assert(w.subrange(so + 8, w.len() as int) =~= body);
    assert(after =~= pre + section_frame(id, body));
}

/// Standard BN254 base-field modulus q (Fq), little-endian 32 bytes.
pub const BN254_Q_LE: [u8; 32] = [
    0x47, 0xfd, 0x7c, 0xd8, 0x16, 0x8c, 0x20, 0x3c, 0x8d, 0xca, 0x71, 0x68, 0x91, 0x6a, 0x81, 0x97,
    0x5d, 0x58, 0x81, 0x81, 0xb6, 0x45, 0x50, 0xb8, 0x29, 0xa0, 0x31, 0xe1, 0x72, 0x4e, 0x64, 0x30,
];

/// Standard BN254 scalar-field modulus r (Fr), little-endian 32 bytes.
pub const BN254_R_LE: [u8; 32] = [
    0x01, 0x00, 0x00, 0xf0, 0x93, 0xf5, 0xe1, 0x43, 0x91, 0x70, 0xb9, 0x79, 0x48, 0xe8, 0x33, 0x28,
    0x5d, 0x58, 0x81, 0x81, 0xb6, 0x45, 0x50, 0xb8, 0x29, 0xa0, 0x31, 0xe1, 0x72, 0x4e, 0x64, 0x30,
];

} // verus!
