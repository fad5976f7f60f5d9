//! iden3 WTNS (witness) files: an encoder and a parser.
//!
//! ```text
//! magic "wtns" | version 2 | nSections = 2
//! section 0x01 header: n8 u32 | prime (n8 bytes LE) | nWitness u32
//! section 0x02 values: nWitness field elements, n8 bytes LE each
//! ```
//!
//! Values are in standard (not Montgomery) form. Only BN254 is accepted:
//! `n8 == 32` and `prime == r`, and every value must be below `r` (E012).
use vstd::prelude::*;

use crate::error::{ZacError, ZacResult};
use crate::groth16::{decode_fr_canonical, fr_modulus, fr_result};
use crate::iden3::{
    begin_section, binfile_header_bytes, binfile_result, end_section, find_section,
    first_with_id, lemma_binfile_refs_in_bounds, lemma_first_with_id, lemma_section_written,
    read_binfile_header, section_frame, write_binfile_header, SectionRef, BN254_R_LE, frames,
    frame_refs, lemma_frames_read,
};
use crate::wire::{
    concat_all, copy_array, le_nat, le_u32, le_u64, lemma_concat_all_push, lemma_concat_all_windows,
    lemma_le_u32_frame, lemma_u32_roundtrip, push_slice, push_u32, read_u32, read_u64, u32_bytes,
    u64_bytes, zeros,
};

verus! {

/// A parsed `.wtns` file.
#[derive(Debug, Clone, PartialEq, Eq)]
pub struct Wtns {
    /// Field-element byte width; always 32.
    pub n8: u32,
    /// Prime modulus; always BN254 `r`.
    pub prime_le: [u8; 32],
    /// Witness values as field elements, each in its canonical 32-byte
    /// little-endian encoding (below `r`).
    pub values: Vec<[u8; 32]>,
    /// Witness values exactly as they appear on the wire.
    pub values_le: Vec<[u8; 32]>,
}

/// The mathematical content of a `.wtns` file.
pub struct WtnsV {
    /// Field-element byte width.
    pub n8: u32,
    /// Prime modulus bytes.
    pub prime_le: Seq<u8>,
    /// Witness values.
    pub values: Seq<Seq<u8>>,
    /// Witness values as on the wire.
    pub values_le: Seq<Seq<u8>>,
}

impl View for Wtns {
    type V = WtnsV;

    open spec fn view(&self) -> WtnsV {
        WtnsV {
            n8: self.n8,
            prime_le: self.prime_le@,
            values: self.values@.map_values(|a: [u8; 32]| a@),
            values_le: self.values_le@.map_values(|a: [u8; 32]| a@),
        }
    }
}

/// `"wtns"`.
pub open spec fn magic_wtns() -> Seq<u8> {
    seq![0x77u8, 0x74, 0x6e, 0x73]
}

/// The header section body `encode_wtns` writes for `n` values.
pub open spec fn wtns_header_body(n: nat) -> Seq<u8> {
    u32_bytes(32) + BN254_R_LE@ + u32_bytes(n as u32)
}

/// The bytes `encode_wtns` writes for the values `vs`.
#[verifier::opaque]
pub open spec fn wtns_bytes(vs: Seq<Seq<u8>>) -> Seq<u8> {
    binfile_header_bytes(magic_wtns(), 2, 2) + section_frame(1, wtns_header_body(vs.len()))
        + section_frame(2, concat_all(vs))
}

/// Encode a `.wtns` file holding the given 32-byte little-endian values.
pub fn encode_wtns(values_le: &[[u8; 32]]) -> (r: Vec<u8>)
    requires
        100 + 32 * values_le@.len() <= usize::MAX,
    ensures
        r@ == wtns_bytes(values_le@.map_values(|a: [u8; 32]| a@)),
{
    let ghost vs = values_le@.map_values(|a: [u8; 32]| a@);
    let mut out: Vec<u8> = Vec::new();
    let magic: [u8; 4] = [0x77, 0x74, 0x6e, 0x73];
    write_binfile_header(&mut out, &magic, 2, 2);
    assert(magic@ =~= magic_wtns());
    let ghost pre1 = out@;
    let s_off = begin_section(&mut out, 0x01);
    let body_start = out.len();
    push_u32(&mut out, 32);
    let prime: [u8; 32] = BN254_R_LE;
    push_slice(&mut out, prime.as_slice());
    push_u32(&mut out, values_le.len() as u32);
    let ghost w1 = out@;
    end_section(&mut out, s_off, body_start);
    proof {
        assert(w1 =~= pre1 + u32_bytes(1) + zeros(8) + wtns_header_body(vs.len()));
        lemma_section_written(pre1, 1, wtns_header_body(vs.len()), out@);
    }
    let ghost pre2 = out@;
    let s_off = begin_section(&mut out, 0x02);
    let body_start = out.len();
    let ghost start = out@;
    let mut i: usize = 0;
    while i < values_le.len()
        invariant
            i <= values_le@.len(),
            vs == values_le@.map_values(|a: [u8; 32]| a@),
            out@ == start + concat_all(vs.take(i as int)),
            start.len() == body_start,
            start.len() == pre2.len() + 12,
            pre2.len() == 12 + 12 + 40,
            100 + 32 * values_le@.len() <= usize::MAX,
        decreases values_le@.len() - i,
    {
        push_slice(&mut out, values_le[i].as_slice());
        proof {
            assert(vs.take(i + 1) =~= vs.take(i as int).push(vs[i as int]));
            lemma_concat_all_push(vs.take(i as int), vs[i as int]);
            crate::wire::lemma_concat_all_windows(vs.take(i + 1));
        }
        i = i + 1;
    }
    let ghost w2 = out@;
    proof {
        assert(vs.take(vs.len() as int) =~= vs);
        assert(w2 =~= pre2 + u32_bytes(2) + zeros(8) + concat_all(vs));
    }
    end_section(&mut out, s_off, body_start);
    proof {
        lemma_section_written(pre2, 2, concat_all(vs), out@);
        reveal(wtns_bytes);
        assert(out@ =~= wtns_bytes(vs));
    }
    out
}

/// The 32-byte little-endian encoding of `v`, zero-padded.
pub open spec fn fr_u64_bytes(v: u64) -> Seq<u8> {
    u64_bytes(v) + zeros(24)
}

/// Encode a `u64` as a 32-byte little-endian field element.
pub fn fr_u64_le(v: u64) -> (r: [u8; 32])
    ensures
        r@ == fr_u64_bytes(v),
{
    let mut out = [0u8; 32];
    let lo = (v % 4294967296) as u32;
    let hi = (v / 4294967296) as u32;
    out[0] = (lo % 256) as u8;
    out[1] = ((lo / 256) % 256) as u8;
    out[2] = ((lo / 65536) % 256) as u8;
    out[3] = (lo / 16777216) as u8;
    out[4] = (hi % 256) as u8;
    out[5] = ((hi / 256) % 256) as u8;
    out[6] = ((hi / 65536) % 256) as u8;
    out[7] = (hi / 16777216) as u8;
    assert(out@ =~= fr_u64_bytes(v));
    out
}

/// The first of the first `k` values (32 bytes each from `base`) that is
/// not below `r`, reported at its absolute offset.
pub open spec fn wtns_values_check(s: Seq<u8>, base: int, k: nat) -> Option<ZacError>
    decreases k,
{
    if k == 0 {
        None
    } else {
        match wtns_values_check(s, base, (k - 1) as nat) {
            Some(e) => Some(e),
            None => match fr_result(
                s.subrange(base + 32 * (k - 1), base + 32 * k),
                (base + 32 * (k - 1)) as usize,
                (k - 1) as usize,
            ) {
                Err(e) => Some(e),
                Ok(_) => None,
            },
        }
    }
}

/// The `n` 32-byte values stored from `base`.
pub open spec fn wtns_chunks(s: Seq<u8>, base: int, n: nat) -> Seq<Seq<u8>> {
    Seq::new(n, |i: int| s.subrange(base + 32 * i, base + 32 * i + 32))
}

/// What the header section `h` and the values section `v` of `s` give.
pub open spec fn wtns_sections(s: Seq<u8>, h: SectionRef, v: SectionRef) -> Result<WtnsV, ZacError> {
    let off = h.offset as int;
    if h.size < 40 {
        Err(ZacError::Truncated { offset: h.offset, need: 40, have: h.size as usize })
    } else if le_u32(s, off) != 32 {
        Err(ZacError::BadFlags { offset: h.offset, field: "wtns.n8", value: le_u32(s, off) as u64 })
    } else if s.subrange(off + 4, off + 36) != BN254_R_LE@ {
        Err(
            ZacError::BadFlags {
                offset: (off + 4) as usize,
                field: "wtns.prime",
                value: le_u64(s, off + 4),
            },
        )
    } else {
        let n = le_u32(s, off + 36);
        if v.size != 32 * n {
            Err(
                ZacError::Truncated {
                    offset: v.offset,
                    need: (32 * n) as usize,
                    have: v.size as usize,
                },
            )
        } else {
            match wtns_values_check(s, v.offset as int, n as nat) {
                Some(e) => Err(e),
                None => Ok(
                    WtnsV {
                        n8: 32,
                        prime_le: BN254_R_LE@,
                        values: wtns_chunks(s, v.offset as int, n as nat),
                        values_le: wtns_chunks(s, v.offset as int, n as nat),
                    },
                ),
            }
        }
    }
}

/// What `parse_wtns` returns for the bytes `s`.
pub open spec fn wtns_result(s: Seq<u8>) -> Result<WtnsV, ZacError> {
    match binfile_result(s, magic_wtns()) {
        Err(e) => Err(e),
        Ok((_, refs)) => match first_with_id(refs, 1, 0) {
            None => Err(ZacError::MissingMandatorySection { missing_type: 0x01, name: "wtns.header" }),
            Some(hi) => match first_with_id(refs, 2, 0) {
                None => Err(
                    ZacError::MissingMandatorySection { missing_type: 0x02, name: "wtns.values" },
                ),
                Some(vi) => wtns_sections(s, refs[hi], refs[vi]),
            },
        },
    }
}

proof fn lemma_wtns_values_stable(s: Seq<u8>, base: int, k: nat, k2: nat)
    requires
        wtns_values_check(s, base, k) is Some,
        k <= k2,
    ensures
        wtns_values_check(s, base, k2) == wtns_values_check(s, base, k),
    decreases k2 - k,
{
    if k < k2 {
        lemma_wtns_values_stable(s, base, k, (k2 - 1) as nat);
    }
}

/// Parse a `.wtns` file: BN254 only (`n8 == 32`, `prime == r`, E003
/// otherwise), the values section exactly `nWitness * 32` bytes (E015), and
/// every value below `r` (E012).
#[verifier::loop_isolation(false)]
pub fn parse_wtns(bytes: &[u8]) -> (r: ZacResult<Wtns>)
    ensures
        match r {
            Ok(w) => wtns_result(bytes@) == Ok::<WtnsV, ZacError>(w@),
            Err(e) => wtns_result(bytes@) == Err::<WtnsV, ZacError>(e),
        },
{
    let magic: [u8; 4] = [0x77, 0x74, 0x6e, 0x73];
    assert(magic@ =~= magic_wtns());
    let (_hdr, sects) = match read_binfile_header(bytes, &magic) {
        Ok(x) => x,
        Err(e) => {
            return Err(e);
        },
    };
    let len = bytes.len();
    proof {
        lemma_binfile_refs_in_bounds(bytes@, magic@);
        lemma_first_with_id(sects@, 1, 0);
        lemma_first_with_id(sects@, 2, 0);
    }
    let header_sec = match find_section(sects.as_slice(), 0x01) {
        Some(h) => h,
        None => {
            return Err(ZacError::MissingMandatorySection { missing_type: 0x01, name: "wtns.header" });
        },
    };
    let val_sec = match find_section(sects.as_slice(), 0x02) {
        Some(v) => v,
        None => {
            return Err(ZacError::MissingMandatorySection { missing_type: 0x02, name: "wtns.values" });
        },
    };
    if header_sec.size < 40 {
        return Err(
            ZacError::Truncated {
                offset: header_sec.offset,
                need: 40,
                have: header_sec.size as usize,
            },
        );
    }
    let off = header_sec.offset;
    let n8 = read_u32(bytes, off);
    if n8 != 32 {
        return Err(ZacError::BadFlags { offset: off, field: "wtns.n8", value: n8 as u64 });
    }
    let prime_le: [u8; 32] = copy_array(bytes, off + 4);
    let modulus: [u8; 32] = BN254_R_LE;
    if !crate::wire::bytes32_eq(&prime_le, &modulus) {
        let low = read_u64(bytes, off + 4);
        return Err(ZacError::BadFlags { offset: off + 4, field: "wtns.prime", value: low });
    }
    let n_witness = read_u32(bytes, off + 36);
    let val_off = val_sec.offset;
    if val_sec.size != 32 * (n_witness as u64) {
        return Err(
            ZacError::Truncated {
                offset: val_off,
                need: (32 * (n_witness as u64)) as usize,
                have: val_sec.size as usize,
            },
        );
    }
    let n = n_witness as usize;
    let mut values: Vec<[u8; 32]> = Vec::new();
    let mut values_le: Vec<[u8; 32]> = Vec::new();
    let mut i: usize = 0;
    while i < n
        invariant
            i <= n,
            n == n_witness,
            val_off + 32 * n <= bytes@.len(),
            wtns_values_check(bytes@, val_off as int, i as nat) is None,
            values@.len() == i,
            values_le@.len() == i,
            forall|j: int|
                0 <= j < i ==> (#[trigger] values@[j])@ == bytes@.subrange(
                    val_off + 32 * j,
                    val_off + 32 * j + 32,
                ) && values_le@[j] == values@[j],
        decreases n - i,
    {
        let abs = val_off + i * 32;
        let buf: [u8; 32] = copy_array(bytes, abs);
        let fr = match decode_fr_canonical(&buf, abs, i) {
            Ok(v) => v,
            Err(e) => {
                proof {
                    lemma_wtns_values_stable(bytes@, val_off as int, (i + 1) as nat, n as nat);
                }
                return Err(e);
            },
        };
        values_le.push(buf);
        values.push(fr);
        i = i + 1;
    }
    let w = Wtns { n8, prime_le, values, values_le };
    proof {
        assert(prime_le@ =~= BN254_R_LE@);
        assert(w@.values =~= wtns_chunks(bytes@, val_off as int, n as nat));
        assert(w@.values_le =~= wtns_chunks(bytes@, val_off as int, n as nat));
    }
    Ok(w)
}

proof fn lemma_wtns_values_ok(s: Seq<u8>, base: int, vs: Seq<Seq<u8>>, k: nat)
    requires
        k <= vs.len(),
        0 <= base,
        forall|i: int| 0 <= i < vs.len() ==> le_nat(#[trigger] vs[i]) < fr_modulus(),
        forall|i: int|
            0 <= i < vs.len() ==> s.subrange(base + 32 * i, base + 32 * i + 32) == #[trigger] vs[i],
    ensures
        wtns_values_check(s, base, k) is None,
    decreases k,
{
    if k > 0 {
        lemma_wtns_values_ok(s, base, vs, (k - 1) as nat);
        let i = k - 1;
        assert(s.subrange(base + 32 * i, base + 32 * i + 32) == vs[i]);
    }
}

/// The section table of an encoded `.wtns`.
#[verifier::rlimit(80)]
proof fn lemma_wtns_table(vs: Seq<Seq<u8>>)
    requires
        vs.len() <= u32::MAX,
        forall|i: int| 0 <= i < vs.len() ==> (#[trigger] vs[i]).len() == 32,
    ensures
        ({
            let c = concat_all(vs);
            let refs = seq![
                SectionRef { id: 1, offset: 24, size: 40 },
                SectionRef { id: 2, offset: 76, size: c.len() as u64 },
            ];
            &&& binfile_result(wtns_bytes(vs), magic_wtns()) is Ok
            &&& binfile_result(wtns_bytes(vs), magic_wtns())->Ok_0.1 == refs
        }),
{
    reveal(wtns_bytes);
    let n = vs.len();
    let hb = wtns_header_body(n);
    let c = concat_all(vs);
    lemma_concat_all_windows(vs);
    let ids = seq![1u32, 2u32];
    let bodies = seq![hb, c];
    let s = wtns_bytes(vs);
    reveal_with_fuel(frames, 3);
    reveal_with_fuel(frame_refs, 3);
    assert(frames(ids, bodies, 1) =~= section_frame(1, hb));
    assert(frames(ids, bodies, 2) =~= section_frame(1, hb) + section_frame(2, c));
    assert(s =~= binfile_header_bytes(magic_wtns(), 2, 2) + frames(ids, bodies, 2));
    lemma_frames_read(magic_wtns(), 2, ids, bodies);
    let refs = frame_refs(ids, bodies, 2);
    assert(refs =~= seq![
        SectionRef { id: 1, offset: 24, size: 40 },
        SectionRef { id: 2, offset: 76, size: c.len() as u64 },
    ]);
}

/// The header fields of an encoded `.wtns`.
proof fn lemma_wtns_header_fields(vs: Seq<Seq<u8>>)
    requires
        vs.len() <= u32::MAX,
    ensures
        ({
            let s = wtns_bytes(vs);
            &&& s.len() >= 64
            &&& le_u32(s, 24) == 32
            &&& s.subrange(28, 60) == BN254_R_LE@
            &&& le_u32(s, 60) == vs.len() as u32
        }),
{
    reveal(wtns_bytes);
    let n = vs.len();
    let s = wtns_bytes(vs);
    lemma_u32_roundtrip(32);
    lemma_u32_roundtrip(n as u32);
    assert(s.subrange(24, 28) =~= u32_bytes(32).subrange(0, 4));
    lemma_le_u32_frame(s, u32_bytes(32), 24, 0);
    assert(s.subrange(28, 60) =~= BN254_R_LE@);
    assert(s.subrange(60, 64) =~= u32_bytes(n as u32).subrange(0, 4));
    lemma_le_u32_frame(s, u32_bytes(n as u32), 60, 0);
}

/// The values of an encoded `.wtns` sit 32 bytes apart from offset 76.
proof fn lemma_wtns_value_windows(vs: Seq<Seq<u8>>)
    requires
        forall|i: int| 0 <= i < vs.len() ==> (#[trigger] vs[i]).len() == 32,
    ensures
        wtns_bytes(vs).len() == 76 + 32 * vs.len(),
        forall|i: int|
            0 <= i < vs.len() ==> wtns_bytes(vs).subrange(76 + 32 * i, 76 + 32 * i + 32)
                == #[trigger] vs[i],
{
    reveal(wtns_bytes);
    let s = wtns_bytes(vs);
    let c = concat_all(vs);
    lemma_concat_all_windows(vs);
    assert forall|i: int| 0 <= i < vs.len() implies s.subrange(76 + 32 * i, 76 + 32 * i + 32)
        == #[trigger] vs[i] by {
        assert(s.subrange(76 + 32 * i, 76 + 32 * i + 32) =~= c.subrange(32 * i, 32 * i + 32));
    }
}

/// Encoding values that are all below `r` and parsing the result gives back
/// `n8 = 32`, the BN254 modulus, and the same values.
#[verifier::rlimit(80)]
pub proof fn lemma_wtns_round_trip(vs: Seq<Seq<u8>>)
    requires
        vs.len() <= u32::MAX,
        forall|i: int| 0 <= i < vs.len() ==> (#[trigger] vs[i]).len() == 32,
        forall|i: int| 0 <= i < vs.len() ==> le_nat(#[trigger] vs[i]) < fr_modulus(),
    ensures
        wtns_result(wtns_bytes(vs)) == Ok::<WtnsV, ZacError>(
            WtnsV { n8: 32, prime_le: BN254_R_LE@, values: vs, values_le: vs },
        ),
{
    let n = vs.len();
    let s = wtns_bytes(vs);
    lemma_wtns_table(vs);
    lemma_wtns_header_fields(vs);
    lemma_wtns_value_windows(vs);
    lemma_concat_all_windows(vs);
    let refs = binfile_result(s, magic_wtns())->Ok_0.1;
    assert(refs[0] == SectionRef { id: 1, offset: 24, size: 40 });
    assert(refs[1] == SectionRef { id: 2, offset: 76, size: (32 * n) as u64 });
    assert(first_with_id(refs, 1, 0) == Some(0int));
    assert(first_with_id(refs, 2, 1) == Some(1int));
    assert(first_with_id(refs, 2, 0) == Some(1int));
    lemma_wtns_values_ok(s, 76, vs, n);
    assert(wtns_chunks(s, 76, n) =~= vs);
}

} // verus!
