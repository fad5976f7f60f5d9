//! Section bodies.
//!
//! VKEY and META_CBOR are kept as opaque bytes, INTERFACE is a typed record
//! (public-input count plus one length-prefixed UTF-8 name per input),
//! R1CS_HASH is a 32-byte digest, and vendor sections are kept verbatim.
use vstd::prelude::*;

use crate::error::{ZacError, ZacResult};
use crate::index::{SECTION_INTERFACE, SECTION_META_CBOR, SECTION_R1CS_HASH, SECTION_VKEY};
use crate::wire::{
    le_u16, le_u32, lemma_le_u16_bytes, lemma_le_u16_frame, lemma_le_u32_bytes, lemma_le_u32_frame, lemma_u16_roundtrip,
    lemma_u32_roundtrip, push_slice, push_u16, push_u32, read_u16, read_u32, u16_bytes, u32_bytes,
};
use vstd::utf8::{
    decode_utf8, decode_utf8_encode_utf8, encode_utf8, encode_utf8_decode_utf8,
    encode_utf8_valid_utf8, valid_utf8,
};

verus! {

/// Decoded INTERFACE section.
#[derive(Debug, Clone, PartialEq, Eq)]
pub struct InterfaceSection {
    /// Number of public inputs declared by the interface.
    pub public_input_count: u32,
    /// One UTF-8 name per public input, in declaration order.
    pub names: Vec<String>,
}

/// All section variants understood in v1.0. Unknown vendor sections are kept
/// verbatim so encoding stays lossless.
#[derive(Debug, Clone, PartialEq, Eq)]
pub enum Section {
    /// VKEY (0x01) — opaque canonical compressed verifying-key bytes.
    Vkey(Vec<u8>),
    /// INTERFACE (0x02) — typed public-input metadata.
    Interface(InterfaceSection),
    /// R1CS_HASH (0x03) — 32-byte digest of the canonical R1CS binary.
    R1csHash([u8; 32]),
    /// META_CBOR (0x04) — opaque CBOR; verifiers never depend on it.
    MetaCbor(Vec<u8>),
    /// Vendor (0x80..=0xFE) — opaque, skipped by verifiers.
    Vendor {
        /// Section type byte.
        tag: u8,
        /// Section body bytes.
        body: Vec<u8>,
    },
}

/// The mathematical content of an INTERFACE section.
pub struct InterfaceV {
    /// Declared public-input count.
    pub count: u32,
    /// The names, as character sequences.
    pub names: Seq<Seq<char>>,
}

/// The mathematical content of a section.
pub enum SectionV {
    /// VKEY bytes.
    Vkey(Seq<u8>),
    /// INTERFACE content.
    Interface(InterfaceV),
    /// R1CS digest bytes.
    R1csHash(Seq<u8>),
    /// META_CBOR bytes.
    MetaCbor(Seq<u8>),
    /// Vendor tag and bytes.
    Vendor(u8, Seq<u8>),
}

impl View for InterfaceSection {
    type V = InterfaceV;

    open spec fn view(&self) -> InterfaceV {
        InterfaceV { count: self.public_input_count, names: self.names@.map_values(|s: String| s@) }
    }
}

impl View for Section {
    type V = SectionV;

    open spec fn view(&self) -> SectionV {
        match self {
            Section::Vkey(b) => SectionV::Vkey(b@),
            Section::Interface(i) => SectionV::Interface(i@),
            Section::R1csHash(h) => SectionV::R1csHash(h@),
            Section::MetaCbor(b) => SectionV::MetaCbor(b@),
            Section::Vendor { tag, body } => SectionV::Vendor(*tag, body@),
        }
    }
}

/// On-wire type byte of a section.
pub open spec fn section_type_of(s: SectionV) -> u8 {
    match s {
        SectionV::Vkey(_) => 0x01,
        SectionV::Interface(_) => 0x02,
        SectionV::R1csHash(_) => 0x03,
        SectionV::MetaCbor(_) => 0x04,
        SectionV::Vendor(tag, _) => tag,
    }
}

/// The length-prefixed UTF-8 encoding of one name (the prefix is the byte
/// length, truncated to 16 bits).
pub open spec fn name_bytes(name: Seq<char>) -> Seq<u8> {
    u16_bytes(encode_utf8(name).len() as u16) + encode_utf8(name)
}

/// The concatenated length-prefixed encodings of `names`.
pub open spec fn names_bytes(names: Seq<Seq<char>>) -> Seq<u8>
    decreases names.len(),
{
    if names.len() == 0 {
        Seq::empty()
    } else {
        names_bytes(names.drop_last()) + name_bytes(names.last())
    }
}

/// The INTERFACE body: the declared count, then every name.
pub open spec fn interface_bytes(i: InterfaceV) -> Seq<u8> {
    u32_bytes(i.count) + names_bytes(i.names)
}

/// The body bytes `Section::encode_body` writes.
pub open spec fn body_bytes(s: SectionV) -> Seq<u8> {
    match s {
        SectionV::Vkey(b) => b,
        SectionV::Interface(i) => interface_bytes(i),
        SectionV::R1csHash(h) => h,
        SectionV::MetaCbor(b) => b,
        SectionV::Vendor(_, b) => b,
    }
}

/// Reading the first `k` names of an INTERFACE body `b` (at absolute offset
/// `abs`): the names read so far and the cursor after them, or the first
/// failure.
pub open spec fn iface_scan(b: Seq<u8>, abs: int, k: nat) -> Result<(Seq<Seq<char>>, int), ZacError>
    decreases k,
{
    if k == 0 {
        Ok((Seq::empty(), 4))
    } else {
        match iface_scan(b, abs, (k - 1) as nat) {
            Err(e) => Err(e),
            Ok((names, cur)) => {
                if cur + 2 > b.len() {
                    Err(
                        ZacError::Truncated {
                            offset: (abs + cur) as usize,
                            need: 2,
                            have: (b.len() - cur) as usize,
                        },
                    )
                } else {
                    let nl = le_u16(b, cur);
                    let c2 = cur + 2;
                    if c2 + nl > b.len() {
                        Err(
                            ZacError::Truncated {
                                offset: (abs + c2) as usize,
                                need: nl as usize,
                                have: (b.len() - c2) as usize,
                            },
                        )
                    } else {
                        let nb = b.subrange(c2, c2 + nl);
                        if nb.contains(0u8) {
                            Err(
                                ZacError::BadFlags {
                                    offset: (abs + c2) as usize,
                                    field: "interface.name",
                                    value: 0,
                                },
                            )
                        } else if !valid_utf8(nb) {
                            Err(
                                ZacError::BadFlags {
                                    offset: (abs + c2) as usize,
                                    field: "interface.name(utf8)",
                                    value: 0,
                                },
                            )
                        } else {
                            Ok((names.push(decode_utf8(nb)), c2 + nl))
                        }
                    }
                }
            },
        }
    }
}

/// What parsing an INTERFACE body `b` at absolute offset `abs` yields.
pub open spec fn interface_result(b: Seq<u8>, abs: int) -> Result<InterfaceV, ZacError> {
    if b.len() < 4 {
        Err(ZacError::Truncated { offset: abs as usize, need: 4, have: b.len() as usize })
    } else {
        match iface_scan(b, abs, le_u32(b, 0) as nat) {
            Err(e) => Err(e),
            Ok((names, cur)) => if cur != b.len() {
                Err(
                    ZacError::BadAlignment {
                        offset: (abs + cur) as usize,
                        reason: "INTERFACE body has trailing bytes after declared names",
                    },
                )
            } else {
                Ok(InterfaceV { count: le_u32(b, 0), names })
            },
        }
    }
}

/// What `Section::parse` yields for type `t`, body `b` at absolute offset
/// `abs`, index entry `i`.
pub open spec fn section_result(t: u8, b: Seq<u8>, abs: int, i: usize) -> Result<SectionV, ZacError> {
    if t == 0x00 || t == 0xFF || (0x05 <= t <= 0x7F) {
        Err(ZacError::ForbiddenSectionType { entry_index: i, section_type: t })
    } else if t == 0x01 {
        Ok(SectionV::Vkey(b))
    } else if t == 0x02 {
        match interface_result(b, abs) {
            Ok(iv) => Ok(SectionV::Interface(iv)),
            Err(e) => Err(e),
        }
    } else if t == 0x03 {
        if b.len() != 32 {
            Err(
                ZacError::BadAlignment {
                    offset: abs as usize,
                    reason: "R1CS_HASH body must be exactly 32 bytes",
                },
            )
        } else {
            Ok(SectionV::R1csHash(b))
        }
    } else if t == 0x04 {
        if b.len() > 65536 {
            Err(ZacError::BadAlignment { offset: abs as usize, reason: "META_CBOR body exceeds 64 KiB" })
        } else {
            Ok(SectionV::MetaCbor(b))
        }
    } else {
        Ok(SectionV::Vendor(t, b))
    }
}

/// Decode `bytes` as UTF-8 into an owned string.
///
/// Calls `std::str::from_utf8`, documented to succeed exactly when the
/// bytes are valid UTF-8 and then to view them as that string; the contract
/// claims `Some` iff `valid_utf8(bytes)` and that the characters are
/// `decode_utf8(bytes)`.
#[verifier::external_body]
pub(crate) fn utf8_to_string(bytes: &[u8]) -> (r: Option<String>)
    ensures
        r is Some <==> valid_utf8(bytes@),
        r matches Some(s) ==> s@ == decode_utf8(bytes@),
{
    match std::str::from_utf8(bytes) {
        Ok(s) => Some(s.to_string()),
        Err(_) => None,
    }
}

/// Whether `b[a..e]` contains a zero byte.
fn contains_zero(b: &[u8], a: usize, e: usize) -> (r: bool)
    requires
        a <= e <= b@.len(),
    ensures
        r == b@.subrange(a as int, e as int).contains(0u8),
{
    let mut i = a;
    while i < e
        invariant
            a <= i <= e <= b@.len(),
            forall|j: int| a <= j < i ==> b@[j] != 0u8,
        decreases e - i,
    {
        if b[i] == 0 {
            assert(b@.subrange(a as int, e as int)[i - a] == 0u8);
            return true;
        }
        i = i + 1;
    }
    proof {
        let nb = b@.subrange(a as int, e as int);
        if nb.contains(0u8) {
            let j = choose|j: int| 0 <= j < nb.len() && nb[j] == 0u8;
            assert(b@[a + j] == 0u8);
        }
    }
    false
}

fn parse_interface(body: &[u8], abs_offset: usize) -> (r: ZacResult<InterfaceSection>)
    requires
        abs_offset + body.len() <= usize::MAX,
    ensures
        match r {
            Ok(iface) => interface_result(body@, abs_offset as int) matches Ok(iv) && iface@ == iv,
            Err(e) => interface_result(body@, abs_offset as int) == Err::<InterfaceV, ZacError>(e),
        },
{
    if body.len() < 4 {
        return Err(ZacError::Truncated { offset: abs_offset, need: 4, have: body.len() });
    }
    let public_input_count = read_u32(body, 0);
    let mut names: Vec<String> = Vec::new();
    let mut cursor: usize = 4;
    let mut i: u32 = 0;
    while i < public_input_count
        invariant
            abs_offset + body.len() <= usize::MAX,
            body@.len() >= 4,
            public_input_count == le_u32(body@, 0),
            i <= public_input_count,
            iface_scan(body@, abs_offset as int, i as nat) matches Ok((ns, cur)) && cur == cursor
                && ns == names@.map_values(|s: String| s@),
            cursor <= body@.len(),
        decreases public_input_count - i,
    {
        let ghost prev = names@.map_values(|s: String| s@);
        let abs = abs_offset + cursor;
        if body.len() - cursor < 2 {
            proof {
                lemma_iface_err_stable(body@, abs_offset as int, (i + 1) as nat, public_input_count as nat);
            }
            return Err(ZacError::Truncated { offset: abs, need: 2, have: body.len() - cursor });
        }
        let name_len = read_u16(body, cursor) as usize;
        cursor = cursor + 2;
        if name_len > body.len() - cursor {
            proof {
                lemma_iface_err_stable(body@, abs_offset as int, (i + 1) as nat, public_input_count as nat);
            }
            return Err(
                ZacError::Truncated {
                    offset: abs_offset + cursor,
                    need: name_len,
                    have: body.len() - cursor,
                },
            );
        }
        if contains_zero(body, cursor, cursor + name_len) {
            proof {
                lemma_iface_err_stable(body@, abs_offset as int, (i + 1) as nat, public_input_count as nat);
            }
            return Err(
                ZacError::BadFlags { offset: abs_offset + cursor, field: "interface.name", value: 0 },
            );
        }
        let name_slice = vstd::slice::slice_subrange(body, cursor, cursor + name_len);
        let name = match utf8_to_string(name_slice) {
            Some(n) => n,
            None => {
                proof {
                    lemma_iface_err_stable(body@, abs_offset as int, (i + 1) as nat, public_input_count as nat);
                }
                return Err(
                    ZacError::BadFlags {
                        offset: abs_offset + cursor,
                        field: "interface.name(utf8)",
                        value: 0,
                    },
                );
            },
        };
        names.push(name);
        cursor = cursor + name_len;
        i = i + 1;
        assert(names@.map_values(|s: String| s@) =~= prev.push(decode_utf8(name_slice@)));
    }
    if cursor != body.len() {
        return Err(
            ZacError::BadAlignment {
                offset: abs_offset + cursor,
                reason: "INTERFACE body has trailing bytes after declared names",
            },
        );
    }
    Ok(InterfaceSection { public_input_count, names })
}

/// Once the INTERFACE scan has failed, reading further names reports the
/// same failure.
proof fn lemma_iface_err_stable(b: Seq<u8>, abs: int, k: nat, k2: nat)
    requires
        iface_scan(b, abs, k) is Err,
        k <= k2,
    ensures
        iface_scan(b, abs, k2) == iface_scan(b, abs, k),
    decreases k2 - k,
{
    if k < k2 {
        lemma_iface_err_stable(b, abs, k, (k2 - 1) as nat);
    }
}

/// Copy a byte slice into a fresh vector.
pub(crate) fn bytes_to_vec(b: &[u8]) -> (r: Vec<u8>)
    ensures
        r@ == b@,
{
    let mut v: Vec<u8> = Vec::new();
    push_slice(&mut v, b);
    v
}

impl Section {
    /// On-wire section type byte for this variant.
    pub fn section_type(&self) -> (r: u8)
        ensures
            r == section_type_of(self@),
    {
        match self {
            Section::Vkey(_) => SECTION_VKEY,
            Section::Interface(_) => SECTION_INTERFACE,
            Section::R1csHash(_) => SECTION_R1CS_HASH,
            Section::MetaCbor(_) => SECTION_META_CBOR,
            Section::Vendor { tag, .. } => *tag,
        }
    }

    /// Encode the section body (padding is the caller's business).
    pub fn encode_body(&self) -> (r: Vec<u8>)
        ensures
            r@ == body_bytes(self@),
    {
        match self {
            Section::Vkey(b) => bytes_to_vec(b.as_slice()),
            Section::Interface(i) => {
                let mut out: Vec<u8> = Vec::new();
                push_u32(&mut out, i.public_input_count);
                let mut k: usize = 0;
                while k < i.names.len()
                    invariant
                        k <= i.names@.len(),
                        out@ == u32_bytes(i.public_input_count) + names_bytes(
                            i.names@.map_values(|s: String| s@).take(k as int),
                        ),
                    decreases i.names@.len() - k,
                {
                    let ghost before = out@;
                    let bytes = i.names[k].as_str().as_bytes();
                    push_u16(&mut out, bytes.len() as u16);
                    push_slice(&mut out, bytes);
                    k = k + 1;
                    proof {
                        let all = i.names@.map_values(|s: String| s@);
                        assert(all.take(k as int).drop_last() =~= all.take(k - 1));
                        assert(all.take(k as int).last() == i.names@[k - 1]@);
                        assert(out@ =~= u32_bytes(i.public_input_count) + names_bytes(
                            all.take(k as int),
                        ));
                    }
                }
                proof {
                    let all = i.names@.map_values(|s: String| s@);
                    assert(all.take(i.names@.len() as int) =~= all);
                }
                out
            },
            Section::R1csHash(h) => bytes_to_vec(h.as_slice()),
            Section::MetaCbor(b) => bytes_to_vec(b.as_slice()),
            Section::Vendor { body, .. } => bytes_to_vec(body.as_slice()),
        }
    }

    /// Parse a section given its type byte and body bytes; `abs_offset` is
    /// the body's absolute file offset (for errors).
    pub fn parse(section_type: u8, body: &[u8], abs_offset: usize, entry_index: usize) -> (r:
        ZacResult<Section>)
        requires
            abs_offset + body.len() <= usize::MAX,
        ensures
            match r {
                Ok(s) => section_result(section_type, body@, abs_offset as int, entry_index) matches Ok(
                    sv,
                ) && s@ == sv,
                Err(e) => section_result(section_type, body@, abs_offset as int, entry_index) == Err::<
                    SectionV,
                    ZacError,
                >(e),
            },
    {
        if section_type == 0x00 || section_type == 0xFF || (0x05 <= section_type && section_type
            <= 0x7F) {
            return Err(ZacError::ForbiddenSectionType { entry_index, section_type });
        }
        if section_type == SECTION_VKEY {
            Ok(Section::Vkey(bytes_to_vec(body)))
        } else if section_type == SECTION_INTERFACE {
            let iface = parse_interface(body, abs_offset)?;
            Ok(Section::Interface(iface))
        } else if section_type == SECTION_R1CS_HASH {
            if body.len() != 32 {
                return Err(
                    ZacError::BadAlignment {
                        offset: abs_offset,
                        reason: "R1CS_HASH body must be exactly 32 bytes",
                    },
                );
            }
            let h: [u8; 32] = crate::wire::copy_array(body, 0);
            assert(body@.subrange(0, 32) =~= body@);
            Ok(Section::R1csHash(h))
        } else if section_type == SECTION_META_CBOR {
            if body.len() > 64 * 1024 {
                return Err(
                    ZacError::BadAlignment { offset: abs_offset, reason: "META_CBOR body exceeds 64 KiB" },
                );
            }
            Ok(Section::MetaCbor(bytes_to_vec(body)))
        } else {
            Ok(Section::Vendor { tag: section_type, body: bytes_to_vec(body) })
        }
    }
}

/// A name the INTERFACE encoding carries losslessly: its UTF-8 encoding
/// fits the 16-bit length prefix and has no NUL byte.
pub open spec fn name_valid(name: Seq<char>) -> bool {
    &&& encode_utf8(name).len() < 65536
    &&& !encode_utf8(name).contains(0u8)
}

/// An INTERFACE that encodes losslessly: one valid name per declared input.
pub open spec fn interface_valid(i: InterfaceV) -> bool {
    &&& i.names.len() == i.count
    &&& forall|k: int| 0 <= k < i.names.len() ==> name_valid(#[trigger] i.names[k])
}

/// A section that encodes losslessly.
pub open spec fn section_valid(s: SectionV) -> bool {
    match s {
        SectionV::Vkey(_) => true,
        SectionV::Interface(i) => interface_valid(i),
        SectionV::R1csHash(h) => h.len() == 32,
        SectionV::MetaCbor(b) => b.len() <= 65536,
        SectionV::Vendor(t, _) => 0x80 <= t <= 0xFE,
    }
}

/// Name encodings concatenate.
pub proof fn lemma_names_bytes_concat(a: Seq<Seq<char>>, b: Seq<Seq<char>>)
    ensures
        names_bytes(a + b) == names_bytes(a) + names_bytes(b),
    decreases b.len(),
{
    if b.len() == 0 {
        assert(a + b =~= a);
        assert(names_bytes(b) =~= Seq::<u8>::empty());
        assert(names_bytes(a) + names_bytes(b) =~= names_bytes(a));
    } else {
        lemma_names_bytes_concat(a, b.drop_last());
        assert((a + b).drop_last() =~= a + b.drop_last());
        assert((a + b).last() == b.last());
        assert(names_bytes(a) + names_bytes(b) =~= names_bytes(a) + names_bytes(b.drop_last())
            + name_bytes(b.last()));
    }
}

/// Scanning the encoding of valid names reads back, after `k` names, the
/// first `k` names with the cursor just past their encodings.
proof fn lemma_iface_scan_encoded(i: InterfaceV, abs: int, k: nat)
    requires
        interface_valid(i),
        k <= i.names.len(),
    ensures
        iface_scan(interface_bytes(i), abs, k) == Ok::<(Seq<Seq<char>>, int), ZacError>(
            (i.names.take(k as int), 4 + names_bytes(i.names.take(k as int)).len() as int),
        ),
    decreases k,
{
    let b = interface_bytes(i);
    if k == 0 {
        assert(i.names.take(0) =~= Seq::<Seq<char>>::empty());
    } else {
        let km = (k - 1) as nat;
        lemma_iface_scan_encoded(i, abs, km);
        let prefix = i.names.take(km as int);
        let name = i.names[km as int];
        let rest = i.names.skip(k as int);
        assert(i.names =~= prefix.push(name) + rest);
        assert(i.names.take(k as int) =~= prefix.push(name));
        assert(prefix.push(name).drop_last() =~= prefix);
        lemma_names_bytes_concat(prefix.push(name), rest);
        let pb = names_bytes(prefix);
        let enc = encode_utf8(name);
        assert(name_valid(name));
        let cur: int = 4 + pb.len() as int;
        assert(b =~= u32_bytes(i.count) + pb + (u16_bytes(enc.len() as u16) + enc) + names_bytes(
            rest,
        ));
        lemma_u16_roundtrip(enc.len() as u16);
        assert(b.subrange(cur, cur + 2) =~= u16_bytes(enc.len() as u16));
        assert(u16_bytes(enc.len() as u16).subrange(0, 2) =~= u16_bytes(enc.len() as u16));
        lemma_le_u16_frame(b, u16_bytes(enc.len() as u16), cur, 0);
        assert(le_u16(b, cur) == enc.len());
        assert(b.subrange(cur + 2, cur + 2 + enc.len()) =~= enc);
        encode_utf8_valid_utf8(name);
        encode_utf8_decode_utf8(name);
    }
}

/// Encoding a valid INTERFACE and parsing the body gives it back.
pub proof fn lemma_interface_round_trip(i: InterfaceV, abs: int)
    requires
        interface_valid(i),
    ensures
        interface_result(interface_bytes(i), abs) == Ok::<InterfaceV, ZacError>(i),
{
    let b = interface_bytes(i);
    lemma_u32_roundtrip(i.count);
    assert(b.subrange(0, 4) =~= u32_bytes(i.count));
    assert(u32_bytes(i.count).subrange(0, 4) =~= u32_bytes(i.count));
    lemma_le_u32_frame(b, u32_bytes(i.count), 0, 0);
    lemma_iface_scan_encoded(i, abs, i.names.len());
    assert(i.names.take(i.names.len() as int) =~= i.names);
}

/// Encoding a valid section body and parsing it under the section's type
/// gives the section back.
pub proof fn lemma_section_round_trip(s: SectionV, abs: int, idx: usize)
    requires
        section_valid(s),
    ensures
        section_result(section_type_of(s), body_bytes(s), abs, idx) == Ok::<SectionV, ZacError>(s),
{
    match s {
        SectionV::Interface(i) => {
            lemma_interface_round_trip(i, abs);
        },
        _ => {},
    }
}

/// The names an INTERFACE scan read are exactly the bytes it read them
/// from, re-encoded.
proof fn lemma_iface_scan_canonical(b: Seq<u8>, abs: int, k: nat)
    requires
        4 <= b.len(),
        iface_scan(b, abs, k) is Ok,
    ensures
        ({
            let (names, cur) = iface_scan(b, abs, k)->Ok_0;
            &&& 4 <= cur <= b.len()
            &&& names.len() == k
            &&& b.subrange(4, cur) == names_bytes(names)
            &&& forall|j: int| 0 <= j < k ==> name_valid(#[trigger] names[j])
        }),
    decreases k,
{
    if k == 0 {
        assert(b.subrange(4, 4) =~= Seq::<u8>::empty());
    } else {
        lemma_iface_scan_canonical(b, abs, (k - 1) as nat);
        let (names0, cur0) = iface_scan(b, abs, (k - 1) as nat)->Ok_0;
        let nl = le_u16(b, cur0);
        let c2 = cur0 + 2;
        let nb = b.subrange(c2, c2 + nl);
        let names = names0.push(decode_utf8(nb));
        decode_utf8_encode_utf8(nb);
        lemma_le_u16_bytes(b, cur0);
        assert(names.drop_last() =~= names0);
        assert(b.subrange(4, c2 + nl) =~= b.subrange(4, cur0) + (b.subrange(cur0, c2) + nb));
    }
}

/// A section body the parser accepts is canonical: the section it yields
/// has the type it was read under, and encoding its body gives back exactly
/// the bytes it was read from.
pub proof fn lemma_section_canonical(t: u8, b: Seq<u8>, abs: int, i: usize)
    requires
        section_result(t, b, abs, i) is Ok,
    ensures
        section_type_of(section_result(t, b, abs, i)->Ok_0) == t,
        body_bytes(section_result(t, b, abs, i)->Ok_0) == b,
        section_valid(section_result(t, b, abs, i)->Ok_0),
{
    if t == 0x02 {
        let k = le_u32(b, 0) as nat;
        lemma_iface_scan_canonical(b, abs, k);
        lemma_le_u32_bytes(b, 0);
        let iv = interface_result(b, abs)->Ok_0;
        assert(b =~= b.subrange(0, 4) + b.subrange(4, b.len() as int));
    }
}

} // verus!
