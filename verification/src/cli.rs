//! The decisions behind the `zac` command-line tool: how failures map to
//! exit codes, which hash a raw blob gets, how sections are named, where
//! an index entry sits on disk, how a public input is shown in decimal, and
//! which container `zac pack` builds from a proving key and an R1CS file.
use vstd::prelude::*;

use crate::error::digit_char;
use crate::hash::{r1cs_hash, r1cs_hash_spec, vk_fingerprint, vk_fingerprint_spec};
use crate::header::Header;
use crate::iden3::zkey::{vkey_bytes_compressed, vkey_bytes_of, Zkey, ZkeyV};
use crate::trailer::Trailer;
use crate::zac_file::{
    bodies_of, body_pos, first_body, lemma_zac_round_trip, zac_bytes, zac_encodable, zac_result,
    ZacFile,
};
use crate::section::{
    interface_bytes, name_valid, utf8_to_string, InterfaceSection, InterfaceV, Section, SectionV,
};
use crate::wire::{
    all_zero, first_nonzero, push_slice, le_nat, le_u32, lemma_first_nonzero, lemma_le_nat_cons,
    lemma_le_nat_zero, read_u32,
};
use vstd::utf8::{
    decode_utf8, encode_utf8, encode_utf8_decode_utf8, encode_utf8_valid_utf8, is_ascii_chars,
    is_ascii_chars_encode_utf8, valid_utf8,
};

verus! {

/// Exit code: generic failure.
pub const EXIT_ERR: u8 = 1;

/// Exit code: a proof or artifact was rejected (an `E###` code).
pub const EXIT_REJECT: u8 = 2;

/// Exit code: I/O or argument problem before any crypto runs.
pub const EXIT_IO: u8 = 3;

/// A command-line failure; the variant decides the exit code, the text is
/// what goes to stderr.
#[derive(Debug, Clone, PartialEq, Eq)]
pub enum CliError {
    /// The artifact or proof was rejected. Exit code 2.
    Reject(String),
    /// I/O or argument problem before any crypto runs. Exit code 3.
    Io(String),
}

impl CliError {
    /// The message carried by the error.
    pub fn message(&self) -> (r: &String)
        ensures
            r == match self {
                CliError::Reject(s) => s,
                CliError::Io(s) => s,
            },
    {
        match self {
            CliError::Reject(s) => s,
            CliError::Io(s) => s,
        }
    }

    /// The process exit code for this error.
    pub fn exit_code(&self) -> (r: u8)
        ensures
            r == match self {
                CliError::Reject(_) => EXIT_REJECT,
                CliError::Io(_) => EXIT_IO,
            },
    {
        match self {
            CliError::Reject(_) => EXIT_REJECT,
            CliError::Io(_) => EXIT_IO,
        }
    }
}

/// Which domain-tagged hash to apply to a raw blob.
#[derive(Debug, Clone, Copy, PartialEq, Eq, Structural)]
pub enum RawKind {
    /// VKEY bytes (`zac1.vkey.v1` tag).
    Vkey,
    /// R1CS bytes (`zac1.r1cs.v1` tag).
    R1cs,
}

/// The domain-tagged hash of a raw blob.
pub fn raw_hash(kind: RawKind, bytes: &[u8]) -> (r: [u8; 32])
    ensures
        r == match kind {
            RawKind::Vkey => vk_fingerprint_spec(bytes@),
            RawKind::R1cs => r1cs_hash_spec(bytes@),
        },
{
    match kind {
        RawKind::Vkey => vk_fingerprint(bytes),
        RawKind::R1cs => r1cs_hash(bytes),
    }
}

/// The display name of a section kind.
pub open spec fn section_name_of(s: SectionV) -> &'static str {
    match s {
        SectionV::Vkey(_) => "VKEY",
        SectionV::Interface(_) => "INTERFACE",
        SectionV::R1csHash(_) => "R1CS_HASH",
        SectionV::MetaCbor(_) => "META_CBOR",
        SectionV::Vendor(_, _) => "VENDOR",
    }
}

/// The display name of a section.
pub fn section_name(s: &Section) -> (r: &'static str)
    ensures
        r == section_name_of(s@),
{
    match s {
        Section::Vkey(_) => "VKEY",
        Section::Interface(_) => "INTERFACE",
        Section::R1csHash(_) => "R1CS_HASH",
        Section::MetaCbor(_) => "META_CBOR",
        Section::Vendor { .. } => "VENDOR",
    }
}

/// The `(offset, size, crc32)` fields of index entry `i`, read straight
/// from the bytes of a `.zac` file.
pub fn compute_index_for(bytes: &[u8], i: usize) -> (r: (u32, u32, u32))
    requires
        0x20 + 16 * i + 16 <= bytes.len(),
    ensures
        r == (
            le_u32(bytes@, 0x20 + 16 * i + 4),
            le_u32(bytes@, 0x20 + 16 * i + 8),
            le_u32(bytes@, 0x20 + 16 * i + 12),
        ),
{
    let base = 0x20 + i * 16;
    let offset = read_u32(bytes, base + 4);
    let size = read_u32(bytes, base + 8);
    let crc = read_u32(bytes, base + 12);
    (offset, size, crc)
}

/// The decimal digits of `n`, most significant first, without leading
/// zeros (`"0"` for zero).
pub open spec fn decimal(n: nat) -> Seq<char>
    decreases n,
{
    if n < 10 {
        seq![digit_char(n)]
    } else {
        decimal(n / 10).push(digit_char(n % 10))
    }
}

/// The number a string of decimal digits denotes.
pub open spec fn decimal_value(s: Seq<char>) -> int
    decreases s.len(),
{
    if s.len() == 0 {
        0
    } else {
        decimal_value(s.drop_last()) * 10 + (s.last() as int - 48)
    }
}

/// `decimal(n)` is the base-10 numeral of `n`: ASCII digits only, denoting
/// `n`, starting with `'0'` exactly when it is `"0"`, that is when `n == 0`.
pub proof fn lemma_decimal_numeral(n: nat)
    ensures
        decimal(n).len() >= 1,
        forall|i: int| 0 <= i < decimal(n).len() ==> '0' <= #[trigger] decimal(n)[i] <= '9',
        decimal_value(decimal(n)) == n,
        decimal(n)[0] == '0' <==> n == 0,
        decimal(n)[0] == '0' ==> decimal(n).len() == 1,
    decreases n,
{
    if n < 10 {
        assert(decimal(n) == seq![digit_char(n)]);
        assert(decimal(n).drop_last() =~= Seq::<char>::empty());
        assert(digit_char(n) as int == 48 + n);
        assert(decimal_value(decimal(n)) == decimal_value(decimal(n).drop_last()) * 10 + (
        decimal(n).last() as int - 48));
    } else {
        lemma_decimal_numeral(n / 10);
        let d = digit_char(n % 10);
        assert(decimal(n) == decimal(n / 10).push(d));
        assert(decimal(n).drop_last() =~= decimal(n / 10));
        assert(d as int == 48 + n % 10);
    }
}

/// Digits stored least significant first, as characters most significant
/// first.
pub open spec fn digits_text(ds: Seq<u8>) -> Seq<char> {
    Seq::new(ds.len(), |i: int| digit_char(ds[ds.len() - 1 - i] as nat))
}

/// Divide a 32-byte little-endian number by ten.
fn div10(n: [u8; 32]) -> (r: ([u8; 32], u8))
    ensures
        le_nat(n@) == 10 * le_nat(r.0@) + r.1,
        r.1 < 10,
{
    let mut cur = n;
    let mut rem: u32 = 0;
    let mut j: usize = 32;
    proof {
        assert(n@.subrange(32, 32).len() == 0);
        assert(cur@.subrange(32, 32).len() == 0);
    }
    while j > 0
        invariant
            j <= 32,
            cur@.len() == 32,
            rem < 10,
            forall|i: int| 0 <= i < j ==> cur@[i] == n@[i],
            le_nat(n@.subrange(j as int, 32)) == 10 * le_nat(cur@.subrange(j as int, 32)) + rem,
        decreases j,
    {
        let ghost before = cur@;
        let v: u32 = rem * 256 + cur[j - 1] as u32;
        let q: u32 = v / 10;
        rem = v % 10;
        cur[j - 1] = q as u8;
        proof {
            let a = n@.subrange(j - 1, 32);
            let b = cur@.subrange(j - 1, 32);
            lemma_le_nat_cons(a);
            lemma_le_nat_cons(b);
            assert(a.drop_first() =~= n@.subrange(j as int, 32));
            assert(b.drop_first() =~= before.subrange(j as int, 32));
            assert(a[0] == n@[j - 1]);
            assert(b[0] == q);
        }
        j = j - 1;
    }
    proof {
        assert(n@.subrange(0, 32) =~= n@);
        assert(cur@.subrange(0, 32) =~= cur@);
    }
    (cur, rem as u8)
}

/// The character of a decimal digit is its ASCII code.
proof fn lemma_digit_char_ascii(d: nat)
    requires
        d < 10,
    ensures
        digit_char(d) as u8 == 48 + d,
        '\0' <= digit_char(d) <= '\u{7f}',
{
}

/// A 32-byte little-endian number in decimal.
pub fn le32_to_decimal(bytes: &[u8; 32]) -> (r: String)
    ensures
        r@ == decimal(le_nat(bytes@)),
{
    let ghost n0 = le_nat(bytes@);
    let mut cur: [u8; 32] = *bytes;
    let mut ds: Vec<u8> = Vec::new();
    loop
        invariant_except_break
            decimal(n0) == decimal(le_nat(cur@)) + digits_text(ds@),
        invariant
            forall|i: int| 0 <= i < ds@.len() ==> ds@[i] < 10,
        ensures
            decimal(n0) == digits_text(ds@),
        decreases le_nat(cur@),
    {
        let ghost c = le_nat(cur@);
        let (q, d) = div10(cur);
        let ghost old_ds = ds@;
        ds.push(d);
        proof {
            assert(digits_text(ds@) =~= seq![digit_char(d as nat)] + digits_text(old_ds));
            lemma_first_nonzero(q@, 0, 32);
            lemma_le_nat_zero(q@);
        }
        if first_nonzero(q.as_slice(), 0, 32).is_none() {
            proof {
                assert(c == d);
                assert(decimal(c) == seq![digit_char(d as nat)]);
            }
            break;
        }
        proof {
            assert(c / 10 == le_nat(q@));
            assert(c % 10 == d);
        }
        cur = q;
    }
    let n = ds.len();
    let mut out: Vec<u8> = Vec::new();
    let mut i: usize = 0;
    while i < n
        invariant
            n == ds@.len(),
            i <= n,
            forall|k: int| 0 <= k < ds@.len() ==> ds@[k] < 10,
            out@.len() == i,
            forall|k: int| 0 <= k < i ==> out@[k] == 48 + ds@[n - 1 - k],
        decreases n - i,
    {
        out.push(48 + ds[n - 1 - i]);
        i = i + 1;
    }
    let ghost chars = digits_text(ds@);
    proof {
        assert forall|k: int| 0 <= k < chars.len() implies '\0' <= #[trigger] chars[k] <= '\u{7f}'
            && chars[k] as u8 == out@[k] by {
            lemma_digit_char_ascii(ds@[n - 1 - k] as nat);
        }
        assert(is_ascii_chars(chars));
        is_ascii_chars_encode_utf8(chars);
        assert(encode_utf8(chars) =~= out@);
        encode_utf8_valid_utf8(chars);
        encode_utf8_decode_utf8(chars);
    }
    match utf8_to_string(out.as_slice()) {
        Some(s) => s,
        None => {
            proof {
                assert(false);
            }
            String::new()
        },
    }
}

/// The ASCII bytes of `v` in decimal.
fn u32_decimal_bytes(v: u32) -> (r: Vec<u8>)
    ensures
        r@ == encode_utf8(decimal(v as nat)),
        is_ascii_chars(decimal(v as nat)),
{
    let mut cur: u32 = v;
    let mut ds: Vec<u8> = Vec::new();
    loop
        invariant_except_break
            decimal(v as nat) == decimal(cur as nat) + digits_text(ds@),
        invariant
            forall|i: int| 0 <= i < ds@.len() ==> ds@[i] < 10,
        ensures
            decimal(v as nat) == digits_text(ds@),
        decreases cur,
    {
        let d = (cur % 10) as u8;
        let q = cur / 10;
        let ghost old_ds = ds@;
        ds.push(d);
        proof {
            assert(digits_text(ds@) =~= seq![digit_char(d as nat)] + digits_text(old_ds));
        }
        if q == 0 {
            proof {
                assert(decimal(cur as nat) == seq![digit_char(d as nat)]);
            }
            break;
        }
        proof {
            assert(decimal(cur as nat) == decimal(q as nat).push(digit_char(d as nat)));
            assert(decimal(q as nat) + digits_text(ds@) =~= decimal(q as nat) + seq![
                digit_char(d as nat),
            ] + digits_text(old_ds));
        }
        cur = q;
    }
    let n = ds.len();
    let mut out: Vec<u8> = Vec::new();
    let mut i: usize = 0;
    while i < n
        invariant
            n == ds@.len(),
            i <= n,
            forall|k: int| 0 <= k < ds@.len() ==> ds@[k] < 10,
            out@.len() == i,
            forall|k: int| 0 <= k < i ==> out@[k] == 48 + ds@[n - 1 - k],
        decreases n - i,
    {
        out.push(48 + ds[n - 1 - i]);
        i = i + 1;
    }
    let ghost chars = digits_text(ds@);
    proof {
        assert forall|k: int| 0 <= k < chars.len() implies '\0' <= #[trigger] chars[k] <= '\u{7f}'
            && chars[k] as u8 == out@[k] by {
            lemma_digit_char_ascii(ds@[n - 1 - k] as nat);
        }
        assert(is_ascii_chars(chars));
        is_ascii_chars_encode_utf8(chars);
        assert(encode_utf8(chars) =~= out@);
    }
    out
}

/// The name `zac pack` gives public input `i` when none are named.
pub open spec fn default_name(i: nat) -> Seq<char> {
    seq!['p', 'u', 'b', '_'] + decimal(i)
}

/// The default names `pub_0`, `pub_1`, ... of `n` public inputs.
pub fn default_names(n: u32) -> (r: Vec<String>)
    ensures
        r@.len() == n,
        forall|i: int| 0 <= i < n ==> (#[trigger] r@[i])@ == default_name(i as nat),
{
    let mut out: Vec<String> = Vec::new();
    let mut i: u32 = 0;
    while i < n
        invariant
            i <= n,
            out@.len() == i,
            forall|k: int| 0 <= k < i ==> (#[trigger] out@[k])@ == default_name(k as nat),
        decreases n - i,
    {
        let digits = u32_decimal_bytes(i);
        let mut bytes: Vec<u8> = vec![0x70u8, 0x75, 0x62, 0x5f];
        push_slice(&mut bytes, digits.as_slice());
        let ghost name = default_name(i as nat);
        proof {
            let pre = seq!['p', 'u', 'b', '_'];
            assert(is_ascii_chars(pre));
            is_ascii_chars_encode_utf8(pre);
            is_ascii_chars_encode_utf8(decimal(i as nat));
            assert(is_ascii_chars(name)) by {
                assert forall|k: int| 0 <= k < name.len() implies '\0' <= #[trigger] name[k]
                    <= '\u{7f}' by {
                    if k >= 4 {
                        assert(name[k] == decimal(i as nat)[k - 4]);
                    }
                }
            }
            is_ascii_chars_encode_utf8(name);
            assert(encode_utf8(name) =~= bytes@) by {
                assert forall|k: int| 0 <= k < name.len() implies encode_utf8(name)[k] == bytes@[k] by {
                    if k >= 4 {
                        assert(name[k] == decimal(i as nat)[k - 4]);
                        assert(digits@[k - 4] == decimal(i as nat)[k - 4] as u8);
                    }
                }
            }
            encode_utf8_valid_utf8(name);
            encode_utf8_decode_utf8(name);
        }
        match utf8_to_string(bytes.as_slice()) {
            Some(s) => {
                out.push(s);
            },
            None => {
                proof {
                    assert(false);
                }
            },
        }
        i = i + 1;
    }
    out
}

/// `--names` gave a different number of names than the key has public
/// inputs.
#[derive(Debug, Clone, Copy, PartialEq, Eq, Structural)]
pub struct NamesCountMismatch {
    /// How many names were given.
    pub declared: usize,
    /// The key's public-input count.
    pub expected: u32,
}

/// The header `zac pack` writes before `ZacFile::encode` fills in the
/// geometry: version 1.0.0, no flags.
pub open spec fn pack_header() -> Header {
    Header {
        version_major: 1,
        version_minor: 0,
        version_patch: 0,
        flags: 0,
        section_count: 0,
        body_offset: 0,
        body_size: 0,
    }
}

/// The sections `zac pack` writes: the key's compressed verifying key, the
/// interface (the key's public-input count and the names), and the hash of
/// the R1CS bytes.
pub open spec fn pack_sections(zk: ZkeyV, r1cs: Seq<u8>, names: Seq<Seq<char>>) -> Seq<SectionV> {
    seq![
        SectionV::Vkey(vkey_bytes_of(zk)),
        SectionV::Interface(InterfaceV { count: zk.header.n_public, names }),
        SectionV::R1csHash(r1cs_hash_spec(r1cs)@),
    ]
}

/// The names `zac pack` uses: the ones given, or `pub_0`, `pub_1`, ...
pub open spec fn pack_names(n_public: u32, names: Option<Seq<Seq<char>>>) -> Seq<Seq<char>> {
    match names {
        Some(v) => v,
        None => Seq::new(n_public as nat, |i: int| default_name(i as nat)),
    }
}

/// The container `zac pack` builds from a proving key, the R1CS bytes and
/// the public-input names (the defaults when none are given): refused when
/// a different number of names than public inputs is given.
pub fn pack_file(zkey: &Zkey, r1cs_bytes: &[u8], names: Option<Vec<String>>) -> (r: Result<
    ZacFile,
    NamesCountMismatch,
>)
    ensures
        match r {
            Ok(f) => {
                &&& names matches Some(v) ==> v@.len() == zkey.n_public
                &&& f.header == pack_header()
                &&& f@.sections == pack_sections(
                    zkey@,
                    r1cs_bytes@,
                    pack_names(
                        zkey.n_public,
                        match names {
                            Some(v) => Some(v@.map_values(|s: String| s@)),
                            None => None,
                        },
                    ),
                )
                &&& f.trailer.file_hash@ == Seq::new(32, |i: int| 0u8)
            },
            Err(e) => names matches Some(v) && v@.len() != zkey.n_public && e
                == NamesCountMismatch { declared: v@.len() as usize, expected: zkey.n_public },
        },
{
    let ghost given = match &names {
        Some(v) => Some(v@.map_values(|s: String| s@)),
        None => None,
    };
    let names = match names {
        Some(v) => {
            if v.len() != zkey.n_public as usize {
                return Err(NamesCountMismatch { declared: v.len(), expected: zkey.n_public });
            }
            v
        },
        None => default_names(zkey.n_public),
    };
    let ghost nv = names@.map_values(|s: String| s@);
    assert(nv =~= pack_names(zkey.n_public, given));
    let vkey = vkey_bytes_compressed(zkey);
    let digest = r1cs_hash(r1cs_bytes);
    let iface = InterfaceSection { public_input_count: zkey.n_public, names };
    let mut sections: Vec<Section> = Vec::new();
    sections.push(Section::Vkey(vkey));
    sections.push(Section::Interface(iface));
    sections.push(Section::R1csHash(digest));
    let f = ZacFile {
        header: Header {
            version_major: 1,
            version_minor: 0,
            version_patch: 0,
            flags: 0,
            section_count: 0,
            body_offset: 0,
            body_size: 0,
        },
        sections,
        trailer: Trailer { file_hash: [0u8; 32] },
    };
    assert(f@.sections =~= pack_sections(zkey@, r1cs_bytes@, nv));
    assert(f.trailer.file_hash@ =~= Seq::new(32, |i: int| 0u8));
    Ok(f)
}

/// What `zac pack` writes parses back: when every name encodes losslessly
/// (shorter than 64 KiB in UTF-8, no NUL byte) and the container fits in
/// 32-bit offsets, `ZacFile::parse` accepts the encoded container and gives
/// its three sections back.
pub proof fn lemma_pack_parses_back(zk: ZkeyV, r1cs: Seq<u8>, names: Seq<Seq<char>>)
    requires
        names.len() == zk.header.n_public,
        forall|i: int| 0 <= i < names.len() ==> name_valid(#[trigger] names[i]),
        body_pos(bodies_of(pack_sections(zk, r1cs, names)), first_body(3), 3) + 40 <= u32::MAX,
    ensures
        ({
            let s = zac_bytes(pack_header(), pack_sections(zk, r1cs, names));
            &&& zac_result(s) is Ok
            &&& zac_result(s)->Ok_0.sections == pack_sections(zk, r1cs, names)
        }),
{
    let svs = pack_sections(zk, r1cs, names);
    assert(svs[0] is Vkey);
    assert(svs[1] is Interface);
    assert(svs[2] is R1csHash);
    let bs = bodies_of(svs);
    assert(bs[0] == vkey_bytes_of(zk));
    assert(bs[1] == interface_bytes(InterfaceV { count: zk.header.n_public, names }));
    assert(zac_encodable(pack_header(), svs));
    lemma_zac_round_trip(pack_header(), svs);
}

} // verus!
