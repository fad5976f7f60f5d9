//! iden3 R1CS files: an encoder for hand-built constraint systems.
//!
//! ```text
//! magic "r1cs" | version 1 | nSections = 3
//! section 0x01 header
//!   n8 u32 | prime r (n8 bytes LE) | nWires u32 | nPubOut u32 | nPubIn u32 |
//!   nPrvIn u32 | nLabels u64 | nConstraints u32
//! section 0x02 constraints
//!   per constraint, for A, B, C in turn: n u32, then n × (wireId u32, coeff 32 bytes LE)
//! section 0x03 wire → label map
//!   nWires × u64 (the identity map)
//! ```
use vstd::prelude::*;

use crate::iden3::{
    begin_section, binfile_header_bytes, binfile_result, end_section, frame_refs, frames,
    lemma_frames_read, lemma_section_written, section_frame, write_binfile_header, BinFileHeader,
    SectionRef, BN254_R_LE,
};
use crate::error::ZacError;
use crate::header::four;
use crate::wire::{
    concat_all, lemma_concat_all_push, lemma_concat_all_take_len, lemma_to_arr32, push_slice,
    push_u32, push_u64, to_arr32, u32_bytes, u64_bytes, zeros,
};

verus! {

/// One linear-combination term: a wire id and its 32-byte little-endian
/// coefficient.
pub type LcEntry = (u32, [u8; 32]);

/// One R1CS constraint `A · B = C`.
pub struct Constraint {
    /// Linear combination A.
    pub a: Vec<LcEntry>,
    /// Linear combination B.
    pub b: Vec<LcEntry>,
    /// Linear combination C.
    pub c: Vec<LcEntry>,
}

/// The mathematical content of a constraint.
pub struct ConstraintV {
    /// Linear combination A.
    pub a: Seq<LcEntry>,
    /// Linear combination B.
    pub b: Seq<LcEntry>,
    /// Linear combination C.
    pub c: Seq<LcEntry>,
}

impl View for Constraint {
    type V = ConstraintV;

    open spec fn view(&self) -> ConstraintV {
        ConstraintV { a: self.a@, b: self.b@, c: self.c@ }
    }
}

/// Header parameters and constraints of an R1CS file.
pub struct R1csSpec {
    /// Total wires, including the constant-one wire 0.
    pub n_wires: u32,
    /// Public output wires.
    pub n_pub_out: u32,
    /// Public input wires.
    pub n_pub_in: u32,
    /// Private input wires.
    pub n_prv_in: u32,
    /// Number of labels.
    pub n_labels: u64,
    /// The constraints.
    pub constraints: Vec<Constraint>,
}

/// The mathematical content of an [`R1csSpec`].
pub struct R1csSpecV {
    /// Total wires.
    pub n_wires: u32,
    /// Public output wires.
    pub n_pub_out: u32,
    /// Public input wires.
    pub n_pub_in: u32,
    /// Private input wires.
    pub n_prv_in: u32,
    /// Number of labels.
    pub n_labels: u64,
    /// The constraints.
    pub constraints: Seq<ConstraintV>,
}

impl View for R1csSpec {
    type V = R1csSpecV;

    open spec fn view(&self) -> R1csSpecV {
        R1csSpecV {
            n_wires: self.n_wires,
            n_pub_out: self.n_pub_out,
            n_pub_in: self.n_pub_in,
            n_prv_in: self.n_prv_in,
            n_labels: self.n_labels,
            constraints: self.constraints@.map_values(|c: Constraint| c@),
        }
    }
}

/// The field element one, as 32 little-endian bytes.
pub open spec fn one_le() -> [u8; 32] {
    to_arr32(seq![1u8] + zeros(31))
}

/// The single-term linear combination `1 · wire`.
pub open spec fn unit_lc(wire: u32) -> Seq<LcEntry> {
    seq![(wire, one_le())]
}

/// The multiplier circuit `x · y = z` over wires `[1, z, x, y]`.
pub open spec fn multiplier_spec() -> R1csSpecV {
    R1csSpecV {
        n_wires: 4,
        n_pub_out: 1,
        n_pub_in: 0,
        n_prv_in: 2,
        n_labels: 4,
        constraints: seq![ConstraintV { a: unit_lc(2), b: unit_lc(3), c: unit_lc(1) }],
    }
}

/// The multiplier circuit: wire 0 is the constant one, wire 1 the public
/// output `z`, wires 2 and 3 the private inputs `x` and `y`; one constraint
/// `x · y = z`.
pub fn multiplier_circuit() -> (r: R1csSpec)
    ensures
        r@ == multiplier_spec(),
{
    let mut one: [u8; 32] = [0u8; 32];
    one[0] = 1;
    proof {
        assert(one@ =~= seq![1u8] + zeros(31));
        lemma_to_arr32(one);
    }
    let a: Vec<LcEntry> = vec![(2, one)];
    let b: Vec<LcEntry> = vec![(3, one)];
    let c: Vec<LcEntry> = vec![(1, one)];
    let r = R1csSpec {
        n_wires: 4,
        n_pub_out: 1,
        n_pub_in: 0,
        n_prv_in: 2,
        n_labels: 4,
        constraints: vec![Constraint { a, b, c }],
    };
    proof {
        assert(r@.constraints[0].a =~= unit_lc(2));
        assert(r@.constraints[0].b =~= unit_lc(3));
        assert(r@.constraints[0].c =~= unit_lc(1));
        assert(r@.constraints =~= multiplier_spec().constraints);
    }
    r
}

/// `"r1cs"`.
pub open spec fn magic_r1cs() -> Seq<u8> {
    seq![0x72u8, 0x31, 0x63, 0x73]
}

/// The bytes of one term.
pub open spec fn term_bytes(e: LcEntry) -> Seq<u8> {
    u32_bytes(e.0) + e.1@
}

/// The bytes of a linear combination: its length, then its terms.
pub open spec fn lc_bytes(lc: Seq<LcEntry>) -> Seq<u8> {
    u32_bytes(lc.len() as u32) + concat_all(lc.map_values(|e: LcEntry| term_bytes(e)))
}

/// The bytes of one constraint.
pub open spec fn constraint_bytes(c: ConstraintV) -> Seq<u8> {
    lc_bytes(c.a) + lc_bytes(c.b) + lc_bytes(c.c)
}

/// The body of the constraints section.
pub open spec fn constraints_body(cs: Seq<ConstraintV>) -> Seq<u8> {
    concat_all(cs.map_values(|c: ConstraintV| constraint_bytes(c)))
}

/// The body of the header section.
pub open spec fn r1cs_header_body(s: R1csSpecV) -> Seq<u8> {
    u32_bytes(32) + BN254_R_LE@ + u32_bytes(s.n_wires) + u32_bytes(s.n_pub_out) + u32_bytes(
        s.n_pub_in,
    ) + u32_bytes(s.n_prv_in) + u64_bytes(s.n_labels) + u32_bytes(s.constraints.len() as u32)
}

/// The body of the wire → label section: `0, 1, …, n - 1` as `u64`s.
pub open spec fn labels_body(n: nat) -> Seq<u8> {
    concat_all(Seq::new(n, |i: int| u64_bytes(i as u64)))
}

/// The bytes `encode_r1cs` writes.
#[verifier::opaque]
pub open spec fn r1cs_bytes(s: R1csSpecV) -> Seq<u8> {
    binfile_header_bytes(magic_r1cs(), 1, 3) + section_frame(1, r1cs_header_body(s)) + section_frame(
        2,
        constraints_body(s.constraints),
    ) + section_frame(3, labels_body(s.n_wires as nat))
}

/// Append a linear combination.
fn write_lc(out: &mut Vec<u8>, lc: &[LcEntry])
    ensures
        final(out)@ == old(out)@ + lc_bytes(lc@),
{
    let ghost terms = lc@.map_values(|e: LcEntry| term_bytes(e));
    push_u32(out, lc.len() as u32);
    let ghost start = out@;
    let mut i: usize = 0;
    while i < lc.len()
        invariant
            i <= lc@.len(),
            terms == lc@.map_values(|e: LcEntry| term_bytes(e)),
            out@ == start + concat_all(terms.take(i as int)),
        decreases lc@.len() - i,
    {
        let (wire, coeff) = lc[i];
        push_u32(out, wire);
        push_slice(out, coeff.as_slice());
        proof {
            assert(terms.take(i + 1) =~= terms.take(i as int).push(terms[i as int]));
            lemma_concat_all_push(terms.take(i as int), terms[i as int]);
        }
        i = i + 1;
    }
    assert(terms.take(lc@.len() as int) =~= terms);
}

/// `r1cs_bytes` is the file header followed by the three sections.
proof fn lemma_r1cs_bytes_len(sv: R1csSpecV)
    ensures
        r1cs_bytes(sv).len() == 12 + (12 + 64) + (12 + constraints_body(sv.constraints).len()) + (
        12 + labels_body(sv.n_wires as nat).len()),
{
    reveal(r1cs_bytes);
}

fn write_header_section(out: &mut Vec<u8>, spec: &R1csSpec)
    requires
        old(out)@.len() + 12 + 64 <= usize::MAX,
    ensures
        final(out)@ == old(out)@ + section_frame(1, r1cs_header_body(spec@)),
{
    let ghost pre = out@;
    let s_off = begin_section(out, 0x01);
    let body_start = out.len();
    push_u32(out, 32);
    let prime: [u8; 32] = BN254_R_LE;
    push_slice(out, prime.as_slice());
    push_u32(out, spec.n_wires);
    push_u32(out, spec.n_pub_out);
    push_u32(out, spec.n_pub_in);
    push_u32(out, spec.n_prv_in);
    push_u64(out, spec.n_labels);
    push_u32(out, spec.constraints.len() as u32);
    proof {
        assert(out@ =~= pre + u32_bytes(1) + zeros(8) + r1cs_header_body(spec@));
    }
    end_section(out, s_off, body_start);
    proof {
        lemma_section_written(pre, 1, r1cs_header_body(spec@), out@);
    }
}

fn write_constraints_section(out: &mut Vec<u8>, spec: &R1csSpec)
    requires
        old(out)@.len() + 12 + constraints_body(spec@.constraints).len() <= usize::MAX,
    ensures
        final(out)@ == old(out)@ + section_frame(2, constraints_body(spec@.constraints)),
{
    let ghost pre = out@;
    let ghost sv = spec@;
    let ghost cbs = sv.constraints.map_values(|c: ConstraintV| constraint_bytes(c));
    let s_off = begin_section(out, 0x02);
    let body_start = out.len();
    let ghost start = out@;
    let mut i: usize = 0;
    while i < spec.constraints.len()
        invariant
            i <= spec.constraints@.len(),
            sv == spec@,
            cbs == sv.constraints.map_values(|c: ConstraintV| constraint_bytes(c)),
            out@ == start + concat_all(cbs.take(i as int)),
        decreases spec.constraints@.len() - i,
    {
        let c = &spec.constraints[i];
        assert(sv.constraints[i as int] == c@);
        write_lc(out, c.a.as_slice());
        write_lc(out, c.b.as_slice());
        write_lc(out, c.c.as_slice());
        proof {
            assert(cbs[i as int] == constraint_bytes(c@));
            assert(cbs.take(i + 1) =~= cbs.take(i as int).push(cbs[i as int]));
            lemma_concat_all_push(cbs.take(i as int), cbs[i as int]);
            assert(out@ =~= start + concat_all(cbs.take(i + 1)));
        }
        i = i + 1;
    }
    proof {
        assert(cbs.take(sv.constraints.len() as int) =~= cbs);
        assert(out@ =~= pre + u32_bytes(2) + zeros(8) + constraints_body(sv.constraints));
    }
    end_section(out, s_off, body_start);
    proof {
        lemma_section_written(pre, 2, constraints_body(sv.constraints), out@);
    }
}

fn write_labels_section(out: &mut Vec<u8>, n_wires: u32)
    requires
        old(out)@.len() + 12 + labels_body(n_wires as nat).len() <= usize::MAX,
    ensures
        final(out)@ == old(out)@ + section_frame(3, labels_body(n_wires as nat)),
{
    let ghost pre = out@;
    let ghost ls = Seq::new(n_wires as nat, |k: int| u64_bytes(k as u64));
    let s_off = begin_section(out, 0x03);
    let body_start = out.len();
    let ghost start = out@;
    let n = n_wires as u64;
    let mut k: u64 = 0;
    while k < n
        invariant
            k <= n,
            n == n_wires,
            ls == Seq::new(n_wires as nat, |j: int| u64_bytes(j as u64)),
            out@ == start + concat_all(ls.take(k as int)),
        decreases n - k,
    {
        push_u64(out, k);
        proof {
            assert(ls.take(k + 1) =~= ls.take(k as int).push(ls[k as int]));
            lemma_concat_all_push(ls.take(k as int), ls[k as int]);
        }
        k = k + 1;
    }
    proof {
        assert(ls.take(n as int) =~= ls);
        assert(out@ =~= pre + u32_bytes(3) + zeros(8) + labels_body(n_wires as nat));
    }
    end_section(out, s_off, body_start);
    proof {
        lemma_section_written(pre, 3, labels_body(n_wires as nat), out@);
    }
}

/// Encode a complete R1CS file; the wire → label map is the identity.
pub fn encode_r1cs(spec: &R1csSpec) -> (r: Vec<u8>)
    requires
        r1cs_bytes(spec@).len() <= usize::MAX,
    ensures
        r@ == r1cs_bytes(spec@),
{
    let ghost sv = spec@;
    proof {
        lemma_r1cs_bytes_len(sv);
    }
    let mut out: Vec<u8> = Vec::new();
    let magic: [u8; 4] = [0x72, 0x31, 0x63, 0x73];
    write_binfile_header(&mut out, &magic, 1, 3);
    assert(magic@ =~= magic_r1cs());
    write_header_section(&mut out, spec);
    write_constraints_section(&mut out, spec);
    write_labels_section(&mut out, spec.n_wires);
    proof {
        reveal(r1cs_bytes);
        assert(out@ =~= r1cs_bytes(sv));
    }
    out
}

/// Reading an encoded R1CS file back as a binfile gives version 1, three
/// sections, and the header, constraints and wire-label sections in that
/// order, each exactly where it was written.
pub proof fn lemma_r1cs_read(sv: R1csSpecV)
    requires
        r1cs_bytes(sv).len() <= usize::MAX,
    ensures
        ({
            let cb = constraints_body(sv.constraints);
            let lb = labels_body(sv.n_wires as nat);
            binfile_result(r1cs_bytes(sv), magic_r1cs()) == Ok::<
                (BinFileHeader, Seq<SectionRef>),
                ZacError,
            >(
                (
                    BinFileHeader { magic: four(magic_r1cs(), 0), version: 1, n_sections: 3 },
                    seq![
                        SectionRef { id: 1, offset: 24, size: 64 },
                        SectionRef { id: 2, offset: 100, size: cb.len() as u64 },
                        SectionRef {
                            id: 3,
                            offset: (112 + cb.len()) as usize,
                            size: lb.len() as u64,
                        },
                    ],
                ),
            )
        }),
{
    let hb = r1cs_header_body(sv);
    let cb = constraints_body(sv.constraints);
    let lb = labels_body(sv.n_wires as nat);
    let ids = seq![1u32, 2u32, 3u32];
    let bodies = seq![hb, cb, lb];
    lemma_r1cs_frames(sv);
    lemma_frames_read(magic_r1cs(), 1, ids, bodies);
    lemma_three_refs(ids, bodies);
}

/// An encoded R1CS file is its binfile header followed by three frames.
proof fn lemma_r1cs_frames(sv: R1csSpecV)
    ensures
        r1cs_bytes(sv) == binfile_header_bytes(magic_r1cs(), 1, 3) + frames(
            seq![1u32, 2u32, 3u32],
            seq![
                r1cs_header_body(sv),
                constraints_body(sv.constraints),
                labels_body(sv.n_wires as nat),
            ],
            3,
        ),
{
    reveal(r1cs_bytes);
    reveal_with_fuel(frames, 4);
    let ids = seq![1u32, 2u32, 3u32];
    let bodies = seq![
        r1cs_header_body(sv),
        constraints_body(sv.constraints),
        labels_body(sv.n_wires as nat),
    ];
    assert(frames(ids, bodies, 1) =~= section_frame(1, bodies[0]));
    assert(frames(ids, bodies, 2) =~= section_frame(1, bodies[0]) + section_frame(2, bodies[1]));
    assert(frames(ids, bodies, 3) =~= section_frame(1, bodies[0]) + section_frame(2, bodies[1])
        + section_frame(3, bodies[2]));
    assert(r1cs_bytes(sv) =~= binfile_header_bytes(magic_r1cs(), 1, 3) + frames(ids, bodies, 3));
}

/// The section table of three frames.
proof fn lemma_three_refs(ids: Seq<u32>, bodies: Seq<Seq<u8>>)
    requires
        ids.len() == 3,
        bodies.len() == 3,
        bodies[0].len() == 64,
    ensures
        frame_refs(ids, bodies, 3) == seq![
            SectionRef { id: ids[0], offset: 24, size: 64 },
            SectionRef { id: ids[1], offset: 100, size: bodies[1].len() as u64 },
            SectionRef {
                id: ids[2],
                offset: (112 + bodies[1].len()) as usize,
                size: bodies[2].len() as u64,
            },
        ],
{
    reveal_with_fuel(frames, 4);
    reveal_with_fuel(frame_refs, 4);
    assert(frames(ids, bodies, 1).len() == 76);
    assert(frames(ids, bodies, 2).len() == 88 + bodies[1].len());
    assert(frame_refs(ids, bodies, 3) =~= seq![
        SectionRef { id: ids[0], offset: 24, size: 64 },
        SectionRef { id: ids[1], offset: 100, size: bodies[1].len() as u64 },
        SectionRef {
            id: ids[2],
            offset: (112 + bodies[1].len()) as usize,
            size: bodies[2].len() as u64,
        },
    ]);
}

} // verus!
