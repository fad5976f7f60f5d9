//! Groth16 / BN254 wire decoding: compressed curve points, canonical
//! scalars, the verifying key, and the pairing check.
//!
//! Curve points are carried as plain affine coordinates: each base-field
//! coordinate is four little-endian 64-bit limbs in standard (not
//! Montgomery) form, plus the point-at-infinity flag. Scalars are carried as
//! their 32-byte little-endian encoding once it is known to be below `r`.
//!
//! The curve arithmetic and the wire formats themselves (decompression, the
//! verifying-key layout, the curve equation, the subgroup test, compression
//! and the pairing) are `ark-bn254` / `ark-groth16`'s; what is decided here
//! is the order of checks, the one accepted encoding of the point at
//! infinity, and which error each failure is reported as.
use vstd::prelude::*;

use ark_bn254::{Bn254, Fq, Fq2, Fr, G1Affine, G2Affine};
use ark_ff::{BigInt, PrimeField};
use ark_groth16::{prepare_verifying_key, Groth16, Proof, VerifyingKey};
use ark_serialize::SerializationError::IoError;
use ark_serialize::{
    CanonicalDeserialize, Compress, SerializationError, Validate,
};

use crate::error::{ZacError, ZacResult};
use crate::iden3::BN254_R_LE;
use crate::wire::{
    all_zero, first_nonzero, le_nat, lemma_first_nonzero, lemma_le_nat_top,
};

verus! {

/// Compressed G1 size in bytes.
pub const G1_COMPRESSED_BYTES: usize = 32;

/// Compressed G2 size in bytes.
pub const G2_COMPRESSED_BYTES: usize = 64;

/// The `.zacp` proof block: `pi_a || pi_b || pi_c`, compressed.
pub const PROOF_BYTES: usize = 128;

/// Absolute `.zacp` offset of `pi_a`.
pub const OFFSET_PI_A: usize = 0x50;

/// Absolute `.zacp` offset of `pi_b`.
pub const OFFSET_PI_B: usize = 0x70;

/// Absolute `.zacp` offset of `pi_c`.
pub const OFFSET_PI_C: usize = 0xB0;

/// Absolute `.zacp` offset of the first public input.
pub const OFFSET_PUBLIC_INPUTS: usize = 0xD0;

/// An affine point of BN254 G1. Coordinates are standard-form base-field
/// elements as four little-endian 64-bit limbs.
#[derive(Debug, Clone, Copy, PartialEq, Eq)]
pub struct G1Point {
    /// `x` coordinate.
    pub x: [u64; 4],
    /// `y` coordinate.
    pub y: [u64; 4],
    /// Whether this is the point at infinity.
    pub infinity: bool,
}

/// An affine point of BN254 G2. Each coordinate is an element `c0 + c1·u`
/// of the quadratic extension, each part as in [`G1Point`].
#[derive(Debug, Clone, Copy, PartialEq, Eq)]
pub struct G2Point {
    /// `x.c0`.
    pub x_c0: [u64; 4],
    /// `x.c1`.
    pub x_c1: [u64; 4],
    /// `y.c0`.
    pub y_c0: [u64; 4],
    /// `y.c1`.
    pub y_c1: [u64; 4],
    /// Whether this is the point at infinity.
    pub infinity: bool,
}

/// The four kinds of deserialization failure `ark-serialize` reports.
#[derive(Debug, Clone, Copy, PartialEq, Eq, Structural)]
pub enum DeserErrorKind {
    /// A writer or reader ran out of room.
    NotEnoughSpace,
    /// The bytes do not encode a valid element.
    InvalidData,
    /// Flag bits were set where none are allowed.
    UnexpectedFlags,
    /// The underlying reader failed; reading from a byte slice, this means
    /// the bytes ran out.
    IoError,
}

/// What decoding a compressed G1 point from the front of `b` gives.
pub uninterp spec fn g1_decoded(b: Seq<u8>) -> Result<G1Point, DeserErrorKind>;

/// What decoding a compressed G2 point from the front of `b` gives.
pub uninterp spec fn g2_decoded(b: Seq<u8>) -> Result<G2Point, DeserErrorKind>;

/// Whether a G1 point satisfies the curve equation.
pub uninterp spec fn g1_on_curve(p: G1Point) -> bool;

/// Whether a G1 point (on the curve) lies in the prime-order subgroup.
pub uninterp spec fn g1_in_subgroup(p: G1Point) -> bool;

/// Whether a G2 point satisfies the twist's curve equation.
pub uninterp spec fn g2_on_curve(p: G2Point) -> bool;

/// Whether a G2 point (on the curve) lies in the prime-order subgroup.
pub uninterp spec fn g2_in_subgroup(p: G2Point) -> bool;

/// What the Groth16 verifier answers for a compressed verifying key, a
/// compressed proof block and the public inputs: `Some(true)` when the
/// pairing equation holds, `Some(false)` when it does not, `None` when the
/// verifier reports an error or the bytes do not decode.
pub uninterp spec fn groth16_accepts(vk: Seq<u8>, proof: Seq<u8>, inputs: Seq<Seq<u8>>) -> Option<
    bool,
>;

/// What decoding a compressed verifying key from the front of `b` gives: its
/// points, or whether the failure was the bytes running out.
pub uninterp spec fn vk_decoded(b: Seq<u8>) -> Result<DecodedVkV, bool>;

/// `VerifyingKey::<Bn254>::deserialize_compressed_unchecked(b)` of
/// ark-groth16 (compressed, no curve or subgroup check): reads `alpha_g1`,
/// `beta_g2`, `gamma_g2`, `delta_g2` and the `u64`-counted IC points from
/// the front of `b`. On failure only whether the reader ran out of bytes
/// (`IoError`) is kept; reading from a slice never reports `NotEnoughSpace`.
/// The result depends on `b` alone and is named `vk_decoded`.
#[verifier::external_body]
fn decode_vk_points(b: &[u8]) -> (r: Result<(G1Point, G2Point, G2Point, G2Point, Vec<G1Point>), bool>)
    ensures
        match r {
            Ok(t) => vk_decoded(b@) == Ok::<DecodedVkV, bool>(
                DecodedVkV {
                    alpha_g1: t.0,
                    beta_g2: t.1,
                    gamma_g2: t.2,
                    delta_g2: t.3,
                    gamma_abc_g1: t.4@,
                },
            ),
            Err(t) => vk_decoded(b@) == Err::<DecodedVkV, bool>(t),
        },
{
    let g1 = |p: G1Affine| G1Point { x: p.x.into_bigint().0, y: p.y.into_bigint().0, infinity: p.infinity };
    let g2 = |p: G2Affine| G2Point { x_c0: p.x.c0.into_bigint().0, x_c1: p.x.c1.into_bigint().0, y_c0: p.y.c0.into_bigint().0, y_c1: p.y.c1.into_bigint().0, infinity: p.infinity };
    VerifyingKey::<Bn254>::deserialize_compressed_unchecked(b).map(|k| (g1(k.alpha_g1), g2(k.beta_g2), g2(k.gamma_g2), g2(k.delta_g2), k.gamma_abc_g1.into_iter().map(g1).collect())).map_err(|e| matches!(e, IoError(_)))
}

/// `G1Affine::deserialize_with_mode(b, Compress::Yes, Validate::No)` of
/// ark-bn254: reads a 32-byte compressed point from the front of `b`,
/// recovering `y` from `x` and the sign flag, with no curve or subgroup
/// check. The result, the point or the kind of error, depends on `b` alone
/// and is named `g1_decoded`.
#[verifier::external_body]
fn decode_g1(b: &[u8]) -> (r: Result<G1Point, DeserErrorKind>)
    ensures
        r == g1_decoded(b@),
{
    match G1Affine::deserialize_with_mode(b, Compress::Yes, Validate::No) {
        Ok(p) => Ok(G1Point { x: p.x.into_bigint().0, y: p.y.into_bigint().0, infinity: p.infinity }),
        Err(SerializationError::NotEnoughSpace) => Err(DeserErrorKind::NotEnoughSpace),
        Err(SerializationError::InvalidData) => Err(DeserErrorKind::InvalidData),
        Err(SerializationError::UnexpectedFlags) => Err(DeserErrorKind::UnexpectedFlags),
        Err(SerializationError::IoError(_)) => Err(DeserErrorKind::IoError),
    }
}

/// `G2Affine::deserialize_with_mode(b, Compress::Yes, Validate::No)` of
/// ark-bn254: reads a 64-byte compressed point from the front of `b`, with
/// no curve or subgroup check. The result depends on `b` alone and is named
/// `g2_decoded`.
#[verifier::external_body]
fn decode_g2(b: &[u8]) -> (r: Result<G2Point, DeserErrorKind>)
    ensures
        r == g2_decoded(b@),
{
    match G2Affine::deserialize_with_mode(b, Compress::Yes, Validate::No) {
        Ok(p) => Ok(
            G2Point {
                x_c0: p.x.c0.into_bigint().0,
                x_c1: p.x.c1.into_bigint().0,
                y_c0: p.y.c0.into_bigint().0,
                y_c1: p.y.c1.into_bigint().0,
                infinity: p.infinity,
            },
        ),
        Err(SerializationError::NotEnoughSpace) => Err(DeserErrorKind::NotEnoughSpace),
        Err(SerializationError::InvalidData) => Err(DeserErrorKind::InvalidData),
        Err(SerializationError::UnexpectedFlags) => Err(DeserErrorKind::UnexpectedFlags),
        Err(SerializationError::IoError(_)) => Err(DeserErrorKind::IoError),
    }
}

/// `Affine::is_on_curve` of ark-ec on the G1 point with these coordinates;
/// the answer is named `g1_on_curve`.
#[verifier::external_body]
pub(crate) fn g1_is_on_curve(p: &G1Point) -> (r: bool)
    ensures
        r == g1_on_curve(*p),
{
    G1Affine { x: Fq::new(BigInt(p.x)), y: Fq::new(BigInt(p.y)), infinity: p.infinity }.is_on_curve()
}

/// `Affine::is_in_correct_subgroup_assuming_on_curve` of ark-ec on the G1
/// point with these coordinates; the answer is named `g1_in_subgroup`.
#[verifier::external_body]
pub(crate) fn g1_is_in_subgroup(p: &G1Point) -> (r: bool)
    ensures
        r == g1_in_subgroup(*p),
{
    G1Affine {
        x: Fq::new(BigInt(p.x)),
        y: Fq::new(BigInt(p.y)),
        infinity: p.infinity,
    }.is_in_correct_subgroup_assuming_on_curve()
}

/// `Affine::is_on_curve` of ark-ec on the G2 point with these coordinates;
/// the answer is named `g2_on_curve`.
#[verifier::external_body]
pub(crate) fn g2_is_on_curve(p: &G2Point) -> (r: bool)
    ensures
        r == g2_on_curve(*p),
{
    let x = Fq2::new(Fq::new(BigInt(p.x_c0)), Fq::new(BigInt(p.x_c1)));
    let y = Fq2::new(Fq::new(BigInt(p.y_c0)), Fq::new(BigInt(p.y_c1)));
    G2Affine { x, y, infinity: p.infinity }.is_on_curve()
}

/// `Affine::is_in_correct_subgroup_assuming_on_curve` of ark-ec on the G2
/// point with these coordinates; the answer is named `g2_in_subgroup`.
#[verifier::external_body]
pub(crate) fn g2_is_in_subgroup(p: &G2Point) -> (r: bool)
    ensures
        r == g2_in_subgroup(*p),
{
    let x = Fq2::new(Fq::new(BigInt(p.x_c0)), Fq::new(BigInt(p.x_c1)));
    let y = Fq2::new(Fq::new(BigInt(p.y_c0)), Fq::new(BigInt(p.y_c1)));
    G2Affine { x, y, infinity: p.infinity }.is_in_correct_subgroup_assuming_on_curve()
}

/// `Groth16::<Bn254>::verify_proof` of ark-groth16, on the verifying key
/// decoded (unchecked, compressed) from `vk`, prepared with
/// `prepare_verifying_key`, the proof decoded from `proof`, and the inputs
/// read as scalars. The answer depends on the three arguments alone and is
/// named `groth16_accepts`. Of what it is, only this is stated: when the
/// key decodes, a number of inputs other than one less than its IC count is
/// an error (`prepare_inputs` refuses it before any pairing). It is only
/// called on keys and proof blocks that passed every check, so every point
/// the pairing sees is on its curve and in the prime-order subgroup.
#[verifier::external_body]
pub(crate) fn pairing_check(vk: &[u8], proof: &[u8; 128], inputs: &[[u8; 32]]) -> (r: Option<bool>)
    requires
        vk_result(vk@) is Ok,
        proof_result(proof@) is Ok,
    ensures
        r == groth16_accepts(vk@, proof@, inputs@.map_values(|a: [u8; 32]| a@)),
        vk_decoded(vk@) matches Ok(v) && inputs@.len() + 1 != v.gamma_abc_g1.len() ==> r is None,
{
    let vk = VerifyingKey::<Bn254>::deserialize_compressed_unchecked(vk);
    let pf = Proof::<Bn254>::deserialize_compressed_unchecked(&proof[..]);
    let mut xs: Vec<Fr> = Vec::new();
    for b in inputs {
        xs.push(Fr::from_le_bytes_mod_order(b));
    }
    match (vk, pf) {
        (Ok(vk), Ok(pf)) => Groth16::<Bn254>::verify_proof(&prepare_verifying_key(&vk), &pf, &xs).ok(),
        _ => None,
    }
}

/// Whether `b` starts with the one encoding of the point at infinity
/// allowed in `n` bytes: every byte zero but the last, which carries only
/// the infinity flag (bit 6).
pub open spec fn identity_encoding(b: Seq<u8>, n: int) -> bool {
    &&& b.len() >= n
    &&& all_zero(b, 0, n - 1)
    &&& b[n - 1] == 0x40
}

/// Decoding a compressed G1 point from the front of `b`; a point at
/// infinity whose bytes are not the canonical encoding is refused like
/// data the decoder rejects.
pub open spec fn g1_read(b: Seq<u8>) -> Result<G1Point, DeserErrorKind> {
    match g1_decoded(b) {
        Err(k) => Err(k),
        Ok(p) => if p.infinity && !identity_encoding(b, 32) {
            Err(DeserErrorKind::InvalidData)
        } else {
            Ok(p)
        },
    }
}

/// Decoding a compressed G2 point from the front of `b`, with the same
/// rule for the point at infinity.
pub open spec fn g2_read(b: Seq<u8>) -> Result<G2Point, DeserErrorKind> {
    match g2_decoded(b) {
        Err(k) => Err(k),
        Ok(p) => if p.infinity && !identity_encoding(b, 64) {
            Err(DeserErrorKind::InvalidData)
        } else {
            Ok(p)
        },
    }
}

/// Whether `b` starts with the canonical `n`-byte encoding of infinity.
fn is_identity_encoding(b: &[u8], n: usize) -> (r: bool)
    requires
        n >= 1,
    ensures
        r == identity_encoding(b@, n as int),
{
    if b.len() < n {
        return false;
    }
    proof {
        lemma_first_nonzero(b@, 0, n - 1);
    }
    first_nonzero(b, 0, n - 1).is_none() && b[n - 1] == 0x40
}

/// Decode a compressed G1 point from the front of `b`.
fn read_g1(b: &[u8]) -> (r: Result<G1Point, DeserErrorKind>)
    ensures
        r == g1_read(b@),
{
    match decode_g1(b) {
        Err(k) => Err(k),
        Ok(p) => {
            if p.infinity && !is_identity_encoding(b, 32) {
                Err(DeserErrorKind::InvalidData)
            } else {
                Ok(p)
            }
        },
    }
}

/// Decode a compressed G2 point from the front of `b`.
fn read_g2(b: &[u8]) -> (r: Result<G2Point, DeserErrorKind>)
    ensures
        r == g2_read(b@),
{
    match decode_g2(b) {
        Err(k) => Err(k),
        Ok(p) => {
            if p.infinity && !is_identity_encoding(b, 64) {
                Err(DeserErrorKind::InvalidData)
            } else {
                Ok(p)
            }
        },
    }
}

/// The BN254 scalar-field modulus `r`.
pub open spec fn fr_modulus() -> nat {
    le_nat(BN254_R_LE@)
}

/// `a >= b` for two 32-byte little-endian numbers, compared from the most
/// significant byte down.
pub fn ge_le(a: &[u8; 32], b: &[u8]) -> (r: bool)
    requires
        b@.len() == 32,
    ensures
        r == (le_nat(a@) >= le_nat(b@)),
{
    let mut k: usize = 32;
    proof {
        assert(a@.subrange(0, 32) =~= a@);
        assert(b@.subrange(0, 32) =~= b@);
    }
    while k > 0
        invariant
            k <= 32,
            a@.len() == 32,
            b@.len() == 32,
            (le_nat(a@) >= le_nat(b@)) == (le_nat(a@.subrange(0, k as int)) >= le_nat(
                b@.subrange(0, k as int),
            )),
        decreases k,
    {
        let ghost sa = a@.subrange(0, k as int);
        let ghost sb = b@.subrange(0, k as int);
        proof {
            lemma_le_nat_top(sa, sb);
            assert(sa.drop_last() =~= a@.subrange(0, k - 1));
            assert(sb.drop_last() =~= b@.subrange(0, k - 1));
        }
        if a[k - 1] > b[k - 1] {
            proof {
                lemma_le_nat_top(sb, sa);
            }
            return true;
        }
        if a[k - 1] < b[k - 1] {
            return false;
        }
        k = k - 1;
    }
    proof {
        assert(a@.subrange(0, 0).len() == 0);
        assert(b@.subrange(0, 0).len() == 0);
    }
    true
}

/// What decoding one public input gives: the bytes when they are below `r`.
pub open spec fn fr_result(b: Seq<u8>, offset: usize, input_index: usize) -> Result<
    Seq<u8>,
    ZacError,
> {
    if le_nat(b) < fr_modulus() {
        Ok(b)
    } else {
        Err(ZacError::NonCanonicalFr { offset, input_index })
    }
}

/// Decode a 32-byte little-endian scalar, rejecting any value `>= r`
/// (E012). The scalar is returned as its canonical encoding.
pub fn decode_fr_canonical(bytes_32: &[u8; 32], offset: usize, input_index: usize) -> (r: ZacResult<
    [u8; 32],
>)
    ensures
        match r {
            Ok(v) => v == *bytes_32 && fr_result(bytes_32@, offset, input_index) == Ok::<
                Seq<u8>,
                ZacError,
            >(v@),
            Err(e) => fr_result(bytes_32@, offset, input_index) == Err::<Seq<u8>, ZacError>(e),
        },
{
    let modulus: [u8; 32] = BN254_R_LE;
    if ge_le(bytes_32, modulus.as_slice()) {
        return Err(ZacError::NonCanonicalFr { offset, input_index });
    }
    Ok(*bytes_32)
}

/// The error a failed point decode is reported as: bytes running out is
/// E015, anything else E010.
pub open spec fn deser_error(k: DeserErrorKind, offset: usize, need: usize, have: usize) -> ZacError {
    match k {
        DeserErrorKind::NotEnoughSpace => ZacError::Truncated { offset, need, have },
        DeserErrorKind::IoError => ZacError::Truncated { offset, need, have },
        _ => ZacError::NonCanonicalPoint {
            offset,
            reason: "arkworks: non-canonical / off-curve / bad flags",
        },
    }
}

/// Map a deserialization failure to a registry error.
fn classify_deser_err(k: DeserErrorKind, offset: usize, need: usize, have: usize) -> (r: ZacError)
    ensures
        r == deser_error(k, offset, need, have),
{
    match k {
        DeserErrorKind::NotEnoughSpace => ZacError::Truncated { offset, need, have },
        DeserErrorKind::IoError => ZacError::Truncated { offset, need, have },
        _ => ZacError::NonCanonicalPoint {
            offset,
            reason: "arkworks: non-canonical / off-curve / bad flags",
        },
    }
}

/// The curve and subgroup checks on a G1 point: E010 off the curve, E011
/// outside the subgroup.
pub open spec fn g1_check(p: G1Point, offset: usize) -> Option<ZacError> {
    if !g1_on_curve(p) {
        Some(ZacError::NonCanonicalPoint { offset, reason: "G1 point not on curve" })
    } else if !g1_in_subgroup(p) {
        Some(ZacError::SubgroupCheckFailed { offset })
    } else {
        None
    }
}

/// The curve and subgroup checks on a G2 point.
pub open spec fn g2_check(p: G2Point, offset: usize) -> Option<ZacError> {
    if !g2_on_curve(p) {
        Some(ZacError::NonCanonicalPoint { offset, reason: "G2 point not on curve" })
    } else if !g2_in_subgroup(p) {
        Some(ZacError::SubgroupCheckFailed { offset })
    } else {
        None
    }
}

/// A G1 point at a position where the identity is forbidden: E018 first,
/// then the curve and subgroup checks.
pub open spec fn g1_strict_check(p: G1Point, offset: usize, what: &'static str) -> Option<ZacError> {
    if p.infinity {
        Some(ZacError::IdentityNotAllowed { offset, what })
    } else {
        g1_check(p, offset)
    }
}

/// A G2 point at a position where the identity is forbidden.
pub open spec fn g2_strict_check(p: G2Point, offset: usize, what: &'static str) -> Option<ZacError> {
    if p.infinity {
        Some(ZacError::IdentityNotAllowed { offset, what })
    } else {
        g2_check(p, offset)
    }
}

fn check_g1_subgroup(p: &G1Point, offset: usize) -> (r: ZacResult<()>)
    ensures
        match g1_check(*p, offset) {
            Some(e) => r == Err::<(), ZacError>(e),
            None => r is Ok,
        },
{
    if !g1_is_on_curve(p) {
        return Err(ZacError::NonCanonicalPoint { offset, reason: "G1 point not on curve" });
    }
    if !g1_is_in_subgroup(p) {
        return Err(ZacError::SubgroupCheckFailed { offset });
    }
    Ok(())
}

fn check_g2_subgroup(p: &G2Point, offset: usize) -> (r: ZacResult<()>)
    ensures
        match g2_check(*p, offset) {
            Some(e) => r == Err::<(), ZacError>(e),
            None => r is Ok,
        },
{
    if !g2_is_on_curve(p) {
        return Err(ZacError::NonCanonicalPoint { offset, reason: "G2 point not on curve" });
    }
    if !g2_is_in_subgroup(p) {
        return Err(ZacError::SubgroupCheckFailed { offset });
    }
    Ok(())
}

fn check_g1_strict(p: &G1Point, offset: usize, what: &'static str) -> (r: ZacResult<()>)
    ensures
        match g1_strict_check(*p, offset, what) {
            Some(e) => r == Err::<(), ZacError>(e),
            None => r is Ok,
        },
{
    if p.infinity {
        return Err(ZacError::IdentityNotAllowed { offset, what });
    }
    check_g1_subgroup(p, offset)
}

fn check_g2_strict(p: &G2Point, offset: usize, what: &'static str) -> (r: ZacResult<()>)
    ensures
        match g2_strict_check(*p, offset, what) {
            Some(e) => r == Err::<(), ZacError>(e),
            None => r is Ok,
        },
{
    if p.infinity {
        return Err(ZacError::IdentityNotAllowed { offset, what });
    }
    check_g2_subgroup(p, offset)
}

/// A decoded Groth16 proof: the three points of the proof block.
#[derive(Debug, Clone, PartialEq, Eq)]
pub struct DecodedProof {
    /// `pi_a` in G1.
    pub a: G1Point,
    /// `pi_b` in G2.
    pub b: G2Point,
    /// `pi_c` in G1.
    pub c: G1Point,
}

/// What decoding a 128-byte proof block gives: each point is decoded,
/// refused if it is the identity, then checked, in the order
/// `pi_a, pi_b, pi_c`.
pub open spec fn proof_result(b: Seq<u8>) -> Result<DecodedProof, ZacError> {
    match g1_read(b.subrange(0, 32)) {
        Err(k) => Err(deser_error(k, OFFSET_PI_A, 32, 32)),
        Ok(a) => match g1_strict_check(a, OFFSET_PI_A, "pi_a") {
            Some(e) => Err(e),
            None => match g2_read(b.subrange(32, 96)) {
                Err(k) => Err(deser_error(k, OFFSET_PI_B, 64, 64)),
                Ok(pb) => match g2_strict_check(pb, OFFSET_PI_B, "pi_b") {
                    Some(e) => Err(e),
                    None => match g1_read(b.subrange(96, 128)) {
                        Err(k) => Err(deser_error(k, OFFSET_PI_C, 32, 32)),
                        Ok(c) => match g1_strict_check(c, OFFSET_PI_C, "pi_c") {
                            Some(e) => Err(e),
                            None => Ok(DecodedProof { a, b: pb, c }),
                        },
                    },
                },
            },
        },
    }
}

/// Decode the 128-byte proof block of a `.zacp`. Errors carry the absolute
/// `.zacp` offset of the offending point.
pub fn decode_proof(bytes_128: &[u8; 128]) -> (r: ZacResult<DecodedProof>)
    ensures
        r == proof_result(bytes_128@),
{
    let all = bytes_128.as_slice();
    let a_bytes = vstd::slice::slice_subrange(all, 0, 32);
    let b_bytes = vstd::slice::slice_subrange(all, 32, 96);
    let c_bytes = vstd::slice::slice_subrange(all, 96, 128);
    let a = match read_g1(a_bytes) {
        Ok(p) => p,
        Err(k) => {
            return Err(classify_deser_err(k, OFFSET_PI_A, 32, 32));
        },
    };
    match check_g1_strict(&a, OFFSET_PI_A, "pi_a") {
        Err(e) => {
            return Err(e);
        },
        Ok(()) => {},
    }
    let b = match read_g2(b_bytes) {
        Ok(p) => p,
        Err(k) => {
            return Err(classify_deser_err(k, OFFSET_PI_B, 64, 64));
        },
    };
    match check_g2_strict(&b, OFFSET_PI_B, "pi_b") {
        Err(e) => {
            return Err(e);
        },
        Ok(()) => {},
    }
    let c = match read_g1(c_bytes) {
        Ok(p) => p,
        Err(k) => {
            return Err(classify_deser_err(k, OFFSET_PI_C, 32, 32));
        },
    };
    match check_g1_strict(&c, OFFSET_PI_C, "pi_c") {
        Err(e) => {
            return Err(e);
        },
        Ok(()) => {},
    }
    Ok(DecodedProof { a, b, c })
}

/// A decoded Groth16 verifying key, laid out as `ark-groth16` serializes
/// one: `alpha_g1, beta_g2, gamma_g2, delta_g2`, then a `u64` count and the
/// `gamma_abc_g1` (IC) points.
#[derive(Debug, Clone, PartialEq, Eq)]
pub struct DecodedVk {
    /// `alpha` in G1.
    pub alpha_g1: G1Point,
    /// `beta` in G2.
    pub beta_g2: G2Point,
    /// `gamma` in G2.
    pub gamma_g2: G2Point,
    /// `delta` in G2.
    pub delta_g2: G2Point,
    /// The IC points, one more than the number of public inputs.
    pub gamma_abc_g1: Vec<G1Point>,
}

/// The mathematical content of a decoded verifying key.
pub struct DecodedVkV {
    /// `alpha` in G1.
    pub alpha_g1: G1Point,
    /// `beta` in G2.
    pub beta_g2: G2Point,
    /// `gamma` in G2.
    pub gamma_g2: G2Point,
    /// `delta` in G2.
    pub delta_g2: G2Point,
    /// The IC points.
    pub gamma_abc_g1: Seq<G1Point>,
}

impl View for DecodedVk {
    type V = DecodedVkV;

    open spec fn view(&self) -> DecodedVkV {
        DecodedVkV {
            alpha_g1: self.alpha_g1,
            beta_g2: self.beta_g2,
            gamma_g2: self.gamma_g2,
            delta_g2: self.delta_g2,
            gamma_abc_g1: self.gamma_abc_g1@,
        }
    }
}

/// The bytes of `b` from `off` on; empty when `off` is at or past the end.
pub open spec fn rest(b: Seq<u8>, off: int) -> Seq<u8> {
    if 0 <= off < b.len() {
        b.subrange(off, b.len() as int)
    } else {
        Seq::empty()
    }
}

/// Where the `i`-th IC point of a compressed verifying key starts.
pub open spec fn ic_offset(i: int) -> int {
    232 + 32 * i
}

/// Whether a point at infinity, if `inf`, is written at `off` of `b` in its
/// one allowed `n`-byte encoding.
pub open spec fn infinity_ok(b: Seq<u8>, off: int, n: int, inf: bool) -> bool {
    inf ==> identity_encoding(rest(b, off), n)
}

/// Whether every point at infinity of a decoded verifying key is written in
/// its one allowed encoding.
pub open spec fn vk_encodings_ok(b: Seq<u8>, v: DecodedVkV) -> bool {
    &&& infinity_ok(b, 0, 32, v.alpha_g1.infinity)
    &&& infinity_ok(b, 32, 64, v.beta_g2.infinity)
    &&& infinity_ok(b, 96, 64, v.gamma_g2.infinity)
    &&& infinity_ok(b, 160, 64, v.delta_g2.infinity)
    &&& forall|i: int|
        0 <= i < v.gamma_abc_g1.len() ==> infinity_ok(
            b,
            ic_offset(i),
            32,
            (#[trigger] v.gamma_abc_g1[i]).infinity,
        )
}

/// Reading a compressed verifying key (no checks yet): decoding failures
/// are E015 when the bytes run out and E010 otherwise, as is a point at
/// infinity not written canonically. Trailing bytes are not read.
pub open spec fn vk_parse(b: Seq<u8>) -> Result<DecodedVkV, ZacError> {
    match vk_decoded(b) {
        Err(ran_out) => Err(
            deser_error(
                if ran_out {
                    DeserErrorKind::IoError
                } else {
                    DeserErrorKind::InvalidData
                },
                0,
                232,
                b.len() as usize,
            ),
        ),
        Ok(v) => if vk_encodings_ok(b, v) {
            Ok(v)
        } else {
            Err(deser_error(DeserErrorKind::InvalidData, 0, 232, b.len() as usize))
        },
    }
}

/// The first failing check among the first `k` IC points; the identity is
/// allowed there, and the index stands in for the offset.
pub open spec fn ic_checks(ps: Seq<G1Point>, k: nat) -> Option<ZacError>
    decreases k,
{
    if k == 0 {
        None
    } else {
        match ic_checks(ps, (k - 1) as nat) {
            Some(e) => Some(e),
            None => g1_check(ps[k - 1], (k - 1) as usize),
        }
    }
}

/// The checks on a decoded verifying key, in order.
pub open spec fn vk_checks(v: DecodedVkV) -> Option<ZacError> {
    match g1_strict_check(v.alpha_g1, 0, "vk.alpha_g1") {
        Some(e) => Some(e),
        None => match g2_strict_check(v.beta_g2, 0, "vk.beta_g2") {
            Some(e) => Some(e),
            None => match g2_strict_check(v.gamma_g2, 0, "vk.gamma_g2") {
                Some(e) => Some(e),
                None => match g2_strict_check(v.delta_g2, 0, "vk.delta_g2") {
                    Some(e) => Some(e),
                    None => ic_checks(v.gamma_abc_g1, v.gamma_abc_g1.len()),
                },
            },
        },
    }
}

/// What `decode_vk` returns for the bytes `b`.
pub open spec fn vk_result(b: Seq<u8>) -> Result<DecodedVkV, ZacError> {
    match vk_parse(b) {
        Err(e) => Err(e),
        Ok(v) => match vk_checks(v) {
            Some(e) => Err(e),
            None => Ok(v),
        },
    }
}

proof fn lemma_ic_checks_stable(ps: Seq<G1Point>, k: nat, k2: nat)
    requires
        ic_checks(ps, k) is Some,
        k <= k2,
    ensures
        ic_checks(ps, k2) == ic_checks(ps, k),
    decreases k2 - k,
{
    if k < k2 {
        lemma_ic_checks_stable(ps, k, (k2 - 1) as nat);
    }
}

/// The bytes of `b` from `off` on.
fn rest_of(b: &[u8], off: usize) -> (r: &[u8])
    requires
        off <= b@.len(),
    ensures
        r@ == rest(b@, off as int),
{
    let r = vstd::slice::slice_subrange(b, off, b.len());
    proof {
        if off == b@.len() {
            assert(r@ =~= Seq::<u8>::empty());
        }
    }
    r
}

/// Whether a point at infinity, if `inf`, is written at `off` of `b` in its
/// one allowed `n`-byte encoding.
fn infinity_at(b: &[u8], off: usize, n: usize, inf: bool) -> (r: bool)
    requires
        n >= 1,
    ensures
        r == infinity_ok(b@, off as int, n as int, inf),
{
    if !inf {
        return true;
    }
    if off >= b.len() {
        proof {
            assert(rest(b@, off as int).len() == 0);
        }
        return false;
    }
    is_identity_encoding(rest_of(b, off), n)
}

/// Decode an `ark-groth16` compressed verifying key, then check it: the
/// identity is refused (E018) and curve and subgroup membership checked
/// (E010 / E011) for `alpha_g1`, `beta_g2`, `gamma_g2`, `delta_g2`; the IC
/// points get the curve and subgroup checks only.
pub fn decode_vk(bytes: &[u8]) -> (r: ZacResult<DecodedVk>)
    ensures
        match r {
            Ok(v) => vk_result(bytes@) == Ok::<DecodedVkV, ZacError>(v@),
            Err(e) => vk_result(bytes@) == Err::<DecodedVkV, ZacError>(e),
        },
{
    let len = bytes.len();
    let v = match decode_vk_points(bytes) {
        Ok((alpha_g1, beta_g2, gamma_g2, delta_g2, gamma_abc_g1)) => DecodedVk {
            alpha_g1,
            beta_g2,
            gamma_g2,
            delta_g2,
            gamma_abc_g1,
        },
        Err(ran_out) => {
            let k = if ran_out {
                DeserErrorKind::IoError
            } else {
                DeserErrorKind::InvalidData
            };
            return Err(classify_deser_err(k, 0, 232, len));
        },
    };
    let ok_head = infinity_at(bytes, 0, 32, v.alpha_g1.infinity) && infinity_at(
        bytes,
        32,
        64,
        v.beta_g2.infinity,
    ) && infinity_at(bytes, 96, 64, v.gamma_g2.infinity) && infinity_at(
        bytes,
        160,
        64,
        v.delta_g2.infinity,
    );
    if !ok_head {
        return Err(classify_deser_err(DeserErrorKind::InvalidData, 0, 232, len));
    }
    let mut i: usize = 0;
    while i < v.gamma_abc_g1.len()
        invariant
            i <= v.gamma_abc_g1@.len(),
            len == bytes@.len(),
            vk_decoded(bytes@) == Ok::<DecodedVkV, bool>(v@),
            infinity_ok(bytes@, 0, 32, v.alpha_g1.infinity),
            infinity_ok(bytes@, 32, 64, v.beta_g2.infinity),
            infinity_ok(bytes@, 96, 64, v.gamma_g2.infinity),
            infinity_ok(bytes@, 160, 64, v.delta_g2.infinity),
            forall|j: int|
                0 <= j < i ==> infinity_ok(
                    bytes@,
                    ic_offset(j),
                    32,
                    (#[trigger] v.gamma_abc_g1@[j]).infinity,
                ),
        decreases v.gamma_abc_g1@.len() - i,
    {
        let off: usize = if i <= (usize::MAX - 232) / 32 { 232 + 32 * i } else { usize::MAX };
        if !infinity_at(bytes, off, 32, v.gamma_abc_g1[i].infinity) {
            proof {
                assert(!vk_encodings_ok(bytes@, v@)) by {
                    if i > (usize::MAX - 232) / 32 {
                        assert(ic_offset(i as int) > len);
                    }
                    assert(!infinity_ok(bytes@, ic_offset(i as int), 32, v.gamma_abc_g1@[i as int].infinity));
                }
            }
            return Err(classify_deser_err(DeserErrorKind::InvalidData, 0, 232, len));
        }
        proof {
            if i > (usize::MAX - 232) / 32 {
                assert(ic_offset(i as int) > len);
            }
        }
        i = i + 1;
    }
    assert(vk_encodings_ok(bytes@, v@));
    match check_g1_strict(&v.alpha_g1, 0, "vk.alpha_g1") {
        Err(e) => {
            return Err(e);
        },
        Ok(()) => {},
    }
    match check_g2_strict(&v.beta_g2, 0, "vk.beta_g2") {
        Err(e) => {
            return Err(e);
        },
        Ok(()) => {},
    }
    match check_g2_strict(&v.gamma_g2, 0, "vk.gamma_g2") {
        Err(e) => {
            return Err(e);
        },
        Ok(()) => {},
    }
    match check_g2_strict(&v.delta_g2, 0, "vk.delta_g2") {
        Err(e) => {
            return Err(e);
        },
        Ok(()) => {},
    }
    let mut j: usize = 0;
    while j < v.gamma_abc_g1.len()
        invariant
            j <= v.gamma_abc_g1@.len(),
            vk_parse(bytes@) == Ok::<DecodedVkV, ZacError>(v@),
            g1_strict_check(v.alpha_g1, 0, "vk.alpha_g1") is None,
            g2_strict_check(v.beta_g2, 0, "vk.beta_g2") is None,
            g2_strict_check(v.gamma_g2, 0, "vk.gamma_g2") is None,
            g2_strict_check(v.delta_g2, 0, "vk.delta_g2") is None,
            ic_checks(v.gamma_abc_g1@, j as nat) is None,
        decreases v.gamma_abc_g1@.len() - j,
    {
        match check_g1_subgroup(&v.gamma_abc_g1[j], j) {
            Err(e) => {
                proof {
                    lemma_ic_checks_stable(
                        v.gamma_abc_g1@,
                        (j + 1) as nat,
                        v.gamma_abc_g1@.len(),
                    );
                }
                return Err(e);
            },
            Ok(()) => {},
        }
        j = j + 1;
    }
    Ok(v)
}

} // verus!
