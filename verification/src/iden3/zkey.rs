//! snarkjs Groth16 `.zkey` files (iden3 ZKEY format, protocol 1).
//!
//! ```text
//! 0x01  Header      — protocol id u32 (1 = groth16)
//! 0x02  HeaderGroth — n8q, q, n8r, r, nVars, nPublic, domainSize,
//!                     alpha1, beta1, beta2, gamma2, delta1, delta2
//! 0x03  IC          — (nPublic + 1) × G1
//! 0x04  Coefs       — nCoefs u32 | per coef (m u32, c u32, s u32, v Fr)
//! 0x05  PointsA     — nVars × G1
//! 0x06  PointsB1    — nVars × G1
//! 0x07  PointsB2    — nVars × G2
//! 0x08  PointsC     — (nVars − nPublic − 1) × G1
//! 0x09  PointsH     — domainSize × G1
//! ```
//!
//! Field elements are little-endian **Montgomery** form: the wire integer
//! `n` stands for `x` with `n ≡ x · 2^256`. A G1 point is `x || y` (64
//! bytes), a G2 point `x.c0 || x.c1 || y.c0 || y.c1` (128 bytes), and 64 or
//! 128 zero bytes encode the point at infinity.
use vstd::prelude::*;

use ark_bn254::{Bn254, Fq, Fr, G1Affine, G2Affine, Fq2};
use ark_groth16::VerifyingKey;
use ark_ff::{BigInt, PrimeField};
use ark_serialize::CanonicalSerialize;

use crate::error::{ZacError, ZacResult};
use crate::groth16::{
    fr_modulus, g1_in_subgroup, g1_is_in_subgroup, g1_is_on_curve, g1_on_curve, g2_in_subgroup,
    g2_is_in_subgroup, g2_is_on_curve, g2_on_curve, DecodedVk, DecodedVkV, G1Point, G2Point,
};
use crate::iden3::{
    binfile_result, find_section, first_with_id, lemma_binfile_refs_in_bounds,
    lemma_first_with_id, read_binfile_header, SectionRef, BN254_Q_LE, BN254_R_LE,
};
use crate::wire::{
    all_zero, first_nonzero, le_nat, lemma_first_nonzero, lemma_le_nat_top, lemma_limbs_injective,
    limb_bytes, limbs_nat, limbs_to_bytes, pow256, read_limbs, le_u32, read_u32, le_u64, read_u64,
    to_arr32, lemma_to_arr32, bytes32_eq, copy_array,
};

verus! {

/// Size of one snarkjs G1 point.
pub const SNARKJS_G1_BYTES: usize = 64;

/// Size of one snarkjs G2 point.
pub const SNARKJS_G2_BYTES: usize = 128;

/// The BN254 base-field modulus `q`.
pub open spec fn fq_modulus() -> nat {
    le_nat(BN254_Q_LE@)
}

/// `2^256 mod q`'s inverse modulo `q`.
pub open spec fn fq_r_inv() -> nat {
    20988524275117001072002809824448087578619730785600314334253784976379291040311nat
}

/// `2^256 mod r`'s inverse modulo `r`.
pub open spec fn fr_r_inv() -> nat {
    9915499612839321149637521777990102151350674507940716049588462388200839649614nat
}

/// The moduli as numbers, and the two inverses really are inverses of
/// `2^256`.
pub proof fn lemma_field_constants()
    ensures
        fq_modulus() == 21888242871839275222246405745257275088696311157297823662689037894645226208583nat,
        fr_modulus() == 21888242871839275222246405745257275088548364400416034343698204186575808495617nat,
        (fq_r_inv() * pow256(32)) % fq_modulus() == 1,
        (fr_r_inv() * pow256(32)) % fr_modulus() == 1,
{
    lemma_pow256_32();
    let q = BN254_Q_LE@;
    let r = BN254_R_LE@;
    assert(q.subrange(0, 0).len() == 0);
    assert(r.subrange(0, 0).len() == 0);
    lemma_le_nat_prefix_step(q, 1);
    assert(le_nat(q.subrange(0, 1)) == 71nat);
    lemma_le_nat_prefix_step(q, 2);
    assert(le_nat(q.subrange(0, 2)) == 64839nat);
    lemma_le_nat_prefix_step(q, 3);
    assert(le_nat(q.subrange(0, 3)) == 8191303nat);
    lemma_le_nat_prefix_step(q, 4);
    assert(le_nat(q.subrange(0, 4)) == 3632069959nat);
    lemma_le_nat_prefix_step(q, 5);
    assert(le_nat(q.subrange(0, 5)) == 98121350471nat);
    lemma_le_nat_prefix_step(q, 6);
    assert(le_nat(q.subrange(0, 6)) == 154029749239111nat);
    lemma_le_nat_prefix_step(q, 7);
    assert(le_nat(q.subrange(0, 7)) == 9161229003980103nat);
    lemma_le_nat_prefix_step(q, 8);
    assert(le_nat(q.subrange(0, 8)) == 4332616871279656263nat);
    lemma_le_nat_prefix_step(q, 9);
    assert(le_nat(q.subrange(0, 9)) == 2605323531264326434119nat);
    lemma_le_nat_prefix_step(q, 10);
    assert(le_nat(q.subrange(0, 10)) == 956523353070932659600711nat);
    lemma_le_nat_prefix_step(q, 11);
    assert(le_nat(q.subrange(0, 11)) == 137565140969524029401398599nat);
    lemma_le_nat_prefix_step(q, 12);
    assert(le_nat(q.subrange(0, 12)) == 32324006162389411176778628423nat);
    lemma_le_nat_prefix_step(q, 13);
    assert(le_nat(q.subrange(0, 13)) == 11520407570730718362240651427143nat);
    lemma_le_nat_prefix_step(q, 14);
    assert(le_nat(q.subrange(0, 14)) == 2161455825557807783300649287744839nat);
    lemma_le_nat_prefix_step(q, 15);
    assert(le_nat(q.subrange(0, 15)) == 671967750576550571863734675757137223nat);
    lemma_le_nat_prefix_step(q, 16);
    assert(le_nat(q.subrange(0, 16)) == 201385395114098847380338600778089168199nat);
    lemma_le_nat_prefix_step(q, 17);
    assert(le_nat(q.subrange(0, 17)) == 31847645518761375949474177091932532833607nat);
    lemma_le_nat_prefix_step(q, 18);
    assert(le_nat(q.subrange(0, 18)) == 7697728807513663080852377333314806800514375nat);
    lemma_le_nat_prefix_step(q, 19);
    assert(le_nat(q.subrange(0, 19)) == 2884493859417964048338960034504953441071988039nat);
    lemma_le_nat_prefix_step(q, 20);
    assert(le_nat(q.subrange(0, 20)) == 739344303295693262674414520270444443814569246023nat);
    lemma_le_nat_prefix_step(q, 21);
    assert(le_nat(q.subrange(0, 21)) == 266732642297520024375745054074633954021194292067655nat);
    lemma_le_nat_prefix_step(q, 22);
    assert(le_nat(q.subrange(0, 22)) == 26082697564110589171525633939175057213223586731195719nat);
    lemma_le_nat_prefix_step(q, 23);
    assert(le_nat(q.subrange(0, 23)) == 7688560401893554880963260769690720975306919197649206599nat);
    lemma_le_nat_prefix_step(q, 24);
    assert(le_nat(q.subrange(0, 24)) == 4519355432711070353887936908700200957548874894906174012743nat);
    lemma_le_nat_prefix_step(q, 25);
    assert(le_nat(q.subrange(0, 25)) == 261880526583564981671155303260214524017745448117931589041479nat);
    lemma_le_nat_prefix_step(q, 26);
    assert(le_nat(q.subrange(0, 26)) == 257371967608022009068385090077846230927570224453364785237261639nat);
    lemma_le_nat_prefix_step(q, 27);
    assert(le_nat(q.subrange(0, 27)) == 20414802794792796025466757576405389916966084578464718111257722183nat);
    lemma_le_nat_prefix_step(q, 28);
    assert(le_nat(q.subrange(0, 28)) == 23715680428220159803057022986402252661668362549702014750331227667783nat);
    lemma_le_nat_prefix_step(q, 29);
    assert(le_nat(q.subrange(0, 29)) == 3097149600483393096395096742906640149456302826719327277596142796078407nat);
    lemma_le_nat_prefix_step(q, 30);
    assert(le_nat(q.subrange(0, 30)) == 541433364650147368516306054000514625440642802656009478580273032252423495nat);
    lemma_le_nat_prefix_step(q, 31);
    assert(le_nat(q.subrange(0, 31)) == 177226139842488580326846056128292366208189032490217905290740893161514401095nat);
    lemma_le_nat_prefix_step(q, 32);
    assert(le_nat(q.subrange(0, 32)) == 21888242871839275222246405745257275088696311157297823662689037894645226208583nat);
    lemma_le_nat_prefix_step(r, 1);
    assert(le_nat(r.subrange(0, 1)) == 1nat);
    lemma_le_nat_prefix_step(r, 2);
    assert(le_nat(r.subrange(0, 2)) == 1nat);
    lemma_le_nat_prefix_step(r, 3);
    assert(le_nat(r.subrange(0, 3)) == 1nat);
    lemma_le_nat_prefix_step(r, 4);
    assert(le_nat(r.subrange(0, 4)) == 4026531841nat);
    lemma_le_nat_prefix_step(r, 5);
    assert(le_nat(r.subrange(0, 5)) == 635386724353nat);
    lemma_le_nat_prefix_step(r, 6);
    assert(le_nat(r.subrange(0, 6)) == 270015735529473nat);
    lemma_le_nat_prefix_step(r, 7);
    assert(le_nat(r.subrange(0, 7)) == 63601885495427073nat);
    lemma_le_nat_prefix_step(r, 8);
    assert(le_nat(r.subrange(0, 8)) == 4891460686036598785nat);
    lemma_le_nat_prefix_step(r, 9);
    assert(le_nat(r.subrange(0, 9)) == 2679669351373921583105nat);
    lemma_le_nat_prefix_step(r, 10);
    assert(le_nat(r.subrange(0, 10)) == 531584715432774185517057nat);
    lemma_le_nat_prefix_step(r, 11);
    assert(le_nat(r.subrange(0, 11)) == 224182861344139171506159617nat);
    lemma_le_nat_prefix_step(r, 12);
    assert(le_nat(r.subrange(0, 12)) == 37671869049726892487204667393nat);
    lemma_le_nat_prefix_step(r, 13);
    assert(le_nat(r.subrange(0, 13)) == 5742099570076759199222369091585nat);
    lemma_le_nat_prefix_step(r, 14);
    assert(le_nat(r.subrange(0, 14)) == 4711261127617264297554984667447297nat);
    lemma_le_nat_prefix_step(r, 15);
    assert(le_nat(r.subrange(0, 15)) == 269518400912893473352610297457672193nat);
    lemma_le_nat_prefix_step(r, 16);
    assert(le_nat(r.subrange(0, 16)) == 53438638232309528389504892708671455233nat);
    lemma_le_nat_prefix_step(r, 17);
    assert(le_nat(r.subrange(0, 17)) == 31699698761879586630483343383863115120641nat);
    lemma_le_nat_prefix_step(r, 18);
    assert(le_nat(r.subrange(0, 18)) == 7697580860756781291533386499606737382801409nat);
    lemma_le_nat_prefix_step(r, 19);
    assert(le_nat(r.subrange(0, 19)) == 2884493711471207166549641043671245371654275073nat);
    lemma_le_nat_prefix_step(r, 20);
    assert(le_nat(r.subrange(0, 20)) == 739344303147746505792625201279610735745151533057nat);
    lemma_le_nat_prefix_step(r, 21);
    assert(le_nat(r.subrange(0, 21)) == 266732642297372077618863264755643120313124874354689nat);
    lemma_le_nat_prefix_step(r, 22);
    assert(le_nat(r.subrange(0, 22)) == 26082697564110441224768752149856066379515517313482753nat);
    lemma_le_nat_prefix_step(r, 23);
    assert(le_nat(r.subrange(0, 23)) == 7688560401893554733016503887901401984473211128231493633nat);
    lemma_le_nat_prefix_step(r, 24);
    assert(le_nat(r.subrange(0, 24)) == 4519355432711070353739990151818411638558041186836756299777nat);
    lemma_le_nat_prefix_step(r, 25);
    assert(le_nat(r.subrange(0, 25)) == 261880526583564981671007356503332734698754614409862171328513nat);
    lemma_le_nat_prefix_step(r, 26);
    assert(le_nat(r.subrange(0, 26)) == 257371967608022009068384942131089349138251233619656715819548673nat);
    lemma_le_nat_prefix_step(r, 27);
    assert(le_nat(r.subrange(0, 27)) == 20414802794792796025466757428458633035176765587631010041840009217nat);
    lemma_le_nat_prefix_step(r, 28);
    assert(le_nat(r.subrange(0, 28)) == 23715680428220159803057022986254305904786573230711181042261809954817nat);
    lemma_le_nat_prefix_step(r, 29);
    assert(le_nat(r.subrange(0, 29)) == 3097149600483393096395096742906492202699421037400336443888073378365441nat);
    lemma_le_nat_prefix_step(r, 30);
    assert(le_nat(r.subrange(0, 30)) == 541433364650147368516306054000514477493885920866690487746564962834710529nat);
    lemma_le_nat_prefix_step(r, 31);
    assert(le_nat(r.subrange(0, 31)) == 177226139842488580326846056128292366060242275608428586299907185092096688129nat);
    lemma_le_nat_prefix_step(r, 32);
    assert(le_nat(r.subrange(0, 32)) == 21888242871839275222246405745257275088548364400416034343698204186575808495617nat);
    assert(q.subrange(0, 32) =~= q);
    assert(r.subrange(0, 32) =~= r);
}

/// The powers `256^k` for `k <= 32`.
proof fn lemma_pow256_32()
    ensures
        pow256(0) == 1nat,
        pow256(1) == 256nat,
        pow256(2) == 65536nat,
        pow256(3) == 16777216nat,
        pow256(4) == 4294967296nat,
        pow256(5) == 1099511627776nat,
        pow256(6) == 281474976710656nat,
        pow256(7) == 72057594037927936nat,
        pow256(8) == 18446744073709551616nat,
        pow256(9) == 4722366482869645213696nat,
        pow256(10) == 1208925819614629174706176nat,
        pow256(11) == 309485009821345068724781056nat,
        pow256(12) == 79228162514264337593543950336nat,
        pow256(13) == 20282409603651670423947251286016nat,
        pow256(14) == 5192296858534827628530496329220096nat,
        pow256(15) == 1329227995784915872903807060280344576nat,
        pow256(16) == 340282366920938463463374607431768211456nat,
        pow256(17) == 87112285931760246646623899502532662132736nat,
        pow256(18) == 22300745198530623141535718272648361505980416nat,
        pow256(19) == 5708990770823839524233143877797980545530986496nat,
        pow256(20) == 1461501637330902918203684832716283019655932542976nat,
        pow256(21) == 374144419156711147060143317175368453031918731001856nat,
        pow256(22) == 95780971304118053647396689196894323976171195136475136nat,
        pow256(23) == 24519928653854221733733552434404946937899825954937634816nat,
        pow256(24) == 6277101735386680763835789423207666416102355444464034512896nat,
        pow256(25) == 1606938044258990275541962092341162602522202993782792835301376nat,
        pow256(26) == 411376139330301510538742295639337626245683966408394965837152256nat,
        pow256(27) == 105312291668557186697918027683670432318895095400549111254310977536nat,
        pow256(28) == 26959946667150639794667015087019630673637144422540572481103610249216nat,
        pow256(29) == 6901746346790563787434755862277025452451108972170386555162524223799296nat,
        pow256(30) == 1766847064778384329583297500742918515827483896875618958121606201292619776nat,
        pow256(31) == 452312848583266388373324160190187140051835877600158453279131187530910662656nat,
        pow256(32) == 115792089237316195423570985008687907853269984665640564039457584007913129639936nat,
{
    assert(pow256(0) == 1nat);
    assert(pow256(1) == 256nat);
    assert(pow256(2) == 65536nat);
    assert(pow256(3) == 16777216nat);
    assert(pow256(4) == 4294967296nat);
    assert(pow256(5) == 1099511627776nat);
    assert(pow256(6) == 281474976710656nat);
    assert(pow256(7) == 72057594037927936nat);
    assert(pow256(8) == 18446744073709551616nat);
    assert(pow256(9) == 4722366482869645213696nat);
    assert(pow256(10) == 1208925819614629174706176nat);
    assert(pow256(11) == 309485009821345068724781056nat);
    assert(pow256(12) == 79228162514264337593543950336nat);
    assert(pow256(13) == 20282409603651670423947251286016nat);
    assert(pow256(14) == 5192296858534827628530496329220096nat);
    assert(pow256(15) == 1329227995784915872903807060280344576nat);
    assert(pow256(16) == 340282366920938463463374607431768211456nat);
    assert(pow256(17) == 87112285931760246646623899502532662132736nat);
    assert(pow256(18) == 22300745198530623141535718272648361505980416nat);
    assert(pow256(19) == 5708990770823839524233143877797980545530986496nat);
    assert(pow256(20) == 1461501637330902918203684832716283019655932542976nat);
    assert(pow256(21) == 374144419156711147060143317175368453031918731001856nat);
    assert(pow256(22) == 95780971304118053647396689196894323976171195136475136nat);
    assert(pow256(23) == 24519928653854221733733552434404946937899825954937634816nat);
    assert(pow256(24) == 6277101735386680763835789423207666416102355444464034512896nat);
    assert(pow256(25) == 1606938044258990275541962092341162602522202993782792835301376nat);
    assert(pow256(26) == 411376139330301510538742295639337626245683966408394965837152256nat);
    assert(pow256(27) == 105312291668557186697918027683670432318895095400549111254310977536nat);
    assert(pow256(28) == 26959946667150639794667015087019630673637144422540572481103610249216nat);
    assert(pow256(29) == 6901746346790563787434755862277025452451108972170386555162524223799296nat);
    assert(pow256(30) == 1766847064778384329583297500742918515827483896875618958121606201292619776nat);
    assert(pow256(31) == 452312848583266388373324160190187140051835877600158453279131187530910662656nat);
    assert(pow256(32) == 115792089237316195423570985008687907853269984665640564039457584007913129639936nat);
}

proof fn lemma_le_nat_prefix_step(s: Seq<u8>, k: int)
    requires
        0 < k <= s.len(),
    ensures
        le_nat(s.subrange(0, k)) == le_nat(s.subrange(0, k - 1)) + s[k - 1] as nat * pow256(
            (k - 1) as nat,
        ),
{
    assert(s.subrange(0, k).drop_last() =~= s.subrange(0, k - 1));
}

/// `Fp::new_unchecked(BigInt(m)).into_bigint()` of ark-ff for BN254's base
/// field: the limbs are taken as the field's internal Montgomery form and
/// the standard form comes back, which is `m · 2^-256 mod q` for `m < q`.
#[verifier::external_body]
fn fq_from_montgomery(m: [u64; 4]) -> (r: [u64; 4])
    requires
        limbs_nat(m) < fq_modulus(),
    ensures
        limbs_nat(r) == (limbs_nat(m) * fq_r_inv()) % fq_modulus(),
{
    Fq::new_unchecked(BigInt(m)).into_bigint().0
}

/// `Fp::new_unchecked(BigInt(m)).into_bigint()` of ark-ff for BN254's
/// scalar field: `m · 2^-256 mod r` for `m < r`.
#[verifier::external_body]
fn fr_from_montgomery(m: [u64; 4]) -> (r: [u64; 4])
    requires
        limbs_nat(m) < fr_modulus(),
    ensures
        limbs_nat(r) == (limbs_nat(m) * fr_r_inv()) % fr_modulus(),
{
    Fr::new_unchecked(BigInt(m)).into_bigint().0
}

/// The limbs of a number below `2^256`.
pub open spec fn std_limbs(v: nat) -> [u64; 4] {
    choose|l: [u64; 4]| limbs_nat(l) == v
}

/// `b < m` for a 32-byte little-endian number `b`, compared from the most
/// significant byte down.
pub fn is_lt_modulus(bytes: &[u8], modulus_le: &[u8; 32]) -> (r: bool)
    requires
        bytes@.len() == 32,
    ensures
        r == (le_nat(bytes@) < le_nat(modulus_le@)),
{
    let mut k: usize = 32;
    proof {
        assert(bytes@.subrange(0, 32) =~= bytes@);
        assert(modulus_le@.subrange(0, 32) =~= modulus_le@);
    }
    while k > 0
        invariant
            k <= 32,
            bytes@.len() == 32,
            modulus_le@.len() == 32,
            (le_nat(bytes@) < le_nat(modulus_le@)) == (le_nat(bytes@.subrange(0, k as int))
                < le_nat(modulus_le@.subrange(0, k as int))),
        decreases k,
    {
        let ghost sa = bytes@.subrange(0, k as int);
        let ghost sb = modulus_le@.subrange(0, k as int);
        proof {
            lemma_le_nat_top(sa, sb);
            lemma_le_nat_top(sb, sa);
            assert(sa.drop_last() =~= bytes@.subrange(0, k - 1));
            assert(sb.drop_last() =~= modulus_le@.subrange(0, k - 1));
        }
        if bytes[k - 1] < modulus_le[k - 1] {
            return true;
        }
        if bytes[k - 1] > modulus_le[k - 1] {
            return false;
        }
        k = k - 1;
    }
    proof {
        assert(bytes@.subrange(0, 0).len() == 0);
        assert(modulus_le@.subrange(0, 0).len() == 0);
    }
    false
}

/// What converting a 32-byte Montgomery-form base-field element gives.
pub open spec fn fq_mont_result(b: Seq<u8>) -> Result<[u64; 4], ZacError> {
    if le_nat(b) < fq_modulus() {
        Ok(std_limbs((le_nat(b) * fq_r_inv()) % fq_modulus()))
    } else {
        Err(ZacError::NonCanonicalPoint { offset: 0, reason: "Fq Montgomery integer >= q" })
    }
}

/// What converting a 32-byte Montgomery-form scalar gives: its standard
/// form as 32 little-endian bytes.
pub open spec fn fr_mont_result(b: Seq<u8>) -> Result<Seq<u8>, ZacError> {
    if le_nat(b) < fr_modulus() {
        Ok(limb_bytes(std_limbs((le_nat(b) * fr_r_inv()) % fr_modulus())))
    } else {
        Err(ZacError::NonCanonicalFr { offset: 0, input_index: 0 })
    }
}

/// Convert a 32-byte little-endian Montgomery-form base-field element to
/// standard form, rejecting values `>= q`.
fn from_mont_le_fq(bytes: &[u8]) -> (r: ZacResult<[u64; 4]>)
    requires
        bytes@.len() == 32,
    ensures
        r == fq_mont_result(bytes@),
{
    let q: [u8; 32] = BN254_Q_LE;
    if !is_lt_modulus(bytes, &q) {
        return Err(ZacError::NonCanonicalPoint { offset: 0, reason: "Fq Montgomery integer >= q" });
    }
    let m = read_limbs(bytes, 0);
    assert(bytes@.subrange(0, 32) =~= bytes@);
    let x = fq_from_montgomery(m);
    proof {
        let v = (le_nat(bytes@) * fq_r_inv()) % fq_modulus();
        assert(limbs_nat(x) == v);
        lemma_limbs_injective(x, std_limbs(v));
    }
    Ok(x)
}

/// Convert a 32-byte little-endian Montgomery-form scalar to standard
/// form, rejecting values `>= r`.
fn from_mont_le_fr_bytes(bytes: &[u8]) -> (r: ZacResult<[u8; 32]>)
    requires
        bytes@.len() == 32,
    ensures
        match r {
            Ok(v) => fr_mont_result(bytes@) == Ok::<Seq<u8>, ZacError>(v@),
            Err(e) => fr_mont_result(bytes@) == Err::<Seq<u8>, ZacError>(e),
        },
{
    let rm: [u8; 32] = BN254_R_LE;
    if !is_lt_modulus(bytes, &rm) {
        return Err(ZacError::NonCanonicalFr { offset: 0, input_index: 0 });
    }
    let m = read_limbs(bytes, 0);
    assert(bytes@.subrange(0, 32) =~= bytes@);
    let x = fr_from_montgomery(m);
    proof {
        let v = (le_nat(bytes@) * fr_r_inv()) % fr_modulus();
        assert(limbs_nat(x) == v);
        lemma_limbs_injective(x, std_limbs(v));
    }
    Ok(limbs_to_bytes(&x))
}

/// Convert a 32-byte little-endian Montgomery-form scalar to its standard
/// 32-byte little-endian encoding; values `>= r` are refused (E012).
pub fn fr_from_mont_le(bytes: &[u8; 32]) -> (r: ZacResult<[u8; 32]>)
    ensures
        match r {
            Ok(v) => fr_mont_result(bytes@) == Ok::<Seq<u8>, ZacError>(v@),
            Err(e) => fr_mont_result(bytes@) == Err::<Seq<u8>, ZacError>(e),
        },
{
    from_mont_le_fr_bytes(bytes.as_slice())
}

/// An E010 error moved to another offset; any other error unchanged.
pub open spec fn reattributed(e: ZacError, abs_off: usize) -> ZacError {
    match e {
        ZacError::NonCanonicalPoint { reason, .. } => ZacError::NonCanonicalPoint {
            offset: abs_off,
            reason,
        },
        _ => e,
    }
}

/// Report an E010 error at `abs_off`; other errors pass through.
pub fn reattribute(e: ZacError, abs_off: usize) -> (r: ZacError)
    ensures
        r == reattributed(e, abs_off),
{
    match e {
        ZacError::NonCanonicalPoint { reason, .. } => ZacError::NonCanonicalPoint {
            offset: abs_off,
            reason,
        },
        other => other,
    }
}

/// The G1 point at infinity.
pub open spec fn g1_identity() -> G1Point {
    G1Point { x: [0u64, 0, 0, 0], y: [0u64, 0, 0, 0], infinity: true }
}

/// The G2 point at infinity.
pub open spec fn g2_identity() -> G2Point {
    G2Point {
        x_c0: [0u64, 0, 0, 0],
        x_c1: [0u64, 0, 0, 0],
        y_c0: [0u64, 0, 0, 0],
        y_c1: [0u64, 0, 0, 0],
        infinity: true,
    }
}

/// What reading a snarkjs G1 point gives: infinity for 64 zero bytes,
/// else both coordinates converted from Montgomery form, then the curve
/// and subgroup checks.
pub open spec fn snark_g1_result(b: Seq<u8>, abs_off: usize) -> Result<G1Point, ZacError> {
    if b.len() != 64 {
        Err(ZacError::Truncated { offset: abs_off, need: 64, have: b.len() as usize })
    } else if all_zero(b, 0, 64) {
        Ok(g1_identity())
    } else {
        match fq_mont_result(b.subrange(0, 32)) {
            Err(e) => Err(reattributed(e, abs_off)),
            Ok(x) => match fq_mont_result(b.subrange(32, 64)) {
                Err(e) => Err(reattributed(e, (abs_off + 32) as usize)),
                Ok(y) => {
                    let p = G1Point { x, y, infinity: false };
                    if !g1_on_curve(p) {
                        Err(
                            ZacError::NonCanonicalPoint {
                                offset: abs_off,
                                reason: "snarkjs G1 point not on curve",
                            },
                        )
                    } else if !g1_in_subgroup(p) {
                        Err(ZacError::SubgroupCheckFailed { offset: abs_off })
                    } else {
                        Ok(p)
                    }
                },
            },
        }
    }
}

/// What reading a snarkjs G2 point gives.
pub open spec fn snark_g2_result(b: Seq<u8>, abs_off: usize) -> Result<G2Point, ZacError> {
    if b.len() != 128 {
        Err(ZacError::Truncated { offset: abs_off, need: 128, have: b.len() as usize })
    } else if all_zero(b, 0, 128) {
        Ok(g2_identity())
    } else {
        match fq_mont_result(b.subrange(0, 32)) {
            Err(e) => Err(reattributed(e, abs_off)),
            Ok(x0) => match fq_mont_result(b.subrange(32, 64)) {
                Err(e) => Err(reattributed(e, (abs_off + 32) as usize)),
                Ok(x1) => match fq_mont_result(b.subrange(64, 96)) {
                    Err(e) => Err(reattributed(e, (abs_off + 64) as usize)),
                    Ok(y0) => match fq_mont_result(b.subrange(96, 128)) {
                        Err(e) => Err(reattributed(e, (abs_off + 96) as usize)),
                        Ok(y1) => {
                            let p = G2Point {
                                x_c0: x0,
                                x_c1: x1,
                                y_c0: y0,
                                y_c1: y1,
                                infinity: false,
                            };
                            if !g2_on_curve(p) {
                                Err(
                                    ZacError::NonCanonicalPoint {
                                        offset: abs_off,
                                        reason: "snarkjs G2 point not on curve",
                                    },
                                )
                            } else if !g2_in_subgroup(p) {
                                Err(ZacError::SubgroupCheckFailed { offset: abs_off })
                            } else {
                                Ok(p)
                            }
                        },
                    },
                },
            },
        }
    }
}

/// Read a snarkjs G1 point (64 bytes, Montgomery form) at absolute offset
/// `abs_off`.
fn read_snarkjs_g1(bytes: &[u8], abs_off: usize) -> (r: ZacResult<G1Point>)
    requires
        abs_off + 32 <= usize::MAX,
    ensures
        r == snark_g1_result(bytes@, abs_off),
{
    if bytes.len() != 64 {
        return Err(ZacError::Truncated { offset: abs_off, need: 64, have: bytes.len() });
    }
    proof {
        lemma_first_nonzero(bytes@, 0, 64);
    }
    if first_nonzero(bytes, 0, 64).is_none() {
        return Ok(G1Point { x: [0u64, 0, 0, 0], y: [0u64, 0, 0, 0], infinity: true });
    }
    let x = match from_mont_le_fq(vstd::slice::slice_subrange(bytes, 0, 32)) {
        Ok(v) => v,
        Err(e) => {
            return Err(reattribute(e, abs_off));
        },
    };
    let y = match from_mont_le_fq(vstd::slice::slice_subrange(bytes, 32, 64)) {
        Ok(v) => v,
        Err(e) => {
            return Err(reattribute(e, abs_off + 32));
        },
    };
    let p = G1Point { x, y, infinity: false };
    if !g1_is_on_curve(&p) {
        return Err(
            ZacError::NonCanonicalPoint { offset: abs_off, reason: "snarkjs G1 point not on curve" },
        );
    }
    if !g1_is_in_subgroup(&p) {
        return Err(ZacError::SubgroupCheckFailed { offset: abs_off });
    }
    Ok(p)
}

/// Read a snarkjs G2 point (128 bytes, Montgomery form) at absolute offset
/// `abs_off`.
fn read_snarkjs_g2(bytes: &[u8], abs_off: usize) -> (r: ZacResult<G2Point>)
    requires
        abs_off + 96 <= usize::MAX,
    ensures
        r == snark_g2_result(bytes@, abs_off),
{
    if bytes.len() != 128 {
        return Err(ZacError::Truncated { offset: abs_off, need: 128, have: bytes.len() });
    }
    proof {
        lemma_first_nonzero(bytes@, 0, 128);
    }
    if first_nonzero(bytes, 0, 128).is_none() {
        return Ok(
            G2Point {
                x_c0: [0u64, 0, 0, 0],
                x_c1: [0u64, 0, 0, 0],
                y_c0: [0u64, 0, 0, 0],
                y_c1: [0u64, 0, 0, 0],
                infinity: true,
            },
        );
    }
    let x0 = match from_mont_le_fq(vstd::slice::slice_subrange(bytes, 0, 32)) {
        Ok(v) => v,
        Err(e) => {
            return Err(reattribute(e, abs_off));
        },
    };
    let x1 = match from_mont_le_fq(vstd::slice::slice_subrange(bytes, 32, 64)) {
        Ok(v) => v,
        Err(e) => {
            return Err(reattribute(e, abs_off + 32));
        },
    };
    let y0 = match from_mont_le_fq(vstd::slice::slice_subrange(bytes, 64, 96)) {
        Ok(v) => v,
        Err(e) => {
            return Err(reattribute(e, abs_off + 64));
        },
    };
    let y1 = match from_mont_le_fq(vstd::slice::slice_subrange(bytes, 96, 128)) {
        Ok(v) => v,
        Err(e) => {
            return Err(reattribute(e, abs_off + 96));
        },
    };
    let p = G2Point { x_c0: x0, x_c1: x1, y_c0: y0, y_c1: y1, infinity: false };
    if !g2_is_on_curve(&p) {
        return Err(
            ZacError::NonCanonicalPoint { offset: abs_off, reason: "snarkjs G2 point not on curve" },
        );
    }
    if !g2_is_in_subgroup(&p) {
        return Err(ZacError::SubgroupCheckFailed { offset: abs_off });
    }
    Ok(p)
}

/// Every section in the table lies inside the bytes.
pub open spec fn refs_in_bounds(s: Seq<u8>, refs: Seq<SectionRef>) -> bool {
    &&& s.len() <= usize::MAX
    &&& forall|i: int|
        0 <= i < refs.len() ==> (#[trigger] refs[i]).offset + refs[i].size <= s.len()
}

/// Reading `k` snarkjs G1 points one after another from `base`.
pub open spec fn g1_scan(s: Seq<u8>, base: int, k: nat) -> Result<Seq<G1Point>, ZacError>
    decreases k,
{
    if k == 0 {
        Ok(Seq::empty())
    } else {
        match g1_scan(s, base, (k - 1) as nat) {
            Err(e) => Err(e),
            Ok(ps) => {
                let a = base + 64 * (k - 1);
                match snark_g1_result(s.subrange(a, a + 64), a as usize) {
                    Err(e) => Err(e),
                    Ok(p) => Ok(ps.push(p)),
                }
            },
        }
    }
}

/// Reading `k` snarkjs G2 points one after another from `base`.
pub open spec fn g2_scan(s: Seq<u8>, base: int, k: nat) -> Result<Seq<G2Point>, ZacError>
    decreases k,
{
    if k == 0 {
        Ok(Seq::empty())
    } else {
        match g2_scan(s, base, (k - 1) as nat) {
            Err(e) => Err(e),
            Ok(ps) => {
                let a = base + 128 * (k - 1);
                match snark_g2_result(s.subrange(a, a + 128), a as usize) {
                    Err(e) => Err(e),
                    Ok(p) => Ok(ps.push(p)),
                }
            },
        }
    }
}

/// What reading section `id` as an array of `n` G1 points gives.
pub open spec fn g1_array_result(
    s: Seq<u8>,
    refs: Seq<SectionRef>,
    id: u32,
    n: nat,
    name: &'static str,
) -> Result<Seq<G1Point>, ZacError> {
    match first_with_id(refs, id, 0) {
        None => Err(ZacError::MissingMandatorySection { missing_type: id as u8, name }),
        Some(i) => if refs[i].size != 64 * n {
            Err(
                ZacError::Truncated {
                    offset: refs[i].offset,
                    need: (64 * n) as usize,
                    have: refs[i].size as usize,
                },
            )
        } else {
            g1_scan(s, refs[i].offset as int, n)
        },
    }
}

/// What reading section `id` as an array of `n` G2 points gives.
pub open spec fn g2_array_result(
    s: Seq<u8>,
    refs: Seq<SectionRef>,
    id: u32,
    n: nat,
    name: &'static str,
) -> Result<Seq<G2Point>, ZacError> {
    match first_with_id(refs, id, 0) {
        None => Err(ZacError::MissingMandatorySection { missing_type: id as u8, name }),
        Some(i) => if refs[i].size != 128 * n {
            Err(
                ZacError::Truncated {
                    offset: refs[i].offset,
                    need: (128 * n) as usize,
                    have: refs[i].size as usize,
                },
            )
        } else {
            g2_scan(s, refs[i].offset as int, n)
        },
    }
}

proof fn lemma_g1_scan_err_stable(s: Seq<u8>, base: int, k: nat, k2: nat)
    requires
        g1_scan(s, base, k) is Err,
        k <= k2,
    ensures
        g1_scan(s, base, k2) == g1_scan(s, base, k),
    decreases k2 - k,
{
    if k < k2 {
        lemma_g1_scan_err_stable(s, base, k, (k2 - 1) as nat);
    }
}

proof fn lemma_g2_scan_err_stable(s: Seq<u8>, base: int, k: nat, k2: nat)
    requires
        g2_scan(s, base, k) is Err,
        k <= k2,
    ensures
        g2_scan(s, base, k2) == g2_scan(s, base, k),
    decreases k2 - k,
{
    if k < k2 {
        lemma_g2_scan_err_stable(s, base, k, (k2 - 1) as nat);
    }
}

/// Read section `id` as an array of `n` snarkjs G1 points.
#[verifier::loop_isolation(false)]
fn parse_g1_array(bytes: &[u8], sects: &[SectionRef], id: u32, n: u64, name: &'static str) -> (r:
    ZacResult<Vec<G1Point>>)
    requires
        n <= u32::MAX + 1,
        refs_in_bounds(bytes@, sects@),
    ensures
        match r {
            Ok(v) => g1_array_result(bytes@, sects@, id, n as nat, name) == Ok::<
                Seq<G1Point>,
                ZacError,
            >(v@),
            Err(e) => g1_array_result(bytes@, sects@, id, n as nat, name) == Err::<
                Seq<G1Point>,
                ZacError,
            >(e),
        },
{
    proof {
        lemma_first_with_id(sects@, id, 0);
    }
    let sec = match find_section(sects, id) {
        Some(x) => x,
        None => {
            return Err(ZacError::MissingMandatorySection { missing_type: id as u8, name });
        },
    };
    let need = 64 * n;
    if sec.size != need {
        return Err(
            ZacError::Truncated { offset: sec.offset, need: need as usize, have: sec.size as usize },
        );
    }
    let base = sec.offset;
    let mut out: Vec<G1Point> = Vec::new();
    let mut i: u64 = 0;
    while i < n
        invariant
            i <= n,
            base + 64 * n <= bytes@.len(),
            bytes@.len() <= usize::MAX,
            g1_scan(bytes@, base as int, i as nat) == Ok::<Seq<G1Point>, ZacError>(out@),
        decreases n - i,
    {
        let a = base + (i as usize) * 64;
        let p = match read_snarkjs_g1(vstd::slice::slice_subrange(bytes, a, a + 64), a) {
            Ok(p) => p,
            Err(e) => {
                proof {
                    lemma_g1_scan_err_stable(bytes@, base as int, (i + 1) as nat, n as nat);
                }
                return Err(e);
            },
        };
        out.push(p);
        i = i + 1;
    }
    Ok(out)
}

/// Read section `id` as an array of `n` snarkjs G2 points.
#[verifier::loop_isolation(false)]
fn parse_g2_array(bytes: &[u8], sects: &[SectionRef], id: u32, n: u64, name: &'static str) -> (r:
    ZacResult<Vec<G2Point>>)
    requires
        n <= u32::MAX + 1,
        refs_in_bounds(bytes@, sects@),
    ensures
        match r {
            Ok(v) => g2_array_result(bytes@, sects@, id, n as nat, name) == Ok::<
                Seq<G2Point>,
                ZacError,
            >(v@),
            Err(e) => g2_array_result(bytes@, sects@, id, n as nat, name) == Err::<
                Seq<G2Point>,
                ZacError,
            >(e),
        },
{
    proof {
        lemma_first_with_id(sects@, id, 0);
    }
    let sec = match find_section(sects, id) {
        Some(x) => x,
        None => {
            return Err(ZacError::MissingMandatorySection { missing_type: id as u8, name });
        },
    };
    let need = 128 * n;
    if sec.size != need {
        return Err(
            ZacError::Truncated { offset: sec.offset, need: need as usize, have: sec.size as usize },
        );
    }
    let base = sec.offset;
    let mut out: Vec<G2Point> = Vec::new();
    let mut i: u64 = 0;
    while i < n
        invariant
            i <= n,
            base + 128 * n <= bytes@.len(),
            bytes@.len() <= usize::MAX,
            g2_scan(bytes@, base as int, i as nat) == Ok::<Seq<G2Point>, ZacError>(out@),
        decreases n - i,
    {
        let a = base + (i as usize) * 128;
        let p = match read_snarkjs_g2(vstd::slice::slice_subrange(bytes, a, a + 128), a) {
            Ok(p) => p,
            Err(e) => {
                proof {
                    lemma_g2_scan_err_stable(bytes@, base as int, (i + 1) as nat, n as nat);
                }
                return Err(e);
            },
        };
        out.push(p);
        i = i + 1;
    }
    Ok(out)
}

/// One row of the sparse coefficient table (section 0x04).
#[derive(Debug, Clone, Copy, PartialEq, Eq)]
pub struct ZkeyCoef {
    /// Matrix selector: 0 = A, 1 = B.
    pub matrix: u8,
    /// Constraint index.
    pub constraint: u32,
    /// Witness signal index.
    pub signal: u32,
    /// The coefficient in standard form, 32 bytes little-endian.
    pub value: [u8; 32],
}

/// Where coefficient `i` of a table at `base` starts.
pub open spec fn coef_at(base: int, i: int) -> int {
    base + 4 + 44 * i
}

/// What reading coefficient row `a` gives.
pub open spec fn coef_row(s: Seq<u8>, a: int, domain_size: u32, n_vars: u32) -> Result<
    ZkeyCoef,
    ZacError,
> {
    let m = le_u32(s, a);
    let c = le_u32(s, a + 4);
    let sg = le_u32(s, a + 8);
    if m > 1 {
        Err(ZacError::BadFlags { offset: a as usize, field: "zkey.coef.matrix", value: m as u64 })
    } else if c >= domain_size {
        Err(
            ZacError::PublicInputCountMismatch {
                offset: (a + 4) as usize,
                declared: c as u64,
                expected: domain_size as u64,
            },
        )
    } else if sg >= n_vars {
        Err(
            ZacError::PublicInputCountMismatch {
                offset: (a + 8) as usize,
                declared: sg as u64,
                expected: n_vars as u64,
            },
        )
    } else {
        match fr_mont_result(s.subrange(a + 12, a + 44)) {
            Err(_) => Err(ZacError::NonCanonicalFr { offset: (a + 12) as usize, input_index: 0 }),
            Ok(v) => Ok(ZkeyCoef { matrix: m as u8, constraint: c, signal: sg, value: to_arr32(v) }),
        }
    }
}

/// Reading the first `k` coefficient rows of a table at `base`.
pub open spec fn coef_scan(s: Seq<u8>, base: int, domain_size: u32, n_vars: u32, k: nat) -> Result<
    Seq<ZkeyCoef>,
    ZacError,
>
    decreases k,
{
    if k == 0 {
        Ok(Seq::empty())
    } else {
        match coef_scan(s, base, domain_size, n_vars, (k - 1) as nat) {
            Err(e) => Err(e),
            Ok(cs) => match coef_row(s, coef_at(base, k - 1), domain_size, n_vars) {
                Err(e) => Err(e),
                Ok(c) => Ok(cs.push(c)),
            },
        }
    }
}

/// What reading the coefficient section gives.
pub open spec fn coefs_result(s: Seq<u8>, refs: Seq<SectionRef>, domain_size: u32, n_vars: u32) -> Result<
    Seq<ZkeyCoef>,
    ZacError,
> {
    match first_with_id(refs, 4, 0) {
        None => Err(ZacError::MissingMandatorySection { missing_type: 0x04, name: "zkey.coefs" }),
        Some(i) => {
            let r = refs[i];
            if r.size < 4 {
                Err(ZacError::Truncated { offset: r.offset, need: 4, have: r.size as usize })
            } else {
                let n = le_u32(s, r.offset as int);
                if r.size != 4 + 44 * n {
                    Err(
                        ZacError::Truncated {
                            offset: r.offset,
                            need: (4 + 44 * n) as usize,
                            have: r.size as usize,
                        },
                    )
                } else {
                    coef_scan(s, r.offset as int, domain_size, n_vars, n as nat)
                }
            }
        },
    }
}

proof fn lemma_coef_scan_err_stable(
    s: Seq<u8>,
    base: int,
    domain_size: u32,
    n_vars: u32,
    k: nat,
    k2: nat,
)
    requires
        coef_scan(s, base, domain_size, n_vars, k) is Err,
        k <= k2,
    ensures
        coef_scan(s, base, domain_size, n_vars, k2) == coef_scan(s, base, domain_size, n_vars, k),
    decreases k2 - k,
{
    if k < k2 {
        lemma_coef_scan_err_stable(s, base, domain_size, n_vars, k, (k2 - 1) as nat);
    }
}

/// Read one coefficient row at `a`.
fn parse_coef_row(bytes: &[u8], a: usize, domain_size: u32, n_vars: u32) -> (r: ZacResult<
    ZkeyCoef,
>)
    requires
        a + 44 <= bytes.len(),
    ensures
        r == coef_row(bytes@, a as int, domain_size, n_vars),
{
    let m = read_u32(bytes, a);
    let c = read_u32(bytes, a + 4);
    let sg = read_u32(bytes, a + 8);
    if m > 1 {
        return Err(ZacError::BadFlags { offset: a, field: "zkey.coef.matrix", value: m as u64 });
    }
    if c >= domain_size {
        return Err(
            ZacError::PublicInputCountMismatch {
                offset: a + 4,
                declared: c as u64,
                expected: domain_size as u64,
            },
        );
    }
    if sg >= n_vars {
        return Err(
            ZacError::PublicInputCountMismatch {
                offset: a + 8,
                declared: sg as u64,
                expected: n_vars as u64,
            },
        );
    }
    let buf: [u8; 32] = copy_array(bytes, a + 12);
    let v = match from_mont_le_fr_bytes(buf.as_slice()) {
        Ok(v) => v,
        Err(e) => {
            return Err(
                match e {
                    ZacError::NonCanonicalFr { input_index, .. } => ZacError::NonCanonicalFr {
                        offset: a + 12,
                        input_index,
                    },
                    other => other,
                },
            );
        },
    };
    proof {
        lemma_to_arr32(v);
    }
    Ok(ZkeyCoef { matrix: m as u8, constraint: c, signal: sg, value: v })
}

/// Read the coefficient section.
#[verifier::loop_isolation(false)]
fn parse_coefs(bytes: &[u8], sects: &[SectionRef], domain_size: u32, n_vars: u32) -> (r: ZacResult<
    Vec<ZkeyCoef>,
>)
    requires
        refs_in_bounds(bytes@, sects@),
    ensures
        match r {
            Ok(v) => coefs_result(bytes@, sects@, domain_size, n_vars) == Ok::<
                Seq<ZkeyCoef>,
                ZacError,
            >(v@),
            Err(e) => coefs_result(bytes@, sects@, domain_size, n_vars) == Err::<
                Seq<ZkeyCoef>,
                ZacError,
            >(e),
        },
{
    proof {
        lemma_first_with_id(sects@, 4, 0);
    }
    let s4 = match find_section(sects, 4) {
        Some(x) => x,
        None => {
            return Err(ZacError::MissingMandatorySection { missing_type: 0x04, name: "zkey.coefs" });
        },
    };
    if s4.size < 4 {
        return Err(ZacError::Truncated { offset: s4.offset, need: 4, have: s4.size as usize });
    }
    let base = s4.offset;
    let n_coefs = read_u32(bytes, base);
    let need = 4 + 44 * (n_coefs as u64);
    if s4.size != need {
        return Err(
            ZacError::Truncated { offset: base, need: need as usize, have: s4.size as usize },
        );
    }
    let mut coefs: Vec<ZkeyCoef> = Vec::new();
    let mut i: u32 = 0;
    while i < n_coefs
        invariant
            i <= n_coefs,
            base + 4 + 44 * n_coefs <= bytes@.len(),
            bytes@.len() <= usize::MAX,
            coef_scan(bytes@, base as int, domain_size, n_vars, i as nat) == Ok::<
                Seq<ZkeyCoef>,
                ZacError,
            >(coefs@),
        decreases n_coefs - i,
    {
        let a = base + 4 + (i as usize) * 44;
        let c = match parse_coef_row(bytes, a, domain_size, n_vars) {
            Ok(c) => c,
            Err(e) => {
                proof {
                    lemma_coef_scan_err_stable(
                        bytes@,
                        base as int,
                        domain_size,
                        n_vars,
                        (i + 1) as nat,
                        n_coefs as nat,
                    );
                }
                return Err(e);
            },
        };
        coefs.push(c);
        i = i + 1;
    }
    Ok(coefs)
}

/// The counts and verifying-key points of section 0x02.
#[derive(Debug, Clone, Copy, PartialEq, Eq)]
pub struct GrothHeader {
    /// Number of wires, including the constant-one wire.
    pub n_vars: u32,
    /// Number of public inputs and outputs.
    pub n_public: u32,
    /// Evaluation-domain size.
    pub domain_size: u32,
    /// `alpha` in G1.
    pub alpha_g1: G1Point,
    /// `beta` in G1.
    pub beta_g1: G1Point,
    /// `beta` in G2.
    pub beta_g2: G2Point,
    /// `gamma` in G2.
    pub gamma_g2: G2Point,
    /// `delta` in G1.
    pub delta_g1: G1Point,
    /// `delta` in G2.
    pub delta_g2: G2Point,
}

/// E015 when `n` bytes from `off` run past the end of `s`.
pub open spec fn room(s: Seq<u8>, off: int, n: int) -> Option<ZacError> {
    if off + n > s.len() {
        Some(
            ZacError::Truncated {
                offset: off as usize,
                need: n as usize,
                have: (s.len() - off) as usize,
            },
        )
    } else {
        None
    }
}

/// A snarkjs G1 point read from the file at `off`.
pub open spec fn g1_in_file(s: Seq<u8>, off: int) -> Result<G1Point, ZacError> {
    match room(s, off, 64) {
        Some(e) => Err(e),
        None => snark_g1_result(s.subrange(off, off + 64), off as usize),
    }
}

/// A snarkjs G2 point read from the file at `off`.
pub open spec fn g2_in_file(s: Seq<u8>, off: int) -> Result<G2Point, ZacError> {
    match room(s, off, 128) {
        Some(e) => Err(e),
        None => snark_g2_result(s.subrange(off, off + 128), off as usize),
    }
}

/// The six verifying-key points of section 0x02, starting at `o`.
pub open spec fn groth_points(s: Seq<u8>, o: int, n_vars: u32, n_public: u32, domain_size: u32) -> Result<
    GrothHeader,
    ZacError,
> {
    match g1_in_file(s, o) {
        Err(e) => Err(e),
        Ok(alpha_g1) => match g1_in_file(s, o + 64) {
            Err(e) => Err(e),
            Ok(beta_g1) => match g2_in_file(s, o + 128) {
                Err(e) => Err(e),
                Ok(beta_g2) => match g2_in_file(s, o + 256) {
                    Err(e) => Err(e),
                    Ok(gamma_g2) => match g1_in_file(s, o + 384) {
                        Err(e) => Err(e),
                        Ok(delta_g1) => match g2_in_file(s, o + 448) {
                            Err(e) => Err(e),
                            Ok(delta_g2) => Ok(
                                GrothHeader {
                                    n_vars,
                                    n_public,
                                    domain_size,
                                    alpha_g1,
                                    beta_g1,
                                    beta_g2,
                                    gamma_g2,
                                    delta_g1,
                                    delta_g2,
                                },
                            ),
                        },
                    },
                },
            },
        },
    }
}

/// What reading section 0x02 from `o` gives: the curve parameters must be
/// BN254's (E003), reads past the end of the file are E015.
pub open spec fn groth_result(s: Seq<u8>, o: int) -> Result<GrothHeader, ZacError> {
    if room(s, o, 4) is Some {
        Err(room(s, o, 4).unwrap())
    } else if le_u32(s, o) != 32 {
        Err(ZacError::BadFlags { offset: o as usize, field: "zkey.n8q", value: le_u32(s, o) as u64 })
    } else if room(s, o + 4, 32) is Some {
        Err(room(s, o + 4, 32).unwrap())
    } else if s.subrange(o + 4, o + 36) != BN254_Q_LE@ {
        Err(ZacError::BadFlags { offset: (o + 4) as usize, field: "zkey.q", value: le_u64(s, o + 4) })
    } else if room(s, o + 36, 4) is Some {
        Err(room(s, o + 36, 4).unwrap())
    } else if le_u32(s, o + 36) != 32 {
        Err(
            ZacError::BadFlags {
                offset: (o + 36) as usize,
                field: "zkey.n8r",
                value: le_u32(s, o + 36) as u64,
            },
        )
    } else if room(s, o + 40, 32) is Some {
        Err(room(s, o + 40, 32).unwrap())
    } else if s.subrange(o + 40, o + 72) != BN254_R_LE@ {
        Err(
            ZacError::BadFlags { offset: (o + 40) as usize, field: "zkey.r", value: le_u64(s, o + 40) },
        )
    } else if room(s, o + 72, 4) is Some {
        Err(room(s, o + 72, 4).unwrap())
    } else if room(s, o + 76, 4) is Some {
        Err(room(s, o + 76, 4).unwrap())
    } else if room(s, o + 80, 4) is Some {
        Err(room(s, o + 80, 4).unwrap())
    } else {
        groth_points(s, o + 84, le_u32(s, o + 72), le_u32(s, o + 76), le_u32(s, o + 80))
    }
}

/// E015 when `n` bytes from `off` run past `len`.
fn check_room(len: usize, off: usize, n: usize, Ghost(s): Ghost<Seq<u8>>) -> (r: ZacResult<()>)
    requires
        off <= len,
        len == s.len(),
    ensures
        match room(s, off as int, n as int) {
            Some(e) => r == Err::<(), ZacError>(e),
            None => r is Ok,
        },
{
    if n > len - off {
        return Err(ZacError::Truncated { offset: off, need: n, have: len - off });
    }
    Ok(())
}

/// Read a snarkjs G1 point from the file at `off`.
fn read_g1_in_file(bytes: &[u8], off: usize) -> (r: ZacResult<G1Point>)
    requires
        off <= bytes.len(),
    ensures
        r == g1_in_file(bytes@, off as int),
{
    match check_room(bytes.len(), off, 64, Ghost(bytes@)) {
        Err(e) => {
            return Err(e);
        },
        Ok(()) => {},
    }
    read_snarkjs_g1(vstd::slice::slice_subrange(bytes, off, off + 64), off)
}

/// Read a snarkjs G2 point from the file at `off`.
fn read_g2_in_file(bytes: &[u8], off: usize) -> (r: ZacResult<G2Point>)
    requires
        off <= bytes.len(),
    ensures
        r == g2_in_file(bytes@, off as int),
{
    match check_room(bytes.len(), off, 128, Ghost(bytes@)) {
        Err(e) => {
            return Err(e);
        },
        Ok(()) => {},
    }
    read_snarkjs_g2(vstd::slice::slice_subrange(bytes, off, off + 128), off)
}

/// Read the six verifying-key points of section 0x02.
fn parse_groth_points(bytes: &[u8], o: usize, n_vars: u32, n_public: u32, domain_size: u32) -> (r:
    ZacResult<GrothHeader>)
    requires
        o <= bytes.len(),
    ensures
        r == groth_points(bytes@, o as int, n_vars, n_public, domain_size),
{
    let len = bytes.len();
    let alpha_g1 = match read_g1_in_file(bytes, o) {
        Ok(p) => p,
        Err(e) => {
            return Err(e);
        },
    };
    let beta_g1 = match read_g1_in_file(bytes, o + 64) {
        Ok(p) => p,
        Err(e) => {
            return Err(e);
        },
    };
    let beta_g2 = match read_g2_in_file(bytes, o + 128) {
        Ok(p) => p,
        Err(e) => {
            return Err(e);
        },
    };
    let gamma_g2 = match read_g2_in_file(bytes, o + 256) {
        Ok(p) => p,
        Err(e) => {
            return Err(e);
        },
    };
    let delta_g1 = match read_g1_in_file(bytes, o + 384) {
        Ok(p) => p,
        Err(e) => {
            return Err(e);
        },
    };
    let delta_g2 = match read_g2_in_file(bytes, o + 448) {
        Ok(p) => p,
        Err(e) => {
            return Err(e);
        },
    };
    Ok(
        GrothHeader {
            n_vars,
            n_public,
            domain_size,
            alpha_g1,
            beta_g1,
            beta_g2,
            gamma_g2,
            delta_g1,
            delta_g2,
        },
    )
}

/// Read section 0x02 from `o`.
fn parse_groth_header(bytes: &[u8], o: usize) -> (r: ZacResult<GrothHeader>)
    requires
        o <= bytes.len(),
    ensures
        r == groth_result(bytes@, o as int),
{
    let len = bytes.len();
    let ghost s = bytes@;
    match check_room(len, o, 4, Ghost(s)) {
        Err(e) => {
            return Err(e);
        },
        Ok(()) => {},
    }
    let n8q = read_u32(bytes, o);
    if n8q != 32 {
        return Err(ZacError::BadFlags { offset: o, field: "zkey.n8q", value: n8q as u64 });
    }
    match check_room(len, o + 4, 32, Ghost(s)) {
        Err(e) => {
            return Err(e);
        },
        Ok(()) => {},
    }
    let prime_q: [u8; 32] = copy_array(bytes, o + 4);
    let q: [u8; 32] = BN254_Q_LE;
    if !bytes32_eq(&prime_q, &q) {
        let low = read_u64(bytes, o + 4);
        return Err(ZacError::BadFlags { offset: o + 4, field: "zkey.q", value: low });
    }
    match check_room(len, o + 36, 4, Ghost(s)) {
        Err(e) => {
            return Err(e);
        },
        Ok(()) => {},
    }
    let n8r = read_u32(bytes, o + 36);
    if n8r != 32 {
        return Err(ZacError::BadFlags { offset: o + 36, field: "zkey.n8r", value: n8r as u64 });
    }
    match check_room(len, o + 40, 32, Ghost(s)) {
        Err(e) => {
            return Err(e);
        },
        Ok(()) => {},
    }
    let prime_r: [u8; 32] = copy_array(bytes, o + 40);
    let r: [u8; 32] = BN254_R_LE;
    if !bytes32_eq(&prime_r, &r) {
        let low = read_u64(bytes, o + 40);
        return Err(ZacError::BadFlags { offset: o + 40, field: "zkey.r", value: low });
    }
    match check_room(len, o + 72, 4, Ghost(s)) {
        Err(e) => {
            return Err(e);
        },
        Ok(()) => {},
    }
    let n_vars = read_u32(bytes, o + 72);
    match check_room(len, o + 76, 4, Ghost(s)) {
        Err(e) => {
            return Err(e);
        },
        Ok(()) => {},
    }
    let n_public = read_u32(bytes, o + 76);
    match check_room(len, o + 80, 4, Ghost(s)) {
        Err(e) => {
            return Err(e);
        },
        Ok(()) => {},
    }
    let domain_size = read_u32(bytes, o + 80);
    parse_groth_points(bytes, o + 84, n_vars, n_public, domain_size)
}

/// A parsed snarkjs Groth16 proving key: the verifying key and every
/// proving-key segment.
#[derive(Debug, Clone, PartialEq, Eq)]
pub struct Zkey {
    /// Number of wires, including the constant-one wire.
    pub n_vars: u32,
    /// Number of public inputs and outputs.
    pub n_public: u32,
    /// Evaluation-domain size.
    pub domain_size: u32,
    /// `alpha` in G1.
    pub alpha_g1: G1Point,
    /// `beta` in G1.
    pub beta_g1: G1Point,
    /// `beta` in G2.
    pub beta_g2: G2Point,
    /// `gamma` in G2.
    pub gamma_g2: G2Point,
    /// `delta` in G1.
    pub delta_g1: G1Point,
    /// `delta` in G2.
    pub delta_g2: G2Point,
    /// The IC points, `n_public + 1` of them.
    pub ic: Vec<G1Point>,
    /// Section 0x02 verbatim.
    pub raw_header_groth: Vec<u8>,
    /// Section 0x04, the sparse coefficient table.
    pub coefs: Vec<ZkeyCoef>,
    /// Section 0x05, `n_vars` G1 points.
    pub a_query: Vec<G1Point>,
    /// Section 0x06, `n_vars` G1 points.
    pub b_g1_query: Vec<G1Point>,
    /// Section 0x07, `n_vars` G2 points.
    pub b_g2_query: Vec<G2Point>,
    /// Section 0x08, `n_vars - n_public - 1` G1 points.
    pub c_query: Vec<G1Point>,
    /// Section 0x09, `domain_size` G1 points.
    pub h_query: Vec<G1Point>,
}

/// The mathematical content of a [`Zkey`].
pub struct ZkeyV {
    /// Counts and verifying-key points of section 0x02.
    pub header: GrothHeader,
    /// IC points.
    pub ic: Seq<G1Point>,
    /// Section 0x02 verbatim.
    pub raw_header_groth: Seq<u8>,
    /// Coefficient table.
    pub coefs: Seq<ZkeyCoef>,
    /// Section 0x05.
    pub a_query: Seq<G1Point>,
    /// Section 0x06.
    pub b_g1_query: Seq<G1Point>,
    /// Section 0x07.
    pub b_g2_query: Seq<G2Point>,
    /// Section 0x08.
    pub c_query: Seq<G1Point>,
    /// Section 0x09.
    pub h_query: Seq<G1Point>,
}

impl View for Zkey {
    type V = ZkeyV;

    open spec fn view(&self) -> ZkeyV {
        ZkeyV {
            header: GrothHeader {
                n_vars: self.n_vars,
                n_public: self.n_public,
                domain_size: self.domain_size,
                alpha_g1: self.alpha_g1,
                beta_g1: self.beta_g1,
                beta_g2: self.beta_g2,
                gamma_g2: self.gamma_g2,
                delta_g1: self.delta_g1,
                delta_g2: self.delta_g2,
            },
            ic: self.ic@,
            raw_header_groth: self.raw_header_groth@,
            coefs: self.coefs@,
            a_query: self.a_query@,
            b_g1_query: self.b_g1_query@,
            b_g2_query: self.b_g2_query@,
            c_query: self.c_query@,
            h_query: self.h_query@,
        }
    }
}

/// `"zkey"`.
pub open spec fn magic_zkey() -> Seq<u8> {
    seq![0x7au8, 0x6b, 0x65, 0x79]
}

/// How many C-query points a key with these counts has.
pub open spec fn c_query_len(n_vars: u32, n_public: u32) -> nat {
    if n_vars > n_public + 1 {
        (n_vars - n_public - 1) as nat
    } else {
        0
    }
}

/// What the proving-key sections give once section 0x02 has been read.
pub open spec fn zkey_rest(s: Seq<u8>, refs: Seq<SectionRef>, g: GrothHeader, raw: Seq<u8>) -> Result<
    ZkeyV,
    ZacError,
> {
    match g1_array_result(s, refs, 3, (g.n_public + 1) as nat, "zkey.IC") {
        Err(e) => Err(e),
        Ok(ic) => match coefs_result(s, refs, g.domain_size, g.n_vars) {
            Err(e) => Err(e),
            Ok(coefs) => match g1_array_result(s, refs, 5, g.n_vars as nat, "zkey.points_a") {
                Err(e) => Err(e),
                Ok(a) => match g1_array_result(s, refs, 6, g.n_vars as nat, "zkey.points_b1") {
                    Err(e) => Err(e),
                    Ok(b1) => match g2_array_result(s, refs, 7, g.n_vars as nat, "zkey.points_b2") {
                        Err(e) => Err(e),
                        Ok(b2) => match g1_array_result(
                            s,
                            refs,
                            8,
                            c_query_len(g.n_vars, g.n_public),
                            "zkey.points_c",
                        ) {
                            Err(e) => Err(e),
                            Ok(c) => match g1_array_result(
                                s,
                                refs,
                                9,
                                g.domain_size as nat,
                                "zkey.points_h",
                            ) {
                                Err(e) => Err(e),
                                Ok(h) => Ok(
                                    ZkeyV {
                                        header: g,
                                        ic,
                                        raw_header_groth: raw,
                                        coefs,
                                        a_query: a,
                                        b_g1_query: b1,
                                        b_g2_query: b2,
                                        c_query: c,
                                        h_query: h,
                                    },
                                ),
                            },
                        },
                    },
                },
            },
        },
    }
}

/// What `parse_zkey` returns for the bytes `s`.
pub open spec fn zkey_result(s: Seq<u8>) -> Result<ZkeyV, ZacError> {
    match binfile_result(s, magic_zkey()) {
        Err(e) => Err(e),
        Ok((_, refs)) => match first_with_id(refs, 1, 0) {
            None => Err(ZacError::MissingMandatorySection { missing_type: 0x01, name: "zkey.header" }),
            Some(i1) => if refs[i1].size < 4 {
                Err(
                    ZacError::Truncated {
                        offset: refs[i1].offset,
                        need: 4,
                        have: refs[i1].size as usize,
                    },
                )
            } else if le_u32(s, refs[i1].offset as int) != 1 {
                Err(
                    ZacError::BadFlags {
                        offset: refs[i1].offset,
                        field: "zkey.protocol",
                        value: le_u32(s, refs[i1].offset as int) as u64,
                    },
                )
            } else {
                match first_with_id(refs, 2, 0) {
                    None => Err(
                        ZacError::MissingMandatorySection {
                            missing_type: 0x02,
                            name: "zkey.header_groth",
                        },
                    ),
                    Some(i2) => match groth_result(s, refs[i2].offset as int) {
                        Err(e) => Err(e),
                        Ok(g) => zkey_rest(
                            s,
                            refs,
                            g,
                            s.subrange(
                                refs[i2].offset as int,
                                refs[i2].offset + refs[i2].size,
                            ),
                        ),
                    },
                }
            },
        },
    }
}

/// Parse a snarkjs `.zkey` file: the verifying key (sections 1–3) and every
/// proving-key segment (sections 4–9). Points are checked on the curve and
/// in the subgroup (E010 / E011), field elements below their modulus
/// (E010 for coordinates, E012 for coefficients), and a read past the end
/// of the file is E015.
pub fn parse_zkey(bytes: &[u8]) -> (r: ZacResult<Zkey>)
    ensures
        match r {
            Ok(z) => zkey_result(bytes@) == Ok::<ZkeyV, ZacError>(z@),
            Err(e) => zkey_result(bytes@) == Err::<ZkeyV, ZacError>(e),
        },
{
    let magic: [u8; 4] = [0x7a, 0x6b, 0x65, 0x79];
    assert(magic@ =~= magic_zkey());
    let (_hdr, sects) = match read_binfile_header(bytes, &magic) {
        Ok(x) => x,
        Err(e) => {
            return Err(e);
        },
    };
    let len = bytes.len();
    proof {
        lemma_binfile_refs_in_bounds(bytes@, magic@);
        lemma_first_with_id(sects@, 1, 0);
        lemma_first_with_id(sects@, 2, 0);
    }
    let s1 = match find_section(sects.as_slice(), 1) {
        Some(x) => x,
        None => {
            return Err(ZacError::MissingMandatorySection { missing_type: 0x01, name: "zkey.header" });
        },
    };
    if s1.size < 4 {
        return Err(ZacError::Truncated { offset: s1.offset, need: 4, have: s1.size as usize });
    }
    let proto = read_u32(bytes, s1.offset);
    if proto != 1 {
        return Err(
            ZacError::BadFlags { offset: s1.offset, field: "zkey.protocol", value: proto as u64 },
        );
    }
    let s2 = match find_section(sects.as_slice(), 2) {
        Some(x) => x,
        None => {
            return Err(
                ZacError::MissingMandatorySection { missing_type: 0x02, name: "zkey.header_groth" },
            );
        },
    };
    let g = match parse_groth_header(bytes, s2.offset) {
        Ok(g) => g,
        Err(e) => {
            return Err(e);
        },
    };
    let raw_header_groth = crate::section::bytes_to_vec(
        vstd::slice::slice_subrange(bytes, s2.offset, s2.offset + s2.size as usize),
    );
    let ic = match parse_g1_array(bytes, sects.as_slice(), 3, g.n_public as u64 + 1, "zkey.IC") {
        Ok(v) => v,
        Err(e) => {
            return Err(e);
        },
    };
    let coefs = match parse_coefs(bytes, sects.as_slice(), g.domain_size, g.n_vars) {
        Ok(v) => v,
        Err(e) => {
            return Err(e);
        },
    };
    let a_query = match parse_g1_array(
        bytes,
        sects.as_slice(),
        5,
        g.n_vars as u64,
        "zkey.points_a",
    ) {
        Ok(v) => v,
        Err(e) => {
            return Err(e);
        },
    };
    let b_g1_query = match parse_g1_array(
        bytes,
        sects.as_slice(),
        6,
        g.n_vars as u64,
        "zkey.points_b1",
    ) {
        Ok(v) => v,
        Err(e) => {
            return Err(e);
        },
    };
    let b_g2_query = match parse_g2_array(
        bytes,
        sects.as_slice(),
        7,
        g.n_vars as u64,
        "zkey.points_b2",
    ) {
        Ok(v) => v,
        Err(e) => {
            return Err(e);
        },
    };
    let c_len: u64 = if g.n_vars as u64 > g.n_public as u64 + 1 {
        g.n_vars as u64 - g.n_public as u64 - 1
    } else {
        0
    };
    let c_query = match parse_g1_array(bytes, sects.as_slice(), 8, c_len, "zkey.points_c") {
        Ok(v) => v,
        Err(e) => {
            return Err(e);
        },
    };
    let h_query = match parse_g1_array(
        bytes,
        sects.as_slice(),
        9,
        g.domain_size as u64,
        "zkey.points_h",
    ) {
        Ok(v) => v,
        Err(e) => {
            return Err(e);
        },
    };
    Ok(
        Zkey {
            n_vars: g.n_vars,
            n_public: g.n_public,
            domain_size: g.domain_size,
            alpha_g1: g.alpha_g1,
            beta_g1: g.beta_g1,
            beta_g2: g.beta_g2,
            gamma_g2: g.gamma_g2,
            delta_g1: g.delta_g1,
            delta_g2: g.delta_g2,
            ic,
            raw_header_groth,
            coefs,
            a_query,
            b_g1_query,
            b_g2_query,
            c_query,
            h_query,
        },
    )
}

/// The 32-byte compressed encoding of a G1 point.
pub uninterp spec fn g1_compressed(p: G1Point) -> [u8; 32];

/// The 64-byte compressed encoding of a G2 point.
pub uninterp spec fn g2_compressed(p: G2Point) -> [u8; 64];

/// `CanonicalSerialize::serialize_compressed` of ark-ec on the G1 point with
/// these coordinates, written into 32 bytes; the bytes are named
/// `g1_compressed`.
#[verifier::external_body]
pub(crate) fn compress_g1(p: &G1Point) -> (r: [u8; 32])
    ensures
        r == g1_compressed(*p),
{
    let mut out = [0u8; 32];
    let q = G1Affine { x: Fq::new(BigInt(p.x)), y: Fq::new(BigInt(p.y)), infinity: p.infinity };
    let _ = q.serialize_compressed(&mut out[..]);
    out
}

/// `CanonicalSerialize::serialize_compressed` of ark-ec on the G2 point with
/// these coordinates, written into 64 bytes; the bytes are named
/// `g2_compressed`.
#[verifier::external_body]
pub(crate) fn compress_g2(p: &G2Point) -> (r: [u8; 64])
    ensures
        r == g2_compressed(*p),
{
    let mut out = [0u8; 64];
    let x = Fq2::new(Fq::new(BigInt(p.x_c0)), Fq::new(BigInt(p.x_c1)));
    let y = Fq2::new(Fq::new(BigInt(p.y_c0)), Fq::new(BigInt(p.y_c1)));
    let _ = G2Affine { x, y, infinity: p.infinity }.serialize_compressed(&mut out[..]);
    out
}

/// The bytes of a verifying key in compressed form.
pub uninterp spec fn vk_compressed(v: DecodedVkV) -> Seq<u8>;

/// `CanonicalSerialize::serialize_compressed` of ark-groth16 on the
/// verifying key with these points, written into a fresh vector (which
/// cannot fail); the bytes are named `vk_compressed`.
#[verifier::external_body]
fn compress_vk(v: DecodedVk) -> (r: Vec<u8>)
    ensures
        r@ == vk_compressed(v@),
{
    let f = |l| Fq::new(BigInt(l));
    let g1 = |p: G1Point| G1Affine { x: f(p.x), y: f(p.y), infinity: p.infinity };
    let g2 = |p: G2Point| G2Affine { x: Fq2::new(f(p.x_c0), f(p.x_c1)), y: Fq2::new(f(p.y_c0), f(p.y_c1)), infinity: p.infinity };
    let k = VerifyingKey::<Bn254> { alpha_g1: g1(v.alpha_g1), beta_g2: g2(v.beta_g2), gamma_g2: g2(v.gamma_g2), delta_g2: g2(v.delta_g2), gamma_abc_g1: v.gamma_abc_g1.into_iter().map(g1).collect() };
    let mut out = Vec::new();
    let _ = k.serialize_compressed(&mut out);
    out
}

/// The verifying key of a proving key: `alpha_g1`, `beta_g2`, `gamma_g2`,
/// `delta_g2` and the IC points.
pub open spec fn vk_of(z: ZkeyV) -> DecodedVkV {
    DecodedVkV {
        alpha_g1: z.header.alpha_g1,
        beta_g2: z.header.beta_g2,
        gamma_g2: z.header.gamma_g2,
        delta_g2: z.header.delta_g2,
        gamma_abc_g1: z.ic,
    }
}

/// The compressed verifying key of a proving key.
pub open spec fn vkey_bytes_of(z: ZkeyV) -> Seq<u8> {
    vk_compressed(vk_of(z))
}

/// Serialize the verifying key of a parsed `.zkey` as compressed bytes,
/// ready for a VKEY section (`beta_g1` and `delta_g1` are not part of it).
pub fn vkey_bytes_compressed(zkey: &Zkey) -> (r: Vec<u8>)
    ensures
        r@ == vkey_bytes_of(zkey@),
        r@ == vk_compressed(
            DecodedVkV {
                alpha_g1: zkey.alpha_g1,
                beta_g2: zkey.beta_g2,
                gamma_g2: zkey.gamma_g2,
                delta_g2: zkey.delta_g2,
                gamma_abc_g1: zkey.ic@,
            },
        ),
{
    let mut ic: Vec<G1Point> = Vec::new();
    let mut i: usize = 0;
    while i < zkey.ic.len()
        invariant
            i <= zkey.ic@.len(),
            ic@ == zkey.ic@.subrange(0, i as int),
        decreases zkey.ic@.len() - i,
    {
        ic.push(zkey.ic[i]);
        i = i + 1;
        assert(ic@ =~= zkey.ic@.subrange(0, i as int));
    }
    assert(ic@ =~= zkey.ic@);
    let v = DecodedVk {
        alpha_g1: zkey.alpha_g1,
        beta_g2: zkey.beta_g2,
        gamma_g2: zkey.gamma_g2,
        delta_g2: zkey.delta_g2,
        gamma_abc_g1: ic,
    };
    assert(v@ == vk_of(zkey@));
    compress_vk(v)
}

/// Where the verifying-key points of a `.zkey` start in the file: 84
/// bytes into its (first) section 2, after `n8q`, `q`, `n8r`, `r`, `nVars`,
/// `nPublic` and `domainSize`.
pub open spec fn groth_points_offset(s: Seq<u8>) -> int {
    let refs = binfile_result(s, magic_zkey())->Ok_0.1;
    refs[first_with_id(refs, 2, 0)->0].offset + 84
}

/// Reading the proving-key sections keeps the header read before them.
proof fn lemma_zkey_rest_header(s: Seq<u8>, refs: Seq<SectionRef>, g: GrothHeader, raw: Seq<u8>)
    requires
        zkey_rest(s, refs, g, raw) is Ok,
    ensures
        zkey_rest(s, refs, g, raw)->Ok_0.header == g,
{
}

/// The points section 2 holds, in order and at fixed offsets from `o`.
proof fn lemma_groth_points_at(s: Seq<u8>, o: int)
    requires
        groth_result(s, o) is Ok,
    ensures
        ({
            let g = groth_result(s, o)->Ok_0;
            let p = o + 84;
            &&& g.n_vars == le_u32(s, o + 72)
            &&& g.n_public == le_u32(s, o + 76)
            &&& g.domain_size == le_u32(s, o + 80)
            &&& g.alpha_g1 == snark_g1_result(s.subrange(p, p + 64), p as usize)->Ok_0
            &&& g.beta_g1 == snark_g1_result(s.subrange(p + 64, p + 128), (p + 64) as usize)->Ok_0
            &&& g.beta_g2 == snark_g2_result(s.subrange(p + 128, p + 256), (p + 128) as usize)->Ok_0
            &&& g.gamma_g2 == snark_g2_result(s.subrange(p + 256, p + 384), (p + 256) as usize)->Ok_0
            &&& g.delta_g1 == snark_g1_result(s.subrange(p + 384, p + 448), (p + 384) as usize)->Ok_0
            &&& g.delta_g2 == snark_g2_result(s.subrange(p + 448, p + 576), (p + 448) as usize)->Ok_0
        }),
{
}

/// A parsed `.zkey` holds, in its header, the points section 2 of the file
/// stores in the order `alpha_1, beta_1, beta_2, gamma_2, delta_1, delta_2`
/// (each decoded from its 64- or 128-byte snarkjs encoding at its offset),
/// and the counts stored just before them; its compressed verifying key is
/// the one made of `alpha_1`, `beta_2`, `gamma_2`, `delta_2` and the IC
/// points.
pub proof fn lemma_zkey_points(s: Seq<u8>)
    requires
        zkey_result(s) is Ok,
    ensures
        ({
            let z = zkey_result(s)->Ok_0;
            let p = groth_points_offset(s);
            let alpha_1 = snark_g1_result(s.subrange(p, p + 64), p as usize)->Ok_0;
            let beta_2 = snark_g2_result(s.subrange(p + 128, p + 256), (p + 128) as usize)->Ok_0;
            let gamma_2 = snark_g2_result(s.subrange(p + 256, p + 384), (p + 256) as usize)->Ok_0;
            let delta_2 = snark_g2_result(s.subrange(p + 448, p + 576), (p + 448) as usize)->Ok_0;
            &&& z.header.n_vars == le_u32(s, p - 12)
            &&& z.header.n_public == le_u32(s, p - 8)
            &&& z.header.domain_size == le_u32(s, p - 4)
            &&& z.header.alpha_g1 == alpha_1
            &&& z.header.beta_g1 == snark_g1_result(s.subrange(p + 64, p + 128), (p + 64) as usize)->Ok_0
            &&& z.header.beta_g2 == beta_2
            &&& z.header.gamma_g2 == gamma_2
            &&& z.header.delta_g1 == snark_g1_result(s.subrange(p + 384, p + 448), (p + 384) as usize)->Ok_0
            &&& z.header.delta_g2 == delta_2
            &&& vkey_bytes_of(z) == vk_compressed(
                DecodedVkV {
                    alpha_g1: alpha_1,
                    beta_g2: beta_2,
                    gamma_g2: gamma_2,
                    delta_g2: delta_2,
                    gamma_abc_g1: z.ic,
                },
            )
        }),
{
    let refs = binfile_result(s, magic_zkey())->Ok_0.1;
    let i2 = first_with_id(refs, 2, 0)->0;
    let o = refs[i2].offset as int;
    assert(groth_result(s, o) is Ok);
    let g = groth_result(s, o)->Ok_0;
    lemma_groth_points_at(s, o);
    lemma_zkey_rest_header(s, refs, g, s.subrange(o, o + refs[i2].size));
    lemma_vkey_of_zkey(zkey_result(s)->Ok_0);
}

/// The compressed verifying key of a proving key is the key made of its
/// `alpha_g1`, `beta_g2`, `gamma_g2`, `delta_g2` and IC points, each in its
/// own place.
pub proof fn lemma_vkey_of_zkey(z: ZkeyV)
    ensures
        vkey_bytes_of(z) == vk_compressed(
            DecodedVkV {
                alpha_g1: z.header.alpha_g1,
                beta_g2: z.header.beta_g2,
                gamma_g2: z.header.gamma_g2,
                delta_g2: z.header.delta_g2,
                gamma_abc_g1: z.ic,
            },
        ),
{
}

} // verus!
