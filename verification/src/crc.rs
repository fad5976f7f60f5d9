//! IEEE CRC-32 used for per-section integrity.
use vstd::prelude::*;

verus! {

/// Eight shift-and-conditionally-xor steps of the reflected IEEE CRC-32
/// polynomial `0xEDB88320`, starting from register `c`.
pub open spec fn crc_shift(c: u32, k: nat) -> u32
    decreases k,
{
    if k == 0 {
        c
    } else {
        crc_shift(if c & 1 == 1 { (c >> 1u32) ^ 0xEDB8_8320u32 } else { c >> 1u32 }, (k - 1) as nat)
    }
}

/// The CRC register after absorbing every byte of `s` (initial value all ones).
pub open spec fn crc_register(s: Seq<u8>) -> u32
    decreases s.len(),
{
    if s.len() == 0 {
        0xFFFF_FFFFu32
    } else {
        crc_shift(crc_register(s.drop_last()) ^ (s.last() as u32), 8)
    }
}

/// IEEE CRC-32 (reflected, initial and final xor `0xFFFFFFFF`) of `s`.
pub open spec fn crc32_ieee(s: Seq<u8>) -> u32 {
    crc_register(s) ^ 0xFFFF_FFFFu32
}

/// Compute the IEEE CRC-32 over `bytes`.
///
/// Calls `crc32fast::hash`, which computes the standard IEEE CRC-32
/// (polynomial `0x04C11DB7` in reflected form `0xEDB88320`, initial value
/// and final xor all ones); the contract claims that it returns
/// `crc32_ieee(bytes)`.
#[verifier::external_body]
pub fn crc32(bytes: &[u8]) -> (r: u32)
    ensures
        r == crc32_ieee(bytes@),
{
    crc32fast::hash(bytes)
}

} // verus!
