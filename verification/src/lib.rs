//! ZAC — a binary container for Groth16 / BN254 verifying keys and proofs.
use vstd::prelude::*;

pub mod cli;
pub mod crc;
pub mod error;
pub mod groth16;
pub mod hash;
pub mod header;
pub mod iden3;
pub mod index;
pub mod section;
pub mod trailer;
pub mod proof_check;
pub mod prover;
pub mod wire;
pub mod zac_file;
pub mod zac_proof;

pub use error::{ZacError, ZacResult};
pub use hash::{file_hash, r1cs_hash, vk_fingerprint};
pub use header::{Header, HEADER_SIZE, MAGIC_ZAC};
pub use iden3::wtns::{parse_wtns, Wtns};
pub use iden3::zkey::{parse_zkey, vkey_bytes_compressed, Zkey};
pub use index::IndexEntry;
pub use proof_check::verify;
pub use section::{InterfaceSection, Section};
pub use trailer::{Trailer, TRAILER_SIZE};
pub use zac_file::ZacFile;
pub use zac_proof::{ProofHeader, ZacProofFile, MAGIC_ZACP, PROOF_PREFIX_SIZE, PROOF_SIZE};

verus! {
} // verus!
