//! Error taxonomy: one variant per registry code `E001..E018`.
//!
//! Every variant carries enough context (offset, entry index, field name) for
//! a hex dump plus the error to pinpoint the failure. [`ZacError::code`]
//! gives the registry code; [`ZacError::from_e_code`] maps a code back to a
//! representative variant.
use vstd::prelude::*;

verus! {

/// Result alias used throughout the crate.
pub type ZacResult<T> = Result<T, ZacError>;

/// Top-level error variants.
#[derive(Debug)]
pub enum ZacError {
    /// Host I/O failure (no registry code; reported as `E000`).
    Io(String),
    /// E001: magic bytes did not match.
    BadMagic {
        /// Offset where the magic was read.
        offset: usize,
        /// Magic the parser was looking for.
        expected: &'static str,
        /// The four bytes actually found.
        got: [u8; 4],
    },
    /// E002: `version_major` is not 1.
    UnsupportedVersion {
        /// Offset of the version_major field.
        offset: usize,
        /// Major version byte.
        major: u8,
        /// Minor version byte.
        minor: u8,
        /// Patch version byte.
        patch: u8,
    },
    /// E003: non-zero flags, non-zero reserved bytes, or an out-of-range field.
    BadFlags {
        /// Offset of the offending field.
        offset: usize,
        /// Name of the field.
        field: &'static str,
        /// Observed value.
        value: u64,
    },
    /// E004: misaligned offset, non-zero padding, or a size that does not
    /// fit the layout.
    BadAlignment {
        /// Offset of the misaligned field or padding byte.
        offset: usize,
        /// Cause.
        reason: &'static str,
    },
    /// E005: index entries overlap or are not strictly increasing.
    SectionOverlap {
        /// Index entry that triggered the violation.
        entry_index: usize,
        /// `offset[i] + size[i]`.
        this_end: u64,
        /// `offset[i+1]` (or the end of the body region).
        next_offset: u64,
    },
    /// E006: the same section type appears twice.
    DuplicateSectionType {
        /// Index entry where the duplicate appeared.
        entry_index: usize,
        /// The duplicated type byte.
        section_type: u8,
    },
    /// E007: forbidden or reserved section type.
    ForbiddenSectionType {
        /// Index entry.
        entry_index: usize,
        /// The forbidden type byte.
        section_type: u8,
    },
    /// E008: section CRC-32 mismatch.
    BadCrc32 {
        /// Index entry whose body failed the check.
        entry_index: usize,
        /// Section type byte.
        section_type: u8,
        /// CRC-32 recorded in the index.
        expected: u32,
        /// CRC-32 recomputed over the body.
        got: u32,
    },
    /// E009: a file hash did not match.
    BadFileHash {
        /// Hash recorded in the trailer.
        trailer: [u8; 32],
        /// Hash it was compared against.
        computed: [u8; 32],
    },
    /// E010: group element non-canonical, off-curve or badly flagged.
    NonCanonicalPoint {
        /// Offset of the point.
        offset: usize,
        /// Cause.
        reason: &'static str,
    },
    /// E011: group element outside the prime-order subgroup.
    SubgroupCheckFailed {
        /// Offset of the point.
        offset: usize,
    },
    /// E012: field element not below the modulus.
    NonCanonicalFr {
        /// Offset of the scalar.
        offset: usize,
        /// Index of the public input.
        input_index: usize,
    },
    /// E013: public-input count mismatch or count above 4096.
    PublicInputCountMismatch {
        /// Offset of the count.
        offset: usize,
        /// Count declared.
        declared: u64,
        /// Count expected.
        expected: u64,
    },
    /// E014: the proof's `vk_fingerprint` does not match the VKEY section.
    VkFingerprintMismatch,
    /// E015: input ended before a demanded read.
    Truncated {
        /// Offset where the read began.
        offset: usize,
        /// Bytes demanded.
        need: usize,
        /// Bytes present.
        have: usize,
    },
    /// E016: a mandatory section is missing.
    MissingMandatorySection {
        /// Type byte that should have been present.
        missing_type: u8,
        /// Its name.
        name: &'static str,
    },
    /// E017: structurally valid proof that fails the pairing equation.
    ProofRejected {
        /// Cause.
        reason: &'static str,
    },
    /// E018: the point at infinity at a position where it is forbidden.
    IdentityNotAllowed {
        /// Offset of the point.
        offset: usize,
        /// Which element.
        what: &'static str,
    },
}

/// The registry number of an error (`0` for `Io`).
pub open spec fn code_num(e: ZacError) -> nat {
    match e {
        ZacError::Io(_) => 0,
        ZacError::BadMagic { .. } => 1,
        ZacError::UnsupportedVersion { .. } => 2,
        ZacError::BadFlags { .. } => 3,
        ZacError::BadAlignment { .. } => 4,
        ZacError::SectionOverlap { .. } => 5,
        ZacError::DuplicateSectionType { .. } => 6,
        ZacError::ForbiddenSectionType { .. } => 7,
        ZacError::BadCrc32 { .. } => 8,
        ZacError::BadFileHash { .. } => 9,
        ZacError::NonCanonicalPoint { .. } => 10,
        ZacError::SubgroupCheckFailed { .. } => 11,
        ZacError::NonCanonicalFr { .. } => 12,
        ZacError::PublicInputCountMismatch { .. } => 13,
        ZacError::VkFingerprintMismatch => 14,
        ZacError::Truncated { .. } => 15,
        ZacError::MissingMandatorySection { .. } => 16,
        ZacError::ProofRejected { .. } => 17,
        ZacError::IdentityNotAllowed { .. } => 18,
    }
}

/// The decimal digit character for `d < 10`.
pub open spec fn digit_char(d: nat) -> char {
    if d == 0 {
        '0'
    } else if d == 1 {
        '1'
    } else if d == 2 {
        '2'
    } else if d == 3 {
        '3'
    } else if d == 4 {
        '4'
    } else if d == 5 {
        '5'
    } else if d == 6 {
        '6'
    } else if d == 7 {
        '7'
    } else if d == 8 {
        '8'
    } else {
        '9'
    }
}

/// The value of a decimal digit character, if it is one.
pub open spec fn digit_value(c: char) -> Option<nat> {
    if c == '0' {
        Some(0)
    } else if c == '1' {
        Some(1)
    } else if c == '2' {
        Some(2)
    } else if c == '3' {
        Some(3)
    } else if c == '4' {
        Some(4)
    } else if c == '5' {
        Some(5)
    } else if c == '6' {
        Some(6)
    } else if c == '7' {
        Some(7)
    } else if c == '8' {
        Some(8)
    } else if c == '9' {
        Some(9)
    } else {
        None
    }
}

/// The registry code text `E###` of number `n < 1000`.
pub open spec fn code_text(n: nat) -> Seq<char> {
    seq!['E', digit_char(n / 100), digit_char((n / 10) % 10), digit_char(n % 10)]
}

/// The all-zero 32-byte hash.
pub open spec fn zero_hash_spec() -> [u8; 32] {
    choose|a: [u8; 32]| a@ == Seq::new(32, |i: int| 0u8)
}

/// The all-zero 32-byte hash.
pub fn zero_hash() -> (r: [u8; 32])
    ensures
        r == zero_hash_spec(),
{
    let r = [0u8; 32];
    assert(r@ =~= Seq::new(32, |i: int| 0u8));
    proof {
        let a = zero_hash_spec();
        assert(a@ == r@);
        vstd::array::axiom_array_ext_equal(a, r);
    }
    r
}

/// A representative error for registry number `n` (placeholder payload).
pub open spec fn placeholder(n: nat) -> ZacError {
    if n == 1 {
        ZacError::BadMagic { offset: 0, expected: "ZAC1", got: [0u8, 0u8, 0u8, 0u8] }
    } else if n == 2 {
        ZacError::UnsupportedVersion { offset: 4, major: 0, minor: 0, patch: 0 }
    } else if n == 3 {
        ZacError::BadFlags { offset: 7, field: "flags", value: 0 }
    } else if n == 4 {
        ZacError::BadAlignment { offset: 0, reason: "placeholder" }
    } else if n == 5 {
        ZacError::SectionOverlap { entry_index: 0, this_end: 0, next_offset: 0 }
    } else if n == 6 {
        ZacError::DuplicateSectionType { entry_index: 0, section_type: 0 }
    } else if n == 7 {
        ZacError::ForbiddenSectionType { entry_index: 0, section_type: 0 }
    } else if n == 8 {
        ZacError::BadCrc32 { entry_index: 0, section_type: 0, expected: 0, got: 0 }
    } else if n == 9 {
        ZacError::BadFileHash { trailer: zero_hash_spec(), computed: zero_hash_spec() }
    } else if n == 10 {
        ZacError::NonCanonicalPoint { offset: 0, reason: "placeholder" }
    } else if n == 11 {
        ZacError::SubgroupCheckFailed { offset: 0 }
    } else if n == 12 {
        ZacError::NonCanonicalFr { offset: 0, input_index: 0 }
    } else if n == 13 {
        ZacError::PublicInputCountMismatch { offset: 0, declared: 0, expected: 0 }
    } else if n == 14 {
        ZacError::VkFingerprintMismatch
    } else if n == 15 {
        ZacError::Truncated { offset: 0, need: 0, have: 0 }
    } else if n == 16 {
        ZacError::MissingMandatorySection { missing_type: 0, name: "placeholder" }
    } else if n == 17 {
        ZacError::ProofRejected { reason: "placeholder" }
    } else {
        ZacError::IdentityNotAllowed { offset: 0, what: "placeholder" }
    }
}

/// The registry number named by a code text, if it names one of `E001..E018`.
pub open spec fn code_number_of(s: Seq<char>) -> Option<nat> {
    if s.len() == 4 && s[0] == 'E' && s[1] == '0' && digit_value(s[2]) is Some && digit_value(
        s[3],
    ) is Some {
        let n = digit_value(s[2]).unwrap() * 10 + digit_value(s[3]).unwrap();
        if 1 <= n <= 18 {
            Some(n)
        } else {
            None
        }
    } else {
        None
    }
}

/// The representative error for a code text (`None` for unknown codes).
pub open spec fn error_for_code(s: Seq<char>) -> Option<ZacError> {
    match code_number_of(s) {
        Some(n) => Some(placeholder(n)),
        None => None,
    }
}

impl ZacError {
    /// The registry code (`"E001".."E018"`, `"E000"` for `Io`).
    pub fn code(&self) -> (r: &'static str)
        ensures
            r@ == code_text(code_num(*self)),
    {
        proof {
            reveal_strlit("E000");
            reveal_strlit("E001");
            reveal_strlit("E002");
            reveal_strlit("E003");
            reveal_strlit("E004");
            reveal_strlit("E005");
            reveal_strlit("E006");
            reveal_strlit("E007");
            reveal_strlit("E008");
            reveal_strlit("E009");
            reveal_strlit("E010");
            reveal_strlit("E011");
            reveal_strlit("E012");
            reveal_strlit("E013");
            reveal_strlit("E014");
            reveal_strlit("E015");
            reveal_strlit("E016");
            reveal_strlit("E017");
            reveal_strlit("E018");
        }
        let r = match self {
            ZacError::Io(_) => "E000",
            ZacError::BadMagic { .. } => "E001",
            ZacError::UnsupportedVersion { .. } => "E002",
            ZacError::BadFlags { .. } => "E003",
            ZacError::BadAlignment { .. } => "E004",
            ZacError::SectionOverlap { .. } => "E005",
            ZacError::DuplicateSectionType { .. } => "E006",
            ZacError::ForbiddenSectionType { .. } => "E007",
            ZacError::BadCrc32 { .. } => "E008",
            ZacError::BadFileHash { .. } => "E009",
            ZacError::NonCanonicalPoint { .. } => "E010",
            ZacError::SubgroupCheckFailed { .. } => "E011",
            ZacError::NonCanonicalFr { .. } => "E012",
            ZacError::PublicInputCountMismatch { .. } => "E013",
            ZacError::VkFingerprintMismatch => "E014",
            ZacError::Truncated { .. } => "E015",
            ZacError::MissingMandatorySection { .. } => "E016",
            ZacError::ProofRejected { .. } => "E017",
            ZacError::IdentityNotAllowed { .. } => "E018",
        };
        assert(r@ =~= code_text(code_num(*self)));
        r
    }

    /// Map a registry code back to a representative variant (placeholder
    /// payload; only the discriminant is meaningful). `None` for any text
    /// that is not one of `E001..E018`.
    pub fn from_e_code(code: &str) -> (r: Option<ZacError>)
        ensures
            r == error_for_code(code@),
    {
        if code.unicode_len() != 4 {
            return None;
        }
        let c0 = code.get_char(0);
        let c1 = code.get_char(1);
        let c2 = code.get_char(2);
        let c3 = code.get_char(3);
        if c0 != 'E' || c1 != '0' {
            return None;
        }
        let tens: u8 = match c2 {
            '0' => 0,
            '1' => 1,
            '2' => 2,
            '3' => 3,
            '4' => 4,
            '5' => 5,
            '6' => 6,
            '7' => 7,
            '8' => 8,
            '9' => 9,
            _ => {
                return None;
            },
        };
        let ones: u8 = match c3 {
            '0' => 0,
            '1' => 1,
            '2' => 2,
            '3' => 3,
            '4' => 4,
            '5' => 5,
            '6' => 6,
            '7' => 7,
            '8' => 8,
            '9' => 9,
            _ => {
                return None;
            },
        };
        let n: u8 = tens * 10 + ones;
        assert(code_number_of(code@) == if 1 <= n <= 18 {
            Some(n as nat)
        } else {
            None::<nat>
        });
        if n == 1 {
            Some(ZacError::BadMagic { offset: 0, expected: "ZAC1", got: [0u8, 0u8, 0u8, 0u8] })
        } else if n == 2 {
            Some(ZacError::UnsupportedVersion { offset: 4, major: 0, minor: 0, patch: 0 })
        } else if n == 3 {
            Some(ZacError::BadFlags { offset: 7, field: "flags", value: 0 })
        } else if n == 4 {
            Some(ZacError::BadAlignment { offset: 0, reason: "placeholder" })
        } else if n == 5 {
            Some(ZacError::SectionOverlap { entry_index: 0, this_end: 0, next_offset: 0 })
        } else if n == 6 {
            Some(ZacError::DuplicateSectionType { entry_index: 0, section_type: 0 })
        } else if n == 7 {
            Some(ZacError::ForbiddenSectionType { entry_index: 0, section_type: 0 })
        } else if n == 8 {
            Some(ZacError::BadCrc32 { entry_index: 0, section_type: 0, expected: 0, got: 0 })
        } else if n == 9 {
            Some(ZacError::BadFileHash { trailer: zero_hash(), computed: zero_hash() })
        } else if n == 10 {
            Some(ZacError::NonCanonicalPoint { offset: 0, reason: "placeholder" })
        } else if n == 11 {
            Some(ZacError::SubgroupCheckFailed { offset: 0 })
        } else if n == 12 {
            Some(ZacError::NonCanonicalFr { offset: 0, input_index: 0 })
        } else if n == 13 {
            Some(ZacError::PublicInputCountMismatch { offset: 0, declared: 0, expected: 0 })
        } else if n == 14 {
            Some(ZacError::VkFingerprintMismatch)
        } else if n == 15 {
            Some(ZacError::Truncated { offset: 0, need: 0, have: 0 })
        } else if n == 16 {
            Some(ZacError::MissingMandatorySection { missing_type: 0, name: "placeholder" })
        } else if n == 17 {
            Some(ZacError::ProofRejected { reason: "placeholder" })
        } else if n == 18 {
            Some(ZacError::IdentityNotAllowed { offset: 0, what: "placeholder" })
        } else {
            None
        }
    }
}

/// Every registry error's code text maps back, through `from_e_code`, to a
/// variant carrying the same code; the code text names exactly that
/// number.
pub proof fn lemma_code_round_trip(e: ZacError)
    requires
        !(e is Io),
    ensures
        code_number_of(code_text(code_num(e))) == Some(code_num(e)),
        error_for_code(code_text(code_num(e))) matches Some(e2) && code_num(e2) == code_num(e),
{
    let n = code_num(e);
    assert(1 <= n <= 18);
    let t = code_text(n);
    assert(n / 100 == 0);
    assert(digit_value(t[2]) == Some((n / 10) % 10));
    assert(digit_value(t[3]) == Some(n % 10));
    assert(((n / 10) % 10) * 10 + n % 10 == n);
}

/// Distinct registry numbers have distinct code texts.
pub proof fn lemma_code_text_injective(m: nat, n: nat)
    requires
        m < 1000,
        n < 1000,
        code_text(m) == code_text(n),
    ensures
        m == n,
{
    let tm = code_text(m);
    let tn = code_text(n);
    assert(tm[1] == tn[1] && tm[2] == tn[2] && tm[3] == tn[3]);
    assert(digit_value(tm[1]) == Some(m / 100));
    assert(digit_value(tn[1]) == Some(n / 100));
    assert(digit_value(tm[2]) == Some((m / 10) % 10));
    assert(digit_value(tn[2]) == Some((n / 10) % 10));
    assert(digit_value(tm[3]) == Some(m % 10));
    assert(digit_value(tn[3]) == Some(n % 10));
    assert(m == (m / 100) * 100 + ((m / 10) % 10) * 10 + m % 10);
    assert(n == (n / 100) * 100 + ((n / 10) % 10) * 10 + n % 10);
}

} // verus!
