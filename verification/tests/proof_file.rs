use zac::zac_proof::{ProofHeader, ZacProofFile};

fn sample(n: usize) -> ZacProofFile {
    ZacProofFile {
        header: ProofHeader {
            version_major: 1,
            version_minor: 0,
            version_patch: 4,
            flags: 0,
            public_input_count: n as u32,
            zac_file_hash: [0x11; 32],
            vk_fingerprint: [0x22; 32],
        },
        proof: [0x33; 128],
        public_inputs: (0..n).map(|i| [i as u8; 32]).collect(),
    }
}

#[test]
fn encode_parse_round_trip() {
    let p = sample(3);
    let bytes = p.encode();
    assert_eq!(bytes.len(), 0xD0 + 3 * 32);
    assert_eq!(&bytes[0..4], b"ZAP1");
    let q = ZacProofFile::parse(&bytes).unwrap();
    assert_eq!(q, p);
    assert_eq!(q.encode(), bytes);
}

#[test]
fn encode_takes_the_count_from_the_inputs() {
    let mut p = sample(2);
    p.header.public_input_count = 9;
    let q = ZacProofFile::parse(&p.encode()).unwrap();
    assert_eq!(q.header.public_input_count, 2);
}

#[test]
fn parse_errors_follow_the_registry() {
    let good = sample(1).encode();
    let mut b = good.clone();
    b[1] = b'X';
    assert_eq!(ZacProofFile::parse(&b).unwrap_err().code(), "E001");
    let mut b = good.clone();
    b[4] = 2;
    assert_eq!(ZacProofFile::parse(&b).unwrap_err().code(), "E002");
    let mut b = good.clone();
    b[7] = 1;
    assert_eq!(ZacProofFile::parse(&b).unwrap_err().code(), "E003");
    let mut b = good.clone();
    b[8..12].copy_from_slice(&4097u32.to_le_bytes());
    assert_eq!(ZacProofFile::parse(&b).unwrap_err().code(), "E013");
    let mut b = good.clone();
    b[12] = 1;
    assert_eq!(ZacProofFile::parse(&b).unwrap_err().code(), "E003");
    assert_eq!(ZacProofFile::parse(&good[..good.len() - 1]).unwrap_err().code(), "E015");
    assert_eq!(ZacProofFile::parse(&good[..100]).unwrap_err().code(), "E015");
}
