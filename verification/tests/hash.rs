use zac::hash::{file_hash, r1cs_hash, vk_fingerprint};

#[test]
fn domain_tags_make_outputs_differ() {
    let same_data = b"\xAA\xAA\xAA";
    assert_ne!(file_hash(&[1, 0, 0, 0], same_data), vk_fingerprint(same_data));
    assert_ne!(vk_fingerprint(same_data), r1cs_hash(same_data));
}

#[test]
fn known_vk_fingerprint_is_stable_under_repeat() {
    let v = vec![0xAAu8; 256];
    let a = vk_fingerprint(&v);
    let b = vk_fingerprint(&v);
    assert_eq!(a, b);
}

#[test]
fn fingerprint_is_blake3_of_tag_and_body() {
    let body = b"some vkey bytes";
    let mut h = blake3::Hasher::new();
    h.update(b"zac1.vkey.v1\0");
    h.update(body);
    assert_eq!(vk_fingerprint(body), *h.finalize().as_bytes());
}

#[test]
fn file_hash_covers_version_then_body() {
    let mut h = blake3::Hasher::new();
    h.update(b"zac1.file.v1\0");
    h.update(&[1, 0, 0, 0]);
    h.update(b"body");
    assert_eq!(file_hash(&[1, 0, 0, 0], b"body"), *h.finalize().as_bytes());
    assert_ne!(file_hash(&[1, 0, 0, 0], b"body"), file_hash(&[1, 0, 0, 1], b"body"));
}
