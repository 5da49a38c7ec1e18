use photo_library::hash::{content_hash, crop_blake_3_hash, crop_digest, HashAlgorithm, BLAKE_3_LEN};
use photo_library::operations::compute_photo_hash;

fn hex(bytes: &[u8]) -> String {
    bytes.iter().map(|b| format!("{b:02x}")).collect()
}

#[test]
fn crop_keeps_leading_half() {
    let mut digest = [0u8; BLAKE_3_LEN];
    for (i, b) in digest.iter_mut().enumerate() {
        *b = i as u8;
    }
    let cropped = crop_blake_3_hash(&digest);
    assert_eq!(cropped, (0u8..16).collect::<Vec<u8>>());
}

#[test]
fn crop_digest_of_longer_input() {
    let digest: Vec<u8> = (100u8..140).collect();
    assert_eq!(crop_digest(&digest), (100u8..116).collect::<Vec<u8>>());
}

#[test]
fn blake3_content_hash_of_empty_input() {
    let h = content_hash(HashAlgorithm::Blake3, b"");
    assert_eq!(hex(&h), "af1349b9f5f9a1a6a0404dea36dcc949");
}

#[test]
fn blake3_content_hash_of_abc() {
    let h = content_hash(HashAlgorithm::Blake3, b"abc");
    assert_eq!(hex(&h), "6437b3ac38465133ffb63b75273a8db5");
    assert_ne!(h, b"abc".to_vec());
}

#[test]
fn sha256_content_hash_of_abc() {
    let h = content_hash(HashAlgorithm::Sha256, b"abc");
    assert_eq!(hex(&h), "ba7816bf8f01cfea414140de5dae2223");
}

#[test]
fn sha256_content_hash_of_empty_input() {
    let h = content_hash(HashAlgorithm::Sha256, b"");
    assert_eq!(hex(&h), "e3b0c44298fc1c149afbf4c8996fb924");
}

#[test]
fn same_bytes_same_hash_different_bytes_different_hash() {
    let a = compute_photo_hash(1, b"same content");
    let b = compute_photo_hash(2, b"same content");
    let c = compute_photo_hash(3, b"other content");
    assert_eq!(a.id, 1);
    assert_eq!(a.hash, b.hash);
    assert_ne!(a.hash, c.hash);
    assert_eq!(a.hash.len(), 16);
}
