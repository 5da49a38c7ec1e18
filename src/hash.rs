//! Content hashing: a truncated digest of a file's bytes, used to recognise
//! duplicates inside one library.
use vstd::prelude::*;

verus! {

/// Length in bytes of a full BLAKE3 (and SHA-256) digest.
pub const BLAKE_3_LEN: usize = 32;

/// Length in bytes of the stored content hash: the leading half of a digest.
pub const CONTENT_HASH_LEN: usize = 16;

/// The 32-byte BLAKE3 digest of a byte string.
pub uninterp spec fn blake3_of(data: Seq<u8>) -> Seq<u8>;

/// The 32-byte SHA-256 digest of a byte string.
pub uninterp spec fn sha256_of(data: Seq<u8>) -> Seq<u8>;

/// The leading `CONTENT_HASH_LEN` bytes of a digest.
pub open spec fn cropped(digest: Seq<u8>) -> Seq<u8> {
    digest.subrange(0, CONTENT_HASH_LEN as int)
}

/// Which digest a library generation uses for its content hashes.
#[derive(Clone, Copy, Debug, PartialEq, Eq, Structural)]
pub enum HashAlgorithm {
    Blake3,
    Sha256,
}

/// The stored content hash of `data` under `alg`.
pub open spec fn content_hash_of(alg: HashAlgorithm, data: Seq<u8>) -> Seq<u8> {
    match alg {
        HashAlgorithm::Blake3 => cropped(blake3_of(data)),
        HashAlgorithm::Sha256 => cropped(sha256_of(data)),
    }
}

/// Relies on blake3::hash: the digest of `data`, which depends on the bytes alone.
#[verifier::external_body]
fn blake3_digest(data: &[u8]) -> (r: [u8; BLAKE_3_LEN])
    ensures
        r@ == blake3_of(data@),
{
    *blake3::hash(data).as_bytes()
}

/// Relies on sha2's `Digest::digest` for `Sha256`: the 32-byte digest of `data`,
/// which depends on the bytes alone.
#[verifier::external_body]
fn sha256_digest(data: &[u8]) -> (r: Vec<u8>)
    ensures
        r@ == sha256_of(data@),
        r@.len() == 32,
{
    <sha2::Sha256 as sha2::Digest>::digest(data).to_vec()
}

/// Keeps the leading half of a BLAKE3 digest.
pub fn crop_blake_3_hash(hash: &[u8; BLAKE_3_LEN]) -> (r: Vec<u8>)
    ensures
        r@ == cropped(hash@),
{
    crop_digest(hash.as_slice())
}

/// Keeps the leading `CONTENT_HASH_LEN` bytes of a digest.
pub fn crop_digest(digest: &[u8]) -> (r: Vec<u8>)
    requires
        digest@.len() >= CONTENT_HASH_LEN,
    ensures
        r@ == cropped(digest@),
{
    let mut r: Vec<u8> = Vec::new();
    let mut i: usize = 0;
    while i < CONTENT_HASH_LEN
        invariant
            i <= CONTENT_HASH_LEN,
            digest@.len() >= CONTENT_HASH_LEN,
            r@ == digest@.subrange(0, i as int),
        decreases CONTENT_HASH_LEN - i,
    {
        r.push(digest[i]);
        i = i + 1;
    }
    r
}

/// The content hash of `data` under `alg`.
pub fn content_hash(alg: HashAlgorithm, data: &[u8]) -> (r: Vec<u8>)
    ensures
        r@ == content_hash_of(alg, data@),
        r@.len() == CONTENT_HASH_LEN,
{
    match alg {
        HashAlgorithm::Blake3 => {
            let digest = blake3_digest(data);
            crop_blake_3_hash(&digest)
        },
        HashAlgorithm::Sha256 => {
            let digest = sha256_digest(data);
            crop_digest(digest.as_slice())
        },
    }
}

} // verus!
