//! The cryptographic primitives, taken from `ring`.

use vstd::prelude::*;

verus! {

/// Length in bytes of the authentication tag that sealing appends.
pub const TAG_LEN: usize = 16;

/// Longest plaintext that ChaCha20-Poly1305 can seal under one nonce.
pub const MAX_SEAL_LEN: u64 = 274_877_906_880;

/// Digest inputs must stay below this many bytes.
pub const MAX_DIGEST_INPUT: u64 = 0x2000_0000_0000_0000;

/// The SHA-256 digest of `data`.
pub uninterp spec fn sha256_digest(data: Seq<u8>) -> Seq<u8>;

/// What ChaCha20-Poly1305 makes of `plaintext` under `key` and `nonce` with
/// no associated data: the ciphertext followed by its tag.
pub uninterp spec fn chacha20_poly1305_sealed(key: Seq<u8>, nonce: Seq<u8>, plaintext: Seq<u8>) -> Seq<u8>;

/// What ChaCha20-Poly1305 recovers from `sealed` under `key` and `nonce` with
/// no associated data, or `None` where the tag does not authenticate it.
pub uninterp spec fn chacha20_poly1305_opened(key: Seq<u8>, nonce: Seq<u8>, sealed: Seq<u8>) -> Option<Seq<u8>>;

/// Calls `ring::digest::digest` with SHA-256. The result is the digest of
/// `data`, always 32 bytes. Inputs of 2^61 bytes or more make `ring` panic
/// and are left out.
#[verifier::external_body]
pub(crate) fn sha256(data: &[u8]) -> (out: [u8; 32])
    requires
        data@.len() < MAX_DIGEST_INPUT,
    ensures
        out@ == sha256_digest(data@),
{
    let digest = ring::digest::digest(&ring::digest::SHA256, data);
    let mut out = [0u8; 32];
    out.copy_from_slice(digest.as_ref());
    out
}

/// Calls `ring::aead::LessSafeKey::seal_in_place_append_tag` with
/// ChaCha20-Poly1305 and no associated data. `ring` refuses plaintexts longer
/// than 274,877,906,880 bytes and nothing else; the result is the ciphertext,
/// as long as the plaintext, followed by a 16-byte tag, and opening it under
/// the same key and nonce gives the plaintext back.
#[verifier::external_body]
pub(crate) fn aead_seal(key: &[u8; 32], nonce: &[u8; 12], plaintext: &[u8]) -> (out: Option<Vec<u8>>)
    ensures
        out is Some <==> plaintext@.len() <= MAX_SEAL_LEN,
        out matches Some(sealed) ==> {
            &&& sealed@ == chacha20_poly1305_sealed(key@, nonce@, plaintext@)
            &&& sealed@.len() == plaintext@.len() + TAG_LEN
            &&& chacha20_poly1305_opened(key@, nonce@, sealed@) == Some(plaintext@)
        },
{
    let unbound = ring::aead::UnboundKey::new(&ring::aead::CHACHA20_POLY1305, key).ok()?;
    let sealing = ring::aead::LessSafeKey::new(unbound);
    let mut buffer = plaintext.to_vec();
    sealing
        .seal_in_place_append_tag(
            ring::aead::Nonce::assume_unique_for_key(*nonce),
            ring::aead::Aad::empty(),
            &mut buffer,
        )
        .ok()?;
    Some(buffer)
}

/// Calls `ring::aead::LessSafeKey::open_in_place` with ChaCha20-Poly1305 and
/// no associated data. The result is the plaintext where the tag
/// authenticates `sealed`, 16 bytes shorter than `sealed`; input shorter than
/// a tag never opens.
#[verifier::external_body]
pub(crate) fn aead_open(key: &[u8; 32], nonce: &[u8; 12], sealed: &[u8]) -> (out: Option<Vec<u8>>)
    ensures
        out is Some <==> chacha20_poly1305_opened(key@, nonce@, sealed@) is Some,
        out matches Some(plaintext) ==> {
            &&& chacha20_poly1305_opened(key@, nonce@, sealed@) == Some(plaintext@)
            &&& plaintext@.len() + TAG_LEN == sealed@.len()
        },
{
    let unbound = ring::aead::UnboundKey::new(&ring::aead::CHACHA20_POLY1305, key).ok()?;
    let opening = ring::aead::LessSafeKey::new(unbound);
    let mut buffer = sealed.to_vec();
    let plaintext = opening
        .open_in_place(
            ring::aead::Nonce::assume_unique_for_key(*nonce),
            ring::aead::Aad::empty(),
            &mut buffer,
        )
        .ok()?;
    Some(plaintext.to_vec())
}

/// Calls `ring::rand::SecureRandom::fill` on a `SystemRandom` for 32 bytes.
/// Nothing is known of the bytes; `None` where the system source fails.
#[verifier::external_body]
pub(crate) fn random_32() -> (out: Option<[u8; 32]>)
{
    let mut bytes = [0u8; 32];
    ring::rand::SecureRandom::fill(&ring::rand::SystemRandom::new(), &mut bytes).ok()?;
    Some(bytes)
}

} // verus!
