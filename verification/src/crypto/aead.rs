//! The outside primitives: ChaCha20-Poly1305 and the BLAKE3 key derivation.

use chacha20poly1305::{AeadInPlace, ChaCha20Poly1305, KeyInit};
use vstd::prelude::*;

verus! {

/// Length of an authentication tag.
pub const TAG_LEN: usize = 16;

/// Longest text that [`seal`] takes, far below what the cipher can process.
pub const SEAL_LIMIT: usize = 0x7FFF_FFFF;

/// What ChaCha20-Poly1305 encryption of `plain` under `key`, `nonce` and the
/// associated data `aad` gives: the ciphertext, then the tag.
pub uninterp spec fn sealed(key: Seq<u8>, nonce: Seq<u8>, aad: Seq<u8>, plain: Seq<u8>) -> Seq<u8>;

/// What ChaCha20-Poly1305 decryption of `text` (ciphertext, then tag) gives:
/// the plain text, or nothing where the tag does not authenticate it.
pub uninterp spec fn opened(key: Seq<u8>, nonce: Seq<u8>, aad: Seq<u8>, text: Seq<u8>) -> Option<
    Seq<u8>,
>;

/// The key that BLAKE3 derives from `material` in the given context.
pub uninterp spec fn derived_key(context: Seq<char>, material: Seq<u8>) -> Seq<u8>;

/// `chacha20poly1305::AeadInPlace::encrypt_in_place` of `ChaCha20Poly1305`: it
/// encrypts the text and appends a tag of 16 bytes. Texts of this size never
/// fail, and decryption gives them back.
#[verifier::external_body]
pub(crate) fn seal(key: &[u8; 32], nonce: &[u8; 12], aad: &[u8], plain: &[u8]) -> (text: Vec<u8>)
    requires
        plain@.len() <= SEAL_LIMIT,
    ensures
        text@ == sealed(key@, nonce@, aad@, plain@),
        text@.len() == plain@.len() + TAG_LEN,
        opened(key@, nonce@, aad@, text@) == Some(plain@),
{
    let mut text = plain.to_vec();
    ChaCha20Poly1305::new(key.into())
        .encrypt_in_place(nonce.into(), aad, &mut text)
        .expect("text within the limit of the cipher");
    text
}

/// `chacha20poly1305::AeadInPlace::decrypt_in_place` of `ChaCha20Poly1305`: it
/// gives a plain text only for what encryption of that plain text under the
/// same key, nonce and associated data gives.
#[verifier::external_body]
pub(crate) fn open(key: &[u8; 32], nonce: &[u8; 12], aad: &[u8], text: &[u8]) -> (plain: Option<
    Vec<u8>,
>)
    requires
        text@.len() <= SEAL_LIMIT + TAG_LEN,
    ensures
        match plain {
            Some(plain) => {
                &&& opened(key@, nonce@, aad@, text@) == Some(plain@)
                &&& text@ == sealed(key@, nonce@, aad@, plain@)
                &&& text@.len() == plain@.len() + TAG_LEN
            },
            None => opened(key@, nonce@, aad@, text@) is None,
        },
{
    let mut plain = text.to_vec();
    ChaCha20Poly1305::new(key.into())
        .decrypt_in_place(nonce.into(), aad, &mut plain)
        .ok()
        .map(|_| plain)
}

/// `blake3::derive_key`: a key of 32 bytes that depends on the context and the
/// key material alone.
#[verifier::external_body]
pub(crate) fn derive_key(context: &str, material: &[u8]) -> (key: [u8; 32])
    ensures
        key@ == derived_key(context@, material@),
{
    blake3::derive_key(context, material)
}

/// The BLAKE3 hash of `input` under `key`.
pub uninterp spec fn keyed_hash_of(key: Seq<u8>, input: Seq<u8>) -> Seq<u8>;

/// `blake3::keyed_hash`: a hash of 32 bytes that depends on key and input alone.
#[verifier::external_body]
pub(crate) fn keyed_hash(key: &[u8; 32], input: &[u8]) -> (hash: [u8; 32])
    ensures
        hash@ == keyed_hash_of(key@, input@),
{
    *blake3::keyed_hash(key, input).as_bytes()
}

} // verus!
