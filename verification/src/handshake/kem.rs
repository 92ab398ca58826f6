//! The outside primitive ML-KEM-768, on bytes.

use pqcrypto_mlkem::mlkem768;
use pqcrypto_traits::kem::{Ciphertext, PublicKey, SecretKey, SharedSecret};
use vstd::prelude::*;

verus! {

pub const KEM_PUBLIC_LEN: usize = 1184;

pub const KEM_SECRET_LEN: usize = 2400;

pub const KEM_CIPHERTEXT_LEN: usize = 1088;

/// The shared secret that ML-KEM-768 decapsulation of `ciphertext` under
/// `secret` gives.
pub uninterp spec fn decapsulated(secret: Seq<u8>, ciphertext: Seq<u8>) -> Seq<u8>;

/// To encapsulate for `public` may give this ciphertext and this shared secret.
pub uninterp spec fn encapsulates(public: Seq<u8>, ciphertext: Seq<u8>, shared: Seq<u8>) -> bool;

/// The public key that a secret key holds, behind the 1152 bytes of the
/// encryption key.
pub open spec fn public_part(secret: Seq<u8>) -> Seq<u8> {
    secret.subrange(1152, 1152 + KEM_PUBLIC_LEN)
}

/// `pqcrypto_mlkem::mlkem768::keypair`: a fresh key pair, public key first. The
/// secret key holds the public key.
#[verifier::external_body]
pub(crate) fn generate_pair() -> (pair: (Vec<u8>, Vec<u8>))
    ensures
        pair.0@.len() == KEM_PUBLIC_LEN,
        pair.1@.len() == KEM_SECRET_LEN,
        pair.0@ == public_part(pair.1@),
{
    let (public, secret) = mlkem768::keypair();
    (public.as_bytes().to_vec(), secret.as_bytes().to_vec())
}

/// `pqcrypto_mlkem::mlkem768::encapsulate`: a ciphertext for the holder of the
/// secret key, and the secret that it carries. Both are random: one of the
/// outcomes that are possible for the key. That decapsulation gives the secret
/// back is not claimed, since ML-KEM fails to on a negligible part of outcomes.
#[verifier::external_body]
pub(crate) fn encapsulate(public: &[u8]) -> (r: (Vec<u8>, [u8; 32]))
    requires
        public@.len() == KEM_PUBLIC_LEN,
    ensures
        r.0@.len() == KEM_CIPHERTEXT_LEN,
        encapsulates(public@, r.0@, r.1@),
{
    let key = mlkem768::PublicKey::from_bytes(public).expect("public key of the right length");
    let (shared, ciphertext) = mlkem768::encapsulate(&key);
    let shared = shared.as_bytes().try_into().expect("shared secret of 32 bytes");
    (ciphertext.as_bytes().to_vec(), shared)
}

/// `pqcrypto_mlkem::mlkem768::decapsulate`: the shared secret, a function of
/// secret key and ciphertext. An invalid ciphertext gives a secret too.
#[verifier::external_body]
pub(crate) fn decapsulate(secret: &[u8], ciphertext: &[u8]) -> (shared: [u8; 32])
    requires
        secret@.len() == KEM_SECRET_LEN,
        ciphertext@.len() == KEM_CIPHERTEXT_LEN,
    ensures
        shared@ == decapsulated(secret@, ciphertext@),
{
    let key = mlkem768::SecretKey::from_bytes(secret).expect("secret key of the right length");
    let text = mlkem768::Ciphertext::from_bytes(ciphertext).expect("text of the right length");
    mlkem768::decapsulate(&text, &key).as_bytes().try_into().expect("secret of 32 bytes")
}

} // verus!
