//! Long-term identities and the hybrid shared secret.

use crate::crypto::keys::{array_32_at, PacketKeys};
use crate::handshake::kem::{
    decapsulate, decapsulated, encapsulate, encapsulates, generate_pair, public_part,
    KEM_CIPHERTEXT_LEN, KEM_PUBLIC_LEN, KEM_SECRET_LEN,
};
use crate::handshake::noise::{generate_x25519, x25519_public_of};
use crate::wire::bytes_at;
use vstd::prelude::*;
use vstd::slice::slice_to_vec;

verus! {

/// Length of a serialised [`IdentityKeypair`].
pub const IDENTITY_LEN: usize = 3648;

/// An X25519 key, secret or public.
#[derive(Clone, Copy)]
pub struct X25519Key {
    key: [u8; 32],
}

impl View for X25519Key {
    type V = Seq<u8>;

    closed spec fn view(&self) -> Seq<u8> {
        self.key@
    }
}

impl X25519Key {
    pub fn from_bytes(key: [u8; 32]) -> (k: Self)
        ensures
            k@ == key@,
    {
        X25519Key { key }
    }

    pub fn to_bytes(&self) -> (key: [u8; 32])
        ensures
            key@ == self@,
    {
        self.key
    }

    pub fn as_bytes(&self) -> (key: &[u8; 32])
        ensures
            key@ == self@,
    {
        &self.key
    }
}

/// An X25519 key has 32 bytes.
pub proof fn x25519_key_len(k: X25519Key)
    ensures
        k@.len() == 32,
{
}

/// An ML-KEM-768 public key.
pub struct KemPublicKey {
    key: Vec<u8>,
}

/// An ML-KEM-768 secret key.
pub struct KemSecretKey {
    key: Vec<u8>,
}

impl View for KemPublicKey {
    type V = Seq<u8>;

    closed spec fn view(&self) -> Seq<u8> {
        self.key@
    }
}

impl View for KemSecretKey {
    type V = Seq<u8>;

    closed spec fn view(&self) -> Seq<u8> {
        self.key@
    }
}

impl KemPublicKey {
    #[verifier::type_invariant]
    spec fn has_length(self) -> bool {
        self.key@.len() == KEM_PUBLIC_LEN
    }

    /// The same key once more.
    pub fn duplicate(&self) -> (copy: KemPublicKey)
        ensures
            copy@ == self@,
    {
        proof {
            use_type_invariant(self);
        }
        KemPublicKey { key: slice_to_vec(self.key.as_slice()) }
    }
}

impl KemSecretKey {
    #[verifier::type_invariant]
    spec fn has_length(self) -> bool {
        self.key@.len() == KEM_SECRET_LEN
    }
}

/// The bytes of a public key.
pub fn pk_to_bytes(pk: &KemPublicKey) -> (out: Vec<u8>)
    ensures
        out@ == pk@,
        out@.len() == KEM_PUBLIC_LEN,
{
    proof {
        use_type_invariant(pk);
    }
    slice_to_vec(pk.key.as_slice())
}

/// The public key with the given bytes; nothing if they are too many or too few.
pub fn pk_from_bytes(buf: &[u8]) -> (pk: Option<KemPublicKey>)
    ensures
        match pk {
            Some(pk) => pk@ == buf@ && buf@.len() == KEM_PUBLIC_LEN,
            None => buf@.len() != KEM_PUBLIC_LEN,
        },
{
    if buf.len() != KEM_PUBLIC_LEN {
        return None;
    }
    Some(KemPublicKey { key: slice_to_vec(buf) })
}

/// Encapsulate a fresh secret for the holder of the key: ciphertext and secret.
pub fn kem_encapsulate(pk: &KemPublicKey) -> (r: (Vec<u8>, [u8; 32]))
    ensures
        r.0@.len() == KEM_CIPHERTEXT_LEN,
        encapsulates(pk@, r.0@, r.1@),
{
    proof {
        use_type_invariant(pk);
    }
    encapsulate(pk.key.as_slice())
}

/// The secret that a ciphertext carries; nothing if it has the wrong length.
pub fn kem_decapsulate(sk: &KemSecretKey, ciphertext: &[u8]) -> (r: Option<[u8; 32]>)
    ensures
        match r {
            Some(shared) => {
                &&& ciphertext@.len() == KEM_CIPHERTEXT_LEN
                &&& shared@ == decapsulated(sk@, ciphertext@)
            },
            None => ciphertext@.len() != KEM_CIPHERTEXT_LEN,
        },
{
    proof {
        use_type_invariant(sk);
    }
    if ciphertext.len() != KEM_CIPHERTEXT_LEN {
        return None;
    }
    Some(decapsulate(sk.key.as_slice(), ciphertext))
}

/// A long-term identity: an X25519 and an ML-KEM-768 key pair.
pub struct IdentityKeypair {
    pub x25519_secret: X25519Key,
    pub x25519_public: X25519Key,
    pub kem_pk: KemPublicKey,
    pub kem_sk: KemSecretKey,
}

impl IdentityKeypair {
    /// The four keys, one after the other.
    pub open spec fn encoding(self) -> Seq<u8> {
        self.x25519_secret@ + self.x25519_public@ + self.kem_pk@ + self.kem_sk@
    }

    /// The public keys are those of the secret keys.
    pub open spec fn is_paired(self) -> bool {
        &&& self.x25519_public@ == x25519_public_of(self.x25519_secret@)
        &&& self.kem_pk@ == public_part(self.kem_sk@)
    }

    /// A fresh identity.
    pub fn generate() -> (id: Self)
        ensures
            id.is_paired(),
    {
        let (secret, public) = generate_x25519();
        let (kem_pk, kem_sk) = generate_pair();
        assert(secret@.subrange(0, 32) =~= secret@);
        assert(public@.subrange(0, 32) =~= public@);
        IdentityKeypair {
            x25519_secret: X25519Key { key: array_32_at(secret.as_slice(), 0) },
            x25519_public: X25519Key { key: array_32_at(public.as_slice(), 0) },
            kem_pk: KemPublicKey { key: kem_pk },
            kem_sk: KemSecretKey { key: kem_sk },
        }
    }

    /// The identity as bytes, for safekeeping.
    pub fn to_bytes(&self) -> (out: Vec<u8>)
        ensures
            out@ == self.encoding(),
            out@.len() == IDENTITY_LEN,
    {
        proof {
            use_type_invariant(&self.kem_pk);
            use_type_invariant(&self.kem_sk);
        }
        let mut out: Vec<u8> = Vec::new();
        out.extend_from_slice(self.x25519_secret.key.as_slice());
        out.extend_from_slice(self.x25519_public.key.as_slice());
        out.extend_from_slice(self.kem_pk.key.as_slice());
        out.extend_from_slice(self.kem_sk.key.as_slice());
        out
    }

    /// The identity with the given serialised form; nothing if the length is wrong.
    pub fn from_bytes(buf: &[u8]) -> (id: Option<Self>)
        ensures
            match id {
                Some(id) => id.encoding() == buf@,
                None => buf@.len() != IDENTITY_LEN,
            },
    {
        if buf.len() != IDENTITY_LEN {
            return None;
        }
        let id = IdentityKeypair {
            x25519_secret: X25519Key { key: array_32_at(buf, 0) },
            x25519_public: X25519Key { key: array_32_at(buf, 32) },
            kem_pk: KemPublicKey { key: slice_to_vec(bytes_at(buf, 64, KEM_PUBLIC_LEN)) },
            kem_sk: KemSecretKey { key: slice_to_vec(bytes_at(buf, 1248, KEM_SECRET_LEN)) },
        };
        assert(id.encoding() =~= buf@);
        Some(id)
    }
}

/// The two halves of the session secret: one from ML-KEM, one from X25519.
pub struct HybridSharedSecret {
    kem: [u8; 32],
    x25519: [u8; 32],
}

impl HybridSharedSecret {
    pub closed spec fn kem(self) -> Seq<u8> {
        self.kem@
    }

    pub closed spec fn x25519(self) -> Seq<u8> {
        self.x25519@
    }

    pub fn new(kem: [u8; 32], x25519: [u8; 32]) -> (s: Self)
        ensures
            s.kem() == kem@,
            s.x25519() == x25519@,
    {
        HybridSharedSecret { kem, x25519 }
    }

    /// The packet keys of the session with the given transcript hash: they
    /// depend on both halves.
    pub fn derive_packet_keys(&self, transcript: &[u8]) -> (keys: PacketKeys)
        ensures
            keys.derived_from(self.kem() + self.x25519() + transcript@),
    {
        let mut secret: Vec<u8> = Vec::new();
        secret.extend_from_slice(self.kem.as_slice());
        secret.extend_from_slice(self.x25519.as_slice());
        secret.extend_from_slice(transcript);
        assert(secret@ =~= self.kem() + self.x25519() + transcript@);
        PacketKeys::derive_from_secret(secret.as_slice())
    }
}

} // verus!
