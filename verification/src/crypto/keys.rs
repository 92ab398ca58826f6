//! The keys that protect the packets of one session.

use crate::crypto::aead::{derive_key, derived_key};
use vstd::prelude::*;

verus! {

/// Length of a serialised [`PacketKeys`].
pub const PACKET_KEYS_LEN: usize = 76;

/// Encryption key, header protection key and nonce base of a session.
#[derive(Clone, Copy, Debug)]
pub struct PacketKeys {
    pub enc_key: [u8; 32],
    pub hp_key: [u8; 32],
    pub nonce_base: [u8; 12],
}

/// The 32 bytes of `s` at `at`.
pub(crate) fn array_32_at(s: &[u8], at: usize) -> (a: [u8; 32])
    requires
        at + 32 <= s@.len(),
    ensures
        a@ == s@.subrange(at as int, at + 32),
{
    let total: usize = s.len();
    assert(at + 32 <= total);
    let mut a: [u8; 32] = [0;32];
    for i in 0..32usize
        invariant
            at + 32 <= total == s@.len(),
            a@.len() == 32,
            forall|j: int| 0 <= j < i ==> a@[j] == s@[at + j],
    {
        a[i] = s[at + i];
    }
    assert(a@ =~= s@.subrange(at as int, at + 32));
    a
}

/// The 12 bytes of `s` at `at`.
pub(crate) fn array_12_at(s: &[u8], at: usize) -> (a: [u8; 12])
    requires
        at + 12 <= s@.len(),
    ensures
        a@ == s@.subrange(at as int, at + 12),
{
    let total: usize = s.len();
    assert(at + 12 <= total);
    let mut a: [u8; 12] = [0;12];
    for i in 0..12usize
        invariant
            at + 12 <= total == s@.len(),
            a@.len() == 12,
            forall|j: int| 0 <= j < i ==> a@[j] == s@[at + j],
    {
        a[i] = s[at + i];
    }
    assert(a@ =~= s@.subrange(at as int, at + 12));
    a
}

impl PacketKeys {
    /// Encryption key, header protection key and nonce base, one after the other.
    pub open spec fn encoding(self) -> Seq<u8> {
        self.enc_key@ + self.hp_key@ + self.nonce_base@
    }

    /// These are the keys that belong to `secret`: each part is derived from
    /// it in a context of its own.
    pub open spec fn derived_from(self, secret: Seq<u8>) -> bool {
        &&& self.enc_key@ == derived_key("seam/packet-encryption/v1"@, secret)
        &&& self.hp_key@ == derived_key("seam/header-protection/v1"@, secret)
        &&& self.nonce_base@ == derived_key("seam/nonce-base/v1"@, secret).take(12)
    }

    /// Derive the keys from a shared secret.
    pub fn derive_from_secret(secret: &[u8]) -> (keys: Self)
        ensures
            keys.derived_from(secret@),
    {
        let enc_key = derive_key("seam/packet-encryption/v1", secret);
        let hp_key = derive_key("seam/header-protection/v1", secret);
        let base = derive_key("seam/nonce-base/v1", secret);
        let nonce_base = array_12_at(base.as_slice(), 0);
        assert(base@.subrange(0, 12) =~= base@.take(12));
        PacketKeys { enc_key, hp_key, nonce_base }
    }

    /// The keys as 76 bytes.
    pub fn to_bytes(&self) -> (out: Vec<u8>)
        ensures
            out@ == self.encoding(),
            out@.len() == PACKET_KEYS_LEN,
    {
        let mut out: Vec<u8> = Vec::new();
        out.extend_from_slice(self.enc_key.as_slice());
        out.extend_from_slice(self.hp_key.as_slice());
        out.extend_from_slice(self.nonce_base.as_slice());
        out
    }

    /// The keys whose serialised form `buf` is; nothing if it is not 76 bytes long.
    pub fn from_bytes(buf: &[u8]) -> (keys: Option<Self>)
        ensures
            match keys {
                Some(keys) => keys.encoding() == buf@,
                None => buf@.len() != PACKET_KEYS_LEN,
            },
    {
        if buf.len() != PACKET_KEYS_LEN {
            return None;
        }
        let keys = PacketKeys {
            enc_key: array_32_at(buf, 0),
            hp_key: array_32_at(buf, 32),
            nonce_base: array_12_at(buf, 64),
        };
        assert(keys.encoding() =~= buf@);
        Some(keys)
    }
}

/// Two sets of keys with the same serialised form are the same keys.
pub proof fn keys_of_bytes_unique(a: PacketKeys, b: PacketKeys)
    requires
        a.encoding() == b.encoding(),
    ensures
        a == b,
{
    assert(a.enc_key@ =~= a.encoding().subrange(0, 32));
    assert(b.enc_key@ =~= a.encoding().subrange(0, 32));
    assert(a.hp_key@ =~= a.encoding().subrange(32, 64));
    assert(b.hp_key@ =~= a.encoding().subrange(32, 64));
    assert(a.nonce_base@ =~= a.encoding().subrange(64, 76));
    assert(b.nonce_base@ =~= a.encoding().subrange(64, 76));
    assert(a.enc_key =~= b.enc_key);
    assert(a.hp_key =~= b.hp_key);
    assert(a.nonce_base =~= b.nonce_base);
}

} // verus!
