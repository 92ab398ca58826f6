//! The cookies of the stateless challenge: a client that echoes the one made for
//! its address receives there. Nothing has to be remembered to check one.

use crate::crypto::aead::{keyed_hash, keyed_hash_of};
use vstd::prelude::*;

verus! {

/// Issues and checks cookies under one secret.
pub struct CookieFactory {
    secret: [u8; 32],
}

impl View for CookieFactory {
    type V = Seq<u8>;

    closed spec fn view(&self) -> Seq<u8> {
        self.secret@
    }
}

/// The cookie for an address.
pub open spec fn cookie_for(secret: Seq<u8>, address: Seq<u8>) -> Seq<u8> {
    keyed_hash_of(secret, address)
}

impl CookieFactory {
    pub fn new(secret: [u8; 32]) -> (f: Self)
        ensures
            f@ == secret@,
    {
        CookieFactory { secret }
    }

    /// The cookie for an address.
    pub fn generate(&self, address: &[u8]) -> (cookie: [u8; 32])
        ensures
            cookie@ == cookie_for(self@, address@),
    {
        keyed_hash(&self.secret, address)
    }

    /// The cookie is the one that this factory issues to the address. Every
    /// byte is looked at, whatever the others are.
    pub fn verify(&self, address: &[u8], cookie: &[u8; 32]) -> (ok: bool)
        ensures
            ok == (cookie@ == cookie_for(self@, address@)),
    {
        let expected = self.generate(address);
        let mut ok: bool = true;
        for i in 0..32usize
            invariant
                expected@.len() == 32,
                cookie@.len() == 32,
                ok == (forall|j: int| 0 <= j < i ==> cookie@[j] == expected@[j]),
        {
            if expected[i] != cookie[i] {
                ok = false;
            }
        }
        assert(ok == (cookie@ =~= expected@));
        ok
    }
}

} // verus!
