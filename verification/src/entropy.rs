//! The operating system's random number generator.

use rand::{rngs::OsRng, RngCore};
use vstd::prelude::*;

verus! {

/// The generator may give these bytes.
pub uninterp spec fn may_be_drawn(bytes: Seq<u8>) -> bool;

/// `rand::RngCore::fill_bytes` of `rand::rngs::OsRng`, for a nonce: twelve
/// random bytes. Nothing is known of them but that they were drawn.
#[verifier::external_body]
pub(crate) fn random_nonce() -> (nonce: [u8; 12])
    ensures
        may_be_drawn(nonce@),
{
    let mut nonce = [0u8; 12];
    OsRng.fill_bytes(&mut nonce);
    nonce
}

} // verus!
