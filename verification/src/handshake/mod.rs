//! The post-quantum hybrid handshake: Noise XX, ML-KEM-768 and a stateless
//! cookie challenge.

pub mod cookie;
pub mod hybrid_keys;
pub mod kem;
pub mod noise;
pub mod state;

pub use cookie::CookieFactory;
pub use hybrid_keys::{pk_from_bytes, pk_to_bytes, IdentityKeypair};
