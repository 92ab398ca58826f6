//! Packet keys, packet encryption with header protection, and anti-replay.

pub mod aead;
pub mod decoder;
pub mod encoder;
pub mod format;
pub mod keys;
pub mod replay;
