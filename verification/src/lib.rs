//! Sans-I/O core of the Seam transport.

pub mod api;
pub mod buffers;
pub mod cli;
pub mod clock;
pub mod crypto;
pub mod entropy;
pub mod error;
pub mod formats;
pub mod handshake;
pub mod packet;
pub mod session;
pub mod text;
pub mod transport;
pub mod tunnel;
pub mod wire;
