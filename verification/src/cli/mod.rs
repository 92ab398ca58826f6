//! The `seam` command: what it decides, writes and reads, short of I/O.

pub mod connect;
pub mod copy;
pub mod doctor;
pub mod laws;
pub mod ls;
pub mod names;
pub mod proto;
pub mod ssh;
pub mod transfer;
pub mod update;
