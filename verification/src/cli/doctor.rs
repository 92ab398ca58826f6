//! Judging what the self-check finds.

use vstd::prelude::*;

verus! {

/// Arguments of `doctor`.
pub struct DoctorArgs {}

/// Socket buffers below this many bytes are worth enlarging.
pub const GOOD_BUFFER: usize = 2_097_152;

/// The permissions of an identity key: readable and writable by its owner
/// alone.
pub const PRIVATE_MODE: u32 = 0o600;

/// The permission bits of a file's mode.
pub fn permission_bits(mode: u32) -> (bits: u32)
    ensures
        bits == mode & 0o777,
{
    mode & 0o777
}

/// Whether a file with this mode is its owner's alone.
pub fn is_private(mode: u32) -> (yes: bool)
    ensures
        yes == (mode & 0o777 == PRIVATE_MODE),
{
    permission_bits(mode) == PRIVATE_MODE
}

/// Whether larger socket buffers are worth a hint.
pub fn wants_larger_buffers(rx: usize, tx: usize) -> (yes: bool)
    ensures
        yes == (rx < GOOD_BUFFER || tx < GOOD_BUFFER),
{
    rx < GOOD_BUFFER || tx < GOOD_BUFFER
}

/// Only a missing binary or a missing `ssh` is critical.
pub fn all_critical_passed(binary_found: bool, ssh_found: bool) -> (ok: bool)
    ensures
        ok == (binary_found && ssh_found),
{
    binary_found && ssh_found
}

} // verus!
