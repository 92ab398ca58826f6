//! Listing a remote directory.

use crate::cli::proto::{be_round_trip, DONE, ENTRY, LS};
use crate::cli::ssh::{place_is, place_of, spec_parts, split_remote, RemoteInfo, RemoteView};
use crate::cli::transfer::TransferError;
use crate::text::{chars_at, chars_of, find_char, text_of};
use crate::wire::{
    be_bytes, be_value, bytes_at, pow256_values, put_len_be, put_u32_be, put_u64_be, u16_be_at,
    u32_be_at, u64_be_at,
};
use vstd::prelude::*;
use vstd::utf8::{decode_utf8, encode_utf8, valid_utf8};

verus! {

/// Arguments of `ls`.
pub struct LsArgs {
    /// Remote path: `user@host:/path`.
    pub remote: String,
    /// SSH port for the bootstrap connection.
    pub port: Option<u16>,
    /// Skip SSH bootstrap; use this pre-started SEAM line directly.
    pub direct: Option<String>,
}

/// Arguments of the remote side of `ls`.
pub struct LsRecvArgs {
    /// Path to list on the remote side.
    pub path: String,
    /// UDP port to listen on; 0 lets the system choose.
    pub port: u16,
}

/// The remote and the path that `ls` was asked for. The configuration of SSH
/// is left to `ssh` itself; a port that was given counts.
pub open spec fn ls_target(remote: Seq<char>, port: Option<u16>) -> (RemoteView, Seq<char>) {
    match spec_parts(remote) {
        Some(parts) => (
            RemoteView { host: parts.host, user: parts.user, ssh_port: port },
            parts.path,
        ),
        None => {
            let at = place_of(remote, '@', 0);
            if at < remote.len() {
                (
                    RemoteView {
                        host: remote.skip(at + 1),
                        user: Some(remote.take(at)),
                        ssh_port: port,
                    },
                    Seq::empty(),
                )
            } else {
                (RemoteView { host: remote, user: None, ssh_port: port }, Seq::empty())
            }
        },
    }
}

/// The remote and the path that `ls` was asked for.
pub fn ls_remote(remote: &str, port: Option<u16>) -> (r: (RemoteInfo, String))
    ensures
        (r.0@, r.1@) == ls_target(remote@, port),
{
    match split_remote(remote) {
        Some((user, host, path)) => (RemoteInfo { host, user, ssh_port: port }, path),
        None => {
            let chars = chars_of(remote);
            let n: usize = chars.len();
            let path = String::new();
            match find_char(chars.as_slice(), '@') {
                Some(at) => {
                    let user = text_of(chars_at(chars.as_slice(), 0, at));
                    let host = text_of(chars_at(chars.as_slice(), at + 1, n));
                    proof {
                        place_is(remote@, '@', 0, at as int);
                        assert(user@ =~= remote@.take(at as int));
                        assert(host@ =~= remote@.skip(at + 1));
                        assert(path@ =~= Seq::<char>::empty());
                    }
                    (RemoteInfo { host, user: Some(user), ssh_port: port }, path)
                },
                None => {
                    let host = text_of(chars.as_slice());
                    proof {
                        place_is(remote@, '@', 0, n as int);
                        assert(path@ =~= Seq::<char>::empty());
                    }
                    (RemoteInfo { host, user: None, ssh_port: port }, path)
                },
            }
        },
    }
}

/// What `std` makes of bytes that may not be valid UTF-8.
pub uninterp spec fn lossy_text(data: Seq<u8>) -> Seq<char>;

/// `std::string::String::from_utf8_lossy`: the text that the bytes encode;
/// what is not valid UTF-8 is replaced.
#[verifier::external_body]
fn text_lossy(data: &[u8]) -> (text: String)
    ensures
        text@ == lossy_text(data@),
        valid_utf8(data@) ==> text@ == decode_utf8(data@),
{
    String::from_utf8_lossy(data).into_owned()
}

/// One file or directory of a listing.
pub struct Entry {
    pub name: String,
    pub size: u64,
    pub mode: u32,
}

/// What an [`Entry`] stands for.
#[verifier::ext_equal]
pub struct EntryView {
    pub name: Seq<char>,
    pub size: u64,
    pub mode: u32,
}

impl View for Entry {
    type V = EntryView;

    open spec fn view(&self) -> EntryView {
        EntryView { name: self.name@, size: self.size, mode: self.mode }
    }
}

/// An entry's frame: type, length of the name, name, size, mode.
pub open spec fn entry_frame(name: Seq<u8>, size: u64, mode: u32) -> Seq<u8> {
    seq![ENTRY] + be_bytes(name.len(), 2) + name + be_bytes(size as nat, 8) + be_bytes(
        mode as nat,
        4,
    )
}

/// The fields of an entry's frame: name, size, mode. A frame that is too short
/// for them says nothing.
pub open spec fn entry_fields(frame: Seq<u8>) -> Option<(Seq<u8>, u64, u32)> {
    let len = be_value(frame.subrange(1, 3)) as int;
    if frame.len() < 15 || frame.len() < 15 + len {
        None
    } else {
        Some(
            (
                frame.subrange(3, 3 + len),
                be_value(frame.subrange(3 + len, 11 + len)) as u64,
                be_value(frame.subrange(11 + len, 15 + len)) as u32,
            ),
        )
    }
}

/// The frame of one entry. The entry is read back if its name is not longer
/// than the length field can say.
pub fn build_entry(name: &str, size: u64, mode: u32) -> (frame: Vec<u8>)
    ensures
        frame@ == entry_frame(encode_utf8(name@), size, mode),
        encode_utf8(name@).len() <= 0xFFFF ==> entry_fields(frame@) == Some(
            (encode_utf8(name@), size, mode),
        ),
{
    let name_bytes = name.as_bytes();
    let mut frame: Vec<u8> = Vec::new();
    frame.push(ENTRY);
    put_len_be(&mut frame, name_bytes.len(), 2);
    frame.extend_from_slice(name_bytes);
    put_u64_be(&mut frame, size);
    put_u32_be(&mut frame, mode);
    proof {
        assert(frame@ =~= entry_frame(encode_utf8(name@), size, mode));
        if encode_utf8(name@).len() <= 0xFFFF {
            entry_round_trip(encode_utf8(name@), size, mode);
        }
    }
    frame
}

/// The frame of an entry is read back.
pub proof fn entry_round_trip(name: Seq<u8>, size: u64, mode: u32)
    requires
        name.len() <= 0xFFFF,
    ensures
        entry_fields(entry_frame(name, size, mode)) == Some((name, size, mode)),
{
    let frame = entry_frame(name, size, mode);
    let len = name.len() as int;
    pow256_values();
    be_round_trip(name.len(), 2);
    be_round_trip(size as nat, 8);
    be_round_trip(mode as nat, 4);
    assert(frame.subrange(1, 3) =~= be_bytes(name.len(), 2));
    assert(frame.subrange(3, 3 + len) =~= name);
    assert(frame.subrange(3 + len, 11 + len) =~= be_bytes(size as nat, 8));
    assert(frame.subrange(11 + len, 15 + len) =~= be_bytes(mode as nat, 4));
}

/// What a frame of a listing says.
pub enum ListStep {
    /// An entry to show.
    Show(Entry),
    /// An entry that cannot be read: go on.
    Skip,
    /// The listing is complete.
    End,
}

/// What a frame of a listing says, or why it is refused.
pub open spec fn is_list_step(frame: Seq<u8>, r: Result<ListStep, TransferError>) -> bool {
    if frame.len() == 0 {
        r == Err::<ListStep, TransferError>(TransferError::EmptyFrame)
    } else if frame[0] == ENTRY {
        match entry_fields(frame) {
            Some(fields) => match r {
                Ok(ListStep::Show(entry)) => {
                    &&& entry@ == (EntryView {
                        name: lossy_text(fields.0),
                        size: fields.1,
                        mode: fields.2,
                    })
                    &&& valid_utf8(fields.0) ==> entry@.name == decode_utf8(fields.0)
                },
                _ => false,
            },
            None => r == Ok::<ListStep, TransferError>(ListStep::Skip),
        }
    } else if frame[0] == DONE {
        r == Ok::<ListStep, TransferError>(ListStep::End)
    } else {
        r == Err::<ListStep, TransferError>(TransferError::UnexpectedType(frame[0]))
    }
}

/// Take in one frame of a listing.
pub fn list_step(frame: &[u8]) -> (r: Result<ListStep, TransferError>)
    ensures
        is_list_step(frame@, r),
{
    if frame.len() == 0 {
        return Err(TransferError::EmptyFrame);
    }
    if frame[0] == ENTRY {
        if frame.len() < 15 {
            return Ok(ListStep::Skip);
        }
        let len: usize = u16_be_at(frame, 1) as usize;
        if frame.len() < 15 + len {
            return Ok(ListStep::Skip);
        }
        let name = text_lossy(bytes_at(frame, 3, len));
        let size: u64 = u64_be_at(frame, 3 + len);
        let mode: u32 = u32_be_at(frame, 11 + len);
        Ok(ListStep::Show(Entry { name, size, mode }))
    } else if frame[0] == DONE {
        Ok(ListStep::End)
    } else {
        Err(TransferError::UnexpectedType(frame[0]))
    }
}

/// A listing starts with a request.
pub fn is_list_request(frame: &[u8]) -> (yes: bool)
    ensures
        yes == (frame@.len() > 0 && frame@[0] == LS),
{
    frame.len() > 0 && frame[0] == LS
}

/// The letter, if the bit is set, and a dash if not.
pub open spec fn flag(mode: u32, bit: u32, letter: char) -> char {
    if mode & bit != 0 {
        letter
    } else {
        '-'
    }
}

/// File type and permissions, as `ls -l` shows them.
pub open spec fn mode_text(mode: u32) -> Seq<char> {
    seq![
        flag(mode, 0x4000, 'd'),
        flag(mode, 0x100, 'r'),
        flag(mode, 0x80, 'w'),
        flag(mode, 0x40, 'x'),
        flag(mode, 0x20, 'r'),
        flag(mode, 0x10, 'w'),
        flag(mode, 0x8, 'x'),
        flag(mode, 0x4, 'r'),
        flag(mode, 0x2, 'w'),
        flag(mode, 0x1, 'x'),
    ]
}

fn push_flag(out: &mut String, mode: u32, bit: u32, letter: char)
    ensures
        final(out)@ == old(out)@.push(flag(mode, bit, letter)),
{
    if mode & bit != 0 {
        out.push(letter);
    } else {
        out.push('-');
    }
}

/// File type and permissions, as `ls -l` shows them.
pub fn mode_to_str(mode: u32) -> (out: String)
    ensures
        out@ == mode_text(mode),
{
    let mut out = String::new();
    push_flag(&mut out, mode, 0o040000, 'd');
    push_flag(&mut out, mode, 0o400, 'r');
    push_flag(&mut out, mode, 0o200, 'w');
    push_flag(&mut out, mode, 0o100, 'x');
    push_flag(&mut out, mode, 0o040, 'r');
    push_flag(&mut out, mode, 0o020, 'w');
    push_flag(&mut out, mode, 0o010, 'x');
    push_flag(&mut out, mode, 0o004, 'r');
    push_flag(&mut out, mode, 0o002, 'w');
    push_flag(&mut out, mode, 0o001, 'x');
    assert(out@ =~= mode_text(mode));
    out
}

} // verus!
