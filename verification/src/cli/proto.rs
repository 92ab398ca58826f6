//! The transfer protocol's frames on a stream.

use crate::error::SeamError;
use crate::session::stream::StreamId;
use crate::session::SessionEvent;
use crate::text::{decimal, push_decimal};
use crate::wire::{
    be_bytes, be_value, bytes_at, le_bytes, le_bytes_len, le_round_trip, pow256_values,
    put_len_be, u32_be_at,
};
use vstd::prelude::*;
use vstd::slice::slice_to_vec;

verus! {

pub const HELLO: u8 = 0x01;

pub const FILE_INFO: u8 = 0x02;

pub const DATA: u8 = 0x03;

pub const DONE: u8 = 0x04;

pub const ACK: u8 = 0x05;

pub const _ERR: u8 = 0x06;

pub const LS: u8 = 0x07;

pub const ENTRY: u8 = 0x08;

pub const COMPRESS_NONE: u8 = 0;

pub const COMPRESS_ZSTD: u8 = 1;

/// How long to wait, in milliseconds, before a write that flow control has
/// blocked is tried again.
pub const RETRY_MS: u64 = 2;

/// How much is read from a stream at a time.
pub const READ_SIZE: usize = 65536;

/// A frame: its length, then its payload.
pub open spec fn framed(payload: Seq<u8>) -> Seq<u8> {
    be_bytes(payload.len(), 4) + payload
}

/// The first frame's payload and what lies behind the frame, once it is complete.
pub open spec fn extracted(buf: Seq<u8>) -> Option<(Seq<u8>, Seq<u8>)> {
    let len = be_value(buf.subrange(0, 4)) as int;
    if buf.len() < 4 || buf.len() < 4 + len {
        None
    } else {
        Some((buf.subrange(4, 4 + len), buf.skip(4 + len)))
    }
}

/// Big-endian numbers are read back.
pub proof fn be_round_trip(v: nat, n: nat)
    requires
        v < crate::wire::pow256(n),
    ensures
        be_value(be_bytes(v, n)) == v,
        be_bytes(v, n).len() == n,
{
    le_round_trip(v, n);
    le_bytes_len(v, n);
    assert(le_bytes(v, n).reverse().reverse() =~= le_bytes(v, n));
}

/// The frame with the given payload.
pub fn build_frame(payload: &[u8]) -> (frame: Vec<u8>)
    ensures
        frame@ == framed(payload@),
{
    let mut frame: Vec<u8> = Vec::new();
    put_len_be(&mut frame, payload.len(), 4);
    frame.extend_from_slice(payload);
    assert(frame@ =~= framed(payload@));
    frame
}

/// Take the first frame out of `buf`, if it is complete.
pub fn extract_frame(buf: &mut Vec<u8>) -> (r: Option<Vec<u8>>)
    ensures
        match r {
            Some(payload) => extracted(old(buf)@) == Some((payload@, final(buf)@)),
            None => extracted(old(buf)@) is None && final(buf)@ == old(buf)@,
        },
{
    if buf.len() < 4 {
        return None;
    }
    let len: u32 = u32_be_at(buf.as_slice(), 0);
    if buf.len() - 4 < len as usize {
        return None;
    }
    let ghost before = buf@;
    let end: usize = 4 + len as usize;
    let mut rest = buf.split_off(end);
    let payload = slice_to_vec(bytes_at(buf.as_slice(), 4, len as usize));
    proof {
        assert(payload@ =~= before.subrange(4, 4 + len as int));
        assert(rest@ =~= before.skip(4 + len as int));
    }
    std::mem::swap(buf, &mut rest);
    Some(payload)
}

/// A frame that was written is read back, and what follows it is kept.
pub proof fn frame_is_extracted(payload: Seq<u8>, rest: Seq<u8>)
    requires
        payload.len() <= u32::MAX,
    ensures
        extracted(framed(payload) + rest) == Some((payload, rest)),
{
    pow256_values();
    be_round_trip(payload.len(), 4);
    let buf = framed(payload) + rest;
    assert(buf.subrange(0, 4) =~= be_bytes(payload.len(), 4));
    assert(buf.subrange(4, 4 + payload.len() as int) =~= payload);
    assert(buf.skip(4 + payload.len() as int) =~= rest);
}

/// An incomplete frame is waited for: more bytes never change what its own
/// bytes will say.
pub proof fn frame_stays_extracted(buf: Seq<u8>, more: Seq<u8>)
    requires
        extracted(buf) is Some,
    ensures
        ({
            let (payload, rest) = extracted(buf)->0;
            extracted(buf + more) == Some((payload, rest + more))
        }),
{
    let len = be_value(buf.subrange(0, 4)) as int;
    assert((buf + more).subrange(0, 4) =~= buf.subrange(0, 4));
    assert((buf + more).subrange(4, 4 + len) =~= buf.subrange(4, 4 + len));
    assert((buf + more).skip(4 + len) =~= buf.skip(4 + len) + more);
}

/// Why a frame will not come.
#[derive(Debug, Clone, Copy, PartialEq, Eq, Structural)]
pub enum FrameError {
    /// The stream ended in the middle of a frame.
    StreamClosed(StreamId),
    ConnectionClosed,
}

impl FrameError {
    pub open spec fn text(self) -> Seq<char> {
        match self {
            FrameError::StreamClosed(sid) => "stream "@ + decimal(sid as nat)
                + " closed before frame complete"@,
            FrameError::ConnectionClosed => "connection closed"@,
        }
    }

    /// The error in words.
    pub fn message(self) -> (text: String)
        ensures
            text@ == self.text(),
    {
        let mut text = String::new();
        match self {
            FrameError::StreamClosed(sid) => {
                text.push_str("stream ");
                push_decimal(&mut text, sid as u64);
                text.push_str(" closed before frame complete");
            },
            FrameError::ConnectionClosed => {
                text.push_str("connection closed");
            },
        }
        assert(text@ =~= self.text());
        text
    }
}

/// What a reader of frames does about an event.
#[derive(Debug, Clone, Copy, PartialEq, Eq, Structural)]
pub enum FrameStep {
    /// Read the stream into the buffer and look again.
    Read,
    Wait,
    Fail(FrameError),
}

/// What an event means for the reader of a stream's frames; no event at all
/// means that the connection is gone.
pub fn frame_step(event: Option<&SessionEvent>, sid: StreamId) -> (step: FrameStep)
    ensures
        step == (match event {
            Some(SessionEvent::DataAvailable(s)) if *s == sid => FrameStep::Read,
            Some(SessionEvent::StreamFinished(s)) if *s == sid => FrameStep::Fail(
                FrameError::StreamClosed(sid),
            ),
            Some(SessionEvent::Closed) => FrameStep::Fail(FrameError::ConnectionClosed),
            None => FrameStep::Fail(FrameError::ConnectionClosed),
            _ => FrameStep::Wait,
        }),
{
    match event {
        Some(SessionEvent::DataAvailable(s)) => if *s == sid {
            FrameStep::Read
        } else {
            FrameStep::Wait
        },
        Some(SessionEvent::StreamFinished(s)) => if *s == sid {
            FrameStep::Fail(FrameError::StreamClosed(sid))
        } else {
            FrameStep::Wait
        },
        Some(SessionEvent::Closed) | None => FrameStep::Fail(FrameError::ConnectionClosed),
        _ => FrameStep::Wait,
    }
}

/// What the waiter for the control stream does about an event.
#[derive(Debug, Clone, Copy, PartialEq, Eq, Structural)]
pub enum StreamStep {
    Opened(StreamId),
    Wait,
    Closed,
}

/// What an event means for the waiter for the control stream.
pub fn stream_step(event: Option<&SessionEvent>) -> (step: StreamStep)
    ensures
        step == (match event {
            Some(SessionEvent::NewStream(sid)) => StreamStep::Opened(*sid),
            Some(SessionEvent::Closed) | None => StreamStep::Closed,
            _ => StreamStep::Wait,
        }),
{
    match event {
        Some(SessionEvent::NewStream(sid)) => StreamStep::Opened(*sid),
        Some(SessionEvent::Closed) | None => StreamStep::Closed,
        _ => StreamStep::Wait,
    }
}

/// The write was refused by flow control: credit arrives shortly, so it is
/// tried again.
pub fn is_backpressure(e: &SeamError) -> (yes: bool)
    ensures
        yes == (*e is FlowControlBlocked),
{
    match e {
        SeamError::FlowControlBlocked { .. } => true,
        _ => false,
    }
}

} // verus!
