//! Stream frames: a piece of a stream's data, or its end.

use crate::wire::{
    bytes_at, le_bytes, le_bytes_len, le_round_trip, le_value, pow256_values, put_u16_le,
    put_u32_le, put_u64_le, u16_le_at, u32_le_at, u64_le_at,
};
use vstd::prelude::*;

verus! {

/// Bytes in front of a frame's data.
pub const FRAME_HEADER: usize = 16;

/// A stream frame: type, flags, length, stream id, offset, data.
/// Bit 0 of the flags says that the stream ends with this data.
pub open spec fn stream_frame(stream_id: u32, offset: u64, fin: bool, data: Seq<u8>) -> Seq<u8> {
    seq![
        1u8,
        if fin {
            1u8
        } else {
            0u8
        },
    ] + le_bytes(data.len(), 2) + le_bytes(stream_id as nat, 4) + le_bytes(offset as nat, 8) + data
}

/// The fields of a stream frame.
#[verifier::ext_equal]
pub struct FrameFields {
    pub stream_id: u32,
    pub offset: u64,
    pub fin: bool,
    pub data: Seq<u8>,
}

/// What a frame says; nothing if it is shorter than its own length field
/// wants. The type byte is not looked at.
pub open spec fn parsed_frame(frame: Seq<u8>) -> Option<FrameFields> {
    let len = le_value(frame.subrange(2, 4));
    if frame.len() < 16 || frame.len() < 16 + len {
        None
    } else {
        Some(
            FrameFields {
                stream_id: le_value(frame.subrange(4, 8)) as u32,
                offset: le_value(frame.subrange(8, 16)) as u64,
                fin: frame[1] % 2 == 1,
                data: frame.subrange(16, 16 + len as int),
            },
        )
    }
}

/// A frame is its header and its data.
pub proof fn stream_frame_len(stream_id: u32, offset: u64, fin: bool, data: Seq<u8>)
    ensures
        stream_frame(stream_id, offset, fin, data).len() == FRAME_HEADER + data.len(),
{
    le_bytes_len(data.len(), 2);
    le_bytes_len(stream_id as nat, 4);
    le_bytes_len(offset as nat, 8);
}

/// Build a frame.
pub fn build_stream_frame(stream_id: u32, offset: u64, fin: bool, data: &[u8]) -> (frame: Vec<u8>)
    requires
        data@.len() <= 0xFFFF,
    ensures
        frame@ == stream_frame(stream_id, offset, fin, data@),
        frame@.len() == FRAME_HEADER + data@.len(),
{
    let mut frame: Vec<u8> = Vec::new();
    frame.push(1);
    frame.push(
        if fin {
            1
        } else {
            0
        },
    );
    put_u16_le(&mut frame, data.len() as u16);
    put_u32_le(&mut frame, stream_id);
    put_u64_le(&mut frame, offset);
    frame.extend_from_slice(data);
    proof {
        le_bytes_len(data@.len(), 2);
        le_bytes_len(stream_id as nat, 4);
        le_bytes_len(offset as nat, 8);
        assert(frame@ =~= stream_frame(stream_id, offset, fin, data@));
    }
    frame
}

/// Read a frame: stream id, offset, end flag and data.
pub fn parse_stream_frame(frame: &[u8]) -> (r: Option<(u32, u64, bool, &[u8])>)
    ensures
        match r {
            Some((stream_id, offset, fin, data)) => parsed_frame(frame@) == Some(
                (FrameFields { stream_id, offset, fin, data: data@ }),
            ) && data@.len() <= 0xFFFF,
            None => parsed_frame(frame@) is None,
        },
{
    if frame.len() < FRAME_HEADER {
        return None;
    }
    let len: usize = u16_le_at(frame, 2) as usize;
    let total: usize = frame.len();
    if total < FRAME_HEADER + len {
        return None;
    }
    let fin: bool = frame[1] % 2 == 1;
    Some((u32_le_at(frame, 4), u64_le_at(frame, 8), fin, bytes_at(frame, FRAME_HEADER, len)))
}

/// Reading a frame gives back what it was built from.
pub proof fn frame_round_trip(stream_id: u32, offset: u64, fin: bool, data: Seq<u8>)
    requires
        data.len() <= 0xFFFF,
    ensures
        parsed_frame(stream_frame(stream_id, offset, fin, data)) == Some(
            (FrameFields { stream_id, offset, fin, data }),
        ),
{
    let frame = stream_frame(stream_id, offset, fin, data);
    pow256_values();
    le_bytes_len(data.len(), 2);
    le_bytes_len(stream_id as nat, 4);
    le_bytes_len(offset as nat, 8);
    le_round_trip(data.len(), 2);
    le_round_trip(stream_id as nat, 4);
    le_round_trip(offset as nat, 8);
    assert(frame.subrange(2, 4) =~= le_bytes(data.len(), 2));
    assert(frame.subrange(4, 8) =~= le_bytes(stream_id as nat, 4));
    assert(frame.subrange(8, 16) =~= le_bytes(offset as nat, 8));
    assert(frame.subrange(16, 16 + data.len() as int) =~= data);
}

} // verus!
