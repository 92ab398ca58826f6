//! What holds of the two halves of a stream: what is taken, what is refused, and
//! what stays as it is.

use crate::session::frame::{frame_round_trip, parsed_frame, FrameFields};
use crate::session::schedule::{after_frame, all_frames, next_frame};
use crate::session::stream::{
    covered_data_is_read, covers, drain, first, first_reaches, held, held_with, held_without,
    is_first, RecvState, SendState, StreamState,
};
use vstd::prelude::*;

verus! {

// ── Sending ──────────────────────────────────────────────────────────────────
/// A new stream has nothing to send and nothing to read; each half may take 256
/// MiB, and no end is known.
pub proof fn new_stream_is_empty(id: u32, priority: u8, room: u64)
    ensures
        ({
            let s = StreamState::with_room(id, priority, room);
            &&& s.id == id
            &&& s.priority == priority
            &&& s.send.unsent.len() == 0
            &&& s.send.offset == 0
            &&& s.send.acked == 0
            &&& s.send.limit == 0x1000_0000
            &&& !s.send.finished
            &&& !s.send.fin_flushed
            &&& s.recv.offset == 0
            &&& s.recv.segments == Map::<u64, Seq<u8>>::empty()
            &&& s.recv.limit == 0x1000_0000
            &&& s.recv.room == room
            &&& s.recv.buffered == 0
            &&& s.recv.fin_at is None
        }),
        StreamState::new(id, priority) == StreamState::with_room(id, priority, u64::MAX),
{
}

/// Data is written as a whole or not at all: it is, unless the stream was
/// finished or the data would go beyond the peer's limit. It goes behind what
/// waits to be sent, and nothing else changes.
pub proof fn write_takes_all_or_nothing(send: SendState, data: Seq<u8>)
    requires
        send.wf(),
    ensures
        !send.finished && send.offset + data.len() <= send.limit ==> send.write(data) == (
        SendState {
            unsent: send.unsent + data,
            offset: (send.offset + data.len()) as u64,
            ..send
        }) && send.has_room(data.len()),
        send.finished || send.offset + data.len() > send.limit ==> send.write(data) == send,
        send.offset + data.len() > send.limit ==> !send.has_room(data.len()),
{
}

/// Neither a limit nor an acknowledgement goes back.
pub proof fn limits_go_up(send: SendState, n: u64)
    ensures
        send.extend(n).limit >= n,
        send.extend(n).limit >= send.limit,
        send.extend(n).limit == n || send.extend(n).limit == send.limit,
        send.extend(n) == (SendState { limit: send.extend(n).limit, ..send }),
        send.ack(n).acked >= n,
        send.ack(n).acked >= send.acked,
        send.ack(n).acked == n || send.ack(n).acked == send.acked,
        send.ack(n) == (SendState { acked: send.ack(n).acked, ..send }),
{
}

/// A chunk is as long as it may be, and starts where the unsent data starts;
/// what is left starts behind it.
pub proof fn chunks_are_long(send: SendState, max: nat)
    requires
        send.wf(),
    ensures
        send.chunk(max).0 == send.offset - send.unsent.len(),
        send.chunk(max).1.len() <= max,
        send.chunk(max).1.len() == max || send.chunk(max).1.len() == send.unsent.len(),
        send.chunk(max).1 + send.after_chunk(max).unsent == send.unsent,
        send.after_chunk(max) == (SendState { unsent: send.after_chunk(max).unsent, ..send }),
{
    assert(send.chunk(max).1 + send.after_chunk(max).unsent =~= send.unsent);
}

/// The frame carries the unsent data from this place on, as much as goes into one.
pub open spec fn is_part(frame: Seq<u8>, id: u32, send: SendState, from: int) -> bool {
    parsed_frame(frame) matches Some(f) && {
        &&& f.stream_id == id
        &&& !f.fin
        &&& f.offset == send.offset - send.unsent.len() + from
        &&& from + f.data.len() <= send.unsent.len()
        &&& f.data == send.unsent.subrange(from, from + f.data.len())
        &&& 0 < f.data.len()
        &&& f.data.len() == 1386 || from + f.data.len() == send.unsent.len()
        &&& f.data.len() <= 1386
    }
}

/// How many frames so many bytes take, with 1386 bytes in each but the last.
pub open spec fn frames_for(bytes: nat) -> nat {
    (bytes + 1385) / 1386
}

/// The unsent data goes out in order in frames of 1386 bytes, the last of which
/// may be shorter. If the stream is finished, and this was not yet said, one more
/// frame says so; it has no data and stands where the data ends.
pub proof fn frames_of_a_stream(id: u32, send: SendState)
    requires
        send.wf(),
    ensures
        ({
            let frames = all_frames(id, send);
            let n = frames_for(send.unsent.len());
            let says_end = send.finished && !send.fin_flushed;
            &&& frames.len() == n + (if says_end {
                1nat
            } else {
                0nat
            })
            &&& forall|k: int|
                0 <= k < n ==> is_part(#[trigger] frames[k], id, send, 1386 * k)
            &&& says_end ==> parsed_frame(frames[n as int]) == Some(
                (FrameFields {
                    stream_id: id,
                    offset: send.offset,
                    fin: true,
                    data: Seq::empty(),
                }),
            )
        }),
    decreases
            send.unsent.len() + (if send.fin_flushed {
                0nat
            } else {
                1nat
            }),
{
    let frames = all_frames(id, send);
    let n = frames_for(send.unsent.len());
    if send.unsent.len() > 0 {
        let next = after_frame(send);
        let rest = all_frames(id, next);
        let (offset, data) = send.chunk(1386);
        frame_round_trip(id, offset, false, data);
        frames_of_a_stream(id, next);
        assert(frames =~= seq![next_frame(id, send)->0] + rest);
        assert(data =~= send.unsent.subrange(0, data.len() as int));
        assert(is_part(frames[0], id, send, 0));
        assert(n == 1 + frames_for(next.unsent.len()));
        assert forall|k: int| 0 <= k < n implies is_part(
            #[trigger] frames[k],
            id,
            send,
            1386 * k,
        ) by {
            if k > 0 {
                assert(frames[k] == rest[k - 1]);
                assert(is_part(rest[k - 1], id, next, 1386 * (k - 1)));
                let f = parsed_frame(frames[k])->0;
                assert(next.unsent == send.unsent.skip(1386));
                assert(f.data =~= send.unsent.subrange(1386 * k, 1386 * k + f.data.len()));
            }
        }
        assert(frames.len() > n ==> frames[n as int] == rest[n - 1]);
    } else if send.finished && !send.fin_flushed {
        frame_round_trip(id, send.offset, true, Seq::empty());
        let next = after_frame(send);
        assert(all_frames(id, next).len() == 0);
        assert(frames[0] == next_frame(id, send)->0);
    }
}

// ── Receiving ────────────────────────────────────────────────────────────────
/// Data is taken wherever it has something new, ends within the stream's limit
/// and within the room behind the reading position, and is, with all that is
/// held, no more than the room. It is then held at its place, unless a longer
/// piece is held there already; all else that is held stays, and so do the
/// reading position and the limits.
pub proof fn data_within_the_limits_is_held(
    recv: RecvState,
    offset: u64,
    data: Seq<u8>,
    fin: bool,
)
    requires
        recv.wf(),
        data.len() > 0,
        offset + data.len() > recv.offset,
        offset + data.len() <= recv.limit,
        offset + data.len() <= recv.offset + recv.room,
        held(recv.segments) + data.len() <= recv.room,
    ensures
        !recv.exceeds(offset, data),
        !recv.overflows(offset, data),
        ({
            let after = recv.receive(offset, data, fin);
            &&& after.segments.contains_key(offset)
            &&& recv.segments.contains_key(offset) && data.len() <= recv.segments[offset].len()
                ==> after.segments == recv.segments
            &&& !(recv.segments.contains_key(offset) && data.len() <= recv.segments[offset].len())
                ==> after.segments == recv.segments.insert(offset, data)
            &&& after.buffered == held(after.segments)
            &&& after.offset == recv.offset
            &&& after.limit == recv.limit
            &&& after.room == recv.room
        }),
{
    held_with(recv.segments, offset, data);
}

/// Data that has nothing new is dropped without complaint. Data that has
/// something new and ends beyond the stream's limit is refused for good. Data
/// within the limit is refused for now if it ends too far behind the reading
/// position, or if there is no room for it, and else is not refused. Whatever is
/// refused, nothing that is held changes.
pub proof fn refusals_are_exact(recv: RecvState, offset: u64, data: Seq<u8>, fin: bool)
    requires
        recv.wf(),
    ensures
        ({
            let end = offset + data.len();
            let is_new = data.len() > 0 && end > recv.offset;
            let is_known = recv.segments.contains_key(offset) && data.len()
                <= recv.segments[offset].len();
            &&& recv.exceeds(offset, data) <==> is_new && end > recv.limit
            &&& recv.overflows(offset, data) <==> is_new && end <= recv.limit && !is_known && (end
                > recv.offset + recv.room || held(recv.segments.insert(offset, data)) > recv.room)
            &&& !is_new || recv.exceeds(offset, data) || recv.overflows(offset, data)
                ==> recv.receive(offset, data, fin).segments == recv.segments && recv.receive(
                offset,
                data,
                fin,
            ).buffered == recv.buffered
        }),
{
}

/// The end of a stream is where the frame that says so ends, whatever becomes of
/// its data; other frames leave it as it was. The stream is finished once
/// everything before its end was read.
pub proof fn end_is_where_it_was_said(recv: RecvState, offset: u64, data: Seq<u8>, fin: bool)
    requires
        offset + data.len() <= u64::MAX,
    ensures
        fin ==> recv.receive(offset, data, fin).fin_at == Some((offset + data.len()) as u64),
        !fin ==> recv.receive(offset, data, fin).fin_at == recv.fin_at,
        recv.finished() <==> recv.fin_at is Some && recv.fin_at->0 <= recv.offset,
        recv.receive(offset, data, fin).offset == recv.offset,
        recv.receive(offset, data, fin).limit == recv.limit,
        recv.receive(offset, data, fin).room == recv.room,
{
}

/// The byte at position `p` is held in a segment that a read may give out; where
/// segments overlap and differ, the one that starts first counts.
pub open spec fn is_held_byte(segments: Map<u64, Seq<u8>>, p: int, b: u8) -> bool {
    exists|k: u64| #[trigger]
        segments.contains_key(k) && k <= p < k + segments[k].len() && segments[k][p - k] == b
}

/// A read gives out bytes that were received for just these positions, from the
/// reading position on, and no more than were asked for.
pub proof fn reads_give_what_was_received(segments: Map<u64, Seq<u8>>, at: int, max: nat)
    requires
        segments.dom().finite(),
    ensures
        ({
            let r = drain(segments, at, max);
            &&& r.data.len() <= max
            &&& r.offset == at + r.data.len()
            &&& r.segments.dom().finite()
            &&& r.segments.dom().subset_of(segments.dom())
            &&& forall|i: int|
                0 <= i < r.data.len() ==> is_held_byte(segments, at + i, #[trigger] r.data[i])
        }),
    decreases segments.dom().len(),
{
    let r = drain(segments, at, max);
    if max == 0 || !first_reaches(segments, at) {
    } else {
        let k = first(segments);
        assert(is_first(segments, k) && k <= at) by {
            let w = choose|w: u64| #[trigger] is_first(segments, w) && w <= at;
            assert(is_first(segments, w));
        }
        let seg = segments[k];
        let others = segments.remove(k);
        let next = if k + seg.len() <= at {
            at
        } else {
            at + (seg.len() - (at - k))
        };
        let left = if k + seg.len() <= at {
            max
        } else {
            (max - (next - at)) as nat
        };
        if k + seg.len() <= at || next - at <= max {
            reads_give_what_was_received(others, next, left);
        }
        assert forall|i: int| 0 <= i < r.data.len() implies is_held_byte(
            segments,
            at + i,
            #[trigger] r.data[i],
        ) by {
            let own = next - at;
            if own > 0 && i < own {
                assert(r.data[i] == seg[at + i - k]);
                assert(segments.contains_key(k));
            } else {
                let inner = drain(others, next, left);
                assert(r.data[i] == inner.data[i - own]);
                assert(is_held_byte(others, next + (i - own), inner.data[i - own]));
                let j = choose|j: u64| #[trigger]
                    others.contains_key(j) && j <= at + i < j + others[j].len() && others[j][at + i
                        - j] == r.data[i];
                assert(segments.contains_key(j));
            }
        }
    }
}

/// A read changes nothing but what is held and the reading position, and it
/// moves on by what it gives out. It stops short of what was asked for only at
/// a byte that has not arrived.
pub proof fn reads_move_on(recv: RecvState, max: nat)
    requires
        recv.wf(),
    ensures
        ({
            let (data, after) = recv.read(max);
            &&& recv.offset + data.len() <= u64::MAX ==> after.offset == recv.offset + data.len()
            &&& data.len() <= max
            &&& after.limit == recv.limit
            &&& after.room == recv.room
            &&& after.fin_at == recv.fin_at
            &&& data.len() < max ==> !covers(recv.segments, recv.offset + data.len())
        }),
{
    let r = drain(recv.segments, recv.offset as int, max);
    reads_give_what_was_received(recv.segments, recv.offset as int, max);
    if r.data.len() < max && covers(recv.segments, recv.offset + r.data.len()) {
        let at = recv.offset as int;
        let end = at + r.data.len() + 1;
        assert forall|p: int| at <= p < end implies #[trigger] covers(recv.segments, p) by {
            if p < end - 1 {
                let i = p - at;
                assert(is_held_byte(recv.segments, at + i, r.data[i]));
                let k = choose|k: u64| #[trigger]
                    recv.segments.contains_key(k) && k <= p < k + recv.segments[k].len()
                        && recv.segments[k][p - k] == r.data[i];
            }
        }
        covered_data_is_read(recv.segments, at, max, end);
    }
}

/// What is held counts once for each byte of each segment.
pub proof fn held_bytes_add_up(segments: Map<u64, Seq<u8>>, k: u64)
    requires
        segments.dom().finite(),
    ensures
        segments.dom().len() == 0 ==> held(segments) == 0,
        segments.contains_key(k) ==> held(segments) == segments[k].len() + held(
            segments.remove(k),
        ),
{
    if segments.contains_key(k) {
        held_without(segments, k);
    }
}

} // verus!
