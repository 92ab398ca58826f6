//! What holds of what a session sends: how streams are opened and written to,
//! and in which order a flush lets their data out.

use crate::crypto::encoder::EncoderState;
use crate::error::ErrorView;
use crate::packet::PktType;
use crate::session::frame::parsed_frame;
use crate::session::halves::{frames_for, frames_of_a_stream, is_part};
use crate::session::laws::flush_order;
use crate::session::receiving::knows;
use crate::session::schedule::{
    all_frames, comes_after, frame_count, frames_after, is_schedule, scheduled, taken, taken_out,
    Slot,
};
use crate::session::state::{
    datagrams_planned, frames_planned, index_is, is_stream_at, stream_index, unique_ids,
    SessionState,
};
use crate::session::stream::{Priority, StreamId, StreamState};
use crate::session::{carry_plan, is_flush, TaggedPacket};
use vstd::prelude::*;

verus! {

// ── Opening and writing ──────────────────────────────────────────────────────
/// A stream that is opened has the priority that was asked for, whatever it is,
/// and is empty; it has room for as many received bytes as the limits say. Every
/// other stream stays as it is, and the next id is two higher.
pub proof fn opened_stream_has_its_priority(s: SessionState, priority: Priority)
    requires
        s.wf(),
        s.streams.len() < s.limits.max_streams,
        s.next_stream_id <= 0xFFFF_FFFD,
    ensures
        s.can_open(),
        ({
            let after = s.open(priority);
            let new = after.stream(s.next_stream_id);
            &&& knows(after, s.next_stream_id)
            &&& new.id == s.next_stream_id
            &&& new.priority == priority
            &&& new.send.unsent.len() == 0
            &&& new.send.offset == 0
            &&& new.send.limit == 0x1000_0000
            &&& !new.send.finished
            &&& new.recv.offset == 0
            &&& new.recv.segments == Map::<u64, Seq<u8>>::empty()
            &&& new.recv.limit == 0x1000_0000
            &&& new.recv.room == s.limits.max_recv_buffer_per_stream
            &&& new.recv.fin_at is None
            &&& after.streams.drop_last() == s.streams
            &&& after.next_stream_id == s.next_stream_id + 2
            &&& after == (SessionState {
                streams: after.streams,
                next_stream_id: after.next_stream_id,
                ..s
            })
        }),
{
    let after = s.open(priority);
    let n = s.streams.len() as int;
    assert(after.streams[n].id == s.next_stream_id);
    assert(is_stream_at(after.streams, s.next_stream_id, n));
    assert forall|i: int, j: int| 0 <= i < j < after.streams.len() implies (
    #[trigger] after.streams[i]).id != (#[trigger] after.streams[j]).id by {
        if j == n {
            assert(s.streams[i].id % 2 == s.role.parity() ==> s.streams[i].id < s.next_stream_id);
        }
    }
    index_is(after.streams, s.next_stream_id, n);
    assert(after.streams.drop_last() =~= s.streams);
}

/// No stream is opened where the session has as many as it may have, or where
/// its ids are used up, and the error says which.
pub proof fn opening_fails_at_the_limits(s: SessionState)
    ensures
        s.streams.len() >= s.limits.max_streams ==> s.open_error() == Some(
            ErrorView::StreamLimitExceeded(s.limits.max_streams),
        ),
        s.streams.len() < s.limits.max_streams && s.next_stream_id > 0xFFFF_FFFD ==> s.open_error()
            == Some(ErrorView::StreamIdsExhausted),
        s.can_open() <==> s.open_error() is None,
{
}

/// Data is taken exactly where the connection has credit for it and the stream
/// is there, is not finished and has credit for it. It then goes behind what waits
/// in its stream, and counts against both limits; every other stream stays as it
/// is. Data that is refused changes nothing.
pub proof fn written_data_goes_to_its_stream(s: SessionState, id: StreamId, data: Seq<u8>)
    requires
        s.wf(),
    ensures
        ({
            let after = s.send(id, data);
            let old_send = s.stream(id).send;
            let taken = s.send_window.consumed + data.len() <= s.send_window.limit && knows(s, id)
                && !old_send.finished && old_send.offset + data.len() <= old_send.limit;
            &&& taken <==> s.send_error(id, data) is None
            &&& taken ==> {
                let new_send = after.stream(id).send;
                &&& new_send.unsent == old_send.unsent + data
                &&& new_send.offset == old_send.offset + data.len()
                &&& new_send.limit == old_send.limit
                &&& new_send.finished == old_send.finished
                &&& new_send.fin_flushed == old_send.fin_flushed
                &&& after.stream(id).recv == s.stream(id).recv
                &&& after.stream(id).priority == s.stream(id).priority
                &&& after.send_window.consumed == s.send_window.consumed + data.len()
                &&& after.send_window.limit == s.send_window.limit
                &&& forall|other: StreamId|
                    other != id && #[trigger] knows(s, other) ==> after.stream(other) == s.stream(
                        other,
                    )
                &&& after == (SessionState {
                    streams: after.streams,
                    send_window: after.send_window,
                    ..s
                })
            }
            &&& !taken ==> after == s
        }),
{
    let after = s.send(id, data);
    knows_is_has(s, id);
    if s.send_error(id, data) is None {
        let i = stream_index(s.streams, id);
        assert(is_stream_at(s.streams, id, i));
        assert(s.streams[i].wf());
        assert forall|a: int, b: int| 0 <= a < b < after.streams.len() implies (
        #[trigger] after.streams[a]).id != (#[trigger] after.streams[b]).id by {
            assert(s.streams[a].id != s.streams[b].id);
        }
        assert(is_stream_at(after.streams, id, i));
        index_is(after.streams, id, i);
        assert forall|other: StreamId| other != id && #[trigger] knows(s, other) implies after.stream(
            other,
        ) == s.stream(other) by {
            knows_is_has(s, other);
            let j = stream_index(s.streams, other);
            assert(is_stream_at(s.streams, other, j));
            assert(is_stream_at(after.streams, other, j));
            index_is(after.streams, other, j);
        }
    }
}

/// Why a write fails: the connection's credit is looked at first, then whether
/// the stream is there, whether it is finished, and its own credit.
pub proof fn write_failures_are_exact(s: SessionState, id: StreamId, data: Seq<u8>)
    requires
        s.wf(),
        data.len() <= u64::MAX,
    ensures
        ({
            let e = s.send_error(id, data);
            let send = s.stream(id).send;
            if s.send_window.consumed + data.len() > s.send_window.limit {
                e == Some(
                    ErrorView::FlowControlBlocked {
                        available: (s.send_window.limit - s.send_window.consumed) as u64,
                        requested: data.len() as u64,
                    },
                )
            } else if !knows(s, id) {
                e == Some(ErrorView::UnknownStream(id))
            } else if send.finished {
                e == Some(ErrorView::StreamFinished(id))
            } else if send.offset + data.len() > send.limit {
                e == Some(
                    ErrorView::FlowControlBlocked {
                        available: (send.limit - send.offset) as u64,
                        requested: data.len() as u64,
                    },
                )
            } else {
                e is None
            }
        }),
{
    knows_is_has(s, id);
}

proof fn knows_is_has(s: SessionState, id: StreamId)
    ensures
        knows(s, id) <==> s.has_stream(id),
{
    if s.has_stream(id) {
        assert(is_stream_at(s.streams, id, stream_index(s.streams, id)));
    }
    if knows(s, id) {
        let i = choose|i: int| 0 <= i < s.streams.len() && (#[trigger] s.streams[i]).id == id;
        assert(is_stream_at(s.streams, id, i));
    }
}

// ── Order ────────────────────────────────────────────────────────────────────
/// The first part of a schedule is a schedule.
proof fn start_is_schedule(order: Seq<Slot>, streams: Seq<StreamState>, m: int)
    requires
        is_schedule(order, streams),
        0 <= m <= order.len(),
    ensures
        is_schedule(order.take(m), streams),
{
    let start = order.take(m);
    assert forall|slot: Slot| #[trigger] slot.exists_in(streams) implies start.contains(slot)
        || comes_after(start, slot, streams) by {
        if !start.contains(slot) {
            assert forall|a: int| 0 <= a < start.len() implies (#[trigger] start[a]).precedes(
                slot,
                streams,
            ) by {
                assert(start[a] == order[a]);
                if order.contains(slot) {
                    let b = order.index_of(slot);
                    if b < m {
                        assert(start[b] == slot);
                    }
                    assert(order[a].precedes(order[b], streams));
                } else {
                    assert(comes_after(order, slot, streams));
                }
            }
        }
    }
    assert forall|a: int| 0 <= a < start.len() implies (#[trigger] start[a]).exists_in(streams) by {
        assert(order[a].exists_in(streams));
    }
}

/// A schedule holds the first frames of each stream, as many as it takes of it.
proof fn first_frames_are_scheduled(order: Seq<Slot>, streams: Seq<StreamState>, j: int)
    requires
        is_schedule(order, streams),
        0 <= j < streams.len(),
    ensures
        forall|f: int|
            #[trigger] order.contains(Slot { stream: j, frame: f }) <==> 0 <= f < taken(
                order,
                j,
            ),
        taken(order, j) <= all_frames(streams[j].id, streams[j].send).len(),
    decreases order.len(),
{
    if order.len() > 0 {
        let n = order.len() - 1;
        let front = order.drop_last();
        let last = order.last();
        assert(order.take(n) =~= front);
        start_is_schedule(order, streams, n);
        first_frames_are_scheduled(front, streams, j);
        let c = taken(front, j) as int;
        assert(order[n] == last);
        assert(last.exists_in(streams));
        assert(!front.contains(last)) by {
            if front.contains(last) {
                let a = front.index_of(last);
                assert(order[a] == last);
                assert(order[a].precedes(order[n], streams));
            }
        }
        if last.stream == j {
            assert(last == Slot { stream: j, frame: last.frame });
            assert(last.frame >= c);
            if last.frame > c {
                let skipped = Slot { stream: j, frame: c };
                assert(skipped.exists_in(streams));
                assert(!front.contains(skipped));
                assert(!order.contains(skipped)) by {
                    if order.contains(skipped) {
                        let a = order.index_of(skipped);
                        if a < n {
                            assert(front[a] == skipped);
                        }
                    }
                }
                assert(comes_after(order, skipped, streams));
                assert(order[n].precedes(skipped, streams));
            }
        }
        assert forall|f: int|
            #[trigger] order.contains(Slot { stream: j, frame: f }) <==> 0 <= f < taken(
                order,
                j,
            ) by {
            let slot = Slot { stream: j, frame: f };
            if order.contains(slot) {
                let a = order.index_of(slot);
                if a < n {
                    assert(front[a] == slot);
                    assert(front.contains(slot));
                }
            }
            if front.contains(slot) {
                let a = front.index_of(slot);
                assert(order[a] == slot);
            }
            if slot == last {
                assert(order[n] == slot);
            }
        }
    }
}

/// A place in a schedule is that of the next frame of its stream.
proof fn place_is_next(order: Seq<Slot>, streams: Seq<StreamState>, a: int)
    requires
        is_schedule(order, streams),
        0 <= a < order.len(),
    ensures
        order[a].frame == taken(order.take(a), order[a].stream),
{
    let slot = order[a];
    let j = slot.stream;
    assert(slot.exists_in(streams));
    let start = order.take(a);
    let more = order.take(a + 1);
    start_is_schedule(order, streams, a);
    start_is_schedule(order, streams, a + 1);
    first_frames_are_scheduled(start, streams, j);
    first_frames_are_scheduled(more, streams, j);
    assert(more.drop_last() =~= start);
    assert(more.last() == slot);
    assert(more[a] == slot);
    assert(slot == Slot { stream: j, frame: slot.frame });
    assert(more.contains(Slot { stream: j, frame: slot.frame }));
    if start.contains(slot) {
        let b = start.index_of(slot);
        assert(order[b] == slot);
        assert(order[b].precedes(order[a], streams));
    }
    assert(!start.contains(Slot { stream: j, frame: slot.frame }));
}

/// How many of the frames belong to the stream.
pub open spec fn frames_of(frames: Seq<Seq<u8>>, id: StreamId) -> nat
    decreases frames.len(),
{
    if frames.len() == 0 {
        0
    } else {
        frames_of(frames.drop_last(), id) + (if is_frame_of(frames.last(), id) {
            1nat
        } else {
            0nat
        })
    }
}

/// The frame belongs to the stream.
pub open spec fn is_frame_of(frame: Seq<u8>, id: StreamId) -> bool {
    parsed_frame(frame) matches Some(f) && f.stream_id == id
}

/// Each frame of a stream names it.
proof fn frame_names_its_stream(streams: Seq<StreamState>, slot: Slot, id: StreamId)
    requires
        slot.exists_in(streams),
        streams[slot.stream].send.wf(),
    ensures
        is_frame_of(slot.frame_in(streams), id) <==> streams[slot.stream].id == id,
{
    let s = streams[slot.stream];
    frames_of_a_stream(s.id, s.send);
    let frames = all_frames(s.id, s.send);
    let n = frames_for(s.send.unsent.len());
    if slot.frame < n {
        assert(is_part(frames[slot.frame], s.id, s.send, 1386 * slot.frame));
    }
}

/// Counting frames by the stream they name is counting them by their place.
proof fn frames_counted(order: Seq<Slot>, streams: Seq<StreamState>, j: int)
    requires
        forall|a: int| 0 <= a < order.len() ==> (#[trigger] order[a]).exists_in(streams),
        forall|i: int| 0 <= i < streams.len() ==> (#[trigger] streams[i]).wf(),
        unique_ids(streams),
        0 <= j < streams.len(),
    ensures
        frames_of(scheduled(order, streams), streams[j].id) == taken(order, j),
    decreases order.len(),
{
    if order.len() > 0 {
        let n = order.len() - 1;
        let front = order.drop_last();
        assert forall|a: int| 0 <= a < front.len() implies (#[trigger] front[a]).exists_in(
            streams,
        ) by {
            assert(front[a] == order[a]);
        }
        frames_counted(front, streams, j);
        assert(scheduled(order, streams).drop_last() =~= scheduled(front, streams));
        let last = order[n];
        assert(last.exists_in(streams));
        assert(streams[last.stream].wf());
        frame_names_its_stream(streams, last, streams[j].id);
        if last.stream < j {
            assert(streams[last.stream].id != streams[j].id);
        } else if j < last.stream {
            assert(streams[j].id != streams[last.stream].id);
        }
    }
}

proof fn turns_are_taken(
    before: SessionState,
    start: Seq<Slot>,
    order: Seq<Slot>,
    m: int,
    one: StreamId,
    two: StreamId,
)
    requires
        before.wf(),
        is_schedule(order, before.streams),
        0 <= m <= order.len(),
        start == order.take(m),
        knows(before, one),
        knows(before, two),
        before.stream(one).priority == before.stream(two).priority,
        frames_of(scheduled(start, before.streams), one) < all_frames(
            one,
            before.stream(one).send,
        ).len(),
    ensures
        frames_of(scheduled(start, before.streams), two) <= frames_of(
            scheduled(start, before.streams),
            one,
        ) + 1,
{
    let streams = before.streams;
    knows_is_has(before, one);
    knows_is_has(before, two);
    let i = stream_index(streams, one);
    let j = stream_index(streams, two);
    assert(is_stream_at(streams, one, i));
    assert(is_stream_at(streams, two, j));
    start_is_schedule(order, streams, m);
    assert forall|a: int| 0 <= a < start.len() implies (#[trigger] start[a]).exists_in(streams) by {
        assert(start[a] == order[a]);
    }
    frames_counted(start, streams, i);
    frames_counted(start, streams, j);
    first_frames_are_scheduled(start, streams, i);
    first_frames_are_scheduled(start, streams, j);
    let mine = taken(start, i) as int;
    let theirs = taken(start, j) as int;
    if theirs > mine + 1 {
        let waiting = Slot { stream: i, frame: mine };
        let ahead = Slot { stream: j, frame: mine + 1 };
        assert(waiting.exists_in(streams));
        assert(!start.contains(waiting));
        assert(comes_after(start, waiting, streams));
        assert(start.contains(ahead));
        let a = start.index_of(ahead);
        assert(start[a].precedes(waiting, streams));
    }
}

/// Each of the frames is the next frame of its stream.
pub open spec fn are_next_frames(before: SessionState, frames: Seq<Seq<u8>>) -> bool {
    forall|x: int| #![trigger frames[x]]
        0 <= x < frames.len() ==> (parsed_frame(frames[x]) matches Some(f) && knows(
            before,
            f.stream_id,
        ) && {
            let all = all_frames(f.stream_id, before.stream(f.stream_id).send);
            let done = frames_of(frames.take(x), f.stream_id);
            done < all.len() && frames[x] == all[done as int]
        })
}

/// Of two streams with different priorities, every frame of the one with the
/// lower number comes before every frame of the other.
pub open spec fn urgent_come_first(before: SessionState, frames: Seq<Seq<u8>>) -> bool {
    forall|x: int, y: int, one: StreamId, two: StreamId| #![trigger is_frame_of(
        frames[x],
        one,
    ), is_frame_of(frames[y], two)]
        0 <= x < frames.len() && 0 <= y < frames.len() && is_frame_of(frames[x], one)
            && is_frame_of(frames[y], two) && before.stream(one).priority < before.stream(
            two,
        ).priority ==> x < y
}

/// A stream has a frame among these only if every stream whose priority has a
/// lower number has all of its frames among them.
pub open spec fn urgent_go_whole(before: SessionState, frames: Seq<Seq<u8>>) -> bool {
    forall|y: int, one: StreamId, two: StreamId| #![trigger knows(before, one), is_frame_of(
        frames[y],
        two,
    )]
        0 <= y < frames.len() && is_frame_of(frames[y], two) && knows(before, one)
            && before.stream(one).priority < before.stream(two).priority ==> frames_of(
            frames,
            one,
        ) == all_frames(one, before.stream(one).send).len()
}

/// Streams of the same priority take turns: at no point has one of them two
/// frames more than another that has frames left.
pub open spec fn equals_take_turns(before: SessionState, frames: Seq<Seq<u8>>) -> bool {
    forall|m: int, one: StreamId, two: StreamId| #![trigger frames_of(
        frames.take(m),
        one,
    ), frames_of(frames.take(m), two)]
        0 <= m <= frames.len() && knows(before, one) && knows(before, two) && before.stream(
            one,
        ).priority == before.stream(two).priority && frames_of(frames.take(m), one) < all_frames(
            one,
            before.stream(one).send,
        ).len() ==> frames_of(frames.take(m), two) <= frames_of(frames.take(m), one) + 1
}

/// Each stream has all of its frames left but these.
pub open spec fn rest_is_left(
    before: SessionState,
    frames: Seq<Seq<u8>>,
    after: SessionState,
) -> bool {
    forall|id: StreamId| #[trigger]
        knows(before, id) ==> knows(after, id) && all_frames(id, after.stream(id).send)
            == all_frames(id, before.stream(id).send).skip(frames_of(frames, id) as int)
}

proof fn frame_has_its_place(before: SessionState, order: Seq<Slot>, x: int, id: StreamId)
    requires
        before.wf(),
        is_schedule(order, before.streams),
        0 <= x < order.len(),
        is_frame_of(scheduled(order, before.streams)[x], id),
    ensures
        knows(before, id),
        order[x].exists_in(before.streams),
        order[x].stream == stream_index(before.streams, id),
        before.stream(id) == before.streams[order[x].stream],
{
    let streams = before.streams;
    let slot = order[x];
    assert(slot.exists_in(streams));
    assert(streams[slot.stream].wf());
    frame_names_its_stream(streams, slot, id);
    assert(is_stream_at(streams, id, slot.stream));
    index_is(streams, id, slot.stream);
}

proof fn scheduled_are_next(before: SessionState, order: Seq<Slot>)
    requires
        before.wf(),
        is_schedule(order, before.streams),
    ensures
        are_next_frames(before, scheduled(order, before.streams)),
{
    let streams = before.streams;
    let frames = scheduled(order, streams);
    assert forall|x: int| #![trigger frames[x]] 0 <= x < frames.len() implies (parsed_frame(
        frames[x],
    ) matches Some(f) && knows(before, f.stream_id) && {
        let all = all_frames(f.stream_id, before.stream(f.stream_id).send);
        let done = frames_of(frames.take(x), f.stream_id);
        done < all.len() && frames[x] == all[done as int]
    }) by {
        let slot = order[x];
        assert(slot.exists_in(streams));
        let j = slot.stream;
        assert(streams[j].wf());
        let id = streams[j].id;
        frame_names_its_stream(streams, slot, id);
        frame_has_its_place(before, order, x, id);
        place_is_next(order, streams, x);
        start_is_schedule(order, streams, x);
        frames_counted(order.take(x), streams, j);
        assert(scheduled(order.take(x), streams) =~= frames.take(x));
    }
}

proof fn scheduled_by_priority(before: SessionState, order: Seq<Slot>)
    requires
        before.wf(),
        is_schedule(order, before.streams),
    ensures
        urgent_come_first(before, scheduled(order, before.streams)),
{
    let streams = before.streams;
    let frames = scheduled(order, streams);
    assert forall|x: int, y: int, one: StreamId, two: StreamId| #![trigger is_frame_of(
        frames[x],
        one,
    ), is_frame_of(frames[y], two)]
        0 <= x < frames.len() && 0 <= y < frames.len() && is_frame_of(frames[x], one)
            && is_frame_of(frames[y], two) && before.stream(one).priority < before.stream(
            two,
        ).priority implies x < y by {
        frame_has_its_place(before, order, x, one);
        frame_has_its_place(before, order, y, two);
        if y < x {
            assert(order[y].precedes(order[x], streams));
        }
    }
}

proof fn scheduled_whole(before: SessionState, order: Seq<Slot>)
    requires
        before.wf(),
        is_schedule(order, before.streams),
    ensures
        urgent_go_whole(before, scheduled(order, before.streams)),
{
    let streams = before.streams;
    let frames = scheduled(order, streams);
    assert forall|y: int, one: StreamId, two: StreamId| #![trigger knows(before, one), is_frame_of(
        frames[y],
        two,
    )]
        0 <= y < frames.len() && is_frame_of(frames[y], two) && knows(before, one)
            && before.stream(one).priority < before.stream(two).priority implies frames_of(
        frames,
        one,
    ) == all_frames(one, before.stream(one).send).len() by {
        frame_has_its_place(before, order, y, two);
        knows_is_has(before, one);
        let j = stream_index(streams, one);
        assert(is_stream_at(streams, one, j));
        frames_counted(order, streams, j);
        first_frames_are_scheduled(order, streams, j);
        let c = taken(order, j) as int;
        let slot = Slot { stream: j, frame: c };
        if c < all_frames(one, streams[j].send).len() {
            assert(slot.exists_in(streams));
            assert(!order.contains(Slot { stream: j, frame: c }));
            assert(comes_after(order, slot, streams));
            assert(order[y].precedes(slot, streams));
        }
    }
}

proof fn scheduled_in_turns(before: SessionState, order: Seq<Slot>)
    requires
        before.wf(),
        is_schedule(order, before.streams),
    ensures
        equals_take_turns(before, scheduled(order, before.streams)),
{
    let streams = before.streams;
    let frames = scheduled(order, streams);
    assert forall|m: int, one: StreamId, two: StreamId| #![trigger frames_of(
        frames.take(m),
        one,
    ), frames_of(frames.take(m), two)]
        0 <= m <= frames.len() && knows(before, one) && knows(before, two) && before.stream(
            one,
        ).priority == before.stream(two).priority && frames_of(frames.take(m), one) < all_frames(
            one,
            before.stream(one).send,
        ).len() implies frames_of(frames.take(m), two) <= frames_of(frames.take(m), one) + 1 by {
        let start = order.take(m);
        assert(scheduled(start, streams) =~= frames.take(m));
        turns_are_taken(before, start, order, m, one, two);
    }
}

proof fn scheduled_leave_the_rest(before: SessionState, order: Seq<Slot>, after: SessionState)
    requires
        before.wf(),
        is_schedule(order, before.streams),
        after.streams == taken_out(before.streams, order),
    ensures
        rest_is_left(before, scheduled(order, before.streams), after),
{
    let streams = before.streams;
    let frames = scheduled(order, streams);
    assert forall|a: int, b: int| 0 <= a < b < after.streams.len() implies (
    #[trigger] after.streams[a]).id != (#[trigger] after.streams[b]).id by {
        assert(streams[a].id != streams[b].id);
    }
    assert forall|id: StreamId| #[trigger] knows(before, id) implies knows(after, id)
        && all_frames(id, after.stream(id).send) == all_frames(id, before.stream(id).send).skip(
        frames_of(frames, id) as int,
    ) by {
        knows_is_has(before, id);
        let j = stream_index(streams, id);
        assert(is_stream_at(streams, id, j));
        frames_counted(order, streams, j);
        first_frames_are_scheduled(order, streams, j);
        frames_after(id, streams[j].send, taken(order, j));
        assert(after.streams[j].id == id);
        assert(is_stream_at(after.streams, id, j));
        index_is(after.streams, id, j);
    }
}

/// The packet carries no stream data.
pub open spec fn is_no_data(e: EncoderState, packet: Seq<u8>) -> bool {
    exists|t: PktType, payload: Seq<u8>|
        t != PktType::Data && #[trigger] e.reads_back(packet, t, payload)
}

/// These are the stream frames that the packets carry: they come first, in
/// packets that are not control packets, and the packets behind them carry no
/// stream data.
pub open spec fn are_flushed(
    before: SessionState,
    packets: Seq<TaggedPacket>,
    frames: Seq<Seq<u8>>,
) -> bool {
    &&& frames.len() <= packets.len()
    &&& forall|k: int| #![trigger packets[k]]
        0 <= k < frames.len() ==> !packets[k].is_control && before.encoder.advance(
            k as nat,
        ).reads_back(packets[k].bytes@, PktType::Data, frames[k])
    &&& forall|k: int| #![trigger packets[k]]
        frames.len() <= k < packets.len() ==> is_no_data(
            before.encoder.advance(k as nat),
            packets[k].bytes@,
        )
}

proof fn planned_are_flushed(
    before: SessionState,
    packets: Seq<TaggedPacket>,
    frames: Seq<Seq<u8>>,
    n: nat,
)
    requires
        carry_plan(packets, before.plan(frames, n), before.encoder),
    ensures
        are_flushed(before, packets, frames),
{
    let plan = before.plan(frames, n);
    assert forall|k: int| #![trigger packets[k]] 0 <= k < frames.len() implies
        !packets[k].is_control && before.encoder.advance(k as nat).reads_back(
        packets[k].bytes@,
        PktType::Data,
        frames[k],
    ) by {
        assert(plan[k] == frames_planned(frames)[k]);
    }
    assert forall|k: int| #![trigger packets[k]]
        frames.len() <= k < packets.len() implies is_no_data(
        before.encoder.advance(k as nat),
        packets[k].bytes@,
    ) by {
        rest_is_no_data(before, frames, n, k);
        assert(before.encoder.advance(k as nat).reads_back(
            packets[k].bytes@,
            plan[k].pkt_type,
            plan[k].payload,
        ));
    }
}

proof fn scheduled_in_order(before: SessionState, order: Seq<Slot>, after: SessionState)
    requires
        before.wf(),
        is_schedule(order, before.streams),
        after.streams == taken_out(before.streams, order),
    ensures
        are_in_order(before, scheduled(order, before.streams), after),
{
    scheduled_are_next(before, order);
    scheduled_by_priority(before, order);
    scheduled_whole(before, order);
    scheduled_in_turns(before, order);
    scheduled_leave_the_rest(before, order, after);
}

/// The frames leave the session `before` in the right order, and the session
/// `after` has the rest.
pub open spec fn are_in_order(
    before: SessionState,
    frames: Seq<Seq<u8>>,
    after: SessionState,
) -> bool {
    &&& are_next_frames(before, frames)
    &&& urgent_come_first(before, frames)
    &&& urgent_go_whole(before, frames)
    &&& equals_take_turns(before, frames)
    &&& rest_is_left(before, frames, after)
}

/// The stream frames in the packets of a flush leave it in the right order. No
/// more go than may be put into flight; without a budget, all go that may.
pub proof fn flushed_frames(
    before: SessionState,
    now: u64,
    budget: Option<u64>,
    packets: Vec<TaggedPacket>,
    after: SessionState,
) -> (frames: Seq<Seq<u8>>)
    requires
        before.wf(),
        is_flush(before, now, budget, Ok(packets), after),
    ensures
        are_flushed(before, packets@, frames),
        are_in_order(before, frames, after),
        frames.len() <= before.limits.max_in_flight_packets - before.arq.in_flight.len(),
        budget is None && frames.len() < before.limits.max_in_flight_packets
            - before.arq.in_flight.len() ==> frames.len() == frame_count(before.streams),
{
    let order = flush_order(before, now, budget, packets, after);
    let frames = scheduled(order, before.streams);
    assert(are_flushed(before, packets@, frames)) by {
        planned_are_flushed(
            before,
            packets@,
            frames,
            before.datagrams_due(frames, budget),
        );
    }
    assert(are_in_order(before, frames, after)) by {
        scheduled_in_order(before, order, after);
    }
    frames
}

/// Of two streams opened one after the other, with different priorities, the
/// order of their frames in a flush follows the priorities that were asked for,
/// whatever was written to them and to other streams meanwhile.
pub proof fn asked_priority_decides(
    s: SessionState,
    one: Priority,
    two: Priority,
    before: SessionState,
    now: u64,
    budget: Option<u64>,
    packets: Vec<TaggedPacket>,
    after: SessionState,
)
    requires
        s.wf(),
        s.can_open(),
        s.open(one).wf(),
        s.open(one).can_open(),
        one < two,
        before.wf(),
        before.stream(s.next_stream_id).priority == s.open(one).open(two).stream(
            s.next_stream_id,
        ).priority,
        before.stream((s.next_stream_id + 2) as u32).priority == s.open(one).open(two).stream(
            (s.next_stream_id + 2) as u32,
        ).priority,
        is_flush(before, now, budget, Ok(packets), after),
    ensures
        exists|frames: Seq<Seq<u8>>| #[trigger]
            are_flushed(before, packets@, frames) && forall|x: int, y: int| #![trigger frames[x], frames[y]]
                0 <= x < frames.len() && 0 <= y < frames.len() && is_frame_of(
                    frames[x],
                    s.next_stream_id,
                ) && is_frame_of(frames[y], (s.next_stream_id + 2) as u32) ==> x < y,
{
    let a = s.next_stream_id;
    let b = (s.next_stream_id + 2) as u32;
    let first = s.open(one);
    let second = first.open(two);
    opened_stream_has_its_priority(s, one);
    opened_stream_has_its_priority(first, two);
    let n = s.streams.len() as int;
    assert(first.streams[n].id == a);
    assert(is_stream_at(first.streams, a, n));
    index_is(first.streams, a, n);
    assert(is_stream_at(second.streams, a, n));
    assert(is_stream_at(second.streams, b, n + 1));
    assert forall|i: int, j: int| 0 <= i < j < second.streams.len() implies (
    #[trigger] second.streams[i]).id != (#[trigger] second.streams[j]).id by {
        if j == n + 1 {
            assert(first.streams[i].id % 2 == s.role.parity() ==> first.streams[i].id
                < first.next_stream_id);
        }
    }
    index_is(second.streams, a, n);
    index_is(second.streams, b, n + 1);
    let frames = flushed_frames(before, now, budget, packets, after);
    assert(are_flushed(before, packets@, frames));
    assert forall|x: int, y: int| #![trigger frames[x], frames[y]]
        0 <= x < frames.len() && 0 <= y < frames.len() && is_frame_of(frames[x], a) && is_frame_of(
            frames[y],
            b,
        ) implies x < y by {
        assert(is_frame_of(frames[x], a) && is_frame_of(frames[y], b));
    }
}

/// What a flush plans behind the stream frames is not stream data.
proof fn rest_is_no_data(s: SessionState, frames: Seq<Seq<u8>>, n: nat, k: int)
    requires
        frames.len() <= k < s.plan(frames, n).len(),
    ensures
        s.plan(frames, n)[k].pkt_type != PktType::Data,
{
    let streams_part = frames_planned(frames);
    let datagrams_part = datagrams_planned(
        s.datagrams.outgoing.take(n as int),
    );
    let both = streams_part + datagrams_part;
    if k < both.len() {
        assert(s.plan(frames, n)[k] == datagrams_part[k - frames.len()]);
    } else {
        assert(s.plan(frames, n)[k] == s.control_packets()[k - both.len()]);
    }
}

} // verus!
