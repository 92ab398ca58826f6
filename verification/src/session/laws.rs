//! What holds between the two sides of a session, and over several calls.

use crate::crypto::decoder::DecoderState;
use crate::crypto::encoder::EncoderState;
use crate::crypto::format::{has_packet_length, Decoding};
use crate::packet::{code_round_trip, PktType};
use crate::session::ack::{in_ranges, parsed_ack, AckState};
use crate::session::arq::{acknowledged, flying, ArqState, Sent};
use crate::session::datagram::no_more_fit;
use crate::session::frame::{frame_round_trip, parsed_frame, stream_frame, FrameFields};
use crate::session::schedule::{
    after_frame, all_frames, carries, carries_byte, cost, drained, frame_count, frame_count_zero,
    frames_carry_data, frames_drain, has_byte, is_longest, load, next_frame, scheduled, taken, Slot,
    MAX_CHUNK,
};
use crate::session::state::{
    datagrams_planned, frames_planned, frames_sent, index_is, is_stream_at, own_count, own_count_push,
    ranges_acknowledged, stream_index, Planned, SessionState,
};
use crate::session::stream::{
    agree, chunk_is_written_data, covered_data_is_read, covers, drain, first_exists, held,
    held_with, held_without, is_first, reads_are_the_source, reads_keep_the_rest,
    receive_agrees, received_bytes_stay,
    Priority, RecvState, SendState, StreamId, StreamState,
};
use crate::session::{carry_plan, data_bytes, is_flush, TaggedPacket};
use crate::wire::{be_bytes, le_bytes, le_bytes_len, le_round_trip, pow256_values};
use vstd::prelude::*;

verus! {

// ── Stream ids ───────────────────────────────────────────────────────────────
/// A stream that is opened gets an id that no stream of the session has, of
/// this side's parity.
pub proof fn opened_id_is_new(s: SessionState, priority: Priority)
    requires
        s.wf(),
        s.can_open(),
    ensures
        !s.has_stream(s.next_stream_id),
        s.next_stream_id % 2 == s.role.parity(),
        s.open(priority).has_stream(s.next_stream_id),
        s.open(priority).next_stream_id > s.next_stream_id,
{
    let id = s.next_stream_id;
    if s.has_stream(id) {
        let i = stream_index(s.streams, id);
        assert(is_stream_at(s.streams, id, i));
        assert(s.streams[i].id == id);
    }
    assert(is_stream_at(s.open(priority).streams, id, s.streams.len() as int));
}

/// Streams are opened under the ids first, first + 2, first + 4 and so on: the
/// next one has the id that follows from how many this side has opened. It can
/// be opened unless the session has as many streams as it may have, or the ids
/// are used up, which takes a limit of more than half of them. Opening it counts
/// it; frames from the peer do not.
pub proof fn opened_ids_count_up(s: SessionState, priority: Priority, f: FrameFields)
    requires
        s.wf(),
    ensures
        s.next_stream_id == s.role.first_id() + 2 * own_count(s.streams, s.role.parity()),
        s.can_open() <==> s.streams.len() < s.limits.max_streams && s.role.first_id() + 2
            * own_count(s.streams, s.role.parity()) <= u32::MAX - 2,
        s.limits.max_streams <= 0x7FFF_FFFE ==> (s.can_open() <==> s.streams.len()
            < s.limits.max_streams),
        own_count(s.open(priority).streams, s.role.parity()) == own_count(
            s.streams,
            s.role.parity(),
        ) + 1,
        s.on_frame(f).next_stream_id == s.next_stream_id,
{
    own_count_push(s.streams, s.new_stream(s.next_stream_id, priority), s.role.parity());
}

/// However a session came about, it has no more streams, no more packets in
/// flight and no more received bytes of a stream than its limits say.
pub proof fn limits_hold(s: SessionState, id: StreamId)
    requires
        s.wf(),
    ensures
        s.streams.len() <= s.limits.max_streams,
        s.arq.in_flight.len() <= s.limits.max_in_flight_packets,
        s.has_stream(id) ==> held(s.stream(id).recv.segments)
            <= s.limits.max_recv_buffer_per_stream,
{
    if s.has_stream(id) {
        let i = stream_index(s.streams, id);
        assert(is_stream_at(s.streams, id, i));
        assert(s.streams[i].wf());
        assert(s.streams[i].recv.room == s.limits.max_recv_buffer_per_stream);
    }
}

/// At the stream limit a frame for an unknown stream changes nothing and fails.
pub proof fn no_stream_beyond_limit(s: SessionState, f: FrameFields)
    requires
        s.wf(),
        s.streams.len() >= s.limits.max_streams,
        !s.has_stream(f.stream_id),
    ensures
        s.on_frame(f) == s,
        s.frame_error(f) is Some,
{
}

/// The two sides never choose the same id.
pub proof fn sides_never_collide(client: SessionState, server: SessionState)
    requires
        client.wf(),
        server.wf(),
        client.role != server.role,
    ensures
        client.next_stream_id != server.next_stream_id,
{
}

// ── Packets ──────────────────────────────────────────────────────────────────
/// A packet that one side built is decoded by the other side, which has the
/// same keys and has not seen the packet's number.
pub proof fn built_packet_is_decoded(
    e: EncoderState,
    d: DecoderState,
    packet: Seq<u8>,
    pkt_type: PktType,
    payload: Seq<u8>,
)
    requires
        e.keys == d.keys,
        e.reads_back(packet, pkt_type, payload),
        has_packet_length(packet),
        d.replay.is_fresh(e.next),
    ensures
        d.decoding(packet) == (Decoding::Packet { pkt_type, pkt_num: e.next, payload }),
{
    code_round_trip(pkt_type);
}

/// Every packet of a flush is decoded by the other side, which has the same
/// keys and has not seen the packet's number, as what was planned.
pub proof fn flushed_packets_are_decoded(
    before: SessionState,
    now: u64,
    budget: Option<u64>,
    packets: Vec<TaggedPacket>,
    after: SessionState,
    d: DecoderState,
    k: int,
)
    requires
        is_flush(before, now, budget, Ok(packets), after),
        0 <= k < packets@.len(),
        before.encoder.keys == d.keys,
        d.replay.is_fresh((before.encoder.next + k) as u64),
    ensures
        exists|order: Seq<Slot>| #[trigger]
            is_longest(order, before.streams, before.free_slots(), budget) && {
                let frames = scheduled(order, before.streams);
                let n = before.datagrams_due(frames, budget);
                let planned = before.plan(frames, n)[k];
                &&& after == before.flushed(order, n, now)
                &&& d.decoding(packets@[k].bytes@) == (Decoding::Packet {
                    pkt_type: planned.pkt_type,
                    pkt_num: (before.encoder.next + k) as u64,
                    payload: planned.payload,
                })
            },
{
    let order = flush_order(before, now, budget, packets, after);
    let frames = scheduled(order, before.streams);
    let planned = before.plan(frames, before.datagrams_due(frames, budget))[k];
    built_packet_is_decoded(
        before.encoder.advance(k as nat),
        d,
        packets@[k].bytes@,
        planned.pkt_type,
        planned.payload,
    );
}

/// The schedule of a flush.
pub proof fn flush_order(
    before: SessionState,
    now: u64,
    budget: Option<u64>,
    packets: Vec<TaggedPacket>,
    after: SessionState,
) -> (order: Seq<Slot>)
    requires
        is_flush(before, now, budget, Ok(packets), after),
    ensures
        is_longest(order, before.streams, before.free_slots(), budget),
        budget is None ==> order.len() == before.frames_due(),
        ({
            let frames = scheduled(order, before.streams);
            let n = before.datagrams_due(frames, budget);
            &&& carry_plan(packets@, before.plan(frames, n), before.encoder)
            &&& after == before.flushed(order, n, now)
            &&& frame_count(after.streams) == frame_count(before.streams) - order.len()
        }),
{
    choose|order: Seq<Slot>| #[trigger]
        is_longest(order, before.streams, before.free_slots(), budget) && {
            let frames = scheduled(order, before.streams);
            let n = before.datagrams_due(frames, budget);
            &&& budget is None ==> order.len() == before.frames_due()
            &&& carry_plan(packets@, before.plan(frames, n), before.encoder)
            &&& after == before.flushed(order, n, now)
            &&& frame_count(after.streams) == frame_count(before.streams) - order.len()
        }
}

// ── Delivery ─────────────────────────────────────────────────────────────────
/// A frame for a stream that the session has, or that its peer may open, and
/// for which there is room, changes that stream as `receive` does, and leaves
/// every other stream alone.
pub proof fn frame_reaches_its_stream(s: SessionState, frame: Seq<u8>, f: FrameFields, now: u64)
    requires
        s.wf(),
        parsed_frame(frame) == Some(f),
        !s.wrong_parity(f),
        !s.one_too_many(f),
        !s.overflows(f),
    ensures
        ({
            let after = s.on_payload(PktType::Data, frame, now);
            &&& after.has_stream(f.stream_id)
            &&& after.stream(f.stream_id).recv == s.recv_of(f).receive(f.offset, f.data, f.fin)
            &&& forall|other: StreamId|
                other != f.stream_id && #[trigger] s.has_stream(other) ==> after.has_stream(other)
                    && after.stream(other) == s.stream(other)
        }),
{
    let id = f.stream_id;
    let opened = s.with_consumed(f.data.len()).with_stream_of(f);
    let after = s.on_payload(PktType::Data, frame, now);
    let i = if s.has_stream(id) {
        stream_index(s.streams, id)
    } else {
        s.streams.len() as int
    };
    assert(is_stream_at(opened.streams, id, i));
    assert forall|a: int, b: int| 0 <= a < b < opened.streams.len() implies (
    #[trigger] opened.streams[a]).id != (#[trigger] opened.streams[b]).id by {
        if b == s.streams.len() {
            assert(!is_stream_at(s.streams, id, a));
        }
    }
    index_is(opened.streams, id, i);
    assert(is_stream_at(after.streams, id, i));
    index_is(after.streams, id, i);
    assert forall|other: StreamId| other != id && #[trigger] s.has_stream(other) implies
        after.has_stream(other) && after.stream(other) == s.stream(other) by {
        let j = stream_index(s.streams, other);
        assert(is_stream_at(s.streams, other, j));
        assert(is_stream_at(after.streams, other, j));
        index_is(after.streams, other, j);
    }
}

/// The receiving half after these frames of its stream.
pub open spec fn takes(recv: RecvState, frames: Seq<Seq<u8>>) -> RecvState
    decreases frames.len(),
{
    if frames.len() == 0 {
        recv
    } else {
        let before = takes(recv, frames.drop_last());
        match parsed_frame(frames.last()) {
            Some(f) => before.receive(f.offset, f.data, f.fin),
            None => before,
        }
    }
}

/// The frame's data has the full length and lies at a multiple of it, or
/// reaches to the end of `written`.
pub open spec fn is_full(frame: Seq<u8>, written: Seq<u8>) -> bool {
    parsed_frame(frame) matches Some(f) && f.data.len() <= MAX_CHUNK && (f.data.len() == MAX_CHUNK
        || f.offset + f.data.len() == written.len()) && (f.data.len() > 0 ==> f.offset % (
    MAX_CHUNK as u64) == 0)
}

/// Every segment has the full length and lies at a multiple of it, or reaches
/// to the end of `written`.
pub open spec fn all_full(segments: Map<u64, Seq<u8>>, written: Seq<u8>) -> bool {
    forall|k: u64| #[trigger]
        segments.contains_key(k) ==> segments[k].len() <= MAX_CHUNK && (segments[k].len()
            == MAX_CHUNK || k + segments[k].len() == written.len()) && k % (MAX_CHUNK as u64) == 0
}

/// No two segments overlap, and all lie between `from` and `to`.
pub open spec fn apart(segments: Map<u64, Seq<u8>>, from: int, to: int) -> bool {
    &&& forall|k: u64| #[trigger]
        segments.contains_key(k) ==> from <= k && k + segments[k].len() <= to
    &&& forall|j: u64, k: u64| #[trigger]
        segments.contains_key(j) && #[trigger] segments.contains_key(k) && j < k ==> j
            + segments[j].len() <= k
}

/// Segments that do not overlap hold no more bytes than lie between their ends.
pub proof fn apart_segments_fit(segments: Map<u64, Seq<u8>>, from: int, to: int)
    requires
        segments.dom().finite(),
        apart(segments, from, to),
        from <= to,
    ensures
        held(segments) <= to - from,
    decreases segments.dom().len(),
{
    if segments.dom().len() > 0 {
        let w = segments.dom().choose();
        assert(segments.dom().contains(w));
        first_exists(segments, w);
        let k = choose|k: u64| #[trigger] is_first(segments, k);
        let rest = segments.remove(k);
        held_without(segments, k);
        assert forall|j: u64| #[trigger] rest.contains_key(j) implies k + segments[k].len() <= j
            by {
            assert(segments.contains_key(j));
        }
        apart_segments_fit(rest, k + segments[k].len(), to);
    }
}

/// A stream never stalls for want of room: where what it holds does not
/// overlap, the data at the reading position is taken, however much is held
/// behind it.
pub proof fn next_data_has_room(recv: RecvState, data: Seq<u8>)
    requires
        recv.wf(),
        apart(recv.segments, recv.offset + data.len(), recv.offset + recv.room),
        recv.offset + data.len() <= recv.limit,
        data.len() <= recv.room,
    ensures
        !recv.overflows(recv.offset, data),
{
    held_with(recv.segments, recv.offset, data);
    apart_segments_fit(recv.segments, recv.offset + data.len(), recv.offset + recv.room);
}

/// A stream's frames are as long as a frame can be, but for the last.
proof fn frames_are_full(id: u32, send: SendState, written: Seq<u8>)
    requires
        send.wf(),
        send.is_tail_of(written),
        send.unsent.len() > 0 ==> send.next() % (MAX_CHUNK as u64) == 0,
    ensures
        forall|k: int|
            0 <= k < all_frames(id, send).len() ==> is_full(
                #[trigger] all_frames(id, send)[k],
                written,
            ),
    decreases
            send.unsent.len() + (if send.fin_flushed {
                0nat
            } else {
                1nat
            }),
{
    if next_frame(id, send) is Some {
        let frames = all_frames(id, send);
        let rest = all_frames(id, after_frame(send));
        if send.unsent.len() > 0 {
            let (offset, data) = send.chunk(MAX_CHUNK as nat);
            chunk_is_written_data(send, written, MAX_CHUNK as nat);
            frame_round_trip(id, offset, false, data);
            if after_frame(send).unsent.len() > 0 {
                assert(after_frame(send).next() == offset + MAX_CHUNK);
            }
        } else {
            frame_round_trip(id, send.offset, true, Seq::empty());
        }
        frames_are_full(id, after_frame(send), written);
        assert forall|k: int| 0 <= k < frames.len() implies is_full(
            #[trigger] frames[k],
            written,
        ) by {
            if k > 0 {
                assert(frames[k] == rest[k - 1]);
            }
        }
    }
}

/// One of the frames ends its stream.
pub open spec fn has_end(frames: Seq<Seq<u8>>) -> bool {
    exists|k: int| 0 <= k < frames.len() && ends(#[trigger] frames[k])
}

/// The frame ends its stream.
pub open spec fn ends(frame: Seq<u8>) -> bool {
    parsed_frame(frame) matches Some(f) && f.fin
}

/// The frames of a stream that is finished hold its end.
proof fn end_is_sent(id: u32, send: SendState)
    requires
        send.finished,
        !send.fin_flushed,
    ensures
        has_end(all_frames(id, send)),
    decreases send.unsent.len(),
{
    let frames = all_frames(id, send);
    if send.unsent.len() > 0 {
        let rest = all_frames(id, after_frame(send));
        end_is_sent(id, after_frame(send));
        let k = choose|k: int| 0 <= k < rest.len() && ends(#[trigger] rest[k]);
        assert(frames[k + 1] == rest[k]);
    } else {
        frame_round_trip(id, send.offset, true, Seq::empty());
        assert(frames[0] == stream_frame(id, send.offset, true, Seq::empty()));
    }
}

/// The frames of a stream, in whatever order and however often they arrive,
/// fill the receiving half with the written data and nothing else.
proof fn frames_fill(recv: RecvState, id: u32, written: Seq<u8>, frames: Seq<Seq<u8>>)
    requires
        recv.wf(),
        recv.offset == 0,
        agree(recv.segments, written),
        all_full(recv.segments, written),
        written.len() <= recv.limit,
        written.len() <= recv.room,
        forall|k: int| 0 <= k < frames.len() ==> carries(#[trigger] frames[k], id, written),
        forall|k: int| 0 <= k < frames.len() ==> is_full(#[trigger] frames[k], written),
    ensures
        ({
            let after = takes(recv, frames);
            &&& after.wf()
            &&& after.offset == 0
            &&& after.limit == recv.limit
            &&& after.room == recv.room
            &&& agree(after.segments, written)
            &&& all_full(after.segments, written)
            &&& forall|p: int| #[trigger] has_byte(frames, p) ==> covers(after.segments, p)
            &&& has_end(frames) ==> after.fin_at == Some(written.len() as u64)
        }),
    decreases frames.len(),
{
    if frames.len() > 0 {
        let before = takes(recv, frames.drop_last());
        let after = takes(recv, frames);
        assert forall|k: int| 0 <= k < frames.drop_last().len() implies carries(
            #[trigger] frames.drop_last()[k],
            id,
            written,
        ) && is_full(frames.drop_last()[k], written) by {
            assert(frames.drop_last()[k] == frames[k]);
        }
        frames_fill(recv, id, written, frames.drop_last());
        let last = frames.last();
        assert(last == frames[frames.len() - 1]);
        assert(carries(last, id, written));
        assert(is_full(last, written));
        let f = parsed_frame(last)->0;
        receive_agrees(before, written, f.offset, f.data, f.fin);
        assert(!before.exceeds(f.offset, f.data));
        if !before.is_stale(f.offset, f.data) {
            let more = before.segments.insert(f.offset, f.data);
            assert(apart(more, 0, written.len() as int));
            apart_segments_fit(more, 0, written.len() as int);
        }
        assert(!before.overflows(f.offset, f.data));
        if has_end(frames) && !f.fin {
            let k = choose|k: int| 0 <= k < frames.len() && ends(#[trigger] frames[k]);
            assert(frames.drop_last()[k] == frames[k]);
            assert(has_end(frames.drop_last()));
        }
        received_bytes_stay(before, f.offset, f.data, f.fin);
        assert forall|p: int| #[trigger] has_byte(frames, p) implies covers(after.segments, p) by {
            let k = choose|k: int| 0 <= k < frames.len() && carries_byte(#[trigger] frames[k], p);
            if k < frames.len() - 1 {
                assert(frames.drop_last()[k] == frames[k]);
                assert(has_byte(frames.drop_last(), p));
            }
        }
    }
}

/// What is written into a new stream is read from it on the other side: once
/// each of the stream's frames has arrived, in whatever order and however
/// often, a read of enough bytes yields all of them. There is room for each of
/// them if there is room for all. If the stream was finished, that read is known
/// to be the last.
pub proof fn written_data_is_read(
    id: u32,
    send: SendState,
    written: Seq<u8>,
    arrived: Seq<Seq<u8>>,
    recv: RecvState,
    max: nat,
)
    requires
        send.wf(),
        send.is_tail_of(written),
        send.next() == 0,
        recv == (RecvState { limit: recv.limit, room: recv.room, ..RecvState::new() }),
        written.len() <= recv.limit,
        written.len() <= recv.room,
        forall|k: int|
            0 <= k < arrived.len() ==> all_frames(id, send).contains(#[trigger] arrived[k]),
        forall|k: int|
            0 <= k < all_frames(id, send).len() ==> arrived.contains(
                #[trigger] all_frames(id, send)[k],
            ),
        max >= written.len(),
    ensures
        takes(recv, arrived).read(max).0 == written,
        send.finished && !send.fin_flushed ==> takes(recv, arrived).read(max).1.finished(),
{
    let frames = all_frames(id, send);
    frames_carry_data(id, send, written);
    frames_are_full(id, send, written);
    assert forall|k: int| 0 <= k < arrived.len() implies carries(#[trigger] arrived[k], id, written)
        && is_full(arrived[k], written) by {
        assert(frames.contains(arrived[k]));
        let j = choose|j: int| 0 <= j < frames.len() && frames[j] == arrived[k];
        assert(carries(frames[j], id, written));
    }
    frames_fill(recv, id, written, arrived);
    let after = takes(recv, arrived);
    assert forall|p: int| 0 <= p < written.len() implies #[trigger] covers(after.segments, p) by {
        assert(has_byte(frames, p));
        let j = choose|j: int| 0 <= j < frames.len() && carries_byte(#[trigger] frames[j], p);
        assert(arrived.contains(frames[j]));
        let k = choose|k: int| 0 <= k < arrived.len() && arrived[k] == frames[j];
        assert(carries_byte(arrived[k], p));
        assert(has_byte(arrived, p));
    }
    if send.finished && !send.fin_flushed {
        end_is_sent(id, send);
        let j = choose|j: int| 0 <= j < frames.len() && ends(#[trigger] frames[j]);
        assert(arrived.contains(frames[j]));
        let k = choose|k: int| 0 <= k < arrived.len() && arrived[k] == frames[j];
        assert(ends(arrived[k]));
        assert(has_end(arrived));
    }
    covered_data_is_read(after.segments, 0, max, written.len() as int);
    reads_are_the_source(after.segments, 0, max, written);
    assert(written.subrange(0, written.len() as int) =~= written);
}

/// What happens to a receiving half.
#[verifier::ext_equal]
pub enum RecvEvent {
    /// A frame of the stream arrives.
    Frame(Seq<u8>),
    /// The application reads up to so many bytes.
    Read(nat),
}

/// A receiving half, and what was read from it.
#[verifier::ext_equal]
pub struct Reading {
    pub recv: RecvState,
    pub data: Seq<u8>,
}

impl Reading {
    pub open spec fn after(self, event: RecvEvent) -> Reading {
        match event {
            RecvEvent::Frame(frame) => match parsed_frame(frame) {
                Some(f) => Reading { recv: self.recv.receive(f.offset, f.data, f.fin), ..self },
                None => self,
            },
            RecvEvent::Read(max) => {
                let (data, recv) = self.recv.read(max);
                Reading { recv, data: self.data + data }
            },
        }
    }

    pub open spec fn after_all(self, events: Seq<RecvEvent>) -> Reading
        decreases events.len(),
    {
        if events.len() == 0 {
            self
        } else {
            self.after_all(events.drop_last()).after(events.last())
        }
    }
}

/// The frame arrives at place `i` of the run, when there is room for it.
pub open spec fn is_taken_at(
    start: Reading,
    events: Seq<RecvEvent>,
    frame: Seq<u8>,
    i: int,
) -> bool {
    &&& 0 <= i < events.len()
    &&& events[i] == RecvEvent::Frame(frame)
    &&& parsed_frame(frame) matches Some(f) && !start.after_all(events.take(i)).recv.overflows(
        f.offset,
        f.data,
    )
}

/// Somewhere in the run the frame arrives when there is room for it.
pub open spec fn is_taken(start: Reading, events: Seq<RecvEvent>, frame: Seq<u8>) -> bool {
    exists|i: int| #[trigger] is_taken_at(start, events, frame, i)
}

/// What holds while the frames of a stream arrive and are read.
spec fn is_on_course(
    start: Reading,
    events: Seq<RecvEvent>,
    written: Seq<u8>,
) -> bool {
    let now = start.after_all(events);
    &&& now.recv.segments.dom().finite()
    &&& now.recv.offset <= written.len()
    &&& now.recv.limit == start.recv.limit
    &&& now.data == written.take(now.recv.offset as int)
    &&& agree(now.recv.segments, written)
    &&& forall|frame: Seq<u8>, p: int|
        #[trigger] is_taken(start, events, frame) && #[trigger] carries_byte(frame, p)
            ==> p < now.recv.offset || covers(now.recv.segments, p)
}

proof fn stays_on_course(
    start: Reading,
    events: Seq<RecvEvent>,
    id: u32,
    written: Seq<u8>,
)
    requires
        start.recv == (RecvState {
            limit: start.recv.limit,
            room: start.recv.room,
            ..RecvState::new()
        }),
        start.data.len() == 0,
        written.len() <= start.recv.limit,
        forall|k: int|
            0 <= k < events.len() ==> (#[trigger] events[k] matches RecvEvent::Frame(frame)
                ==> carries(frame, id, written)),
    ensures
        is_on_course(start, events, written),
    decreases events.len(),
{
    if events.len() == 0 {
        assert(start.data =~= written.take(0));
        assert forall|frame: Seq<u8>, p: int|
            #[trigger] is_taken(start, events, frame) && #[trigger] carries_byte(
                frame,
                p,
            ) implies false by {
            let i = choose|i: int| #[trigger] is_taken_at(start, events, frame, i);
        }
    } else {
        let rest = events.drop_last();
        assert forall|k: int| 0 <= k < rest.len() implies (#[trigger] rest[k] matches
            RecvEvent::Frame(frame) ==> carries(frame, id, written)) by {
            assert(rest[k] == events[k]);
        }
        stays_on_course(start, rest, id, written);
        let before = start.after_all(rest);
        let now = start.after_all(events);
        let last = events[events.len() - 1];
        assert(events.take(events.len() - 1) =~= rest);
        // What was taken before is still there.
        assert forall|frame: Seq<u8>| is_taken(start, events, frame) implies #[trigger] is_taken(
            start,
            rest,
            frame,
        ) || is_taken_at(start, events, frame, events.len() - 1) by {
            let i = choose|i: int| #[trigger] is_taken_at(start, events, frame, i);
            if i < rest.len() {
                assert(rest[i] == events[i]);
                assert(rest.take(i) =~= events.take(i));
                assert(is_taken_at(start, rest, frame, i));
            }
        }
        match last {
            RecvEvent::Frame(frame) => {
                let f = parsed_frame(frame)->0;
                receive_agrees(before.recv, written, f.offset, f.data, f.fin);
                received_bytes_stay(before.recv, f.offset, f.data, f.fin);
                assert forall|g: Seq<u8>, p: int|
                    #[trigger] is_taken(start, events, g) && #[trigger] carries_byte(
                        g,
                        p,
                    ) implies p < now.recv.offset || covers(now.recv.segments, p) by {
                    if is_taken(start, rest, g) {
                    } else {
                        assert(is_taken_at(start, events, g, events.len() - 1));
                        assert(g == frame);
                        assert(!before.recv.exceeds(f.offset, f.data));
                    }
                }
            },
            RecvEvent::Read(max) => {
                reads_are_the_source(
                    before.recv.segments,
                    before.recv.offset as int,
                    max,
                    written,
                );
                reads_keep_the_rest(before.recv.segments, before.recv.offset as int, max);
                let r = drain(before.recv.segments, before.recv.offset as int, max);
                assert(now.data =~= written.take(r.offset));
                assert forall|g: Seq<u8>, p: int|
                    #[trigger] is_taken(start, events, g) && #[trigger] carries_byte(
                        g,
                        p,
                    ) implies p < now.recv.offset || covers(now.recv.segments, p) by {
                    assert(is_taken(start, rest, g));
                }
            },
        }
    }
}

/// A stream can be longer than the room for what is not read yet: however the
/// arrival of its frames and the reads take turns, once each frame has arrived
/// when there was room for it, what was read and what a read of enough bytes
/// then yields are together what was written. Frames that arrive when there is
/// no room only have to arrive again.
pub proof fn taken_data_is_read(
    id: u32,
    send: SendState,
    written: Seq<u8>,
    start: Reading,
    events: Seq<RecvEvent>,
    max: nat,
)
    requires
        send.wf(),
        send.is_tail_of(written),
        send.next() == 0,
        start.recv == (RecvState {
            limit: start.recv.limit,
            room: start.recv.room,
            ..RecvState::new()
        }),
        start.data.len() == 0,
        written.len() <= start.recv.limit,
        forall|k: int|
            0 <= k < events.len() ==> (#[trigger] events[k] matches RecvEvent::Frame(frame)
                ==> all_frames(id, send).contains(frame)),
        forall|k: int|
            0 <= k < all_frames(id, send).len() ==> is_taken(
                start,
                events,
                #[trigger] all_frames(id, send)[k],
            ),
        max >= written.len(),
    ensures
        ({
            let end = start.after_all(events);
            end.data + end.recv.read(max).0 == written
        }),
{
    let frames = all_frames(id, send);
    frames_carry_data(id, send, written);
    assert forall|k: int| 0 <= k < events.len() implies (#[trigger] events[k] matches
        RecvEvent::Frame(frame) ==> carries(frame, id, written)) by {
        if let RecvEvent::Frame(frame) = events[k] {
            assert(frames.contains(frame));
            let j = choose|j: int| 0 <= j < frames.len() && frames[j] == frame;
            assert(carries(frames[j], id, written));
        }
    }
    stays_on_course(start, events, id, written);
    let end = start.after_all(events);
    let at = end.recv.offset as int;
    assert forall|p: int| at <= p < written.len() implies #[trigger] covers(
        end.recv.segments,
        p,
    ) by {
        assert(has_byte(frames, p));
        let j = choose|j: int| 0 <= j < frames.len() && carries_byte(#[trigger] frames[j], p);
        assert(is_taken(start, events, frames[j]));
    }
    covered_data_is_read(end.recv.segments, at, max, written.len() as int);
    reads_are_the_source(end.recv.segments, at, max, written);
    assert(end.data + end.recv.read(max).0 =~= written);
}

// ── Flushing ─────────────────────────────────────────────────────────────────
/// A flush without a budget sends everything that there is to send, unless too
/// many packets would be in flight: its streams are then drained, and flushed
/// again at once, the session sends nothing.
pub proof fn flush_leaves_nothing(
    before: SessionState,
    now: u64,
    packets: Vec<TaggedPacket>,
    after: SessionState,
)
    requires
        before.wf(),
        is_flush(before, now, None, Ok(packets), after),
        frame_count(before.streams) <= before.free_slots(),
    ensures
        after.flush_len() == 0,
        after.streams == before.streams.map_values(|s: StreamState| drained(s)),
{
    let order = flush_order(before, now, None, packets, after);
    frame_count_zero(after.streams);
    assert forall|j: int| 0 <= j < before.streams.len() implies #[trigger] after.streams[j]
        == drained(before.streams[j]) by {
        let s = before.streams[j];
        assert(s.wf());
        assert(all_frames(after.streams[j].id, after.streams[j].send).len() == 0);
        frames_drain(s, taken(order, j));
    }
    assert(after.streams =~= before.streams.map_values(|s: StreamState| drained(s)));
}

/// Where too many packets would be in flight, a flush without a budget fills the
/// flight and keeps the other frames for later.
pub proof fn flush_fills_the_flight(
    before: SessionState,
    now: u64,
    packets: Vec<TaggedPacket>,
    after: SessionState,
)
    requires
        before.wf(),
        is_flush(before, now, None, Ok(packets), after),
        frame_count(before.streams) >= before.free_slots(),
    ensures
        after.arq.in_flight.len() == before.limits.max_in_flight_packets,
        frame_count(after.streams) == frame_count(before.streams) - before.free_slots(),
{
    let order = flush_order(before, now, None, packets, after);
}

/// Bytes of the planned packets that are not control packets.
spec fn data_planned(plan: Seq<Planned>) -> nat
    decreases plan.len(),
{
    if plan.len() == 0 {
        0
    } else {
        data_planned(plan.drop_last()) + (if plan.last().is_control {
            0
        } else {
            cost(plan.last().payload)
        })
    }
}

proof fn data_planned_adds_up(one: Seq<Planned>, two: Seq<Planned>)
    ensures
        data_planned(one + two) == data_planned(one) + data_planned(two),
    decreases two.len(),
{
    if two.len() == 0 {
        assert(one + two =~= one);
    } else {
        data_planned_adds_up(one, two.drop_last());
        assert((one + two).drop_last() =~= one + two.drop_last());
    }
}

proof fn payloads_are_data(payloads: Seq<Seq<u8>>, plan: Seq<Planned>)
    requires
        plan.len() == payloads.len(),
        forall|k: int|
            0 <= k < plan.len() ==> !(#[trigger] plan[k]).is_control && plan[k].payload
                == payloads[k],
    ensures
        data_planned(plan) == load(payloads),
    decreases plan.len(),
{
    if plan.len() > 0 {
        assert(!plan[plan.len() - 1].is_control);
        assert forall|k: int| 0 <= k < plan.len() - 1 implies !(
        #[trigger] plan.drop_last()[k]).is_control && plan.drop_last()[k].payload
            == payloads.drop_last()[k] by {
            assert(plan.drop_last()[k] == plan[k]);
        }
        payloads_are_data(payloads.drop_last(), plan.drop_last());
    }
}

proof fn control_is_no_data(plan: Seq<Planned>)
    requires
        forall|k: int| 0 <= k < plan.len() ==> (#[trigger] plan[k]).is_control,
    ensures
        data_planned(plan) == 0,
    decreases plan.len(),
{
    if plan.len() > 0 {
        assert(plan[plan.len() - 1].is_control);
        assert forall|k: int| 0 <= k < plan.len() - 1 implies (
        #[trigger] plan.drop_last()[k]).is_control by {
            assert(plan.drop_last()[k] == plan[k]);
        }
        control_is_no_data(plan.drop_last());
    }
}

proof fn packets_weigh_as_planned(
    packets: Seq<TaggedPacket>,
    plan: Seq<Planned>,
    base: EncoderState,
)
    requires
        carry_plan(packets, plan, base),
    ensures
        data_bytes(packets) == data_planned(plan),
    decreases packets.len(),
{
    if packets.len() > 0 {
        let n = packets.len() - 1;
        assert(packets[n].is_control == plan[n].is_control);
        assert forall|k: int| #![trigger packets.drop_last()[k]] #![trigger plan.drop_last()[k]]
            0 <= k < n implies packets.drop_last()[k] == packets[k] && plan.drop_last()[k]
            == plan[k] by {}
        packets_weigh_as_planned(packets.drop_last(), plan.drop_last(), base);
    }
}

/// Frames that are sent add the bytes of their packets to those in flight.
proof fn frames_fly(in_flight: Seq<Sent>, frames: Seq<Seq<u8>>, first: u64, now: u64)
    ensures
        flying(in_flight + frames_sent(frames, first, now)) == flying(in_flight) + load(frames),
    decreases frames.len(),
{
    let sent = frames_sent(frames, first, now);
    if frames.len() == 0 {
        assert(in_flight + sent =~= in_flight);
    } else {
        frames_fly(in_flight, frames.drop_last(), first, now);
        assert((in_flight + sent).drop_last() =~= in_flight + frames_sent(
            frames.drop_last(),
            first,
            now,
        ));
    }
}

/// A flush sends no more bytes of data than its budget, whatever there is to
/// send; every control packet that is due goes, at the end. What does not fit
/// stays where it is: the frames that were not sent are still to be sent, and so
/// are the datagrams.
pub proof fn flush_keeps_its_budget(
    before: SessionState,
    now: u64,
    budget: u64,
    packets: Vec<TaggedPacket>,
    after: SessionState,
)
    requires
        is_flush(before, now, Some(budget), Ok(packets), after),
    ensures
        data_bytes(packets@) <= budget,
        flying(after.arq.in_flight) <= flying(before.arq.in_flight) + budget,
        before.control_packets().len() <= packets@.len(),
        forall|k: int| #![trigger before.control_packets()[k]]
            0 <= k < before.control_packets().len() ==> {
                let i = packets@.len() - before.control_packets().len() + k;
                &&& packets@[i].is_control
                &&& packets@[i].bytes@ == before.encoder.advance(i as nat).packet(
                    before.control_packets()[k].pkt_type,
                    before.control_packets()[k].payload,
                )
            },
        packets@.len() - before.control_packets().len() + frame_count(after.streams)
            + after.datagrams.outgoing.len() == frame_count(before.streams)
            + before.datagrams.outgoing.len(),
{
    let order = flush_order(before, now, Some(budget), packets, after);
    let frames = scheduled(order, before.streams);
    let n = before.datagrams_due(frames, Some(budget));
    let queue = before.datagrams.outgoing;
    let left = (budget - load(frames)) as u64;
    no_more_fit(queue, Some(left));
    let plan = before.plan(frames, n);
    let streams_part = frames_planned(frames);
    let datagrams_part = datagrams_planned(queue.take(n as int));
    packets_weigh_as_planned(packets@, plan, before.encoder);
    data_planned_adds_up(streams_part + datagrams_part, before.control_packets());
    data_planned_adds_up(streams_part, datagrams_part);
    payloads_are_data(frames, streams_part);
    payloads_are_data(queue.take(n as int), datagrams_part);
    control_is_no_data(before.control_packets());
    frames_fly(before.arq.in_flight, frames, before.encoder.next, now);
    assert forall|k: int| #![trigger before.control_packets()[k]]
        0 <= k < before.control_packets().len() implies {
        let i = packets@.len() - before.control_packets().len() + k;
        &&& packets@[i].is_control
        &&& packets@[i].bytes@ == before.encoder.advance(i as nat).packet(
            before.control_packets()[k].pkt_type,
            before.control_packets()[k].payload,
        )
    } by {
        let i = packets@.len() - before.control_packets().len() + k;
        assert(plan[i] == before.control_packets()[k]);
    }
}

// ── Control packets ──────────────────────────────────────────────────────────
/// A ping makes the peer owe a pong; the pong changes nothing and is not even
/// acknowledged, so that the exchange ends there.
pub proof fn ping_is_answered_once(
    pinged: SessionState,
    pinging: SessionState,
    payload: Seq<u8>,
    order: Seq<Slot>,
    n: nat,
    now: u64,
)
    ensures
        pinged.on_payload(PktType::Ping, payload, now).pending_pong,
        pinging.on_payload(PktType::Pong, payload, now) == pinging,
        !PktType::Pong.elicits_ack(),
        !pinged.flushed(order, n, now).pending_pong,
        !pinging.flushed(order, n, now).pending_ping,
{
}

/// Packets that are not acknowledged never make an acknowledgement due; every
/// other packet does, until the next flush.
pub proof fn acknowledgements_end(
    before: AckState,
    after: AckState,
    pkt_num: u64,
    pkt_type: PktType,
    s: SessionState,
    order: Seq<Slot>,
    n: nat,
    now: u64,
)
    requires
        before.received(pkt_num, pkt_type.elicits_ack(), after),
    ensures
        pkt_type.elicits_ack() ==> after.pending,
        !pkt_type.elicits_ack() ==> after.pending == before.pending,
        !s.flushed(order, n, now).acks.pending,
{
}

/// The window update that one side sends raises the other side's credit to
/// what it grants, and never lowers it.
pub proof fn window_update_arrives(s: SessionState, limit: u64, now: u64)
    requires
        s.wf(),
    ensures
        ({
            let after = s.on_payload(PktType::MaxData, be_bytes(limit as nat, 8), now);
            &&& after.send_window == s.send_window.raise(limit)
            &&& after.send_window.limit >= limit
            &&& after.send_window.available() >= s.send_window.available()
        }),
{
    pow256_values();
    le_bytes_len(limit as nat, 8);
    le_round_trip(limit as nat, 8);
    let payload = be_bytes(limit as nat, 8);
    assert(payload.subrange(0, 8) =~= payload);
    assert(payload.reverse() =~= le_bytes(limit as nat, 8));
}

// ── Retransmission ───────────────────────────────────────────────────────────
/// A packet in flight has this number.
pub open spec fn flies(in_flight: Seq<Sent>, n: u64) -> bool {
    exists|i: int| 0 <= i < in_flight.len() && (#[trigger] in_flight[i]).pkt_num == n
}

proof fn acknowledged_numbers(in_flight: Seq<Sent>, srtt: u64, start: u64, end: u64, now: u64, n: u64)
    ensures
        flies(acknowledged(in_flight, srtt, start, end, now).kept, n) <==> flies(in_flight, n)
            && !(start <= n <= end),
    decreases in_flight.len(),
{
    let kept = acknowledged(in_flight, srtt, start, end, now).kept;
    if in_flight.len() > 0 {
        let rest = in_flight.drop_last();
        let kept_rest = acknowledged(rest, srtt, start, end, now).kept;
        acknowledged_numbers(rest, srtt, start, end, now, n);
        let last = in_flight.last();
        if flies(in_flight, n) {
            let i = choose|i: int|
                0 <= i < in_flight.len() && (#[trigger] in_flight[i]).pkt_num == n;
            if i < rest.len() {
                assert(rest[i].pkt_num == n);
            }
        }
        if flies(rest, n) {
            let i = choose|i: int| 0 <= i < rest.len() && (#[trigger] rest[i]).pkt_num == n;
            assert(in_flight[i].pkt_num == n);
        }
        if last.pkt_num == n {
            assert(in_flight[rest.len() as int].pkt_num == n);
        }
        if !(start <= last.pkt_num <= end) {
            assert(kept[kept_rest.len() as int] == last);
            if flies(kept_rest, n) {
                let i = choose|i: int|
                    0 <= i < kept_rest.len() && (#[trigger] kept_rest[i]).pkt_num == n;
                assert(kept[i].pkt_num == n);
            }
            if flies(kept, n) {
                let i = choose|i: int| 0 <= i < kept.len() && (#[trigger] kept[i]).pkt_num == n;
                if i < kept_rest.len() {
                    assert(kept_rest[i].pkt_num == n);
                }
            }
        }
    }
}

proof fn ranges_acknowledged_numbers(arq: ArqState, ranges: Seq<(u64, u64)>, now: u64, n: u64)
    ensures
        flies(ranges_acknowledged(arq, ranges, now).arq.in_flight, n) <==> flies(arq.in_flight, n)
            && !in_ranges(ranges, n),
    decreases ranges.len(),
{
    if ranges.len() > 0 {
        let rest = ranges.drop_last();
        let (start, end) = ranges.last();
        ranges_acknowledged_numbers(arq, rest, now, n);
        let before = ranges_acknowledged(arq, rest, now);
        acknowledged_numbers(before.arq.in_flight, before.arq.srtt, start, end, now, n);
        if in_ranges(ranges, n) {
            let i = choose|i: int|
                0 <= i < ranges.len() && (#[trigger] ranges[i]).0 <= n && n <= ranges[i].1;
            if i < rest.len() {
                assert(rest[i].0 <= n);
                assert(in_ranges(rest, n));
            }
        }
        if in_ranges(rest, n) {
            let i = choose|i: int|
                0 <= i < rest.len() && (#[trigger] rest[i]).0 <= n && n <= rest[i].1;
            assert(ranges[i].0 <= n);
        }
        if start <= n <= end {
            assert(ranges[rest.len() as int].0 <= n);
        }
    }
}

/// Packets that an acknowledgement frame lists are no longer in flight, so that
/// they are not sent again; all others stay.
pub proof fn acknowledged_packets_land(s: SessionState, frame: Seq<u8>, now: u64, n: u64)
    ensures
        flies(s.on_ack_frame(frame, now).arq.in_flight, n) <==> flies(s.arq.in_flight, n) && !(
        parsed_ack(frame) is Some && in_ranges(parsed_ack(frame)->0.ranges, n)),
{
    if let Some(fields) = parsed_ack(frame) {
        ranges_acknowledged_numbers(s.arq, fields.ranges, now, n);
    }
}

/// Some packet in flight carries this data.
pub open spec fn carries_in_flight(in_flight: Seq<Sent>, data: Seq<u8>) -> bool {
    exists|i: int| 0 <= i < in_flight.len() && (#[trigger] in_flight[i]).data == data
}

/// Retransmission gives nothing up: data that was in flight stays in flight,
/// under its old number or a new one, until it is acknowledged.
pub proof fn resending_keeps_data(s: SessionState, now: u64, data: Seq<u8>)
    requires
        carries_in_flight(s.arq.in_flight, data),
    ensures
        carries_in_flight(s.resent(now).arq.in_flight, data),
{
    let before = s.arq.in_flight;
    let after = s.resent(now).arq.in_flight;
    let rest = s.arq.without_expired(now).in_flight;
    let due = s.arq.expired(now);
    let i = choose|i: int| 0 <= i < before.len() && (#[trigger] before[i]).data == data;
    let gone = |packet: Sent| s.arq.is_expired(packet, now);
    let kept = |packet: Sent| !s.arq.is_expired(packet, now);
    if s.arq.is_expired(before[i], now) {
        before.lemma_filter_contains(gone, i);
        assert(due.contains(before[i]));
        let k = due.index_of(before[i]);
        assert(after[rest.len() + k].data == data);
    } else {
        before.lemma_filter_contains(kept, i);
        assert(rest.contains(before[i]));
        let k = rest.index_of(before[i]);
        assert(after[k] == rest[k]);
    }
}

// ── Datagrams ────────────────────────────────────────────────────────────────
/// A datagram that arrives is the newest to be read, and a full queue gives up
/// its oldest.
pub proof fn datagram_is_received(s: SessionState, data: Seq<u8>, now: u64)
    requires
        s.wf(),
        s.datagrams.max_queue > 0,
    ensures
        ({
            let after = s.on_payload(PktType::Datagram, data, now);
            &&& after.datagrams.incoming.len() > 0
            &&& after.datagrams.incoming.last() == data
            &&& s.datagrams.incoming.len() < s.datagrams.max_queue ==> after.datagrams.incoming
                == s.datagrams.incoming.push(data)
        }),
{
}

} // verus!
