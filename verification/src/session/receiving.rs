//! What holds of a packet that arrives: what it changes, what it is answered
//! with, and what the application hears of it.

use crate::crypto::format::Decoding;
use crate::error::{ErrorView, SeamError};
use crate::packet::PktType;
use crate::session::frame::{parsed_frame, FrameFields};
use crate::session::laws::{frame_reaches_its_stream, window_update_arrives};
use crate::session::state::{
    data_leaves_acks_alone, index_is, is_stream_at, stream_index, EventView, SessionState,
};
use crate::session::stream::{drain, first_reaches, held, RecvState, StreamId};
use crate::session::{event_views, is_receive, Role, SessionEvent};
use crate::wire::{be_bytes, le_bytes_len};
use vstd::prelude::*;

verus! {

/// The session has a stream with this id.
pub open spec fn knows(s: SessionState, id: StreamId) -> bool {
    exists|i: int| 0 <= i < s.streams.len() && (#[trigger] s.streams[i]).id == id
}

proof fn known_streams_are_found(s: SessionState, id: StreamId)
    ensures
        knows(s, id) <==> s.has_stream(id),
        s.has_stream(id) ==> s.stream(id).id == id,
{
    if s.has_stream(id) {
        assert(is_stream_at(s.streams, id, stream_index(s.streams, id)));
    }
    if knows(s, id) {
        let i = choose|i: int| 0 <= i < s.streams.len() && (#[trigger] s.streams[i]).id == id;
        assert(is_stream_at(s.streams, id, i));
    }
}

/// The receiving half that the frame's data goes to: that of its stream, or of a
/// new one, which has room for as much as the limits say and takes 256 MiB in all.
pub open spec fn half_for(s: SessionState, f: FrameFields) -> RecvState {
    if knows(s, f.stream_id) {
        s.stream(f.stream_id).recv
    } else {
        RecvState {
            offset: 0,
            segments: Map::empty(),
            limit: 0x1000_0000,
            room: s.limits.max_recv_buffer_per_stream,
            buffered: 0,
            fin_at: None,
        }
    }
}

/// A stream frame fails in these cases and in no other. It would open a stream
/// under an id that only this side opens: odd ones for a client, even ones for a
/// server. It would open one stream too many. Its data has something new and ends
/// beyond the stream's limit. Or there is no room for its data now. In all but the
/// third case nothing changes.
pub proof fn frame_failures_are_exact(s: SessionState, f: FrameFields)
    requires
        s.wf(),
    ensures
        ({
            let is_opening = !knows(s, f.stream_id);
            let is_ours = if s.role == Role::Client {
                f.stream_id % 2 == 1
            } else {
                f.stream_id % 2 == 0
            };
            let is_full = s.streams.len() >= s.limits.max_streams;
            let half = half_for(s, f);
            let end = f.offset + f.data.len();
            let is_new = f.data.len() > 0 && end > half.offset;
            let is_known = half.segments.contains_key(f.offset) && f.data.len()
                <= half.segments[f.offset].len();
            let has_room = end <= half.offset + half.room && held(
                half.segments.insert(f.offset, f.data),
            ) <= half.room;
            if is_opening && is_ours {
                s.frame_error(f) is Some && s.frame_error(f)->0 is ProtocolViolation && s.on_frame(
                    f,
                ) == s
            } else if is_opening && is_full {
                s.frame_error(f) == Some(ErrorView::StreamLimitExceeded(s.limits.max_streams))
                    && s.on_frame(f) == s
            } else if is_new && end > half.limit {
                &&& s.frame_error(f) is Some
                &&& s.frame_error(f)->0 matches ErrorView::FlowControlBlocked {
                    available,
                    requested,
                }
                &&& half.limit >= half.offset ==> available == half.limit - half.offset
                &&& end <= u64::MAX ==> requested == end - half.offset
            } else if is_new && !is_known && !has_room {
                &&& s.frame_error(f) == Some(
                    ErrorView::FlowControlBlocked {
                        available: (half.room - half.buffered) as u64,
                        requested: f.data.len() as u64,
                    },
                )
                &&& s.on_frame(f) == s
            } else {
                s.frame_error(f) is None
            }
        }),
{
    known_streams_are_found(s, f.stream_id);
}

/// Every stream frame that does not fail is announced, whether or not its stream
/// is new, and whatever it carries: its events tell of data on its stream, after
/// the stream's arrival if it is new, and before its end if the frame ends it or
/// it is read to its end. No other event comes of it.
pub proof fn taken_frames_are_announced(s: SessionState, f: FrameFields)
    requires
        s.wf(),
        s.frame_error(f) is None,
    ensures
        ({
            let events = s.frame_events(f);
            let at = if knows(s, f.stream_id) {
                0int
            } else {
                1int
            };
            let half = s.on_frame(f).stream(f.stream_id).recv;
            let ends = f.fin || (half.fin_at is Some && half.fin_at->0 <= half.offset);
            &&& at < events.len()
            &&& events[at] == EventView::DataAvailable(f.stream_id)
            &&& events.contains(EventView::DataAvailable(f.stream_id))
            &&& at == 1 ==> events[0] == EventView::NewStream(f.stream_id)
            &&& ends ==> events.len() == at + 2 && events[at + 1] == EventView::StreamFinished(
                f.stream_id,
            )
            &&& !ends ==> events.len() == at + 1
        }),
{
    known_streams_are_found(s, f.stream_id);
    let events = s.frame_events(f);
    let at = if knows(s, f.stream_id) {
        0int
    } else {
        1int
    };
    assert(events[at] == EventView::DataAvailable(f.stream_id));
}

/// What a read of up to `max` bytes of the stream would yield; nothing if there
/// is no such stream.
pub open spec fn readable(s: SessionState, id: StreamId, max: nat) -> Seq<u8> {
    if knows(s, id) {
        s.stream(id).recv.read(max).0
    } else {
        Seq::empty()
    }
}

/// Nothing is read where nothing is held.
proof fn nothing_held_nothing_read(at: int, max: nat)
    ensures
        drain(Map::empty(), at, max).data.len() == 0,
{
    let none = Map::<u64, Seq<u8>>::empty();
    assert(none.dom() =~= Set::empty());
    assert(none.dom().finite());
    assert(!first_reaches(none, at));
}

/// Whenever a frame changes what a read of some stream would yield, the frame
/// does not fail, and its events name that stream.
pub proof fn new_data_is_announced(
    s: SessionState,
    payload: Seq<u8>,
    pkt_type: PktType,
    now: u64,
    id: StreamId,
    max: nat,
)
    requires
        s.wf(),
        readable(s.on_payload(pkt_type, payload, now), id, max) != readable(s, id, max),
    ensures
        pkt_type == PktType::Data,
        s.payload_error(pkt_type, payload) is None,
        s.payload_events(pkt_type, payload).contains(EventView::DataAvailable(id)),
{
    let after = s.on_payload(pkt_type, payload, now);
    known_streams_are_found(s, id);
    known_streams_are_found(after, id);
    assert(pkt_type == PktType::Data) by {
        if pkt_type != PktType::Data {
            assert(after.streams == s.streams);
        }
    }
    match parsed_frame(payload) {
        None => {},
        Some(f) => {
            known_streams_are_found(s, f.stream_id);
            if s.wrong_parity(f) || s.one_too_many(f) || s.overflows(f) {
                assert(after == s);
            } else {
                frame_reaches_its_stream(s, payload, f, now);
                if id != f.stream_id {
                    if s.has_stream(id) {
                        assert(after.stream(id) == s.stream(id));
                    } else if after.has_stream(id) {
                        let i = stream_index(after.streams, id);
                        assert(is_stream_at(after.streams, id, i));
                        let opened = s.with_consumed(f.data.len()).with_stream_of(f);
                        let j = stream_index(opened.streams, f.stream_id);
                        known_streams_are_found(opened, f.stream_id);
                        assert(is_stream_at(opened.streams, f.stream_id, j)) by {
                            if s.has_stream(f.stream_id) {
                                assert(is_stream_at(
                                    opened.streams,
                                    f.stream_id,
                                    stream_index(s.streams, f.stream_id),
                                ));
                            } else {
                                assert(is_stream_at(
                                    opened.streams,
                                    f.stream_id,
                                    s.streams.len() as int,
                                ));
                            }
                        }
                        assert(opened.streams[i].id == id);
                        assert(i < s.streams.len());
                        assert(is_stream_at(s.streams, id, i));
                    }
                    assert(false);
                }
                if s.recv_of(f).exceeds(f.offset, f.data) {
                    assert(after.stream(id).recv.segments == s.recv_of(f).segments);
                    assert(after.stream(id).recv.offset == s.recv_of(f).offset);
                    if !s.has_stream(id) {
                        nothing_held_nothing_read(0, max);
                        assert(readable(after, id, max) =~= readable(s, id, max));
                    }
                    assert(false);
                }
                assert(s.frame_error(f) is None);
                taken_frames_are_announced(s, f);
            }
        },
    }
}

/// One of the events tells of data on the stream.
pub open spec fn tells_of_data(events: Seq<SessionEvent>, id: StreamId) -> bool {
    exists|k: int| 0 <= k < events.len() && #[trigger] events[k] == SessionEvent::DataAvailable(id)
}

/// Whenever a packet changes what a read of some stream would yield, it is
/// received without an error, and one of the events tells of data on that stream:
/// an application that reads each stream it is told of misses nothing.
pub proof fn received_data_is_announced(
    before: SessionState,
    buf: Seq<u8>,
    now: u64,
    r: Result<Vec<SessionEvent>, SeamError>,
    after: SessionState,
    id: StreamId,
    max: nat,
)
    requires
        before.wf(),
        is_receive(before, buf, now, r, after),
        readable(after, id, max) != readable(before, id, max),
    ensures
        r matches Ok(events) && tells_of_data(events@, id),
{
    match before.decoder.decoding(buf) {
        Decoding::Rejected(_) => {},
        Decoding::Packet { pkt_type, pkt_num, payload } => {
            let read = SessionState { decoder: before.decoder.after(buf), ..before };
            let arrived = SessionState { acks: after.acks, ..read };
            assert(readable(read, id, max) == readable(before, id, max));
            assert(readable(arrived, id, max) == readable(before, id, max)) by {
                assert(arrived.streams == before.streams);
                assert(knows(arrived, id) == knows(before, id));
            }
            assert(!read.payload_overflows(pkt_type, payload));
            assert(arrived.wf());
            new_data_is_announced(arrived, payload, pkt_type, now, id, max);
            let events = r->Ok_0;
            let views = arrived.payload_events(pkt_type, payload);
            let k = choose|k: int|
                0 <= k < views.len() && views[k] == EventView::DataAvailable(id);
            assert(views == event_views(events@));
            assert(events@[k]@ == EventView::DataAvailable(id));
            assert(events@[k] == SessionEvent::DataAvailable(id));
        },
    }
}

/// What a frame changes that is not refused for its stream's id, for the number
/// of streams or for want of room: its stream's receiving half takes it in, the
/// bytes are counted, and that is all. A stream that it opens has priority 4 and
/// nothing to send. Data beyond the stream's limit is not kept, but an end that
/// came with it is.
pub proof fn frame_changes_its_stream_alone(s: SessionState, f: FrameFields)
    requires
        s.wf(),
        !s.wrong_parity(f),
        !s.one_too_many(f),
        !s.overflows(f),
    ensures
        ({
            let after = s.on_frame(f);
            let new = after.stream(f.stream_id);
            let half = half_for(s, f);
            &&& knows(after, f.stream_id)
            &&& new.id == f.stream_id
            &&& new.recv.offset == half.offset
            &&& new.recv.limit == half.limit
            &&& new.recv.room == half.room
            &&& !f.fin ==> new.recv.fin_at == half.fin_at
            &&& f.fin && f.offset + f.data.len() <= u64::MAX ==> new.recv.fin_at == Some(
                (f.offset + f.data.len()) as u64,
            )
            &&& f.data.len() == 0 || f.offset + f.data.len() <= half.offset || f.offset
                + f.data.len() > half.limit ==> new.recv.segments == half.segments
            &&& knows(s, f.stream_id) ==> new.send == s.stream(f.stream_id).send && new.priority
                == s.stream(f.stream_id).priority && after.streams.len() == s.streams.len()
            &&& !knows(s, f.stream_id) ==> new.priority == 4 && new.send.unsent.len() == 0
                && new.send.offset == 0 && !new.send.finished && new.send.limit == 0x1000_0000
                && after.streams.len() == s.streams.len() + 1
            &&& s.recv_consumed + f.data.len() <= u64::MAX ==> after.recv_consumed
                == s.recv_consumed + f.data.len()
            &&& after == (SessionState {
                streams: after.streams,
                recv_consumed: after.recv_consumed,
                pending_max_data: after.pending_max_data,
                ..s
            })
        }),
{
    known_streams_are_found(s, f.stream_id);
    let id = f.stream_id;
    let opened = s.with_consumed(f.data.len()).with_stream_of(f);
    let after = s.on_frame(f);
    let i = if s.has_stream(id) {
        stream_index(s.streams, id)
    } else {
        s.streams.len() as int
    };
    assert(is_stream_at(s.streams, id, i) || !s.has_stream(id));
    assert(is_stream_at(opened.streams, id, i));
    assert forall|a: int, b: int| 0 <= a < b < opened.streams.len() implies (
    #[trigger] opened.streams[a]).id != (#[trigger] opened.streams[b]).id by {
        if b == s.streams.len() {
            assert(!is_stream_at(s.streams, id, a));
        }
    }
    index_is(opened.streams, id, i);
    assert(is_stream_at(after.streams, id, i));
    index_is(after.streams, id, i);
    assert(after.streams[i].id == id);
}

// ── Windows ──────────────────────────────────────────────────────────────────
/// The bytes of every frame that does not fail count towards the window. Once
/// they are more than half of what was granted, however much that is, an update is
/// due; one that was not due before grants 16 MiB beyond what has arrived.
pub proof fn used_window_is_extended(s: SessionState, f: FrameFields)
    requires
        s.wf(),
        s.frame_error(f) is None,
    ensures
        ({
            let after = s.on_frame(f);
            let total = s.recv_consumed + f.data.len();
            &&& total <= u64::MAX ==> after.recv_consumed == total
            &&& after.recv_consumed >= s.recv_consumed
            &&& 2 * after.recv_consumed > s.recv_window.limit ==> after.pending_max_data is Some
            &&& s.pending_max_data is Some ==> after.pending_max_data == s.pending_max_data
            &&& s.pending_max_data is None && 2 * after.recv_consumed <= s.recv_window.limit
                ==> after.pending_max_data is None
            &&& s.pending_max_data is None && 2 * after.recv_consumed > s.recv_window.limit
                && after.recv_consumed + 0x100_0000 <= u64::MAX ==> after.pending_max_data == Some(
                (after.recv_consumed + 0x100_0000) as u64,
            )
            &&& after.recv_window == s.recv_window
            &&& after.send_window == s.send_window
        }),
{
}

/// A peer whose data has all arrived always gets credit again: after each frame
/// that is taken while no update is due, either the peer can still use half of
/// what it was granted, or an update is due that gives it 16 MiB once it arrives.
pub proof fn credit_comes_back(s: SessionState, f: FrameFields, peer: SessionState, now: u64)
    requires
        s.wf(),
        s.frame_error(f) is None,
        s.pending_max_data is None,
        peer.wf(),
        peer.send_window.limit >= s.recv_window.limit,
        peer.send_window.consumed == s.recv_consumed + f.data.len(),
        peer.send_window.consumed + 0x100_0000 <= u64::MAX,
    ensures
        match s.on_frame(f).pending_max_data {
            Some(limit) => {
                let told = peer.on_payload(PktType::MaxData, be_bytes(limit as nat, 8), now);
                told.send_window.limit - told.send_window.consumed >= 0x100_0000
            },
            None => 2 * (peer.send_window.limit - peer.send_window.consumed)
                >= s.recv_window.limit,
        },
{
    used_window_is_extended(s, f);
    if let Some(limit) = s.on_frame(f).pending_max_data {
        window_update_arrives(peer, limit, now);
        assert(s.pending_max_data is None);
        assert(limit == s.recv_consumed + f.data.len() + 0x100_0000);
    }
}

// ── Every packet ─────────────────────────────────────────────────────────────
/// What each type of packet does. A window update of eight bytes or more raises
/// the credit to the big-endian number in the first eight, and a shorter one does
/// nothing. A ping makes a pong due. A datagram joins the queue. A ticket and a
/// close are handed on. A pong, chaff and a path probe do nothing. None of these
/// fails, and none touches a stream.
pub proof fn each_type_has_its_effect(s: SessionState, payload: Seq<u8>, now: u64)
    requires
        s.wf(),
    ensures
        s.on_payload(PktType::Ping, payload, now) == (SessionState { pending_pong: true, ..s }),
        s.on_payload(PktType::Pong, payload, now) == s,
        s.on_payload(PktType::Chaff, payload, now) == s,
        s.on_payload(PktType::PathProbe, payload, now) == s,
        s.on_payload(PktType::SessionTicket, payload, now) == s,
        s.on_payload(PktType::Close, payload, now) == s,
        s.on_payload(PktType::Datagram, payload, now) == (SessionState {
            datagrams: s.datagrams.receive(payload),
            ..s
        }),
        payload.len() < 8 ==> s.on_payload(PktType::MaxData, payload, now) == s,
        s.payload_events(PktType::SessionTicket, payload) == seq![
            EventView::SessionTicket(payload),
        ],
        s.payload_events(PktType::Close, payload) == seq![EventView::Closed],
        s.payload_events(PktType::Datagram, payload) == seq![EventView::DatagramReceived],
        s.payload_events(PktType::Ack, payload).len() == 0,
        s.payload_events(PktType::MaxData, payload).len() == 0,
        s.payload_events(PktType::Ping, payload).len() == 0,
        s.payload_events(PktType::Pong, payload).len() == 0,
        s.payload_events(PktType::Chaff, payload).len() == 0,
        s.payload_events(PktType::PathProbe, payload).len() == 0,
        forall|t: PktType|
            t != PktType::Data ==> #[trigger] s.payload_error(t, payload) is None
                && !s.payload_overflows(t, payload),
        parsed_frame(payload) is None ==> s.on_payload(PktType::Data, payload, now) == s
            && s.payload_events(PktType::Data, payload).len() == 0 && s.payload_error(
            PktType::Data,
            payload,
        ) is None,
{
}

/// A window update grants what its first eight bytes say, most significant
/// first, unless more was granted before; bytes behind them are ignored.
pub proof fn window_update_grants_its_number(
    s: SessionState,
    limit: u64,
    more: Seq<u8>,
    now: u64,
)
    requires
        s.wf(),
    ensures
        ({
            let after = s.on_payload(PktType::MaxData, be_bytes(limit as nat, 8) + more, now);
            &&& limit >= s.send_window.limit ==> after.send_window.limit == limit
            &&& limit < s.send_window.limit ==> after.send_window.limit == s.send_window.limit
            &&& after.send_window.consumed == s.send_window.consumed
            &&& after == (SessionState { send_window: after.send_window, ..s })
        }),
{
    window_update_arrives(s, limit, now);
    let short = be_bytes(limit as nat, 8);
    le_bytes_len(limit as nat, 8);
    assert((short + more).subrange(0, 8) =~= short.subrange(0, 8));
}

/// A packet that the decoder accepts is noted for acknowledgement, beside all
/// that were noted before, and no other number is; an acknowledgement is due if
/// the packet calls for one or one was due before. The exception is data for which
/// there is no room now: its packet is not noted and changes no stream, so that
/// the peer sends the data again. A packet that the decoder rejects changes
/// nothing, and the reason is returned.
pub proof fn accepted_packets_are_noted(
    before: SessionState,
    buf: Seq<u8>,
    now: u64,
    r: Result<Vec<SessionEvent>, SeamError>,
    after: SessionState,
    m: u64,
)
    requires
        before.wf(),
        is_receive(before, buf, now, r, after),
    ensures
        match before.decoder.decoding(buf) {
            Decoding::Rejected(reason) => after == before && (r matches Err(e) && e@ == reason),
            Decoding::Packet { pkt_type, pkt_num, payload } => {
                if before.payload_overflows(pkt_type, payload) {
                    &&& after.acks == before.acks
                    &&& after.streams == before.streams
                    &&& r is Err
                } else {
                    &&& after.acks.has(m) <==> before.acks.has(m) || m == pkt_num
                    &&& after.acks.pending == (before.acks.pending || pkt_type.elicits_ack())
                    &&& after.streams == before.on_payload(pkt_type, payload, now).streams
                    &&& after.arq == before.on_payload(pkt_type, payload, now).arq
                    &&& after.datagrams == before.on_payload(pkt_type, payload, now).datagrams
                    &&& after.send_window == before.on_payload(pkt_type, payload, now).send_window
                    &&& after.pending_pong == before.on_payload(
                        pkt_type,
                        payload,
                        now,
                    ).pending_pong
                    &&& r is Err <==> before.payload_error(pkt_type, payload) is Some
                }
            },
        },
{
    match before.decoder.decoding(buf) {
        Decoding::Rejected(_) => {},
        Decoding::Packet { pkt_type, pkt_num, payload } => {
            let read = SessionState { decoder: before.decoder.after(buf), ..before };
            let arrived = SessionState { acks: after.acks, ..read };
            let ours = arrived.on_payload(pkt_type, payload, now);
            let plain = before.on_payload(pkt_type, payload, now);
            if pkt_type == PktType::Data {
                data_leaves_acks_alone(read, after.acks, payload, now);
                if let Some(f) = parsed_frame(payload) {
                    assert(before.overflows(f) == read.overflows(f));
                    assert(before.overflows(f) == arrived.overflows(f));
                    assert(arrived.with_consumed(f.data.len()).with_stream_of(f).streams
                        == before.with_consumed(f.data.len()).with_stream_of(f).streams);
                }
            }
            assert(ours.streams == plain.streams);
        },
    }
}

} // verus!
