//! What a session is, and what each operation makes of it.

use crate::crypto::decoder::DecoderState;
use crate::crypto::encoder::{fits_packet, EncoderState};
use crate::error::ErrorView;
use crate::packet::PktType;
use crate::session::ack::{parsed_ack, AckState};
use crate::session::arq::{acknowledged, acknowledged_keeps, all_sent, ArqState, Sent};
use crate::session::datagram::{how_many_fit, DatagramState};
use crate::session::flow::Credit;
use crate::session::frame::{parsed_frame, FrameFields};
use crate::session::schedule::{frame_count, load, scheduled, taken_out, Slot};
use crate::session::stream::{
    clamp_u64, Priority, RecvState, StreamId, StreamState, PRIORITY_DEFAULT,
};
use crate::session::{Role, SessionLimits, DEFAULT_WINDOW, FALLBACK_RTT_US, MAX_DATAGRAM};
use crate::text::decimal;
use crate::wire::{be_bytes, be_value};
use vstd::prelude::*;

verus! {

/// Events the session layer surfaces to the application.
#[verifier::ext_equal]
pub enum EventView {
    NewStream(StreamId),
    DataAvailable(StreamId),
    StreamFinished(StreamId),
    DatagramReceived,
    SessionTicket(Seq<u8>),
    Closed,
}

/// What a session stands for.
#[verifier::ext_equal]
pub struct SessionState {
    pub id: u64,
    pub role: Role,
    pub encoder: EncoderState,
    pub decoder: DecoderState,
    /// The streams in the order in which they were opened.
    pub streams: Seq<StreamState>,
    pub next_stream_id: StreamId,
    pub send_window: Credit,
    pub recv_window: Credit,
    /// Application bytes received so far.
    pub recv_consumed: u64,
    pub pending_max_data: Option<u64>,
    pub pending_pong: bool,
    pub pending_ping: bool,
    pub arq: ArqState,
    pub datagrams: DatagramState,
    pub limits: SessionLimits,
    pub acks: AckState,
    /// Bytes acknowledged and round-trip time, for congestion control.
    pub pending_cc_ack: Option<(u64, u64)>,
}

/// What a packet will carry.
#[verifier::ext_equal]
pub struct Planned {
    pub pkt_type: PktType,
    pub is_control: bool,
    pub payload: Seq<u8>,
}

/// The outcome of all ranges of an acknowledgement frame.
#[verifier::ext_equal]
pub struct RangesAcked {
    pub arq: ArqState,
    pub bytes_acked: nat,
    pub rtt: Option<u64>,
}

/// Acknowledge range after range; the last round-trip sample counts.
pub open spec fn ranges_acknowledged(arq: ArqState, ranges: Seq<(u64, u64)>, now: u64) -> RangesAcked
    decreases ranges.len(),
{
    if ranges.len() == 0 {
        RangesAcked { arq, bytes_acked: 0, rtt: None }
    } else {
        let before = ranges_acknowledged(arq, ranges.drop_last(), now);
        let (start, end) = ranges.last();
        let acked = acknowledged(before.arq.in_flight, before.arq.srtt, start, end, now);
        RangesAcked {
            arq: ArqState { in_flight: acked.kept, srtt: acked.srtt },
            bytes_acked: before.bytes_acked + acked.bytes_acked,
            rtt: if acked.rtt is Some {
                acked.rtt
            } else {
                before.rtt
            },
        }
    }
}

/// Acknowledgements put nothing into flight.
pub proof fn ranges_acknowledged_keep(
    arq: ArqState,
    ranges: Seq<(u64, u64)>,
    now: u64,
    fits: spec_fn(Seq<u8>) -> bool,
)
    requires
        all_sent(arq.in_flight, fits),
    ensures
        all_sent(ranges_acknowledged(arq, ranges, now).arq.in_flight, fits),
        ranges_acknowledged(arq, ranges, now).arq.in_flight.len() <= arq.in_flight.len(),
    decreases ranges.len(),
{
    if ranges.len() > 0 {
        ranges_acknowledged_keep(arq, ranges.drop_last(), now, fits);
        let before = ranges_acknowledged(arq, ranges.drop_last(), now);
        let (start, end) = ranges.last();
        acknowledged_keeps(before.arq.in_flight, before.arq.srtt, start, end, now, fits);
    }
}

impl Role {
    /// Parity of locally-initiated stream ids (client odd, server even).
    pub open spec fn parity(self) -> u32 {
        match self {
            Role::Client => 1,
            Role::Server => 0,
        }
    }

    /// The first id of a locally-initiated stream.
    pub open spec fn first_id(self) -> StreamId {
        match self {
            Role::Client => 1,
            Role::Server => 2,
        }
    }

    pub open spec fn name(self) -> Seq<char> {
        match self {
            Role::Client => "Client"@,
            Role::Server => "Server"@,
        }
    }
}

/// The complaint about a peer that opens a stream with the wrong parity.
pub open spec fn parity_complaint(stream_id: StreamId, role: Role) -> Seq<char> {
    "stream "@ + decimal(stream_id as nat) + " parity matches local role "@ + role.name()
        + "; remote must use opposite parity"@
}

/// The index of the stream with the given id.
pub open spec fn is_stream_at(streams: Seq<StreamState>, id: StreamId, i: int) -> bool {
    0 <= i < streams.len() && streams[i].id == id
}

pub open spec fn has_stream(streams: Seq<StreamState>, id: StreamId) -> bool {
    exists|i: int| #[trigger] is_stream_at(streams, id, i)
}

/// No two streams have the same id.
pub open spec fn unique_ids(streams: Seq<StreamState>) -> bool {
    forall|i: int, j: int|
        0 <= i < j < streams.len() ==> (#[trigger] streams[i]).id != (#[trigger] streams[j]).id
}

/// With unique ids there is one place for each.
pub proof fn index_is(streams: Seq<StreamState>, id: StreamId, i: int)
    requires
        unique_ids(streams),
        is_stream_at(streams, id, i),
    ensures
        has_stream(streams, id),
        stream_index(streams, id) == i,
{
    let k = stream_index(streams, id);
    assert(is_stream_at(streams, id, k));
    if k < i {
        assert(streams[k].id != streams[i].id);
    } else if i < k {
        assert(streams[i].id != streams[k].id);
    }
}

pub open spec fn stream_index(streams: Seq<StreamState>, id: StreamId) -> int {
    choose|i: int| #[trigger] is_stream_at(streams, id, i)
}

/// How many of the streams have ids of the given parity.
pub open spec fn own_count(streams: Seq<StreamState>, parity: u32) -> nat
    decreases streams.len(),
{
    if streams.len() == 0 {
        0
    } else {
        own_count(streams.drop_last(), parity) + (if streams.last().id % 2 == parity {
            1nat
        } else {
            0nat
        })
    }
}

/// The count depends on the ids alone.
pub proof fn own_count_of_ids(a: Seq<StreamState>, b: Seq<StreamState>, parity: u32)
    requires
        a.len() == b.len(),
        forall|i: int| 0 <= i < a.len() ==> (#[trigger] a[i]).id == b[i].id,
    ensures
        own_count(a, parity) == own_count(b, parity),
    decreases a.len(),
{
    if a.len() > 0 {
        assert forall|i: int| 0 <= i < a.len() - 1 implies (#[trigger] a.drop_last()[i]).id
            == b.drop_last()[i].id by {
            assert(a[i].id == b[i].id);
        }
        own_count_of_ids(a.drop_last(), b.drop_last(), parity);
        assert(a[a.len() - 1].id == b[a.len() - 1].id);
    }
}

/// One more stream counts if its id has the parity.
pub proof fn own_count_push(streams: Seq<StreamState>, s: StreamState, parity: u32)
    ensures
        own_count(streams.push(s), parity) == own_count(streams, parity) + (if s.id % 2 == parity {
            1int
        } else {
            0int
        }),
        own_count(streams, parity) <= streams.len(),
    decreases streams.len(),
{
    assert(streams.push(s).drop_last() =~= streams);
    if streams.len() > 0 {
        own_count_push(streams.drop_last(), s, parity);
    }
}

impl SessionState {
    /// A new session.
    pub open spec fn new(
        id: u64,
        role: Role,
        encoder: EncoderState,
        decoder: DecoderState,
        limits: SessionLimits,
    ) -> SessionState {
        SessionState {
            id,
            role,
            encoder,
            decoder,
            streams: Seq::empty(),
            next_stream_id: role.first_id(),
            send_window: Credit { limit: DEFAULT_WINDOW, consumed: 0 },
            recv_window: Credit { limit: DEFAULT_WINDOW, consumed: 0 },
            recv_consumed: 0,
            pending_max_data: None,
            pending_pong: false,
            pending_ping: false,
            arq: ArqState::new(),
            datagrams: DatagramState::new(datagram_limit(limits), limits.max_datagram_queue),
            limits,
            acks: AckState::new(),
            pending_cc_ack: None,
        }
    }

    /// What every operation keeps.
    pub open spec fn wf(self) -> bool {
        &&& forall|i: int| 0 <= i < self.streams.len() ==> (#[trigger] self.streams[i]).wf()
        &&& unique_ids(self.streams)
        &&& forall|i: int|
            0 <= i < self.streams.len() && (#[trigger] self.streams[i]).id % 2
                == self.role.parity() ==> self.streams[i].id < self.next_stream_id
        &&& self.next_stream_id % 2 == self.role.parity()
        &&& self.next_stream_id == self.role.first_id() + 2 * own_count(
            self.streams,
            self.role.parity(),
        )
        &&& self.streams.len() <= self.limits.max_streams
        &&& forall|i: int|
            0 <= i < self.streams.len() ==> (#[trigger] self.streams[i]).recv.room
                == self.limits.max_recv_buffer_per_stream
        &&& self.send_window.wf()
        &&& self.recv_window.wf()
        &&& self.datagrams.wf()
        &&& self.datagrams.max_size == datagram_limit(self.limits)
        &&& self.acks.wf()
        &&& all_sent(self.arq.in_flight, |data: Seq<u8>| fits_packet(data))
        &&& self.arq.in_flight.len() <= self.limits.max_in_flight_packets
    }

    /// A locally-initiated stream can be opened: the limit is not reached, and
    /// an id is left.
    pub open spec fn can_open(self) -> bool {
        self.open_error() is None
    }

    /// Why no stream can be opened, if none can.
    pub open spec fn open_error(self) -> Option<ErrorView> {
        if self.streams.len() >= self.limits.max_streams {
            Some(ErrorView::StreamLimitExceeded(self.limits.max_streams))
        } else if self.next_stream_id > u32::MAX - 2 {
            Some(ErrorView::StreamIdsExhausted)
        } else {
            None
        }
    }

    /// A new stream of this session.
    pub open spec fn new_stream(self, id: StreamId, priority: Priority) -> StreamState {
        StreamState::with_room(id, priority, self.limits.max_recv_buffer_per_stream)
    }

    pub open spec fn open(self, priority: Priority) -> SessionState {
        SessionState {
            streams: self.streams.push(self.new_stream(self.next_stream_id, priority)),
            next_stream_id: (self.next_stream_id + 2) as u32,
            ..self
        }
    }

    pub open spec fn has_stream(self, id: StreamId) -> bool {
        has_stream(self.streams, id)
    }

    /// The stream with the given id.
    pub open spec fn stream(self, id: StreamId) -> StreamState {
        self.streams[stream_index(self.streams, id)]
    }

    /// The session with the stream of that id replaced.
    pub open spec fn with_stream(self, id: StreamId, s: StreamState) -> SessionState {
        SessionState { streams: self.streams.update(stream_index(self.streams, id), s), ..self }
    }

    // ── Sending ──────────────────────────────────────────────────────────────
    /// The session after `send`: the data is in the stream, and its credit is
    /// taken from the connection. Data that is refused takes none.
    pub open spec fn send(self, id: StreamId, data: Seq<u8>) -> SessionState {
        if self.send_error(id, data) is Some {
            self
        } else {
            let s = self.stream(id);
            SessionState {
                send_window: self.send_window.reserve(data.len() as u64),
                ..self.with_stream(id, StreamState { send: s.send.write(data), ..s })
            }
        }
    }

    /// Why `send` fails, if it does.
    pub open spec fn send_error(self, id: StreamId, data: Seq<u8>) -> Option<ErrorView> {
        if !self.send_window.has_room(data.len()) {
            Some(
                ErrorView::FlowControlBlocked {
                    available: self.send_window.available(),
                    requested: data.len() as u64,
                },
            )
        } else if !self.has_stream(id) {
            Some(ErrorView::UnknownStream(id))
        } else if self.stream(id).send.finished {
            Some(ErrorView::StreamFinished(id))
        } else if !self.stream(id).send.has_room(data.len()) {
            Some(
                ErrorView::FlowControlBlocked {
                    available: (self.stream(id).send.limit - self.stream(id).send.offset) as u64,
                    requested: data.len() as u64,
                },
            )
        } else {
            None
        }
    }

    /// The control packets that a flush sends, in this order: an owed
    /// acknowledgement, a window update, a pong, a ping.
    pub open spec fn control_packets(self) -> Seq<Planned> {
        (if self.acks.pending {
            seq![
                Planned { pkt_type: PktType::Ack, is_control: true, payload: self.acks.frame() },
            ]
        } else {
            Seq::empty()
        }) + (match self.pending_max_data {
            Some(limit) => seq![
                Planned {
                    pkt_type: PktType::MaxData,
                    is_control: true,
                    payload: be_bytes(limit as nat, 8),
                },
            ],
            None => Seq::empty(),
        }) + (if self.pending_pong {
            seq![Planned { pkt_type: PktType::Pong, is_control: true, payload: Seq::empty() }]
        } else {
            Seq::empty()
        }) + (if self.pending_ping {
            seq![Planned { pkt_type: PktType::Ping, is_control: true, payload: Seq::empty() }]
        } else {
            Seq::empty()
        })
    }

    /// What a flush sends, in this order: stream frames, the first `n` of the
    /// queued datagrams, and control packets.
    pub open spec fn plan(self, frames: Seq<Seq<u8>>, n: nat) -> Seq<Planned> {
        frames_planned(frames) + datagrams_planned(self.datagrams.outgoing.take(n as int))
            + self.control_packets()
    }

    /// How many of the queued datagrams a flush sends: those that fit into what
    /// the stream frames leave of the budget.
    pub open spec fn datagrams_due(self, frames: Seq<Seq<u8>>, budget: Option<u64>) -> nat {
        how_many_fit(
            self.datagrams.outgoing,
            match budget {
                Some(most) => Some((most - load(frames)) as u64),
                None => None,
            },
        )
    }

    /// How many more packets may be put into flight.
    pub open spec fn free_slots(self) -> nat {
        (self.limits.max_in_flight_packets - self.arq.in_flight.len()) as nat
    }

    /// How many stream frames a flush without a budget sends: all of them,
    /// unless too many would be in flight.
    pub open spec fn frames_due(self) -> nat {
        if frame_count(self.streams) <= self.free_slots() {
            frame_count(self.streams)
        } else {
            self.free_slots()
        }
    }

    /// How many packets a flush without a budget sends.
    pub open spec fn flush_len(self) -> nat {
        self.frames_due() + self.datagrams.outgoing.len() + self.control_packets().len()
    }

    /// The session after a flush at `now` that sent the frames of this schedule
    /// and the first `n` of the queued datagrams: the frames are in flight under
    /// consecutive numbers, and no control packet is left to send.
    pub open spec fn flushed(self, order: Seq<Slot>, n: nat, now: u64) -> SessionState {
        let frames = scheduled(order, self.streams);
        SessionState {
            encoder: self.encoder.advance(self.plan(frames, n).len()),
            streams: taken_out(self.streams, order),
            recv_window: match self.pending_max_data {
                Some(limit) => self.recv_window.raise(limit),
                None => self.recv_window,
            },
            pending_max_data: None,
            pending_pong: false,
            pending_ping: false,
            arq: ArqState {
                in_flight: self.arq.in_flight + frames_sent(frames, self.encoder.next, now),
                ..self.arq
            },
            datagrams: DatagramState {
                outgoing: self.datagrams.outgoing.skip(n as int),
                ..self.datagrams
            },
            acks: AckState { pending: false, ..self.acks },
            ..self
        }
    }

    /// The session after the packets that have expired at `now` were sent again.
    pub open spec fn resent(self, now: u64) -> SessionState {
        let due = self.arq.expired(now);
        SessionState {
            encoder: self.encoder.advance(due.len()),
            arq: ArqState {
                in_flight: self.arq.without_expired(now).in_flight + frames_resent(
                    due,
                    self.encoder.next,
                    now,
                ),
                ..self.arq
            },
            ..self
        }
    }

    // ── Receiving ────────────────────────────────────────────────────────────
    /// The frame opens a stream with an id that only this side may open.
    pub open spec fn wrong_parity(self, f: FrameFields) -> bool {
        !self.has_stream(f.stream_id) && f.stream_id % 2 == self.role.parity()
    }

    /// The frame opens a stream, and the session has as many as it may have.
    pub open spec fn one_too_many(self, f: FrameFields) -> bool {
        !self.has_stream(f.stream_id) && self.streams.len() >= self.limits.max_streams
    }

    /// The receiving half of the frame's stream, which the peer may just have opened.
    pub open spec fn recv_of(self, f: FrameFields) -> RecvState {
        if self.has_stream(f.stream_id) {
            self.stream(f.stream_id).recv
        } else {
            self.new_stream(f.stream_id, PRIORITY_DEFAULT).recv
        }
    }

    /// The frame's stream has no room for its data now.
    pub open spec fn overflows(self, f: FrameFields) -> bool {
        !self.wrong_parity(f) && !self.one_too_many(f) && self.recv_of(f).overflows(
            f.offset,
            f.data,
        )
    }

    /// The session with the stream of the frame, which the peer may just have opened.
    pub open spec fn with_stream_of(self, f: FrameFields) -> SessionState {
        if self.has_stream(f.stream_id) {
            self
        } else {
            SessionState {
                streams: self.streams.push(self.new_stream(f.stream_id, PRIORITY_DEFAULT)),
                ..self
            }
        }
    }

    /// The session once the frame's bytes are counted: when more than half of
    /// the granted window is used, a larger one is due.
    pub open spec fn with_consumed(self, n: nat) -> SessionState {
        let consumed = clamp_u64(self.recv_consumed + n) as u64;
        SessionState {
            recv_consumed: consumed,
            pending_max_data: if consumed * 2 > self.recv_window.limit
                && self.pending_max_data is None {
                Some(clamp_u64(consumed + DEFAULT_WINDOW) as u64)
            } else {
                self.pending_max_data
            },
            ..self
        }
    }

    /// The session after a stream frame. A frame that opens a stream with the
    /// wrong parity or one stream too many changes nothing, nor does one for
    /// whose data there is no room now. One whose data lies beyond the stream's
    /// limit still opens its stream and is counted.
    pub open spec fn on_frame(self, f: FrameFields) -> SessionState {
        if self.wrong_parity(f) || self.one_too_many(f) || self.overflows(f) {
            self
        } else {
            let opened = self.with_consumed(f.data.len()).with_stream_of(f);
            let s = opened.stream(f.stream_id);
            opened.with_stream(
                f.stream_id,
                StreamState { recv: s.recv.receive(f.offset, f.data, f.fin), ..s },
            )
        }
    }

    /// Why the frame fails, if it does.
    pub open spec fn frame_error(self, f: FrameFields) -> Option<ErrorView> {
        if self.wrong_parity(f) {
            Some(ErrorView::ProtocolViolation(parity_complaint(f.stream_id, self.role)))
        } else if self.one_too_many(f) {
            Some(ErrorView::StreamLimitExceeded(self.limits.max_streams))
        } else if self.recv_of(f).exceeds(f.offset, f.data) || self.overflows(f) {
            Some(self.recv_of(f).refusal(f.offset, f.data))
        } else {
            None
        }
    }

    /// The events of a frame that does not fail.
    pub open spec fn frame_events(self, f: FrameFields) -> Seq<EventView> {
        (if self.has_stream(f.stream_id) {
            Seq::empty()
        } else {
            seq![EventView::NewStream(f.stream_id)]
        }) + seq![EventView::DataAvailable(f.stream_id)] + (if f.fin || self.on_frame(f).stream(
            f.stream_id,
        ).recv.finished() {
            seq![EventView::StreamFinished(f.stream_id)]
        } else {
            Seq::empty()
        })
    }

    /// The session after an acknowledgement frame at `now`. Feedback for
    /// congestion control adds up; the least round-trip time counts.
    pub open spec fn on_ack_frame(self, frame: Seq<u8>, now: u64) -> SessionState {
        match parsed_ack(frame) {
            None => self,
            Some(fields) => {
                let acked = ranges_acknowledged(self.arq, fields.ranges, now);
                let total = clamp_u64(acked.bytes_acked as int) as u64;
                let rtt = match acked.rtt {
                    Some(rtt) => rtt,
                    None => FALLBACK_RTT_US,
                };
                SessionState {
                    arq: acked.arq,
                    pending_cc_ack: if total == 0 {
                        self.pending_cc_ack
                    } else {
                        match self.pending_cc_ack {
                            Some((bytes_before, rtt_before)) => Some(
                                (
                                    clamp_u64(bytes_before + total) as u64,
                                    if rtt < rtt_before {
                                        rtt
                                    } else {
                                        rtt_before
                                    },
                                ),
                            ),
                            None => Some((total, rtt)),
                        }
                    },
                    ..self
                }
            },
        }
    }

    /// The session after a payload of the given type at `now`.
    pub open spec fn on_payload(self, pkt_type: PktType, payload: Seq<u8>, now: u64) -> SessionState {
        match pkt_type {
            PktType::Data => match parsed_frame(payload) {
                Some(f) => self.on_frame(f),
                None => self,
            },
            PktType::Ack => self.on_ack_frame(payload, now),
            PktType::MaxData => if payload.len() >= 8 {
                SessionState {
                    send_window: self.send_window.raise(be_value(payload.subrange(0, 8)) as u64),
                    ..self
                }
            } else {
                self
            },
            PktType::Ping => SessionState { pending_pong: true, ..self },
            PktType::Datagram => SessionState {
                datagrams: self.datagrams.receive(payload),
                ..self
            },
            _ => self,
        }
    }

    /// Why the payload fails, if it does: only stream frames can.
    pub open spec fn payload_error(self, pkt_type: PktType, payload: Seq<u8>) -> Option<ErrorView> {
        if pkt_type == PktType::Data {
            match parsed_frame(payload) {
                Some(f) => self.frame_error(f),
                None => None,
            }
        } else {
            None
        }
    }

    /// The payload is a stream frame for which there is no room now.
    pub open spec fn payload_overflows(self, pkt_type: PktType, payload: Seq<u8>) -> bool {
        pkt_type == PktType::Data && (parsed_frame(payload) matches Some(f) && self.overflows(f))
    }

    /// The events of a payload that does not fail.
    pub open spec fn payload_events(self, pkt_type: PktType, payload: Seq<u8>) -> Seq<EventView> {
        match pkt_type {
            PktType::Data => match parsed_frame(payload) {
                Some(f) => self.frame_events(f),
                None => Seq::empty(),
            },
            PktType::SessionTicket => seq![EventView::SessionTicket(payload)],
            PktType::Close => seq![EventView::Closed],
            PktType::Datagram => seq![EventView::DatagramReceived],
            _ => Seq::empty(),
        }
    }
}

/// What becomes of stream data does not depend on which acknowledgements are due.
pub proof fn data_leaves_acks_alone(s: SessionState, acks: AckState, payload: Seq<u8>, now: u64)
    ensures
        ({
            let other = SessionState { acks, ..s };
            &&& other.on_payload(PktType::Data, payload, now) == (SessionState {
                acks,
                ..s.on_payload(PktType::Data, payload, 0)
            })
            &&& other.payload_error(PktType::Data, payload) == s.payload_error(
                PktType::Data,
                payload,
            )
            &&& other.payload_events(PktType::Data, payload) == s.payload_events(
                PktType::Data,
                payload,
            )
        }),
{
    if let Some(f) = parsed_frame(payload) {
        let other = SessionState { acks, ..s };
        assert(other.overflows(f) == s.overflows(f));
        assert(other.with_consumed(f.data.len()).with_stream_of(f) == (SessionState {
            acks,
            ..s.with_consumed(f.data.len()).with_stream_of(f)
        }));
    }
}

/// Stream frames as planned packets.
pub open spec fn frames_planned(frames: Seq<Seq<u8>>) -> Seq<Planned> {
    frames.map_values(
        |f: Seq<u8>| Planned { pkt_type: PktType::Data, is_control: false, payload: f },
    )
}

/// Datagrams as planned packets.
pub open spec fn datagrams_planned(datagrams: Seq<Seq<u8>>) -> Seq<Planned> {
    datagrams.map_values(
        |d: Seq<u8>| Planned { pkt_type: PktType::Datagram, is_control: false, payload: d },
    )
}

/// Stream frames in flight under consecutive numbers.
pub open spec fn frames_sent(frames: Seq<Seq<u8>>, first: u64, now: u64) -> Seq<Sent> {
    Seq::new(
        frames.len(),
        |k: int|
            Sent { pkt_num: (first + k) as u64, data: frames[k], sent_at: now, resent: false },
    )
}

/// Packets in flight again under consecutive numbers.
pub open spec fn frames_resent(due: Seq<Sent>, first: u64, now: u64) -> Seq<Sent> {
    Seq::new(
        due.len(),
        |k: int|
            Sent { pkt_num: (first + k) as u64, data: due[k].data, sent_at: now, resent: true },
    )
}

/// The longest datagram that the session sends.
pub open spec fn datagram_limit(limits: SessionLimits) -> usize {
    if limits.max_datagram_size < MAX_DATAGRAM {
        limits.max_datagram_size
    } else {
        MAX_DATAGRAM
    }
}

} // verus!
