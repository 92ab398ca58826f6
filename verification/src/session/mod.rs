//! Streams, flow control, acknowledgements and datagrams of one connection.

pub mod ack;
pub mod arq;
pub mod datagram;
pub mod flow;
pub mod frame;
pub mod halves;
pub mod laws;
pub mod receiving;
pub mod recovery;
pub mod schedule;
pub mod sending;
pub mod state;
pub mod stream;
pub mod upkeep;

use crate::buffers::{bytes_content, bytes_from_vec, bytes_slice};
use crate::clock::{micros_at, now_us};
use crate::crypto::decoder::PacketDecoder;
use crate::crypto::encoder::{fits_packet, payload_too_long, EncoderState, PacketEncoder};
use crate::crypto::format::{has_packet_length, Decoding, MAX_PACKET, PACKET_OVERHEAD};
use crate::error::{ErrorView, SeamError};
use crate::packet::PktType;
use crate::session::ack::{parse_ack_frame, AckRanges, AckState};
use crate::session::arq::{
    all_sent, expired_and_rest, filter_keeps, flying, ArqState, ArqTracker, Sent,
};
use crate::session::datagram::{how_many_fit, no_more_fit, DatagramQueue, DatagramState};
use crate::session::flow::FlowWindow;
use crate::session::frame::{parse_stream_frame, FrameFields};
use crate::session::schedule::{
    cost, count_frames, drain_streams, frame_count, holds, is_left, is_longest, load, scheduled,
    taken_out, views, Slot,
};
use crate::session::state::{
    data_leaves_acks_alone, datagram_limit, datagrams_planned, frames_planned, frames_resent,
    frames_sent, index_is, is_stream_at, own_count_of_ids, own_count_push, parity_complaint,
    ranges_acknowledged, ranges_acknowledged_keep, stream_index, unique_ids, EventView, Planned,
    SessionState,
};
use crate::session::stream::{
    clamp_u64, Priority, SendState, Stream, StreamId, StreamState, PRIORITY_DEFAULT,
};
use crate::text::push_decimal;
use crate::transport::resumption::{is_issued, TicketKey};
use crate::wire::{be_bytes, le_bytes_len, put_u64_be, u64_be_at};
use bytes::Bytes;
use vstd::prelude::*;

verus! {

/// Initial connection window: 16 MiB, replenished by MaxData frames.
pub const DEFAULT_WINDOW: u64 = 0x100_0000;

/// Round-trip time assumed where no sample is at hand: 100 ms.
pub const FALLBACK_RTT_US: u64 = 100_000;

/// Longest datagram that fits into a packet.
pub const MAX_DATAGRAM: usize = 0x7FFF_FFDE;

/// A packet produced by a flush, tagged so the connection layer can exempt
/// control packets (ACK, MaxData) from congestion-control accounting.
pub struct TaggedPacket {
    pub is_control: bool,
    pub bytes: Vec<u8>,
}

/// Events the session layer surfaces to the application.
#[derive(Debug)]
pub enum SessionEvent {
    NewStream(StreamId),
    DataAvailable(StreamId),
    StreamFinished(StreamId),
    DatagramReceived,
    /// Encrypted session ticket received from the server (for 0-RTT resumption).
    SessionTicket(Vec<u8>),
    Closed,
}

/// Which side of the connection this session represents. Controls stream-id
/// allocation so client and server can initiate streams concurrently without
/// collisions.
#[derive(Debug, Clone, Copy, PartialEq, Eq, Structural)]
pub enum Role {
    /// Initiator (uses odd stream ids: 1, 3, 5 …).
    Client,
    /// Responder (uses even stream ids: 2, 4, 6 …).
    Server,
}

/// Resource limits enforced at the session layer to resist DoS.
#[derive(Debug, Clone, Copy)]
pub struct SessionLimits {
    /// Streams, whichever side opened them.
    pub max_streams: u32,
    pub max_datagram_size: usize,
    pub max_datagram_queue: usize,
    /// Packets that were sent and not yet acknowledged.
    pub max_in_flight_packets: usize,
    /// Bytes of a stream that were received and not yet read.
    pub max_recv_buffer_per_stream: u64,
}

/// The limits of a session that sets none: 4 MiB of receive buffer per stream.
pub open spec fn default_limits() -> SessionLimits {
    SessionLimits {
        max_streams: 1024,
        max_datagram_size: 1200,
        max_datagram_queue: 64,
        max_in_flight_packets: 10_000,
        max_recv_buffer_per_stream: 4_194_304,
    }
}

impl Default for SessionLimits {
    fn default() -> (limits: Self)
        ensures
            limits == default_limits(),
    {
        SessionLimits {
            max_streams: 1024,
            max_datagram_size: 1200,
            max_datagram_queue: 64,
            max_in_flight_packets: 10_000,
            max_recv_buffer_per_stream: 4_194_304,
        }
    }
}

impl View for SessionEvent {
    type V = EventView;

    open spec fn view(&self) -> EventView {
        match *self {
            SessionEvent::NewStream(id) => EventView::NewStream(id),
            SessionEvent::DataAvailable(id) => EventView::DataAvailable(id),
            SessionEvent::StreamFinished(id) => EventView::StreamFinished(id),
            SessionEvent::DatagramReceived => EventView::DatagramReceived,
            SessionEvent::SessionTicket(ticket) => EventView::SessionTicket(ticket@),
            SessionEvent::Closed => EventView::Closed,
        }
    }
}

/// The session: a set of streams, datagrams and their bookkeeping over one
/// pair of packet encoder and decoder.
pub struct Session {
    pub id: u64,
    pub role: Role,
    encoder: PacketEncoder,
    decoder: PacketDecoder,
    /// In the order in which they were opened.
    streams: Vec<Stream>,
    next_stream_id: StreamId,
    send_window: FlowWindow,
    recv_window: FlowWindow,
    /// Total application bytes received so far.
    recv_consumed: u64,
    /// If set, the next flush emits a MaxData packet with this limit.
    pending_max_data: Option<u64>,
    /// The next flush emits a Pong.
    pending_pong: bool,
    /// The next flush emits a Ping.
    pending_ping: bool,
    arq: ArqTracker,
    datagrams: DatagramQueue,
    limits: SessionLimits,
    /// Packet numbers received from the peer.
    ack_ranges: AckRanges,
    /// Bytes acknowledged and round-trip time, not yet drained.
    pending_cc_ack: Option<(u64, u64)>,
}

impl View for Session {
    type V = SessionState;

    closed spec fn view(&self) -> SessionState {
        SessionState {
            id: self.id,
            role: self.role,
            encoder: self.encoder@,
            decoder: self.decoder@,
            streams: views(self.streams@),
            next_stream_id: self.next_stream_id,
            send_window: self.send_window@,
            recv_window: self.recv_window@,
            recv_consumed: self.recv_consumed,
            pending_max_data: self.pending_max_data,
            pending_pong: self.pending_pong,
            pending_ping: self.pending_ping,
            arq: self.arq@,
            datagrams: self.datagrams@,
            limits: self.limits,
            acks: self.ack_ranges@,
            pending_cc_ack: self.pending_cc_ack,
        }
    }
}

/// The packets carry the planned payloads in order, under consecutive numbers
/// from `base` on, and the peer reads them back.
pub open spec fn carry_plan(
    packets: Seq<TaggedPacket>,
    plan: Seq<Planned>,
    base: EncoderState,
) -> bool {
    &&& packets.len() == plan.len()
    &&& forall|k: int| #![trigger packets[k]] #![trigger plan[k]]
        0 <= k < plan.len() ==> {
            &&& packets[k].is_control == plan[k].is_control
            &&& packets[k].bytes@ == base.advance(k as nat).packet(
                plan[k].pkt_type,
                plan[k].payload,
            )
            &&& base.advance(k as nat).reads_back(
                packets[k].bytes@,
                plan[k].pkt_type,
                plan[k].payload,
            )
            &&& packets[k].bytes@.len() == plan[k].payload.len() + PACKET_OVERHEAD <= MAX_PACKET
        }
}

/// Bytes of the packets that are not control packets.
pub open spec fn data_bytes(packets: Seq<TaggedPacket>) -> nat
    decreases packets.len(),
{
    if packets.len() == 0 {
        0
    } else {
        data_bytes(packets.drop_last()) + (if packets.last().is_control {
            0
        } else {
            packets.last().bytes@.len()
        })
    }
}

/// Count the bytes of the packets that are not control packets.
pub fn count_data_bytes(packets: &Vec<TaggedPacket>) -> (bytes: u64)
    ensures
        bytes == clamp_u64(data_bytes(packets@) as int),
{
    let n: usize = packets.len();
    let mut bytes: u64 = 0;
    for i in 0..n
        invariant
            n == packets@.len(),
            bytes == clamp_u64(data_bytes(packets@.take(i as int)) as int),
    {
        assert(packets@.take(i + 1).drop_last() =~= packets@.take(i as int));
        if !packets[i].is_control {
            bytes = bytes.saturating_add(packets[i].bytes.len() as u64);
        }
    }
    assert(packets@.take(n as int) =~= packets@);
    bytes
}

/// Build one more packet of a plan.
fn push_packet(
    packets: &mut Vec<TaggedPacket>,
    encoder: &mut PacketEncoder,
    pkt_type: PktType,
    is_control: bool,
    payload: &[u8],
    plan: Ghost<Seq<Planned>>,
    base: Ghost<EncoderState>,
)
    requires
        old(encoder)@.has_numbers(1),
        fits_packet(payload@),
        old(encoder)@ == base@.advance(plan@.len()),
        base@.has_numbers(plan@.len() + 1),
        carry_plan(old(packets)@, plan@, base@),
    ensures
        final(encoder)@ == base@.advance(plan@.len() + 1),
        carry_plan(
            final(packets)@,
            plan@.push(Planned { pkt_type, is_control, payload: payload@ }),
            base@,
        ),
{
    match encoder.seal_packet(pkt_type, payload) {
        Ok(packet) => {
            packets.push(TaggedPacket { is_control, bytes: packet });
        },
        Err(_) => {},
    }
}

impl Session {
    /// A client session with the default limits.
    pub fn new(id: u64, encoder: PacketEncoder, decoder: PacketDecoder) -> (s: Self)
        ensures
            s@.wf(),
            s@ == SessionState::new(id, Role::Client, encoder@, decoder@, s@.limits),
            s@.limits == default_limits(),
    {
        Self::with_limits(id, Role::Client, encoder, decoder, SessionLimits::default())
    }

    /// A session of the given role with the default limits.
    pub fn with_role(id: u64, role: Role, encoder: PacketEncoder, decoder: PacketDecoder) -> (s:
        Self)
        ensures
            s@.wf(),
            s@ == SessionState::new(id, role, encoder@, decoder@, s@.limits),
            s@.limits == default_limits(),
    {
        Self::with_limits(id, role, encoder, decoder, SessionLimits::default())
    }

    /// A session of the given role and limits.
    pub fn with_limits(
        id: u64,
        role: Role,
        encoder: PacketEncoder,
        decoder: PacketDecoder,
        limits: SessionLimits,
    ) -> (s: Self)
        ensures
            s@.wf(),
            s@ == SessionState::new(id, role, encoder@, decoder@, limits),
    {
        let max_size: usize = if limits.max_datagram_size < MAX_DATAGRAM {
            limits.max_datagram_size
        } else {
            MAX_DATAGRAM
        };
        let next_stream_id: StreamId = match role {
            Role::Client => 1,
            Role::Server => 2,
        };
        let s = Session {
            id,
            role,
            encoder,
            decoder,
            streams: Vec::new(),
            next_stream_id,
            send_window: FlowWindow::new(DEFAULT_WINDOW),
            recv_window: FlowWindow::new(DEFAULT_WINDOW),
            recv_consumed: 0,
            pending_max_data: None,
            pending_pong: false,
            pending_ping: false,
            arq: ArqTracker::new(),
            datagrams: DatagramQueue::with_limits(max_size, limits.max_datagram_queue),
            limits,
            ack_ranges: AckRanges::new(),
            pending_cc_ack: None,
        };
        assert(s@.streams =~= Seq::empty());
        s
    }

    // ── Stream management ────────────────────────────────────────────────────
    /// Open a locally-initiated stream.
    pub fn open_stream(&mut self) -> (id: StreamId)
        requires
            old(self)@.wf(),
            old(self)@.can_open(),
        ensures
            id == old(self)@.next_stream_id,
            final(self)@ == old(self)@.open(PRIORITY_DEFAULT),
            final(self)@.wf(),
    {
        match self.open_stream_with_priority(PRIORITY_DEFAULT) {
            Ok(id) => id,
            Err(_) => 0,
        }
    }

    /// Open a stream with explicit priority (0 = highest, 7 = lowest).
    /// Returns an error if the connection-wide stream limit would be exceeded.
    pub fn open_stream_with_priority(&mut self, priority: Priority) -> (r: Result<
        StreamId,
        SeamError,
    >)
        requires
            old(self)@.wf(),
        ensures
            final(self)@.wf(),
            match r {
                Ok(id) => {
                    &&& old(self)@.can_open()
                    &&& id == old(self)@.next_stream_id
                    &&& final(self)@ == old(self)@.open(priority)
                },
                Err(e) => {
                    &&& old(self)@.open_error() == Some(e@)
                    &&& final(self)@ == old(self)@
                },
            },
    {
        if self.streams.len() as u64 >= self.limits.max_streams as u64 {
            return Err(SeamError::StreamLimitExceeded(self.limits.max_streams));
        }
        if self.next_stream_id > u32::MAX - 2 {
            return Err(SeamError::StreamIdsExhausted);
        }
        let ghost before = self@;
        let id: StreamId = self.next_stream_id;
        self.next_stream_id = self.next_stream_id + 2;
        self.streams.push(Stream::with_room(id, priority, self.limits.max_recv_buffer_per_stream));
        proof {
            assert(self@.streams =~= before.streams.push(before.new_stream(id, priority)));
            own_count_push(before.streams, before.new_stream(id, priority), self.role.parity());
            assert(self@ =~= before.open(priority));
        }
        Ok(id)
    }

    /// Open a stream, unless that would exceed the stream limit or no id is left.
    pub fn try_open_stream_with_priority(&mut self, priority: Priority) -> (r: Option<StreamId>)
        requires
            old(self)@.wf(),
        ensures
            final(self)@.wf(),
            match r {
                Some(id) => {
                    &&& old(self)@.can_open()
                    &&& id == old(self)@.next_stream_id
                    &&& final(self)@ == old(self)@.open(priority)
                },
                None => !old(self)@.can_open() && final(self)@ == old(self)@,
            },
    {
        match self.open_stream_with_priority(priority) {
            Ok(id) => Some(id),
            Err(_) => None,
        }
    }

    /// Open a stream that will be *pushed* to the remote peer: on a server this
    /// allocates an even id, on a client it is `open_stream`.
    pub fn push_stream(&mut self) -> (id: StreamId)
        requires
            old(self)@.wf(),
            old(self)@.can_open(),
        ensures
            id == old(self)@.next_stream_id,
            final(self)@ == old(self)@.open(PRIORITY_DEFAULT),
            final(self)@.wf(),
    {
        self.open_stream()
    }

    /// The place of the stream with the given id.
    fn find(&self, id: StreamId) -> (r: Option<usize>)
        requires
            self@.wf(),
        ensures
            match r {
                Some(i) => {
                    &&& i < self.streams@.len()
                    &&& self@.has_stream(id)
                    &&& stream_index(self@.streams, id) == i
                    &&& self.streams@[i as int]@ == self@.stream(id)
                    &&& self@.stream(id).id == id
                    &&& self@.stream(id).wf()
                },
                None => !self@.has_stream(id),
            },
    {
        let n: usize = self.streams.len();
        for i in 0..n
            invariant
                n == self.streams@.len(),
                self@.wf(),
                forall|j: int| 0 <= j < i ==> (#[trigger] self@.streams[j]).id != id,
        {
            assert(self@.streams[i as int] == self.streams@[i as int]@);
            if self.streams[i].id() == id {
                proof {
                    index_is(self@.streams, id, i as int);
                }
                return Some(i);
            }
        }
        None
    }

    // ── Datagrams (unreliable) ───────────────────────────────────────────────
    /// Queue an unreliable datagram for sending.
    pub fn send_datagram(&mut self, data: Bytes) -> (r: Result<(), SeamError>)
        requires
            old(self)@.wf(),
        ensures
            final(self)@ == (SessionState {
                datagrams: old(self)@.datagrams.send(bytes_content(data)),
                ..old(self)@
            }),
            final(self)@.wf(),
            match r {
                Ok(()) => bytes_content(data).len() <= datagram_limit(old(self)@.limits),
                Err(e) => {
                    &&& bytes_content(data).len() > datagram_limit(old(self)@.limits)
                    &&& e@ == (ErrorView::BufferTooSmall {
                        need: bytes_content(data).len() as usize,
                        have: old(self)@.limits.max_datagram_size,
                    })
                },
            },
    {
        match self.datagrams.send(data) {
            Ok(()) => Ok(()),
            Err(size) => Err(
                SeamError::BufferTooSmall { need: size, have: self.limits.max_datagram_size },
            ),
        }
    }

    /// Read the next received datagram, if any.
    pub fn recv_datagram(&mut self) -> (r: Option<Bytes>)
        requires
            old(self)@.wf(),
        ensures
            final(self)@.wf(),
            match r {
                Some(data) => {
                    &&& old(self)@.datagrams.incoming.len() > 0
                    &&& bytes_content(data) == old(self)@.datagrams.incoming[0]
                    &&& final(self)@ == (SessionState {
                        datagrams: DatagramState {
                            incoming: old(self)@.datagrams.incoming.skip(1),
                            ..old(self)@.datagrams
                        },
                        ..old(self)@
                    })
                },
                None => old(self)@.datagrams.incoming.len() == 0 && final(self)@ == old(self)@,
            },
    {
        let r = self.datagrams.recv();
        r
    }

    /// Datagrams waiting to be sent, waiting to be read, and dropped so far.
    pub fn datagram_stats(&self) -> (r: (usize, usize, u64))
        ensures
            r.0 == self@.datagrams.outgoing.len(),
            r.1 == self@.datagrams.incoming.len(),
            r.2 == self@.datagrams.dropped,
    {
        (self.datagrams.send_pending(), self.datagrams.recv_pending(), self.datagrams.dropped())
    }

    /// The id of the session.
    pub fn session_id(&self) -> (id: u64)
        ensures
            id == self@.id,
    {
        self.id
    }

    /// The limits of the session.
    pub fn limits(&self) -> (limits: &SessionLimits)
        ensures
            *limits == self@.limits,
    {
        &self.limits
    }

    // ── Sending ──────────────────────────────────────────────────────────────
    /// Write `data` into a stream's send buffer.
    pub fn send(&mut self, stream_id: StreamId, data: &[u8]) -> (r: Result<(), SeamError>)
        requires
            old(self)@.wf(),
        ensures
            final(self)@ == old(self)@.send(stream_id, data@),
            final(self)@.wf(),
            r is Err ==> final(self)@ == old(self)@,
            match r {
                Ok(()) => old(self)@.send_error(stream_id, data@) is None,
                Err(e) => old(self)@.send_error(stream_id, data@) == Some(e@),
            },
    {
        let ghost before = self@;
        let len: u64 = data.len() as u64;
        let available: u64 = self.send_window.available();
        if len > available {
            return Err(SeamError::FlowControlBlocked { available, requested: len });
        }
        match self.find(stream_id) {
            Some(i) => {
                assert(before.streams[i as int].wf());
                let written = self.streams[i].write(data);
                proof {
                    assert(self@.streams =~= before.streams.update(
                        i as int,
                        self.streams@[i as int]@,
                    ));
                    own_count_of_ids(self@.streams, before.streams, self.role.parity());
                }
                match written {
                    // Only data that the stream takes uses up credit.
                    Ok(_) => self.send_window.reserve(len),
                    Err(e) => {
                        assert(self@.streams =~= before.streams);
                        Err(e)
                    },
                }
            },
            None => Err(SeamError::UnknownStream(stream_id)),
        }
    }

    /// Mark a stream as finished (no more data will be sent). The next flush
    /// will emit a zero-byte FIN frame to signal EOF to the remote peer.
    pub fn finish_stream(&mut self, stream_id: StreamId)
        requires
            old(self)@.wf(),
        ensures
            final(self)@.wf(),
            final(self)@ == (if old(self)@.has_stream(stream_id) {
                let s = old(self)@.stream(stream_id);
                old(self)@.with_stream(
                    stream_id,
                    (StreamState { send: SendState { finished: true, ..s.send }, ..s }),
                )
            } else {
                old(self)@
            }),
    {
        if let Some(i) = self.find(stream_id) {
            let ghost before = self@;
            assert(before.streams[i as int].wf());
            self.streams[i].finish();
            proof {
                assert(self@.streams =~= before.streams.update(i as int, self.streams@[i as int]@));
                own_count_of_ids(self@.streams, before.streams, self.role.parity());
            }
        }
    }

    /// How many packets a flush would send besides stream frames.
    fn other_count(&self) -> (n: u128)
        ensures
            n == self@.datagrams.outgoing.len() + self@.control_packets().len(),
            n <= 0x1_0000_0000_0000_0004,
    {
        let mut n: u128 = self.datagrams.send_pending() as u128;
        if self.ack_ranges.has_pending_ack() {
            n = n + 1;
        }
        if self.pending_max_data.is_some() {
            n = n + 1;
        }
        if self.pending_pong {
            n = n + 1;
        }
        if self.pending_ping {
            n = n + 1;
        }
        n
    }

    /// Packetise pending stream data into wire packets.
    /// Streams are drained in priority order (0 = highest). Within the same
    /// priority, streams are served round-robin by insertion order.
    /// Control packets (ACK, MaxData) are tagged so the connection layer can
    /// send them even when the congestion window is exhausted.
    /// Data for which too many packets are in flight waits for a later flush.
    pub fn flush(&mut self) -> (r: Result<Vec<TaggedPacket>, SeamError>)
        requires
            old(self)@.wf(),
        ensures
            exists|t: std::time::SystemTime|
                is_flush(old(self)@, #[trigger] micros_at(t), None, r, final(self)@),
            final(self)@.wf(),
    {
        let now: u64 = now_us();
        let ghost t = choose|t: std::time::SystemTime| now == #[trigger] micros_at(t);
        let r = self.flush_at(now);
        assert(is_flush(old(self)@, micros_at(t), None, r, self@));
        r
    }

    /// Flush, with `now` as the time at which the packets are sent.
    pub fn flush_at(&mut self, now: u64) -> (r: Result<Vec<TaggedPacket>, SeamError>)
        requires
            old(self)@.wf(),
        ensures
            is_flush(old(self)@, now, None, r, final(self)@),
            final(self)@.wf(),
    {
        self.flush_within(now, None)
    }

    /// Flush, with `now` as the time at which the packets are sent, and with a
    /// budget for the bytes of the data packets, if there is one. Data that does
    /// not fit waits for a later flush; control packets always go.
    pub fn flush_within(&mut self, now: u64, budget: Option<u64>) -> (r: Result<
        Vec<TaggedPacket>,
        SeamError,
    >)
        requires
            old(self)@.wf(),
        ensures
            is_flush(old(self)@, now, budget, r, final(self)@),
            final(self)@.wf(),
    {
        let ghost before = self@;
        let ghost base = self.encoder@;
        let numbers_left: u64 = u64::MAX - self.encoder.peek_next_pkt_num();
        let free: usize = self.limits.max_in_flight_packets - self.arq.in_flight_count();
        let all_total: u128 = count_frames(&self.streams);
        let frame_total: u128 = if all_total <= free as u128 {
            all_total
        } else {
            free as u128
        };
        let other_total: u128 = self.other_count();
        if frame_total > numbers_left as u128 || other_total > numbers_left as u128 - frame_total {
            return Err(SeamError::PacketNumbersExhausted);
        }
        let mut packets: Vec<TaggedPacket> = Vec::new();
        let ghost mut plan: Seq<Planned> = Seq::empty();

        assert forall|j: int| 0 <= j < self.streams@.len() implies (
        #[trigger] self.streams@[j])@.wf() by {
            assert(before.streams[j].wf());
        }
        let (frames, left) = drain_streams(&mut self.streams, free, budget);
        let ghost order = choose|order: Seq<Slot>| #[trigger]
            is_longest(order, before.streams, free as nat, budget) && holds(
                frames@,
                order,
                before.streams,
            ) && views(self.streams@) == taken_out(before.streams, order) && is_left(
                budget,
                left,
                load(scheduled(order, before.streams)),
            );
        let ghost all = scheduled(order, before.streams);
        let ghost n = before.datagrams_due(all, budget);
        let ghost in_flight = self.arq@.in_flight;
        proof {
            assert(all.len() <= before.frames_due());
            no_more_fit(before.datagrams.outgoing, left);
            own_count_of_ids(self@.streams, before.streams, self.role.parity());
            assert forall|k: int| 0 <= k < all.len() implies (#[trigger] all[k]).len() <= 1402 by {
                assert(all[k] == frames@[k]@);
            }
        }
        let count: usize = frames.len();
        for frame in it: frames.into_iter()
            invariant
                count == all.len() == it.seq().len(),
                forall|k: int| #![trigger it.seq()[k]]
                    0 <= k < count ==> it.seq()[k]@ == all[k] && it.seq()[k]@.len() <= 1402,
                base.has_numbers(count as nat),
                plan == frames_planned(all.take(it.index())),
                carry_plan(packets@, plan, base),
                self.encoder@ == base.advance(it.index() as nat),
                self.arq@ == (ArqState {
                    in_flight: in_flight + frames_sent(all.take(it.index()), base.next, now),
                    ..before.arq
                }),
                self@ == (SessionState {
                    encoder: self.encoder@,
                    arq: self.arq@,
                    streams: taken_out(before.streams, order),
                    ..before
                }),
        {
            let ghost i = it.index();
            let pkt_num: u64 = self.encoder.peek_next_pkt_num();
            push_packet(
                &mut packets,
                &mut self.encoder,
                PktType::Data,
                false,
                frame.as_slice(),
                Ghost(plan),
                Ghost(base),
            );
            proof {
                plan = plan.push(
                    Planned { pkt_type: PktType::Data, is_control: false, payload: frame@ },
                );
                assert(plan =~= frames_planned(all.take(i + 1)));
                assert(frames_sent(all.take(i + 1), base.next, now) =~= frames_sent(
                    all.take(i),
                    base.next,
                    now,
                ).push((Sent { pkt_num, data: frame@, sent_at: now, resent: false })));
            }
            self.arq.on_sent(pkt_num, bytes_from_vec(frame), now, false);
            assert(self.arq@.in_flight =~= in_flight + frames_sent(
                all.take(i + 1),
                base.next,
                now,
            ));
        }
        proof {
            assert(all.take(count as int) =~= all);
            let fits = |data: Seq<u8>| fits_packet(data);
            assert forall|i: int| 0 <= i < self.arq@.in_flight.len() implies fits(
                (#[trigger] self.arq@.in_flight[i]).data,
            ) by {
                if i < in_flight.len() {
                    assert(fits(before.arq.in_flight[i].data));
                } else {
                    assert(all[i - in_flight.len()].len() <= 1402);
                }
            }
        }
        self.flush_other(&mut packets, left, Ghost(plan), Ghost(base));
        proof {
            assert(plan + datagrams_planned(before.datagrams.outgoing.take(n as int))
                + before.control_packets() =~= before.plan(all, n));
            assert(self@ =~= before.flushed(order, n, now));
            assert(is_longest(order, before.streams, before.free_slots(), budget));
        }
        Ok(packets)
    }

    /// Send the queued datagrams that fit into the budget, and whatever control
    /// packets are due.
    fn flush_other(
        &mut self,
        packets: &mut Vec<TaggedPacket>,
        budget: Option<u64>,
        plan: Ghost<Seq<Planned>>,
        base: Ghost<EncoderState>,
    )
        requires
            old(self)@.wf(),
            old(self)@.encoder == base@.advance(plan@.len()),
            base@.has_numbers(
                plan@.len() + old(self)@.datagrams.outgoing.len() + old(
                    self,
                )@.control_packets().len(),
            ),
            carry_plan(old(packets)@, plan@, base@),
        ensures
            carry_plan(
                final(packets)@,
                plan@ + datagrams_planned(
                    old(self)@.datagrams.outgoing.take(
                        how_many_fit(old(self)@.datagrams.outgoing, budget) as int,
                    ),
                ) + old(self)@.control_packets(),
                base@,
            ),
            final(self)@ == (SessionState {
                encoder: base@.advance(
                    plan@.len() + how_many_fit(old(self)@.datagrams.outgoing, budget) + old(
                        self,
                    )@.control_packets().len(),
                ),
                recv_window: match old(self)@.pending_max_data {
                    Some(limit) => old(self)@.recv_window.raise(limit),
                    None => old(self)@.recv_window,
                },
                pending_max_data: None,
                pending_pong: false,
                pending_ping: false,
                datagrams: DatagramState {
                    outgoing: old(self)@.datagrams.outgoing.skip(
                        how_many_fit(old(self)@.datagrams.outgoing, budget) as int,
                    ),
                    ..old(self)@.datagrams
                },
                acks: AckState { pending: false, ..old(self)@.acks },
                ..old(self)@
            }),
            final(self)@.wf(),
    {
        let ghost before = self@;
        let ghost start = plan@;
        let ghost queue = before.datagrams.outgoing;
        let ghost n = how_many_fit(queue, budget) as int;
        let ghost mut plan = plan@;
        let ghost mut sent: int = 0;
        let mut left: Option<u64> = budget;
        let none: [u8; 0] = [];
        proof {
            assert(none@ =~= Seq::<u8>::empty());
            no_more_fit(queue, budget);
            assert(queue.skip(0) =~= queue);
            assert(plan =~= start + datagrams_planned(queue.take(0)));
        }

        // One datagram per packet. Datagrams are not tracked for retransmission.
        loop
            invariant
                0 <= sent <= n <= queue.len(),
                queue == before.datagrams.outgoing,
                n == sent + how_many_fit(queue.skip(sent), left),
                before.wf(),
                base@.has_numbers(start.len() + queue.len()),
                plan == start + datagrams_planned(queue.take(sent)),
                carry_plan(packets@, plan, base@),
                self.encoder@ == base@.advance(plan.len()),
                self.datagrams@ == (DatagramState {
                    outgoing: queue.skip(sent),
                    ..before.datagrams
                }),
                self@ == (SessionState {
                    encoder: self.encoder@,
                    datagrams: self.datagrams@,
                    ..before
                }),
                self.datagrams@.wf(),
            ensures
                sent == n,
            decreases queue.len() - sent,
        {
            let len: usize = match self.datagrams.next_len() {
                Some(len) => len,
                None => {
                    break;
                },
            };
            assert(queue.skip(sent)[0] == queue[sent]);
            assert(queue[sent].len() <= before.datagrams.max_size);
            if let Some(rest) = left {
                let bytes: u64 = len as u64 + PACKET_OVERHEAD as u64;
                if bytes > rest {
                    break;
                }
                left = Some(rest - bytes);
            }
            match self.datagrams.poll_send() {
                Some(datagram) => {
                    assert(bytes_content(datagram) == queue[sent]);
                    push_packet(
                        packets,
                        &mut self.encoder,
                        PktType::Datagram,
                        false,
                        bytes_slice(&datagram),
                        Ghost(plan),
                        base,
                    );
                    proof {
                        plan = plan.push(
                            Planned {
                                pkt_type: PktType::Datagram,
                                is_control: false,
                                payload: bytes_content(datagram),
                            },
                        );
                        assert(plan =~= start + datagrams_planned(queue.take(sent + 1)));
                        assert(queue.skip(sent).skip(1) =~= queue.skip(sent + 1));
                        sent = sent + 1;
                    }
                },
                None => {},
            }
        }

        // A consolidated ACK frame if the peer is owed one.
        if self.ack_ranges.has_pending_ack() {
            let frame = self.ack_ranges.build_frame();
            push_packet(
                packets,
                &mut self.encoder,
                PktType::Ack,
                true,
                frame.as_slice(),
                Ghost(plan),
                base,
            );
            proof {
                plan = plan.push(
                    Planned { pkt_type: PktType::Ack, is_control: true, payload: frame@ },
                );
            }
        }
        // A MaxData frame if the receive window needs extending.
        if let Some(new_limit) = self.pending_max_data {
            self.pending_max_data = None;
            let mut frame: Vec<u8> = Vec::new();
            put_u64_be(&mut frame, new_limit);
            proof {
                le_bytes_len(new_limit as nat, 8);
                assert(frame@ =~= be_bytes(new_limit as nat, 8));
            }
            push_packet(
                packets,
                &mut self.encoder,
                PktType::MaxData,
                true,
                frame.as_slice(),
                Ghost(plan),
                base,
            );
            self.recv_window.update_limit(new_limit);
            proof {
                plan = plan.push(
                    Planned { pkt_type: PktType::MaxData, is_control: true, payload: frame@ },
                );
            }
        }
        // A Pong in response to the peer's Ping.
        if self.pending_pong {
            self.pending_pong = false;
            push_packet(
                packets,
                &mut self.encoder,
                PktType::Pong,
                true,
                none.as_slice(),
                Ghost(plan),
                base,
            );
            proof {
                plan = plan.push(
                    Planned { pkt_type: PktType::Pong, is_control: true, payload: Seq::empty() },
                );
            }
        }
        // A Ping if the application asked for one (keepalive).
        if self.pending_ping {
            self.pending_ping = false;
            push_packet(
                packets,
                &mut self.encoder,
                PktType::Ping,
                true,
                none.as_slice(),
                Ghost(plan),
                base,
            );
            proof {
                plan = plan.push(
                    Planned { pkt_type: PktType::Ping, is_control: true, payload: Seq::empty() },
                );
            }
        }
        assert(plan =~= start + datagrams_planned(queue.take(n)) + before.control_packets());
    }

    /// Does the session owe the peer an ACK frame?
    pub fn has_pending_ack(&self) -> (yes: bool)
        ensures
            yes == self@.acks.pending,
    {
        self.ack_ranges.has_pending_ack()
    }

    /// Does the session need to send a MaxData window update to the peer?
    pub fn has_pending_max_data(&self) -> (yes: bool)
        ensures
            yes == self@.pending_max_data is Some,
    {
        self.pending_max_data.is_some()
    }

    /// Queue a Ping frame for the next flush.
    pub fn ping(&mut self)
        requires
            old(self)@.wf(),
        ensures
            final(self)@ == (SessionState { pending_ping: true, ..old(self)@ }),
            final(self)@.wf(),
    {
        self.pending_ping = true;
    }

    // ── Receiving ────────────────────────────────────────────────────────────
    /// Process an incoming wire packet. Returns events.
    pub fn receive_packet(&mut self, buf: &[u8]) -> (r: Result<Vec<SessionEvent>, SeamError>)
        requires
            old(self)@.wf(),
        ensures
            exists|t: std::time::SystemTime|
                is_receive(old(self)@, buf@, #[trigger] micros_at(t), r, final(self)@),
            final(self)@.wf(),
    {
        let now: u64 = now_us();
        let ghost t = choose|t: std::time::SystemTime| now == #[trigger] micros_at(t);
        let r = self.receive_packet_at(buf, now);
        assert(is_receive(old(self)@, buf@, micros_at(t), r, self@));
        r
    }

    /// Process a wire packet that arrived at `now`.
    pub fn receive_packet_at(&mut self, buf: &[u8], now: u64) -> (r: Result<
        Vec<SessionEvent>,
        SeamError,
    >)
        requires
            old(self)@.wf(),
        ensures
            is_receive(old(self)@, buf@, now, r, final(self)@),
            final(self)@.wf(),
    {
        let (pkt_type, pkt_num, payload) = match self.decoder.decode(buf) {
            Ok(fields) => fields,
            Err(e) => {
                assert(self@ =~= old(self)@);
                return Err(e);
            },
        };
        let mut events: Vec<SessionEvent> = Vec::new();
        if matches!(pkt_type, PktType::Data) {
            let ghost read = self@;
            let (r, taken) = self.handle_data_frame(payload.as_slice());
            if taken {
                self.ack_ranges.on_received(pkt_num, pkt_type.is_ack_eliciting());
            }
            proof {
                data_leaves_acks_alone(read, self@.acks, payload@, now);
            }
            return r;
        }
        self.ack_ranges.on_received(pkt_num, pkt_type.is_ack_eliciting());
        let ghost arrived = self@;
        match pkt_type {
            PktType::Data => {},
            PktType::Ack => {
                self.handle_ack_frame(payload.as_slice(), now);
            },
            PktType::MaxData => {
                if payload.len() >= 8 {
                    let new_limit: u64 = u64_be_at(payload.as_slice(), 0);
                    self.send_window.update_limit(new_limit);
                }
            },
            PktType::Ping => {
                self.pending_pong = true;
            },
            PktType::SessionTicket => {
                events.push(SessionEvent::SessionTicket(payload));
            },
            PktType::Close => {
                events.push(SessionEvent::Closed);
            },
            PktType::Datagram => {
                self.datagrams.receive(Bytes::copy_from_slice(payload.as_slice()));
                events.push(SessionEvent::DatagramReceived);
            },
            PktType::Pong | PktType::Chaff | PktType::PathProbe => {},
        }
        assert(event_views(events@) =~= arrived.payload_events(pkt_type, payload@));
        Ok(events)
    }

    /// Process a stream frame: what comes of it, and whether it was taken. One
    /// for which there is no room now was not, and should be sent again.
    fn handle_data_frame(&mut self, frame: &[u8]) -> (r: (
        Result<Vec<SessionEvent>, SeamError>,
        bool,
    ))
        requires
            old(self)@.wf(),
        ensures
            final(self)@ == old(self)@.on_payload(PktType::Data, frame@, 0),
            final(self)@.wf(),
            r.1 == !old(self)@.payload_overflows(PktType::Data, frame@),
            match r.0 {
                Ok(events) => {
                    &&& old(self)@.payload_error(PktType::Data, frame@) is None
                    &&& event_views(events@) == old(self)@.payload_events(PktType::Data, frame@)
                },
                Err(e) => old(self)@.payload_error(PktType::Data, frame@) == Some(e@),
            },
    {
        let ghost before = self@;
        let mut events: Vec<SessionEvent> = Vec::new();
        let (stream_id, offset, is_fin, data) = match parse_stream_frame(frame) {
            Some(fields) => fields,
            None => {
                assert(event_views(events@) =~= Seq::empty());
                return (Ok(events), true);
            },
        };
        let ghost f = FrameFields { stream_id, offset, fin: is_fin, data: data@ };
        let found = self.find(stream_id);
        if found.is_none() {
            // Remotely-initiated streams must have opposite parity from local streams.
            if stream_id % 2 == self.role.local_parity() {
                return (
                    Err(SeamError::ProtocolViolation(complain_parity(stream_id, self.role))),
                    true,
                );
            }
            if self.streams.len() as u64 >= self.limits.max_streams as u64 {
                return (Err(SeamError::StreamLimitExceeded(self.limits.max_streams)), true);
            }
        }
        let i: usize = match found {
            Some(i) => {
                if self.streams[i].overflows(offset, data) {
                    return (Err(self.streams[i].no_room(data)), false);
                }
                i
            },
            None => {
                let room: u64 = self.limits.max_recv_buffer_per_stream;
                let s = Stream::with_room(stream_id, PRIORITY_DEFAULT, room);
                if s.overflows(offset, data) {
                    return (Err(s.no_room(data)), false);
                }
                events.push(SessionEvent::NewStream(stream_id));
                self.streams.push(s);
                proof {
                    assert(self@.streams =~= before.streams.push(s@));
                    own_count_push(before.streams, s@, self.role.parity());
                }
                self.streams.len() - 1
            },
        };
        // Grant a larger window when half of the current one is used, so that
        // the peer does not stall waiting for credit.
        self.recv_consumed = self.recv_consumed.saturating_add(data.len() as u64);
        if self.recv_consumed > self.recv_window.limit() / 2 && self.pending_max_data.is_none() {
            self.pending_max_data = Some(self.recv_consumed.saturating_add(DEFAULT_WINDOW));
        }
        let ghost opened = self@;
        proof {
            assert(opened =~= before.with_consumed(data@.len()).with_stream_of(f));
            assert(is_stream_at(opened.streams, stream_id, i as int));
            assert(unique_ids(opened.streams)) by {
                assert forall|a: int, b: int| 0 <= a < b < opened.streams.len() implies (
                #[trigger] opened.streams[a]).id != (#[trigger] opened.streams[b]).id by {
                    if b == before.streams.len() {
                        assert(!is_stream_at(before.streams, stream_id, a));
                    }
                }
            }
            index_is(opened.streams, stream_id, i as int);
            assert(opened.streams[i as int].wf());
            assert(opened.streams[i as int] == self.streams@[i as int]@);
        }
        let received = self.streams[i].receive(offset, Bytes::copy_from_slice(data), is_fin);
        proof {
            assert(self@.streams =~= opened.streams.update(i as int, self.streams@[i as int]@));
            assert(self@ =~= before.on_frame(f));
            own_count_of_ids(self@.streams, opened.streams, self.role.parity());
        }
        match received {
            Ok(()) => {},
            Err(e) => {
                return (Err(e), true);
            },
        }
        events.push(SessionEvent::DataAvailable(stream_id));
        proof {
            index_is(self@.streams, stream_id, i as int);
        }
        if is_fin || self.streams[i].is_recv_finished() {
            events.push(SessionEvent::StreamFinished(stream_id));
        }
        assert(event_views(events@) =~= before.frame_events(f));
        (Ok(events), true)
    }

    /// Process an acknowledgement frame that arrived at `now`.
    fn handle_ack_frame(&mut self, frame: &[u8], now: u64)
        requires
            old(self)@.wf(),
        ensures
            final(self)@ == old(self)@.on_ack_frame(frame@, now),
            final(self)@.wf(),
    {
        let ghost before = self@;
        let (_largest, _delay_us, ranges) = match parse_ack_frame(frame) {
            Some(fields) => fields,
            None => {
                return;
            },
        };
        let mut total: u64 = 0;
        let mut sample: Option<u64> = None;
        let n: usize = ranges.len();
        for i in 0..n
            invariant
                n == ranges@.len(),
                self@ == (SessionState { arq: self.arq@, ..before }),
                ({
                    let acked = ranges_acknowledged(before.arq, ranges@.take(i as int), now);
                    &&& self.arq@ == acked.arq
                    &&& total == clamp_u64(acked.bytes_acked as int)
                    &&& sample == acked.rtt
                }),
        {
            let (start, end) = ranges[i];
            let (acked_bytes, rtt) = self.arq.on_ack_range(start, end, now);
            proof {
                let more = ranges@.take(i + 1);
                assert(more.drop_last() =~= ranges@.take(i as int));
                assert(more.last() == (start, end));
            }
            total = total.saturating_add(acked_bytes);
            if rtt.is_some() {
                sample = rtt;
            }
        }
        proof {
            assert(ranges@.take(n as int) =~= ranges@);
            ranges_acknowledged_keep(
                before.arq,
                ranges@,
                now,
                |data: Seq<u8>| fits_packet(data),
            );
        }
        if total > 0 {
            let rtt: u64 = match sample {
                Some(rtt) => rtt,
                None => FALLBACK_RTT_US,
            };
            // Merge with feedback that was not drained yet.
            self.pending_cc_ack = match self.pending_cc_ack {
                Some((bytes_before, rtt_before)) => Some(
                    (
                        bytes_before.saturating_add(total),
                        if rtt < rtt_before {
                            rtt
                        } else {
                            rtt_before
                        },
                    ),
                ),
                None => Some((total, rtt)),
            };
        }
    }

    /// Drain accumulated congestion-control feedback: bytes acknowledged and
    /// round-trip time in microseconds.
    pub fn drain_cc_ack(&mut self) -> (r: Option<(u64, u64)>)
        requires
            old(self)@.wf(),
        ensures
            r == old(self)@.pending_cc_ack,
            final(self)@ == (SessionState { pending_cc_ack: None, ..old(self)@ }),
            final(self)@.wf(),
    {
        let r = self.pending_cc_ack;
        self.pending_cc_ack = None;
        r
    }

    // ── Read ─────────────────────────────────────────────────────────────────
    /// Read up to `max` bytes of a stream's in-order data into `out`.
    pub fn read(&mut self, stream_id: StreamId, out: &mut Vec<u8>, max: usize) -> (r: Result<
        usize,
        SeamError,
    >)
        requires
            old(self)@.wf(),
        ensures
            final(self)@.wf(),
            match r {
                Ok(n) => {
                    let s = old(self)@.stream(stream_id);
                    let (data, recv) = s.recv.read(max as nat);
                    &&& old(self)@.has_stream(stream_id)
                    &&& n == data.len() <= max
                    &&& final(out)@ == old(out)@ + data
                    &&& final(self)@ == old(self)@.with_stream(
                        stream_id,
                        (StreamState { recv, ..s }),
                    )
                },
                Err(e) => {
                    &&& !old(self)@.has_stream(stream_id)
                    &&& e@ == ErrorView::UnknownStream(stream_id)
                    &&& final(self)@ == old(self)@
                    &&& final(out)@ == old(out)@
                },
            },
    {
        match self.find(stream_id) {
            Some(i) => {
                let ghost before = self@;
                assert(before.streams[i as int].wf());
                let n: usize = self.streams[i].read(out, max);
                proof {
                    assert(self@.streams =~= before.streams.update(
                        i as int,
                        self.streams@[i as int]@,
                    ));
                    own_count_of_ids(self@.streams, before.streams, self.role.parity());
                }
                Ok(n)
            },
            None => Err(SeamError::UnknownStream(stream_id)),
        }
    }

    // ── Transport helpers ────────────────────────────────────────────────────
    /// Encode a single non-stream packet (e.g. Chaff, PathProbe) using session
    /// keys into the front of `out`; returns its length.
    pub fn encode_raw(&mut self, pkt_type: PktType, payload: &[u8], out: &mut [u8]) -> (r: Result<
        usize,
        SeamError,
    >)
        requires
            old(self)@.wf(),
        ensures
            final(self)@.wf(),
            final(out)@.len() == old(out)@.len(),
            match r {
                Ok(n) => {
                    &&& fits_packet(payload@)
                    &&& old(self)@.encoder.has_numbers(1)
                    &&& n == payload@.len() + PACKET_OVERHEAD <= old(out)@.len()
                    &&& final(out)@ == old(self)@.encoder.packet(pkt_type, payload@) + old(
                        out,
                    )@.skip(n as int)
                    &&& final(self)@ == (SessionState {
                        encoder: old(self)@.encoder.advance(1),
                        ..old(self)@
                    })
                },
                Err(e) => {
                    &&& final(self)@ == old(self)@
                    &&& final(out)@ == old(out)@
                    &&& if !fits_packet(payload@) {
                        e@ == payload_too_long(payload@)
                    } else if payload@.len() + PACKET_OVERHEAD > old(out)@.len() {
                        e@ == (ErrorView::BufferTooSmall {
                            need: (payload@.len() + PACKET_OVERHEAD) as usize,
                            have: old(out)@.len() as usize,
                        })
                    } else {
                        &&& !old(self)@.encoder.has_numbers(1)
                        &&& e@ == ErrorView::PacketNumbersExhausted
                    }
                },
            },
    {
        self.encoder.encode(pkt_type, payload, out)
    }

    /// Packets in flight.
    pub fn arq_in_flight(&self) -> (n: usize)
        ensures
            n == self@.arq.in_flight.len(),
    {
        self.arq.in_flight_count()
    }

    /// Bytes of the packets in flight, or the greatest number if they are more.
    pub fn bytes_in_flight(&self) -> (bytes: u64)
        ensures
            bytes == clamp_u64(flying(self@.arq.in_flight) as int),
    {
        self.arq.bytes_in_flight()
    }

    /// Is there stream data that was not sent yet?
    pub fn has_unsent(&self) -> (yes: bool)
        ensures
            yes == (frame_count(self@.streams) > 0),
    {
        count_frames(&self.streams) > 0
    }

    /// The smoothed round-trip time in microseconds.
    pub fn srtt_us(&self) -> (us: u64)
        ensures
            us == self@.arq.srtt,
    {
        self.arq.srtt()
    }

    /// Drain packets that have waited longer than the retransmission timeout:
    /// packet number and frame of each.
    pub fn drain_retransmits(&mut self) -> (r: Vec<(u64, Bytes)>)
        requires
            old(self)@.wf(),
        ensures
            exists|t: std::time::SystemTime|
                is_drain(old(self)@, #[trigger] micros_at(t), r@, final(self)@),
            final(self)@.wf(),
    {
        let now: u64 = now_us();
        let ghost t = choose|t: std::time::SystemTime| now == #[trigger] micros_at(t);
        let r = self.drain_retransmits_at(now);
        assert(is_drain(old(self)@, micros_at(t), r@, self@));
        r
    }

    /// Drain the packets whose timeout has passed at `now`.
    pub fn drain_retransmits_at(&mut self, now: u64) -> (r: Vec<(u64, Bytes)>)
        requires
            old(self)@.wf(),
        ensures
            is_drain(old(self)@, now, r@, final(self)@),
            final(self)@.wf(),
    {
        proof {
            let arq = self.arq@;
            filter_keeps(
                arq.in_flight,
                |packet: Sent| !arq.is_expired(packet, now),
                |data: Seq<u8>| fits_packet(data),
            );
        }
        self.arq.drain_expired(now)
    }

    /// Send the packets whose timeout has passed at `now` again, each under a
    /// new number. Where the numbers do not suffice, nothing changes.
    pub fn resend_expired_at(&mut self, now: u64) -> (r: Result<Vec<Vec<u8>>, SeamError>)
        requires
            old(self)@.wf(),
        ensures
            final(self)@.wf(),
            match r {
                Ok(packets) => {
                    let due = old(self)@.arq.expired(now);
                    &&& old(self)@.encoder.has_numbers(due.len())
                    &&& final(self)@ == old(self)@.resent(now)
                    &&& packets@.len() == due.len()
                    &&& forall|k: int| #![trigger packets@[k]]
                        0 <= k < due.len() ==> packets@[k]@ == old(self)@.encoder.advance(
                            k as nat,
                        ).packet(PktType::Data, due[k].data) && old(self)@.encoder.advance(
                            k as nat,
                        ).reads_back(packets@[k]@, PktType::Data, due[k].data)
                            && has_packet_length(packets@[k]@) && packets@[k]@.len() == cost(
                            due[k].data,
                        )
                },
                Err(e) => {
                    &&& !old(self)@.encoder.has_numbers(old(self)@.arq.expired(now).len())
                    &&& e@ == ErrorView::PacketNumbersExhausted
                    &&& final(self)@ == old(self)@
                },
            },
    {
        if self.arq.expired_count(now) as u64 > u64::MAX - self.encoder.peek_next_pkt_num() {
            return Err(SeamError::PacketNumbersExhausted);
        }
        let ghost before = self@;
        let ghost due = self@.arq.expired(now);
        let ghost base = self@.encoder;
        let ghost rest = self@.arq.without_expired(now);
        let ghost fits = |data: Seq<u8>| fits_packet(data);
        proof {
            let arq = self.arq@;
            filter_keeps(arq.in_flight, |packet: Sent| arq.is_expired(packet, now), fits);
        }
        let expired = self.drain_retransmits_at(now);
        let total: usize = expired.len();
        let mut packets: Vec<Vec<u8>> = Vec::new();
        for (_, frame) in it: expired.into_iter()
            invariant
                total == due.len() == it.seq().len(),
                forall|k: int| #![trigger it.seq()[k]]
                    0 <= k < total ==> bytes_content(it.seq()[k].1) == due[k].data,
                forall|k: int| 0 <= k < total ==> fits((#[trigger] due[k]).data),
                fits == (|data: Seq<u8>| fits_packet(data)),
                base.has_numbers(total as nat),
                packets@.len() == it.index(),
                forall|k: int| #![trigger packets@[k]]
                    0 <= k < packets@.len() ==> packets@[k]@ == base.advance(k as nat).packet(
                        PktType::Data,
                        due[k].data,
                    ) && base.advance(k as nat).reads_back(
                        packets@[k]@,
                        PktType::Data,
                        due[k].data,
                    ) && has_packet_length(packets@[k]@) && packets@[k]@.len() == cost(due[k].data),
                all_sent(self@.arq.in_flight, fits),
                self@ == (SessionState {
                    encoder: base.advance(it.index() as nat),
                    arq: ArqState {
                        in_flight: rest.in_flight + frames_resent(
                            due.take(it.index()),
                            base.next,
                            now,
                        ),
                        ..before.arq
                    },
                    ..before
                }),
        {
            let ghost i = it.index();
            let pkt_num: u64 = self.encoder.peek_next_pkt_num();
            let ghost flying = self.arq@.in_flight;
            assert(fits(due[i].data));
            match self.encoder.seal_packet(PktType::Data, bytes_slice(&frame)) {
                Ok(packet) => {
                    self.arq.on_sent(pkt_num, frame, now, true);
                    packets.push(packet);
                },
                Err(_) => {},
            }
            proof {
                let packet = Sent { pkt_num, data: due[i].data, sent_at: now, resent: true };
                assert(frames_resent(due.take(i + 1), base.next, now) =~= frames_resent(
                    due.take(i),
                    base.next,
                    now,
                ).push(packet));
                assert(self.arq@.in_flight =~= rest.in_flight + frames_resent(
                    due.take(i + 1),
                    base.next,
                    now,
                ));
                assert forall|k: int| 0 <= k < self.arq@.in_flight.len() implies fits(
                    (#[trigger] self.arq@.in_flight[k]).data,
                ) by {
                    if k < flying.len() {
                        assert(self.arq@.in_flight[k] == flying[k]);
                    }
                }
            }
        }
        proof {
            assert(due.take(total as int) =~= due);
            assert(self@ =~= before.resent(now));
            expired_and_rest(before.arq, now);
        }
        Ok(packets)
    }

    /// Build a single packet outside any stream.
    pub fn seal_raw(&mut self, pkt_type: PktType, payload: &[u8]) -> (r: Result<
        Vec<u8>,
        SeamError,
    >)
        requires
            old(self)@.wf(),
        ensures
            final(self)@.wf(),
            is_raw_packet(old(self)@, pkt_type, payload@, r, final(self)@),
    {
        self.encoder.seal_packet(pkt_type, payload)
    }

    /// A packet with a ticket, issued under `key`, with which the peer can
    /// resume this session for a day.
    pub fn ticket_packet(&mut self, key: &TicketKey) -> (r: Result<Vec<u8>, SeamError>)
        requires
            old(self)@.wf(),
        ensures
            final(self)@.wf(),
            exists|ticket: Seq<u8>|
                {
                    &&& #[trigger] is_issued(
                        key@,
                        ticket,
                        old(self)@.id,
                        old(self)@.encoder.keys,
                    )
                    &&& is_raw_packet(
                        old(self)@,
                        PktType::SessionTicket,
                        ticket,
                        r,
                        final(self)@,
                    )
                },
    {
        let keys = self.encoder.keys();
        let ticket = key.issue(self.id, &keys);
        let r = self.encoder.seal_packet(PktType::SessionTicket, ticket.as_slice());
        assert(is_issued(key@, ticket@, old(self)@.id, old(self)@.encoder.keys));
        r
    }
}

/// `r` and `after` are what building a packet with the given payload gives.
pub open spec fn is_raw_packet(
    before: SessionState,
    pkt_type: PktType,
    payload: Seq<u8>,
    r: Result<Vec<u8>, SeamError>,
    after: SessionState,
) -> bool {
    match r {
        Ok(packet) => {
            &&& fits_packet(payload)
            &&& before.encoder.has_numbers(1)
            &&& packet@ == before.encoder.packet(pkt_type, payload)
            &&& before.encoder.reads_back(packet@, pkt_type, payload)
            &&& has_packet_length(packet@)
            &&& after == (SessionState { encoder: before.encoder.advance(1), ..before })
        },
        Err(e) => {
            &&& after == before
            &&& if fits_packet(payload) {
                !before.encoder.has_numbers(1) && e@ == ErrorView::PacketNumbersExhausted
            } else {
                e@ == payload_too_long(payload)
            }
        },
    }
}

impl Role {
    /// Parity bit of locally-initiated stream ids (client 1, server 0).
    pub fn local_parity(self) -> (parity: u32)
        ensures
            parity == self.parity(),
    {
        match self {
            Role::Client => 1,
            Role::Server => 0,
        }
    }
}

/// The complaint about a stream opened with the wrong parity.
fn complain_parity(stream_id: StreamId, role: Role) -> (text: String)
    ensures
        text@ == parity_complaint(stream_id, role),
{
    let mut text = String::new();
    text.push_str("stream ");
    push_decimal(&mut text, stream_id as u64);
    text.push_str(" parity matches local role ");
    text.push_str(
        match role {
            Role::Client => "Client",
            Role::Server => "Server",
        },
    );
    text.push_str("; remote must use opposite parity");
    assert(text@ =~= parity_complaint(stream_id, role));
    text
}

/// What the events stand for.
pub open spec fn event_views(events: Seq<SessionEvent>) -> Seq<EventView> {
    events.map_values(|e: SessionEvent| e@)
}

/// `r` and `after` are what a session `before` makes of a packet at `now`. A
/// packet that the decoder rejects changes nothing. One that carries data for
/// which there is no room now is not acknowledged, so that the data is sent
/// again. Any other is noted for acknowledgement, even if its payload then fails.
pub open spec fn is_receive(
    before: SessionState,
    buf: Seq<u8>,
    now: u64,
    r: Result<Vec<SessionEvent>, SeamError>,
    after: SessionState,
) -> bool {
    match before.decoder.decoding(buf) {
        Decoding::Rejected(reason) => {
            &&& r matches Err(e) && e@ == reason
            &&& after == before
        },
        Decoding::Packet { pkt_type, pkt_num, payload } => {
            let read = SessionState { decoder: before.decoder.after(buf), ..before };
            let arrived = SessionState { acks: after.acks, ..read };
            &&& if read.payload_overflows(pkt_type, payload) {
                after == read
            } else {
                &&& before.acks.received(pkt_num, pkt_type.elicits_ack(), after.acks)
                &&& after == arrived.on_payload(pkt_type, payload, now)
            }
            &&& match r {
                Ok(events) => {
                    &&& arrived.payload_error(pkt_type, payload) is None
                    &&& event_views(events@) == arrived.payload_events(pkt_type, payload)
                },
                Err(e) => arrived.payload_error(pkt_type, payload) == Some(e@),
            }
        },
    }
}

/// `r` and `after` are what draining the expired packets of `before` at `now` gives.
pub open spec fn is_drain(
    before: SessionState,
    now: u64,
    r: Seq<(u64, Bytes)>,
    after: SessionState,
) -> bool {
    &&& after == (SessionState { arq: before.arq.without_expired(now), ..before })
    &&& r.len() == before.arq.expired(now).len()
    &&& forall|i: int| #![trigger r[i]]
        0 <= i < r.len() ==> r[i].0 == before.arq.expired(now)[i].pkt_num && bytes_content(r[i].1)
            == before.arq.expired(now)[i].data
}

/// `r` and `after` are what a flush of `before` at `now` gives. With a budget,
/// the stream frames are the longest start of the schedule whose packets fit into
/// it, and datagrams get what those leave; control packets always go.
pub open spec fn is_flush(
    before: SessionState,
    now: u64,
    budget: Option<u64>,
    r: Result<Vec<TaggedPacket>, SeamError>,
    after: SessionState,
) -> bool {
    match r {
        Ok(packets) => {
            &&& before.encoder.has_numbers(before.flush_len())
            &&& exists|order: Seq<Slot>| #[trigger]
                is_longest(order, before.streams, before.free_slots(), budget) && {
                    let frames = scheduled(order, before.streams);
                    let n = before.datagrams_due(frames, budget);
                    &&& budget is None ==> order.len() == before.frames_due()
                    &&& carry_plan(packets@, before.plan(frames, n), before.encoder)
                    &&& after == before.flushed(order, n, now)
                    &&& frame_count(after.streams) == frame_count(before.streams) - order.len()
                }
        },
        Err(e) => {
            &&& !before.encoder.has_numbers(before.flush_len())
            &&& e@ == ErrorView::PacketNumbersExhausted
            &&& after == before
        },
    }
}

} // verus!
