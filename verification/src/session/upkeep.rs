//! What holds of what a session sends besides stream data, and of the books that
//! it keeps.

use crate::crypto::decoder::DecoderState;
use crate::crypto::encoder::EncoderState;
use crate::packet::PktType;
use crate::session::arq::Sent;
use crate::session::datagram::{enqueued, how_many_fit, no_more_fit, DatagramState};
use crate::session::flow::Credit;
use crate::session::laws::flush_order;
use crate::session::schedule::{load, scheduled};
use crate::session::state::{datagrams_planned, frames_planned, frames_sent, SessionState};
use crate::session::{default_limits, is_flush, Role, SessionLimits, TaggedPacket};
use crate::wire::be_bytes;
use vstd::prelude::*;

verus! {

// ── Beginnings ───────────────────────────────────────────────────────────────
/// A new session has no streams, sends and expects nothing, and may send and
/// receive 16 MiB. A client opens its streams from 1 on, a server from 2 on. Its
/// datagrams are no longer and no more than its limits say.
pub proof fn new_session_is_empty(
    id: u64,
    role: Role,
    encoder: EncoderState,
    decoder: DecoderState,
    limits: SessionLimits,
)
    ensures
        ({
            let s = SessionState::new(id, role, encoder, decoder, limits);
            &&& s.id == id
            &&& s.role == role
            &&& s.encoder == encoder
            &&& s.decoder == decoder
            &&& s.limits == limits
            &&& s.streams.len() == 0
            &&& role == Role::Client ==> s.next_stream_id == 1
            &&& role == Role::Server ==> s.next_stream_id == 2
            &&& s.send_window.limit == 0x100_0000 && s.send_window.consumed == 0
            &&& s.recv_window.limit == 0x100_0000 && s.recv_window.consumed == 0
            &&& s.recv_consumed == 0
            &&& s.pending_max_data is None
            &&& !s.pending_pong
            &&& !s.pending_ping
            &&& !s.acks.pending
            &&& s.acks.ranges.len() == 0
            &&& s.arq.in_flight.len() == 0
            &&& s.arq.srtt == 0
            &&& s.datagrams.outgoing.len() == 0
            &&& s.datagrams.incoming.len() == 0
            &&& s.datagrams.dropped == 0
            &&& s.datagrams.max_queue == limits.max_datagram_queue
            &&& limits.max_datagram_size <= 0x7FFF_FFDE ==> s.datagrams.max_size
                == limits.max_datagram_size
            &&& limits.max_datagram_size > 0x7FFF_FFDE ==> s.datagrams.max_size == 0x7FFF_FFDE
            &&& s.pending_cc_ack is None
        }),
        default_limits().max_streams == 1024,
        default_limits().max_datagram_size == 1200,
        default_limits().max_datagram_queue == 64,
        default_limits().max_in_flight_packets == 10_000,
        default_limits().max_recv_buffer_per_stream == 4_194_304,
{
}

// ── Credit ───────────────────────────────────────────────────────────────────
/// What was reserved and what is left make up the limit. Bytes that fit are
/// reserved to the last one, others not at all; an announced limit counts if it is
/// higher, and takes nothing of what was reserved back.
pub proof fn credit_adds_up(c: Credit, n: u64)
    requires
        c.wf(),
    ensures
        c.consumed + c.available() == c.limit,
        c.has_room(n as nat) <==> n <= c.available(),
        n <= c.available() ==> c.reserve(n).consumed == c.consumed + n && c.reserve(n).available()
            == c.available() - n,
        n > c.available() ==> c.reserve(n) == c,
        c.reserve(n).limit == c.limit,
        c.raise(n).consumed == c.consumed,
        n > c.limit ==> c.raise(n).limit == n,
        n <= c.limit ==> c.raise(n).limit == c.limit,
{
}

// ── Control packets ──────────────────────────────────────────────────────────
/// One of the control packets due has this type and payload.
pub open spec fn is_due(s: SessionState, t: PktType, payload: Seq<u8>) -> bool {
    exists|k: int|
        0 <= k < s.control_packets().len() && (#[trigger] s.control_packets()[k]).pkt_type == t
            && s.control_packets()[k].payload == payload
}

/// One of the control packets due has this type.
pub open spec fn has_due(s: SessionState, t: PktType) -> bool {
    exists|k: int|
        0 <= k < s.control_packets().len() && (#[trigger] s.control_packets()[k]).pkt_type == t
}

/// Exactly what is owed is due: an acknowledgement of what was received, the
/// window that was promised, a pong, a ping; each once, all as control packets.
pub proof fn control_packets_are_what_is_owed(s: SessionState)
    ensures
        s.acks.pending ==> is_due(s, PktType::Ack, s.acks.frame()),
        s.pending_max_data matches Some(limit) ==> is_due(
            s,
            PktType::MaxData,
            be_bytes(limit as nat, 8),
        ),
        s.pending_pong ==> is_due(s, PktType::Pong, Seq::empty()),
        s.pending_ping ==> is_due(s, PktType::Ping, Seq::empty()),
        has_due(s, PktType::Ack) ==> s.acks.pending,
        has_due(s, PktType::MaxData) ==> s.pending_max_data is Some,
        has_due(s, PktType::Pong) ==> s.pending_pong,
        has_due(s, PktType::Ping) ==> s.pending_ping,
        s.control_packets().len() == (if s.acks.pending {
            1int
        } else {
            0
        }) + (if s.pending_max_data is Some {
            1int
        } else {
            0
        }) + (if s.pending_pong {
            1int
        } else {
            0
        }) + (if s.pending_ping {
            1int
        } else {
            0
        }),
        forall|k: int|
            0 <= k < s.control_packets().len() ==> (#[trigger] s.control_packets()[k]).is_control,
{
    let all = s.control_packets();
    let a = if s.acks.pending {
        1int
    } else {
        0
    };
    let b = a + if s.pending_max_data is Some {
        1int
    } else {
        0
    };
    let c = b + if s.pending_pong {
        1int
    } else {
        0
    };
    if s.acks.pending {
        assert(all[0].pkt_type == PktType::Ack);
    }
    if s.pending_max_data is Some {
        assert(all[a].pkt_type == PktType::MaxData);
    }
    if s.pending_pong {
        assert(all[b].pkt_type == PktType::Pong);
    }
    if s.pending_ping {
        assert(all[c].pkt_type == PktType::Ping);
    }
}

/// A flush sends every control packet that is due, behind everything else, and
/// leaves nothing owed: the window that it announces is granted from then on, and
/// no acknowledgement, pong or ping is due. Every stream frame that it sends is
/// then in flight under the number of its packet, sent now and for the first
/// time; the numbers of all its packets are used up. What was in flight stays.
/// What is there to read, and what has arrived, does not change.
pub proof fn flush_pays_what_is_owed(
    before: SessionState,
    now: u64,
    budget: Option<u64>,
    packets: Vec<TaggedPacket>,
    after: SessionState,
) -> (frames: Seq<Seq<u8>>)
    requires
        is_flush(before, now, budget, Ok(packets), after),
    ensures
        forall|k: int| #![trigger before.control_packets()[k]]
            0 <= k < before.control_packets().len() ==> {
                let i = packets@.len() - before.control_packets().len() + k;
                &&& frames.len() <= i
                &&& packets@[i].is_control
                &&& before.encoder.advance(i as nat).reads_back(
                    packets@[i].bytes@,
                    before.control_packets()[k].pkt_type,
                    before.control_packets()[k].payload,
                )
            },
        !after.acks.pending,
        after.acks.ranges == before.acks.ranges,
        !after.pending_pong,
        !after.pending_ping,
        after.pending_max_data is None,
        before.pending_max_data is None ==> after.recv_window == before.recv_window,
        before.pending_max_data matches Some(limit) ==> after.recv_window.limit >= limit
            && after.recv_window.limit >= before.recv_window.limit && (after.recv_window.limit
            == limit || after.recv_window.limit == before.recv_window.limit),
        after.recv_consumed == before.recv_consumed,
        after.send_window == before.send_window,
        after.decoder == before.decoder,
        after.datagrams.incoming == before.datagrams.incoming,
        after.datagrams.dropped == before.datagrams.dropped,
        after.limits == before.limits,
        after.next_stream_id == before.next_stream_id,
        after.pending_cc_ack == before.pending_cc_ack,
        after.arq.srtt == before.arq.srtt,
        after.encoder.keys == before.encoder.keys,
        before.encoder.next + packets@.len() <= u64::MAX ==> after.encoder.next
            == before.encoder.next + packets@.len(),
        frames.len() <= packets@.len(),
        after.arq.in_flight.len() == before.arq.in_flight.len() + frames.len(),
        forall|i: int|
            0 <= i < before.arq.in_flight.len() ==> after.arq.in_flight[i]
                == #[trigger] before.arq.in_flight[i],
        forall|k: int| #![trigger frames[k]]
            0 <= k < frames.len() ==> before.encoder.advance(k as nat).reads_back(
                packets@[k].bytes@,
                PktType::Data,
                frames[k],
            ) && after.arq.in_flight[before.arq.in_flight.len() + k] == (Sent {
                pkt_num: (before.encoder.next + k) as u64,
                data: frames[k],
                sent_at: now,
                resent: false,
            }),
        forall|j: int|
            0 <= j < before.streams.len() ==> (#[trigger] after.streams[j]).recv
                == before.streams[j].recv && after.streams[j].id == before.streams[j].id
                && after.streams[j].priority == before.streams[j].priority,
{
    let order = flush_order(before, now, budget, packets, after);
    let frames = scheduled(order, before.streams);
    let n = before.datagrams_due(frames, budget);
    let plan = before.plan(frames, n);
    let control = before.control_packets();
    assert forall|k: int| #![trigger before.control_packets()[k]]
        0 <= k < before.control_packets().len() implies {
        let i = packets@.len() - before.control_packets().len() + k;
        &&& frames.len() <= i
        &&& packets@[i].is_control
        &&& before.encoder.advance(i as nat).reads_back(
            packets@[i].bytes@,
            before.control_packets()[k].pkt_type,
            before.control_packets()[k].payload,
        )
    } by {
        let i = packets@.len() - control.len() + k;
        assert(plan[i] == control[k]);
        control_packets_are_what_is_owed(before);
        assert(control[k].is_control);
    }
    assert forall|k: int| #![trigger frames[k]] 0 <= k < frames.len() implies before.encoder.advance(
        k as nat,
    ).reads_back(packets@[k].bytes@, PktType::Data, frames[k]) && after.arq.in_flight[
        before.arq.in_flight.len() + k
    ] == (Sent {
        pkt_num: (before.encoder.next + k) as u64,
        data: frames[k],
        sent_at: now,
        resent: false,
    }) by {
        assert(plan[k] == frames_planned(frames)[k]);
        assert(packets@[k].bytes@ == packets@[k].bytes@);
        assert(after.arq.in_flight[before.arq.in_flight.len() + k] == frames_sent(
            frames,
            before.encoder.next,
            now,
        )[k]);
    }
    frames
}

// ── Datagrams ────────────────────────────────────────────────────────────────
/// A datagram goes to the end of its queue. If the queue is full, its oldest
/// datagram is given up, and counted; no other is, and the order stays.
pub proof fn newest_datagrams_are_kept(queue: Seq<Seq<u8>>, max: usize, data: Seq<u8>)
    requires
        queue.len() <= max,
        max > 0,
    ensures
        enqueued(queue, max, data).last() == data,
        queue.len() < max ==> enqueued(queue, max, data) == queue.push(data),
        queue.len() == max ==> enqueued(queue, max, data) == queue.skip(1).push(data),
{
    assert(queue.len() == max ==> enqueued(queue, max, data) =~= queue.skip(1).push(data));
}

/// A datagram is sent unless it is too long, and received in any case; only its
/// own queue changes. The count of those given up goes up by one if the queue was
/// full, and not otherwise.
pub proof fn datagrams_are_queued(d: DatagramState, data: Seq<u8>)
    requires
        d.wf(),
        d.max_queue > 0,
        d.dropped < u64::MAX,
    ensures
        data.len() > d.max_size ==> d.send(data) == d,
        data.len() <= d.max_size ==> {
            &&& d.send(data).outgoing.last() == data
            &&& d.outgoing.len() < d.max_queue ==> d.send(data).outgoing == d.outgoing.push(data)
                && d.send(data).dropped == d.dropped
            &&& d.outgoing.len() == d.max_queue ==> d.send(data).outgoing == d.outgoing.skip(
                1,
            ).push(data) && d.send(data).dropped == d.dropped + 1
        },
        d.send(data).incoming == d.incoming,
        d.send(data).max_size == d.max_size,
        d.send(data).max_queue == d.max_queue,
        d.receive(data).incoming.last() == data,
        d.incoming.len() < d.max_queue ==> d.receive(data).incoming == d.incoming.push(data)
            && d.receive(data).dropped == d.dropped,
        d.incoming.len() == d.max_queue ==> d.receive(data).incoming == d.incoming.skip(1).push(
            data,
        ) && d.receive(data).dropped == d.dropped + 1,
        d.receive(data).outgoing == d.outgoing,
        d.receive(data).max_size == d.max_size,
        d.receive(data).max_queue == d.max_queue,
{
    newest_datagrams_are_kept(d.outgoing, d.max_queue, data);
    newest_datagrams_are_kept(d.incoming, d.max_queue, data);
}

/// Datagrams leave from the front of the queue, as long as each, with the 33
/// bytes around it, fits into what is left of the budget; without a budget all do.
pub proof fn datagrams_leave_in_order(queue: Seq<Seq<u8>>, budget: u64)
    ensures
        how_many_fit(queue, None) == queue.len(),
        queue.len() == 0 ==> how_many_fit(queue, Some(budget)) == 0,
        queue.len() > 0 && queue[0].len() + 33 > budget ==> how_many_fit(queue, Some(budget)) == 0,
        queue.len() > 0 && queue[0].len() + 33 <= budget ==> how_many_fit(queue, Some(budget)) == 1
            + how_many_fit(queue.skip(1), Some((budget - queue[0].len() - 33) as u64)),
{
}

/// The datagrams that a flush sends are the first of the queue, in its order,
/// behind the stream frames; the others wait. Without a budget all go.
pub proof fn flushed_datagrams(
    before: SessionState,
    now: u64,
    budget: Option<u64>,
    packets: Vec<TaggedPacket>,
    after: SessionState,
) -> (first: nat)
    requires
        before.wf(),
        is_flush(before, now, budget, Ok(packets), after),
    ensures
        ({
            let n = before.datagrams.outgoing.len() - after.datagrams.outgoing.len();
            &&& 0 <= n
            &&& budget is None ==> n == before.datagrams.outgoing.len()
            &&& after.datagrams.outgoing == before.datagrams.outgoing.skip(n)
            &&& first + n + before.control_packets().len() == packets@.len()
            &&& forall|k: int| #![trigger before.datagrams.outgoing[k]]
                0 <= k < n ==> before.encoder.advance((first + k) as nat).reads_back(
                    packets@[first + k].bytes@,
                    PktType::Datagram,
                    before.datagrams.outgoing[k],
                ) && !packets@[first + k].is_control
        }),
{
    let order = flush_order(before, now, budget, packets, after);
    let frames = scheduled(order, before.streams);
    let n = before.datagrams_due(frames, budget);
    let plan = before.plan(frames, n);
    let queue = before.datagrams.outgoing;
    no_more_fit(
        queue,
        match budget {
            Some(most) => Some((most - load(frames)) as u64),
            None => None,
        },
    );
    let first = frames.len();
    assert forall|k: int| #![trigger before.datagrams.outgoing[k]] 0 <= k
        < n implies before.encoder.advance((first + k) as nat).reads_back(
        packets@[first + k].bytes@,
        PktType::Datagram,
        before.datagrams.outgoing[k],
    ) && !packets@[first + k].is_control by {
        assert(plan[first + k] == datagrams_planned(queue.take(n as int))[k]);
    }
    first
}

// ── Packet types ─────────────────────────────────────────────────────────────
/// Stream data, pings, tickets, a close and datagrams call for an
/// acknowledgement; nothing that answers or merely fills does.
pub proof fn what_calls_for_acknowledgement()
    ensures
        PktType::Data.elicits_ack(),
        PktType::Ping.elicits_ack(),
        PktType::SessionTicket.elicits_ack(),
        PktType::Close.elicits_ack(),
        PktType::Datagram.elicits_ack(),
        !PktType::Ack.elicits_ack(),
        !PktType::MaxData.elicits_ack(),
        !PktType::Pong.elicits_ack(),
        !PktType::Chaff.elicits_ack(),
        !PktType::PathProbe.elicits_ack(),
{
}

} // verus!
