//! What holds of packets in flight: when they are sent again, what lands them,
//! and what the round trip is taken to be.

use crate::buffers::bytes_content;
use crate::packet::PktType;
use crate::session::ack::{in_ranges, parsed_ack};
use crate::session::arq::{acknowledged, expired_and_rest, flying, ArqState, Sent};
use crate::session::is_drain;
use crate::session::schedule::Slot;
use crate::session::state::{ranges_acknowledged, SessionState};
use bytes::Bytes;
use vstd::prelude::*;

verus! {

/// The packet has waited longer than 200 ms and longer than two round trips.
pub open spec fn waited_too_long(packet: Sent, srtt: u64, now: u64) -> bool {
    packet.sent_at + 2 * srtt < now && packet.sent_at + 200_000 < now
}

/// Exactly the packets that have waited longer than 200 ms and longer than two
/// round trips are due again, in the order in which they were sent, whatever
/// they carry, whatever their numbers, and whether or not they were sent again
/// before. The others stay in flight as they are.
pub proof fn due_packets_waited_too_long(arq: ArqState, now: u64)
    ensures
        arq.expired(now) == arq.in_flight.filter(
            |packet: Sent| waited_too_long(packet, arq.srtt, now),
        ),
        arq.without_expired(now).in_flight == arq.in_flight.filter(
            |packet: Sent| !waited_too_long(packet, arq.srtt, now),
        ),
        arq.without_expired(now).srtt == arq.srtt,
{
    assert((|packet: Sent| arq.is_expired(packet, now)) =~= (|packet: Sent|
        waited_too_long(packet, arq.srtt, now)));
    assert((|packet: Sent| !arq.is_expired(packet, now)) =~= (|packet: Sent|
        !waited_too_long(packet, arq.srtt, now)));
}

/// The packet is among those in flight.
pub open spec fn is_in_flight(in_flight: Seq<Sent>, packet: Sent) -> bool {
    exists|j: int| 0 <= j < in_flight.len() && #[trigger] in_flight[j] == packet
}

/// A packet in flight is due again, and what is due under this place is it; or
/// it stays in flight.
proof fn due_or_kept(arq: ArqState, now: u64, i: int) -> (k: int)
    requires
        0 <= i < arq.in_flight.len(),
    ensures
        waited_too_long(arq.in_flight[i], arq.srtt, now) ==> 0 <= k < arq.expired(now).len()
            && arq.expired(now)[k] == arq.in_flight[i],
        !waited_too_long(arq.in_flight[i], arq.srtt, now) ==> 0 <= k < arq.without_expired(
            now,
        ).in_flight.len() && arq.without_expired(now).in_flight[k] == arq.in_flight[i],
{
    due_packets_waited_too_long(arq, now);
    let due = |packet: Sent| waited_too_long(packet, arq.srtt, now);
    let kept = |packet: Sent| !waited_too_long(packet, arq.srtt, now);
    if waited_too_long(arq.in_flight[i], arq.srtt, now) {
        arq.in_flight.lemma_filter_contains(due, i);
        assert(arq.in_flight.filter(due).contains(arq.in_flight[i]));
        arq.expired(now).index_of(arq.in_flight[i])
    } else {
        arq.in_flight.lemma_filter_contains(kept, i);
        assert(arq.in_flight.filter(kept).contains(arq.in_flight[i]));
        arq.without_expired(now).in_flight.index_of(arq.in_flight[i])
    }
}

/// Data in flight that has waited too long is given out again: its packet is one
/// of those that are due, and from then on the data is in flight under the number
/// of the packet that carries it again, sent now. A packet that has not waited
/// too long stays as it is.
pub proof fn timed_out_data_is_sent_again(s: SessionState, now: u64, i: int)
    requires
        0 <= i < s.arq.in_flight.len(),
        s.encoder.next + s.arq.expired(now).len() <= u64::MAX,
    ensures
        ({
            let packet = s.arq.in_flight[i];
            let due = s.arq.expired(now);
            if packet.sent_at + 2 * s.arq.srtt < now && packet.sent_at + 200_000 < now {
                exists|k: int|
                    0 <= k < due.len() && (#[trigger] due[k]) == packet && is_in_flight(
                        s.resent(now).arq.in_flight,
                        Sent {
                            pkt_num: (s.encoder.next + k) as u64,
                            data: packet.data,
                            sent_at: now,
                            resent: true,
                        },
                    )
            } else {
                is_in_flight(s.resent(now).arq.in_flight, packet)
            }
        }),
        s.resent(now).arq.srtt == s.arq.srtt,
        s.resent(now).encoder.next == s.encoder.next + s.arq.expired(now).len(),
        s.resent(now).streams == s.streams,
{
    let packet = s.arq.in_flight[i];
    let due = s.arq.expired(now);
    let rest = s.arq.without_expired(now).in_flight;
    let after = s.resent(now).arq.in_flight;
    let k = due_or_kept(s.arq, now, i);
    if waited_too_long(packet, s.arq.srtt, now) {
        assert(due[k] == packet);
        assert(after[rest.len() + k] == (Sent {
            pkt_num: (s.encoder.next + k) as u64,
            data: packet.data,
            sent_at: now,
            resent: true,
        }));
    } else {
        assert(after[k] == rest[k]);
    }
}

/// Data in flight is given out again after every timeout: what was sent again at
/// `now` is due again once it has waited too long from then on.
pub proof fn sent_again_comes_round_again(s: SessionState, now: u64, later: u64, i: int)
    requires
        0 <= i < s.arq.in_flight.len(),
        s.encoder.next + s.arq.expired(now).len() <= u64::MAX,
        s.arq.in_flight[i].sent_at + 2 * s.arq.srtt < now,
        s.arq.in_flight[i].sent_at + 200_000 < now,
        now + 2 * s.arq.srtt < later,
        now + 200_000 < later,
    ensures
        exists|k: int|
            0 <= k < s.resent(now).arq.expired(later).len() && (
            #[trigger] s.resent(now).arq.expired(later)[k]).data == s.arq.in_flight[i].data
                && s.resent(now).arq.expired(later)[k].sent_at == now,
{
    timed_out_data_is_sent_again(s, now, i);
    let packet = s.arq.in_flight[i];
    let due = s.arq.expired(now);
    let after = s.resent(now).arq;
    let k = choose|k: int|
        0 <= k < due.len() && (#[trigger] due[k]) == packet && is_in_flight(
            after.in_flight,
            Sent {
                pkt_num: (s.encoder.next + k) as u64,
                data: packet.data,
                sent_at: now,
                resent: true,
            },
        );
    let again = Sent {
        pkt_num: (s.encoder.next + k) as u64,
        data: packet.data,
        sent_at: now,
        resent: true,
    };
    let j = choose|j: int| 0 <= j < after.in_flight.len() && #[trigger] after.in_flight[j] == again;
    let m = due_or_kept(after, later, j);
    assert(after.expired(later)[m].data == packet.data);
}

/// The packets that are taken out to be sent again are those that have waited
/// too long, under their old numbers and with their data; nothing else changes.
pub proof fn drained_packets_waited_too_long(
    before: SessionState,
    now: u64,
    r: Seq<(u64, Bytes)>,
    after: SessionState,
    i: int,
)
    requires
        is_drain(before, now, r, after),
        0 <= i < before.arq.in_flight.len(),
    ensures
        ({
            let packet = before.arq.in_flight[i];
            if packet.sent_at + 2 * before.arq.srtt < now && packet.sent_at + 200_000 < now {
                exists|k: int|
                    0 <= k < r.len() && (#[trigger] r[k]).0 == packet.pkt_num && bytes_content(
                        r[k].1,
                    ) == packet.data
            } else {
                is_in_flight(after.arq.in_flight, packet)
            }
        }),
        r.len() + after.arq.in_flight.len() == before.arq.in_flight.len(),
        after == (SessionState { arq: after.arq, ..before }),
{
    let k = due_or_kept(before.arq, now, i);
    expired_and_rest(before.arq, now);
    if waited_too_long(before.arq.in_flight[i], before.arq.srtt, now) {
        assert(r[k].0 == before.arq.in_flight[i].pkt_num);
    }
}

// ── Acknowledgements ─────────────────────────────────────────────────────────
/// An acknowledgement of packets in flight counts packet after packet, in the
/// order in which they were sent. One with a number in the range lands: its bytes
/// count, and if it was sent once, and a while ago, the time since then is the
/// new sample, which makes up one eighth of the round-trip time, or all of it if
/// there was none. A packet sent again measures nothing. One with another number
/// stays as it is.
pub proof fn each_packet_lands_or_stays(
    in_flight: Seq<Sent>,
    packet: Sent,
    srtt: u64,
    start: u64,
    end: u64,
    now: u64,
)
    ensures
        ({
            let before = acknowledged(in_flight, srtt, start, end, now);
            let after = acknowledged(in_flight.push(packet), srtt, start, end, now);
            let lands = start <= packet.pkt_num && packet.pkt_num <= end;
            let measures = lands && !packet.resent && packet.sent_at < now;
            &&& !lands ==> after.kept == before.kept.push(packet) && after.bytes_acked
                == before.bytes_acked
            &&& lands ==> after.kept == before.kept && after.bytes_acked == before.bytes_acked
                + packet.data.len()
            &&& !measures ==> after.rtt == before.rtt && after.srtt == before.srtt
            &&& measures ==> after.rtt == Some((now - packet.sent_at) as u64)
            &&& measures && before.srtt == 0 ==> after.srtt == now - packet.sent_at
            &&& measures && before.srtt > 0 ==> after.srtt == before.srtt - before.srtt / 8 + (now
                - packet.sent_at) / 8
        }),
        acknowledged(Seq::empty(), srtt, start, end, now).kept.len() == 0,
        acknowledged(Seq::empty(), srtt, start, end, now).bytes_acked == 0,
        acknowledged(Seq::empty(), srtt, start, end, now).rtt is None,
        acknowledged(Seq::empty(), srtt, start, end, now).srtt == srtt,
{
    assert(in_flight.push(packet).drop_last() =~= in_flight);
}

/// An acknowledgement frame counts range after range.
pub proof fn each_range_counts(
    arq: ArqState,
    ranges: Seq<(u64, u64)>,
    range: (u64, u64),
    now: u64,
)
    ensures
        ({
            let before = ranges_acknowledged(arq, ranges, now);
            let after = ranges_acknowledged(arq, ranges.push(range), now);
            let acked = acknowledged(
                before.arq.in_flight,
                before.arq.srtt,
                range.0,
                range.1,
                now,
            );
            &&& after.arq.in_flight == acked.kept
            &&& after.arq.srtt == acked.srtt
            &&& after.bytes_acked == before.bytes_acked + acked.bytes_acked
            &&& acked.rtt is Some ==> after.rtt == acked.rtt
            &&& acked.rtt is None ==> after.rtt == before.rtt
        }),
        ranges_acknowledged(arq, Seq::empty(), now).arq == arq,
        ranges_acknowledged(arq, Seq::empty(), now).bytes_acked == 0,
        ranges_acknowledged(arq, Seq::empty(), now).rtt is None,
{
    assert(ranges.push(range).drop_last() =~= ranges);
}

proof fn acknowledged_keeps_packet(
    in_flight: Seq<Sent>,
    srtt: u64,
    start: u64,
    end: u64,
    now: u64,
    packet: Sent,
)
    requires
        is_in_flight(in_flight, packet),
        !(start <= packet.pkt_num <= end),
    ensures
        is_in_flight(acknowledged(in_flight, srtt, start, end, now).kept, packet),
    decreases in_flight.len(),
{
    let i = choose|i: int| 0 <= i < in_flight.len() && #[trigger] in_flight[i] == packet;
    let front = in_flight.drop_last();
    let kept = acknowledged(in_flight, srtt, start, end, now).kept;
    let before = acknowledged(front, srtt, start, end, now).kept;
    if i < front.len() {
        assert(front[i] == packet);
        acknowledged_keeps_packet(front, srtt, start, end, now, packet);
        let j = choose|j: int| 0 <= j < before.len() && #[trigger] before[j] == packet;
        assert(kept[j] == packet);
    } else {
        assert(kept[before.len() as int] == packet);
    }
}

proof fn ranges_keep_packet(arq: ArqState, ranges: Seq<(u64, u64)>, now: u64, packet: Sent)
    requires
        is_in_flight(arq.in_flight, packet),
        forall|i: int|
            0 <= i < ranges.len() ==> !((#[trigger] ranges[i]).0 <= packet.pkt_num
                && packet.pkt_num <= ranges[i].1),
    ensures
        is_in_flight(ranges_acknowledged(arq, ranges, now).arq.in_flight, packet),
    decreases ranges.len(),
{
    if ranges.len() > 0 {
        let front = ranges.drop_last();
        assert forall|i: int| 0 <= i < front.len() implies !((#[trigger] front[i]).0
            <= packet.pkt_num && packet.pkt_num <= front[i].1) by {
            assert(front[i] == ranges[i]);
        }
        ranges_keep_packet(arq, front, now, packet);
        let before = ranges_acknowledged(arq, front, now);
        assert(ranges[ranges.len() - 1] == ranges.last());
        acknowledged_keeps_packet(
            before.arq.in_flight,
            before.arq.srtt,
            ranges.last().0,
            ranges.last().1,
            now,
            packet,
        );
    }
}

/// Until an acknowledgement lists its number, a packet stays in flight as it is,
/// whatever else arrives and whatever is flushed: it is given out again only by
/// its timeout, which keeps its data in flight.
pub proof fn unacknowledged_packet_stays(
    s: SessionState,
    packet: Sent,
    pkt_type: PktType,
    payload: Seq<u8>,
    now: u64,
    order: Seq<Slot>,
    n: nat,
)
    requires
        is_in_flight(s.arq.in_flight, packet),
        pkt_type == PktType::Ack && parsed_ack(payload) is Some ==> !in_ranges(
            parsed_ack(payload)->0.ranges,
            packet.pkt_num,
        ),
    ensures
        is_in_flight(s.on_payload(pkt_type, payload, now).arq.in_flight, packet),
        is_in_flight(s.flushed(order, n, now).arq.in_flight, packet),
        pkt_type != PktType::Ack ==> s.on_payload(pkt_type, payload, now).arq == s.arq,
{
    let i = choose|i: int| 0 <= i < s.arq.in_flight.len() && #[trigger] s.arq.in_flight[i]
        == packet;
    assert(s.flushed(order, n, now).arq.in_flight[i] == packet);
    if pkt_type == PktType::Ack {
        if let Some(fields) = parsed_ack(payload) {
            assert forall|i: int| 0 <= i < fields.ranges.len() implies !((
            #[trigger] fields.ranges[i]).0 <= packet.pkt_num && packet.pkt_num
                <= fields.ranges[i].1) by {
                if fields.ranges[i].0 <= packet.pkt_num && packet.pkt_num <= fields.ranges[i].1 {
                    assert(in_ranges(fields.ranges, packet.pkt_num));
                }
            }
            ranges_keep_packet(s.arq, fields.ranges, now, packet);
        }
    }
}

/// What can happen to a session, short of an acknowledgement.
pub enum Quiet {
    /// What had waited too long was sent again.
    Resend(u64),
    /// A flush with this schedule, of so many datagrams.
    Flush(Seq<Slot>, nat, u64),
    /// A payload that is no acknowledgement arrived.
    Payload(PktType, Seq<u8>, u64),
}

impl Quiet {
    /// When it happened.
    pub open spec fn at(self) -> u64 {
        match self {
            Quiet::Resend(now) => now,
            Quiet::Flush(_, _, now) => now,
            Quiet::Payload(_, _, now) => now,
        }
    }
}

/// The session after all this.
pub open spec fn after_quiet(s: SessionState, run: Seq<Quiet>) -> SessionState
    decreases run.len(),
{
    if run.len() == 0 {
        s
    } else {
        let before = after_quiet(s, run.drop_last());
        match run.last() {
            Quiet::Resend(now) => before.resent(now),
            Quiet::Flush(order, n, now) => before.flushed(order, n, now),
            Quiet::Payload(pkt_type, payload, now) => before.on_payload(pkt_type, payload, now),
        }
    }
}

/// The data is in flight, and was last sent no later than `last`.
pub open spec fn flies_since(in_flight: Seq<Sent>, data: Seq<u8>, last: u64) -> bool {
    exists|j: int|
        0 <= j < in_flight.len() && (#[trigger] in_flight[j]).data == data && in_flight[j].sent_at
            <= last
}

proof fn quiet_keeps_data(s: SessionState, run: Seq<Quiet>, data: Seq<u8>, last: u64)
    requires
        flies_since(s.arq.in_flight, data, last),
        forall|k: int|
            0 <= k < run.len() ==> (#[trigger] run[k]).at() <= last && (run[k] matches
                Quiet::Payload(pkt_type, _, _) ==> pkt_type != PktType::Ack),
    ensures
        flies_since(after_quiet(s, run).arq.in_flight, data, last),
        after_quiet(s, run).arq.srtt == s.arq.srtt,
    decreases run.len(),
{
    if run.len() > 0 {
        let front = run.drop_last();
        assert forall|k: int| 0 <= k < front.len() implies (#[trigger] front[k]).at() <= last && (
        front[k] matches Quiet::Payload(pkt_type, _, _) ==> pkt_type != PktType::Ack) by {
            assert(front[k] == run[k]);
        }
        quiet_keeps_data(s, front, data, last);
        let before = after_quiet(s, front);
        let after = after_quiet(s, run);
        let j = choose|j: int|
            0 <= j < before.arq.in_flight.len() && (#[trigger] before.arq.in_flight[j]).data == data
                && before.arq.in_flight[j].sent_at <= last;
        let step = run[run.len() - 1];
        assert(step.at() <= last);
        match step {
            Quiet::Resend(now) => {
                let k = due_or_kept(before.arq, now, j);
                let rest = before.arq.without_expired(now).in_flight;
                if waited_too_long(before.arq.in_flight[j], before.arq.srtt, now) {
                    assert(after.arq.in_flight[rest.len() + k].data == data);
                } else {
                    assert(after.arq.in_flight[k] == rest[k]);
                }
            },
            Quiet::Flush(order, n, now) => {
                assert(after.arq.in_flight[j] == before.arq.in_flight[j]);
            },
            Quiet::Payload(_, _, _) => {
                assert(after.arq == before.arq);
            },
        }
    }
}

/// As long as no acknowledgement arrives, data in flight is given out again after
/// every timeout, however often it was before, and whatever else happens: if all
/// that happened lies more than 200 ms and more than two round trips back, it is
/// due.
pub proof fn data_is_sent_until_acknowledged(
    s: SessionState,
    run: Seq<Quiet>,
    i: int,
    last: u64,
    later: u64,
)
    requires
        0 <= i < s.arq.in_flight.len(),
        s.arq.in_flight[i].sent_at <= last,
        forall|k: int|
            0 <= k < run.len() ==> (#[trigger] run[k]).at() <= last && (run[k] matches
                Quiet::Payload(pkt_type, _, _) ==> pkt_type != PktType::Ack),
        last + 2 * s.arq.srtt < later,
        last + 200_000 < later,
    ensures
        exists|k: int|
            0 <= k < after_quiet(s, run).arq.expired(later).len() && (#[trigger] after_quiet(
                s,
                run,
            ).arq.expired(later)[k]).data == s.arq.in_flight[i].data,
{
    let data = s.arq.in_flight[i].data;
    assert(flies_since(s.arq.in_flight, data, last));
    quiet_keeps_data(s, run, data, last);
    let after = after_quiet(s, run).arq;
    let j = choose|j: int|
        0 <= j < after.in_flight.len() && (#[trigger] after.in_flight[j]).data == data
            && after.in_flight[j].sent_at <= last;
    let k = due_or_kept(after, later, j);
    assert(after.expired(later)[k].data == data);
}

/// Congestion control hears of every byte that lands, once: what was heard of
/// before and what lands now add up, and the shortest round trip counts. Without
/// a sample, 100 ms are assumed. An acknowledgement under which nothing lands
/// changes nothing there.
pub proof fn landed_bytes_are_reported(s: SessionState, frame: Seq<u8>, now: u64)
    requires
        parsed_ack(frame) is Some,
    ensures
        ({
            let acked = ranges_acknowledged(s.arq, parsed_ack(frame)->0.ranges, now);
            let after = s.on_ack_frame(frame, now);
            let rtt = match acked.rtt {
                Some(rtt) => rtt,
                None => 100_000,
            };
            &&& after.arq == acked.arq
            &&& acked.bytes_acked == 0 ==> after.pending_cc_ack == s.pending_cc_ack
            &&& acked.bytes_acked > 0 ==> after.pending_cc_ack is Some
            &&& 0 < acked.bytes_acked <= u64::MAX && s.pending_cc_ack is None
                ==> after.pending_cc_ack == Some((acked.bytes_acked as u64, rtt))
            &&& acked.bytes_acked > 0 ==> (s.pending_cc_ack matches Some((heard, least)) ==> {
                &&& heard + acked.bytes_acked <= u64::MAX ==> (after.pending_cc_ack->0).0 == heard
                    + acked.bytes_acked
                &&& (after.pending_cc_ack->0).1 <= rtt
                &&& (after.pending_cc_ack->0).1 <= least
                &&& (after.pending_cc_ack->0).1 == rtt || (after.pending_cc_ack->0).1 == least
            })
            &&& after == (SessionState {
                arq: after.arq,
                pending_cc_ack: after.pending_cc_ack,
                ..s
            })
        }),
{
}

/// A frame that is no acknowledgement changes nothing.
pub proof fn malformed_acknowledgement_is_ignored(s: SessionState, frame: Seq<u8>, now: u64)
    requires
        parsed_ack(frame) is None,
    ensures
        s.on_ack_frame(frame, now) == s,
{
}

/// Each packet in flight counts with the 33 bytes around its data.
pub proof fn each_packet_weighs(in_flight: Seq<Sent>, packet: Sent)
    ensures
        flying(in_flight.push(packet)) == flying(in_flight) + packet.data.len() + 33,
        flying(Seq::empty()) == 0,
{
    assert(in_flight.push(packet).drop_last() =~= in_flight);
}

/// A new tracker has nothing in flight and knows no round-trip time; a packet
/// that is sent joins those in flight at the end.
pub proof fn sent_packet_is_in_flight(arq: ArqState, packet: Sent)
    ensures
        ArqState::new().in_flight.len() == 0,
        ArqState::new().srtt == 0,
        arq.sent(packet).in_flight == arq.in_flight.push(packet),
        arq.sent(packet).srtt == arq.srtt,
{
}

} // verus!
