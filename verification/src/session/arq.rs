//! Packets in flight: what to send again, and how long the round trip takes.

use crate::buffers::bytes_content;
use crate::crypto::format::PACKET_OVERHEAD;
use crate::session::schedule::cost;
use crate::session::stream::{clamp_u64, saturating_distance};
use bytes::Bytes;
use std::collections::VecDeque;
use vstd::prelude::*;

verus! {

/// Shortest retransmission timeout, in microseconds.
pub const MIN_RTO_US: u64 = 200_000;

/// A packet in flight.
struct InFlight {
    pkt_num: u64,
    data: Bytes,
    sent_at: u64,
    resent: bool,
}

/// Tracks the packets in flight, in the order in which they were sent.
/// Times are in microseconds.
pub struct ArqTracker {
    in_flight: VecDeque<InFlight>,
    /// Smoothed round-trip time; 0 before the first sample.
    srtt: u64,
}

/// A packet in flight.
#[verifier::ext_equal]
pub struct Sent {
    pub pkt_num: u64,
    pub data: Seq<u8>,
    pub sent_at: u64,
    /// The data was sent before under another number.
    pub resent: bool,
}

/// What an [`ArqTracker`] stands for.
#[verifier::ext_equal]
pub struct ArqState {
    pub in_flight: Seq<Sent>,
    pub srtt: u64,
}

/// What an acknowledgement brings.
#[verifier::ext_equal]
pub struct Acked {
    /// What stays in flight, in the same order.
    pub kept: Seq<Sent>,
    /// Bytes acknowledged.
    pub bytes_acked: nat,
    /// The last round-trip sample, if there was one.
    pub rtt: Option<u64>,
    pub srtt: u64,
}

/// The round-trip time that an acknowledgement at `now` measures. A packet
/// sent again measures nothing: it is unknown which copy arrived.
pub open spec fn rtt_sample(sent: Sent, now: u64) -> u64 {
    if sent.resent {
        0
    } else {
        saturating_distance(sent.sent_at as int, now as int)
    }
}

/// One eighth of the new sample, seven eighths of the old value.
pub open spec fn smoothed(srtt: u64, sample: u64) -> u64 {
    if srtt == 0 {
        sample
    } else {
        (srtt - srtt / 8 + sample / 8) as u64
    }
}

/// Acknowledge the packets numbered `start` to `end`, in the order in which
/// they were sent.
pub open spec fn acknowledged(
    in_flight: Seq<Sent>,
    srtt: u64,
    start: u64,
    end: u64,
    now: u64,
) -> Acked
    decreases in_flight.len(),
{
    if in_flight.len() == 0 {
        Acked { kept: Seq::empty(), bytes_acked: 0, rtt: None, srtt }
    } else {
        let before = acknowledged(in_flight.drop_last(), srtt, start, end, now);
        let sent = in_flight.last();
        if start <= sent.pkt_num <= end {
            let sample = rtt_sample(sent, now);
            Acked {
                kept: before.kept,
                bytes_acked: before.bytes_acked + sent.data.len(),
                rtt: if sample > 0 {
                    Some(sample)
                } else {
                    before.rtt
                },
                srtt: if sample > 0 {
                    smoothed(before.srtt, sample)
                } else {
                    before.srtt
                },
            }
        } else {
            Acked { kept: before.kept.push(sent), ..before }
        }
    }
}

impl ArqState {
    pub open spec fn new() -> ArqState {
        ArqState { in_flight: Seq::empty(), srtt: 0 }
    }

    pub open spec fn sent(self, packet: Sent) -> ArqState {
        ArqState { in_flight: self.in_flight.push(packet), ..self }
    }

    /// How long to wait for an acknowledgement: twice the round-trip time, but
    /// no less than the minimum.
    pub open spec fn rto(self) -> u64 {
        if 2 * self.srtt > u64::MAX {
            u64::MAX
        } else if 2 * self.srtt > MIN_RTO_US {
            (2 * self.srtt) as u64
        } else {
            MIN_RTO_US
        }
    }

    /// The packet has waited longer than the timeout.
    pub open spec fn is_expired(self, packet: Sent, now: u64) -> bool {
        packet.sent_at + self.rto() < now
    }

    pub open spec fn expired(self, now: u64) -> Seq<Sent> {
        self.in_flight.filter(|packet: Sent| self.is_expired(packet, now))
    }

    /// The state without the packets that have expired.
    pub open spec fn without_expired(self, now: u64) -> ArqState {
        ArqState {
            in_flight: self.in_flight.filter(|packet: Sent| !self.is_expired(packet, now)),
            ..self
        }
    }
}

/// Bytes of the packets in flight.
pub open spec fn flying(in_flight: Seq<Sent>) -> nat
    decreases in_flight.len(),
{
    if in_flight.len() == 0 {
        0
    } else {
        flying(in_flight.drop_last()) + cost(in_flight.last().data)
    }
}

/// Every packet in flight has the property.
pub open spec fn all_sent(in_flight: Seq<Sent>, fits: spec_fn(Seq<u8>) -> bool) -> bool {
    forall|i: int| 0 <= i < in_flight.len() ==> fits((#[trigger] in_flight[i]).data)
}

/// An acknowledgement puts nothing into flight.
pub proof fn acknowledged_keeps(
    in_flight: Seq<Sent>,
    srtt: u64,
    start: u64,
    end: u64,
    now: u64,
    fits: spec_fn(Seq<u8>) -> bool,
)
    requires
        all_sent(in_flight, fits),
    ensures
        all_sent(acknowledged(in_flight, srtt, start, end, now).kept, fits),
        acknowledged(in_flight, srtt, start, end, now).kept.len() <= in_flight.len(),
    decreases in_flight.len(),
{
    if in_flight.len() > 0 {
        assert forall|i: int| 0 <= i < in_flight.len() - 1 implies fits(
            (#[trigger] in_flight.drop_last()[i]).data,
        ) by {
            assert(fits(in_flight[i].data));
        }
        acknowledged_keeps(in_flight.drop_last(), srtt, start, end, now, fits);
        assert(fits(in_flight[in_flight.len() - 1].data));
    }
}

/// Picking packets out of those in flight puts nothing into flight.
pub proof fn filter_keeps(
    in_flight: Seq<Sent>,
    pick: spec_fn(Sent) -> bool,
    fits: spec_fn(Seq<u8>) -> bool,
)
    requires
        all_sent(in_flight, fits),
    ensures
        all_sent(in_flight.filter(pick), fits),
        in_flight.filter(pick).len() <= in_flight.len(),
    decreases in_flight.len(),
{
    reveal(Seq::filter);
    if in_flight.len() > 0 {
        assert forall|i: int| 0 <= i < in_flight.len() - 1 implies fits(
            (#[trigger] in_flight.drop_last()[i]).data,
        ) by {
            assert(fits(in_flight[i].data));
        }
        filter_keeps(in_flight.drop_last(), pick, fits);
        assert(fits(in_flight[in_flight.len() - 1].data));
    }
}

/// A packet has expired or has not.
pub proof fn expired_and_rest(arq: ArqState, now: u64)
    ensures
        arq.expired(now).len() + arq.without_expired(now).in_flight.len() == arq.in_flight.len(),
    decreases arq.in_flight.len(),
{
    reveal(Seq::filter);
    if arq.in_flight.len() > 0 {
        let front = ArqState { in_flight: arq.in_flight.drop_last(), ..arq };
        expired_and_rest(front, now);
        let due = |packet: Sent| arq.is_expired(packet, now);
        let alive = |packet: Sent| !arq.is_expired(packet, now);
        assert(due =~= |packet: Sent| front.is_expired(packet, now));
        assert(alive =~= |packet: Sent| !front.is_expired(packet, now));
    }
}

spec fn shown(packet: InFlight) -> Sent {
    Sent {
        pkt_num: packet.pkt_num,
        data: bytes_content(packet.data),
        sent_at: packet.sent_at,
        resent: packet.resent,
    }
}

impl View for ArqTracker {
    type V = ArqState;

    closed spec fn view(&self) -> ArqState {
        ArqState {
            in_flight: self.in_flight@.map_values(|packet: InFlight| shown(packet)),
            srtt: self.srtt,
        }
    }
}

impl ArqTracker {
    pub fn new() -> (a: Self)
        ensures
            a@ == ArqState::new(),
    {
        ArqTracker { in_flight: VecDeque::new(), srtt: 0 }
    }

    /// Track a packet sent at `now`.
    pub fn on_sent(&mut self, pkt_num: u64, data: Bytes, now: u64, resent: bool)
        ensures
            final(self)@ == old(self)@.sent(
                (Sent { pkt_num, data: bytes_content(data), sent_at: now, resent }),
            ),
    {
        self.in_flight.push_back(InFlight { pkt_num, data, sent_at: now, resent });
        assert(self@.in_flight =~= old(self)@.in_flight.push(
            (Sent { pkt_num, data: bytes_content(data), sent_at: now, resent }),
        ));
    }

    /// The packets numbered `start` to `end` were acknowledged at `now`: the
    /// number of bytes and the last round-trip sample.
    pub fn on_ack_range(&mut self, start: u64, end: u64, now: u64) -> (r: (u64, Option<u64>))
        ensures
            ({
                let acked = acknowledged(
                    old(self)@.in_flight,
                    old(self)@.srtt,
                    start,
                    end,
                    now,
                );
                &&& r.0 == clamp_u64(acked.bytes_acked as int)
                &&& r.1 == acked.rtt
                &&& final(self)@ == (ArqState { in_flight: acked.kept, srtt: acked.srtt })
            }),
    {
        let n: usize = self.in_flight.len();
        let mut total: u64 = 0;
        let mut rtt: Option<u64> = None;
        let ghost all = self@.in_flight;
        let ghost srtt = self.srtt;
        for i in 0..n
            invariant
                n == all.len(),
                ({
                    let acked = acknowledged(all.take(i as int), srtt, start, end, now);
                    &&& self@.in_flight == all.skip(i as int) + acked.kept
                    &&& total == clamp_u64(acked.bytes_acked as int)
                    &&& rtt == acked.rtt
                    &&& self.srtt == acked.srtt
                }),
        {
            let ghost front = all.take(i as int);
            let ghost more = all.take(i + 1);
            let ghost view_before = self@.in_flight;
            proof {
                assert(more.drop_last() =~= front);
                assert(view_before[0] == all[i as int]);
            }
            match self.in_flight.pop_front() {
                Some(packet) => {
                    assert(shown(packet) == view_before[0]);
                    assert(self@.in_flight =~= view_before.skip(1));
                    if start <= packet.pkt_num && packet.pkt_num <= end {
                        total = total.saturating_add(packet.data.len() as u64);
                        let sample: u64 = if packet.resent {
                            0
                        } else {
                            now.saturating_sub(packet.sent_at)
                        };
                        if sample > 0 {
                            rtt = Some(sample);
                            self.srtt = if self.srtt == 0 {
                                sample
                            } else {
                                self.srtt - self.srtt / 8 + sample / 8
                            };
                        }
                        assert(self@.in_flight =~= all.skip(i + 1) + acknowledged(
                            more,
                            srtt,
                            start,
                            end,
                            now,
                        ).kept);
                    } else {
                        self.in_flight.push_back(packet);
                        assert(self@.in_flight =~= view_before.skip(1).push(shown(packet)));
                        assert(self@.in_flight =~= all.skip(i + 1) + acknowledged(
                            more,
                            srtt,
                            start,
                            end,
                            now,
                        ).kept);
                    }
                },
                None => {},
            }
        }
        assert(all.take(n as int) =~= all);
        assert(self@.in_flight =~= acknowledged(all, srtt, start, end, now).kept);
        (total, rtt)
    }

    /// How many packets are in flight.
    pub fn in_flight_count(&self) -> (n: usize)
        ensures
            n == self@.in_flight.len(),
    {
        self.in_flight.len()
    }

    /// The smoothed round-trip time in microseconds; 0 before the first sample.
    pub fn srtt(&self) -> (us: u64)
        ensures
            us == self@.srtt,
    {
        self.srtt
    }

    /// The retransmission timeout in microseconds.
    pub fn rto(&self) -> (us: u64)
        ensures
            us == self@.rto(),
    {
        let twice: u64 = self.srtt.saturating_add(self.srtt);
        if twice > MIN_RTO_US {
            twice
        } else {
            MIN_RTO_US
        }
    }

    /// Bytes of the packets in flight, or the greatest number if they are more.
    pub fn bytes_in_flight(&self) -> (bytes: u64)
        ensures
            bytes == clamp_u64(flying(self@.in_flight) as int),
    {
        let n: usize = self.in_flight.len();
        let mut bytes: u64 = 0;
        let ghost all = self@.in_flight;
        for i in 0..n
            invariant
                n == all.len() == self.in_flight@.len(),
                all == self@.in_flight,
                bytes == clamp_u64(flying(all.take(i as int)) as int),
        {
            let packet = &self.in_flight[i];
            proof {
                assert(shown(*packet) == all[i as int]);
                assert(all.take(i + 1).drop_last() =~= all.take(i as int));
            }
            bytes = bytes.saturating_add(packet.data.len() as u64).saturating_add(
                PACKET_OVERHEAD as u64,
            );
        }
        assert(all.take(n as int) =~= all);
        bytes
    }

    /// How many packets have a timeout that has passed.
    pub fn expired_count(&self, now: u64) -> (count: usize)
        ensures
            count == self@.expired(now).len(),
    {
        let n: usize = self.in_flight.len();
        let rto: u64 = self.rto();
        let mut count: usize = 0;
        let ghost all = self@.in_flight;
        let ghost due = |packet: Sent| self@.is_expired(packet, now);
        for i in 0..n
            invariant
                n == all.len() == self.in_flight@.len(),
                all == self@.in_flight,
                rto == self@.rto(),
                due == (|packet: Sent| self@.is_expired(packet, now)),
                count == all.take(i as int).filter(due).len(),
                count <= i,
        {
            let packet = &self.in_flight[i];
            proof {
                assert(shown(*packet) == all[i as int]);
                assert(all.take(i + 1).drop_last() =~= all.take(i as int));
                reveal(Seq::filter);
            }
            if now > packet.sent_at && now - packet.sent_at > rto {
                assert(due(all[i as int]));
                count = count + 1;
            } else {
                assert(!due(all[i as int]));
            }
        }
        assert(all.take(n as int) =~= all);
        count
    }

    /// Take out the packets whose timeout has passed.
    pub fn drain_expired(&mut self, now: u64) -> (r: Vec<(u64, Bytes)>)
        ensures
            final(self)@ == old(self)@.without_expired(now),
            r@.len() == old(self)@.expired(now).len(),
            forall|i: int| #![trigger r@[i]]
                0 <= i < r@.len() ==> r@[i].0 == old(self)@.expired(now)[i].pkt_num
                    && bytes_content(r@[i].1) == old(self)@.expired(now)[i].data,
    {
        let n: usize = self.in_flight.len();
        let rto: u64 = self.rto();
        let mut out: Vec<(u64, Bytes)> = Vec::new();
        let ghost old_state = self@;
        let ghost all = self@.in_flight;
        let ghost due = |packet: Sent| old_state.is_expired(packet, now);
        let ghost alive = |packet: Sent| !old_state.is_expired(packet, now);
        for i in 0..n
            invariant
                n == all.len(),
                rto == old_state.rto(),
                all == old_state.in_flight,
                self.srtt == old_state.srtt,
                due == (|packet: Sent| old_state.is_expired(packet, now)),
                alive == (|packet: Sent| !old_state.is_expired(packet, now)),
                self@.in_flight == all.skip(i as int) + all.take(i as int).filter(alive),
                out@.len() == all.take(i as int).filter(due).len(),
                forall|j: int| #![trigger out@[j]]
                    0 <= j < out@.len() ==> out@[j].0 == all.take(i as int).filter(due)[j].pkt_num
                        && bytes_content(out@[j].1) == all.take(i as int).filter(due)[j].data,
        {
            let ghost view_before = self@.in_flight;
            let ghost more = all.take(i + 1);
            proof {
                assert(more.drop_last() =~= all.take(i as int));
                assert(view_before[0] == all[i as int]);
                reveal(Seq::filter);
            }
            match self.in_flight.pop_front() {
                Some(packet) => {
                    assert(shown(packet) == view_before[0]);
                    assert(self@.in_flight =~= view_before.skip(1));
                    if now > packet.sent_at && now - packet.sent_at > rto {
                        assert(due(shown(packet)));
                        out.push((packet.pkt_num, packet.data));
                        assert(self@.in_flight =~= all.skip(i + 1) + more.filter(alive));
                    } else {
                        assert(alive(shown(packet)));
                        self.in_flight.push_back(packet);
                        assert(self@.in_flight =~= view_before.skip(1).push(shown(packet)));
                        assert(self@.in_flight =~= all.skip(i + 1) + more.filter(alive));
                    }
                },
                None => {},
            }
        }
        assert(all.take(n as int) =~= all);
        assert(self@.in_flight =~= all.filter(alive));
        out
    }
}

} // verus!
