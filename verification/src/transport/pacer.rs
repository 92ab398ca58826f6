//! How much data may leave: a congestion window, and a token bucket that is
//! filled at one window per round trip.

use crate::session::stream::saturating_distance;
use vstd::prelude::*;

verus! {

/// Bytes of a packet with as much stream data as a packet can have.
pub const FULL_PACKET: u64 = 1435;

/// Bytes that the bucket holds: those of any UDP datagram, so that none waits
/// for ever.
pub const BURST: u64 = 65_535;

/// The pace of a connection. Times are in microseconds.
#[derive(Debug, Clone, Copy)]
pub struct Pacer {
    /// The congestion window in bytes; without one, everything leaves at once.
    pub window: Option<u64>,
    /// The round-trip time; 0 before it is known.
    pub srtt: u64,
    /// Bytes that may leave.
    pub tokens: u64,
    /// What has come in beyond those: parts of a byte, of which `srtt` make one.
    pub part: u64,
    /// When the bucket was last filled.
    pub last: u64,
}

/// The window, but no less than one full packet.
pub open spec fn at_least_one(window: u64) -> u64 {
    if window < FULL_PACKET {
        FULL_PACKET
    } else {
        window
    }
}

impl Pacer {
    /// No window, and a full bucket.
    pub open spec fn unlimited() -> Pacer {
        Pacer { window: None, srtt: 0, tokens: BURST, part: 0, last: 0 }
    }

    /// What comes in until `now`, in parts of a byte: a window for each round trip.
    pub open spec fn inflow(self, now: u64) -> nat {
        match self.window {
            Some(window) => (self.part + at_least_one(window) * saturating_distance(
                self.last as int,
                now as int,
            )) as nat,
            None => 0,
        }
    }

    /// The pacer at `now`, with the bucket filled up to then, and with the
    /// round-trip time as it is from then on. Before a round-trip time is known
    /// the bucket is full.
    pub open spec fn at(self, srtt: u64, now: u64) -> Pacer {
        if self.window is None || self.srtt == 0 {
            Pacer { srtt, tokens: BURST, part: 0, last: now, ..self }
        } else {
            let bytes = self.tokens + self.inflow(now) / (self.srtt as nat);
            Pacer {
                srtt,
                tokens: if bytes < BURST {
                    bytes as u64
                } else {
                    BURST
                },
                part: if srtt == self.srtt {
                    (self.inflow(now) % (self.srtt as nat)) as u64
                } else {
                    0
                },
                last: now,
                ..self
            }
        }
    }

    /// How many bytes the window leaves room for.
    pub open spec fn room(self, flying: u64) -> Option<u64> {
        match self.window {
            Some(window) => Some(
                saturating_distance(flying as int, at_least_one(window) as int),
            ),
            None => None,
        }
    }

    /// How many bytes of data may leave now, with so many in flight: as many as
    /// the window leaves room for, and, once there is a round-trip time, no more
    /// than the bucket holds. Without a window there is no limit.
    pub open spec fn budget(self, flying: u64) -> Option<u64> {
        match self.room(flying) {
            Some(room) => Some(
                if self.srtt == 0 || room < self.tokens {
                    room
                } else {
                    self.tokens
                },
            ),
            None => None,
        }
    }

    /// The pacer once so many bytes have left.
    pub open spec fn spent(self, bytes: u64) -> Pacer {
        Pacer { tokens: saturating_distance(bytes as int, self.tokens as int), ..self }
    }

    /// What the bucket holds, in parts of a byte.
    pub open spec fn credit(self) -> nat {
        (self.tokens * self.srtt + self.part) as nat
    }

    pub fn new() -> (p: Self)
        ensures
            p == Pacer::unlimited(),
    {
        Pacer { window: None, srtt: 0, tokens: BURST, part: 0, last: 0 }
    }

    /// The pacer at `now`, with this round-trip time from then on.
    pub fn update_rate(&self, srtt: u64, now: u64) -> (p: Self)
        ensures
            p == self.at(srtt, now),
    {
        let window: u64 = match self.window {
            Some(window) => if window < FULL_PACKET {
                FULL_PACKET
            } else {
                window
            },
            None => {
                return Pacer { srtt, tokens: BURST, part: 0, last: now, ..*self };
            },
        };
        if self.srtt == 0 {
            return Pacer { srtt, tokens: BURST, part: 0, last: now, ..*self };
        }
        let elapsed: u64 = now.saturating_sub(self.last);
        assert(0 <= window * elapsed <= 0xFFFF_FFFF_FFFF_FFFF * 0xFFFF_FFFF_FFFF_FFFF)
            by (nonlinear_arith)
            requires
                0 <= window <= 0xFFFF_FFFF_FFFF_FFFF,
                0 <= elapsed <= 0xFFFF_FFFF_FFFF_FFFF,
        ;
        let inflow: u128 = self.part as u128 + window as u128 * elapsed as u128;
        let filled: u128 = inflow / (self.srtt as u128);
        let rest: u128 = inflow % (self.srtt as u128);
        let tokens: u64 = if self.tokens >= BURST || filled >= (BURST - self.tokens) as u128 {
            BURST
        } else {
            self.tokens + filled as u64
        };
        Pacer {
            srtt,
            tokens,
            part: if srtt == self.srtt {
                rest as u64
            } else {
                0
            },
            last: now,
            ..*self
        }
    }

    /// How many bytes of data may leave now, with so many in flight.
    pub fn available(&self, flying: u64) -> (budget: Option<u64>)
        ensures
            budget == self.budget(flying),
    {
        match self.window {
            Some(window) => {
                let at_least: u64 = if window < FULL_PACKET {
                    FULL_PACKET
                } else {
                    window
                };
                let room: u64 = at_least.saturating_sub(flying);
                if self.srtt == 0 || room < self.tokens {
                    Some(room)
                } else {
                    Some(self.tokens)
                }
            },
            None => None,
        }
    }

    /// So many bytes have left.
    pub fn consume(&self, bytes: u64) -> (p: Self)
        ensures
            p == self.spent(bytes),
    {
        Pacer { tokens: self.tokens.saturating_sub(bytes), ..*self }
    }
}

/// Bytes that leave at some time.
#[verifier::ext_equal]
pub struct Leaving {
    pub now: u64,
    pub bytes: u64,
}

impl Pacer {
    /// The pacer after these have left, at an unchanged round-trip time.
    pub open spec fn after(self, run: Seq<Leaving>) -> Pacer
        decreases run.len(),
    {
        if run.len() == 0 {
            self
        } else {
            self.after(run.drop_last()).at(self.srtt, run.last().now).spent(run.last().bytes)
        }
    }

    /// None of these is more than the bucket holds at its time, and none comes
    /// before the one before it.
    pub open spec fn allows(self, run: Seq<Leaving>) -> bool
        decreases run.len(),
    {
        run.len() > 0 ==> {
            let before = self.after(run.drop_last());
            &&& self.allows(run.drop_last())
            &&& before.last <= run.last().now
            &&& run.last().bytes <= before.at(self.srtt, run.last().now).tokens
        }
    }
}

/// All bytes that leave.
pub open spec fn total(run: Seq<Leaving>) -> nat
    decreases run.len(),
{
    if run.len() == 0 {
        0
    } else {
        total(run.drop_last()) + run.last().bytes as nat
    }
}

/// Filling lets in no more than a window for each round trip.
proof fn filling_keeps_the_rate(p: Pacer, now: u64)
    requires
        p.window is Some,
        p.srtt > 0,
        p.last <= now,
    ensures
        p.at(p.srtt, now).credit() <= p.credit() + at_least_one(p.window->0) * (now - p.last),
        p.at(p.srtt, now).last == now,
        p.at(p.srtt, now).srtt == p.srtt,
        p.at(p.srtt, now).window == p.window,
{
    let after = p.at(p.srtt, now);
    let inflow = p.inflow(now) as int;
    let srtt = p.srtt as int;
    assert(at_least_one(p.window->0) * (now - p.last) >= 0) by (nonlinear_arith)
        requires
            p.last <= now,
            at_least_one(p.window->0) >= 0,
    ;
    assert(inflow == srtt * (inflow / srtt) + inflow % srtt && 0 <= inflow % srtt < srtt)
        by (nonlinear_arith)
        requires
            srtt > 0,
    ;
    assert(after.tokens * srtt <= (p.tokens + inflow / srtt) * srtt) by (nonlinear_arith)
        requires
            after.tokens <= p.tokens + inflow / srtt,
            srtt > 0,
    ;
    assert((p.tokens + inflow / srtt) * srtt == p.tokens * srtt + srtt * (inflow / srtt))
        by (nonlinear_arith);
    assert(p.tokens * srtt >= 0) by (nonlinear_arith)
        requires
            p.tokens >= 0,
            srtt > 0,
    ;
    assert(after.tokens * srtt >= 0) by (nonlinear_arith)
        requires
            after.tokens >= 0,
            srtt > 0,
    ;
}

/// Data leaves no faster than the window for each round trip: what leaves in a
/// run is no more than what the bucket held and what has come in since, at the
/// rate of the window divided by the round-trip time.
pub proof fn pace_is_kept(p: Pacer, run: Seq<Leaving>)
    requires
        p.window is Some,
        p.srtt > 0,
        p.allows(run),
    ensures
        p.after(run).last >= p.last,
        total(run) * p.srtt + p.after(run).credit() <= p.credit() + at_least_one(p.window->0) * (
        p.after(run).last - p.last),
        p.after(run).window == p.window,
        p.after(run).srtt == p.srtt,
    decreases run.len(),
{
    if run.len() == 0 {
        assert(at_least_one(p.window->0) * 0 == 0) by (nonlinear_arith);
        assert(total(run) * p.srtt == 0) by (nonlinear_arith)
            requires
                total(run) == 0,
        ;
    } else {
        let rest = run.drop_last();
        let bytes = run.last().bytes as int;
        let now = run.last().now as int;
        let srtt = p.srtt as int;
        let w = at_least_one(p.window->0) as int;
        pace_is_kept(p, rest);
        let before = p.after(rest);
        filling_keeps_the_rate(before, run.last().now);
        let filled = before.at(p.srtt, run.last().now);
        let after = p.after(run);
        assert(after.tokens == filled.tokens - bytes);
        assert((filled.tokens - bytes) * srtt == filled.tokens * srtt - bytes * srtt)
            by (nonlinear_arith);
        assert((total(rest) + bytes) * srtt == total(rest) * srtt + bytes * srtt)
            by (nonlinear_arith);
        assert(w * (before.last - p.last) + w * (now - before.last) == w * (now - p.last))
            by (nonlinear_arith);
        assert(after.tokens * srtt >= 0) by (nonlinear_arith)
            requires
                after.tokens >= 0,
                srtt > 0,
        ;
        assert(filled.tokens * srtt >= 0) by (nonlinear_arith)
            requires
                filled.tokens >= 0,
                srtt > 0,
        ;
    }
}

} // verus!
