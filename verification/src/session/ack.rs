//! Which packets arrived, and the frames that say so.

use crate::wire::{
    le_bytes, le_bytes_len, le_round_trip, le_value, pow256_values, put_u16_le, put_u64_le,
    u16_le_at, u64_le_at,
};
use vstd::prelude::*;

verus! {

/// Most ranges that one frame lists.
pub const MAX_ACK_RANGES: usize = 64;

/// The packet numbers received so far, as ranges, and whether the peer is owed
/// an acknowledgement.
pub struct AckRanges {
    /// Inclusive ranges, ascending.
    ranges: Vec<(u64, u64)>,
    pending: bool,
}

/// What an [`AckRanges`] stands for.
#[verifier::ext_equal]
pub struct AckState {
    pub ranges: Seq<(u64, u64)>,
    pub pending: bool,
}

/// `n` lies in one of the inclusive ranges.
pub open spec fn in_ranges(ranges: Seq<(u64, u64)>, n: u64) -> bool {
    exists|i: int| 0 <= i < ranges.len() && (#[trigger] ranges[i]).0 <= n <= ranges[i].1
}

/// The ranges ascend, and a gap lies between any two: they are the maximal runs
/// of the numbers in them.
pub open spec fn are_runs(ranges: Seq<(u64, u64)>) -> bool {
    &&& forall|i: int| 0 <= i < ranges.len() ==> (#[trigger] ranges[i]).0 <= ranges[i].1
    &&& forall|i: int, j: int|
        0 <= i < j < ranges.len() ==> (#[trigger] ranges[i]).1 + 1 < (#[trigger] ranges[j]).0
}

/// The last `MAX_ACK_RANGES` ranges: those with the highest numbers.
pub open spec fn top_ranges(ranges: Seq<(u64, u64)>) -> Seq<(u64, u64)> {
    if ranges.len() <= MAX_ACK_RANGES {
        ranges
    } else {
        ranges.skip(ranges.len() - MAX_ACK_RANGES)
    }
}

/// The ranges one after the other, each as start and end.
pub open spec fn range_bytes(ranges: Seq<(u64, u64)>) -> Seq<u8>
    decreases ranges.len(),
{
    if ranges.len() == 0 {
        Seq::empty()
    } else {
        range_bytes(ranges.drop_last()) + le_bytes(ranges.last().0 as nat, 8) + le_bytes(
            ranges.last().1 as nat,
            8,
        )
    }
}

/// An acknowledgement frame: the largest number, the delay, the number of
/// ranges and the ranges.
pub open spec fn ack_frame(largest: u64, delay_us: u64, ranges: Seq<(u64, u64)>) -> Seq<u8> {
    le_bytes(largest as nat, 8) + le_bytes(delay_us as nat, 8) + le_bytes(ranges.len(), 2)
        + range_bytes(ranges)
}

/// The fields of an acknowledgement frame.
#[verifier::ext_equal]
pub struct AckFields {
    pub largest: u64,
    pub delay_us: u64,
    pub ranges: Seq<(u64, u64)>,
}

/// What a frame says; nothing if it is shorter than its own fields. Bytes
/// behind the last range are ignored.
pub open spec fn parsed_ack(frame: Seq<u8>) -> Option<AckFields> {
    let count = le_value(frame.subrange(16, 18));
    if frame.len() < 18 || frame.len() < 18 + 16 * count {
        None
    } else {
        Some(
            AckFields {
                largest: le_value(frame.subrange(0, 8)) as u64,
                delay_us: le_value(frame.subrange(8, 16)) as u64,
                ranges: Seq::new(
                    count,
                    |i: int|
                        (
                            le_value(frame.subrange(18 + 16 * i, 26 + 16 * i)) as u64,
                            le_value(frame.subrange(26 + 16 * i, 34 + 16 * i)) as u64,
                        ),
                ),
            },
        )
    }
}

impl AckState {
    pub open spec fn new() -> AckState {
        AckState { ranges: Seq::empty(), pending: false }
    }

    pub open spec fn wf(self) -> bool {
        are_runs(self.ranges) && (self.pending ==> self.ranges.len() > 0)
    }

    /// The packet number was received.
    pub open spec fn has(self, n: u64) -> bool {
        in_ranges(self.ranges, n)
    }

    /// The highest number received, 0 if none was.
    pub open spec fn largest(self) -> u64 {
        if self.ranges.len() == 0 {
            0
        } else {
            self.ranges.last().1
        }
    }

    /// The frame that acknowledges what was received.
    pub open spec fn frame(self) -> Seq<u8> {
        ack_frame(self.largest(), 0, top_ranges(self.ranges))
    }

    /// `next` is this state after packet `n` arrived.
    pub open spec fn received(self, n: u64, ack_eliciting: bool, next: AckState) -> bool {
        &&& next.wf()
        &&& forall|m: u64| #[trigger] next.has(m) == (self.has(m) || m == n)
        &&& next.pending == (self.pending || ack_eliciting)
    }
}

impl View for AckRanges {
    type V = AckState;

    closed spec fn view(&self) -> AckState {
        AckState { ranges: self.ranges@, pending: self.pending }
    }
}

impl AckRanges {
    pub fn new() -> (a: Self)
        ensures
            a@ == AckState::new(),
            a@.wf(),
    {
        AckRanges { ranges: Vec::new(), pending: false }
    }

    /// The peer is owed an acknowledgement.
    pub fn has_pending_ack(&self) -> (pending: bool)
        ensures
            pending == self@.pending,
    {
        self.pending
    }

    /// Take note of a received packet.
    pub fn on_received(&mut self, n: u64, ack_eliciting: bool)
        requires
            old(self)@.wf(),
        ensures
            old(self)@.received(n, ack_eliciting, final(self)@),
    {
        let ghost before = self.ranges@;
        insert_number(&mut self.ranges, n);
        if ack_eliciting {
            self.pending = true;
        }
        proof {
            assert(in_ranges(self.ranges@, n));
        }
    }

    /// The frame that acknowledges what was received; none is owed any more.
    pub fn build_frame(&mut self) -> (frame: Vec<u8>)
        requires
            old(self)@.wf(),
        ensures
            frame@ == old(self)@.frame(),
            frame@.len() <= 18 + 16 * MAX_ACK_RANGES,
            final(self)@ == (AckState { pending: false, ..old(self)@ }),
            final(self)@.wf(),
    {
        self.pending = false;
        let total: usize = self.ranges.len();
        let first: usize = if total <= MAX_ACK_RANGES {
            0
        } else {
            total - MAX_ACK_RANGES
        };
        let largest: u64 = if total == 0 {
            0
        } else {
            self.ranges[total - 1].1
        };
        let ghost listed = top_ranges(self.ranges@);
        let mut frame: Vec<u8> = Vec::new();
        put_u64_le(&mut frame, largest);
        put_u64_le(&mut frame, 0);
        put_u16_le(&mut frame, (total - first) as u16);
        let ghost head = frame@;
        proof {
            le_bytes_len(largest as nat, 8);
            le_bytes_len(0, 8);
            le_bytes_len((total - first) as nat, 2);
        }
        let mut i: usize = first;
        while i < total
            invariant
                first <= i <= total == self.ranges@.len(),
                total - first <= MAX_ACK_RANGES,
                listed.len() == total - first,
                forall|j: int| 0 <= j < listed.len() ==> listed[j] == self.ranges@[first + j],
                frame@ == head + range_bytes(listed.take(i - first)),
                frame@.len() == 18 + 16 * (i - first),
            decreases total - i,
        {
            let (start, end) = self.ranges[i];
            put_u64_le(&mut frame, start);
            put_u64_le(&mut frame, end);
            proof {
                let done = listed.take(i - first);
                let more = listed.take(i + 1 - first);
                assert(more.drop_last() =~= done);
                le_bytes_len(start as nat, 8);
                le_bytes_len(end as nat, 8);
                assert(frame@ =~= head + range_bytes(more));
            }
            i = i + 1;
        }
        proof {
            assert(listed.take(total - first) =~= listed);
            assert(frame@ =~= ack_frame(largest, 0, listed));
        }
        frame
    }
}

/// Add a number to ascending ranges, joining the ranges that it closes up.
fn insert_number(ranges: &mut Vec<(u64, u64)>, n: u64)
    requires
        are_runs(old(ranges)@),
    ensures
        are_runs(final(ranges)@),
        forall|m: u64| #[trigger]
            in_ranges(final(ranges)@, m) == (in_ranges(old(ranges)@, m) || m == n),
{
    let ghost before = ranges@;
    // Ranges from `i` on end at or beyond `n`, those before it end below `n`.
    let mut i: usize = ranges.len();
    while i > 0 && ranges[i - 1].1 >= n
        invariant
            ranges@ == before,
            are_runs(before),
            i <= before.len(),
            forall|j: int| i <= j < before.len() ==> (#[trigger] before[j]).1 >= n,
        decreases i,
    {
        i = i - 1;
    }
    assert forall|j: int| 0 <= j < i implies (#[trigger] before[j]).1 < n by {
        if j < i - 1 {
            assert(before[j].1 + 1 < before[i - 1].0);
        }
    }
    let len: usize = ranges.len();
    if i < len && ranges[i].0 <= n {
        assert(in_ranges(before, n));
        return;
    }
    assert forall|j: int| i <= j < len implies n < (#[trigger] before[j]).0 by {
        if j > i {
            assert(before[i as int].1 + 1 < before[j].0);
        }
    }
    let joins_left: bool = i > 0 && ranges[i - 1].1 == n - 1;
    let joins_right: bool = i < len && ranges[i].0 == n + 1;
    if joins_left && joins_right {
        let (_, end) = ranges[i];
        let (start, _) = ranges[i - 1];
        ranges.remove(i);
        ranges[i - 1] = (start, end);
        proof {
            join_two(before, ranges@, i as int, n);
        }
    } else if joins_left {
        let (start, _) = ranges[i - 1];
        ranges[i - 1] = (start, n);
        proof {
            extend_one(before, ranges@, i - 1, n);
        }
    } else if joins_right {
        let (_, end) = ranges[i];
        ranges[i] = (n, end);
        proof {
            extend_one(before, ranges@, i as int, n);
        }
    } else {
        ranges.insert(i, (n, n));
        proof {
            assert forall|j: int| 0 <= j < i implies (#[trigger] before[j]).1 + 1 < n by {
                if j < i - 1 {
                    assert(before[j].1 + 1 < before[i - 1].0);
                }
            }
            assert forall|j: int| i <= j < len implies n + 1 < (#[trigger] before[j]).0 by {
                if j > i {
                    assert(before[i as int].1 + 1 < before[j].0);
                }
            }
            insert_one(before, ranges@, i as int, n);
        }
    }
}

/// Extending one range by the number next to it adds that number alone.
proof fn extend_one(before: Seq<(u64, u64)>, after: Seq<(u64, u64)>, at: int, n: u64)
    requires
        are_runs(before),
        0 <= at < before.len(),
        after == before.update(at, (before[at].0, n)) && before[at].1 + 1 == n || after
            == before.update(at, (n, before[at].1)) && n + 1 == before[at].0,
        at > 0 ==> before[at - 1].1 + 1 < n,
        at + 1 < before.len() ==> n + 1 < before[at + 1].0,
    ensures
        are_runs(after),
        forall|m: u64| #[trigger] in_ranges(after, m) == (in_ranges(before, m) || m == n),
{
    assert forall|m: u64| #[trigger] in_ranges(after, m) == (in_ranges(before, m) || m == n) by {
        if in_ranges(after, m) {
            let j = choose|j: int|
                0 <= j < after.len() && (#[trigger] after[j]).0 <= m <= after[j].1;
            assert(before[j].0 <= m <= before[j].1 || m == n);
        }
        if in_ranges(before, m) {
            let j = choose|j: int|
                0 <= j < before.len() && (#[trigger] before[j]).0 <= m <= before[j].1;
            assert(after[j].0 <= m <= after[j].1);
        }
        if m == n {
            assert(after[at].0 <= m <= after[at].1);
        }
    }
    assert forall|i: int, j: int| 0 <= i < j < after.len() implies (#[trigger] after[i]).1 + 1 < (
    #[trigger] after[j]).0 by {
        assert(before[i].1 + 1 < before[j].0);
        if j == at && i < at - 1 {
            assert(before[i].1 + 1 < before[at - 1].0);
        }
        if i == at && j > at + 1 {
            assert(before[at + 1].1 + 1 < before[j].0);
        }
    }
}

/// Joining the two ranges beside a number adds that number alone.
proof fn join_two(before: Seq<(u64, u64)>, after: Seq<(u64, u64)>, at: int, n: u64)
    requires
        are_runs(before),
        0 < at < before.len(),
        before[at - 1].1 + 1 == n,
        n + 1 == before[at].0,
        after == before.remove(at).update(at - 1, (before[at - 1].0, before[at].1)),
    ensures
        are_runs(after),
        forall|m: u64| #[trigger] in_ranges(after, m) == (in_ranges(before, m) || m == n),
{
    assert forall|j: int| 0 <= j < after.len() implies #[trigger] after[j] == (if j < at - 1 {
        before[j]
    } else if j == at - 1 {
        (before[at - 1].0, before[at].1)
    } else {
        before[j + 1]
    }) by {}
    assert forall|m: u64| #[trigger] in_ranges(after, m) == (in_ranges(before, m) || m == n) by {
        if in_ranges(after, m) {
            let j = choose|j: int|
                0 <= j < after.len() && (#[trigger] after[j]).0 <= m <= after[j].1;
            if j == at - 1 {
                assert(before[at - 1].0 <= m <= before[at - 1].1 || m == n || before[at].0 <= m
                    <= before[at].1);
            } else {
                let k = if j < at {
                    j
                } else {
                    j + 1
                };
                assert(before[k] == after[j]);
            }
        }
        if in_ranges(before, m) {
            let j = choose|j: int|
                0 <= j < before.len() && (#[trigger] before[j]).0 <= m <= before[j].1;
            let k = if j < at {
                j
            } else {
                j - 1
            };
            assert(after[k].0 <= m <= after[k].1);
        }
        if m == n {
            assert(after[at - 1].0 <= m <= after[at - 1].1);
        }
    }
    assert forall|i: int, j: int| 0 <= i < j < after.len() implies (#[trigger] after[i]).1 + 1 < (
    #[trigger] after[j]).0 by {
        let bi = if i <= at - 1 && i != at - 1 {
            i
        } else {
            i + 1
        };
        let bj = if j <= at - 1 {
            j
        } else {
            j + 1
        };
        assert(before[bi].1 + 1 < before[bj].0);
    }
}

/// A number that touches no range becomes a range of its own.
proof fn insert_one(before: Seq<(u64, u64)>, after: Seq<(u64, u64)>, at: int, n: u64)
    requires
        are_runs(before),
        0 <= at <= before.len(),
        forall|j: int| 0 <= j < at ==> (#[trigger] before[j]).1 + 1 < n,
        forall|j: int| at <= j < before.len() ==> n + 1 < (#[trigger] before[j]).0,
        after == before.insert(at, (n, n)),
    ensures
        are_runs(after),
        forall|m: u64| #[trigger] in_ranges(after, m) == (in_ranges(before, m) || m == n),
{
    assert forall|j: int| 0 <= j < after.len() implies #[trigger] after[j] == (if j < at {
        before[j]
    } else if j == at {
        (n, n)
    } else {
        before[j - 1]
    }) by {}
    assert forall|m: u64| #[trigger] in_ranges(after, m) == (in_ranges(before, m) || m == n) by {
        if in_ranges(after, m) {
            let j = choose|j: int|
                0 <= j < after.len() && (#[trigger] after[j]).0 <= m <= after[j].1;
            if j != at {
                let k = if j < at {
                    j
                } else {
                    j - 1
                };
                assert(before[k] == after[j]);
            }
        }
        if in_ranges(before, m) {
            let j = choose|j: int|
                0 <= j < before.len() && (#[trigger] before[j]).0 <= m <= before[j].1;
            let k = if j < at {
                j
            } else {
                j + 1
            };
            assert(after[k].0 <= m <= after[k].1);
        }
        if m == n {
            assert(after[at].0 <= m <= after[at].1);
        }
    }
    assert forall|i: int, j: int| 0 <= i < j < after.len() implies (#[trigger] after[i]).1 + 1 < (
    #[trigger] after[j]).0 by {
        if i != at && j != at {
            let bi = if i < at {
                i
            } else {
                i - 1
            };
            let bj = if j < at {
                j
            } else {
                j - 1
            };
            assert(before[bi].1 + 1 < before[bj].0);
        }
    }
}

/// Read an acknowledgement frame: the largest number, the delay in
/// microseconds and the inclusive ranges.
pub fn parse_ack_frame(frame: &[u8]) -> (r: Option<(u64, u64, Vec<(u64, u64)>)>)
    ensures
        match r {
            Some((largest, delay_us, ranges)) => parsed_ack(frame@) == Some(
                (AckFields { largest, delay_us, ranges: ranges@ }),
            ),
            None => parsed_ack(frame@) is None,
        },
{
    if frame.len() < 18 {
        return None;
    }
    let count: usize = u16_le_at(frame, 16) as usize;
    let total: usize = frame.len();
    if total < 18 + 16 * count {
        return None;
    }
    let largest: u64 = u64_le_at(frame, 0);
    let delay_us: u64 = u64_le_at(frame, 8);
    let mut ranges: Vec<(u64, u64)> = Vec::new();
    let ghost whole = parsed_ack(frame@)->0.ranges;
    for i in 0..count
        invariant
            total == frame@.len(),
            total >= 18 + 16 * count,
            count <= 0xFFFF,
            whole.len() == count,
            parsed_ack(frame@) is Some,
            whole == parsed_ack(frame@)->0.ranges,
            ranges@.len() == i,
            forall|j: int| 0 <= j < i ==> ranges@[j] == whole[j],
    {
        let start: u64 = u64_le_at(frame, 18 + 16 * i);
        let end: u64 = u64_le_at(frame, 26 + 16 * i);
        ranges.push((start, end));
    }
    assert(ranges@ =~= whole);
    Some((largest, delay_us, ranges))
}

proof fn range_bytes_at(ranges: Seq<(u64, u64)>, i: int)
    requires
        0 <= i < ranges.len(),
    ensures
        range_bytes(ranges).len() == 16 * ranges.len(),
        range_bytes(ranges).subrange(16 * i, 16 * i + 8) == le_bytes(ranges[i].0 as nat, 8),
        range_bytes(ranges).subrange(16 * i + 8, 16 * i + 16) == le_bytes(ranges[i].1 as nat, 8),
    decreases ranges.len(),
{
    range_bytes_len(ranges.drop_last());
    range_bytes_len(ranges);
    le_bytes_len(ranges.last().0 as nat, 8);
    le_bytes_len(ranges.last().1 as nat, 8);
    let all = range_bytes(ranges);
    let front = range_bytes(ranges.drop_last());
    if i < ranges.len() - 1 {
        range_bytes_at(ranges.drop_last(), i);
        assert(all.subrange(16 * i, 16 * i + 8) =~= front.subrange(16 * i, 16 * i + 8));
        assert(all.subrange(16 * i + 8, 16 * i + 16) =~= front.subrange(16 * i + 8, 16 * i + 16));
    } else {
        assert(all.subrange(16 * i, 16 * i + 8) =~= le_bytes(ranges[i].0 as nat, 8));
        assert(all.subrange(16 * i + 8, 16 * i + 16) =~= le_bytes(ranges[i].1 as nat, 8));
    }
}

proof fn range_bytes_len(ranges: Seq<(u64, u64)>)
    ensures
        range_bytes(ranges).len() == 16 * ranges.len(),
    decreases ranges.len(),
{
    if ranges.len() > 0 {
        range_bytes_len(ranges.drop_last());
        le_bytes_len(ranges.last().0 as nat, 8);
        le_bytes_len(ranges.last().1 as nat, 8);
    }
}

/// Reading a frame gives back what it was built from.
pub proof fn ack_frame_round_trip(largest: u64, delay_us: u64, ranges: Seq<(u64, u64)>)
    requires
        ranges.len() <= 0xFFFF,
    ensures
        parsed_ack(ack_frame(largest, delay_us, ranges)) == Some(
            (AckFields { largest, delay_us, ranges }),
        ),
{
    let frame = ack_frame(largest, delay_us, ranges);
    let body = range_bytes(ranges);
    pow256_values();
    le_bytes_len(largest as nat, 8);
    le_bytes_len(delay_us as nat, 8);
    le_bytes_len(ranges.len(), 2);
    le_round_trip(largest as nat, 8);
    le_round_trip(delay_us as nat, 8);
    le_round_trip(ranges.len(), 2);
    range_bytes_len(ranges);
    assert(frame.subrange(0, 8) =~= le_bytes(largest as nat, 8));
    assert(frame.subrange(8, 16) =~= le_bytes(delay_us as nat, 8));
    assert(frame.subrange(16, 18) =~= le_bytes(ranges.len(), 2));
    let fields = parsed_ack(frame)->0;
    assert forall|i: int| 0 <= i < ranges.len() implies fields.ranges[i] == ranges[i] by {
        range_bytes_at(ranges, i);
        le_round_trip(ranges[i].0 as nat, 8);
        le_round_trip(ranges[i].1 as nat, 8);
        assert(frame.subrange(18 + 16 * i, 26 + 16 * i) =~= body.subrange(16 * i, 16 * i + 8));
        assert(frame.subrange(26 + 16 * i, 34 + 16 * i) =~= body.subrange(16 * i + 8, 16 * i + 16));
    }
    assert(fields.ranges =~= ranges);
}

/// A frame acknowledges only packets that were received.
pub proof fn frame_lists_received(s: AckState, n: u64)
    requires
        s.wf(),
        in_ranges(parsed_ack(s.frame())->0.ranges, n),
    ensures
        s.has(n),
{
    ack_frame_round_trip(s.largest(), 0, top_ranges(s.ranges));
    let listed = top_ranges(s.ranges);
    let i = choose|i: int| 0 <= i < listed.len() && (#[trigger] listed[i]).0 <= n <= listed[i].1;
    let k = i + (s.ranges.len() - listed.len());
    assert(s.ranges[k] == listed[i]);
}

/// Every received packet is acknowledged, as long as the ranges fit into one
/// frame; the packets of the highest ranges are in any case.
pub proof fn received_is_listed(s: AckState, n: u64)
    requires
        s.wf(),
        s.has(n),
    ensures
        s.ranges.len() <= MAX_ACK_RANGES ==> in_ranges(parsed_ack(s.frame())->0.ranges, n),
        n >= top_ranges(s.ranges)[0].0 ==> in_ranges(parsed_ack(s.frame())->0.ranges, n),
{
    ack_frame_round_trip(s.largest(), 0, top_ranges(s.ranges));
    let listed = top_ranges(s.ranges);
    let i = choose|i: int|
        0 <= i < s.ranges.len() && (#[trigger] s.ranges[i]).0 <= n <= s.ranges[i].1;
    let k = i - (s.ranges.len() - listed.len());
    if k >= 0 {
        assert(listed[k] == s.ranges[i]);
    } else {
        // A range below the listed ones lies below the first of them.
        assert(s.ranges[i].1 + 1 < s.ranges[s.ranges.len() - listed.len()].0);
    }
}

} // verus!
