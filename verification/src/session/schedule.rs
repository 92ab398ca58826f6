//! In which order the streams' data goes out.

use crate::buffers::bytes_slice;
use crate::crypto::format::PACKET_OVERHEAD;
use crate::session::frame::{
    build_stream_frame, frame_round_trip, parsed_frame, stream_frame, stream_frame_len,
    FRAME_HEADER,
};
use crate::session::stream::{chunk_is_written_data, SendState, Stream, StreamState};
use vstd::prelude::*;

verus! {

/// Most data bytes in one frame.
pub const MAX_CHUNK: usize = 1386;

/// The frame that the stream sends next: its next data, then its end.
pub open spec fn next_frame(id: u32, send: SendState) -> Option<Seq<u8>> {
    if send.unsent.len() > 0 {
        let (offset, data) = send.chunk(MAX_CHUNK as nat);
        Some(stream_frame(id, offset, false, data))
    } else if send.fin_due() {
        Some(stream_frame(id, send.offset, true, Seq::empty()))
    } else {
        None
    }
}

/// The stream once that frame is taken.
pub open spec fn after_frame(send: SendState) -> SendState {
    if send.unsent.len() > 0 {
        send.after_chunk(MAX_CHUNK as nat)
    } else if send.fin_due() {
        SendState { fin_flushed: true, ..send }
    } else {
        send
    }
}

/// The stream after `k` frames were taken.
pub open spec fn after_frames(send: SendState, k: nat) -> SendState
    decreases k,
{
    if k == 0 {
        send
    } else {
        after_frame(after_frames(send, (k - 1) as nat))
    }
}

/// All frames that the stream has to send.
pub open spec fn all_frames(id: u32, send: SendState) -> Seq<Seq<u8>>
    decreases
            send.unsent.len() + (if send.fin_flushed {
                0nat
            } else {
                1nat
            }),
{
    match next_frame(id, send) {
        Some(frame) => seq![frame] + all_frames(id, after_frame(send)),
        None => Seq::empty(),
    }
}

/// The stream with nothing left to send.
pub open spec fn drained(s: StreamState) -> StreamState {
    StreamState {
        send: SendState {
            unsent: Seq::empty(),
            fin_flushed: s.send.fin_flushed || s.send.finished,
            ..s.send
        },
        ..s
    }
}

/// How many frames the streams have to send.
pub open spec fn frame_count(streams: Seq<StreamState>) -> nat
    decreases streams.len(),
{
    if streams.len() == 0 {
        0
    } else {
        frame_count(streams.drop_last()) + all_frames(
            streams.last().id,
            streams.last().send,
        ).len()
    }
}

/// A frame of a schedule: the place of its stream, and its place among the
/// stream's frames.
pub struct Slot {
    pub stream: int,
    pub frame: int,
}

impl Slot {
    /// The stream has such a frame.
    pub open spec fn exists_in(self, streams: Seq<StreamState>) -> bool {
        &&& 0 <= self.stream < streams.len()
        &&& 0 <= self.frame < all_frames(
            streams[self.stream].id,
            streams[self.stream].send,
        ).len()
    }

    /// The frame.
    pub open spec fn frame_in(self, streams: Seq<StreamState>) -> Seq<u8> {
        all_frames(streams[self.stream].id, streams[self.stream].send)[self.frame]
    }

    /// This frame goes out before the other: its stream has the higher
    /// priority; at the same priority streams take turns, the stream that was
    /// opened first going first.
    pub open spec fn precedes(self, other: Slot, streams: Seq<StreamState>) -> bool {
        let mine = streams[self.stream].priority;
        let theirs = streams[other.stream].priority;
        mine < theirs || (mine == theirs && (self.frame < other.frame || (self.frame == other.frame
            && self.stream < other.stream)))
    }
}

/// The schedule holds frames of the streams in the order in which they go out,
/// and skips none: every frame that it does not hold comes after all that it
/// holds.
pub open spec fn is_schedule(order: Seq<Slot>, streams: Seq<StreamState>) -> bool {
    &&& forall|a: int| 0 <= a < order.len() ==> (#[trigger] order[a]).exists_in(streams)
    &&& forall|slot: Slot| #[trigger]
        slot.exists_in(streams) ==> order.contains(slot) || comes_after(order, slot, streams)
    &&& forall|a: int, b: int|
        0 <= a < b < order.len() ==> (#[trigger] order[a]).precedes(#[trigger] order[b], streams)
}

/// The frame comes after all that the schedule holds.
pub open spec fn comes_after(order: Seq<Slot>, slot: Slot, streams: Seq<StreamState>) -> bool {
    forall|a: int| 0 <= a < order.len() ==> (#[trigger] order[a]).precedes(slot, streams)
}

/// How many frames of the schedule are of the stream at place `j`.
pub open spec fn taken(order: Seq<Slot>, j: int) -> nat
    decreases order.len(),
{
    if order.len() == 0 {
        0
    } else {
        taken(order.drop_last(), j) + (if order.last().stream == j {
            1nat
        } else {
            0nat
        })
    }
}

/// The streams once the frames of the schedule are taken.
pub open spec fn taken_out(streams: Seq<StreamState>, order: Seq<Slot>) -> Seq<StreamState> {
    Seq::new(
        streams.len(),
        |j: int|
            StreamState {
                send: after_frames(streams[j].send, taken(order, j)),
                ..streams[j]
            },
    )
}

/// The scheduled frames.
pub open spec fn scheduled(order: Seq<Slot>, streams: Seq<StreamState>) -> Seq<Seq<u8>> {
    Seq::new(order.len(), |a: int| order[a].frame_in(streams))
}

/// Bytes of the packet that carries a frame or a datagram.
pub open spec fn cost(payload: Seq<u8>) -> nat {
    payload.len() + PACKET_OVERHEAD as nat
}

/// Bytes of the packets that carry these.
pub open spec fn load(payloads: Seq<Seq<u8>>) -> nat
    decreases payloads.len(),
{
    if payloads.len() == 0 {
        0
    } else {
        load(payloads.drop_last()) + cost(payloads.last())
    }
}

/// The packets that carry these have no more bytes than the budget, if there is one.
pub open spec fn fits_budget(payloads: Seq<Seq<u8>>, budget: Option<u64>) -> bool {
    budget matches Some(most) ==> load(payloads) <= most
}

/// The schedule goes as far as it may: it holds no more than `most` frames, which
/// fit into the budget, and with the frame that comes next it would not.
pub open spec fn is_longest(
    order: Seq<Slot>,
    streams: Seq<StreamState>,
    most: nat,
    budget: Option<u64>,
) -> bool {
    &&& is_schedule(order, streams)
    &&& order.len() <= most
    &&& fits_budget(scheduled(order, streams), budget)
    &&& forall|slot: Slot| #[trigger]
        is_schedule(order.push(slot), streams) ==> order.len() >= most || !fits_budget(
            scheduled(order.push(slot), streams),
            budget,
        )
}

/// One more frame adds the bytes of its packet.
pub proof fn load_with(order: Seq<Slot>, slot: Slot, streams: Seq<StreamState>)
    ensures
        load(scheduled(order.push(slot), streams)) == load(scheduled(order, streams)) + cost(
            slot.frame_in(streams),
        ),
{
    let more = scheduled(order.push(slot), streams);
    assert(more.drop_last() =~= scheduled(order, streams));
}

/// Only one frame comes next.
proof fn one_comes_next(order: Seq<Slot>, one: Slot, two: Slot, streams: Seq<StreamState>)
    requires
        is_schedule(order.push(one), streams),
        is_schedule(order.push(two), streams),
    ensures
        one == two,
{
    let with_one = order.push(one);
    let with_two = order.push(two);
    let n = order.len() as int;
    assert(with_one[n].exists_in(streams) && with_two[n].exists_in(streams));
    if one != two {
        assert(!with_one.contains(two)) by {
            if with_one.contains(two) {
                let a = with_one.index_of(two);
                assert(with_two[a].precedes(with_two[n], streams));
            }
        }
        assert(!with_two.contains(one)) by {
            if with_two.contains(one) {
                let a = with_two.index_of(one);
                assert(with_one[a].precedes(with_one[n], streams));
            }
        }
        assert(with_one[n].precedes(two, streams));
        assert(with_two[n].precedes(one, streams));
    }
}

/// Taking frames one by one yields all of them in turn: whatever portion a
/// flush takes, the frames that are left are the others.
pub proof fn frames_after(id: u32, send: SendState, k: nat)
    ensures
        k <= all_frames(id, send).len() ==> all_frames(id, after_frames(send, k)) == all_frames(
            id,
            send,
        ).skip(k as int),
        k < all_frames(id, send).len() ==> next_frame(id, after_frames(send, k)) == Some(
            all_frames(id, send)[k as int],
        ),
        k >= all_frames(id, send).len() ==> next_frame(id, after_frames(send, k)) is None,
        k > all_frames(id, send).len() ==> after_frames(send, k) == after_frames(
            send,
            (k - 1) as nat,
        ),
    decreases k,
{
    if k == 0 {
        assert(all_frames(id, send).skip(0) =~= all_frames(id, send));
    } else {
        frames_after(id, send, (k - 1) as nat);
        let before = after_frames(send, (k - 1) as nat);
        if k <= all_frames(id, send).len() {
            assert(all_frames(id, after_frame(before)) =~= all_frames(id, before).skip(1));
            assert(all_frames(id, send).skip(k - 1).skip(1) =~= all_frames(id, send).skip(k as int));
        }
    }
    if k < all_frames(id, send).len() {
        assert(all_frames(id, after_frames(send, k))[0] == all_frames(id, send)[k as int]);
    }
}

/// What frames leave alone.
proof fn after_frames_keep(send: SendState, k: nat)
    requires
        send.wf(),
    ensures
        after_frames(send, k).wf(),
        after_frames(send, k) == (SendState {
            unsent: after_frames(send, k).unsent,
            fin_flushed: after_frames(send, k).fin_flushed,
            ..send
        }),
        after_frames(send, k).fin_flushed ==> send.fin_flushed || send.finished,
        send.fin_flushed ==> after_frames(send, k).fin_flushed,
    decreases k,
{
    if k > 0 {
        after_frames_keep(send, (k - 1) as nat);
    }
}

/// A stream that has no frame left after `k` of them has nothing left to send.
pub proof fn frames_drain(s: StreamState, k: nat)
    requires
        s.send.wf(),
        all_frames(s.id, after_frames(s.send, k)).len() == 0,
    ensures
        after_frames(s.send, k) == drained(s).send,
{
    frames_after(s.id, s.send, k);
    after_frames_keep(s.send, k);
    assert(after_frames(s.send, k).unsent =~= Seq::empty());
}

/// Take the stream's next frame.
fn take_frame(s: &mut Stream) -> (r: Option<Vec<u8>>)
    requires
        old(s)@.wf(),
    ensures
        final(s)@.wf(),
        final(s)@ == (StreamState { send: after_frame(old(s)@.send), ..old(s)@ }),
        match r {
            Some(frame) => next_frame(old(s)@.id, old(s)@.send) == Some(frame@) && frame@.len()
                <= MAX_CHUNK + 16,
            None => next_frame(old(s)@.id, old(s)@.send) is None,
        },
{
    let id: u32 = s.id();
    if let Some((offset, chunk)) = s.poll_send(MAX_CHUNK) {
        return Some(build_stream_frame(id, offset, false, bytes_slice(&chunk)));
    }
    if s.should_send_fin() {
        s.mark_fin_flushed();
        let none: [u8; 0] = [];
        assert(none@ =~= Seq::<u8>::empty());
        return Some(build_stream_frame(id, s.send_offset(), true, none.as_slice()));
    }
    None
}

/// How long the stream's next frame is.
fn next_frame_len(s: &Stream) -> (r: Option<usize>)
    requires
        s@.wf(),
    ensures
        match r {
            Some(len) => next_frame(s@.id, s@.send) matches Some(frame) && frame.len() == len
                <= MAX_CHUNK + 16,
            None => next_frame(s@.id, s@.send) is None,
        },
{
    let unsent: usize = s.unsent_len();
    proof {
        let (offset, data) = s@.send.chunk(MAX_CHUNK as nat);
        stream_frame_len(s@.id, offset, false, data);
        stream_frame_len(s@.id, s@.send.offset, true, Seq::empty());
    }
    if unsent > MAX_CHUNK {
        Some(FRAME_HEADER + MAX_CHUNK)
    } else if unsent > 0 {
        Some(FRAME_HEADER + unsent)
    } else if s.should_send_fin() {
        Some(FRAME_HEADER)
    } else {
        None
    }
}

/// How many frames of a stream have gone out when the turn is at place `i` of
/// round `r` of priority `p`.
spec fn gone(streams: Seq<StreamState>, p: int, r: int, i: int, j: int) -> nat {
    let total = all_frames(streams[j].id, streams[j].send).len();
    let turns = if j < i {
        r + 1
    } else {
        r
    };
    if streams[j].priority < p {
        total
    } else if streams[j].priority > p {
        0
    } else if turns < total {
        turns as nat
    } else {
        total
    }
}

/// The streams once those frames have gone out.
spec fn at_turn(
    now: Seq<Stream>,
    streams: Seq<StreamState>,
    p: int,
    r: int,
    i: int,
) -> bool {
    &&& now.len() == streams.len()
    &&& forall|j: int|
        0 <= j < streams.len() ==> (#[trigger] now[j])@ == (StreamState {
            send: after_frames(streams[j].send, gone(streams, p, r, i, j)),
            ..streams[j]
        })
}

/// The schedule up to that turn.
spec fn scheduled_to(
    order: Seq<Slot>,
    streams: Seq<StreamState>,
    p: int,
    r: int,
    i: int,
) -> bool {
    &&& forall|a: int| #![trigger order[a]]
        0 <= a < order.len() ==> order[a].exists_in(streams) && order[a].frame < gone(
            streams,
            p,
            r,
            i,
            order[a].stream,
        )
    &&& forall|slot: Slot| #[trigger]
        slot.exists_in(streams) && slot.frame < gone(streams, p, r, i, slot.stream)
            ==> order.contains(slot)
    &&& forall|a: int, b: int|
        0 <= a < b < order.len() ==> (#[trigger] order[a]).precedes(#[trigger] order[b], streams)
    &&& forall|j: int|
        0 <= j < streams.len() ==> gone(streams, p, r, i, j) == #[trigger] taken(order, j)
}

/// At any turn, what has gone out is the start of the schedule.
proof fn turn_is_schedule(order: Seq<Slot>, streams: Seq<StreamState>, p: int, r: int, i: int)
    requires
        r >= 0,
        scheduled_to(order, streams, p, r, i),
    ensures
        is_schedule(order, streams),
{
    assert forall|slot: Slot| #[trigger] slot.exists_in(streams) implies order.contains(slot)
        || comes_after(order, slot, streams) by {
        if !order.contains(slot) {
            assert forall|a: int| 0 <= a < order.len() implies (#[trigger] order[a]).precedes(
                slot,
                streams,
            ) by {
                assert(order[a].exists_in(streams));
                assert(order[a].frame < gone(streams, p, r, i, order[a].stream));
                assert(slot.frame >= gone(streams, p, r, i, slot.stream));
            }
        }
    }
}

/// At any turn, the streams are without what has gone out.
proof fn stop_at_turn(
    order: Seq<Slot>,
    streams: Seq<StreamState>,
    now: Seq<Stream>,
    p: int,
    r: int,
    i: int,
)
    requires
        r >= 0,
        at_turn(now, streams, p, r, i),
        scheduled_to(order, streams, p, r, i),
    ensures
        is_schedule(order, streams),
        views(now) == taken_out(streams, order),
{
    turn_is_schedule(order, streams, p, r, i);
    assert forall|j: int| 0 <= j < streams.len() implies #[trigger] views(now)[j] == taken_out(
        streams,
        order,
    )[j] by {
        assert(gone(streams, p, r, i, j) == taken(order, j));
        assert(now[j]@ == views(now)[j]);
    }
    assert(views(now) =~= taken_out(streams, order));
}

/// The frames taken so far are those of the schedule.
pub open spec fn holds(out: Seq<Vec<u8>>, order: Seq<Slot>, streams: Seq<StreamState>) -> bool {
    &&& out.len() == order.len()
    &&& forall|a: int| #![trigger out[a]]
        0 <= a < out.len() ==> out[a]@ == order[a].frame_in(streams) && out[a]@.len() <= MAX_CHUNK
            + 16
}

/// Changing one stream changes the number of frames by its own.
proof fn frame_count_update(streams: Seq<StreamState>, i: int, s: StreamState)
    requires
        0 <= i < streams.len(),
    ensures
        frame_count(streams.update(i, s)) + all_frames(streams[i].id, streams[i].send).len()
            == frame_count(streams) + all_frames(s.id, s.send).len(),
    decreases streams.len(),
{
    let after = streams.update(i, s);
    if i == streams.len() - 1 {
        assert(after.drop_last() =~= streams.drop_last());
    } else {
        assert(after.drop_last() =~= streams.drop_last().update(i, s));
        frame_count_update(streams.drop_last(), i, s);
    }
}

/// Streams without frames have none in total, and the other way round.
pub proof fn frame_count_zero(streams: Seq<StreamState>)
    ensures
        (frame_count(streams) == 0) == (forall|j: int|
            0 <= j < streams.len() ==> all_frames(
                (#[trigger] streams[j]).id,
                streams[j].send,
            ).len() == 0),
    decreases streams.len(),
{
    if streams.len() > 0 {
        frame_count_zero(streams.drop_last());
        if frame_count(streams) == 0 {
            assert forall|j: int| 0 <= j < streams.len() implies all_frames(
                (#[trigger] streams[j]).id,
                streams[j].send,
            ).len() == 0 by {
                if j < streams.len() - 1 {
                    assert(streams.drop_last()[j] == streams[j]);
                }
            }
        } else if frame_count(streams.drop_last()) > 0 {
            let j = choose|j: int|
                0 <= j < streams.len() - 1 && all_frames(
                    (#[trigger] streams.drop_last()[j]).id,
                    streams.drop_last()[j].send,
                ).len() != 0;
            assert(streams[j] == streams.drop_last()[j]);
        }
    }
}

/// What the streams stand for, in order.
pub open spec fn views(streams: Seq<Stream>) -> Seq<StreamState> {
    streams.map_values(|s: Stream| s@)
}

/// The frame of a stream whose turn it is comes next.
proof fn slot_scheduled(order: Seq<Slot>, streams: Seq<StreamState>, p: int, r: int, i: int)
    requires
        0 <= i < streams.len(),
        streams[i].priority == p,
        0 <= r < all_frames(streams[i].id, streams[i].send).len(),
        scheduled_to(order, streams, p, r, i),
    ensures
        scheduled_to(order.push(Slot { stream: i, frame: r }), streams, p, r, i + 1),
{
    let slot = Slot { stream: i, frame: r };
    let next = order.push(slot);
    assert(slot.exists_in(streams));
    assert(next.drop_last() =~= order);
    assert forall|j: int| 0 <= j < streams.len() implies gone(streams, p, r, i + 1, j)
        == #[trigger] taken(next, j) by {
        assert(gone(streams, p, r, i, j) == taken(order, j));
    }
    assert forall|t: Slot| #[trigger]
        t.exists_in(streams) && t.frame < gone(
            streams,
            p,
            r,
            i + 1,
            t.stream,
        ) implies next.contains(t) by {
        if t.stream == i && t.frame == r {
            assert(t == slot);
            assert(next[order.len() as int] == t);
        } else {
            assert(t.frame < gone(streams, p, r, i, t.stream));
            let a = order.index_of(t);
            assert(order.contains(t));
            assert(next[a] == t);
        }
    }
    assert forall|a: int, b: int| 0 <= a < b < next.len() implies (#[trigger] next[a]).precedes(
        #[trigger] next[b],
        streams,
    ) by {
        if b == order.len() {
            assert(order[a].exists_in(streams));
            assert(order[a].frame < gone(streams, p, r, i, order[a].stream));
        } else {
            assert(order[a].precedes(order[b], streams));
        }
    }
}

/// One stream's turn at place `i` of round `r` of priority `p`.
proof fn turn_taken(
    order: Seq<Slot>,
    streams: Seq<StreamState>,
    before: Seq<Stream>,
    after: Seq<Stream>,
    p: int,
    r: int,
    i: int,
) -> (next: Seq<Slot>)
    requires
        0 <= i < streams.len(),
        streams[i].priority == p,
        r >= 0,
        at_turn(before, streams, p, r, i),
        scheduled_to(order, streams, p, r, i),
        after.len() == before.len(),
        forall|j: int| 0 <= j < before.len() && j != i ==> #[trigger] after[j] == before[j],
        after[i]@ == (StreamState { send: after_frame(before[i]@.send), ..before[i]@ }),
    ensures
        at_turn(after, streams, p, r, i + 1),
        scheduled_to(next, streams, p, r, i + 1),
        match next_frame(before[i]@.id, before[i]@.send) {
            Some(frame) => {
                &&& next == order.push(Slot { stream: i, frame: r })
                &&& frame == Slot { stream: i, frame: r }.frame_in(streams)
                &&& frame_count(views(after)) + 1 == frame_count(views(before))
            },
            None => {
                &&& next == order
                &&& r >= all_frames(streams[i].id, streams[i].send).len()
                &&& frame_count(views(after)) == frame_count(views(before))
            },
        },
{
    let s = streams[i];
    let total = all_frames(s.id, s.send).len();
    let k = gone(streams, p, r, i, i);
    frames_after(s.id, s.send, k);
    frames_after(s.id, s.send, k + 1);
    assert(views(after) =~= views(before).update(i, after[i]@));
    frame_count_update(views(before), i, after[i]@);
    if r < total {
        let slot = Slot { stream: i, frame: r };
        let next = order.push(slot);
        slot_scheduled(order, streams, p, r, i);
        assert(all_frames(s.id, after[i]@.send).len() + 1 == all_frames(
            s.id,
            before[i]@.send,
        ).len());
        next
    } else {
        assert forall|j: int| 0 <= j < streams.len() implies gone(streams, p, r, i + 1, j)
            == #[trigger] taken(order, j) by {
            assert(gone(streams, p, r, i, j) == taken(order, j));
        }
        order
    }
}

/// Priorities that no stream has take no turn.
proof fn skip_priorities(
    streams: Seq<StreamState>,
    now: Seq<Stream>,
    order: Seq<Slot>,
    lo: int,
    hi: int,
)
    requires
        lo <= hi,
        at_turn(now, streams, lo, 0, 0),
        scheduled_to(order, streams, lo, 0, 0),
        forall|j: int|
            0 <= j < streams.len() ==> (#[trigger] now[j])@.priority < lo || now[j]@.priority >= hi,
    ensures
        at_turn(now, streams, hi, 0, 0),
        scheduled_to(order, streams, hi, 0, 0),
{
    assert forall|j: int| 0 <= j < streams.len() implies #[trigger] gone(streams, lo, 0, 0, j)
        == gone(streams, hi, 0, 0, j) by {
        assert(now[j]@.priority == streams[j].priority);
    }
}

/// The least priority from `lo` on that a stream has.
fn next_priority(streams: &Vec<Stream>, lo: u16) -> (r: Option<u8>)
    ensures
        match r {
            Some(p) => {
                &&& lo <= p
                &&& exists|j: int| 0 <= j < streams@.len() && (#[trigger] streams@[j])@.priority == p
                &&& forall|j: int|
                    0 <= j < streams@.len() && (#[trigger] streams@[j])@.priority >= lo
                        ==> streams@[j]@.priority >= p
            },
            None => forall|j: int|
                0 <= j < streams@.len() ==> (#[trigger] streams@[j])@.priority < lo,
        },
{
    let mut best: Option<u8> = None;
    let n: usize = streams.len();
    for i in 0..n
        invariant
            n == streams@.len(),
            match best {
                Some(p) => {
                    &&& lo <= p
                    &&& exists|j: int|
                        0 <= j < i && (#[trigger] streams@[j])@.priority == p
                    &&& forall|j: int|
                        0 <= j < i && (#[trigger] streams@[j])@.priority >= lo
                            ==> streams@[j]@.priority >= p
                },
                None => forall|j: int| 0 <= j < i ==> (#[trigger] streams@[j])@.priority < lo,
            },
    {
        let p: u8 = streams[i].priority();
        if p as u16 >= lo {
            best = match best {
                Some(q) => if p < q {
                    Some(p)
                } else {
                    Some(q)
                },
                None => Some(p),
            };
        }
    }
    best
}

/// What is left of the budget.
pub open spec fn is_left(budget: Option<u64>, left: Option<u64>, used: nat) -> bool {
    match (budget, left) {
        (Some(all), Some(rest)) => rest + used == all,
        (None, None) => true,
        _ => false,
    }
}

/// Take the streams' frames in the order in which they go out: all of them, or
/// no more than `most` that fit into the budget; and what is left of the budget.
pub fn drain_streams(streams: &mut Vec<Stream>, most: usize, budget: Option<u64>) -> (r: (
    Vec<Vec<u8>>,
    Option<u64>,
))
    requires
        forall|j: int| 0 <= j < old(streams)@.len() ==> (#[trigger] old(streams)@[j])@.wf(),
    ensures
        final(streams)@.len() == old(streams)@.len(),
        forall|j: int| 0 <= j < old(streams)@.len() ==> (#[trigger] final(streams)@[j])@.wf(),
        r.0@.len() <= most,
        r.0@.len() < most && budget is None ==> frame_count(views(final(streams)@)) == 0,
        r.0@.len() + frame_count(views(final(streams)@)) == frame_count(views(old(streams)@)),
        exists|order: Seq<Slot>| #[trigger]
            is_longest(order, views(old(streams)@), most as nat, budget) && holds(
                r.0@,
                order,
                views(old(streams)@),
            ) && views(final(streams)@) == taken_out(views(old(streams)@), order) && is_left(
                budget,
                r.1,
                load(scheduled(order, views(old(streams)@))),
            ),
{
    let ghost before = views(streams@);
    let ghost mut order: Seq<Slot> = Seq::empty();
    let mut out: Vec<Vec<u8>> = Vec::new();
    let mut left: Option<u64> = budget;
    let n: usize = streams.len();
    let mut lo: u16 = 0;
    proof {
        assert(views(streams@) =~= before);
        assert(scheduled(order, before) =~= Seq::empty());
        assert forall|j: int| 0 <= j < n implies (#[trigger] streams@[j])@ == (StreamState {
            send: after_frames(before[j].send, gone(before, 0, 0, 0, j)),
            ..before[j]
        }) by {}
    }
    loop
        invariant
            n == streams@.len() == before.len(),
            before == views(old(streams)@),
            out@.len() <= most,
            forall|j: int| 0 <= j < n ==> (#[trigger] before[j]).wf(),
            forall|j: int| 0 <= j < n ==> (#[trigger] streams@[j])@.wf(),
            0 <= lo <= 256,
            at_turn(streams@, before, lo as int, 0, 0),
            scheduled_to(order, before, lo as int, 0, 0),
            holds(out@, order, before),
            is_left(budget, left, load(scheduled(order, before))),
            out@.len() + frame_count(views(streams@)) == frame_count(before),
        ensures
            at_turn(streams@, before, 256, 0, 0),
            scheduled_to(order, before, 256, 0, 0),
        decreases 256 - lo,
    {
        let p: u8 = match next_priority(streams, lo) {
            Some(p) => p,
            None => {
                proof {
                    skip_priorities(before, streams@, order, lo as int, 256);
                }
                break;
            },
        };
        proof {
            skip_priorities(before, streams@, order, lo as int, p as int);
        }
        let mut more: bool = true;
        let ghost mut r: int = 0;
        while more
            invariant
                n == streams@.len() == before.len(),
                before == views(old(streams)@),
                out@.len() <= most,
                forall|j: int| 0 <= j < n ==> (#[trigger] before[j]).wf(),
                forall|j: int| 0 <= j < n ==> (#[trigger] streams@[j])@.wf(),
                r >= 0,
                at_turn(streams@, before, p as int, r, 0),
                scheduled_to(order, before, p as int, r, 0),
                holds(out@, order, before),
                is_left(budget, left, load(scheduled(order, before))),
                out@.len() + frame_count(views(streams@)) == frame_count(before),
                !more ==> forall|j: int|
                    0 <= j < n && (#[trigger] before[j]).priority == p ==> r >= all_frames(
                        before[j].id,
                        before[j].send,
                    ).len(),
            decreases (if more { 1 + frame_count(views(streams@)) } else { 0 }),
        {
            more = false;
            let ghost count = frame_count(views(streams@));
            for i in 0..n
                invariant
                    n == streams@.len() == before.len(),
                    before == views(old(streams)@),
                    out@.len() <= most,
                    forall|j: int| 0 <= j < n ==> (#[trigger] before[j]).wf(),
                    forall|j: int| 0 <= j < n ==> (#[trigger] streams@[j])@.wf(),
                    r >= 0,
                    at_turn(streams@, before, p as int, r, i as int),
                    scheduled_to(order, before, p as int, r, i as int),
                    holds(out@, order, before),
                    is_left(budget, left, load(scheduled(order, before))),
                    out@.len() + frame_count(views(streams@)) == frame_count(before),
                    more ==> frame_count(views(streams@)) < count,
                    !more ==> forall|j: int|
                        0 <= j < i && (#[trigger] before[j]).priority == p ==> r >= all_frames(
                            before[j].id,
                            before[j].send,
                        ).len(),
                    frame_count(views(streams@)) <= count,
            {
                let ghost streams_before = streams@;
                assert(streams@[i as int]@.priority == before[i as int].priority);
                if streams[i].priority() == p {
                    if out.len() == most {
                        proof {
                            stop_at_turn(order, before, streams@, p as int, r, i as int);
                            assert(is_longest(order, before, most as nat, budget));
                        }
                        return (out, left);
                    }
                    let ghost slot = Slot { stream: i as int, frame: r };
                    proof {
                        let s = before[i as int];
                        let total = all_frames(s.id, s.send).len();
                        frames_after(s.id, s.send, gone(before, p as int, r, i as int, i as int));
                        if r < total {
                            slot_scheduled(order, before, p as int, r, i as int);
                            turn_is_schedule(order.push(slot), before, p as int, r, i + 1);
                            load_with(order, slot, before);
                        }
                    }
                    if let Some(rest) = left {
                        if let Some(len) = next_frame_len(&streams[i]) {
                            let bytes: u64 = len as u64 + PACKET_OVERHEAD as u64;
                            if bytes > rest {
                                proof {
                                    stop_at_turn(order, before, streams@, p as int, r, i as int);
                                    assert forall|next: Slot| #[trigger]
                                        is_schedule(order.push(next), before) implies !fits_budget(
                                        scheduled(order.push(next), before),
                                        budget,
                                    ) by {
                                        one_comes_next(order, slot, next, before);
                                    }
                                    assert(is_longest(order, before, most as nat, budget));
                                }
                                return (out, left);
                            }
                            left = Some(rest - bytes);
                        }
                    }
                    let frame = take_frame(&mut streams[i]);
                    proof {
                        order = turn_taken(
                            order,
                            before,
                            streams_before,
                            streams@,
                            p as int,
                            r,
                            i as int,
                        );
                    }
                    if let Some(frame) = frame {
                        out.push(frame);
                        more = true;
                    }
                }
            }
            proof {
                r = r + 1;
            }
        }
        proof {
            assert(at_turn(streams@, before, p + 1, 0, 0));
        }
        lo = p as u16 + 1;
    }
    proof {
        assert forall|j: int| 0 <= j < n implies all_frames(
            (#[trigger] streams@[j])@.id,
            streams@[j]@.send,
        ).len() == 0 by {
            let total = all_frames(before[j].id, before[j].send).len();
            assert(gone(before, 256, 0, 0, j) == total);
            frames_after(before[j].id, before[j].send, total);
        }
        frame_count_zero(views(streams@));
        stop_at_turn(order, before, streams@, 256, 0, 0);
        assert forall|next: Slot| #[trigger] is_schedule(order.push(next), before) implies false by {
            let more = order.push(next);
            assert(more[order.len() as int].exists_in(before));
            assert(next.frame < gone(before, 256, 0, 0, next.stream));
            let a = order.index_of(next);
            assert(order.contains(next));
            assert(more[a].precedes(more[order.len() as int], before));
        }
        assert(is_longest(order, before, most as nat, budget));
    }
    (out, left)
}

/// How many frames a stream has: as many as its data needs, and one for its end.
proof fn all_frames_len(id: u32, send: SendState)
    ensures
        all_frames(id, send).len() == (send.unsent.len() + MAX_CHUNK - 1) / (MAX_CHUNK as int) + (
        if send.finished && !send.fin_flushed {
            1int
        } else {
            0int
        }),
    decreases
            send.unsent.len() + (if send.fin_flushed {
                0nat
            } else {
                1nat
            }),
{
    if next_frame(id, send) is Some {
        all_frames_len(id, after_frame(send));
    }
}

/// The stream among the first `n` whose frame goes out first.
proof fn first_stream(streams: Seq<StreamState>, n: int) -> (j: int)
    requires
        0 <= n <= streams.len(),
        frame_count(streams.take(n)) > 0,
    ensures
        0 <= j < n,
        all_frames(streams[j].id, streams[j].send).len() > 0,
        forall|k: int| #![trigger streams[k]]
            0 <= k < n && all_frames(streams[k].id, streams[k].send).len() > 0
                ==> streams[j].priority < streams[k].priority || (streams[j].priority
                == streams[k].priority && j <= k),
    decreases n,
{
    let front = streams.take(n - 1);
    assert(n > 0);
    assert(streams.take(n).drop_last() =~= front);
    let last = streams[n - 1];
    if frame_count(front) == 0 {
        frame_count_zero(front);
        assert forall|k: int| #![trigger streams[k]] 0 <= k < n - 1 implies all_frames(
            streams[k].id,
            streams[k].send,
        ).len() == 0 by {
            assert(front[k] == streams[k]);
        }
        n - 1
    } else {
        let j = first_stream(streams, n - 1);
        if all_frames(last.id, last.send).len() > 0 && last.priority < streams[j].priority {
            n - 1
        } else {
            j
        }
    }
}

/// Where there are frames to send, one goes out first; its packet is no longer
/// than a packet with stream data can be.
pub proof fn some_frame_comes_first(streams: Seq<StreamState>) -> (slot: Slot)
    requires
        frame_count(streams) > 0,
    ensures
        is_schedule(seq![slot], streams),
        cost(slot.frame_in(streams)) <= MAX_CHUNK + FRAME_HEADER + PACKET_OVERHEAD,
{
    assert(streams.take(streams.len() as int) =~= streams);
    let j = first_stream(streams, streams.len() as int);
    let slot = Slot { stream: j, frame: 0 };
    let order = seq![slot];
    let send = streams[j].send;
    assert(order[0].exists_in(streams));
    assert forall|t: Slot| #[trigger] t.exists_in(streams) implies order.contains(t)
        || comes_after(order, t, streams) by {
        if t == slot {
            assert(order[0] == t);
        } else {
            assert(streams[t.stream].priority >= streams[j].priority);
        }
    }
    stream_frame_len(streams[j].id, send.chunk(MAX_CHUNK as nat).0, false, send.chunk(
        MAX_CHUNK as nat,
    ).1);
    stream_frame_len(streams[j].id, send.offset, true, Seq::empty());
    slot
}

/// Count the frames that the streams have to send.
pub fn count_frames(streams: &Vec<Stream>) -> (n: u128)
    ensures
        n == frame_count(views(streams@)),
        n <= streams@.len() * 0x1_0000_0000_0000_0000,
{
    let total: usize = streams.len();
    let mut n: u128 = 0;
    for i in 0..total
        invariant
            total == streams@.len(),
            n == frame_count(views(streams@).take(i as int)),
            n <= i * 0x1_0000_0000_0000_0000,
    {
        let s = &streams[i];
        let len: u64 = s.unsent_len() as u64;
        let chunk: u64 = MAX_CHUNK as u64;
        let full: u64 = len / chunk;
        let part: u64 = if len % chunk != 0 {
            1
        } else {
            0
        };
        let fin: u64 = if s.fin_outstanding() {
            1
        } else {
            0
        };
        proof {
            all_frames_len(s@.id, s@.send);
            let so_far = views(streams@).take(i as int);
            let more = views(streams@).take(i + 1);
            assert(more.drop_last() =~= so_far);
            assert(more.last() == s@);
        }
        n = n + (full + part + fin) as u128;
    }
    assert(views(streams@).take(total as int) =~= views(streams@));
    n
}

/// A frame is about the stream `id` and carries the part of `written` that its
/// offset says; one that ends the stream says where `written` ends.
pub open spec fn carries(frame: Seq<u8>, id: u32, written: Seq<u8>) -> bool {
    parsed_frame(frame) matches Some(fields) && {
        &&& fields.stream_id == id
        &&& fields.offset + fields.data.len() <= written.len()
        &&& fields.data == written.subrange(
            fields.offset as int,
            fields.offset + fields.data.len(),
        )
        &&& fields.fin ==> fields.offset + fields.data.len() == written.len()
    }
}

/// The frame carries the byte at position `p`.
pub open spec fn carries_byte(frame: Seq<u8>, p: int) -> bool {
    parsed_frame(frame) matches Some(fields) && fields.offset <= p < fields.offset
        + fields.data.len()
}

/// A stream's frames carry exactly its unsent data: each carries a part of what
/// was written, and every unsent byte is in one of them.
pub proof fn frames_carry_data(id: u32, send: SendState, written: Seq<u8>)
    requires
        send.wf(),
        send.is_tail_of(written),
    ensures
        forall|k: int|
            0 <= k < all_frames(id, send).len() ==> carries(
                #[trigger] all_frames(id, send)[k],
                id,
                written,
            ),
        forall|p: int|
            send.next() <= p < written.len() ==> #[trigger] has_byte(all_frames(id, send), p),
    decreases
            send.unsent.len() + (if send.fin_flushed {
                0nat
            } else {
                1nat
            }),
{
    if next_frame(id, send) is Some {
        let frames = all_frames(id, send);
        let rest = all_frames(id, after_frame(send));
        if send.unsent.len() > 0 {
            let (offset, data) = send.chunk(MAX_CHUNK as nat);
            chunk_is_written_data(send, written, MAX_CHUNK as nat);
            frame_round_trip(id, offset, false, data);
        } else {
            frame_round_trip(id, send.offset, true, Seq::empty());
            assert(written.subrange(send.offset as int, send.offset as int) =~= Seq::empty());
        }
        frames_carry_data(id, after_frame(send), written);
        assert forall|k: int| 0 <= k < frames.len() implies carries(
            #[trigger] frames[k],
            id,
            written,
        ) by {
            if k > 0 {
                assert(frames[k] == rest[k - 1]);
            }
        }
        assert forall|p: int| send.next() <= p < written.len() implies #[trigger] has_byte(
            frames,
            p,
        ) by {
            if send.unsent.len() > 0 && p < send.next() + send.chunk(MAX_CHUNK as nat).1.len() {
                assert(carries_byte(frames[0], p));
            } else {
                assert(has_byte(rest, p));
                let k = choose|k: int| 0 <= k < rest.len() && carries_byte(#[trigger] rest[k], p);
                assert(frames[k + 1] == rest[k]);
            }
        }
    }
}

/// One of the frames carries the byte at position `p`.
pub open spec fn has_byte(frames: Seq<Seq<u8>>, p: int) -> bool {
    exists|k: int| 0 <= k < frames.len() && carries_byte(#[trigger] frames[k], p)
}

} // verus!
