//! One reliable, ordered byte stream.

use crate::buffers::{bytes_content, bytes_mut_content, bytes_slice};
use crate::error::{ErrorView, SeamError};
use bytes::{Bytes, BytesMut};
use std::collections::BTreeMap;
use vstd::prelude::*;
use vstd::slice::slice_subrange;

verus! {

pub type StreamId = u32;

/// Stream priority: 0 = highest (urgent/control), 7 = lowest (bulk background).
pub type Priority = u8;

pub const PRIORITY_HIGH: Priority = 0;

pub const PRIORITY_DEFAULT: Priority = 4;

pub const PRIORITY_LOW: Priority = 7;

/// Default per-stream window: 256 MiB.
pub const DEFAULT_STREAM_WINDOW: u64 = 0x1000_0000;

/// State of a single reliable ordered byte stream.
pub struct Stream {
    pub id: StreamId,
    /// Lower value = higher priority. Drives flush scheduling order.
    pub priority: Priority,
    send_buf: BytesMut,
    /// Total bytes written.
    send_offset: u64,
    /// Oldest byte not yet acknowledged.
    send_unacked_offset: u64,
    /// Bytes beyond this many are refused until the peer advances the window.
    send_max_data: u64,
    /// Next byte to read.
    recv_offset: u64,
    /// Segments not read to their end, by offset.
    recv_buf: BTreeMap<u64, Bytes>,
    /// A segment that ends beyond this is rejected.
    recv_max_data: u64,
    /// How many bytes may be held at once.
    recv_room: u64,
    /// How many bytes are held.
    recv_buffered: u64,
    fin_received: Option<u64>,
    fin_sent: bool,
    /// A FIN frame has been emitted.
    fin_flushed: bool,
}

/// The sending half of a stream.
#[verifier::ext_equal]
pub struct SendState {
    /// Bytes written and not yet packetised.
    pub unsent: Seq<u8>,
    /// Total bytes written.
    pub offset: u64,
    /// Total bytes acknowledged.
    pub acked: u64,
    /// Total bytes that may be written.
    pub limit: u64,
    /// Nothing more will be written.
    pub finished: bool,
    /// A FIN frame has been emitted.
    pub fin_flushed: bool,
}

/// The receiving half of a stream.
#[verifier::ext_equal]
pub struct RecvState {
    /// Total bytes read.
    pub offset: u64,
    /// Received segments by the position of their first byte.
    pub segments: Map<u64, Seq<u8>>,
    /// A segment that ends beyond this is rejected.
    pub limit: u64,
    /// How many bytes may be held at once.
    pub room: u64,
    /// How many bytes are held.
    pub buffered: u64,
    /// Where the stream ends, once known.
    pub fin_at: Option<u64>,
}

/// What a [`Stream`] stands for.
#[verifier::ext_equal]
pub struct StreamState {
    pub id: StreamId,
    pub priority: Priority,
    pub send: SendState,
    pub recv: RecvState,
}

impl SendState {
    pub open spec fn new() -> SendState {
        SendState {
            unsent: Seq::empty(),
            offset: 0,
            acked: 0,
            limit: DEFAULT_STREAM_WINDOW,
            finished: false,
            fin_flushed: false,
        }
    }

    pub open spec fn wf(self) -> bool {
        &&& self.unsent.len() <= self.offset
        &&& self.offset <= self.limit
    }

    /// `n` more bytes can be written.
    pub open spec fn has_room(self, n: nat) -> bool {
        self.offset + n <= self.limit
    }

    pub open spec fn write(self, data: Seq<u8>) -> SendState {
        if !self.finished && self.has_room(data.len()) {
            SendState {
                unsent: self.unsent + data,
                offset: (self.offset + data.len()) as u64,
                ..self
            }
        } else {
            self
        }
    }

    pub open spec fn extend(self, new_limit: u64) -> SendState {
        if new_limit > self.limit {
            SendState { limit: new_limit, ..self }
        } else {
            self
        }
    }

    pub open spec fn ack(self, upto: u64) -> SendState {
        if upto > self.acked {
            SendState { acked: upto, ..self }
        } else {
            self
        }
    }

    /// The position of the first unsent byte.
    pub open spec fn next(self) -> u64 {
        (self.offset - self.unsent.len()) as u64
    }

    /// The next chunk of at most `max` bytes, with its position.
    pub open spec fn chunk(self, max: nat) -> (u64, Seq<u8>) {
        let n = if self.unsent.len() < max {
            self.unsent.len()
        } else {
            max
        };
        (self.next(), self.unsent.take(n as int))
    }

    /// The state once that chunk is taken out.
    pub open spec fn after_chunk(self, max: nat) -> SendState {
        SendState { unsent: self.unsent.skip(self.chunk(max).1.len() as int), ..self }
    }

    /// A FIN frame is due: all data was taken and none will follow.
    pub open spec fn fin_due(self) -> bool {
        self.finished && !self.fin_flushed && self.unsent.len() == 0
    }

    /// The unsent bytes are the end of `written`, everything ever written.
    pub open spec fn is_tail_of(self, written: Seq<u8>) -> bool {
        &&& self.offset == written.len()
        &&& self.unsent.len() <= written.len()
        &&& self.unsent == written.skip(written.len() - self.unsent.len())
    }
}

/// What a read of a receiving half yields.
#[verifier::ext_equal]
pub struct ReadOutcome {
    pub data: Seq<u8>,
    pub segments: Map<u64, Seq<u8>>,
    pub offset: int,
}

impl ReadOutcome {
    /// The same outcome, with `prefix` read before it.
    pub open spec fn after(self, prefix: Seq<u8>) -> ReadOutcome {
        ReadOutcome { data: prefix + self.data, ..self }
    }
}

/// `k` is the least position at which a segment starts.
pub open spec fn is_first(segments: Map<u64, Seq<u8>>, k: u64) -> bool {
    segments.contains_key(k) && forall|j: u64| #[trigger] segments.contains_key(j) ==> k <= j
}

/// Some segment starts at or before `at`, and `first` is the least such position.
pub open spec fn first_reaches(segments: Map<u64, Seq<u8>>, at: int) -> bool {
    exists|k: u64| #[trigger] is_first(segments, k) && k <= at
}

pub open spec fn first(segments: Map<u64, Seq<u8>>) -> u64 {
    choose|k: u64| is_first(segments, k)
}

/// Read up to `max` bytes from position `at` on: segments are taken in the
/// order of their positions up to the first gap. A segment read to its end is
/// dropped; one read in part stays.
pub open spec fn drain(segments: Map<u64, Seq<u8>>, at: int, max: nat) -> ReadOutcome
    decreases segments.dom().len(),
    when segments.dom().finite()
{
    if max == 0 || !first_reaches(segments, at) {
        ReadOutcome { data: Seq::empty(), segments, offset: at }
    } else {
        let k = first(segments);
        let seg = segments[k];
        if k + seg.len() <= at {
            drain(segments.remove(k), at, max)
        } else {
            let rest = seg.skip(at - k);
            if rest.len() <= max {
                drain(segments.remove(k), at + rest.len(), (max - rest.len()) as nat).after(rest)
            } else {
                ReadOutcome { data: rest.take(max as int), segments, offset: at + max }
            }
        }
    }
}

/// How many bytes the segments hold.
pub open spec fn held(segments: Map<u64, Seq<u8>>) -> nat
    decreases segments.dom().len(),
    when segments.dom().finite()
{
    if segments.dom().len() == 0 {
        0
    } else {
        let k = segments.dom().choose();
        segments[k].len() + held(segments.remove(k))
    }
}

/// Whichever segment is taken out, the others hold the rest.
pub proof fn held_without(segments: Map<u64, Seq<u8>>, k: u64)
    requires
        segments.dom().finite(),
        segments.contains_key(k),
    ensures
        held(segments) == segments[k].len() + held(segments.remove(k)),
    decreases segments.dom().len(),
{
    let c = segments.dom().choose();
    assert(segments.dom().contains(k));
    if c != k {
        assert(segments.dom().contains(c));
        held_without(segments.remove(c), k);
        held_without(segments.remove(k), c);
        assert(segments.remove(c).remove(k) =~= segments.remove(k).remove(c));
    }
}

/// A segment that is put in replaces the one at its position.
pub proof fn held_with(segments: Map<u64, Seq<u8>>, k: u64, data: Seq<u8>)
    requires
        segments.dom().finite(),
    ensures
        held(segments.insert(k, data)) == held(segments) + data.len() - (if segments.contains_key(
            k,
        ) {
            segments[k].len() as int
        } else {
            0
        }),
{
    held_without(segments.insert(k, data), k);
    if segments.contains_key(k) {
        held_without(segments, k);
        assert(segments.insert(k, data).remove(k) =~= segments.remove(k));
    } else {
        assert(segments.insert(k, data).remove(k) =~= segments);
    }
}

impl RecvState {
    pub open spec fn new() -> RecvState {
        RecvState {
            offset: 0,
            segments: Map::empty(),
            limit: DEFAULT_STREAM_WINDOW,
            room: u64::MAX,
            buffered: 0,
            fin_at: None,
        }
    }

    /// Segments are non-empty and end at a position that a `u64` can hold; no
    /// more is held than there is room for.
    pub open spec fn wf(self) -> bool {
        &&& self.segments.dom().finite()
        &&& self.buffered == held(self.segments)
        &&& self.buffered <= self.room
        &&& forall|k: u64| #[trigger]
            self.segments.contains_key(k) ==> 0 < self.segments[k].len() <= u64::MAX - k
    }

    /// The segment holds nothing that was not read already.
    pub open spec fn is_stale(self, offset: u64, data: Seq<u8>) -> bool {
        data.len() == 0 || offset + data.len() <= self.offset
    }

    /// The segment is refused for good: it has something new and ends beyond
    /// the limit.
    pub open spec fn exceeds(self, offset: u64, data: Seq<u8>) -> bool {
        !self.is_stale(offset, data) && offset + data.len() > self.limit
    }

    /// The segment is no longer than the one that is held at its position.
    pub open spec fn is_held(self, offset: u64, data: Seq<u8>) -> bool {
        self.segments.contains_key(offset) && data.len() <= self.segments[offset].len()
    }

    /// The segment is refused for now: it ends too far behind the reading
    /// position, or what is held already leaves no room for it.
    pub open spec fn overflows(self, offset: u64, data: Seq<u8>) -> bool {
        !self.is_stale(offset, data) && !self.exceeds(offset, data) && !self.is_held(offset, data)
            && (offset + data.len() > self.offset + self.room || held(
            self.segments.insert(offset, data),
        ) > self.room)
    }

    /// The error with which it is refused.
    pub open spec fn refusal(self, offset: u64, data: Seq<u8>) -> ErrorView {
        if self.exceeds(offset, data) {
            ErrorView::FlowControlBlocked {
                available: saturating_distance(self.offset as int, self.limit as int),
                requested: saturating_distance(self.offset as int, clamp_u64(offset + data.len())),
            }
        } else {
            ErrorView::FlowControlBlocked {
                available: (self.room - self.buffered) as u64,
                requested: data.len() as u64,
            }
        }
    }

    /// A FIN frame fixes the end of the stream, whatever becomes of its data.
    /// Stale and refused segments are not kept; of two at one position the
    /// longer is.
    pub open spec fn receive(self, offset: u64, data: Seq<u8>, fin: bool) -> RecvState {
        RecvState {
            fin_at: if fin {
                Some(clamp_u64(offset + data.len()) as u64)
            } else {
                self.fin_at
            },
            ..self.hold(offset, data)
        }
    }

    /// The half with the segment, unless it is stale, refused or held.
    pub open spec fn hold(self, offset: u64, data: Seq<u8>) -> RecvState {
        if self.is_stale(offset, data) || self.exceeds(offset, data) || self.is_held(offset, data)
            || self.overflows(offset, data) {
            self
        } else {
            RecvState {
                segments: self.segments.insert(offset, data),
                buffered: held(self.segments.insert(offset, data)) as u64,
                ..self
            }
        }
    }

    pub open spec fn read(self, max: nat) -> (Seq<u8>, RecvState) {
        let outcome = drain(self.segments, self.offset as int, max);
        (
            outcome.data,
            RecvState {
                segments: outcome.segments,
                buffered: held(outcome.segments) as u64,
                offset: outcome.offset as u64,
                ..self
            },
        )
    }

    /// The end of the stream is known and everything before it was read.
    pub open spec fn finished(self) -> bool {
        self.fin_at is Some && self.offset >= self.fin_at->0
    }
}

/// `n`, or the greatest `u64` if `n` is greater.
pub open spec fn clamp_u64(n: int) -> int {
    if n > u64::MAX {
        u64::MAX as int
    } else {
        n
    }
}

/// How far `to` lies beyond `from`, 0 if it does not.
pub open spec fn saturating_distance(from: int, to: int) -> u64 {
    if to > from {
        (to - from) as u64
    } else {
        0
    }
}

impl StreamState {
    pub open spec fn new(id: StreamId, priority: Priority) -> StreamState {
        StreamState { id, priority, send: SendState::new(), recv: RecvState::new() }
    }

    /// A new stream that holds at most `room` received bytes at once.
    pub open spec fn with_room(id: StreamId, priority: Priority, room: u64) -> StreamState {
        StreamState {
            recv: RecvState { room, ..RecvState::new() },
            ..StreamState::new(id, priority)
        }
    }

    pub open spec fn wf(self) -> bool {
        self.send.wf() && self.recv.wf()
    }
}

impl View for Stream {
    type V = StreamState;

    closed spec fn view(&self) -> StreamState {
        StreamState {
            id: self.id,
            priority: self.priority,
            send: SendState {
                unsent: bytes_mut_content(self.send_buf),
                offset: self.send_offset,
                acked: self.send_unacked_offset,
                limit: self.send_max_data,
                finished: self.fin_sent,
                fin_flushed: self.fin_flushed,
            },
            recv: RecvState {
                offset: self.recv_offset,
                segments: contents(self.recv_buf@),
                limit: self.recv_max_data,
                room: self.recv_room,
                buffered: self.recv_buffered,
                fin_at: self.fin_received,
            },
        }
    }
}

/// The byte strings held under each key.
spec fn contents(m: Map<u64, Bytes>) -> Map<u64, Seq<u8>> {
    m.map_values(|b: Bytes| bytes_content(b))
}

/// The least key of the map, if it has any.
fn first_key(m: &BTreeMap<u64, Bytes>) -> (first: Option<u64>)
    ensures
        match first {
            Some(k) => is_first(contents(m@), k),
            None => m@ =~= Map::<u64, Bytes>::empty(),
        },
{
    broadcast use vstd::std_specs::btree::group_btree_axioms;

    for (k, _) in it: m.iter()
        invariant
            it.seq().len() == m@.dom().len(),
            it.seq() == vstd::std_specs::iter::IteratorSpec::remaining(
                &vstd::std_specs::btree::spec_btree_map_iter(m),
            ),
            vstd::std_specs::btree::increasing_seq(
                it.seq().map_values(|kv: (&u64, &Bytes)| *kv.0),
            ),
            it.index() == 0,
    {
        let ghost all = it.seq();
        let ghost keys = all.map_values(|kv: (&u64, &Bytes)| *kv.0);
        assert(m@.contains_key(*all[0].0));
        assert(keys[0] == *k);
        assert forall|j: u64| #[trigger] contents(m@).contains_key(j) implies *k <= j by {
            assert(m@.contains_key(j));
            assert(all.contains((&j, &m@[j])));
            let i = all.index_of((&j, &m@[j]));
            assert(vstd::laws_cmp::obeys_cmp::<u64>());
            assert(i == 0 || vstd::std_specs::cmp::OrdSpec::cmp_spec(&keys[0], &keys[i]) is Less);
        }
        return Some(*k);
    }
    assert(m@.dom().len() == 0);
    None
}

impl Stream {
    pub fn new(id: StreamId) -> (s: Self)
        ensures
            s@ == StreamState::new(id, PRIORITY_DEFAULT),
            s@.wf(),
    {
        Self::with_room(id, PRIORITY_DEFAULT, u64::MAX)
    }

    /// A stream of the given priority that holds at most `room` received bytes
    /// at once.
    pub fn with_room(id: StreamId, priority: Priority, room: u64) -> (s: Self)
        ensures
            s@ == StreamState::with_room(id, priority, room),
            s@.wf(),
    {
        let s = Self {
            id,
            priority,
            send_buf: BytesMut::new(),
            send_offset: 0,
            send_unacked_offset: 0,
            send_max_data: DEFAULT_STREAM_WINDOW,
            recv_offset: 0,
            recv_buf: BTreeMap::new(),
            recv_max_data: DEFAULT_STREAM_WINDOW,
            recv_room: room,
            recv_buffered: 0,
            fin_received: None,
            fin_sent: false,
            fin_flushed: false,
        };
        assert(contents(s.recv_buf@) =~= Map::empty());
        s
    }

    /// The stream's id.
    pub fn id(&self) -> (id: StreamId)
        ensures
            id == self@.id,
    {
        self.id
    }

    /// The stream's priority.
    pub fn priority(&self) -> (priority: Priority)
        ensures
            priority == self@.priority,
    {
        self.priority
    }

    /// Extend the per-stream send window (the peer raised the limit).
    pub fn extend_send_window(&mut self, new_limit: u64)
        requires
            old(self)@.wf(),
        ensures
            final(self)@ == (StreamState {
                send: old(self)@.send.extend(new_limit),
                ..old(self)@
            }),
            final(self)@.wf(),
    {
        if new_limit > self.send_max_data {
            self.send_max_data = new_limit;
        }
    }

    /// Bytes that may still be written.
    pub fn send_window_remaining(&self) -> (n: u64)
        ensures
            n == saturating_distance(self@.send.offset as int, self@.send.limit as int),
    {
        self.send_max_data.saturating_sub(self.send_offset)
    }

    /// Configure this stream's receive-side limit.
    pub fn set_recv_limit(&mut self, limit: u64)
        requires
            old(self)@.wf(),
        ensures
            final(self)@ == (StreamState {
                recv: RecvState { limit, ..old(self)@.recv },
                ..old(self)@
            }),
            final(self)@.wf(),
    {
        self.recv_max_data = limit;
    }

    /// Buffer data to send. Returns the offset at which this data starts.
    pub fn write(&mut self, data: &[u8]) -> (r: Result<u64, SeamError>)
        requires
            old(self)@.wf(),
        ensures
            final(self)@ == (StreamState {
                send: old(self)@.send.write(data@),
                ..old(self)@
            }),
            final(self)@.wf(),
            match r {
                Ok(offset) => {
                    &&& !old(self)@.send.finished
                    &&& old(self)@.send.has_room(data@.len())
                    &&& offset == old(self)@.send.offset
                },
                Err(e) => if old(self)@.send.finished {
                    e@ == ErrorView::StreamFinished(old(self)@.id)
                } else {
                    &&& !old(self)@.send.has_room(data@.len())
                    &&& e@ == (ErrorView::FlowControlBlocked {
                        available: saturating_distance(
                            old(self)@.send.offset as int,
                            old(self)@.send.limit as int,
                        ),
                        requested: data@.len() as u64,
                    })
                },
            },
    {
        if self.fin_sent {
            return Err(SeamError::StreamFinished(self.id));
        }
        let len: u64 = data.len() as u64;
        if len > self.send_max_data - self.send_offset {
            return Err(
                SeamError::FlowControlBlocked {
                    available: self.send_max_data.saturating_sub(self.send_offset),
                    requested: len,
                },
            );
        }
        let offset: u64 = self.send_offset;
        self.send_buf.extend_from_slice(data);
        self.send_offset = self.send_offset + len;
        Ok(offset)
    }

    /// Mark the stream as finished on the send side.
    pub fn finish(&mut self)
        requires
            old(self)@.wf(),
        ensures
            final(self)@ == (StreamState {
                send: SendState { finished: true, ..old(self)@.send },
                ..old(self)@
            }),
            final(self)@.wf(),
    {
        self.fin_sent = true;
    }

    /// True when a FIN frame should be emitted in the next flush.
    pub fn should_send_fin(&self) -> (due: bool)
        ensures
            due == self@.send.fin_due(),
    {
        self.fin_sent && !self.fin_flushed && self.send_buf.is_empty()
    }

    /// Call after the FIN frame has been encoded and queued.
    pub fn mark_fin_flushed(&mut self)
        requires
            old(self)@.wf(),
        ensures
            final(self)@ == (StreamState {
                send: SendState { fin_flushed: true, ..old(self)@.send },
                ..old(self)@
            }),
            final(self)@.wf(),
    {
        self.fin_flushed = true;
    }

    /// Current send offset (total bytes written to this stream).
    pub fn send_offset(&self) -> (n: u64)
        ensures
            n == self@.send.offset,
    {
        self.send_offset
    }

    /// Bytes written and not yet packetised.
    pub fn unsent_len(&self) -> (n: usize)
        ensures
            n == self@.send.unsent.len(),
    {
        self.send_buf.len()
    }

    /// The stream's end is known to the sender and not yet sent.
    pub fn fin_outstanding(&self) -> (yes: bool)
        ensures
            yes == (self@.send.finished && !self@.send.fin_flushed),
    {
        self.fin_sent && !self.fin_flushed
    }

    /// Pop up to `max_bytes` of unsent data for packetisation, with the
    /// position of its first byte; nothing if all was taken.
    pub fn poll_send(&mut self, max_bytes: usize) -> (r: Option<(u64, Bytes)>)
        requires
            old(self)@.wf(),
        ensures
            final(self)@.wf(),
            match r {
                Some((offset, data)) => {
                    &&& old(self)@.send.unsent.len() > 0
                    &&& (offset, bytes_content(data)) == old(self)@.send.chunk(max_bytes as nat)
                    &&& final(self)@ == (StreamState {
                        send: old(self)@.send.after_chunk(max_bytes as nat),
                        ..old(self)@
                    })
                },
                None => old(self)@.send.unsent.len() == 0 && final(self)@ == old(self)@,
            },
    {
        if self.send_buf.is_empty() {
            return None;
        }
        let len: usize = self.send_buf.len();
        let take: usize = if len < max_bytes {
            len
        } else {
            max_bytes
        };
        // The start of `send_buf` in the stream is `send_offset - send_buf.len()`.
        let offset: u64 = self.send_offset - len as u64;
        let data = self.send_buf.split_to(take).freeze();
        Some((offset, data))
    }

    /// Called when the remote acknowledges bytes up to `acked_offset` (exclusive).
    pub fn on_ack(&mut self, acked_offset: u64)
        requires
            old(self)@.wf(),
        ensures
            final(self)@ == (StreamState {
                send: old(self)@.send.ack(acked_offset),
                ..old(self)@
            }),
            final(self)@.wf(),
    {
        if acked_offset > self.send_unacked_offset {
            self.send_unacked_offset = acked_offset;
        }
    }

    /// A segment of at least the length is held at the position.
    fn is_held(&self, offset: u64, len: usize) -> (yes: bool)
        ensures
            yes == (self@.recv.segments.contains_key(offset) && len
                <= self@.recv.segments[offset].len()),
    {
        broadcast use vstd::std_specs::btree::group_btree_axioms;

        match self.recv_buf.get(&offset) {
            Some(earlier) => len <= earlier.len(),
            None => false,
        }
    }

    /// How many bytes the stream would hold with the segment.
    fn held_after(&self, offset: u64, data: &[u8]) -> (n: u128)
        requires
            self@.wf(),
        ensures
            n == held(self@.recv.segments.insert(offset, data@)),
    {
        broadcast use vstd::std_specs::btree::group_btree_axioms;

        let len: u128 = data.len() as u128;
        let total: u128 = self.recv_buffered as u128;
        proof {
            held_with(self@.recv.segments, offset, data@);
        }
        match self.recv_buf.get(&offset) {
            Some(earlier) => {
                let earlier_len: u128 = earlier.len() as u128;
                proof {
                    held_without(self@.recv.segments, offset);
                }
                total - earlier_len + len
            },
            None => total + len,
        }
    }

    /// There is no room for the segment now.
    pub fn overflows(&self, offset: u64, data: &[u8]) -> (yes: bool)
        requires
            self@.wf(),
        ensures
            yes == self@.recv.overflows(offset, data@),
    {
        let len: u64 = data.len() as u64;
        if len == 0 || len > u64::MAX - offset {
            return false;
        }
        let end: u64 = offset + len;
        if end <= self.recv_offset || end > self.recv_max_data {
            return false;
        }
        if self.is_held(offset, data.len()) {
            return false;
        }
        end - self.recv_offset > self.recv_room || self.held_after(offset, data)
            > self.recv_room as u128
    }

    /// The error for data for which there is no room.
    pub fn no_room(&self, data: &[u8]) -> (e: SeamError)
        requires
            self@.wf(),
        ensures
            e@ == (ErrorView::FlowControlBlocked {
                available: (self@.recv.room - self@.recv.buffered) as u64,
                requested: data@.len() as u64,
            }),
    {
        SeamError::FlowControlBlocked {
            available: self.recv_room - self.recv_buffered,
            requested: data.len() as u64,
        }
    }

    /// Deliver an incoming segment. Out-of-order segments are kept until they
    /// can be read; one that would exceed the receive window, or for which
    /// there is no room, is refused.
    pub fn receive(&mut self, offset: u64, data: Bytes, is_fin: bool) -> (r: Result<
        (),
        SeamError,
    >)
        requires
            old(self)@.wf(),
        ensures
            final(self)@ == (StreamState {
                recv: old(self)@.recv.receive(offset, bytes_content(data), is_fin),
                ..old(self)@
            }),
            final(self)@.wf(),
            match r {
                Ok(()) => {
                    &&& !old(self)@.recv.exceeds(offset, bytes_content(data))
                    &&& !old(self)@.recv.overflows(offset, bytes_content(data))
                },
                Err(e) => {
                    &&& old(self)@.recv.exceeds(offset, bytes_content(data))
                        || old(self)@.recv.overflows(offset, bytes_content(data))
                    &&& e@ == old(self)@.recv.refusal(offset, bytes_content(data))
                },
            },
    {
        broadcast use vstd::std_specs::btree::group_btree_axioms;

        let len: u64 = data.len() as u64;
        let end: u64 = offset.saturating_add(len);
        if is_fin {
            self.fin_received = Some(end);
        }
        if data.is_empty() {
            return Ok(());
        }
        let fits: bool = len <= u64::MAX - offset;
        // Drop already-consumed data.
        if fits && end <= self.recv_offset {
            return Ok(());
        }
        if !fits || end > self.recv_max_data {
            return Err(
                SeamError::FlowControlBlocked {
                    available: self.recv_max_data.saturating_sub(self.recv_offset),
                    requested: end.saturating_sub(self.recv_offset),
                },
            );
        }
        // Bytes that were taken stay, even if a shorter segment repeats some.
        if self.is_held(offset, data.len()) {
            return Ok(());
        }
        if self.overflows(offset, bytes_slice(&data)) {
            return Err(self.no_room(bytes_slice(&data)));
        }
        let ghost before = self.recv_buf@;
        self.recv_buffered = self.held_after(offset, bytes_slice(&data)) as u64;
        self.recv_buf.insert(offset, data);
        assert(contents(self.recv_buf@) =~= contents(before).insert(offset, bytes_content(data)));
        Ok(())
    }

    /// Read up to `max_bytes` of contiguous in-order data into `out`.
    /// Returns bytes read.
    pub fn read(&mut self, out: &mut Vec<u8>, max_bytes: usize) -> (n: usize)
        requires
            old(self)@.wf(),
        ensures
            final(out)@ == old(out)@ + old(self)@.recv.read(max_bytes as nat).0,
            n == old(self)@.recv.read(max_bytes as nat).0.len(),
            n <= max_bytes,
            final(self)@ == (StreamState {
                recv: old(self)@.recv.read(max_bytes as nat).1,
                ..old(self)@
            }),
            final(self)@.wf(),
    {
        broadcast use vstd::std_specs::btree::group_btree_axioms;

        let mut read: usize = 0;
        let ghost whole = drain(self@.recv.segments, self@.recv.offset as int, max_bytes as nat);
        let ghost mut got: Seq<u8> = Seq::empty();
        while read < max_bytes
            invariant_except_break
                whole == drain(
                    self@.recv.segments,
                    self@.recv.offset as int,
                    (max_bytes - read) as nat,
                ).after(got),
            invariant
                self@.wf(),
                read <= max_bytes,
                read == got.len(),
                out@ == old(out)@ + got,
                self@ == (StreamState { recv: self@.recv, ..old(self)@ }),
                self@.recv == (RecvState {
                    offset: self@.recv.offset,
                    segments: self@.recv.segments,
                    buffered: self@.recv.buffered,
                    ..old(self)@.recv
                }),
            ensures
                whole == (ReadOutcome {
                    data: got,
                    segments: self@.recv.segments,
                    offset: self@.recv.offset as int,
                }),
            decreases self@.recv.segments.dom().len(),
        {
            let ghost segments = self@.recv.segments;
            let ghost at = self@.recv.offset as int;
            let k: u64 = match first_key(&self.recv_buf) {
                Some(k) => k,
                None => {
                    assert(!first_reaches(segments, at));
                    break;
                },
            };
            if k > self.recv_offset {
                // Gap: waiting for an earlier segment.
                assert(!first_reaches(segments, at));
                break;
            }
            assert(is_first(segments, k));
            assert(first(segments) == k);
            let ghost before = self.recv_buf@;
            let ghost seg = segments[k];
            let skip: u64 = self.recv_offset - k;
            proof {
                held_without(segments, k);
            }
            let (have, left, whole_len): (usize, usize, u64) = match self.recv_buf.get(&k) {
                Some(data) => {
                    let slice = bytes_slice(data);
                    let len: usize = slice.len();
                    if skip >= len as u64 {
                        (0, 0, len as u64)
                    } else {
                        let have: usize = len - skip as usize;
                        let left: usize = max_bytes - read;
                        let take: usize = if have < left {
                            have
                        } else {
                            left
                        };
                        out.extend_from_slice(
                            slice_subrange(slice, skip as usize, skip as usize + take),
                        );
                        (have, left, len as u64)
                    }
                },
                None => (0, 0, 0),
            };
            if have <= left {
                self.recv_buf.remove(&k);
                self.recv_buffered = self.recv_buffered - whole_len;
                assert(contents(self.recv_buf@) =~= segments.remove(k));
                self.recv_offset = self.recv_offset + have as u64;
                read = read + have;
                proof {
                    let rest = if have == 0 { Seq::empty() } else { seg.skip(at - k) };
                    got = got + rest;
                }
            } else {
                self.recv_offset = self.recv_offset + left as u64;
                read = read + left;
                proof {
                    got = got + seg.skip(at - k).take(left as int);
                }
                break;
            }
        }
        read
    }

    /// Everything up to the peer's FIN was read.
    pub fn is_recv_finished(&self) -> (finished: bool)
        ensures
            finished == self@.recv.finished(),
    {
        match self.fin_received {
            Some(fin_offset) => self.recv_offset >= fin_offset,
            None => false,
        }
    }

    /// The sending side is finished and everything written was acknowledged.
    pub fn is_send_finished(&self) -> (finished: bool)
        ensures
            finished == (self@.send.finished && self@.send.acked >= self@.send.offset),
    {
        self.fin_sent && self.send_unacked_offset >= self.send_offset
    }
}

/// Every chunk handed out for sending is the part of the written data that its
/// position says, and taking it out leaves the rest in place.
pub proof fn chunk_is_written_data(send: SendState, written: Seq<u8>, max: nat)
    requires
        send.wf(),
        send.is_tail_of(written),
    ensures
        ({
            let (offset, data) = send.chunk(max);
            &&& offset + data.len() <= written.len()
            &&& data == written.subrange(offset as int, offset + data.len())
        }),
        send.after_chunk(max).wf(),
        send.after_chunk(max).is_tail_of(written),
        send.after_chunk(max).next() == send.chunk(max).0 + send.chunk(max).1.len(),
{
    let (offset, data) = send.chunk(max);
    assert(data =~= written.subrange(offset as int, offset + data.len()));
    assert(send.after_chunk(max).unsent =~= written.skip(
        written.len() - send.after_chunk(max).unsent.len(),
    ));
}

/// Written data is appended to what was written before; a refused write
/// appends nothing.
pub proof fn write_appends(send: SendState, written: Seq<u8>, data: Seq<u8>)
    requires
        send.wf(),
        send.is_tail_of(written),
    ensures
        send.write(data).wf(),
        !send.finished && send.has_room(data.len()) ==> send.write(data).is_tail_of(
            written + data,
        ),
        send.finished || !send.has_room(data.len()) ==> send.write(data) == send,
{
    if !send.finished && send.has_room(data.len()) {
        let after = send.write(data);
        assert(after.unsent =~= (written + data).skip((written + data).len() - after.unsent.len()));
    }
}

/// Every segment is the part of `source` that its position says.
pub open spec fn agree(segments: Map<u64, Seq<u8>>, source: Seq<u8>) -> bool {
    forall|k: u64| #[trigger]
        segments.contains_key(k) ==> k + segments[k].len() <= source.len() && segments[k]
            == source.subrange(k as int, k + segments[k].len())
}

/// Some segment holds the byte at position `p`.
pub open spec fn covers(segments: Map<u64, Seq<u8>>, p: int) -> bool {
    exists|k: u64| #[trigger] segments.contains_key(k) && k <= p < k + segments[k].len()
}

/// A received part of the source is kept in agreement with it.
pub proof fn receive_agrees(recv: RecvState, source: Seq<u8>, offset: u64, data: Seq<u8>, fin: bool)
    requires
        agree(recv.segments, source),
        offset + data.len() <= source.len(),
        data == source.subrange(offset as int, offset + data.len()),
    ensures
        agree(recv.receive(offset, data, fin).segments, source),
{
}

/// Bytes that were received stay until they are read, whatever arrives later;
/// those of a segment that is taken join them.
pub proof fn received_bytes_stay(recv: RecvState, offset: u64, data: Seq<u8>, fin: bool)
    ensures
        ({
            let after = recv.receive(offset, data, fin);
            &&& forall|p: int| #[trigger]
                covers(recv.segments, p) ==> covers(after.segments, p)
            &&& !recv.exceeds(offset, data) && !recv.overflows(offset, data) ==> forall|p: int|
                recv.offset <= p && offset <= p < offset + data.len() ==> #[trigger] covers(
                    after.segments,
                    p,
                )
        }),
{
    let after = recv.receive(offset, data, fin);
    assert forall|p: int| #[trigger] covers(recv.segments, p) implies covers(after.segments, p) by {
        let k = choose|k: u64| #[trigger]
            recv.segments.contains_key(k) && k <= p < k + recv.segments[k].len();
        assert(after.segments.contains_key(k));
    }
    if !recv.exceeds(offset, data) && !recv.overflows(offset, data) {
        assert forall|p: int|
            recv.offset <= p && offset <= p < offset + data.len() implies #[trigger] covers(
            after.segments,
            p,
        ) by {
            assert(after.segments.contains_key(offset));
        }
    }
}

/// What is read is exactly the source from the reading position on: no byte is
/// lost, repeated, or out of order, however the segments arrived.
pub proof fn reads_are_the_source(segments: Map<u64, Seq<u8>>, at: int, max: nat, source: Seq<u8>)
    requires
        segments.dom().finite(),
        agree(segments, source),
        0 <= at <= source.len(),
    ensures
        ({
            let r = drain(segments, at, max);
            &&& r.data.len() <= max
            &&& r.offset == at + r.data.len()
            &&& r.offset <= source.len()
            &&& r.data == source.subrange(at, r.offset)
            &&& r.segments.dom().finite()
            &&& agree(r.segments, source)
        }),
    decreases segments.dom().len(),
{
    if max == 0 || !first_reaches(segments, at) {
    } else {
        let k = first(segments);
        let seg = segments[k];
        if k + seg.len() <= at {
            reads_are_the_source(segments.remove(k), at, max, source);
        } else {
            let rest = seg.skip(at - k);
            assert(rest =~= source.subrange(at, at + rest.len()));
            if rest.len() <= max {
                let left = (max - rest.len()) as nat;
                reads_are_the_source(segments.remove(k), at + rest.len(), left, source);
                let tail = drain(segments.remove(k), at + rest.len(), left);
                assert(rest + tail.data =~= source.subrange(at, tail.offset));
            } else {
                assert(rest.take(max as int) =~= source.subrange(at, at + max));
            }
        }
    }
}

/// A read changes no segment and leaves out none that has more to give: bytes
/// behind the new reading position stay covered.
pub proof fn reads_keep_the_rest(segments: Map<u64, Seq<u8>>, at: int, max: nat)
    requires
        segments.dom().finite(),
    ensures
        ({
            let r = drain(segments, at, max);
            &&& r.offset >= at
            &&& forall|k: u64| #[trigger]
                r.segments.contains_key(k) ==> segments.contains_key(k) && r.segments[k]
                    == segments[k]
            &&& forall|p: int|
                p >= r.offset && #[trigger] covers(segments, p) ==> covers(r.segments, p)
        }),
    decreases segments.dom().len(),
{
    if max == 0 || !first_reaches(segments, at) {
    } else {
        let k = first(segments);
        let seg = segments[k];
        let others = segments.remove(k);
        let next = if k + seg.len() <= at {
            at
        } else {
            k + seg.len()
        };
        if next - at <= max {
            let left = (max - (next - at)) as nat;
            reads_keep_the_rest(others, next, left);
            let r = drain(segments, at, max);
            assert(r.offset >= next);
            assert(r.segments == drain(others, next, left).segments);
            assert forall|j: u64| #[trigger] r.segments.contains_key(j) implies
                segments.contains_key(j) && r.segments[j] == segments[j] by {
                assert(others.contains_key(j));
            }
            assert forall|p: int| p >= r.offset && #[trigger] covers(segments, p) implies covers(
                r.segments,
                p,
            ) by {
                let j = choose|j: u64| #[trigger]
                    segments.contains_key(j) && j <= p < j + segments[j].len();
                assert(others.contains_key(j));
                assert(covers(others, p));
            }
        }
    }
}

/// A finite set of segments with one in it has a first one.
pub proof fn first_exists(segments: Map<u64, Seq<u8>>, witness: u64)
    requires
        segments.dom().finite(),
        segments.contains_key(witness),
    ensures
        exists|k: u64| #[trigger] is_first(segments, k),
    decreases segments.dom().len(),
{
    let others = segments.remove(witness);
    if others.dom() =~= Set::empty() {
        assert(is_first(segments, witness));
    } else {
        let other = others.dom().choose();
        first_exists(others, other);
        let k = choose|k: u64| #[trigger] is_first(others, k);
        assert forall|j: u64| #[trigger] segments.contains_key(j) implies (if k < witness {
            k
        } else {
            witness
        }) <= j by {
            if j != witness {
                assert(others.contains_key(j));
            }
        }
        if k < witness {
            assert(is_first(segments, k));
        } else {
            assert(is_first(segments, witness));
        }
    }
}

/// Nothing readable is held back: if every byte up to `end` is covered, a read
/// returns all of them, or as many as were asked for.
pub proof fn covered_data_is_read(segments: Map<u64, Seq<u8>>, at: int, max: nat, end: int)
    requires
        segments.dom().finite(),
        0 <= at <= end,
        forall|p: int| at <= p < end ==> #[trigger] covers(segments, p),
    ensures
        drain(segments, at, max).data.len() >= (if max <= end - at {
            max as int
        } else {
            end - at
        }),
    decreases segments.dom().len(),
{
    if max == 0 || at == end {
    } else {
        assert(covers(segments, at));
        let w = choose|k: u64| #[trigger] segments.contains_key(k) && k <= at < k + segments[k].len();
        first_exists(segments, w);
        let k = first(segments);
        assert(is_first(segments, k));
        assert(first_reaches(segments, at));
        let seg = segments[k];
        let others = segments.remove(k);
        let next = if k + seg.len() <= at {
            at
        } else {
            k + seg.len()
        };
        assert forall|p: int| next <= p < end implies #[trigger] covers(others, p) by {
            assert(covers(segments, p));
            let j = choose|j: u64| #[trigger]
                segments.contains_key(j) && j <= p < j + segments[j].len();
            assert(others.contains_key(j));
        }
        if next - at <= max && next <= end {
            covered_data_is_read(others, next, (max - (next - at)) as nat, end);
        }
    }
}

/// Reading in two portions yields what one read yields.
pub proof fn split_read(segments: Map<u64, Seq<u8>>, at: int, one: nat, two: nat)
    requires
        segments.dom().finite(),
    ensures
        ({
            let r = drain(segments, at, one);
            drain(segments, at, one + two) == drain(r.segments, r.offset, two).after(r.data)
        }),
    decreases segments.dom().len(),
{
    if one == 0 || !first_reaches(segments, at) {
    } else {
        let k = first(segments);
        let seg = segments[k];
        if k + seg.len() <= at {
            split_read(segments.remove(k), at, one, two);
        } else {
            let rest = seg.skip(at - k);
            if rest.len() <= one {
                let left = (one - rest.len()) as nat;
                split_read(segments.remove(k), at + rest.len(), left, two);
                let r = drain(segments.remove(k), at + rest.len(), left);
                assert(drain(segments, at, one + two) =~= drain(r.segments, r.offset, two).after(
                    rest + r.data,
                ));
            } else {
                assert(is_first(segments, k));
                assert(first_reaches(segments, at + one));
                let later = seg.skip(at + one - k);
                if two == 0 {
                } else if later.len() <= two {
                    assert(rest =~= rest.take(one as int) + later);
                    assert(drain(segments, at, one + two) =~= drain(segments, at + one, two).after(
                        rest.take(one as int),
                    ));
                } else {
                    assert(rest.take((one + two) as int) =~= rest.take(one as int) + later.take(
                        two as int,
                    ));
                }
            }
        }
    }
}

} // verus!
