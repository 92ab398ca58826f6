//! Multiplexing: which streams wait to be accepted, where their data goes, and
//! what a reader still has to get.

use crate::buffers::{bytes_content, bytes_mut_content, bytes_slice};
use crate::session::stream::StreamId;
use crate::session::SessionEvent;
use bytes::{Bytes, BytesMut};
use std::collections::{HashSet, VecDeque};
use vstd::prelude::*;
use vstd::slice::slice_subrange;

verus! {

/// What to do about a session event.
pub enum MuxAction {
    /// Make a channel for the new stream; `accept` will hand out its reader.
    Announce(StreamId),
    /// Read the stream and put the data into its channel.
    Forward(StreamId),
    /// Read the stream and drop the data: no channel takes it any more.
    Discard(StreamId),
    /// Close the stream's channel: its reader has reached the end.
    Finish(StreamId),
    /// The connection is closed: nothing more will be accepted.
    Close,
    Ignore,
}

/// The streams of a multiplexer.
pub struct MuxState {
    /// Streams whose channel takes data.
    open: HashSet<StreamId>,
    /// Remote-initiated streams whose reader was not yet handed out.
    unclaimed: HashSet<StreamId>,
    /// Remote-initiated streams in the order in which they arrived.
    pending: VecDeque<StreamId>,
    closed: bool,
}

/// What a [`MuxState`] stands for.
#[verifier::ext_equal]
pub struct MuxView {
    pub open: Set<StreamId>,
    pub unclaimed: Set<StreamId>,
    pub pending: Seq<StreamId>,
    pub closed: bool,
}

impl View for MuxState {
    type V = MuxView;

    closed spec fn view(&self) -> MuxView {
        MuxView {
            open: self.open@,
            unclaimed: self.unclaimed@,
            pending: self.pending@,
            closed: self.closed,
        }
    }
}

impl MuxView {
    pub open spec fn new() -> MuxView {
        MuxView {
            open: Set::empty(),
            unclaimed: Set::empty(),
            pending: Seq::empty(),
            closed: false,
        }
    }

    /// The state after an event. Nothing happens after a close.
    pub open spec fn after(self, event: SessionEvent) -> MuxView {
        if self.closed {
            self
        } else {
            match event {
                SessionEvent::NewStream(sid) => MuxView {
                    open: self.open.insert(sid),
                    unclaimed: self.unclaimed.insert(sid),
                    pending: self.pending.push(sid),
                    ..self
                },
                SessionEvent::StreamFinished(sid) => MuxView {
                    open: self.open.remove(sid),
                    ..self
                },
                SessionEvent::Closed => MuxView { closed: true, ..self },
                _ => self,
            }
        }
    }

    /// What to do about an event.
    pub open spec fn action(self, event: SessionEvent) -> MuxAction {
        if self.closed {
            MuxAction::Ignore
        } else {
            match event {
                SessionEvent::NewStream(sid) => MuxAction::Announce(sid),
                SessionEvent::DataAvailable(sid) => if self.open.contains(sid) {
                    MuxAction::Forward(sid)
                } else {
                    MuxAction::Discard(sid)
                },
                SessionEvent::StreamFinished(sid) => MuxAction::Finish(sid),
                SessionEvent::Closed => MuxAction::Close,
                SessionEvent::DatagramReceived | SessionEvent::SessionTicket(_) => {
                    MuxAction::Ignore
                },
            }
        }
    }

    /// The stream that `accept` hands out: the first that arrived, unless its
    /// reader is gone.
    pub open spec fn accepted(self) -> Option<StreamId> {
        if self.pending.len() > 0 && self.unclaimed.contains(self.pending[0]) {
            Some(self.pending[0])
        } else {
            None
        }
    }

    pub open spec fn after_accept(self) -> MuxView {
        if self.pending.len() == 0 {
            self
        } else {
            MuxView {
                unclaimed: self.unclaimed.remove(self.pending[0]),
                pending: self.pending.skip(1),
                ..self
            }
        }
    }
}

impl MuxState {
    pub fn new() -> (m: Self)
        ensures
            m@ == MuxView::new(),
    {
        broadcast use vstd::std_specs::hash::group_hash_axioms;

        MuxState {
            open: HashSet::new(),
            unclaimed: HashSet::new(),
            pending: VecDeque::new(),
            closed: false,
        }
    }

    /// A stream was opened locally: its channel takes data from now on.
    pub fn on_opened(&mut self, sid: StreamId)
        ensures
            final(self)@ == (MuxView { open: old(self)@.open.insert(sid), ..old(self)@ }),
    {
        broadcast use vstd::std_specs::hash::group_hash_axioms;

        self.open.insert(sid);
    }

    /// Take note of a session event.
    pub fn on_event(&mut self, event: &SessionEvent) -> (action: MuxAction)
        ensures
            action == old(self)@.action(*event),
            final(self)@ == old(self)@.after(*event),
    {
        broadcast use vstd::std_specs::hash::group_hash_axioms;

        if self.closed {
            return MuxAction::Ignore;
        }
        match event {
            SessionEvent::NewStream(sid) => {
                self.open.insert(*sid);
                self.unclaimed.insert(*sid);
                self.pending.push_back(*sid);
                MuxAction::Announce(*sid)
            },
            SessionEvent::DataAvailable(sid) => {
                if self.open.contains(sid) {
                    MuxAction::Forward(*sid)
                } else {
                    MuxAction::Discard(*sid)
                }
            },
            SessionEvent::StreamFinished(sid) => {
                self.open.remove(sid);
                MuxAction::Finish(*sid)
            },
            SessionEvent::Closed => {
                self.closed = true;
                MuxAction::Close
            },
            SessionEvent::DatagramReceived | SessionEvent::SessionTicket(_) => MuxAction::Ignore,
        }
    }

    /// The next remote-initiated stream, in the order of arrival.
    pub fn accept(&mut self) -> (r: Option<StreamId>)
        ensures
            r == old(self)@.accepted(),
            final(self)@ == old(self)@.after_accept(),
    {
        broadcast use vstd::std_specs::hash::group_hash_axioms;

        let ghost before = self@;
        match self.pending.pop_front() {
            Some(sid) => {
                assert(self.pending@ =~= before.pending.skip(1));
                if self.unclaimed.remove(&sid) {
                    Some(sid)
                } else {
                    assert(self@.unclaimed =~= before.unclaimed.remove(sid));
                    None
                }
            },
            None => None,
        }
    }
}

/// Data of a new stream is never dropped for want of an accept: from the
/// stream's arrival until its end, every piece of data is forwarded.
pub proof fn announced_data_is_forwarded(m: MuxView, sid: StreamId, other: SessionEvent)
    requires
        !m.closed,
        m.open.contains(sid),
        other != SessionEvent::StreamFinished(sid),
        other !is Closed,
    ensures
        m.action(SessionEvent::DataAvailable(sid)) == MuxAction::Forward(sid),
        m.after(other).open.contains(sid),
        m.after_accept().open.contains(sid),
{
}

/// A stream that arrives is open and waits to be accepted behind those that
/// arrived before it.
pub proof fn arrivals_are_accepted_in_order(m: MuxView, sid: StreamId)
    requires
        !m.closed,
    ensures
        m.after(SessionEvent::NewStream(sid)).open.contains(sid),
        m.after(SessionEvent::NewStream(sid)).pending == m.pending.push(sid),
        m.after(SessionEvent::NewStream(sid)).unclaimed.contains(sid),
        m.pending.len() == 0 ==> m.after(SessionEvent::NewStream(sid)).accepted() == Some(sid),
        m.pending.len() > 0 && m.unclaimed.contains(m.pending[0]) ==> m.after(
            SessionEvent::NewStream(sid),
        ).accepted() == m.accepted(),
{
}

/// The stream is in line to be accepted behind `place` others.
pub open spec fn waits(m: MuxView, sid: StreamId, place: int) -> bool {
    &&& 0 <= place < m.pending.len()
    &&& m.pending[place] == sid
    &&& m.unclaimed.contains(sid)
    &&& forall|j: int| 0 <= j < place ==> m.pending[j] != sid
}

/// What happens to a multiplexer: an event, or an accept.
pub enum MuxStep {
    Event(SessionEvent),
    Accept,
}

/// The multiplexer after these steps.
pub open spec fn mux_run(m: MuxView, steps: Seq<MuxStep>) -> MuxView
    decreases steps.len(),
{
    if steps.len() == 0 {
        m
    } else {
        let before = mux_run(m, steps.drop_last());
        match steps.last() {
            MuxStep::Event(event) => before.after(event),
            MuxStep::Accept => before.after_accept(),
        }
    }
}

/// How many of the steps are accepts.
pub open spec fn accepts(steps: Seq<MuxStep>) -> nat
    decreases steps.len(),
{
    if steps.len() == 0 {
        0
    } else {
        accepts(steps.drop_last()) + (if steps.last() is Accept {
            1nat
        } else {
            0nat
        })
    }
}

/// No event takes a stream out of the line, nor moves it: neither its own end,
/// nor the end of another, nor the close of the connection. An accept that does
/// not reach it moves it up by one.
pub proof fn waiting_streams_stay(m: MuxView, sid: StreamId, place: int, event: SessionEvent)
    requires
        waits(m, sid, place),
    ensures
        waits(m.after(event), sid, place),
        place > 0 ==> waits(m.after_accept(), sid, place - 1),
        place == 0 ==> m.accepted() == Some(sid),
{
    if place > 0 {
        assert(m.pending[0] != sid);
        let after = m.after_accept();
        assert forall|j: int| 0 <= j < place - 1 implies after.pending[j] != sid by {
            assert(after.pending[j] == m.pending[j + 1]);
        }
    }
}

/// A stream that has arrived is handed out by the accept that reaches it,
/// whatever events come before that accept, and is in line until then.
pub proof fn arrived_stream_is_accepted(m: MuxView, sid: StreamId, place: int, steps: Seq<MuxStep>)
    requires
        waits(m, sid, place),
        accepts(steps) <= place,
    ensures
        waits(mux_run(m, steps), sid, place - accepts(steps)),
        accepts(steps) == place ==> mux_run(m, steps).accepted() == Some(sid),
    decreases steps.len(),
{
    if steps.len() > 0 {
        let before = mux_run(m, steps.drop_last());
        let event = match steps.last() {
            MuxStep::Event(event) => event,
            MuxStep::Accept => SessionEvent::Closed,
        };
        arrived_stream_is_accepted(m, sid, place, steps.drop_last());
        waiting_streams_stay(before, sid, place - accepts(steps.drop_last()), event);
    }
}

/// A stream that arrives goes to the end of the line.
pub proof fn arriving_stream_waits(m: MuxView, sid: StreamId)
    requires
        !m.closed,
        !m.pending.contains(sid),
    ensures
        waits(m.after(SessionEvent::NewStream(sid)), sid, m.pending.len() as int),
{
    let after = m.after(SessionEvent::NewStream(sid));
    assert forall|j: int| 0 <= j < m.pending.len() implies after.pending[j] != sid by {
        assert(m.pending.contains(m.pending[j]));
    }
}

/// A stream that is not in line is not handed out, unless it arrives: so each
/// stream is handed out once.
pub proof fn accepted_stream_is_gone(m: MuxView, sid: StreamId, steps: Seq<MuxStep>)
    requires
        !m.pending.contains(sid),
        forall|k: int|
            0 <= k < steps.len() ==> #[trigger] steps[k] != MuxStep::Event(
                SessionEvent::NewStream(sid),
            ),
    ensures
        !mux_run(m, steps).pending.contains(sid),
        mux_run(m, steps).accepted() != Some(sid),
    decreases steps.len(),
{
    if steps.len() > 0 {
        let front = steps.drop_last();
        let before = mux_run(m, front);
        let after = mux_run(m, steps);
        assert forall|k: int| 0 <= k < front.len() implies #[trigger] front[k] != MuxStep::Event(
            SessionEvent::NewStream(sid),
        ) by {
            assert(front[k] == steps[k]);
        }
        accepted_stream_is_gone(m, sid, front);
        assert(steps[steps.len() - 1] == steps.last());
        if after.pending.contains(sid) {
            let j = choose|j: int| 0 <= j < after.pending.len() && after.pending[j] == sid;
            match steps.last() {
                MuxStep::Event(event) => {
                    assert(j < before.pending.len() ==> before.pending[j] == sid);
                },
                MuxStep::Accept => {
                    if before.pending.len() > 0 {
                        assert(before.pending[j + 1] == sid);
                    }
                },
            }
        }
    }
    if mux_run(m, steps).accepted() == Some(sid) {
        assert(mux_run(m, steps).pending[0] == sid);
    }
}

/// Every accept takes the stream at the head of the line out of it, and leaves
/// the others and their data alone.
pub proof fn accept_takes_the_first(m: MuxView)
    ensures
        m.pending.len() > 0 ==> m.after_accept().pending == m.pending.skip(1)
            && !m.after_accept().unclaimed.contains(m.pending[0]),
        m.pending.len() == 0 ==> m.accepted() is None && m.after_accept() == m,
        m.accepted() matches Some(sid) ==> m.pending.len() > 0 && m.pending[0] == sid,
        m.after_accept().open == m.open,
        m.after_accept().closed == m.closed,
        forall|other: StreamId|
            m.pending.len() > 0 && other != m.pending[0] ==> (m.unclaimed.contains(other)
                <==> #[trigger] m.after_accept().unclaimed.contains(other)),
{
}

/// Every event of a stream comes to its channel: an arrival makes it, data is
/// put into it, and the end closes it, once all data before the end was put into
/// it. Other streams' channels are left alone. After a close nothing happens.
pub proof fn events_reach_their_channel(m: MuxView, event: SessionEvent, other: StreamId)
    ensures
        m.closed ==> m.action(event) is Ignore && m.after(event) == m,
        !m.closed ==> {
            &&& event matches SessionEvent::NewStream(sid) ==> m.action(event)
                == MuxAction::Announce(sid) && m.after(event).open.contains(sid)
            &&& event matches SessionEvent::DataAvailable(sid) ==> m.after(event) == m
                && m.action(event) == (if m.open.contains(sid) {
                MuxAction::Forward(sid)
            } else {
                MuxAction::Discard(sid)
            })
            &&& event matches SessionEvent::StreamFinished(sid) ==> m.action(event)
                == MuxAction::Finish(sid) && !m.after(event).open.contains(sid)
            &&& event is Closed ==> m.action(event) is Close && m.after(event).closed
            &&& event is DatagramReceived || event is SessionTicket ==> m.action(event) is Ignore
                && m.after(event) == m
            &&& !(event is Closed) ==> !m.after(event).closed
            &&& event != SessionEvent::NewStream(other) && event
                != SessionEvent::StreamFinished(other) ==> (m.after(event).open.contains(other)
                <==> m.open.contains(other))
            &&& !(event is NewStream) ==> m.after(event).pending == m.pending
                && m.after(event).unclaimed == m.unclaimed
        },
{
}

/// What a stream's reader has received and not yet handed on.
pub struct ReadBuffer {
    rest: BytesMut,
}

impl View for ReadBuffer {
    type V = Seq<u8>;

    closed spec fn view(&self) -> Seq<u8> {
        bytes_mut_content(self.rest)
    }
}

/// As many bytes as there are, or as there is room for.
pub open spec fn portion(data: Seq<u8>, room: usize) -> int {
    if data.len() <= room {
        data.len() as int
    } else {
        room as int
    }
}

impl ReadBuffer {
    pub fn new() -> (b: Self)
        ensures
            b@ == Seq::<u8>::empty(),
    {
        ReadBuffer { rest: BytesMut::new() }
    }

    /// Nothing is left over.
    pub fn is_empty(&self) -> (empty: bool)
        ensures
            empty == (self@.len() == 0),
    {
        self.rest.is_empty()
    }

    /// Hand on what is left over, as far as there is room.
    pub fn serve(&mut self, room: usize) -> (out: Bytes)
        ensures
            bytes_content(out) == old(self)@.take(portion(old(self)@, room)),
            final(self)@ == old(self)@.skip(portion(old(self)@, room)),
    {
        let len: usize = self.rest.len();
        let n: usize = if len <= room {
            len
        } else {
            room
        };
        self.rest.split_to(n).freeze()
    }

    /// Hand on newly received data, as far as there is room; the rest is kept.
    pub fn deliver(&mut self, data: Bytes, room: usize) -> (out: Bytes)
        requires
            old(self)@.len() == 0,
        ensures
            bytes_content(out) == bytes_content(data).take(portion(bytes_content(data), room)),
            final(self)@ == bytes_content(data).skip(portion(bytes_content(data), room)),
    {
        let len: usize = data.len();
        if len <= room {
            assert(bytes_content(data).take(len as int) =~= bytes_content(data));
            return data;
        }
        let all = bytes_slice(&data);
        self.rest.extend_from_slice(slice_subrange(all, room, len));
        assert(self@ =~= bytes_content(data).skip(room as int));
        let out = Bytes::copy_from_slice(slice_subrange(all, 0, room));
        assert(bytes_content(out) =~= bytes_content(data).take(room as int));
        out
    }
}

/// What is handed on and what is kept make up what was there: no byte is lost,
/// repeated or moved.
pub proof fn read_buffer_keeps_all(data: Seq<u8>, room: usize)
    ensures
        data.take(portion(data, room)) + data.skip(portion(data, room)) == data,
        data.take(portion(data, room)).len() <= room,
        data.len() > 0 && room > 0 ==> data.take(portion(data, room)).len() > 0,
{
    assert(data.take(portion(data, room)) + data.skip(portion(data, room)) =~= data);
}

} // verus!
