//! Unreliable datagrams: bounded queues in both directions.

use crate::buffers::bytes_content;
use crate::session::schedule::{cost, fits_budget, load};
use bytes::Bytes;
use std::collections::VecDeque;
use vstd::prelude::*;

verus! {

/// Datagrams waiting to be sent, and received ones waiting to be read. A full
/// queue makes room by dropping its oldest datagram.
pub struct DatagramQueue {
    max_size: usize,
    max_queue: usize,
    outgoing: VecDeque<Bytes>,
    incoming: VecDeque<Bytes>,
    dropped: u64,
}

/// What a [`DatagramQueue`] stands for.
#[verifier::ext_equal]
pub struct DatagramState {
    /// Longest datagram that can be sent.
    pub max_size: usize,
    /// Most datagrams that wait in either queue.
    pub max_queue: usize,
    pub outgoing: Seq<Seq<u8>>,
    pub incoming: Seq<Seq<u8>>,
    /// Datagrams dropped so far.
    pub dropped: u64,
}

/// The newest `max` of the queued datagrams and one more.
pub open spec fn enqueued(queue: Seq<Seq<u8>>, max: usize, data: Seq<u8>) -> Seq<Seq<u8>> {
    let all = queue.push(data);
    if all.len() <= max {
        all
    } else {
        all.skip(all.len() - max)
    }
}

/// The counter, one higher if a datagram had to be dropped.
pub open spec fn counted(dropped: u64, queue: Seq<Seq<u8>>, max: usize) -> u64 {
    if queue.len() + 1 <= max || dropped == u64::MAX {
        dropped
    } else {
        (dropped + 1) as u64
    }
}

/// How many datagrams from the front of the queue fit into the budget, one packet
/// for each.
pub open spec fn how_many_fit(queue: Seq<Seq<u8>>, budget: Option<u64>) -> nat
    decreases queue.len(),
{
    match budget {
        None => queue.len(),
        Some(most) => if queue.len() == 0 || cost(queue[0]) > most {
            0
        } else {
            1 + how_many_fit(queue.skip(1), Some((most - cost(queue[0])) as u64))
        },
    }
}

/// The first packet's bytes and those of the others are all.
proof fn load_from_front(payloads: Seq<Seq<u8>>)
    requires
        payloads.len() > 0,
    ensures
        load(payloads) == cost(payloads[0]) + load(payloads.skip(1)),
    decreases payloads.len(),
{
    if payloads.len() > 1 {
        load_from_front(payloads.drop_last());
        assert(payloads.drop_last().skip(1) =~= payloads.skip(1).drop_last());
    } else {
        assert(payloads.drop_last() =~= Seq::empty());
        assert(payloads.skip(1) =~= Seq::empty());
    }
}

/// So many fit, and one more would not.
pub proof fn no_more_fit(queue: Seq<Seq<u8>>, budget: Option<u64>)
    ensures
        how_many_fit(queue, budget) <= queue.len(),
        fits_budget(queue.take(how_many_fit(queue, budget) as int), budget),
        how_many_fit(queue, budget) < queue.len() ==> !fits_budget(
            queue.take(how_many_fit(queue, budget) as int + 1),
            budget,
        ),
    decreases queue.len(),
{
    if let Some(most) = budget {
        let n = how_many_fit(queue, budget) as int;
        if n > 0 {
            let rest = Some((most - cost(queue[0])) as u64);
            no_more_fit(queue.skip(1), rest);
            load_from_front(queue.take(n));
            assert(queue.take(n).skip(1) =~= queue.skip(1).take(n - 1));
        } else {
            assert(queue.take(0) =~= Seq::empty());
        }
        if n < queue.len() {
            load_from_front(queue.take(n + 1));
            assert(queue.take(n + 1).skip(1) =~= queue.skip(1).take(n));
        }
    }
}

impl DatagramState {
    pub open spec fn new(max_size: usize, max_queue: usize) -> DatagramState {
        DatagramState {
            max_size,
            max_queue,
            outgoing: Seq::empty(),
            incoming: Seq::empty(),
            dropped: 0,
        }
    }

    /// Neither queue is longer than allowed, no queued datagram too large to send.
    pub open spec fn wf(self) -> bool {
        &&& self.outgoing.len() <= self.max_queue
        &&& self.incoming.len() <= self.max_queue
        &&& forall|i: int|
            0 <= i < self.outgoing.len() ==> (#[trigger] self.outgoing[i]).len() <= self.max_size
    }

    pub open spec fn send(self, data: Seq<u8>) -> DatagramState {
        if data.len() > self.max_size {
            self
        } else {
            DatagramState {
                outgoing: enqueued(self.outgoing, self.max_queue, data),
                dropped: counted(self.dropped, self.outgoing, self.max_queue),
                ..self
            }
        }
    }

    pub open spec fn receive(self, data: Seq<u8>) -> DatagramState {
        DatagramState {
            incoming: enqueued(self.incoming, self.max_queue, data),
            dropped: counted(self.dropped, self.incoming, self.max_queue),
            ..self
        }
    }
}

spec fn contents(queue: Seq<Bytes>) -> Seq<Seq<u8>> {
    queue.map_values(|b: Bytes| bytes_content(b))
}

impl View for DatagramQueue {
    type V = DatagramState;

    closed spec fn view(&self) -> DatagramState {
        DatagramState {
            max_size: self.max_size,
            max_queue: self.max_queue,
            outgoing: contents(self.outgoing@),
            incoming: contents(self.incoming@),
            dropped: self.dropped,
        }
    }
}

/// Append to a queue of at most `max` datagrams; true if one was dropped.
fn enqueue(queue: &mut VecDeque<Bytes>, max: usize, data: Bytes) -> (dropped: bool)
    requires
        old(queue)@.len() <= max,
    ensures
        contents(final(queue)@) == enqueued(contents(old(queue)@), max, bytes_content(data)),
        dropped == (old(queue)@.len() + 1 > max),
        final(queue)@.len() <= max,
{
    let ghost all = contents(queue@).push(bytes_content(data));
    if max == 0 {
        assert(contents(queue@) =~= all.skip(1));
        return true;
    }
    let full: bool = queue.len() >= max;
    if full {
        let _oldest = queue.pop_front();
    }
    queue.push_back(data);
    if full {
        assert(contents(queue@) =~= all.skip(1));
    } else {
        assert(contents(queue@) =~= all);
    }
    full
}

/// Take the oldest datagram out of a queue.
fn dequeue(queue: &mut VecDeque<Bytes>) -> (r: Option<Bytes>)
    ensures
        match r {
            Some(data) => {
                &&& old(queue)@.len() > 0
                &&& bytes_content(data) == contents(old(queue)@)[0]
                &&& contents(final(queue)@) == contents(old(queue)@).skip(1)
            },
            None => old(queue)@.len() == 0 && final(queue)@ == old(queue)@,
        },
{
    let ghost before = contents(queue@);
    let r = queue.pop_front();
    if r.is_some() {
        assert(contents(queue@) =~= before.skip(1));
    }
    r
}

impl DatagramQueue {
    pub fn with_limits(max_size: usize, max_queue: usize) -> (q: Self)
        ensures
            q@ == DatagramState::new(max_size, max_queue),
            q@.wf(),
    {
        let q = DatagramQueue {
            max_size,
            max_queue,
            outgoing: VecDeque::new(),
            incoming: VecDeque::new(),
            dropped: 0,
        };
        assert(q@ =~= DatagramState::new(max_size, max_queue));
        q
    }

    /// Queue a datagram for sending; one that is too large is refused with its size.
    pub fn send(&mut self, data: Bytes) -> (r: Result<(), usize>)
        requires
            old(self)@.wf(),
        ensures
            final(self)@ == old(self)@.send(bytes_content(data)),
            final(self)@.wf(),
            match r {
                Ok(()) => bytes_content(data).len() <= old(self)@.max_size,
                Err(size) => size == bytes_content(data).len() && size > old(self)@.max_size,
            },
    {
        if data.len() > self.max_size {
            return Err(data.len());
        }
        if enqueue(&mut self.outgoing, self.max_queue, data) {
            self.dropped = self.dropped.saturating_add(1);
        }
        Ok(())
    }

    /// How long the next datagram to put on the wire is.
    pub fn next_len(&self) -> (r: Option<usize>)
        ensures
            match r {
                Some(len) => self@.outgoing.len() > 0 && self@.outgoing[0].len() == len,
                None => self@.outgoing.len() == 0,
            },
    {
        if self.outgoing.len() == 0 {
            return None;
        }
        let first = &self.outgoing[0];
        assert(bytes_content(*first) == self@.outgoing[0]);
        Some(first.len())
    }

    /// The next datagram to put on the wire.
    pub fn poll_send(&mut self) -> (r: Option<Bytes>)
        requires
            old(self)@.wf(),
        ensures
            final(self)@.wf(),
            match r {
                Some(data) => {
                    &&& old(self)@.outgoing.len() > 0
                    &&& bytes_content(data) == old(self)@.outgoing[0]
                    &&& final(self)@ == (DatagramState {
                        outgoing: old(self)@.outgoing.skip(1),
                        ..old(self)@
                    })
                },
                None => old(self)@.outgoing.len() == 0 && final(self)@ == old(self)@,
            },
    {
        let r = dequeue(&mut self.outgoing);
        r
    }

    /// Queue a datagram that arrived.
    pub fn receive(&mut self, data: Bytes)
        requires
            old(self)@.wf(),
        ensures
            final(self)@ == old(self)@.receive(bytes_content(data)),
            final(self)@.wf(),
    {
        if enqueue(&mut self.incoming, self.max_queue, data) {
            self.dropped = self.dropped.saturating_add(1);
        }
    }

    /// The next received datagram.
    pub fn recv(&mut self) -> (r: Option<Bytes>)
        requires
            old(self)@.wf(),
        ensures
            final(self)@.wf(),
            match r {
                Some(data) => {
                    &&& old(self)@.incoming.len() > 0
                    &&& bytes_content(data) == old(self)@.incoming[0]
                    &&& final(self)@ == (DatagramState {
                        incoming: old(self)@.incoming.skip(1),
                        ..old(self)@
                    })
                },
                None => old(self)@.incoming.len() == 0 && final(self)@ == old(self)@,
            },
    {
        let r = dequeue(&mut self.incoming);
        r
    }

    /// Datagrams waiting to be sent.
    pub fn send_pending(&self) -> (n: usize)
        ensures
            n == self@.outgoing.len(),
    {
        self.outgoing.len()
    }

    /// Received datagrams waiting to be read.
    pub fn recv_pending(&self) -> (n: usize)
        ensures
            n == self@.incoming.len(),
    {
        self.incoming.len()
    }

    /// Datagrams dropped so far.
    pub fn dropped(&self) -> (n: u64)
        ensures
            n == self@.dropped,
    {
        self.dropped
    }
}

} // verus!
