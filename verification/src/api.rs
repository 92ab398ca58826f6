//! What an application does with a connection, up to the datagrams to send.

use crate::buffers::bytes_content;
use crate::error::{handshake_failed, ErrorView, SeamError};
use crate::packet::PktType;
use crate::session::datagram::DatagramState;
use crate::session::state::SessionState;
use crate::session::stream::{SendState, StreamId, StreamState, PRIORITY_DEFAULT};
use crate::session::TaggedPacket;
use crate::transport::connection::{
    is_conn_flush, is_extra_packet, is_retransmit, ConnState, Connection,
};
use bytes::Bytes;
use vstd::prelude::*;

verus! {

/// How often a handshake is tried.
pub const CONNECT_ATTEMPTS: u32 = 3;

/// Milliseconds to wait before the given attempt, counted from 0: none before
/// the first, then 250 and twice as long each time. Nothing when the attempts
/// are used up.
pub fn retry_delay_ms(attempt: u32) -> (r: Option<u64>)
    ensures
        r == (if attempt >= CONNECT_ATTEMPTS {
            None::<u64>
        } else if attempt == 0 {
            Some(0u64)
        } else if attempt == 1 {
            Some(250u64)
        } else {
            Some(500u64)
        }),
{
    if attempt >= CONNECT_ATTEMPTS {
        None
    } else if attempt == 0 {
        Some(0)
    } else if attempt == 1 {
        Some(250)
    } else {
        Some(500)
    }
}

impl Connection {
    /// Open a locally-initiated stream, if the connection is established and
    /// the session has room for one.
    pub fn open_stream(&mut self) -> (r: Option<StreamId>)
        requires
            old(self)@.wf(),
        ensures
            final(self)@.wf(),
            match r {
                Some(id) => old(self)@.session matches Some(s) && {
                    &&& s.can_open()
                    &&& id == s.next_stream_id
                    &&& final(self)@ == (ConnState {
                        session: Some(s.open(PRIORITY_DEFAULT)),
                        ..old(self)@
                    })
                },
                None => {
                    &&& final(self)@ == old(self)@
                    &&& old(self)@.session matches Some(s) ==> !s.can_open()
                },
            },
    {
        match self.session_mut() {
            Some(session) => session.try_open_stream_with_priority(PRIORITY_DEFAULT),
            None => None,
        }
    }

    /// Open a stream for server-push (semantic alias for `open_stream`).
    pub fn push_stream(&mut self) -> (r: Option<StreamId>)
        requires
            old(self)@.wf(),
        ensures
            final(self)@.wf(),
            match r {
                Some(id) => old(self)@.session matches Some(s) && {
                    &&& s.can_open()
                    &&& id == s.next_stream_id
                    &&& final(self)@ == (ConnState {
                        session: Some(s.open(PRIORITY_DEFAULT)),
                        ..old(self)@
                    })
                },
                None => {
                    &&& final(self)@ == old(self)@
                    &&& old(self)@.session matches Some(s) ==> !s.can_open()
                },
            },
    {
        self.open_stream()
    }

    /// Write `data` into a stream and flush: the packets to send. Data that is
    /// refused changes nothing.
    pub fn write(&mut self, sid: StreamId, data: &[u8], now: u64) -> (r: Result<
        Vec<TaggedPacket>,
        SeamError,
    >)
        requires
            old(self)@.wf(),
        ensures
            final(self)@.wf(),
            match old(self)@.session {
                Some(s) => match s.send_error(sid, data@) {
                    Some(reason) => {
                        &&& r matches Err(e) && e@ == reason
                        &&& final(self)@ == old(self)@
                    },
                    None => is_conn_flush(
                        (ConnState { session: Some(s.send(sid, data@)), ..old(self)@ }),
                        now,
                        r,
                        final(self)@,
                    ),
                },
                None => {
                    &&& r matches Err(e) && e@ == ErrorView::HandshakeFailed("not connected"@)
                    &&& final(self)@ == old(self)@
                },
            },
    {
        let sent = match self.session_mut() {
            Some(session) => session.send(sid, data),
            None => {
                return Err(handshake_failed("not connected"));
            },
        };
        match sent {
            Ok(()) => self.flush(now),
            Err(e) => Err(e),
        }
    }

    /// Read buffered bytes from a stream (up to `max`).
    pub fn read(&mut self, sid: StreamId, max: usize) -> (r: Result<Vec<u8>, SeamError>)
        requires
            old(self)@.wf(),
        ensures
            final(self)@.wf(),
            match old(self)@.session {
                Some(s) => if s.has_stream(sid) {
                    let (data, recv) = s.stream(sid).recv.read(max as nat);
                    &&& r matches Ok(out) && out@ == data
                    &&& final(self)@ == (ConnState {
                        session: Some(
                            s.with_stream(sid, (StreamState { recv, ..s.stream(sid) })),
                        ),
                        ..old(self)@
                    })
                } else {
                    &&& r matches Err(e) && e@ == ErrorView::UnknownStream(sid)
                    &&& final(self)@ == old(self)@
                },
                None => {
                    &&& r matches Err(e) && e@ == ErrorView::HandshakeFailed("not connected"@)
                    &&& final(self)@ == old(self)@
                },
            },
    {
        let mut out: Vec<u8> = Vec::new();
        match self.session_mut() {
            Some(session) => match session.read(sid, &mut out, max) {
                Ok(_) => Ok(out),
                Err(e) => Err(e),
            },
            None => Err(handshake_failed("not connected")),
        }
    }

    /// Read whatever a stream has (up to `max`): nothing where there is no such
    /// stream yet, or no session.
    pub fn read_available(&mut self, sid: StreamId, max: usize) -> (out: Vec<u8>)
        requires
            old(self)@.wf(),
        ensures
            final(self)@.wf(),
            match old(self)@.session {
                Some(s) => if s.has_stream(sid) {
                    let (data, recv) = s.stream(sid).recv.read(max as nat);
                    &&& out@ == data
                    &&& final(self)@ == (ConnState {
                        session: Some(
                            s.with_stream(sid, (StreamState { recv, ..s.stream(sid) })),
                        ),
                        ..old(self)@
                    })
                } else {
                    out@.len() == 0 && final(self)@ == old(self)@
                },
                None => out@.len() == 0 && final(self)@ == old(self)@,
            },
    {
        match self.read(sid, max) {
            Ok(out) => out,
            Err(_) => Vec::new(),
        }
    }

    /// Mark a stream as finished and flush: the packets to send, with the FIN
    /// frame among them.
    pub fn send_fin(&mut self, sid: StreamId, now: u64) -> (r: Result<
        Vec<TaggedPacket>,
        SeamError,
    >)
        requires
            old(self)@.wf(),
        ensures
            final(self)@.wf(),
            is_conn_flush(
                (ConnState {
                    session: match old(self)@.session {
                        Some(s) => Some(finished(s, sid)),
                        None => None,
                    },
                    ..old(self)@
                }),
                now,
                r,
                final(self)@,
            ),
    {
        match self.session_mut() {
            Some(session) => {
                session.finish_stream(sid);
            },
            None => {},
        }
        self.flush(now)
    }

    /// Send an unreliable datagram: the packets to send.
    pub fn send_datagram(&mut self, data: Bytes, now: u64) -> (r: Result<
        Vec<TaggedPacket>,
        SeamError,
    >)
        requires
            old(self)@.wf(),
        ensures
            final(self)@.wf(),
            match old(self)@.session {
                Some(s) => if bytes_content(data).len() > s.datagrams.max_size {
                    &&& r matches Err(e) && e@ == (ErrorView::BufferTooSmall {
                        need: bytes_content(data).len() as usize,
                        have: s.limits.max_datagram_size,
                    })
                    &&& final(self)@ == old(self)@
                } else {
                    is_conn_flush(
                        (ConnState {
                            session: Some(
                                (SessionState {
                                    datagrams: s.datagrams.send(bytes_content(data)),
                                    ..s
                                }),
                            ),
                            ..old(self)@
                        }),
                        now,
                        r,
                        final(self)@,
                    )
                },
                None => {
                    &&& r matches Err(e) && e@ == ErrorView::HandshakeFailed("not connected"@)
                    &&& final(self)@ == old(self)@
                },
            },
    {
        let queued = match self.session_mut() {
            Some(session) => session.send_datagram(data),
            None => {
                return Err(handshake_failed("not connected"));
            },
        };
        match queued {
            Ok(()) => self.flush(now),
            Err(e) => Err(e),
        }
    }

    /// The next received datagram, if any.
    pub fn recv_datagram(&mut self) -> (r: Option<Bytes>)
        requires
            old(self)@.wf(),
        ensures
            final(self)@.wf(),
            match r {
                Some(data) => old(self)@.session matches Some(s) && {
                    &&& s.datagrams.incoming.len() > 0
                    &&& bytes_content(data) == s.datagrams.incoming[0]
                    &&& final(self)@ == (ConnState {
                        session: Some(
                            (SessionState {
                                datagrams: DatagramState {
                                    incoming: s.datagrams.incoming.skip(1),
                                    ..s.datagrams
                                },
                                ..s
                            }),
                        ),
                        ..old(self)@
                    })
                },
                None => {
                    &&& final(self)@ == old(self)@
                    &&& old(self)@.session matches Some(s) ==> s.datagrams.incoming.len() == 0
                },
            },
    {
        match self.session_mut() {
            Some(session) => session.recv_datagram(),
            None => None,
        }
    }

    /// Background work: queue a ping if the peer is silent, flush, send again
    /// what was not acknowledged, and send chaff and a path probe with these
    /// payloads where they are due.
    pub fn tick(&mut self, now: u64, chaff: Option<&[u8]>, probe: Option<&[u8]>) -> (t: Tick)
        requires
            old(self)@.wf(),
        ensures
            final(self)@.wf(),
            is_tick(old(self)@, now, payload_in(chaff), payload_in(probe), t, final(self)@),
    {
        let none: [u8; 0] = [];
        assert(none@ =~= Seq::<u8>::empty());
        let mut t = Tick {
            flushed: Vec::new(),
            again: Vec::new(),
            chaff: None,
            probe: None,
            failed: None,
        };
        self.maybe_queue_ping(now);
        let ghost pinged = self@;
        let flushed = self.flush(now);
        let ghost one = self@;
        assert(is_conn_flush(pinged, now, flushed, one));
        match flushed {
            Ok(packets) => {
                t.flushed = packets;
            },
            Err(e) => {
                t.failed = Some(e);
                return t;
            },
        }
        let again = self.retransmit_expired(now);
        let ghost two = self@;
        assert(is_retransmit(one, now, again, two));
        match again {
            Ok(packets) => {
                t.again = packets;
            },
            Err(e) => {
                t.failed = Some(e);
                return t;
            },
        }
        let sent = self.maybe_send_chaff(
            chaff.is_some(),
            match chaff {
                Some(payload) => payload,
                None => none.as_slice(),
            },
        );
        let ghost three = self@;
        assert(is_extra(two, PktType::Chaff, payload_in(chaff), sent, three));
        match sent {
            Ok(packet) => {
                t.chaff = packet;
            },
            Err(e) => {
                t.failed = Some(e);
                return t;
            },
        }
        let sent = self.maybe_send_probe(
            probe.is_some(),
            match probe {
                Some(payload) => payload,
                None => none.as_slice(),
            },
        );
        assert(is_extra(three, PktType::PathProbe, payload_in(probe), sent, self@));
        match sent {
            Ok(packet) => {
                t.probe = packet;
            },
            Err(e) => {
                t.failed = Some(e);
            },
        }
        t
    }
}

/// What the background work of a connection gives to send, in this order, up to
/// the step that failed, if one did.
pub struct Tick {
    pub flushed: Vec<TaggedPacket>,
    /// Packets to send again.
    pub again: Vec<Vec<u8>>,
    pub chaff: Option<Vec<u8>>,
    pub probe: Option<Vec<u8>>,
    pub failed: Option<SeamError>,
}

/// The bytes of a payload, if there is one.
pub open spec fn payload_in(payload: Option<&[u8]>) -> Option<Seq<u8>> {
    match payload {
        Some(payload) => Some(payload@),
        None => None,
    }
}

/// `r` and `after` are what asking for a packet with this payload gives, or for
/// none.
pub open spec fn is_extra(
    before: ConnState,
    pkt_type: PktType,
    payload: Option<Seq<u8>>,
    r: Result<Option<Vec<u8>>, SeamError>,
    after: ConnState,
) -> bool {
    is_extra_packet(
        before,
        payload is Some,
        pkt_type,
        match payload {
            Some(payload) => payload,
            None => Seq::empty(),
        },
        r,
        after,
    )
}

/// `t` and `after` are what the background work of a connection at `now`
/// gives: a ping if due, then a flush, then retransmission, then chaff, then a
/// probe. What fails ends it.
pub open spec fn is_tick(
    before: ConnState,
    now: u64,
    chaff: Option<Seq<u8>>,
    probe: Option<Seq<u8>>,
    t: Tick,
    after: ConnState,
) -> bool {
    exists|r: Result<Vec<TaggedPacket>, SeamError>, one: ConnState|
        #[trigger] is_conn_flush(before.pinged(now), now, r, one) && match r {
            Ok(packets) => t.flushed == packets && is_tick_flushed(
                one,
                now,
                chaff,
                probe,
                t,
                after,
            ),
            Err(e) => {
                &&& t.failed == Some(e)
                &&& t.flushed@.len() == 0 && t.again@.len() == 0
                &&& t.chaff is None && t.probe is None
                &&& after == one
            },
        }
}

/// The rest of the background work, once the connection is flushed.
pub open spec fn is_tick_flushed(
    before: ConnState,
    now: u64,
    chaff: Option<Seq<u8>>,
    probe: Option<Seq<u8>>,
    t: Tick,
    after: ConnState,
) -> bool {
    exists|r: Result<Vec<Vec<u8>>, SeamError>, two: ConnState|
        #[trigger] is_retransmit(before, now, r, two) && match r {
            Ok(packets) => t.again == packets && is_tick_resent(two, chaff, probe, t, after),
            Err(e) => {
                &&& t.failed == Some(e)
                &&& t.again@.len() == 0
                &&& t.chaff is None && t.probe is None
                &&& after == two
            },
        }
}

/// The rest of the background work, once packets were sent again.
pub open spec fn is_tick_resent(
    before: ConnState,
    chaff: Option<Seq<u8>>,
    probe: Option<Seq<u8>>,
    t: Tick,
    after: ConnState,
) -> bool {
    exists|r: Result<Option<Vec<u8>>, SeamError>, three: ConnState|
        #[trigger] is_extra(before, PktType::Chaff, chaff, r, three) && match r {
            Ok(packet) => {
                &&& t.chaff == packet
                &&& match t.failed {
                    None => is_extra(three, PktType::PathProbe, probe, Ok(t.probe), after),
                    Some(e) => t.probe is None && is_extra(
                        three,
                        PktType::PathProbe,
                        probe,
                        Err(e),
                        after,
                    ),
                }
            },
            Err(e) => {
                &&& t.failed == Some(e)
                &&& t.chaff is None && t.probe is None
                &&& after == three
            },
        }
}

/// The session with the stream's sending side finished, if it has such a stream.
pub open spec fn finished(s: SessionState, sid: StreamId) -> SessionState {
    if s.has_stream(sid) {
        s.with_stream(
            sid,
            StreamState {
                send: SendState { finished: true, ..s.stream(sid).send },
                ..s.stream(sid)
            },
        )
    } else {
        s
    }
}

} // verus!
