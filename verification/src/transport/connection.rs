//! Connection state machine: drives handshake and session.
//!
//! Server-side handshake flow (DDoS-resistant):
//!   1. the server answers a packet of an unknown remote with a stateless
//!      cookie challenge; there is no connection yet
//!   2. `ServerWaitCookie` — the client echoes a valid cookie, which makes the
//!      connection; the server reads message 1
//!   3. `ServerWaitMsg3`   — the server sent message 2; awaits message 3
//!   4. `Established`
//!
//! The machine does no I/O: it hands out datagrams, and is told whether they
//! were sent.

use crate::crypto::decoder::{DecoderState, PacketDecoder};
use crate::crypto::encoder::{EncoderState, PacketEncoder};
use crate::crypto::format::has_packet_length;
use crate::crypto::keys::array_32_at;
use crate::error::{handshake_failed, ErrorView, SeamError};
use crate::handshake::cookie::{cookie_for, CookieFactory};
use crate::handshake::hybrid_keys::{IdentityKeypair, KemPublicKey};
use crate::handshake::kem::{decapsulated, encapsulates, KEM_PUBLIC_LEN};
use crate::handshake::noise::{
    answers_initiators, is_read_by_peer, noise_initiator, noise_reads, noise_responder,
    noise_writes, MAX_NOISE,
};
use crate::handshake::state::{
    is_client_end, is_client_end_with, is_noise_failure, is_server_end, key_in, messages_agree,
    messages_in_step, prefix_round_trip, prefixed, ClientHandshake, HandshakeResult,
    ServerHandshake,
};
use crate::packet::PktType;
use crate::session::arq::{flying, Sent};
use crate::session::laws::{flush_keeps_its_budget, flush_order};
use crate::session::schedule::{
    cost, frame_count, is_schedule, load_with, scheduled, some_frame_comes_first,
};
use crate::session::state::SessionState;
use crate::session::stream::clamp_u64;
use crate::session::{
    count_data_bytes, data_bytes, default_limits, is_flush, is_raw_packet, is_receive, Role,
    Session, SessionEvent, TaggedPacket,
};
use crate::text::{hex_byte, push_hex_byte};
use crate::transport::fec::{ArbiterMode, FecGroups, FecSource};
use crate::transport::pacer::{at_least_one, total, Leaving, Pacer, FULL_PACKET};
use crate::transport::resumption::{is_issued, TicketKey};
use crate::wire::{
    bytes_at, le_bytes, le_bytes_len, le_round_trip, le_value, pow256_values, put_u16_le,
    u16_le_at,
};
use std::sync::Arc;
use vstd::prelude::*;

verus! {

// ── Framing of packets before the session ────────────────────────────────────
// Cookie request:    type
// Cookie challenge:  type, cookie (32)
// Cookie echo:       type, cookie (32), length of message 1 (2), message 1
// Handshake message: type, message
pub const PKT_COOKIE_REQ: u8 = 0x10;

pub const PKT_COOKIE_CHALLENGE: u8 = 0x11;

pub const PKT_COOKIE_ECHO: u8 = 0x12;

pub const PKT_HANDSHAKE_MSG: u8 = 0x13;

/// Silence after which a connection counts as idle: 60 seconds.
pub const IDLE_US: u64 = 60_000_000;

#[derive(Debug, Clone, Copy, PartialEq, Eq, Structural)]
pub enum ConnPhase {
    /// Client: sent cookie request, waiting for challenge.
    ClientWaitChallenge,
    /// Client: sent cookie echo (message 1), waiting for message 2.
    ClientWaitMsg2,
    /// Server: the client has echoed its cookie, waiting for the echo's message 1.
    ServerWaitCookie,
    /// Server: read message 1, sent message 2, waiting for message 3.
    ServerWaitMsg3,
    Established,
    Draining,
    Closed,
}

pub open spec fn challenge_packet(cookie: Seq<u8>) -> Seq<u8> {
    seq![PKT_COOKIE_CHALLENGE] + cookie
}

pub open spec fn echo_packet(cookie: Seq<u8>, msg1: Seq<u8>) -> Seq<u8> {
    seq![PKT_COOKIE_ECHO] + cookie + le_bytes(msg1.len(), 2) + msg1
}

pub open spec fn handshake_packet(msg: Seq<u8>) -> Seq<u8> {
    seq![PKT_HANDSHAKE_MSG] + msg
}

/// The cookie in a challenge; bytes behind it are ignored.
pub open spec fn challenge_cookie(buf: Seq<u8>) -> Option<Seq<u8>> {
    if buf.len() < 33 || buf[0] != PKT_COOKIE_CHALLENGE {
        None
    } else {
        Some(buf.subrange(1, 33))
    }
}

/// The packet is long enough for an echo and has its type.
pub open spec fn is_echo(buf: Seq<u8>) -> bool {
    buf.len() >= 35 && buf[0] == PKT_COOKIE_ECHO
}

/// The packet echoes the cookie that the secret makes for the address.
pub open spec fn is_valid_echo(secret: Seq<u8>, address: Seq<u8>, buf: Seq<u8>) -> bool {
    is_echo(buf) && echo_cookie(buf) == cookie_for(secret, address)
}

/// The cookie in an echo.
pub open spec fn echo_cookie(buf: Seq<u8>) -> Seq<u8> {
    buf.subrange(1, 33)
}

/// Message 1 in an echo, unless the packet ends before it.
pub open spec fn echo_msg1(buf: Seq<u8>) -> Option<Seq<u8>> {
    let len = le_value(buf.subrange(33, 35)) as int;
    if buf.len() < 35 + len {
        None
    } else {
        Some(buf.subrange(35, 35 + len))
    }
}

/// The packet has the type of a handshake message.
pub open spec fn is_handshake(buf: Seq<u8>) -> bool {
    buf.len() > 0 && buf[0] == PKT_HANDSHAKE_MSG
}

/// The cookie request that starts a handshake.
pub fn cookie_request() -> (out: Vec<u8>)
    ensures
        out@ == seq![PKT_COOKIE_REQ],
{
    let mut out: Vec<u8> = Vec::new();
    out.push(PKT_COOKIE_REQ);
    assert(out@ =~= seq![PKT_COOKIE_REQ]);
    out
}

/// The cookie challenge for an address.
pub fn build_challenge(factory: &CookieFactory, address: &[u8]) -> (out: Vec<u8>)
    ensures
        out@ == challenge_packet(cookie_for(factory@, address@)),
{
    let cookie = factory.generate(address);
    let mut out: Vec<u8> = Vec::new();
    out.push(PKT_COOKIE_CHALLENGE);
    out.extend_from_slice(cookie.as_slice());
    assert(out@ =~= challenge_packet(cookie@));
    out
}

/// The packet echoes the cookie that was made for the address.
pub fn echoes_cookie(factory: &CookieFactory, address: &[u8], buf: &[u8]) -> (yes: bool)
    ensures
        yes == is_valid_echo(factory@, address@, buf@),
{
    if buf.len() < 35 || buf[0] != PKT_COOKIE_ECHO {
        return false;
    }
    let cookie = array_32_at(buf, 1);
    factory.verify(address, &cookie)
}

fn build_echo(cookie: &[u8], msg1: &[u8]) -> (out: Vec<u8>)
    requires
        cookie@.len() == 32,
        msg1@.len() <= 0xFFFF,
    ensures
        out@ == echo_packet(cookie@, msg1@),
{
    let mut out: Vec<u8> = Vec::new();
    out.push(PKT_COOKIE_ECHO);
    out.extend_from_slice(cookie);
    put_u16_le(&mut out, msg1.len() as u16);
    out.extend_from_slice(msg1);
    assert(out@ =~= echo_packet(cookie@, msg1@));
    out
}

fn build_handshake(msg: &[u8]) -> (out: Vec<u8>)
    ensures
        out@ == handshake_packet(msg@),
{
    let mut out: Vec<u8> = Vec::new();
    out.push(PKT_HANDSHAKE_MSG);
    out.extend_from_slice(msg);
    assert(out@ =~= handshake_packet(msg@));
    out
}

/// A server reads from an echo what the client put into it.
pub proof fn echo_round_trip(cookie: Seq<u8>, msg1: Seq<u8>)
    requires
        cookie.len() == 32,
        msg1.len() <= 0xFFFF,
    ensures
        is_echo(echo_packet(cookie, msg1)),
        echo_cookie(echo_packet(cookie, msg1)) == cookie,
        echo_msg1(echo_packet(cookie, msg1)) == Some(msg1),
{
    let buf = echo_packet(cookie, msg1);
    pow256_values();
    le_bytes_len(msg1.len(), 2);
    le_round_trip(msg1.len(), 2);
    assert(buf.subrange(1, 33) =~= cookie);
    assert(buf.subrange(33, 35) =~= le_bytes(msg1.len(), 2));
    assert(buf.subrange(35, 35 + msg1.len() as int) =~= msg1);
}

/// A client reads from a challenge the cookie that the server put into it.
pub proof fn challenge_round_trip(cookie: Seq<u8>)
    requires
        cookie.len() == 32,
    ensures
        challenge_cookie(challenge_packet(cookie)) == Some(cookie),
{
    assert(challenge_packet(cookie).subrange(1, 33) =~= cookie);
}

/// The complaint about a packet of the wrong type; an empty one counts as 0xff.
pub open spec fn type_complaint(expected: u8, buf: Seq<u8>) -> Seq<char> {
    "expected pkt type 0x"@ + hex_byte(expected) + ", got 0x"@ + hex_byte(
        if buf.len() > 0 {
            buf[0]
        } else {
            0xff
        },
    )
}

/// The packet without its type, which must be the expected one.
fn strip_type(buf: &[u8], expected: u8) -> (r: Result<&[u8], SeamError>)
    ensures
        match r {
            Ok(rest) => buf@.len() > 0 && buf@[0] == expected && rest@ == buf@.skip(1),
            Err(e) => {
                &&& buf@.len() == 0 || buf@[0] != expected
                &&& e@ == ErrorView::HandshakeFailed(type_complaint(expected, buf@))
            },
        },
{
    if buf.len() == 0 || buf[0] != expected {
        let got: u8 = if buf.len() == 0 {
            0xff
        } else {
            buf[0]
        };
        let mut text = String::new();
        text.push_str("expected pkt type 0x");
        push_hex_byte(&mut text, expected);
        text.push_str(", got 0x");
        push_hex_byte(&mut text, got);
        assert(text@ =~= type_complaint(expected, buf@));
        return Err(SeamError::HandshakeFailed(text));
    }
    let rest = bytes_at(buf, 1, buf.len() - 1);
    assert(rest@ =~= buf@.skip(1));
    Ok(rest)
}

// ── The machine ──────────────────────────────────────────────────────────────
/// What to do after a packet.
pub enum Action {
    Nothing,
    /// Send the datagram, then say whether that worked.
    Send(Vec<u8>),
    /// Hand the events to the application; flush the session if asked to.
    Deliver { events: Vec<SessionEvent>, flush: bool },
}

/// What becomes of the connection once its datagram is sent.
enum Pending {
    Nothing,
    /// The client has echoed the cookie.
    AwaitMsg2,
    /// The server has answered message 1.
    AwaitMsg3(ServerHandshake),
    /// The client has sent message 3.
    Establish(HandshakeResult),
}

/// What becomes of the connection once its datagram is sent.
pub enum PendingState {
    Nothing,
    AwaitMsg2,
    AwaitMsg3(snow::HandshakeState),
    Establish(HandshakeResult),
}

/// A connection, client or server side.
pub struct Connection {
    phase: ConnPhase,
    /// The peer's address as text, to which cookies are bound.
    address: Vec<u8>,
    client_hs: Option<ClientHandshake>,
    server_hs: Option<ServerHandshake>,
    server_identity: Option<Arc<IdentityKeypair>>,
    cookie_factory: Option<Arc<CookieFactory>>,
    /// The server's KEM public key, held by the client until the challenge arrives.
    server_kem_pk: Option<KemPublicKey>,
    session: Option<Session>,
    pending: Pending,
    /// How much data may leave.
    pacer: Pacer,
    /// The group of packets that forward error correction fills.
    fec: FecGroups,
    /// Packets sent.
    send_counter: u64,
    /// When the peer was last heard, in microseconds.
    last_heard: u64,
}

/// What a [`Connection`] stands for.
pub struct ConnState {
    pub phase: ConnPhase,
    pub address: Seq<u8>,
    /// The client's side of an unfinished handshake.
    pub client_hs: Option<snow::HandshakeState>,
    /// The server's side of an unfinished handshake.
    pub server_hs: Option<snow::HandshakeState>,
    /// The identity of a server that is not yet established.
    pub server_identity: Option<IdentityKeypair>,
    /// The secret of the cookies of a server that is not yet established.
    pub cookie_secret: Option<Seq<u8>>,
    pub server_kem_pk: Option<Seq<u8>>,
    pub session: Option<SessionState>,
    pub pending: PendingState,
    pub pacer: Pacer,
    pub fec: FecGroups,
    pub send_counter: u64,
    pub last_heard: u64,
}

impl View for Connection {
    type V = ConnState;

    closed spec fn view(&self) -> ConnState {
        ConnState {
            phase: self.phase,
            address: self.address@,
            client_hs: match self.client_hs {
                Some(hs) => Some(hs@),
                None => None,
            },
            server_hs: match self.server_hs {
                Some(hs) => Some(hs@),
                None => None,
            },
            server_identity: match self.server_identity {
                Some(id) => Some(*id),
                None => None,
            },
            cookie_secret: match self.cookie_factory {
                Some(f) => Some((*f)@),
                None => None,
            },
            server_kem_pk: match self.server_kem_pk {
                Some(pk) => Some(pk@),
                None => None,
            },
            session: match self.session {
                Some(s) => Some(s@),
                None => None,
            },
            pending: match self.pending {
                Pending::Nothing => PendingState::Nothing,
                Pending::AwaitMsg2 => PendingState::AwaitMsg2,
                Pending::AwaitMsg3(hs) => PendingState::AwaitMsg3(hs@),
                Pending::Establish(result) => PendingState::Establish(result),
            },
            pacer: self.pacer,
            fec: self.fec,
            send_counter: self.send_counter,
            last_heard: self.last_heard,
        }
    }
}

impl ConnState {
    /// A new connection in the given phase.
    pub open spec fn new(phase: ConnPhase, address: Seq<u8>, now: u64) -> ConnState {
        ConnState {
            phase,
            address,
            client_hs: None,
            server_hs: None,
            server_identity: None,
            cookie_secret: None,
            server_kem_pk: None,
            session: None,
            pending: PendingState::Nothing,
            pacer: Pacer::unlimited(),
            fec: FecGroups::first(),
            send_counter: 0,
            last_heard: now,
        }
    }

    /// An established connection has a session, and sessions are well-formed.
    pub open spec fn wf(self) -> bool {
        &&& self.phase == ConnPhase::Established ==> self.session is Some
        &&& self.session matches Some(s) ==> s.wf()
    }

    /// The role that this side takes: a server knows its identity.
    pub open spec fn role(self) -> Role {
        if self.server_identity is Some {
            Role::Server
        } else {
            Role::Client
        }
    }

    /// The session that a finished handshake starts.
    pub open spec fn new_session(self, result: HandshakeResult) -> SessionState {
        SessionState::new(
            result.session_id,
            self.role(),
            EncoderState { keys: result.keys, session_id: result.session_id, next: 0 },
            DecoderState::new(result.keys),
            default_limits(),
        )
    }

    /// The connection once the handshake is finished.
    pub open spec fn established(self, result: HandshakeResult) -> ConnState {
        ConnState {
            phase: ConnPhase::Established,
            session: Some(self.new_session(result)),
            server_identity: None,
            cookie_secret: None,
            server_kem_pk: None,
            ..self
        }
    }

    /// The connection with a ping queued, if the peer was silent for a quarter
    /// of the idle time.
    pub open spec fn pinged(self, now: u64) -> ConnState {
        match self.session {
            Some(s) => if now - self.last_heard >= IDLE_US / 4 {
                ConnState { session: Some(SessionState { pending_ping: true, ..s }), ..self }
            } else {
                self
            },
            None => self,
        }
    }

    /// The connection once its datagram is sent.
    pub open spec fn sent(self) -> ConnState {
        let after = ConnState { pending: PendingState::Nothing, ..self };
        match self.pending {
            PendingState::Nothing => after,
            PendingState::AwaitMsg2 => ConnState { phase: ConnPhase::ClientWaitMsg2, ..after },
            PendingState::AwaitMsg3(hs) => ConnState {
                phase: ConnPhase::ServerWaitMsg3,
                server_hs: Some(hs),
                ..after
            },
            PendingState::Establish(result) => after.established(result),
        }
    }
}

/// The action is to send this packet.
pub open spec fn sends(action: Action, packet: Seq<u8>) -> bool {
    action matches Action::Send(bytes_sent) && bytes_sent@ == packet
}

/// The step is refused for the given reason.
pub open spec fn fails(r: Result<Action, SeamError>, reason: Seq<char>) -> bool {
    r matches Err(e) && e@ == ErrorView::HandshakeFailed(reason)
}

/// The step is refused because a Noise operation failed with `cause`.
pub open spec fn noise_fails(r: Result<Action, SeamError>, cause: snow::Error) -> bool {
    r matches Err(e) && is_noise_failure(e, cause)
}

/// What a client makes of the answer to its cookie request: it echoes the
/// cookie, with message 1 for the server's KEM key.
pub open spec fn is_challenge_step(
    before: ConnState,
    buf: Seq<u8>,
    r: Result<Action, SeamError>,
    after: ConnState,
) -> bool {
    match (challenge_cookie(buf), before.client_hs, before.server_kem_pk) {
        (None, _, _) => fails(r, "expected cookie challenge"@) && after == before,
        (_, None, _) => fails(r, "no client hs"@) && after == before,
        (_, _, None) => fails(r, "no server kem pk"@) && after == before,
        (Some(cookie), Some(hs), Some(pk)) => match (r, after.client_hs) {
            (Ok(action), Some(hs_after)) => {
                &&& after == (ConnState {
                    client_hs: Some(hs_after),
                    pending: PendingState::AwaitMsg2,
                    ..before
                })
                &&& exists|msg1: Seq<u8>|
                    #[trigger] noise_writes(hs, prefixed(pk), Ok(msg1), hs_after)
                        && is_read_by_peer(hs, prefixed(pk), msg1, hs_after) && msg1.len()
                        <= MAX_NOISE && sends(action, echo_packet(cookie, msg1))
            },
            (Err(_), Some(hs_after)) => {
                &&& after == (ConnState { client_hs: Some(hs_after), ..before })
                &&& exists|cause: snow::Error| #[trigger]
                    noise_writes(hs, prefixed(pk), Err(cause), hs_after) && noise_fails(r, cause)
            },
            (_, None) => false,
        },
    }
}

/// What a client makes of message 2: it answers with message 3 for the key
/// that message 2 carries, and will be established once that is sent.
pub open spec fn is_msg2_step(
    before: ConnState,
    buf: Seq<u8>,
    r: Result<Action, SeamError>,
    after: ConnState,
) -> bool {
    if !is_handshake(buf) {
        fails(r, type_complaint(PKT_HANDSHAKE_MSG, buf)) && after == before
    } else {
        match before.client_hs {
            None => fails(r, "no client hs"@) && after == before,
            Some(hs) => {
                let (payload, hs_read) = noise_reads(hs, buf.skip(1));
                match payload {
                    Err(cause) => noise_fails(r, cause) && after == (ConnState {
                        client_hs: Some(hs_read),
                        ..before
                    }),
                    Ok(payload) => match key_in(payload) {
                        Err(reason) => fails(r, reason) && after == (ConnState {
                            client_hs: Some(hs_read),
                            ..before
                        }),
                        Ok(pk) => is_msg3_written(before, hs_read, pk, r, after),
                    },
                }
            },
        }
    }
}

/// What a client makes of the key in message 2.
pub open spec fn is_msg3_written(
    before: ConnState,
    hs: snow::HandshakeState,
    pk: Seq<u8>,
    r: Result<Action, SeamError>,
    after: ConnState,
) -> bool {
    exists|end: Result<HandshakeResult, SeamError>, msg3: Seq<u8>|
        {
            &&& #[trigger] is_client_end(hs, pk, Seq::empty(), end, msg3)
            &&& match (end, r) {
                (Ok(result), Ok(action)) => {
                    &&& sends(action, handshake_packet(msg3))
                    &&& after == (ConnState {
                        client_hs: None,
                        pending: PendingState::Establish(result),
                        ..before
                    })
                },
                (Err(reason), Err(e)) => e == reason && after == (ConnState {
                    client_hs: None,
                    ..before
                }),
                _ => false,
            }
        }
}

/// What a server makes of a cookie echo: nothing is remembered of a client
/// whose cookie is not valid. Otherwise message 1 is read, and answered with
/// message 2, which carries the server's KEM key.
pub open spec fn is_echo_step(
    before: ConnState,
    buf: Seq<u8>,
    r: Result<Action, SeamError>,
    after: ConnState,
) -> bool {
    if !is_echo(buf) {
        fails(r, "expected cookie echo"@) && after == before
    } else {
        match before.cookie_secret {
            None => fails(r, "no cookie factory"@) && after == before,
            Some(secret) => if echo_cookie(buf) != cookie_for(secret, before.address) {
                fails(r, "invalid cookie"@) && after == before
            } else {
                match (echo_msg1(buf), before.server_identity) {
                    (None, _) => fails(r, "truncated msg1"@) && after == before,
                    (_, None) => fails(r, "no server identity"@) && after == before,
                    (Some(msg1), Some(identity)) => is_msg1_step(before, identity, msg1, r, after),
                }
            },
        }
    }
}

/// What a server with the given identity makes of message 1.
pub open spec fn is_msg1_step(
    before: ConnState,
    identity: IdentityKeypair,
    msg1: Seq<u8>,
    r: Result<Action, SeamError>,
    after: ConnState,
) -> bool {
    match noise_responder(identity.x25519_secret@) {
        Err(cause) => noise_fails(r, cause) && after == before,
        Ok(hs) => {
            let (payload, hs_read) = noise_reads(hs, msg1);
            match payload {
                Err(cause) => noise_fails(r, cause) && after == before,
                Ok(_) => match r {
                    Ok(action) => exists|msg2: Seq<u8>, hs_after: snow::HandshakeState|
                        {
                            &&& #[trigger] noise_writes(
                                hs_read,
                                prefixed(identity.kem_pk@),
                                Ok(msg2),
                                hs_after,
                            )
                            &&& answers_initiators(hs, identity.x25519_secret@)
                            &&& is_read_by_peer(
                                hs_read,
                                prefixed(identity.kem_pk@),
                                msg2,
                                hs_after,
                            )
                            &&& msg2.len() <= MAX_NOISE
                            &&& sends(action, handshake_packet(msg2))
                            &&& after == (ConnState {
                                pending: PendingState::AwaitMsg3(hs_after),
                                ..before
                            })
                        },
                    Err(_) => {
                        &&& after == before
                        &&& exists|cause: snow::Error, hs_after: snow::HandshakeState| #[trigger]
                            noise_writes(
                                hs_read,
                                prefixed(identity.kem_pk@),
                                Err(cause),
                                hs_after,
                            ) && noise_fails(r, cause)
                    },
                },
            }
        },
    }
}

/// What a server makes of message 3: the connection is established, with the
/// session that the message makes.
pub open spec fn is_msg3_step(
    before: ConnState,
    buf: Seq<u8>,
    r: Result<Action, SeamError>,
    after: ConnState,
) -> bool {
    if !is_handshake(buf) {
        fails(r, type_complaint(PKT_HANDSHAKE_MSG, buf)) && after == before
    } else {
        match (before.server_hs, before.server_identity) {
            (None, _) => fails(r, "no server hs"@) && after == before,
            (_, None) => fails(r, "no server identity"@) && after == (ConnState {
                server_hs: None,
                ..before
            }),
            (Some(hs), Some(identity)) => match r {
                Ok(action) => {
                    &&& action is Nothing
                    &&& exists|result: HandshakeResult|
                        is_server_end(hs, identity.kem_sk@, buf.skip(1), Ok(result)) && after == (
                        ConnState { server_hs: None, ..#[trigger] before.established(result) })
                },
                Err(e) => {
                    &&& is_server_end(hs, identity.kem_sk@, buf.skip(1), Err(e))
                    &&& after == (ConnState { server_hs: None, ..before })
                },
            },
        }
    }
}

/// What an established connection makes of a packet: the session receives it,
/// and is flushed at once if a window update is due, or if data waits for the
/// congestion window.
pub open spec fn is_data_step(
    before: ConnState,
    buf: Seq<u8>,
    now: u64,
    r: Result<Action, SeamError>,
    after: ConnState,
) -> bool {
    match (before.session, after.session) {
        (Some(session), Some(session_after)) => {
            &&& after == (ConnState { session: Some(session_after), ..before })
            &&& match r {
                Ok(Action::Deliver { events, flush }) => {
                    &&& is_receive(session, buf, now, Ok(events), session_after)
                    &&& flush == (session_after.pending_max_data is Some || (before.pacer.window
                        is Some && frame_count(session_after.streams) > 0))
                },
                Ok(_) => false,
                Err(e) => is_receive(session, buf, now, Err(e), session_after),
            }
        },
        _ => false,
    }
}

/// What a connection makes of a packet at `now`.
pub open spec fn is_step(
    before: ConnState,
    buf: Seq<u8>,
    now: u64,
    r: Result<Action, SeamError>,
    after: ConnState,
) -> bool {
    let heard = ConnState { pending: PendingState::Nothing, last_heard: now, ..before };
    if buf.len() == 0 {
        r matches Ok(action) && action is Nothing && after == (ConnState {
            pending: PendingState::Nothing,
            ..before
        })
    } else {
        match before.phase {
            ConnPhase::ClientWaitChallenge => is_challenge_step(heard, buf, r, after),
            ConnPhase::ClientWaitMsg2 => is_msg2_step(heard, buf, r, after),
            ConnPhase::ServerWaitCookie => is_echo_step(heard, buf, r, after),
            ConnPhase::ServerWaitMsg3 => is_msg3_step(heard, buf, r, after),
            ConnPhase::Established => is_data_step(heard, buf, now, r, after),
            ConnPhase::Draining | ConnPhase::Closed => r matches Ok(action) && action is Nothing
                && after == heard,
        }
    }
}

impl Connection {
    fn new_base(phase: ConnPhase, address: Vec<u8>, now: u64) -> (c: Self)
        ensures
            c@ == ConnState::new(phase, address@, now),
    {
        Connection {
            phase,
            address,
            client_hs: None,
            server_hs: None,
            server_identity: None,
            cookie_factory: None,
            server_kem_pk: None,
            session: None,
            pending: Pending::Nothing,
            pacer: Pacer::new(),
            fec: FecGroups::new(),
            send_counter: 0,
            last_heard: now,
        }
    }

    /// Prepare an outbound connection, for which a cookie request has been
    /// sent: request, challenge, echo with message 1, message 2, message 3,
    /// established.
    pub fn connect(
        address: Vec<u8>,
        local_identity: &IdentityKeypair,
        server_x25519: &[u8; 32],
        server_kem_pk: &KemPublicKey,
        now: u64,
    ) -> (r: Result<Self, SeamError>)
        ensures
            match r {
                Ok(c) => {
                    &&& c@.wf()
                    &&& noise_initiator(local_identity.x25519_secret@, server_x25519@) matches Ok(
                        hs,
                    ) && c@ == (ConnState {
                        client_hs: Some(hs),
                        server_kem_pk: Some(server_kem_pk@),
                        ..ConnState::new(ConnPhase::ClientWaitChallenge, address@, now)
                    })
                },
                Err(e) => noise_initiator(
                    local_identity.x25519_secret@,
                    server_x25519@,
                ) matches Err(cause) && is_noise_failure(e, cause),
            },
    {
        let client_hs = match ClientHandshake::new(local_identity, server_x25519) {
            Ok(hs) => hs,
            Err(e) => {
                return Err(e);
            },
        };
        let mut c = Self::new_base(ConnPhase::ClientWaitChallenge, address, now);
        c.client_hs = Some(client_hs);
        // Kept for message 1, which is written when the challenge arrives.
        c.server_kem_pk = Some(server_kem_pk.duplicate());
        Ok(c)
    }

    /// Answer a packet of a remote that is not known yet. One that echoes the
    /// cookie for its address makes a server-side connection, which is to be
    /// handed the packet; for any other there is only the cookie challenge to
    /// send, and no state is allocated.
    pub fn accept_challenge(
        address: Vec<u8>,
        server_identity: Arc<IdentityKeypair>,
        cookie_factory: Arc<CookieFactory>,
        buf: &[u8],
        now: u64,
    ) -> (r: Result<Self, Vec<u8>>)
        ensures
            match r {
                Ok(c) => {
                    &&& is_valid_echo((*cookie_factory)@, address@, buf@)
                    &&& c@.wf()
                    &&& c@ == (ConnState {
                        server_identity: Some(*server_identity),
                        cookie_secret: Some((*cookie_factory)@),
                        ..ConnState::new(ConnPhase::ServerWaitCookie, address@, now)
                    })
                },
                Err(challenge) => {
                    &&& !is_valid_echo((*cookie_factory)@, address@, buf@)
                    &&& challenge@ == challenge_packet(cookie_for((*cookie_factory)@, address@))
                },
            },
    {
        if !echoes_cookie(&cookie_factory, address.as_slice(), buf) {
            return Err(build_challenge(&cookie_factory, address.as_slice()));
        }
        let mut c = Self::new_base(ConnPhase::ServerWaitCookie, address, now);
        c.server_identity = Some(server_identity);
        c.cookie_factory = Some(cookie_factory);
        Ok(c)
    }

    fn finish_handshake(&mut self, result: HandshakeResult)
        requires
            old(self)@.wf(),
        ensures
            final(self)@ == old(self)@.established(result),
            final(self)@.wf(),
    {
        let encoder = PacketEncoder::new(result.keys, result.session_id);
        let decoder = PacketDecoder::new(result.keys);
        // Servers allocate even stream ids, clients odd ones.
        let role = if self.server_identity.is_some() {
            Role::Server
        } else {
            Role::Client
        };
        self.session = Some(Session::with_role(result.session_id, role, encoder, decoder));
        self.phase = ConnPhase::Established;
        self.server_identity = None;
        self.cookie_factory = None;
        self.server_kem_pk = None;
    }

    // ── Ingress ──────────────────────────────────────────────────────────────
    /// Process a packet that arrived at `now`. Where a datagram is to be sent,
    /// `on_sent` completes the step; without it the step did not happen.
    pub fn on_packet(&mut self, buf: &[u8], now: u64) -> (r: Result<Action, SeamError>)
        requires
            old(self)@.wf(),
        ensures
            is_step(old(self)@, buf@, now, r, final(self)@),
            final(self)@.wf(),
    {
        self.pending = Pending::Nothing;
        if buf.len() == 0 {
            return Ok(Action::Nothing);
        }
        self.last_heard = now;
        match self.phase {
            ConnPhase::ClientWaitChallenge => self.client_rx_challenge(buf),
            ConnPhase::ClientWaitMsg2 => self.client_rx_msg2(buf),
            ConnPhase::ServerWaitCookie => self.server_rx_cookie_echo(buf),
            ConnPhase::ServerWaitMsg3 => self.server_rx_msg3(buf),
            ConnPhase::Established => self.on_data_packet(buf, now),
            ConnPhase::Draining | ConnPhase::Closed => Ok(Action::Nothing),
        }
    }

    /// The datagram handed out last was sent.
    pub fn on_sent(&mut self)
        requires
            old(self)@.wf(),
        ensures
            final(self)@ == old(self)@.sent(),
            final(self)@.wf(),
    {
        let mut pending = Pending::Nothing;
        std::mem::swap(&mut self.pending, &mut pending);
        match pending {
            Pending::Nothing => {},
            Pending::AwaitMsg2 => {
                self.phase = ConnPhase::ClientWaitMsg2;
            },
            Pending::AwaitMsg3(hs) => {
                self.server_hs = Some(hs);
                self.phase = ConnPhase::ServerWaitMsg3;
            },
            Pending::Establish(result) => {
                self.finish_handshake(result);
            },
        }
    }

    // Client received the cookie challenge: echo it back with message 1.
    fn client_rx_challenge(&mut self, buf: &[u8]) -> (r: Result<Action, SeamError>)
        requires
            old(self)@.wf(),
            old(self)@.phase != ConnPhase::Established,
            old(self)@.pending is Nothing,
        ensures
            is_challenge_step(old(self)@, buf@, r, final(self)@),
            final(self)@.wf(),
    {
        if buf.len() < 33 || buf[0] != PKT_COOKIE_CHALLENGE {
            return Err(handshake_failed("expected cookie challenge"));
        }
        let cookie = bytes_at(buf, 1, 32);
        let mut msg1: Vec<u8> = Vec::new();
        match &mut self.client_hs {
            Some(hs) => match &self.server_kem_pk {
                Some(pk) => match hs.write_msg1(pk, &mut msg1) {
                    Ok(()) => {},
                    Err(e) => {
                        let r: Result<Action, SeamError> = Err(e);
                        proof {
                            let before = old(self)@.client_hs->0;
                            let cause = choose|cause: snow::Error| #[trigger]
                                noise_writes(before, prefixed(pk@), Err(cause), hs@)
                                    && is_noise_failure(e, cause);
                            let key = old(self)@.server_kem_pk->0;
                            assert(key == pk@);
                            assert(noise_writes(before, prefixed(key), Err(cause), hs@));
                            assert(noise_fails(r, cause));
                        }
                        return r;
                    },
                },
                None => {
                    return Err(handshake_failed("no server kem pk"));
                },
            },
            None => {
                return Err(handshake_failed("no client hs"));
            },
        }
        let echo = build_echo(cookie, msg1.as_slice());
        self.pending = Pending::AwaitMsg2;
        let action = Action::Send(echo);
        proof {
            let hs = old(self)@.client_hs->0;
            let pk = old(self)@.server_kem_pk->0;
            assert(noise_writes(hs, prefixed(pk), Ok(msg1@), self@.client_hs->0));
            assert(sends(action, echo_packet(cookie@, msg1@)));
        }
        Ok(action)
    }

    // Client received message 2: write message 3.
    fn client_rx_msg2(&mut self, buf: &[u8]) -> (r: Result<Action, SeamError>)
        requires
            old(self)@.wf(),
            old(self)@.phase != ConnPhase::Established,
            old(self)@.pending is Nothing,
        ensures
            is_msg2_step(old(self)@, buf@, r, final(self)@),
            final(self)@.wf(),
    {
        let payload = match strip_type(buf, PKT_HANDSHAKE_MSG) {
            Ok(payload) => payload,
            Err(e) => {
                return Err(e);
            },
        };
        let mut taken: Option<ClientHandshake> = None;
        std::mem::swap(&mut self.client_hs, &mut taken);
        let mut hs = match taken {
            Some(hs) => hs,
            None => {
                return Err(handshake_failed("no client hs"));
            },
        };
        let server_kem_pk = match hs.read_msg2(payload) {
            Ok(pk) => pk,
            Err(e) => {
                self.client_hs = Some(hs);
                return Err(e);
            },
        };
        let mut msg3: Vec<u8> = Vec::new();
        let result = match hs.write_msg3_and_finish(&server_kem_pk, &mut msg3) {
            Ok(result) => result,
            Err(e) => {
                return Err(e);
            },
        };
        let packet = build_handshake(msg3.as_slice());
        self.pending = Pending::Establish(result);
        let action = Action::Send(packet);
        assert(sends(action, handshake_packet(msg3@)));
        Ok(action)
    }

    // Server received the cookie echo: verify the cookie, then read message 1
    // and answer with message 2.
    fn server_rx_cookie_echo(&mut self, buf: &[u8]) -> (r: Result<Action, SeamError>)
        requires
            old(self)@.wf(),
            old(self)@.phase != ConnPhase::Established,
            old(self)@.pending is Nothing,
        ensures
            is_echo_step(old(self)@, buf@, r, final(self)@),
            final(self)@.wf(),
    {
        if buf.len() < 35 || buf[0] != PKT_COOKIE_ECHO {
            return Err(handshake_failed("expected cookie echo"));
        }
        let cookie = array_32_at(buf, 1);
        match &self.cookie_factory {
            Some(factory) => {
                if !factory.verify(self.address.as_slice(), &cookie) {
                    return Err(handshake_failed("invalid cookie"));
                }
            },
            None => {
                return Err(handshake_failed("no cookie factory"));
            },
        }
        let msg1_len: usize = u16_le_at(buf, 33) as usize;
        if buf.len() < 35 + msg1_len {
            return Err(handshake_failed("truncated msg1"));
        }
        let msg1 = bytes_at(buf, 35, msg1_len);
        // Handshake state is allocated only now that the cookie is verified.
        let mut msg2: Vec<u8> = Vec::new();
        let server_hs = match &self.server_identity {
            Some(identity) => {
                let mut hs = match ServerHandshake::new(identity) {
                    Ok(hs) => hs,
                    Err(e) => {
                        return Err(e);
                    },
                };
                match hs.read_msg1(msg1) {
                    Ok(()) => {},
                    Err(e) => {
                        return Err(e);
                    },
                }
                match hs.write_msg2(&identity.kem_pk, &mut msg2) {
                    Ok(()) => {},
                    Err(e) => {
                        return Err(e);
                    },
                }
                hs
            },
            None => {
                return Err(handshake_failed("no server identity"));
            },
        };
        let packet = build_handshake(msg2.as_slice());
        self.pending = Pending::AwaitMsg3(server_hs);
        let action = Action::Send(packet);
        assert(sends(action, handshake_packet(msg2@)));
        Ok(action)
    }

    // Server received message 3: finish.
    fn server_rx_msg3(&mut self, buf: &[u8]) -> (r: Result<Action, SeamError>)
        requires
            old(self)@.wf(),
            old(self)@.phase != ConnPhase::Established,
            old(self)@.pending is Nothing,
        ensures
            is_msg3_step(old(self)@, buf@, r, final(self)@),
            final(self)@.wf(),
    {
        let payload = match strip_type(buf, PKT_HANDSHAKE_MSG) {
            Ok(payload) => payload,
            Err(e) => {
                return Err(e);
            },
        };
        let mut taken: Option<ServerHandshake> = None;
        std::mem::swap(&mut self.server_hs, &mut taken);
        let hs = match taken {
            Some(hs) => hs,
            None => {
                return Err(handshake_failed("no server hs"));
            },
        };
        let result = match &self.server_identity {
            Some(identity) => match hs.read_msg3_and_finish(&identity.kem_sk, payload) {
                Ok(result) => result,
                Err(e) => {
                    return Err(e);
                },
            },
            None => {
                return Err(handshake_failed("no server identity"));
            },
        };
        let ghost before = *old(self);
        self.finish_handshake(result);
        assert(self@ == (ConnState { server_hs: None, ..before@.established(result) }));
        Ok(Action::Nothing)
    }

    fn on_data_packet(&mut self, buf: &[u8], now: u64) -> (r: Result<Action, SeamError>)
        requires
            old(self)@.wf(),
            old(self)@.phase == ConnPhase::Established,
        ensures
            is_data_step(old(self)@, buf@, now, r, final(self)@),
            final(self)@.wf(),
    {
        match &mut self.session {
            Some(session) => match session.receive_packet_at(buf, now) {
                Ok(events) => {
                    // A queued window update goes out at once, so that the
                    // sender is not left without credit. An acknowledgement
                    // may have made room for data that waits.
                    let flush: bool = session.has_pending_max_data() || (
                    self.pacer.window.is_some() && session.has_unsent());
                    Ok(Action::Deliver { events, flush })
                },
                Err(e) => Err(e),
            },
            None => Err(handshake_failed("no session")),
        }
    }

    // ── Egress ───────────────────────────────────────────────────────────────
    /// Set the congestion window, in bytes. Without one, data leaves at once.
    pub fn set_congestion_window(&mut self, window: u64)
        requires
            old(self)@.wf(),
        ensures
            final(self)@.wf(),
            final(self)@ == (ConnState {
                pacer: Pacer { window: Some(window), ..old(self)@.pacer },
                ..old(self)@
            }),
    {
        self.pacer.window = Some(window);
    }

    /// The packets that are due at `now`: none without a session. Control
    /// packets always go; data goes as far as the congestion window and the pace
    /// allow, and waits otherwise.
    pub fn flush(&mut self, now: u64) -> (r: Result<Vec<TaggedPacket>, SeamError>)
        requires
            old(self)@.wf(),
        ensures
            final(self)@.wf(),
            is_conn_flush(old(self)@, now, r, final(self)@),
    {
        match &mut self.session {
            Some(session) => {
                let pacer = self.pacer.update_rate(session.srtt_us(), now);
                let budget: Option<u64> = pacer.available(session.bytes_in_flight());
                match session.flush_within(now, budget) {
                    Ok(packets) => {
                        self.pacer = pacer.consume(count_data_bytes(&packets));
                        Ok(packets)
                    },
                    Err(e) => Err(e),
                }
            },
            None => Ok(Vec::new()),
        }
    }

    /// A packet was sent. True every eighth time: the sender should then let
    /// the receiver catch up.
    pub fn on_packet_sent(&mut self) -> (pause: bool)
        requires
            old(self)@.wf(),
        ensures
            final(self)@.wf(),
            final(self)@ == (ConnState {
                send_counter: add_one(old(self)@.send_counter),
                ..old(self)@
            }),
            pause == (final(self)@.send_counter % 8 == 0),
    {
        self.send_counter = self.send_counter.saturating_add(1);
        self.send_counter % 8 == 0
    }

    /// A chaff packet with the given padding, if one is due and there is a session.
    pub fn maybe_send_chaff(&mut self, due: bool, padded: &[u8]) -> (r: Result<
        Option<Vec<u8>>,
        SeamError,
    >)
        requires
            old(self)@.wf(),
        ensures
            final(self)@.wf(),
            is_extra_packet(old(self)@, due, PktType::Chaff, padded@, r, final(self)@),
    {
        self.maybe_send(due, PktType::Chaff, padded)
    }

    /// A path probe with the given payload, if one is due and there is a session.
    pub fn maybe_send_probe(&mut self, due: bool, payload: &[u8]) -> (r: Result<
        Option<Vec<u8>>,
        SeamError,
    >)
        requires
            old(self)@.wf(),
        ensures
            final(self)@.wf(),
            is_extra_packet(old(self)@, due, PktType::PathProbe, payload@, r, final(self)@),
    {
        self.maybe_send(due, PktType::PathProbe, payload)
    }

    fn maybe_send(&mut self, due: bool, pkt_type: PktType, payload: &[u8]) -> (r: Result<
        Option<Vec<u8>>,
        SeamError,
    >)
        requires
            old(self)@.wf(),
        ensures
            final(self)@.wf(),
            is_extra_packet(old(self)@, due, pkt_type, payload@, r, final(self)@),
    {
        if !due {
            return Ok(None);
        }
        match &mut self.session {
            Some(session) => match session.seal_raw(pkt_type, payload) {
                Ok(packet) => Ok(Some(packet)),
                Err(e) => Err(e),
            },
            None => Ok(None),
        }
    }

    /// The packets to send again because their timeout has passed at `now`.
    /// They do not wait, but data that is sent after them may have to. Where
    /// there are any, congestion control should hear of a timeout.
    pub fn retransmit_expired(&mut self, now: u64) -> (r: Result<Vec<Vec<u8>>, SeamError>)
        requires
            old(self)@.wf(),
        ensures
            final(self)@.wf(),
            is_retransmit(old(self)@, now, r, final(self)@),
    {
        match &mut self.session {
            Some(session) => {
                let ghost due = session@.arq.expired(now);
                match session.resend_expired_at(now) {
                    Ok(packets) => {
                        self.pacer = self.pacer.consume(count_bytes(&packets, Ghost(due)));
                        Ok(packets)
                    },
                    Err(e) => Err(e),
                }
            },
            None => Ok(Vec::new()),
        }
    }

    /// A packet was sent: what forward error correction is to do with it, if
    /// anything.
    pub fn fec_source(&mut self, mode: ArbiterMode) -> (r: Option<FecSource>)
        requires
            old(self)@.wf(),
        ensures
            final(self)@.wf(),
            r == old(self)@.fec.source(mode),
            final(self)@ == (ConnState { fec: old(self)@.fec.with_source(mode), ..old(self)@ }),
    {
        self.fec.on_source(mode)
    }

    /// Forward error correction has given the repair packets of its group.
    pub fn on_fec_repairs(&mut self)
        requires
            old(self)@.wf(),
        ensures
            final(self)@.wf(),
            final(self)@ == (ConnState { fec: old(self)@.fec.next(), ..old(self)@ }),
    {
        self.fec.on_repairs();
    }

    /// What forward error correction is told at each tick: packets in flight,
    /// at least one, and the round-trip time in microseconds.
    pub fn tick_fec(&self) -> (r: Option<(u64, u64)>)
        ensures
            match self@.session {
                Some(s) => r == Some(
                    (
                        if s.arq.in_flight.len() == 0 {
                            1u64
                        } else {
                            s.arq.in_flight.len() as u64
                        },
                        s.arq.srtt,
                    ),
                ),
                None => r is None,
            },
    {
        match &self.session {
            Some(session) => {
                let in_flight: u64 = session.arq_in_flight() as u64;
                let at_least_one: u64 = if in_flight == 0 {
                    1
                } else {
                    in_flight
                };
                Some((at_least_one, session.srtt_us()))
            },
            None => None,
        }
    }

    /// A ticket for the peer, if the connection is established.
    pub fn ticket_packet(&mut self, key: &TicketKey) -> (r: Result<Option<Vec<u8>>, SeamError>)
        requires
            old(self)@.wf(),
        ensures
            final(self)@.wf(),
            match (old(self)@.session, final(self)@.session) {
                (Some(before), Some(after)) => {
                    &&& final(self)@ == (ConnState { session: Some(after), ..old(self)@ })
                    &&& exists|ticket: Seq<u8>|
                        {
                            &&& #[trigger] is_issued(key@, ticket, before.id, before.encoder.keys)
                            &&& match r {
                                Ok(Some(packet)) => is_raw_packet(
                                    before,
                                    PktType::SessionTicket,
                                    ticket,
                                    Ok(packet),
                                    after,
                                ),
                                Ok(None) => false,
                                Err(e) => is_raw_packet(
                                    before,
                                    PktType::SessionTicket,
                                    ticket,
                                    Err(e),
                                    after,
                                ),
                            }
                        }
                },
                (None, None) => r matches Ok(packet) && packet is None && final(self)@ == old(
                    self,
                )@,
                _ => false,
            },
    {
        match &mut self.session {
            Some(session) => match session.ticket_packet(key) {
                Ok(packet) => Ok(Some(packet)),
                Err(e) => Err(e),
            },
            None => Ok(None),
        }
    }

    // ── State ────────────────────────────────────────────────────────────────
    pub fn phase(&self) -> (phase: ConnPhase)
        ensures
            phase == self@.phase,
    {
        self.phase
    }

    pub fn is_established(&self) -> (yes: bool)
        ensures
            yes == (self@.phase == ConnPhase::Established),
    {
        self.phase == ConnPhase::Established
    }

    pub fn is_closed(&self) -> (yes: bool)
        ensures
            yes == (self@.phase == ConnPhase::Closed || self@.phase == ConnPhase::Draining),
    {
        self.phase == ConnPhase::Closed || self.phase == ConnPhase::Draining
    }

    /// Initiate a graceful close.
    pub fn close(&mut self)
        requires
            old(self)@.wf(),
        ensures
            final(self)@ == (ConnState { phase: ConnPhase::Draining, ..old(self)@ }),
            final(self)@.wf(),
    {
        self.phase = ConnPhase::Draining;
    }

    /// The session id; 0 before there is a session.
    pub fn session_id(&self) -> (id: u64)
        ensures
            id == (match self@.session {
                Some(s) => s.id,
                None => 0,
            }),
    {
        match &self.session {
            Some(session) => session.session_id(),
            None => 0,
        }
    }

    /// True if the peer has not sent any packet for 60 seconds.
    pub fn is_idle(&self, now: u64) -> (idle: bool)
        ensures
            idle == (now - self@.last_heard >= IDLE_US),
    {
        now >= self.last_heard && now - self.last_heard >= IDLE_US
    }

    /// Queue a ping if the peer was silent for a quarter of the idle time.
    pub fn maybe_queue_ping(&mut self, now: u64)
        requires
            old(self)@.wf(),
        ensures
            final(self)@.wf(),
            final(self)@ == old(self)@.pinged(now),
    {
        if now >= self.last_heard && now - self.last_heard >= IDLE_US / 4 {
            match &mut self.session {
                Some(session) => {
                    session.ping();
                },
                None => {},
            }
        }
    }

    /// The session, once there is one.
    pub fn session_mut(&mut self) -> (r: Option<&mut Session>)
        requires
            old(self)@.wf(),
        ensures
            match r {
                Some(session) => {
                    &&& old(self)@.session == Some(session@)
                    &&& session@.wf()
                    &&& final(self)@ == (ConnState {
                        session: Some(final(session)@),
                        ..old(self)@
                    })
                },
                None => old(self)@.session is None && final(self)@ == old(self)@,
            },
    {
        match &mut self.session {
            Some(session) => Some(session),
            None => None,
        }
    }
}

/// A connection that waits for message 1 refuses a packet without the cookie
/// that was made for its peer's address, and starts no handshake for it.
pub proof fn packet_without_cookie_is_refused(
    before: ConnState,
    buf: Seq<u8>,
    now: u64,
    r: Result<Action, SeamError>,
    after: ConnState,
)
    requires
        before.phase == ConnPhase::ServerWaitCookie,
        is_step(before, buf, now, r, after),
        buf.len() > 0,
        before.cookie_secret matches Some(secret) ==> !is_valid_echo(secret, before.address, buf),
    ensures
        r is Err,
        after == (ConnState { pending: PendingState::Nothing, last_heard: now, ..before }),
{
}

/// A cookie handshake whose packets arrive as they were sent establishes both
/// sides: the client, which was challenged in `c0`, and the server, which has
/// accepted its echo in `s0`, end with sessions of the same id and keys, the
/// client's with the client's role and the server's with the server's. The
/// server's KEM key must give every secret back.
pub proof fn cookie_handshake_establishes(
    client_id: IdentityKeypair,
    server_id: IdentityKeypair,
    expected: Seq<u8>,
    secret: Seq<u8>,
    address: Seq<u8>,
    c0: ConnState,
    s0: ConnState,
    echo: Vec<u8>,
    c1: ConnState,
    answer: Vec<u8>,
    s1: ConnState,
    last: Vec<u8>,
    c2: ConnState,
    r: Result<Action, SeamError>,
    s2: ConnState,
    now: u64,
)
    requires
        client_id.is_paired(),
        server_id.is_paired(),
        server_id.kem_pk@.len() == KEM_PUBLIC_LEN,
        cookie_for(secret, address).len() == 32,
        noise_initiator(client_id.x25519_secret@, expected) matches Ok(hs) && c0 == (ConnState {
            client_hs: Some(hs),
            server_kem_pk: Some(server_id.kem_pk@),
            ..ConnState::new(ConnPhase::ClientWaitChallenge, c0.address, c0.last_heard)
        }),
        s0 == (ConnState {
            server_identity: Some(server_id),
            cookie_secret: Some(secret),
            ..ConnState::new(ConnPhase::ServerWaitCookie, address, s0.last_heard)
        }),
        is_step(
            c0,
            challenge_packet(cookie_for(secret, address)),
            now,
            Ok(Action::Send(echo)),
            c1,
        ),
        is_step(s0, echo@, now, Ok(Action::Send(answer)), s1),
        is_step(c1.sent(), answer@, now, Ok(Action::Send(last)), c2),
        is_step(s1.sent(), last@, now, r, s2),
        forall|ciphertext: Seq<u8>, shared: Seq<u8>| #[trigger]
            encapsulates(server_id.kem_pk@, ciphertext, shared) ==> decapsulated(
                server_id.kem_sk@,
                ciphertext,
            ) == shared,
    ensures
        r is Ok,
        c2.sent().phase == ConnPhase::Established,
        s2.phase == ConnPhase::Established,
        match (c2.sent().session, s2.session) {
            (Some(client), Some(server)) => {
                &&& client.id == server.id
                &&& client.encoder == server.encoder
                &&& client.decoder == server.decoder
                &&& client.role == Role::Client && server.role == Role::Server
            },
            _ => false,
        },
{
    let cookie = cookie_for(secret, address);
    let payload = prefixed(server_id.kem_pk@);
    let client_hs = noise_initiator(client_id.x25519_secret@, expected)->Ok_0;
    challenge_round_trip(cookie);
    let c1_hs = c1.client_hs->0;
    let msg1 = choose|msg1: Seq<u8>|
        #[trigger] noise_writes(client_hs, payload, Ok(msg1), c1_hs) && is_read_by_peer(
            client_hs,
            payload,
            msg1,
            c1_hs,
        ) && msg1.len() <= MAX_NOISE && sends(Action::Send(echo), echo_packet(cookie, msg1));
    echo_round_trip(cookie, msg1);
    assert(echo@ == echo_packet(cookie, msg1));
    let server_hs = noise_responder(server_id.x25519_secret@)->Ok_0;
    let server_read = noise_reads(server_hs, msg1).1;
    let (msg2, s1_hs) = choose|msg2: Seq<u8>, hs_after: snow::HandshakeState|
        {
            &&& #[trigger] noise_writes(server_read, payload, Ok(msg2), hs_after)
            &&& answers_initiators(server_hs, server_id.x25519_secret@)
            &&& is_read_by_peer(server_read, payload, msg2, hs_after)
            &&& msg2.len() <= MAX_NOISE
            &&& sends(Action::Send(answer), handshake_packet(msg2))
            &&& s1 == (ConnState {
                pending: PendingState::AwaitMsg3(hs_after),
                last_heard: now,
                ..s0
            })
        };
    assert(answer@.skip(1) =~= msg2);
    let client_read = noise_reads(c1_hs, msg2).1;
    let pk = key_in(noise_reads(c1_hs, msg2).0->Ok_0)->Ok_0;
    let (end, msg3) = choose|end: Result<HandshakeResult, SeamError>, msg3: Seq<u8>|
        {
            &&& #[trigger] is_client_end(client_read, pk, Seq::empty(), end, msg3)
            &&& match end {
                Ok(result) => {
                    &&& sends(Action::Send(last), handshake_packet(msg3))
                    &&& c2 == (ConnState {
                        client_hs: None,
                        pending: PendingState::Establish(result),
                        last_heard: now,
                        ..c1.sent()
                    })
                },
                Err(_) => false,
            }
        };
    assert(last@.skip(1) =~= msg3);
    let client = end->Ok_0;
    let (ciphertext, shared) = choose|ciphertext: Seq<u8>, shared: Seq<u8>| #[trigger]
        is_client_end_with(client_read, pk, ciphertext, shared, Seq::empty(), end, msg3);
    let server: Result<HandshakeResult, SeamError> = match r {
        Ok(_) => Ok(
            choose|result: HandshakeResult|
                is_server_end(s1_hs, server_id.kem_sk@, msg3, Ok(result)) && s2 == (ConnState {
                    server_hs: None,
                    last_heard: now,
                    ..#[trigger] s1.sent().established(result)
                }),
        ),
        Err(e) => Err(e),
    };
    messages_in_step(client_id, server_id, expected, client_hs, server_hs, msg1, c1_hs, msg2, s1_hs);
    prefix_round_trip(server_id.kem_pk@);
    assert(pk == server_id.kem_pk@);
    messages_agree(
        client_id,
        server_id,
        expected,
        client_hs,
        server_hs,
        msg1,
        c1_hs,
        msg2,
        s1_hs,
        pk,
        ciphertext,
        shared,
        msg3,
        client,
        server,
    );
}

/// One more, unless it is the greatest number.
pub open spec fn add_one(n: u64) -> u64 {
    if n == u64::MAX {
        n
    } else {
        (n + 1) as u64
    }
}

/// Count the bytes of packets that carry what was in flight.
fn count_bytes(packets: &Vec<Vec<u8>>, due: Ghost<Seq<Sent>>) -> (bytes: u64)
    requires
        packets@.len() == due@.len(),
        forall|k: int| #![trigger packets@[k]]
            0 <= k < packets@.len() ==> packets@[k]@.len() == cost(due@[k].data),
    ensures
        bytes == clamp_u64(flying(due@) as int),
{
    let n: usize = packets.len();
    let mut bytes: u64 = 0;
    for i in 0..n
        invariant
            n == packets@.len() == due@.len(),
            forall|k: int| #![trigger packets@[k]]
                0 <= k < n ==> packets@[k]@.len() == cost(due@[k].data),
            bytes == clamp_u64(flying(due@.take(i as int)) as int),
    {
        assert(due@.take(i + 1).drop_last() =~= due@.take(i as int));
        bytes = bytes.saturating_add(packets[i].len() as u64);
    }
    assert(due@.take(n as int) =~= due@);
    bytes
}

impl ConnState {
    /// The pacer as a flush of the session at `now` finds it.
    pub open spec fn pacer_at(self, session: SessionState, now: u64) -> Pacer {
        self.pacer.at(session.arq.srtt, now)
    }

    /// How many bytes of data a flush of the session at `now` may send.
    pub open spec fn budget_at(self, session: SessionState, now: u64) -> Option<u64> {
        self.pacer_at(session, now).budget(
            clamp_u64(flying(session.arq.in_flight) as int) as u64,
        )
    }
}

/// `r` and `after` are what a flush of a connection at `now` gives: the session
/// sends its control packets, and as much data as the congestion window and the
/// pace allow.
pub open spec fn is_conn_flush(
    before: ConnState,
    now: u64,
    r: Result<Vec<TaggedPacket>, SeamError>,
    after: ConnState,
) -> bool {
    match (before.session, after.session) {
        (Some(session), Some(session_after)) => {
            &&& is_flush(session, now, before.budget_at(session, now), r, session_after)
            &&& after == (ConnState {
                session: Some(session_after),
                pacer: match r {
                    Ok(packets) => before.pacer_at(session, now).spent(
                        clamp_u64(data_bytes(packets@) as int) as u64,
                    ),
                    Err(_) => before.pacer,
                },
                ..before
            })
        },
        (None, None) => (r matches Ok(packets) && packets@.len() == 0) && after == before,
        _ => false,
    }
}

/// With a congestion window, a flush sends no more data than the window leaves
/// room for, nor, once there is a round-trip time, than the bucket of the pacer
/// holds, and the bucket is left without what was sent. What is in flight does
/// not grow beyond the window. Every control packet that is due goes.
pub proof fn flush_obeys_the_window(
    before: ConnState,
    session: SessionState,
    window: u64,
    now: u64,
    packets: Vec<TaggedPacket>,
    after: ConnState,
    session_after: SessionState,
)
    requires
        before.session == Some(session),
        after.session == Some(session_after),
        before.pacer.window == Some(window),
        is_conn_flush(before, now, Ok(packets), after),
    ensures
        data_bytes(packets@) == 0 || flying(session.arq.in_flight) + data_bytes(packets@)
            <= at_least_one(window),
        session.arq.srtt > 0 ==> data_bytes(packets@) <= before.pacer_at(session, now).tokens,
        session.arq.srtt > 0 ==> after.pacer.tokens == before.pacer_at(session, now).tokens
            - data_bytes(packets@),
        flying(session_after.arq.in_flight) <= flying(session.arq.in_flight) || flying(
            session_after.arq.in_flight,
        ) <= at_least_one(window),
        forall|k: int| #![trigger session.control_packets()[k]]
            0 <= k < session.control_packets().len() ==> {
                let i = packets@.len() - session.control_packets().len() + k;
                &&& packets@[i].is_control
                &&& packets@[i].bytes@ == session.encoder.advance(i as nat).packet(
                    session.control_packets()[k].pkt_type,
                    session.control_packets()[k].payload,
                )
            },
{
    let budget = before.budget_at(session, now)->0;
    flush_keeps_its_budget(session, now, budget, packets, session_after);
}

/// While the round-trip time stays the same, each flush is one more of the steps
/// of which `pace_is_kept` says how much they send together.
pub proof fn flush_keeps_the_pace(
    before: ConnState,
    session: SessionState,
    now: u64,
    packets: Vec<TaggedPacket>,
    after: ConnState,
    start: Pacer,
    run: Seq<Leaving>,
)
    requires
        before.session == Some(session),
        before.pacer.window is Some,
        is_conn_flush(before, now, Ok(packets), after),
        session.arq.srtt == before.pacer.srtt > 0,
        start.window == before.pacer.window,
        start.srtt == before.pacer.srtt,
        start.allows(run),
        before.pacer == start.after(run),
        before.pacer.last <= now,
    ensures
        ({
            let more = run.push(Leaving { now, bytes: data_bytes(packets@) as u64 });
            &&& start.allows(more)
            &&& after.pacer == start.after(more)
            &&& total(more) == total(run) + data_bytes(packets@)
        }),
{
    let more = run.push(Leaving { now, bytes: data_bytes(packets@) as u64 });
    assert(more.drop_last() =~= run);
    let budget = before.budget_at(session, now)->0;
    flush_keeps_its_budget(session, now, budget, packets, after.session->0);
}

/// A congestion window never stops a connection for good: with nothing in flight
/// and a packet's worth in the bucket, a flush sends some of the data that waits.
pub proof fn window_lets_data_leave(
    before: ConnState,
    session: SessionState,
    window: u64,
    now: u64,
    packets: Vec<TaggedPacket>,
    after: ConnState,
    session_after: SessionState,
)
    requires
        before.session == Some(session),
        after.session == Some(session_after),
        before.pacer.window == Some(window),
        is_conn_flush(before, now, Ok(packets), after),
        frame_count(session.streams) > 0,
        session.free_slots() > 0,
        flying(session.arq.in_flight) == 0,
        session.arq.srtt > 0 ==> before.pacer_at(session, now).tokens >= FULL_PACKET,
    ensures
        frame_count(session_after.streams) < frame_count(session.streams),
{
    let budget = before.budget_at(session, now);
    let order = flush_order(session, now, budget, packets, session_after);
    if order.len() == 0 {
        let slot = some_frame_comes_first(session.streams);
        assert(order.push(slot) =~= seq![slot]);
        load_with(order, slot, session.streams);
        assert(scheduled(order, session.streams) =~= Seq::empty());
        assert(is_schedule(order.push(slot), session.streams));
    }
}

/// Without a congestion window a flush has no limit.
pub proof fn no_window_no_limit(before: ConnState, session: SessionState, now: u64)
    requires
        before.pacer.window is None,
    ensures
        before.budget_at(session, now) is None,
{
}

/// `r` and `after` are what sending the expired packets of a connection again
/// at `now` gives.
pub open spec fn is_retransmit(
    before: ConnState,
    now: u64,
    r: Result<Vec<Vec<u8>>, SeamError>,
    after: ConnState,
) -> bool {
    match before.session {
        Some(session) => {
            let due = session.arq.expired(now);
            match r {
                Ok(packets) => {
                    &&& session.encoder.has_numbers(due.len())
                    &&& after == (ConnState {
                        session: Some(session.resent(now)),
                        pacer: before.pacer.spent(clamp_u64(flying(due) as int) as u64),
                        ..before
                    })
                    &&& packets@.len() == due.len()
                    &&& forall|k: int| #![trigger packets@[k]]
                        0 <= k < due.len() ==> packets@[k]@ == session.encoder.advance(
                            k as nat,
                        ).packet(PktType::Data, due[k].data) && session.encoder.advance(
                            k as nat,
                        ).reads_back(packets@[k]@, PktType::Data, due[k].data)
                            && has_packet_length(packets@[k]@)
                },
                Err(e) => {
                    &&& !session.encoder.has_numbers(due.len())
                    &&& e@ == ErrorView::PacketNumbersExhausted
                    &&& after == before
                },
            }
        },
        None => (r matches Ok(packets) && packets@.len() == 0) && after == before,
    }
}

/// `r` and `after` are what asking for a packet outside any stream gives.
pub open spec fn is_extra_packet(
    before: ConnState,
    due: bool,
    pkt_type: PktType,
    payload: Seq<u8>,
    r: Result<Option<Vec<u8>>, SeamError>,
    after: ConnState,
) -> bool {
    match (before.session, after.session) {
        (Some(session), Some(session_after)) => {
            &&& after == (ConnState { session: Some(session_after), ..before })
            &&& match r {
                Ok(Some(packet)) => due && is_raw_packet(
                    session,
                    pkt_type,
                    payload,
                    Ok(packet),
                    session_after,
                ),
                Ok(None) => !due && session_after == session,
                Err(e) => due && is_raw_packet(session, pkt_type, payload, Err(e), session_after),
            }
        },
        (None, None) => (r matches Ok(packet) && packet is None) && after == before,
        _ => false,
    }
}

} // verus!
