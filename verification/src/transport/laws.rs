//! What holds of connections and of the table that they are kept in, beyond
//! single steps.

use crate::api::{is_tick, is_tick_flushed, is_tick_resent, Tick};
use crate::clock::seconds_at;
use crate::crypto::aead::derived_key;
use crate::crypto::decoder::DecoderState;
use crate::crypto::format::{has_packet_length, unprotected, Decoding};
use crate::crypto::replay::ReplayState;
use crate::error::{ErrorView, SeamError};
use crate::handshake::state::{is_session, HandshakeResult};
use crate::packet::PktType;
use crate::session::arq::Sent;
use crate::session::recovery::{due_packets_waited_too_long, waited_too_long};
use crate::session::schedule::frame_count;
use crate::session::state::SessionState;
use crate::session::{is_receive, Role, TaggedPacket};
use crate::transport::connection::{
    is_conn_flush, is_extra_packet, is_retransmit, is_step, Action, ConnPhase, ConnState, PendingState,
};
use crate::transport::endpoint::TableState;
use crate::transport::fec::{ArbiterMode, FecGroups};
use crate::transport::pacer::{at_least_one, Pacer};
use crate::transport::resumption::expiry_at;
use crate::wire::le_value;
use vstd::prelude::*;

verus! {

// ── Replay ───────────────────────────────────────────────────────────────────
/// A packet number is taken unless it was taken before or lies more than 128
/// behind the end of those taken. Taking it makes it one of those taken, and
/// forgets no other that could still be asked for.
pub proof fn numbers_are_taken_once(w: ReplayState, n: u64, m: u64)
    requires
        w.wf(),
    ensures
        w.is_fresh(n) <==> n + 128 >= w.top && !w.recent.contains(n as int),
        w.accept(n).top >= w.top,
        w.accept(n).top > n,
        w.accept(n).top == w.top || w.accept(n).top == n + 1,
        m + 128 >= w.accept(n).top ==> (w.accept(n).recent.contains(m as int)
            <==> w.recent.contains(m as int) || m == n),
        !w.accept(n).is_fresh(n),
        m != n && w.is_fresh(m) && m + 128 >= w.accept(n).top ==> w.accept(n).is_fresh(m),
        m != n && !w.is_fresh(m) ==> !w.accept(n).is_fresh(m),
        ReplayState::new().is_fresh(n),
        w.accept(n).wf(),
{
}

/// A packet is rejected in these cases and in no other: it is too short or too
/// long, it is not authentic, its type is unknown, or its number is not fresh.
/// Only a packet that is accepted uses its number up.
pub proof fn rejections_are_exact(d: DecoderState, buf: Seq<u8>)
    ensures
        !has_packet_length(buf) ==> d.decoding(buf) == Decoding::Rejected(
            ErrorView::MalformedPacket,
        ),
        has_packet_length(buf) && unprotected(d.keys, buf) is None ==> d.decoding(buf)
            == Decoding::Rejected(ErrorView::AuthFailed),
        has_packet_length(buf) ==> (unprotected(d.keys, buf) matches Some(p) ==> {
            &&& PktType::of_code(p.code) is None ==> d.decoding(buf) == Decoding::Rejected(
                ErrorView::MalformedPacket,
            )
            &&& PktType::of_code(p.code) is Some && !d.replay.is_fresh(p.pkt_num) ==> d.decoding(
                buf,
            ) == Decoding::Rejected(ErrorView::Replayed(p.pkt_num))
            &&& PktType::of_code(p.code) is Some && d.replay.is_fresh(p.pkt_num) ==> d.decoding(
                buf,
            ) == (Decoding::Packet {
                pkt_type: PktType::of_code(p.code)->0,
                pkt_num: p.pkt_num,
                payload: p.payload,
            })
        }),
        d.decoding(buf) is Rejected ==> d.after(buf) == d,
        d.decoding(buf) matches Decoding::Packet { pkt_num, .. } ==> d.after(buf) == (
        DecoderState { replay: d.replay.accept(pkt_num), ..d }),
{
}

// ── Keeping a connection alive ───────────────────────────────────────────────
/// A ping is queued once the peer has been silent for 15 seconds, and not
/// before; nothing else changes.
pub proof fn silence_is_broken(c: ConnState, now: u64)
    ensures
        c.session is None ==> c.pinged(now) == c,
        c.last_heard + 15_000_000 > now ==> c.pinged(now) == c,
        c.last_heard + 15_000_000 <= now ==> (c.session matches Some(s) ==> c.pinged(now) == (
        ConnState { session: Some(SessionState { pending_ping: true, ..s }), ..c })),
{
}

/// Every packet that is not empty counts as a sign of life, whatever it is, and
/// leaves the connection's address alone; an empty one changes nothing there.
pub proof fn every_packet_is_a_sign_of_life(
    before: ConnState,
    buf: Seq<u8>,
    now: u64,
    r: Result<Action, SeamError>,
    after: ConnState,
)
    requires
        is_step(before, buf, now, r, after),
    ensures
        buf.len() > 0 ==> after.last_heard == now,
        buf.len() == 0 ==> after.last_heard == before.last_heard && after.phase == before.phase
            && after.session == before.session,
        after.address == before.address,
        after.pacer == before.pacer,
        after.fec == before.fec,
        after.send_counter == before.send_counter,
{
}

/// A connection that is closed or closing takes nothing in.
pub proof fn closing_connection_is_deaf(
    before: ConnState,
    buf: Seq<u8>,
    now: u64,
    r: Result<Action, SeamError>,
    after: ConnState,
)
    requires
        is_step(before, buf, now, r, after),
        before.phase == ConnPhase::Draining || before.phase == ConnPhase::Closed,
    ensures
        r matches Ok(action) && action is Nothing,
        after.session == before.session,
        after.phase == before.phase,
{
}

/// An established connection stays so, whatever arrives. Its session receives
/// every packet; what the application hears is what the session makes of it. A
/// flush is asked for when a window update is due, and when data waits for the
/// congestion window.
pub proof fn established_connection_receives(
    before: ConnState,
    session: SessionState,
    buf: Seq<u8>,
    now: u64,
    r: Result<Action, SeamError>,
    after: ConnState,
)
    requires
        is_step(before, buf, now, r, after),
        before.phase == ConnPhase::Established,
        before.session == Some(session),
        buf.len() > 0,
    ensures
        after.phase == ConnPhase::Established,
        after.session is Some,
        match r {
            Ok(action) => action matches Action::Deliver { events, flush } && is_receive(
                session,
                buf,
                now,
                Ok(events),
                after.session->0,
            ) && (after.session->0.pending_max_data is Some ==> flush) && (before.pacer.window
                is Some && frame_count(after.session->0.streams) > 0 ==> flush) && (flush
                ==> after.session->0.pending_max_data is Some || before.pacer.window is Some),
            Err(e) => is_receive(session, buf, now, Err(e), after.session->0),
        },
{
}

/// A connection begins in its phase, heard of now, with nothing sent, no session
/// and no limit on its pace.
pub proof fn new_connection_has_nothing(phase: ConnPhase, address: Seq<u8>, now: u64)
    ensures
        ({
            let c = ConnState::new(phase, address, now);
            &&& c.phase == phase
            &&& c.address == address
            &&& c.last_heard == now
            &&& c.session is None
            &&& c.client_hs is None
            &&& c.server_hs is None
            &&& c.pending is Nothing
            &&& c.send_counter == 0
            &&& c.pacer.window is None
            &&& c.pacer.tokens == 65_535
        }),
{
}

// ── Establishing ─────────────────────────────────────────────────────────────
/// A finished handshake starts a session with its id and its keys for both
/// directions, in which no packet was sent or received; the side with a server's
/// identity takes the server's role. The handshake's secrets are given up.
pub proof fn finished_handshake_starts_a_session(c: ConnState, result: HandshakeResult)
    ensures
        ({
            let after = c.established(result);
            &&& after.phase == ConnPhase::Established
            &&& after.session matches Some(s) && {
                &&& s.id == result.session_id
                &&& s.encoder.session_id == result.session_id
                &&& s.encoder.keys == result.keys
                &&& s.decoder.keys == result.keys
                &&& s.encoder.next == 0
                &&& s.decoder.replay == ReplayState::new()
                &&& s.streams.len() == 0
                &&& c.server_identity is Some ==> s.role == Role::Server
                &&& c.server_identity is None ==> s.role == Role::Client
                &&& s.limits.max_streams == 1024
                &&& s.limits.max_in_flight_packets == 10_000
            }
            &&& after.server_identity is None
            &&& after.cookie_secret is None
            &&& after.server_kem_pk is None
            &&& after.address == c.address
            &&& after.last_heard == c.last_heard
            &&& after.pacer == c.pacer
        }),
{
}

/// The handshake goes on once its packet has left: a client that sent its echo
/// waits for message 2, a server that sent message 2 waits for message 3, and a
/// client that sent message 3 is established. Nothing is pending then, and a
/// connection with nothing pending stays as it is.
pub proof fn handshake_goes_on_once_sent(c: ConnState)
    ensures
        c.sent().pending is Nothing,
        c.pending is Nothing ==> c.sent() == c,
        c.pending is AwaitMsg2 ==> c.sent().phase == ConnPhase::ClientWaitMsg2 && c.sent().client_hs
            == c.client_hs && c.sent().session == c.session,
        c.pending matches PendingState::AwaitMsg3(hs) ==> c.sent().phase
            == ConnPhase::ServerWaitMsg3 && c.sent().server_hs == Some(hs) && c.sent().session
            == c.session,
        c.pending matches PendingState::Establish(result) ==> c.sent().phase
            == ConnPhase::Established && c.sent().session is Some && c.sent().session->0.id
            == result.session_id && c.sent().session->0.encoder.keys == result.keys,
{
}

// ── Background work ──────────────────────────────────────────────────────────
/// One of the packets carries this data again.
pub open spec fn is_carried_again(
    session: SessionState,
    packets: Seq<Vec<u8>>,
    data: Seq<u8>,
) -> bool {
    exists|k: int|
        0 <= k < packets.len() && session.encoder.advance(k as nat).reads_back(
            (#[trigger] packets[k])@,
            PktType::Data,
            data,
        )
}

/// Retransmission at `now` gives out the data of every packet in flight that has
/// waited longer than 200 ms and longer than two round trips.
pub proof fn timed_out_data_goes_out_again(
    before: ConnState,
    session: SessionState,
    now: u64,
    packets: Vec<Vec<u8>>,
    after: ConnState,
    i: int,
)
    requires
        before.session == Some(session),
        is_retransmit(before, now, Ok(packets), after),
        0 <= i < session.arq.in_flight.len(),
        session.arq.in_flight[i].sent_at + 2 * session.arq.srtt < now,
        session.arq.in_flight[i].sent_at + 200_000 < now,
    ensures
        is_carried_again(session, packets@, session.arq.in_flight[i].data),
{
    let arq = session.arq;
    let due = |packet: Sent| waited_too_long(packet, arq.srtt, now);
    due_packets_waited_too_long(arq, now);
    arq.in_flight.lemma_filter_contains(due, i);
    assert(arq.expired(now).contains(arq.in_flight[i]));
    let k = arq.expired(now).index_of(arq.in_flight[i]);
    assert(packets@[k]@ == packets@[k]@);
}

/// The connection between the flush that sent these packets and what follows.
pub open spec fn is_flushed_at(
    before: ConnState,
    now: u64,
    flushed: Vec<TaggedPacket>,
    between: ConnState,
) -> bool {
    is_conn_flush(before, now, Ok(flushed), between)
}

/// The background work of a connection sends again everything that was due when
/// it was done with the flush, unless it failed.
pub proof fn tick_sends_again_what_is_due(
    before: ConnState,
    now: u64,
    chaff: Option<Seq<u8>>,
    probe: Option<Seq<u8>>,
    t: Tick,
    after: ConnState,
)
    requires
        is_tick(before, now, chaff, probe, t, after),
        t.failed is None,
    ensures
        exists|between: ConnState| #[trigger]
            is_flushed_at(before.pinged(now), now, t.flushed, between) && (between.session
                matches Some(session) ==> forall|i: int|
                0 <= i < session.arq.in_flight.len() && session.arq.in_flight[i].sent_at + 2
                    * session.arq.srtt < now && session.arq.in_flight[i].sent_at + 200_000 < now
                    ==> is_carried_again(
                    session,
                    t.again@,
                    (#[trigger] session.arq.in_flight[i]).data,
                )),
{
    let (r, one) = choose|r: Result<Vec<TaggedPacket>, SeamError>, one: ConnState|
        #[trigger] is_conn_flush(before.pinged(now), now, r, one) && match r {
            Ok(packets) => t.flushed == packets && is_tick_flushed(
                one,
                now,
                chaff,
                probe,
                t,
                after,
            ),
            Err(e) => {
                &&& t.failed == Some(e)
                &&& t.flushed@.len() == 0 && t.again@.len() == 0
                &&& t.chaff is None && t.probe is None
                &&& after == one
            },
        };
    assert(r == Ok::<Vec<TaggedPacket>, SeamError>(t.flushed));
    assert(is_flushed_at(before.pinged(now), now, t.flushed, one));
    let (r2, two) = choose|r2: Result<Vec<Vec<u8>>, SeamError>, two: ConnState|
        #[trigger] is_retransmit(one, now, r2, two) && match r2 {
            Ok(packets) => t.again == packets && is_tick_resent(
                two,
                chaff,
                probe,
                t,
                after,
            ),
            Err(e) => {
                &&& t.failed == Some(e)
                &&& t.again@.len() == 0
                &&& t.chaff is None && t.probe is None
                &&& after == two
            },
        };
    assert(r2 == Ok::<Vec<Vec<u8>>, SeamError>(t.again));
    if let Some(session) = one.session {
        assert forall|i: int|
            0 <= i < session.arq.in_flight.len() && session.arq.in_flight[i].sent_at + 2
                * session.arq.srtt < now && session.arq.in_flight[i].sent_at + 200_000
                < now implies is_carried_again(
            session,
            t.again@,
            (#[trigger] session.arq.in_flight[i]).data,
        ) by {
            timed_out_data_goes_out_again(one, session, now, t.again, two, i);
        }
    }
}

/// A packet outside any stream goes out when it is due and there is a session,
/// and carries its payload under the next number, which it uses up; nothing of it
/// is in flight. It fails only where its payload is too long or the numbers are
/// used up, and then nothing changes.
pub proof fn extra_packets_go_when_due(
    before: ConnState,
    session: SessionState,
    due: bool,
    pkt_type: PktType,
    payload: Seq<u8>,
    r: Result<Option<Vec<u8>>, SeamError>,
    after: ConnState,
)
    requires
        is_extra_packet(before, due, pkt_type, payload, r, after),
        before.session == Some(session),
    ensures
        !due ==> (r matches Ok(packet) && packet is None) && after == before,
        due && payload.len() + 33 <= 0x7FFF_FFFF && session.encoder.next < u64::MAX ==> (
        r matches Ok(Some(packet)) && session.encoder.reads_back(packet@, pkt_type, payload)
            && after.session->0.encoder.next == session.encoder.next + 1
            && after.session->0.encoder.keys == session.encoder.keys),
        due && (payload.len() + 33 > 0x7FFF_FFFF || session.encoder.next == u64::MAX) ==> r is Err
            && after == before,
        after.session is Some,
        after.session->0.streams == session.streams,
        after.session->0.arq == session.arq,
        after == (ConnState { session: after.session, ..before }),
{
}

/// Each packet that is sent again takes the next number, and streams are left
/// alone. Retransmission fails only where the numbers do not suffice, and then
/// nothing changes.
pub proof fn retransmission_touches_no_stream(
    before: ConnState,
    session: SessionState,
    now: u64,
    r: Result<Vec<Vec<u8>>, SeamError>,
    after: ConnState,
)
    requires
        is_retransmit(before, now, r, after),
        before.session == Some(session),
    ensures
        r is Err ==> after == before && session.encoder.next + session.arq.expired(now).len()
            > u64::MAX,
        r matches Ok(packets) ==> {
            &&& packets@.len() == session.arq.expired(now).len()
            &&& after.session is Some
            &&& after.session->0.streams == session.streams
            &&& after.session->0.acks == session.acks
            &&& after.session->0.arq.srtt == session.arq.srtt
            &&& after.session->0.encoder.next == session.encoder.next + packets@.len()
            &&& after.phase == before.phase
            &&& after.last_heard == before.last_heard
        },
{
}

// ── Pacing ───────────────────────────────────────────────────────────────────
/// Without a window nothing holds data back. With one, no more may leave than
/// the window leaves room for beside what is in flight, and once the round-trip
/// time is known, no more than the bucket holds. What leaves is taken out of the
/// bucket; a window always has room for one full packet.
pub proof fn budget_is_window_and_bucket(p: Pacer, flying: u64, bytes: u64)
    ensures
        p.window is None ==> p.budget(flying) is None,
        p.window matches Some(window) ==> (p.budget(flying) matches Some(most) && {
            let full = if window < 1435 {
                1435int
            } else {
                window as int
            };
            let room = if full > flying {
                full - flying
            } else {
                0
            };
            &&& most <= room
            &&& p.srtt == 0 ==> most == room
            &&& p.srtt > 0 ==> most <= p.tokens && (most == room || most == p.tokens)
        }),
        bytes <= p.tokens ==> p.spent(bytes).tokens == p.tokens - bytes,
        bytes > p.tokens ==> p.spent(bytes).tokens == 0,
        p.spent(bytes) == (Pacer { tokens: p.spent(bytes).tokens, ..p }),
{
}

/// The bucket fills by a window for each round trip, to the last part of a byte,
/// until it is full at 65535 bytes; it is full as long as there is no window or no
/// round-trip time.
pub proof fn bucket_fills_by_the_rate(p: Pacer, now: u64)
    requires
        p.last <= now,
    ensures
        ({
            let after = p.at(p.srtt, now);
            &&& after.last == now
            &&& after.window == p.window
            &&& after.srtt == p.srtt
            &&& p.window is None || p.srtt == 0 ==> after.tokens == 65_535
            &&& p.srtt > 0 ==> (p.window matches Some(window) ==> {
                let rate = if window < 1435 {
                    1435int
                } else {
                    window as int
                };
                after.tokens == 65_535 || after.tokens * p.srtt + after.part == p.tokens * p.srtt
                    + p.part + rate * (now - p.last)
            })
        }),
{
    if p.window is Some && p.srtt > 0 {
        let window = p.window->0;
        let rate = if window < 1435 {
            1435int
        } else {
            window as int
        };
        let inflow = p.inflow(now) as int;
        let srtt = p.srtt as int;
        assert(at_least_one(window) == rate);
        assert(rate * (now - p.last) >= 0) by (nonlinear_arith)
            requires
                rate >= 0,
                p.last <= now,
        ;
        assert(inflow == p.part + rate * (now - p.last)) by {
            if now == p.last {
                assert(rate * 0 == 0) by (nonlinear_arith);
            }
        }
        assert(inflow == srtt * (inflow / srtt) + inflow % srtt && 0 <= inflow % srtt < srtt)
            by (nonlinear_arith)
            requires
                srtt > 0,
        ;
        assert((p.tokens + inflow / srtt) * srtt == p.tokens * srtt + srtt * (inflow / srtt))
            by (nonlinear_arith);
    }
}

// ── Error correction ─────────────────────────────────────────────────────────
/// Every packet goes to the group at hand, with the numbers that the mode gives,
/// unless losses are only repaired by sending again; groups follow one another.
pub proof fn packets_go_to_their_group(g: FecGroups, k: usize, r: usize)
    ensures
        g.source(ArbiterMode::PureArq) is None,
        g.with_source(ArbiterMode::PureArq) == g,
        g.source(ArbiterMode::HybridFecArq { k, r }) matches Some(s) && s.group == g.group && s.k
            == k && s.r == r && (s.start <==> g.encoder != Some(g.group)),
        g.source(ArbiterMode::PureFec { k, r }) matches Some(s) && s.group == g.group && s.k == k
            && s.r == r && (s.start <==> g.encoder != Some(g.group)),
        g.with_source(ArbiterMode::PureFec { k, r }).encoder == Some(g.group),
        g.with_source(ArbiterMode::HybridFecArq { k, r }).encoder == Some(g.group),
        g.with_source(ArbiterMode::PureFec { k, r }).group == g.group,
        g.with_source(ArbiterMode::HybridFecArq { k, r }).group == g.group,
        g.next().encoder == g.encoder,
        g.group < u32::MAX ==> g.next().group == g.group + 1,
        g.group == u32::MAX ==> g.next().group == 0,
        FecGroups::first().group == 0,
        FecGroups::first().encoder is None,
{
}

// ── The table of connections ─────────────────────────────────────────────────
/// A connection is handed to the application with the packet that establishes
/// it, if it waits and was not handed over; it then no longer waits. One that is
/// closed is forgotten, so that its remote can come back. No packet of one remote
/// touches what is known of another.
pub proof fn table_follows_its_connections(
    t: TableState,
    remote: u64,
    was: bool,
    is: bool,
    closed: bool,
    other: u64,
)
    requires
        other != remote,
    ensures
        ({
            let after = t.processed(remote, was, is, closed);
            let out = t.outcome(remote, was, is, closed);
            let comes = !was && is && !t.delivered.contains(remote);
            &&& out.deliver <==> comes && t.waiting.contains(remote)
            &&& out.remove <==> closed
            &&& comes ==> !after.waiting.contains(remote)
            &&& !comes ==> (after.waiting.contains(remote) <==> t.waiting.contains(remote))
            &&& closed ==> !after.conns.contains(remote) && !after.delivered.contains(remote)
            &&& !closed ==> (after.conns.contains(remote) <==> t.conns.contains(remote))
            &&& !closed ==> (after.delivered.contains(remote) <==> t.delivered.contains(remote)
                || comes)
            &&& after.conns.contains(other) <==> t.conns.contains(other)
            &&& after.waiting.contains(other) <==> t.waiting.contains(other)
            &&& after.delivered.contains(other) <==> t.delivered.contains(other)
        }),
        t.accepted(remote).conns.contains(remote),
        t.accepted(remote).waiting.contains(remote),
        t.accepted(remote).delivered == t.delivered,
        t.accepted(remote).conns.contains(other) <==> t.conns.contains(other),
        t.accepted(remote).waiting.contains(other) <==> t.waiting.contains(other),
{
}

// ── Sessions of a handshake ──────────────────────────────────────────────────
/// The session of a handshake has the first eight bytes of its hash as its id,
/// and keys that come from the KEM secret, from the Noise secret and from the hash:
/// each key under a context of its own.
pub proof fn handshake_keys_come_from_both_secrets(
    r: HandshakeResult,
    hash: Seq<u8>,
    peer_static: Seq<u8>,
    kem_shared: Seq<u8>,
)
    requires
        is_session(r, hash, peer_static, kem_shared),
    ensures
        ({
            let secret = kem_shared + derived_key("apex/x25519-component/v1"@, hash) + hash;
            &&& r.keys.enc_key@ == derived_key("seam/packet-encryption/v1"@, secret)
            &&& r.keys.hp_key@ == derived_key("seam/header-protection/v1"@, secret)
            &&& r.keys.nonce_base@ == derived_key("seam/nonce-base/v1"@, secret).take(12)
            &&& r.session_id == le_value(hash.subrange(0, 8))
            &&& r.peer_static_pubkey@ == peer_static
        }),
{
}

// ── Tickets ──────────────────────────────────────────────────────────────────
/// A ticket lives for 24 hours.
pub proof fn tickets_live_for_a_day(t: std::time::SystemTime)
    ensures
        seconds_at(t) + 86_400 <= u64::MAX ==> expiry_at(t)
            == seconds_at(t) + 86_400,
{
}

} // verus!
