use bytes::Bytes;
use seam_protocol::api::{retry_delay_ms, CONNECT_ATTEMPTS};
use seam_protocol::error::SeamError;
use seam_protocol::handshake::{CookieFactory, IdentityKeypair};
use seam_protocol::session::{SessionEvent, TaggedPacket};
use seam_protocol::transport::connection::{cookie_request, Action, IDLE_US};
use seam_protocol::transport::fec::{ArbiterMode, FecGroups};
use seam_protocol::transport::{
    default_cc, ConnPhase, CongestionKind, Connection, Pacer, TicketKey,
};
use std::sync::Arc;

const CLIENT: &[u8] = b"192.0.2.1:5000";
const SERVER: &[u8] = b"192.0.2.9:4433";

fn reason<T>(r: Result<T, SeamError>) -> String {
    match r {
        Err(SeamError::HandshakeFailed(text)) => text,
        _ => panic!("expected a handshake failure"),
    }
}

fn sent(c: &mut Connection, buf: &[u8]) -> Vec<u8> {
    match c.on_packet(buf, 1).unwrap() {
        Action::Send(packet) => {
            c.on_sent();
            packet
        }
        _ => panic!("expected a packet"),
    }
}

fn start() -> (Connection, Connection, Vec<u8>) {
    let client_id = IdentityKeypair::generate();
    let server_id = Arc::new(IdentityKeypair::generate());
    let factory = Arc::new(CookieFactory::new([3u8; 32]));
    let client = Connection::connect(
        SERVER.to_vec(),
        &client_id,
        server_id.x25519_public.as_bytes(),
        &server_id.kem_pk,
        1,
    )
    .unwrap();
    let challenge = accept(&server_id, &factory, &cookie_request()).err().unwrap();
    // An echo whose message 1 is empty.
    let mut proof = vec![0x12];
    proof.extend(&challenge[1..]);
    proof.extend([0, 0]);
    let server = accept(&server_id, &factory, &proof).ok().unwrap();
    (client, server, challenge)
}

fn accept(
    id: &Arc<IdentityKeypair>,
    factory: &Arc<CookieFactory>,
    buf: &[u8],
) -> Result<Connection, Vec<u8>> {
    Connection::accept_challenge(CLIENT.to_vec(), id.clone(), factory.clone(), buf, 1)
}

fn established() -> (Connection, Connection) {
    let (mut client, mut server, challenge) = start();
    let echo = sent(&mut client, &challenge);
    let msg2 = sent(&mut server, &echo);
    let msg3 = sent(&mut client, &msg2);
    assert!(matches!(server.on_packet(&msg3, 1).unwrap(), Action::Nothing));
    (client, server)
}

fn pass(packets: &[TaggedPacket], to: &mut Connection, now: u64) -> Vec<SessionEvent> {
    let mut all = Vec::new();
    for p in packets {
        match to.on_packet(&p.bytes, now).unwrap() {
            Action::Deliver { events, .. } => all.extend(events),
            _ => panic!("expected events"),
        }
    }
    all
}

#[test]
fn cookie_handshake_establishes_both_sides() {
    assert_eq!(cookie_request(), [0x10]);
    let (mut client, mut server, challenge) = start();
    assert_eq!(client.phase(), ConnPhase::ClientWaitChallenge);
    assert_eq!(server.phase(), ConnPhase::ServerWaitCookie);
    assert_eq!(challenge[0], 0x11);
    assert_eq!(challenge.len(), 33);
    assert_eq!(
        challenge[1..],
        CookieFactory::new([3u8; 32]).generate(CLIENT)[..]
    );

    let echo = sent(&mut client, &challenge);
    assert_eq!(client.phase(), ConnPhase::ClientWaitMsg2);
    assert_eq!(echo[0], 0x12);
    assert_eq!(echo[1..33], challenge[1..]);
    assert_eq!(
        u16::from_le_bytes([echo[33], echo[34]]) as usize,
        echo.len() - 35
    );

    let msg2 = sent(&mut server, &echo);
    assert_eq!(server.phase(), ConnPhase::ServerWaitMsg3);
    assert_eq!(msg2[0], 0x13);
    let msg3 = sent(&mut client, &msg2);
    assert!(client.is_established());
    assert_eq!(server.session_id(), 0);
    server.on_packet(&msg3, 1).unwrap();
    assert!(server.is_established());
    assert_ne!(client.session_id(), 0);
    assert_eq!(client.session_id(), server.session_id());
}

#[test]
fn step_waits_until_its_packet_is_sent() {
    let (mut client, _, challenge) = start();
    assert!(matches!(
        client.on_packet(&challenge, 1).unwrap(),
        Action::Send(_)
    ));
    assert_eq!(client.phase(), ConnPhase::ClientWaitChallenge);
    client.on_sent();
    assert_eq!(client.phase(), ConnPhase::ClientWaitMsg2);
}

#[test]
fn no_connection_without_the_cookie() {
    let id = Arc::new(IdentityKeypair::generate());
    let factory = Arc::new(CookieFactory::new([3u8; 32]));
    let mut challenge = vec![0x11];
    challenge.extend(factory.generate(CLIENT));
    assert_eq!(accept(&id, &factory, &[]).err(), Some(challenge.clone()));
    assert_eq!(accept(&id, &factory, &[0x10]).err(), Some(challenge.clone()));
    // The cookie of another address.
    let mut echo = vec![0x12];
    echo.extend(factory.generate(SERVER));
    echo.extend([0, 0]);
    assert_eq!(accept(&id, &factory, &echo).err(), Some(challenge));
    let mut echo = vec![0x12];
    echo.extend(factory.generate(CLIENT));
    assert!(accept(&id, &factory, &echo).is_err());
    echo.extend([0, 0]);
    let conn = accept(&id, &factory, &echo).ok().unwrap();
    assert_eq!(conn.phase(), ConnPhase::ServerWaitCookie);
}

#[test]
fn wrong_cookies_leave_no_state() {
    let (mut client, mut server, challenge) = start();
    let mut echo = sent(&mut client, &challenge);
    echo[5] ^= 1;
    assert_eq!(reason(server.on_packet(&echo, 1)), "invalid cookie");
    assert_eq!(server.phase(), ConnPhase::ServerWaitCookie);
    server.on_sent();
    assert_eq!(server.phase(), ConnPhase::ServerWaitCookie);
    echo[5] ^= 1;
    assert_eq!(reason(server.on_packet(&echo[..100], 1)), "truncated msg1");
    assert_eq!(reason(server.on_packet(&echo[..34], 1)), "expected cookie echo");
    assert_eq!(reason(server.on_packet(&[0x10], 1)), "expected cookie echo");
    // The honest echo still works.
    sent(&mut server, &echo);
    assert_eq!(server.phase(), ConnPhase::ServerWaitMsg3);
}

#[test]
fn unexpected_packets_are_refused() {
    let (mut client, mut server, challenge) = start();
    assert_eq!(
        reason(client.on_packet(&challenge[..32], 1)),
        "expected cookie challenge"
    );
    let echo = sent(&mut client, &challenge);
    assert_eq!(
        reason(client.on_packet(&challenge, 1)),
        "expected pkt type 0x13, got 0x11"
    );
    sent(&mut server, &echo);
    assert_eq!(
        reason(server.on_packet(&echo, 1)),
        "expected pkt type 0x13, got 0x12"
    );
    assert!(matches!(client.on_packet(&[], 1).unwrap(), Action::Nothing));
    // A damaged message 3 ends the server's handshake.
    assert!(server.on_packet(&[0x13, 1, 2, 3], 1).is_err());
    assert_eq!(reason(server.on_packet(&[0x13, 1], 1)), "no server hs");
}

#[test]
fn written_data_is_read_by_the_peer() {
    let (mut client, mut server) = established();
    let sid = client.open_stream().unwrap();
    assert_eq!(sid, 1);
    let packets = client.write(sid, b"over the wire", 5).unwrap();
    let events = pass(&packets, &mut server, 6);
    assert!(matches!(
        events[..],
        [SessionEvent::NewStream(1), SessionEvent::DataAvailable(1)]
    ));
    assert_eq!(server.read(sid, 4).unwrap(), b"over");
    assert_eq!(server.read_available(sid, 64), b" the wire");
    let fin = client.send_fin(sid, 7).unwrap();
    assert!(pass(&fin, &mut server, 8)
        .iter()
        .any(|e| matches!(e, SessionEvent::StreamFinished(1))));
    assert!(matches!(
        client.write(sid, b"more", 9),
        Err(SeamError::StreamFinished(1))
    ));
    assert_eq!(server.push_stream(), Some(2));
}

#[test]
fn datagrams_pass() {
    let (mut client, mut server) = established();
    let packets = client.send_datagram(Bytes::from_static(b"dg"), 1).unwrap();
    pass(&packets, &mut server, 1);
    assert_eq!(server.recv_datagram().unwrap(), Bytes::from_static(b"dg"));
    assert!(server.recv_datagram().is_none());
    assert!(matches!(
        client.send_datagram(Bytes::from(vec![0u8; 2000]), 1),
        Err(SeamError::BufferTooSmall { need: 2000, have: 1200 })
    ));
}

#[test]
fn nothing_passes_before_the_handshake() {
    let (mut client, _, _) = start();
    assert_eq!(client.open_stream(), None);
    assert_eq!(reason(client.write(1, b"x", 1)), "not connected");
    assert_eq!(reason(client.read(1, 1)), "not connected");
    assert!(client.read_available(1, 1).is_empty());
    assert!(client.recv_datagram().is_none());
    assert_eq!(
        reason(client.send_datagram(Bytes::from_static(b"x"), 1)),
        "not connected"
    );
    assert!(client.flush(1).unwrap().is_empty());
    assert!(client.retransmit_expired(1).unwrap().is_empty());
    assert!(client.maybe_send_chaff(true, b"pad").unwrap().is_none());
    assert!(client.ticket_packet(&TicketKey::new([0u8; 32])).unwrap().is_none());
    assert_eq!(client.tick_fec(), None);
}

#[test]
fn tick_pings_a_silent_peer_and_sends_again() {
    let (mut client, mut server) = established();
    let sid = client.open_stream().unwrap();
    let lost = client.write(sid, b"lost", 1_000).unwrap();
    assert_eq!(lost.len(), 1);
    assert_eq!(client.tick_fec(), Some((1, 0)));

    let tick = client.tick(1_001, None, None);
    assert!(tick.flushed.is_empty() && tick.again.is_empty());
    assert!(tick.chaff.is_none() && tick.probe.is_none() && tick.failed.is_none());
    let late = IDLE_US / 4 + 1;
    let tick = client.tick(late, None, None);
    assert_eq!(tick.flushed.len(), 1);
    assert!(tick.flushed[0].is_control);
    assert_eq!(tick.again.len(), 1);
    server.on_packet(&tick.again[0], late).unwrap();
    assert_eq!(server.read(sid, 64).unwrap(), b"lost");
}

#[test]
fn tick_sends_chaff_and_probes_that_are_due() {
    let (mut client, mut server) = established();
    let tick = client.tick(1, Some(&[0u8; 64]), Some(b"probe"));
    let chaff = tick.chaff.unwrap();
    assert_eq!(chaff.len(), 64 + 33);
    assert_eq!(tick.probe.as_ref().unwrap().len(), 5 + 33);
    assert!(tick.failed.is_none());
    assert!(server.on_packet(&chaff, 1).is_ok());
    assert!(server.on_packet(&tick.probe.unwrap(), 1).is_ok());
    // Neither without a session.
    let (mut client, _, _) = start();
    let tick = client.tick(1, Some(b"pad"), Some(b"probe"));
    assert!(tick.chaff.is_none() && tick.probe.is_none() && tick.failed.is_none());
}

#[test]
fn idle_after_a_minute_of_silence() {
    let (client, _) = established();
    assert!(!client.is_idle(1));
    assert!(!client.is_idle(IDLE_US));
    assert!(client.is_idle(IDLE_US + 1));
}

#[test]
fn window_update_asks_for_a_flush() {
    let (mut client, mut server) = established();
    let sid = client.open_stream().unwrap();
    let packets = client.write(sid, &vec![1u8; 0x80_0001], 1).unwrap();
    let last = packets.len() - 1;
    for (i, p) in packets.iter().enumerate() {
        match server.on_packet(&p.bytes, 1).unwrap() {
            Action::Deliver { flush, .. } => assert_eq!(flush, i == last),
            _ => panic!("expected events"),
        }
        server.read(sid, 2000).unwrap();
    }
}

#[test]
fn data_waits_for_the_congestion_window() {
    let (mut client, mut server) = established();
    let sid = client.open_stream().unwrap();
    client.set_congestion_window(3000);
    let first = client.write(sid, &[9u8; 4200], 1).unwrap();
    assert_eq!(first.len(), 2);
    assert!(client.flush(2).unwrap().is_empty());
    // Control packets do not wait.
    client.maybe_queue_ping(IDLE_US);
    let ping = client.flush(3).unwrap();
    assert_eq!(ping.len(), 1);
    assert!(ping[0].is_control);
    // The acknowledgement makes room, and asks for a flush.
    pass(&first, &mut server, 4);
    let ack = server.flush(4).unwrap();
    match client.on_packet(&ack[0].bytes, 1_000_001).unwrap() {
        Action::Deliver { flush, .. } => assert!(flush),
        _ => panic!("expected events"),
    }
    let second = client.flush(1_000_001).unwrap();
    assert_eq!(second.len(), 2);
    pass(&second, &mut server, 5);
    assert_eq!(server.read(sid, 10_000).unwrap(), [9u8; 4200]);
}

#[test]
fn one_packet_leaves_even_a_closed_window() {
    let (mut client, _) = established();
    let sid = client.open_stream().unwrap();
    client.set_congestion_window(0);
    assert_eq!(client.write(sid, &[9u8; 4200], 1).unwrap().len(), 1);
    assert!(client.flush(2).unwrap().is_empty());
}

#[test]
fn data_waits_for_the_pace() {
    let (mut client, mut server) = established();
    let sid = client.open_stream().unwrap();
    // A round trip of a second, and a window of a million bytes.
    client.set_congestion_window(1_000_000);
    let probe = client.write(sid, b"x", 1).unwrap();
    pass(&probe, &mut server, 1);
    let ack = server.flush(1).unwrap();
    client.on_packet(&ack[0].bytes, 1_000_001).unwrap();
    // The bucket holds 45 full packets.
    let burst = client.write(sid, &vec![0u8; 100 * 1386], 1_000_001).unwrap();
    assert_eq!(burst.len(), 45);
    assert!(client.flush(1_000_001).unwrap().is_empty());
    // 960 bytes were left; one byte comes in each microsecond.
    assert!(client.flush(1_000_475).unwrap().is_empty());
    assert_eq!(client.flush(1_000_476).unwrap().len(), 1);
    assert_eq!(client.flush(1_000_476 + 1435 * 3).unwrap().len(), 3);
}

#[test]
fn fec_groups_follow_the_repairs() {
    let (mut client, _) = established();
    let mode = ArbiterMode::PureFec { k: 4, r: 1 };
    assert_eq!(client.fec_source(ArbiterMode::PureArq), None);
    let first = client.fec_source(mode).unwrap();
    assert_eq!((first.group, first.k, first.r, first.start), (0, 4, 1, true));
    let hybrid = ArbiterMode::HybridFecArq { k: 8, r: 2 };
    let second = client.fec_source(hybrid).unwrap();
    assert_eq!((second.group, second.k, second.r, second.start), (0, 8, 2, false));
    client.on_fec_repairs();
    assert!(client.fec_source(mode).unwrap().start);
    assert_eq!(client.fec_source(mode).unwrap().group, 1);
    let mut last = FecGroups { group: u32::MAX, encoder: Some(u32::MAX) };
    assert!(!last.on_source(mode).unwrap().start);
    last.on_repairs();
    assert_eq!(last, FecGroups { group: 0, encoder: Some(u32::MAX) });
    assert!(last.on_source(mode).unwrap().start);
}

#[test]
fn pacer_fills_at_a_window_per_round_trip() {
    let p = Pacer::new();
    assert_eq!(p.available(u64::MAX), None);
    let p = Pacer { window: Some(10_000), ..p }.update_rate(3_000, 50);
    assert_eq!((p.tokens, p.part, p.last), (65_535, 0, 50));
    assert_eq!(p.available(0), Some(10_000));
    assert_eq!(p.available(9_999), Some(1));
    assert_eq!(p.available(10_001), Some(0));
    let p = p.consume(65_535);
    assert_eq!(p.available(0), Some(0));
    // A microsecond brings three bytes and a third.
    let p = p.update_rate(3_000, 51);
    assert_eq!((p.tokens, p.part), (3, 1_000));
    let p = p.update_rate(3_000, 53);
    assert_eq!((p.tokens, p.part), (10, 0));
    assert_eq!(p.available(0), Some(10));
    assert_eq!(p.update_rate(3_000, 20).tokens, 10);
    assert_eq!(p.update_rate(3_000, u64::MAX).tokens, 65_535);
    assert_eq!(p.consume(11).tokens, 0);
}

#[test]
fn every_eighth_packet_pauses() {
    let (mut client, _) = established();
    let pauses: Vec<bool> = (0..16).map(|_| client.on_packet_sent()).collect();
    for (i, p) in pauses.iter().enumerate() {
        assert_eq!(*p, (i + 1) % 8 == 0);
    }
}

#[test]
fn extra_packets_are_read_by_the_peer() {
    let (mut client, mut server) = established();
    assert!(client.maybe_send_chaff(false, b"pad").unwrap().is_none());
    let chaff = client.maybe_send_chaff(true, &[0u8; 64]).unwrap().unwrap();
    assert_eq!(chaff.len(), 64 + 33);
    assert!(server.on_packet(&chaff, 1).is_ok());
    let probe = client.maybe_send_probe(true, b"probe").unwrap().unwrap();
    assert!(server.on_packet(&probe, 1).is_ok());
    let key = TicketKey::new([5u8; 32]);
    let packet = server.ticket_packet(&key).unwrap().unwrap();
    match client.on_packet(&packet, 1).unwrap() {
        Action::Deliver { events, .. } => match &events[..] {
            [SessionEvent::SessionTicket(t)] => {
                assert_eq!(key.redeem(t).unwrap().0, client.session_id())
            }
            _ => panic!("expected a ticket"),
        },
        _ => panic!("expected events"),
    }
}

#[test]
fn closed_connections_ignore_packets() {
    let (mut client, mut server) = established();
    let sid = client.open_stream().unwrap();
    let packets = client.write(sid, b"x", 1).unwrap();
    assert!(!server.is_closed());
    server.close();
    assert!(server.is_closed());
    assert_eq!(server.phase(), ConnPhase::Draining);
    assert!(matches!(
        server.on_packet(&packets[0].bytes, 1).unwrap(),
        Action::Nothing
    ));
}

#[test]
fn handshake_is_tried_three_times() {
    assert_eq!(CONNECT_ATTEMPTS, 3);
    let delays: Vec<Option<u64>> = (0..4).map(retry_delay_ms).collect();
    assert_eq!(delays, [Some(0), Some(250), Some(500), None]);
}

#[test]
fn congestion_controller_follows_the_setting() {
    assert_eq!(default_cc(Some("bbr")), CongestionKind::Bbr);
    assert_eq!(default_cc(Some("cubic")), CongestionKind::Cubic);
    assert_eq!(default_cc(Some("BBR")), CongestionKind::Cubic);
    assert_eq!(default_cc(None), CongestionKind::Cubic);
}
