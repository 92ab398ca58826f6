use bytes::Bytes;
use seam_protocol::crypto::{decoder::PacketDecoder, encoder::PacketEncoder, keys::PacketKeys};
use seam_protocol::error::SeamError;
use seam_protocol::packet::PktType;
use seam_protocol::session::stream::{PRIORITY_HIGH, PRIORITY_LOW};
use seam_protocol::session::{
    count_data_bytes, Role, Session, SessionEvent, SessionLimits, DEFAULT_WINDOW,
};
use seam_protocol::transport::{SessionTicket, TicketKey};

fn limited_pair(limits: SessionLimits) -> (Session, Session) {
    let keys = PacketKeys::derive_from_secret(&[0x42u8; 32]);
    let client = Session::with_limits(
        1,
        Role::Client,
        PacketEncoder::new(keys, 1),
        PacketDecoder::new(keys),
        limits,
    );
    let server = Session::with_limits(
        1,
        Role::Server,
        PacketEncoder::new(keys, 1),
        PacketDecoder::new(keys),
        limits,
    );
    (client, server)
}

fn pair() -> (Session, Session) {
    limited_pair(SessionLimits::default())
}

fn deliver(from: &mut Session, to: &mut Session, now: u64) -> Vec<SessionEvent> {
    let mut events = Vec::new();
    for packet in from.flush_at(now).unwrap() {
        events.extend(to.receive_packet_at(&packet.bytes, now).unwrap());
    }
    events
}

#[test]
fn default_limits_are_as_documented() {
    let limits = SessionLimits::default();
    assert_eq!(limits.max_streams, 1024);
    assert_eq!(limits.max_datagram_size, 1200);
    assert_eq!(limits.max_datagram_queue, 64);
    assert_eq!(limits.max_in_flight_packets, 10_000);
    assert_eq!(limits.max_recv_buffer_per_stream, 4 * 1024 * 1024);
    let (client, server) = pair();
    assert_eq!(client.limits().max_streams, 1024);
    assert_eq!(client.session_id(), 1);
    assert_eq!(Role::Client.local_parity(), 1);
    assert_eq!(server.role.local_parity(), 0);
    let keys = PacketKeys::derive_from_secret(b"x");
    let plain = Session::new(5, PacketEncoder::new(keys, 5), PacketDecoder::new(keys));
    assert_eq!((plain.id, plain.role), (5, Role::Client));
}

#[test]
fn stream_limit_is_kept() {
    let (mut client, _) = limited_pair(SessionLimits {
        max_streams: 2,
        ..SessionLimits::default()
    });
    assert_eq!(client.try_open_stream_with_priority(PRIORITY_LOW), Some(1));
    assert_eq!(client.open_stream_with_priority(PRIORITY_HIGH).unwrap(), 3);
    assert_eq!(client.try_open_stream_with_priority(PRIORITY_HIGH), None);
    assert!(matches!(
        client.open_stream_with_priority(PRIORITY_HIGH),
        Err(SeamError::StreamLimitExceeded(2))
    ));
    assert!(client.send(3, b"x").is_ok());
    assert!(matches!(
        client.send(5, b"x"),
        Err(SeamError::UnknownStream(5))
    ));
}

#[test]
fn peers_cannot_open_streams_beyond_the_limit() {
    let (mut client, _) = pair();
    let (_, mut server) = limited_pair(SessionLimits {
        max_streams: 2,
        ..SessionLimits::default()
    });
    for _ in 0..3 {
        let sid = client.open_stream();
        client.send(sid, b"hi").unwrap();
    }
    let packets = client.flush_at(1).unwrap();
    assert!(server.receive_packet_at(&packets[0].bytes, 1).is_ok());
    assert!(server.receive_packet_at(&packets[1].bytes, 1).is_ok());
    assert!(matches!(
        server.receive_packet_at(&packets[2].bytes, 1),
        Err(SeamError::StreamLimitExceeded(2))
    ));
    let mut out = Vec::new();
    assert!(matches!(
        server.read(5, &mut out, 9),
        Err(SeamError::UnknownStream(5))
    ));
    // Streams that it has go on, and this side can open none either.
    client.send(1, b"!").unwrap();
    deliver(&mut client, &mut server, 2);
    assert_eq!(server.read(1, &mut out, 9).unwrap(), 3);
    assert_eq!(server.try_open_stream_with_priority(PRIORITY_LOW), None);
}

#[test]
fn flush_keeps_to_the_packets_that_may_be_in_flight() {
    let (mut client, mut server) = limited_pair(SessionLimits {
        max_in_flight_packets: 2,
        ..SessionLimits::default()
    });
    let sid = client.open_stream();
    let data: Vec<u8> = (0..5000u32).map(|i| (i % 251) as u8).collect();
    client.send(sid, &data).unwrap();
    let mut out = Vec::new();
    let mut rounds = 0;
    loop {
        let packets = client.flush_at(1).unwrap();
        assert!(client.arq_in_flight() <= 2);
        if packets.iter().all(|p| p.is_control) {
            break;
        }
        // Nothing more goes out until something is acknowledged.
        assert!(client.arq_in_flight() < 2 || client.flush_at(1).unwrap().is_empty());
        for p in &packets {
            server.receive_packet_at(&p.bytes, 1).unwrap();
        }
        server.read(sid, &mut out, 9000).unwrap();
        for p in server.flush_at(1).unwrap() {
            client.receive_packet_at(&p.bytes, 1).unwrap();
        }
        assert_eq!(client.arq_in_flight(), 0);
        rounds += 1;
    }
    assert_eq!(rounds, 2);
    assert_eq!(out, data);
}

#[test]
fn flush_keeps_to_its_budget() {
    let (mut client, mut server) = pair();
    let sid = client.open_stream();
    client.send(sid, &[5u8; 5000]).unwrap();
    for n in [90, 200, 10] {
        client.send_datagram(Bytes::from(vec![n; n as usize])).unwrap();
    }
    client.ping();
    // Two full packets of 1435 bytes and one datagram in 123 bytes; the next
    // datagram does not fit, nor does the one behind it.
    let packets = client.flush_within(1, Some(3000)).unwrap();
    assert_eq!(packets.len(), 4);
    let sizes: Vec<(bool, usize)> =
        packets.iter().map(|p| (p.is_control, p.bytes.len())).collect();
    assert_eq!(sizes, [(false, 1435), (false, 1435), (false, 123), (true, 33)]);
    assert_eq!(count_data_bytes(&packets), 2993);
    assert_eq!(client.arq_in_flight(), 2);
    assert_eq!(client.bytes_in_flight(), 2870);
    assert!(client.has_unsent());
    assert_eq!(client.datagram_stats().0, 2);
    for p in &packets {
        server.receive_packet_at(&p.bytes, 2).unwrap();
    }
    assert_eq!(server.recv_datagram().unwrap(), Bytes::from(vec![90u8; 90]));
    // Control packets go without any budget.
    client.ping();
    let packets = client.flush_within(3, Some(0)).unwrap();
    assert_eq!(packets.len(), 1);
    assert!(packets[0].is_control);
    // What waited comes later.
    for p in client.flush_within(4, None).unwrap() {
        server.receive_packet_at(&p.bytes, 4).unwrap();
    }
    assert!(!client.has_unsent());
    assert_eq!(client.datagram_stats().0, 0);
    let mut out = Vec::new();
    assert_eq!(server.read(sid, &mut out, 10_000).unwrap(), 5000);
    assert_eq!(out, [5u8; 5000]);
}

#[test]
fn receive_buffer_is_limited_and_nothing_is_lost() {
    let (mut client, _) = pair();
    let (_, mut server) = limited_pair(SessionLimits {
        max_recv_buffer_per_stream: 3000,
        ..SessionLimits::default()
    });
    let sid = client.open_stream();
    let data: Vec<u8> = (0..4000u32).map(|i| (i % 251) as u8).collect();
    client.send(sid, &data).unwrap();
    let packets = client.flush_at(1_000).unwrap();
    assert_eq!(packets.len(), 3);
    server.receive_packet_at(&packets[0].bytes, 1_000).unwrap();
    server.receive_packet_at(&packets[1].bytes, 1_000).unwrap();
    assert!(matches!(
        server.receive_packet_at(&packets[2].bytes, 1_000),
        Err(SeamError::FlowControlBlocked {
            available: 228,
            requested: 1228
        })
    ));
    // What was refused is not acknowledged, and so is sent again.
    for p in server.flush_at(1_000).unwrap() {
        client.receive_packet_at(&p.bytes, 1_000).unwrap();
    }
    assert_eq!(client.arq_in_flight(), 1);
    let mut out = Vec::new();
    assert_eq!(server.read(sid, &mut out, 9000).unwrap(), 2772);
    let again = client.resend_expired_at(1_000_000).unwrap();
    assert_eq!(again.len(), 1);
    server.receive_packet_at(&again[0], 1_000_000).unwrap();
    server.read(sid, &mut out, 9000).unwrap();
    assert_eq!(out, data);
}

#[test]
fn refused_data_takes_no_credit() {
    let (mut client, _) = pair();
    let whole = vec![0u8; DEFAULT_WINDOW as usize];
    assert!(matches!(
        client.send(99, &whole),
        Err(SeamError::UnknownStream(99))
    ));
    let sid = client.open_stream();
    assert_eq!(sid, 1);
    assert!(client.send(sid, b"x").is_ok());
    client.finish_stream(sid);
    assert!(matches!(
        client.send(sid, &whole[1..]),
        Err(SeamError::StreamFinished(1))
    ));
    let other = client.open_stream();
    assert!(client.send(other, &whole[1..]).is_ok());
    assert!(matches!(
        client.send(other, b"y"),
        Err(SeamError::FlowControlBlocked {
            available: 0,
            requested: 1
        })
    ));
}

#[test]
fn ids_follow_from_the_streams_opened() {
    let (mut client, mut server) = pair();
    for n in 0..3 {
        assert_eq!(client.open_stream(), 2 * n + 1);
        client.send(2 * n + 1, b"x").unwrap();
        deliver(&mut client, &mut server, 1);
        assert_eq!(server.push_stream(), 2 * n + 2);
    }
}

#[test]
fn data_round_trips_and_ends() {
    let (mut client, mut server) = pair();
    let data: Vec<u8> = (0..10_000u32).map(|i| (i * 7 % 253) as u8).collect();
    let sid = client.open_stream();
    client.send(sid, &data).unwrap();
    client.finish_stream(sid);
    let events = deliver(&mut client, &mut server, 10);
    assert!(matches!(events[0], SessionEvent::NewStream(1)));
    assert!(events
        .iter()
        .any(|e| matches!(e, SessionEvent::StreamFinished(1))));
    let mut out = Vec::new();
    assert_eq!(server.read(sid, &mut out, 20_000).unwrap(), 10_000);
    assert_eq!(out, data);
    // A second flush sends nothing more.
    assert!(client.flush_at(20).unwrap().is_empty());
}

#[test]
fn lost_frames_are_sent_again_under_new_numbers() {
    let (mut client, mut server) = pair();
    let sid = client.open_stream();
    client.send(sid, b"first ").unwrap();
    let lost = client.flush_at(1_000).unwrap();
    assert_eq!(lost.len(), 1);
    client.send(sid, b"second").unwrap();
    let arrived = client.flush_at(1_000).unwrap();
    server.receive_packet_at(&arrived[0].bytes, 2_000).unwrap();
    let mut out = Vec::new();
    assert_eq!(server.read(sid, &mut out, 64).unwrap(), 0);

    // The server acknowledges what arrived; only the other frame stays in flight.
    for p in server.flush_at(2_000).unwrap() {
        client.receive_packet_at(&p.bytes, 3_000).unwrap();
    }
    assert_eq!(client.arq_in_flight(), 1);
    assert_eq!(client.srtt_us(), 2_000);
    assert_eq!(client.drain_cc_ack(), Some((22, 2_000)));
    assert_eq!(client.drain_cc_ack(), None);

    assert!(client.resend_expired_at(201_000).unwrap().is_empty());
    let again = client.resend_expired_at(201_001).unwrap();
    assert_eq!(again.len(), 1);
    assert_ne!(again[0], lost[0].bytes);
    assert_eq!(client.arq_in_flight(), 1);
    server.receive_packet_at(&again[0], 202_000).unwrap();
    assert_eq!(server.read(sid, &mut out, 64).unwrap(), 12);
    assert_eq!(out, b"first second");
    // The late first copy changes nothing.
    server.receive_packet_at(&lost[0].bytes, 203_000).unwrap();
    assert_eq!(server.read(sid, &mut out, 64).unwrap(), 0);
}

#[test]
fn expired_packets_are_drained() {
    let (mut client, _) = pair();
    let sid = client.open_stream();
    client.send(sid, b"data").unwrap();
    client.flush_at(5).unwrap();
    assert!(client.drain_retransmits_at(100).is_empty());
    let due = client.drain_retransmits_at(1_000_000);
    assert_eq!(due.len(), 1);
    assert_eq!(due[0].0, 0);
    assert_eq!(&due[0].1[16..], b"data");
    assert!(client.drain_retransmits().is_empty());
}

#[test]
fn ping_is_answered_once() {
    let (mut client, mut server) = pair();
    client.ping();
    let ping = client.flush_at(1).unwrap();
    assert_eq!(ping.len(), 1);
    assert!(ping[0].is_control);
    server.receive_packet_at(&ping[0].bytes, 1).unwrap();
    assert!(server.has_pending_ack());
    let answer = server.flush_at(2).unwrap();
    // The acknowledgement of the ping, and the pong.
    assert_eq!(answer.len(), 2);
    for p in &answer {
        client.receive_packet_at(&p.bytes, 3).unwrap();
    }
    assert!(!client.has_pending_ack());
    assert!(client.flush_at(4).unwrap().is_empty());
    assert!(server.flush_at(4).unwrap().is_empty());
}

#[test]
fn half_used_window_is_extended() {
    let (mut client, mut server) = pair();
    let sid = client.open_stream();
    let half = vec![5u8; (DEFAULT_WINDOW / 2) as usize];
    client.send(sid, &half).unwrap();
    let mut out = Vec::new();
    for packet in client.flush_at(1).unwrap() {
        server.receive_packet_at(&packet.bytes, 1).unwrap();
        server.read(sid, &mut out, 2000).unwrap();
    }
    assert_eq!(out, half);
    assert!(!server.has_pending_max_data());
    let r = client.send(sid, &vec![5u8; (DEFAULT_WINDOW / 2 + 1) as usize]);
    assert!(matches!(
        r,
        Err(SeamError::FlowControlBlocked { available: 0x80_0000, requested: 0x80_0001 })
    ));
    client.send(sid, b"x").unwrap();
    deliver(&mut client, &mut server, 1);
    assert!(server.has_pending_max_data());
    deliver(&mut server, &mut client, 2);
    assert!(!server.has_pending_max_data());
    client
        .send(sid, &vec![5u8; (DEFAULT_WINDOW - 1) as usize])
        .unwrap();
}

#[test]
fn frames_leave_other_streams_alone() {
    let (mut client, mut server) = pair();
    let (a, b) = (client.open_stream(), client.open_stream());
    client.send(a, b"stalled").unwrap();
    let _lost = client.flush_at(1).unwrap();
    client.send(a, b"!").unwrap();
    client.send(b, b"control").unwrap();
    deliver(&mut client, &mut server, 1);
    let mut out = Vec::new();
    assert_eq!(server.read(a, &mut out, 64).unwrap(), 0);
    assert_eq!(server.read(b, &mut out, 64).unwrap(), 7);
    assert_eq!(out, b"control");
}

#[test]
fn unknown_streams_are_refused() {
    let (mut client, _) = pair();
    assert!(matches!(
        client.send(9, b"x"),
        Err(SeamError::UnknownStream(9))
    ));
    let mut out = Vec::new();
    assert!(matches!(
        client.read(9, &mut out, 1),
        Err(SeamError::UnknownStream(9))
    ));
    client.finish_stream(9);
    let sid = client.open_stream();
    client.finish_stream(sid);
    assert!(matches!(
        client.send(sid, b"x"),
        Err(SeamError::StreamFinished(1))
    ));
}

#[test]
fn wrong_parity_is_explained() {
    let keys = PacketKeys::derive_from_secret(&[1u8; 32]);
    let mut a = Session::with_role(
        1,
        Role::Server,
        PacketEncoder::new(keys, 1),
        PacketDecoder::new(keys),
    );
    let mut b = Session::with_role(
        1,
        Role::Server,
        PacketEncoder::new(keys, 1),
        PacketDecoder::new(keys),
    );
    let sid = a.push_stream();
    a.send(sid, b"x").unwrap();
    let packet = a.flush_at(1).unwrap();
    match b.receive_packet_at(&packet[0].bytes, 1) {
        Err(SeamError::ProtocolViolation(text)) => assert_eq!(
            text,
            "stream 2 parity matches local role Server; remote must use opposite parity"
        ),
        _ => panic!("expected a violation"),
    }
}

#[test]
fn datagrams_arrive_unreliably() {
    let (mut client, mut server) = pair();
    let r = client.send_datagram(Bytes::from(vec![0u8; 1201]));
    assert!(matches!(
        r,
        Err(SeamError::BufferTooSmall { need: 1201, have: 1200 })
    ));
    client.send_datagram(Bytes::from_static(b"one")).unwrap();
    client.send_datagram(Bytes::from_static(b"two")).unwrap();
    assert_eq!(client.datagram_stats(), (2, 0, 0));
    let events = deliver(&mut client, &mut server, 1);
    assert_eq!(events.len(), 2);
    assert!(matches!(events[0], SessionEvent::DatagramReceived));
    assert_eq!(client.arq_in_flight(), 0);
    assert_eq!(server.datagram_stats(), (0, 2, 0));
    assert_eq!(server.recv_datagram().unwrap(), Bytes::from_static(b"one"));
    assert_eq!(server.recv_datagram().unwrap(), Bytes::from_static(b"two"));
    assert!(server.recv_datagram().is_none());
}

#[test]
fn control_packets_are_tagged() {
    let (mut client, mut server) = pair();
    let sid = client.open_stream();
    client.send(sid, b"data").unwrap();
    client.send_datagram(Bytes::from_static(b"dg")).unwrap();
    client.ping();
    let packets = client.flush_at(1).unwrap();
    let tags: Vec<bool> = packets.iter().map(|p| p.is_control).collect();
    assert_eq!(tags, [false, false, true]);
    for p in &packets {
        server.receive_packet_at(&p.bytes, 1).unwrap();
    }
    assert!(server.flush_at(1).unwrap().iter().all(|p| p.is_control));
}

#[test]
fn replayed_and_forged_packets_change_nothing() {
    let (mut client, mut server) = pair();
    let sid = client.open_stream();
    client.send(sid, b"data").unwrap();
    let mut packets = client.flush_at(1).unwrap();
    server.receive_packet(&packets[0].bytes).unwrap();
    assert!(matches!(
        server.receive_packet(&packets[0].bytes),
        Err(SeamError::Replayed(0))
    ));
    packets[0].bytes[20] ^= 1;
    assert!(matches!(
        server.receive_packet(&packets[0].bytes),
        Err(SeamError::AuthFailed)
    ));
    let mut out = Vec::new();
    assert_eq!(server.read(sid, &mut out, 64).unwrap(), 4);
}

#[test]
fn raw_packets_are_read_by_the_peer() {
    let (mut client, mut server) = pair();
    let mut out = vec![0u8; 64];
    let n = client.encode_raw(PktType::Close, b"", &mut out).unwrap();
    let events = server.receive_packet_at(&out[..n], 1).unwrap();
    assert!(matches!(events[..], [SessionEvent::Closed]));
    let packet = client.seal_raw(PktType::Chaff, &[0u8; 100]).unwrap();
    assert!(server.receive_packet_at(&packet, 1).unwrap().is_empty());
    let short = client.seal_raw(PktType::MaxData, &[1, 2]).unwrap();
    assert!(server.receive_packet_at(&short, 1).unwrap().is_empty());
}

#[test]
fn tickets_resume_the_session() {
    let (mut client, mut server) = pair();
    let key = TicketKey::new([7u8; 32]);
    let packet = server.ticket_packet(&key).unwrap();
    let events = client.receive_packet(&packet).unwrap();
    match &events[..] {
        [SessionEvent::SessionTicket(ticket)] => {
            let (id, keys) = key.redeem(ticket).unwrap();
            assert_eq!(id, 1);
            assert_eq!(
                keys.to_bytes(),
                PacketKeys::derive_from_secret(&[0x42u8; 32]).to_bytes()
            );
            let kept = SessionTicket::new(id, keys);
            let again = SessionTicket::from_bytes(&kept.to_bytes()).unwrap();
            assert_eq!(again.session_id, 1);
        }
        _ => panic!("expected a ticket"),
    }
}
