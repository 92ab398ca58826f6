use seam_protocol::crypto::{decoder::PacketDecoder, encoder::PacketEncoder, keys::PacketKeys};
use seam_protocol::error::SeamError;
use seam_protocol::session::{Role, Session, SessionEvent};

fn make_session_pair() -> (Session, Session) {
    let secret = [0x42u8; 32];
    let keys_a = PacketKeys::derive_from_secret(&secret);
    let keys_b = PacketKeys::derive_from_secret(&secret);
    let client = Session::with_role(
        1,
        Role::Client,
        PacketEncoder::new(keys_a.clone(), 1),
        PacketDecoder::new(keys_b.clone()),
    );
    let server = Session::with_role(
        1,
        Role::Server,
        PacketEncoder::new(keys_b, 1),
        PacketDecoder::new(keys_a),
    );
    (client, server)
}

#[test]
fn server_push_stream_allocates_even_ids() {
    let (_, mut server) = make_session_pair();
    let id1 = server.push_stream();
    let id2 = server.push_stream();
    assert_eq!(id1 % 2, 0, "server push_stream should allocate even IDs");
    assert_eq!(id2 % 2, 0);
    assert_eq!(id1, 2);
    assert_eq!(id2, 4);
}

#[test]
fn client_open_stream_allocates_odd_ids() {
    let (mut client, _) = make_session_pair();
    let id1 = client.open_stream();
    let id2 = client.open_stream();
    assert_eq!(id1 % 2, 1, "client open_stream should allocate odd IDs");
    assert_eq!(id2 % 2, 1);
    assert_eq!(id1, 1);
    assert_eq!(id2, 3);
}

#[test]
fn server_push_data_received_as_new_stream_by_client() {
    let (mut client, mut server) = make_session_pair();

    // Server opens a push stream and sends data
    let sid = server.push_stream(); // stream 2 (even, server-initiated)
    server.send(sid, b"pushed from server").unwrap();
    let pkts = server.flush().unwrap();
    assert!(!pkts.is_empty());

    // Client receives the packet
    let events = client.receive_packet(&mut pkts[0].bytes.clone()).unwrap();
    let has_new = events
        .iter()
        .any(|e| matches!(e, SessionEvent::NewStream(2)));
    assert!(
        has_new,
        "client should see NewStream(2) for server-pushed stream"
    );

    let mut out = Vec::new();
    let n = client.read(sid, &mut out, 256).unwrap();
    assert_eq!(&out[..n], b"pushed from server");
}

#[test]
fn wrong_parity_stream_id_rejected() {
    let (mut client, mut server) = make_session_pair();

    // Client opens stream 1 and sends — this is valid (client initiates odd ID)
    let sid = client.open_stream();
    assert_eq!(sid, 1);
    client.send(sid, b"ping").unwrap();
    let pkts = client.flush().unwrap();

    // Server receives it fine (server role, parity=0; stream 1 has parity 1 — remote ✓)
    let events = server.receive_packet(&mut pkts[0].bytes.clone()).unwrap();
    assert!(
        events
            .iter()
            .any(|e| matches!(e, SessionEvent::NewStream(1)))
    );

    // Now craft a frame as if the server received a NEW stream with even ID 2 from the client.
    // This would be a protocol violation: server (local_parity=0) receiving a new stream
    // with even ID looks like the server itself initiated it, not the client.
    let sid2 = server.push_stream(); // allocates stream 2 on server side
    server.send(sid2, b"bad frame").unwrap();
    let _bad_pkts = server.flush().unwrap();

    // Send that back to the server itself — server receiving its own even-ID stream
    // as if it's new (it already knows about stream 2, so it won't trigger the check).
    // Instead test via client: client (local_parity=1) should reject new stream with odd ID
    // (client wouldn't have opened stream 3 yet, and receiving it would be a violation).
    // We achieve this by having the client send stream 3 to server, then server echoes
    // it back to client — but client already knows about stream 1. So let's test directly:
    // open stream 3 on client, send to server; server relays back to a fresh client.
    let (mut client2, mut server2) = make_session_pair();
    let bad_sid = client2.open_stream(); // stream 1
    assert_eq!(bad_sid, 1);
    client2.send(bad_sid, b"data").unwrap();
    let bad_pkts2 = client2.flush().unwrap();
    // server2 receives stream 1 fine (opposite parity)
    let evs = server2
        .receive_packet(&mut bad_pkts2[0].bytes.clone())
        .unwrap();
    assert!(evs.iter().any(|e| matches!(e, SessionEvent::NewStream(1))));

    // Now manufacture a violation: server2 (local_parity=0) receiving a NEW even-ID stream.
    // We reuse the server push packet from the other pair — server received its own packet.
    // Actually the simplest check: route bad_pkts (server→client path) to another server2.
    // server2 would decrypt it wrong (different keys). Skip that.
    // The cleanest direct unit test: use same-key pair where sender and receiver share keys.
    let secret = [0xDEu8; 32];
    let keys = PacketKeys::derive_from_secret(&secret);
    let mut sender = Session::with_role(
        99,
        Role::Client, // sends odd IDs
        PacketEncoder::new(keys.clone(), 99),
        PacketDecoder::new(keys.clone()),
    );
    let mut receiver = Session::with_role(
        99,
        Role::Client, // also client role — will reject odd-ID NEW streams from "peer"
        PacketEncoder::new(keys.clone(), 99),
        PacketDecoder::new(keys.clone()),
    );
    // sender opens stream 1 (odd) and sends; receiver (client) sees a NEW stream 1
    // with same parity as its own local_parity(1) → violation
    let vsid = sender.open_stream();
    assert_eq!(vsid, 1);
    sender.send(vsid, b"violation").unwrap();
    let vpkts = sender.flush().unwrap();
    let result = receiver.receive_packet(&mut vpkts[0].bytes.clone());
    assert!(
        matches!(result, Err(SeamError::ProtocolViolation(_))),
        "should reject stream with same parity as receiver's local role: {result:?}"
    );
}
