use bytes::Bytes;
use seam_protocol::handshake::CookieFactory;
use seam_protocol::session::SessionEvent;
use seam_protocol::transport::{EndpointAction, EndpointTable, ServerTable};
use seam_protocol::tunnel::{MuxAction, MuxState, ReadBuffer};

const HOME: &[u8] = b"192.0.2.1:5000";

fn factory() -> CookieFactory {
    CookieFactory::new([3u8; 32])
}

fn echo(address: &[u8]) -> Vec<u8> {
    let mut packet = vec![0x12];
    packet.extend(factory().generate(address));
    packet.extend([0, 0]);
    packet
}

fn challenge(address: &[u8]) -> Vec<u8> {
    let mut packet = vec![0x11];
    packet.extend(factory().generate(address));
    packet
}

#[test]
fn unknown_remotes_are_challenged_and_forgotten() {
    let mut t = ServerTable::new();
    let mut e = EndpointTable::new();
    let foreign = echo(b"192.0.2.2:5000");
    let mut forged = echo(HOME);
    forged[3] ^= 1;
    for packet in [&[][..], &[0x10], &foreign, &forged, &echo(HOME)[..34]] {
        match t.on_datagram(7, HOME, packet, &factory()) {
            EndpointAction::Challenge(c) => assert_eq!(c, challenge(HOME)),
            _ => panic!("expected a challenge"),
        }
        assert!(!t.is_known(7));
        match e.on_datagram(7, HOME, packet, &factory()) {
            EndpointAction::Challenge(c) => assert_eq!(c, challenge(HOME)),
            _ => panic!("expected a challenge"),
        }
        assert!(!e.is_known(7));
    }
    // The cookie makes the connection; what follows is handed to it.
    assert!(matches!(
        t.on_datagram(7, HOME, &echo(HOME), &factory()),
        EndpointAction::Accept
    ));
    assert!(t.is_known(7));
    assert!(matches!(
        t.on_datagram(7, HOME, &[0x10], &factory()),
        EndpointAction::Process
    ));
    assert!(matches!(
        e.on_datagram(7, HOME, &echo(HOME), &factory()),
        EndpointAction::Accept
    ));
    assert!(matches!(
        e.on_datagram(7, HOME, b"x", &factory()),
        EndpointAction::Process
    ));
    assert!(!t.is_known(8) && !e.is_known(8));
}

#[test]
fn connections_are_delivered_once_established() {
    let mut t = ServerTable::new();
    assert!(!t.is_known(7));
    t.on_datagram(7, HOME, &echo(HOME), &factory());
    assert!(t.is_known(7));
    let p = t.on_processed(7, false, false, false);
    assert!(!p.deliver && !p.remove);
    let p = t.on_processed(7, false, true, false);
    assert!(p.deliver && !p.remove);
    let p = t.on_processed(7, false, true, false);
    assert!(!p.deliver);
    let p = t.on_processed(7, true, true, false);
    assert!(!p.deliver);
    assert!(!t.is_known(8));
}

#[test]
fn closed_remotes_can_connect_again() {
    let mut t = ServerTable::new();
    t.on_datagram(1, HOME, &echo(HOME), &factory());
    assert!(t.on_processed(1, false, true, false).deliver);
    let p = t.on_processed(1, true, true, true);
    assert!(p.remove && !p.deliver);
    assert!(!t.is_known(1));
    t.on_datagram(1, HOME, &echo(HOME), &factory());
    assert!(t.on_processed(1, false, true, false).deliver);
}

#[test]
fn endpoints_forget_closed_connections() {
    let mut t = EndpointTable::new();
    assert!(!t.is_known(4));
    t.on_opened(4);
    assert!(t.is_known(4));
    assert!(!t.on_processed(4, false));
    assert!(t.is_known(4));
    assert!(t.on_processed(4, true));
    assert!(!t.is_known(4));
}

#[test]
fn remote_streams_are_accepted_in_order() {
    let mut m = MuxState::new();
    assert_eq!(m.accept(), None);
    assert!(matches!(
        m.on_event(&SessionEvent::NewStream(2)),
        MuxAction::Announce(2)
    ));
    m.on_event(&SessionEvent::NewStream(4));
    // Data before the accept is forwarded.
    assert!(matches!(
        m.on_event(&SessionEvent::DataAvailable(2)),
        MuxAction::Forward(2)
    ));
    assert_eq!(m.accept(), Some(2));
    assert_eq!(m.accept(), Some(4));
    assert_eq!(m.accept(), None);
}

#[test]
fn local_streams_get_data_until_their_end() {
    let mut m = MuxState::new();
    assert!(matches!(
        m.on_event(&SessionEvent::DataAvailable(1)),
        MuxAction::Discard(1)
    ));
    m.on_opened(1);
    assert!(matches!(
        m.on_event(&SessionEvent::DataAvailable(1)),
        MuxAction::Forward(1)
    ));
    assert!(matches!(
        m.on_event(&SessionEvent::StreamFinished(1)),
        MuxAction::Finish(1)
    ));
    assert!(matches!(
        m.on_event(&SessionEvent::DataAvailable(1)),
        MuxAction::Discard(1)
    ));
    assert!(matches!(
        m.on_event(&SessionEvent::DatagramReceived),
        MuxAction::Ignore
    ));
    assert!(matches!(
        m.on_event(&SessionEvent::SessionTicket(vec![1])),
        MuxAction::Ignore
    ));
    assert!(matches!(m.on_event(&SessionEvent::Closed), MuxAction::Close));
    assert!(matches!(
        m.on_event(&SessionEvent::NewStream(2)),
        MuxAction::Ignore
    ));
}

#[test]
fn read_buffer_keeps_what_does_not_fit() {
    let mut b = ReadBuffer::new();
    assert!(b.is_empty());
    assert_eq!(b.deliver(Bytes::from_static(b"abc"), 8), "abc");
    assert!(b.is_empty());
    assert_eq!(b.deliver(Bytes::from_static(b"abcdefg"), 3), "abc");
    assert!(!b.is_empty());
    assert_eq!(b.serve(2), "de");
    assert_eq!(b.serve(0), "");
    assert_eq!(b.serve(9), "fg");
    assert!(b.is_empty());
}
