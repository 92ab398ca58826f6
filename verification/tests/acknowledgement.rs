use bytes::Bytes;
use seam_protocol::session::ack::{parse_ack_frame, AckRanges, MAX_ACK_RANGES};
use seam_protocol::session::arq::{ArqTracker, MIN_RTO_US};
use seam_protocol::session::datagram::DatagramQueue;

#[test]
fn received_numbers_are_listed_as_ranges() {
    let mut acks = AckRanges::new();
    assert!(!acks.has_pending_ack());
    for n in [7u64, 3, 5, 4, 9] {
        acks.on_received(n, n == 9);
    }
    assert!(acks.has_pending_ack());
    let frame = acks.build_frame();
    assert!(!acks.has_pending_ack());
    let (largest, delay, ranges) = parse_ack_frame(&frame).unwrap();
    assert_eq!((largest, delay), (9, 0));
    assert_eq!(ranges, [(3, 5), (7, 7), (9, 9)]);
}

#[test]
fn packets_that_elicit_nothing_owe_no_ack() {
    let mut acks = AckRanges::new();
    acks.on_received(1, false);
    assert!(!acks.has_pending_ack());
    acks.on_received(2, true);
    acks.on_received(3, false);
    assert!(acks.has_pending_ack());
    acks.build_frame();
    acks.on_received(4, false);
    assert!(!acks.has_pending_ack());
}

#[test]
fn long_lists_keep_the_highest_ranges() {
    let mut acks = AckRanges::new();
    for i in 0..100u64 {
        acks.on_received(2 * i, true);
    }
    let (largest, _, ranges) = parse_ack_frame(&acks.build_frame()).unwrap();
    assert_eq!(largest, 198);
    assert_eq!(ranges.len(), MAX_ACK_RANGES);
    assert_eq!(ranges[0], (72, 72));
    assert_eq!(ranges[63], (198, 198));
}

#[test]
fn short_ack_frames_say_nothing() {
    let mut acks = AckRanges::new();
    acks.on_received(1, true);
    let frame = acks.build_frame();
    assert!(parse_ack_frame(&frame).is_some());
    assert!(parse_ack_frame(&frame[..frame.len() - 1]).is_none());
    assert!(parse_ack_frame(&[]).is_none());
}

#[test]
fn acknowledged_packets_leave_flight() {
    let mut arq = ArqTracker::new();
    for n in 0..4u64 {
        arq.on_sent(n, Bytes::from(vec![n as u8; 10]), 1_000, false);
    }
    assert_eq!(arq.in_flight_count(), 4);
    assert_eq!(arq.on_ack_range(1, 2, 41_000), (20, Some(40_000)));
    assert_eq!(arq.in_flight_count(), 2);
    assert_eq!(arq.srtt(), 40_000);
    assert_eq!(arq.on_ack_range(1, 2, 50_000), (0, None));
    let left: Vec<u64> = arq
        .drain_expired(10_000_000)
        .iter()
        .map(|(n, _)| *n)
        .collect();
    assert_eq!(left, [0, 3]);
    assert_eq!(arq.in_flight_count(), 0);
}

#[test]
fn round_trip_time_is_smoothed() {
    let mut arq = ArqTracker::new();
    assert_eq!(arq.rto(), MIN_RTO_US);
    arq.on_sent(0, Bytes::from_static(b"a"), 0, false);
    arq.on_ack_range(0, 0, 160_000);
    assert_eq!(arq.srtt(), 160_000);
    assert_eq!(arq.rto(), 320_000);
    arq.on_sent(1, Bytes::from_static(b"a"), 0, false);
    arq.on_ack_range(1, 1, 80_000);
    assert_eq!(arq.srtt(), 140_000 + 10_000);
    // A packet that was sent again measures nothing.
    arq.on_sent(2, Bytes::from_static(b"a"), 0, true);
    assert_eq!(arq.on_ack_range(2, 2, 999_000), (1, None));
    assert_eq!(arq.srtt(), 150_000);
}

#[test]
fn packets_expire_after_the_timeout() {
    let mut arq = ArqTracker::new();
    arq.on_sent(7, Bytes::from_static(b"first"), 1_000, false);
    arq.on_sent(8, Bytes::from_static(b"later"), 100_000, false);
    assert!(arq.drain_expired(1_000 + MIN_RTO_US).is_empty());
    let due = arq.drain_expired(1_001 + MIN_RTO_US);
    assert_eq!(due.len(), 1);
    assert_eq!((due[0].0, &due[0].1[..]), (7, &b"first"[..]));
    assert_eq!(arq.in_flight_count(), 1);
}

#[test]
fn datagram_queues_drop_the_oldest() {
    let mut q = DatagramQueue::with_limits(4, 2);
    assert_eq!(q.send(Bytes::from_static(b"12345")), Err(5));
    q.send(Bytes::from_static(b"a")).unwrap();
    q.send(Bytes::from_static(b"b")).unwrap();
    q.send(Bytes::from_static(b"c")).unwrap();
    assert_eq!((q.send_pending(), q.dropped()), (2, 1));
    assert_eq!(q.poll_send().unwrap(), Bytes::from_static(b"b"));
    assert_eq!(q.poll_send().unwrap(), Bytes::from_static(b"c"));
    assert!(q.poll_send().is_none());
    for d in [&b"x"[..], b"y", b"longer than sent ones"] {
        q.receive(Bytes::copy_from_slice(d));
    }
    assert_eq!((q.recv_pending(), q.dropped()), (2, 2));
    assert_eq!(q.recv().unwrap(), Bytes::from_static(b"y"));
    assert_eq!(q.recv().unwrap(), Bytes::from_static(b"longer than sent ones"));
    assert!(q.recv().is_none());
}
