use bytes::Bytes;
use seam_protocol::error::SeamError;
use seam_protocol::session::flow::FlowWindow;
use seam_protocol::session::frame::{build_stream_frame, parse_stream_frame, FRAME_HEADER};
use seam_protocol::session::schedule::{count_frames, drain_streams, MAX_CHUNK};
use seam_protocol::session::stream::{
    Stream, DEFAULT_STREAM_WINDOW, PRIORITY_DEFAULT, PRIORITY_HIGH, PRIORITY_LOW,
};

fn put(s: &mut Stream, offset: u64, data: &'static [u8], fin: bool) {
    s.receive(offset, Bytes::from_static(data), fin).unwrap();
}

fn take(s: &mut Stream, max: usize) -> Vec<u8> {
    let mut out = Vec::new();
    let n = s.read(&mut out, max);
    assert_eq!(n, out.len());
    out
}

#[test]
fn overlapping_and_repeated_segments_are_read_once() {
    let mut s = Stream::new(1);
    put(&mut s, 3, b"defg", false);
    put(&mut s, 3, b"defg", false);
    assert_eq!(take(&mut s, 64), b"");
    put(&mut s, 0, b"abcde", false);
    assert_eq!(take(&mut s, 64), b"abcdefg");
    put(&mut s, 0, b"abcde", false);
    assert_eq!(take(&mut s, 64), b"");
}

#[test]
fn shorter_segments_do_not_replace_longer_ones() {
    let mut s = Stream::new(1);
    put(&mut s, 0, b"abcdef", false);
    put(&mut s, 0, b"abc", false);
    assert_eq!(take(&mut s, 4), b"abcd");
    // Not even once part of it was read.
    put(&mut s, 0, b"abcde", false);
    assert_eq!(take(&mut s, 64), b"ef");
    // A longer one does.
    put(&mut s, 8, b"ij", false);
    put(&mut s, 8, b"ijkl", false);
    put(&mut s, 6, b"gh", false);
    assert_eq!(take(&mut s, 64), b"ghijkl");
}

#[test]
fn repeated_segments_need_no_room() {
    let mut s = Stream::with_room(1, PRIORITY_DEFAULT, 6);
    put(&mut s, 0, b"abcdef", false);
    put(&mut s, 0, b"abc", false);
    assert!(s.receive(3, Bytes::from_static(b"def"), false).is_err());
    assert_eq!(take(&mut s, 64), b"abcdef");
}

#[test]
fn partial_reads_keep_the_rest() {
    let mut s = Stream::new(1);
    put(&mut s, 0, b"hello ", false);
    put(&mut s, 6, b"world", true);
    assert_eq!(take(&mut s, 4), b"hell");
    assert!(!s.is_recv_finished());
    assert_eq!(take(&mut s, 0), b"");
    assert_eq!(take(&mut s, 3), b"o w");
    assert_eq!(take(&mut s, 64), b"orld");
    assert!(s.is_recv_finished());
}

#[test]
fn data_beyond_the_receive_limit_is_refused() {
    let mut s = Stream::new(1);
    s.set_recv_limit(8);
    put(&mut s, 0, b"abcd", false);
    assert_eq!(take(&mut s, 4), b"abcd");
    let r = s.receive(4, Bytes::from_static(b"efghi"), false);
    assert!(matches!(
        r,
        Err(SeamError::FlowControlBlocked { available: 4, requested: 5 })
    ));
    put(&mut s, 4, b"efgh", false);
    assert_eq!(take(&mut s, 64), b"efgh");
}

#[test]
fn written_chunks_are_the_written_data() {
    let mut s = Stream::with_room(9, PRIORITY_HIGH, u64::MAX);
    assert_eq!((s.id(), s.priority()), (9, PRIORITY_HIGH));
    assert_eq!(s.write(b"abcdef").unwrap(), 0);
    assert_eq!(s.write(b"ghi").unwrap(), 6);
    assert_eq!(s.send_offset(), 9);
    assert_eq!(s.unsent_len(), 9);
    let (offset, chunk) = s.poll_send(4).unwrap();
    assert_eq!((offset, &chunk[..]), (0, &b"abcd"[..]));
    let (offset, chunk) = s.poll_send(64).unwrap();
    assert_eq!((offset, &chunk[..]), (4, &b"efghi"[..]));
    assert!(s.poll_send(64).is_none());
}

#[test]
fn finished_streams_take_no_data() {
    let mut s = Stream::new(3);
    s.write(b"x").unwrap();
    s.finish();
    assert!(matches!(s.write(b"y"), Err(SeamError::StreamFinished(3))));
    assert!(s.fin_outstanding());
    assert!(!s.should_send_fin());
    s.poll_send(10).unwrap();
    assert!(s.should_send_fin());
    s.mark_fin_flushed();
    assert!(!s.should_send_fin());
    assert!(!s.is_send_finished());
    s.on_ack(1);
    assert!(s.is_send_finished());
}

#[test]
fn send_window_limits_writes() {
    let mut s = Stream::new(1);
    assert_eq!(s.send_window_remaining(), DEFAULT_STREAM_WINDOW);
    s.extend_send_window(5);
    assert_eq!(s.send_window_remaining(), DEFAULT_STREAM_WINDOW);
    s.extend_send_window(DEFAULT_STREAM_WINDOW + 7);
    assert_eq!(s.send_window_remaining(), DEFAULT_STREAM_WINDOW + 7);
}

#[test]
fn credit_is_conserved() {
    let mut w = FlowWindow::new(10);
    w.reserve(4).unwrap();
    assert!(matches!(
        w.reserve(7),
        Err(SeamError::FlowControlBlocked { available: 6, requested: 7 })
    ));
    assert_eq!(w.available(), 6);
    w.update_limit(20);
    assert_eq!((w.available(), w.limit()), (16, 20));
    assert!(w.reserve(u64::MAX).is_err());
}

#[test]
fn frames_are_read_back() {
    let frame = build_stream_frame(0x0403_0201, 0x0807_0605_0403_0201, true, b"xy");
    assert_eq!(
        frame,
        [1, 1, 2, 0, 1, 2, 3, 4, 1, 2, 3, 4, 5, 6, 7, 8, b'x', b'y']
    );
    assert_eq!(
        parse_stream_frame(&frame),
        Some((0x0403_0201, 0x0807_0605_0403_0201, true, &b"xy"[..]))
    );
    assert_eq!(parse_stream_frame(&frame[..FRAME_HEADER - 1]), None);
    assert_eq!(parse_stream_frame(&frame[..17]), None);
    let plain = build_stream_frame(1, 0, false, b"");
    assert_eq!(parse_stream_frame(&plain), Some((1, 0, false, &b""[..])));
}

#[test]
fn streams_go_out_by_priority_and_take_turns() {
    let mut low = Stream::with_room(1, PRIORITY_LOW, u64::MAX);
    let mut a = Stream::with_room(3, PRIORITY_DEFAULT, u64::MAX);
    let mut b = Stream::with_room(5, PRIORITY_DEFAULT, u64::MAX);
    let mut high = Stream::with_room(7, PRIORITY_HIGH, u64::MAX);
    low.write(b"low").unwrap();
    a.write(&vec![1u8; MAX_CHUNK + 1]).unwrap();
    a.finish();
    b.write(&vec![2u8; 2 * MAX_CHUNK]).unwrap();
    high.write(b"high").unwrap();
    high.finish();
    let mut streams = vec![low, a, b, high];
    assert_eq!(count_frames(&streams), 8);
    let frames = drain_streams(&mut streams, 100, None).0;
    let order: Vec<(u32, u64, bool, usize)> = frames
        .iter()
        .map(|f| {
            let (id, offset, fin, data) = parse_stream_frame(f).unwrap();
            (id, offset, fin, data.len())
        })
        .collect();
    assert_eq!(
        order,
        [
            (7, 0, false, 4),
            (7, 4, true, 0),
            (3, 0, false, 1386),
            (5, 0, false, 1386),
            (3, 1386, false, 1),
            (5, 1386, false, 1386),
            (3, 1387, true, 0),
            (1, 0, false, 3),
        ]
    );
    assert_eq!(count_frames(&streams), 0);
    assert!(drain_streams(&mut streams, 100, None).0.is_empty());
}

#[test]
fn frames_in_any_order_give_the_written_data() {
    let data: Vec<u8> = (0..5000u32).map(|i| (i % 251) as u8).collect();
    let mut sender = Stream::new(1);
    sender.write(&data).unwrap();
    sender.finish();
    let mut streams = vec![sender];
    let mut frames = drain_streams(&mut streams, 100, None).0;
    assert_eq!(frames.len(), 5);
    let again = frames[1].clone();
    frames.push(again);
    frames.reverse();
    let mut receiver = Stream::new(1);
    for f in &frames {
        let (_, offset, fin, part) = parse_stream_frame(f).unwrap();
        receiver
            .receive(offset, Bytes::copy_from_slice(part), fin)
            .unwrap();
    }
    assert_eq!(take(&mut receiver, 10_000), data);
    assert!(receiver.is_recv_finished());
}

#[test]
fn frames_are_taken_in_portions() {
    let data: Vec<u8> = (0..5000u32).map(|i| (i % 251) as u8).collect();
    let mut one = Stream::new(1);
    one.write(&data).unwrap();
    let mut two = Stream::new(3);
    two.write(&data).unwrap();
    let mut whole = vec![Stream::new(1), Stream::new(3)];
    for s in &mut whole {
        s.write(&data).unwrap();
    }
    let all = drain_streams(&mut whole, 100, None).0;
    let mut streams = vec![one, two];
    let mut parts = drain_streams(&mut streams, 4, None).0;
    assert_eq!(parts.len(), 4);
    assert_eq!(count_frames(&streams), 4);
    assert!(drain_streams(&mut streams, 0, None).0.is_empty());
    parts.extend(drain_streams(&mut streams, 5, None).0);
    assert_eq!(parts, all);
    assert_eq!(count_frames(&streams), 0);
}

#[test]
fn drain_goes_as_far_as_the_budget() {
    let data = vec![7u8; 3 * MAX_CHUNK];
    // A full packet has 1435 bytes.
    for (budget, frames, left) in [
        (0, 0, 0),
        (1434, 0, 1434),
        (1435, 1, 0),
        (3000, 2, 130),
        (4305, 3, 0),
        // The end of the stream takes a packet of 49 bytes.
        (4353, 3, 48),
        (4354, 4, 0),
        (9000, 4, 4646),
    ] {
        let mut s = Stream::new(1);
        s.write(&data).unwrap();
        s.finish();
        let mut streams = vec![s];
        let (out, rest) = drain_streams(&mut streams, 100, Some(budget));
        assert_eq!((out.len(), rest), (frames, Some(left)), "{budget}");
        assert_eq!(count_frames(&streams), 4 - frames as u128);
        let bytes: usize = out.iter().map(|f| f.len() + 33).sum();
        assert_eq!(bytes as u64 + left, budget);
    }
    // The frame that comes next counts, even if a later one would fit.
    let mut big = Stream::with_room(1, PRIORITY_HIGH, 10);
    big.write(&data).unwrap();
    let mut small = Stream::with_room(2, PRIORITY_LOW, 10);
    small.write(b"x").unwrap();
    let mut streams = vec![small, big];
    assert!(drain_streams(&mut streams, 100, Some(1000)).0.is_empty());
}

#[test]
fn streams_hold_no_more_than_there_is_room_for() {
    let mut s = Stream::with_room(1, PRIORITY_DEFAULT, 10);
    put(&mut s, 4, b"efghij", false);
    // Too far behind the reading position.
    assert!(matches!(
        s.receive(10, Bytes::from_static(b"k"), false),
        Err(SeamError::FlowControlBlocked {
            available: 4,
            requested: 1
        })
    ));
    // Overlapping data would take more than there is.
    assert!(s.receive(3, Bytes::from_static(b"defgh"), false).is_err());
    // What is missing at the reading position is taken.
    put(&mut s, 0, b"abcd", false);
    assert!(s.overflows(10, b"k"));
    assert_eq!(take(&mut s, 2), b"ab");
    // A segment that is read in part is held as a whole.
    assert!(s.overflows(10, b"k"));
    assert_eq!(take(&mut s, 2), b"cd");
    assert!(!s.overflows(10, b"k"));
    put(&mut s, 10, b"k", false);
    assert_eq!(take(&mut s, 20), b"efghijk");
    // The same segment again takes no more room.
    put(&mut s, 11, b"0123456789", false);
    put(&mut s, 11, b"0123456789", false);
    assert_eq!(take(&mut s, 20), b"0123456789");
}
