use bytes::Bytes;
use seam_protocol::session::stream::Stream;

#[test]
fn test_stream_in_order() {
    let mut s = Stream::new(1);
    s.write(b"hello world").unwrap();
    let (off, data) = s.poll_send(64).unwrap();
    assert_eq!(off, 0);
    s.receive(0, data, false).unwrap();
    let mut out = Vec::new();
    let n = s.read(&mut out, 64);
    assert_eq!(n, 11);
    assert_eq!(&out, b"hello world");
}

#[test]
fn test_stream_out_of_order() {
    let mut s = Stream::new(2);
    // Deliver second segment before first
    s.receive(5, Bytes::from_static(b" world"), false).unwrap();
    let mut out = Vec::new();
    // Nothing readable yet
    assert_eq!(s.read(&mut out, 64), 0);
    // Deliver first segment
    s.receive(0, Bytes::from_static(b"hello"), false).unwrap();
    let n = s.read(&mut out, 64);
    assert_eq!(n, 11);
    assert_eq!(&out, b"hello world");
}
