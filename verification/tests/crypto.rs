use chacha20poly1305::aead::{Aead, Payload};
use chacha20poly1305::{ChaCha20Poly1305, KeyInit};
use seam_protocol::clock::{clamp_micros, now_us, unix_now};
use seam_protocol::crypto::decoder::PacketDecoder;
use seam_protocol::crypto::encoder::PacketEncoder;
use seam_protocol::crypto::format::PACKET_OVERHEAD;
use seam_protocol::crypto::keys::{PacketKeys, PACKET_KEYS_LEN};
use seam_protocol::crypto::replay::ReplayWindow;
use seam_protocol::error::SeamError;
use seam_protocol::packet::PktType;

fn keys() -> PacketKeys {
    PacketKeys::derive_from_secret(&[0x42u8; 32])
}

#[test]
fn packet_is_decoded_once() {
    let mut encoder = PacketEncoder::new(keys(), 77);
    let mut decoder = PacketDecoder::new(keys());
    assert_eq!(encoder.session_id(), 77);
    for n in 0..3u64 {
        assert_eq!(encoder.peek_next_pkt_num(), n);
        let packet = encoder.seal_packet(PktType::Data, b"hello").unwrap();
        assert_eq!(packet.len(), 5 + PACKET_OVERHEAD);
        let (pkt_type, num, payload) = decoder.decode(&packet).unwrap();
        assert_eq!((pkt_type, num), (PktType::Data, n));
        assert_eq!(payload, b"hello");
        assert!(matches!(decoder.decode(&packet), Err(SeamError::Replayed(m)) if m == n));
    }
}

#[test]
fn packet_has_the_documented_format() {
    let keys = keys();
    let packet = PacketEncoder::new(keys, 0x0102_0304_0506_0708)
        .seal_packet(PktType::Ping, b"abc")
        .unwrap();
    let flat = keys.to_bytes();
    let (enc_key, hp_key, base) = (&flat[..32], &flat[32..64], &flat[64..76]);

    // Number 0 leaves the nonce base as it is.
    let mut header = vec![3u8, 8, 7, 6, 5, 4, 3, 2, 1];
    header.extend_from_slice(&[0u8; 8]);
    let text = ChaCha20Poly1305::new(enc_key.into())
        .encrypt(base.into(), Payload { msg: b"abc", aad: &header })
        .unwrap();
    assert_eq!(packet[17..], text[..]);
    let mask = ChaCha20Poly1305::new(hp_key.into())
        .encrypt(text[..12].into(), Payload { msg: &[0u8; 9], aad: &[] })
        .unwrap();
    assert_eq!(packet[0], header[0] ^ mask[0]);
    assert_eq!(packet[1..9], header[1..9]);
    for i in 9..17 {
        assert_eq!(packet[i], header[i] ^ mask[i - 8]);
    }
}

#[test]
fn damaged_packets_are_rejected() {
    let mut encoder = PacketEncoder::new(keys(), 1);
    let mut decoder = PacketDecoder::new(keys());
    let packet = encoder.seal_packet(PktType::Data, b"payload").unwrap();
    for at in [0usize, 3, 12, 20, packet.len() - 1] {
        let mut bad = packet.clone();
        bad[at] ^= 0x10;
        assert!(matches!(decoder.decode(&bad), Err(SeamError::AuthFailed)));
    }
    assert!(matches!(
        decoder.decode(&packet[..PACKET_OVERHEAD - 1]),
        Err(SeamError::MalformedPacket)
    ));
    let mut other = PacketDecoder::new(PacketKeys::derive_from_secret(&[1u8; 32]));
    assert!(matches!(other.decode(&packet), Err(SeamError::AuthFailed)));
    assert!(decoder.decode(&packet).is_ok());
}

#[test]
fn encode_needs_room() {
    let mut encoder = PacketEncoder::new(keys(), 1);
    let mut small = [0u8; 40];
    let r = encoder.encode(PktType::Chaff, b"12345678", &mut small);
    assert!(matches!(r, Err(SeamError::BufferTooSmall { need: 41, have: 40 })));
    assert_eq!(small, [0u8; 40]);
    assert_eq!(encoder.peek_next_pkt_num(), 0);
    let mut out = [0xEEu8; 50];
    let n = encoder.encode(PktType::Chaff, b"12345678", &mut out).unwrap();
    assert_eq!(n, 41);
    assert_eq!(out[41..], [0xEEu8; 9]);
    let (pkt_type, _, payload) = PacketDecoder::new(keys()).decode(&out[..n]).unwrap();
    assert_eq!(pkt_type, PktType::Chaff);
    assert_eq!(payload, b"12345678");
}

#[test]
fn replay_window_takes_each_number_once() {
    let mut window = ReplayWindow::new();
    assert!(window.accept(5));
    assert!(!window.accept(5));
    // Reordered packets within the window are fresh.
    assert!(window.accept(3));
    assert!(!window.accept(3));
    assert!(window.accept(200));
    assert!(window.accept(73));
    assert!(!window.accept(73));
    // Too old to tell.
    assert!(!window.accept(72));
    assert!(!window.accept(4));
    assert!(window.accept(u64::MAX));
    assert!(!window.accept(u64::MAX));
    assert!(!window.accept(200));
}

#[test]
fn keys_are_read_back() {
    let keys = keys();
    let bytes = keys.to_bytes();
    assert_eq!(bytes.len(), PACKET_KEYS_LEN);
    assert_eq!(PacketKeys::from_bytes(&bytes).unwrap().to_bytes(), bytes);
    assert!(PacketKeys::from_bytes(&bytes[1..]).is_none());
    assert_ne!(PacketKeys::derive_from_secret(&[1u8]).to_bytes(), bytes);
}

#[test]
fn packet_types_have_codes() {
    let all = [
        PktType::Data,
        PktType::Ack,
        PktType::MaxData,
        PktType::Ping,
        PktType::Pong,
        PktType::SessionTicket,
        PktType::Close,
        PktType::Datagram,
        PktType::Chaff,
        PktType::PathProbe,
    ];
    for (i, t) in all.iter().enumerate() {
        assert_eq!(t.to_code(), i as u8);
        assert_eq!(PktType::from_code(i as u8), Some(*t));
    }
    assert_eq!(PktType::from_code(10), None);
    assert_eq!(PktType::from_code(255), None);
    let silent: Vec<bool> = all.iter().map(|t| t.is_ack_eliciting()).collect();
    assert_eq!(
        silent,
        [true, false, false, true, false, true, true, true, false, false]
    );
}

#[test]
fn clock_counts_from_the_epoch() {
    // 2020-01-01.
    assert!(now_us() > 1_577_836_800_000_000);
    assert!(unix_now() > 1_577_836_800);
    assert_eq!(clamp_micros(7), 7);
    assert_eq!(clamp_micros(u64::MAX as u128 + 1), u64::MAX);
}
