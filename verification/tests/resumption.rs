use seam_protocol::clock::unix_now;
use seam_protocol::crypto::keys::PacketKeys;
use seam_protocol::error::SeamError;
use seam_protocol::transport::resumption::{SessionTicket, TicketKey};

#[test]
fn ticket_roundtrip() {
    let key = TicketKey::new([0x42u8; 32]);
    let keys = PacketKeys::derive_from_secret(&[0xBEu8; 32]);
    let issued = key.issue(999, &keys);
    let (sid, redeemed) = key.redeem(&issued).unwrap();
    assert_eq!(sid, 999);
    assert_eq!(redeemed.enc_key, keys.enc_key);
    assert_eq!(redeemed.hp_key, keys.hp_key);
    assert_eq!(redeemed.nonce_base, keys.nonce_base);
}

#[test]
fn tampered_ticket_rejected() {
    let key = TicketKey::new([0x42u8; 32]);
    let keys = PacketKeys::derive_from_secret(&[0u8; 32]);
    let mut ticket = key.issue(1, &keys);
    ticket[15] ^= 0xFF; // corrupt ciphertext
    assert!(key.redeem(&ticket).is_err());
}

#[test]
fn issued_tickets_use_fresh_nonces() {
    let key = TicketKey::new([0x42u8; 32]);
    let keys = PacketKeys::derive_from_secret(&[0xBEu8; 32]);
    let t1 = key.issue(7, &keys);
    let t2 = key.issue(7, &keys);
    assert_ne!(&t1[..12], &t2[..12]);
}

#[test]
fn session_ticket_serialize() {
    let keys = PacketKeys::derive_from_secret(&[0x11u8; 32]);
    let t = SessionTicket::new(7, keys.clone());
    let bytes = t.to_bytes();
    let back = SessionTicket::from_bytes(&bytes).unwrap();
    assert_eq!(back.session_id, 7);
    assert_eq!(back.keys.enc_key, keys.enc_key);
}

#[test]
fn session_ticket_rejects_trailing_bytes() {
    let keys = PacketKeys::derive_from_secret(&[0x22u8; 32]);
    let t = SessionTicket::new(9, keys);
    let mut bytes = t.to_bytes();
    bytes.push(0xFF);
    assert!(SessionTicket::from_bytes(&bytes).is_none());
}

#[test]
fn tickets_expire() {
    let key = TicketKey::new([1u8; 32]);
    let keys = PacketKeys::derive_from_secret(b"secret");
    let ticket = key.issue_with(5, &keys, &[2u8; 12], 1_000);
    assert_eq!(ticket[..12], [2u8; 12]);
    assert_eq!(key.redeem_at(&ticket, 1_000).unwrap().0, 5);
    match key.redeem_at(&ticket, 1_001) {
        Err(SeamError::HandshakeFailed(text)) => assert_eq!(text, "ticket expired"),
        _ => panic!("expected an expired ticket"),
    }
    match key.redeem_at(&ticket[1..], 0) {
        Err(SeamError::HandshakeFailed(text)) => assert_eq!(text, "bad ticket length"),
        _ => panic!("expected a refusal"),
    }
    let other = TicketKey::new([2u8; 32]);
    assert!(matches!(
        other.redeem_at(&ticket, 0),
        Err(SeamError::AuthFailed)
    ));
    // Issued tickets last a day.
    let fresh = key.issue(7, &keys);
    assert_eq!(key.redeem(&fresh).unwrap().0, 7);
    assert!(key.redeem_at(&fresh, unix_now() + 86_300).is_ok());
    assert!(key.redeem_at(&fresh, unix_now() + 86_500).is_err());
}
