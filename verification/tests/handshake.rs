use seam_protocol::crypto::keys::PacketKeys;
use seam_protocol::error::SeamError;
use seam_protocol::handshake::hybrid_keys::{
    kem_decapsulate, kem_encapsulate, HybridSharedSecret, X25519Key, IDENTITY_LEN,
};
use seam_protocol::handshake::kem::{KEM_CIPHERTEXT_LEN, KEM_PUBLIC_LEN, KEM_SECRET_LEN};
use seam_protocol::handshake::state::{
    extract_prefix, finish, finish_with, key_from_payload, key_payload, length_prefix,
    shared_from_payload, ClientHandshake, ServerHandshake,
};
use seam_protocol::handshake::{pk_from_bytes, pk_to_bytes, CookieFactory, IdentityKeypair};

fn reason<T>(r: Result<T, SeamError>) -> String {
    match r {
        Err(SeamError::HandshakeFailed(text)) => text,
        _ => panic!("expected a handshake failure"),
    }
}

#[test]
fn test_full_handshake() {
    let client_id = IdentityKeypair::generate();
    let server_id = IdentityKeypair::generate();
    let server_x25519: [u8; 32] = server_id.x25519_public.to_bytes();

    let mut client = ClientHandshake::new(&client_id, &server_x25519).unwrap();
    let mut server = ServerHandshake::new(&server_id).unwrap();

    // Msg1: client → server
    let mut msg1 = Vec::new();
    client.write_msg1(&server_id.kem_pk, &mut msg1).unwrap();
    server.read_msg1(&msg1).unwrap();

    // Msg2: server → client
    let mut msg2 = Vec::new();
    server.write_msg2(&server_id.kem_pk, &mut msg2).unwrap();
    let server_kem_pk = client.read_msg2(&msg2).unwrap();

    // Msg3: client finishes
    let mut msg3 = Vec::new();
    let client_result = client
        .write_msg3_and_finish(&server_kem_pk, &mut msg3)
        .unwrap();

    // Server finishes
    let server_result = server
        .read_msg3_and_finish(&server_id.kem_sk, &msg3)
        .unwrap();

    assert_eq!(client_result.session_id, server_result.session_id);
    // Both sides hold the same keys, and know each other's static key.
    assert_eq!(client_result.keys.to_bytes(), server_result.keys.to_bytes());
    assert_eq!(client_result.peer_static_pubkey, server_x25519);
    assert_eq!(
        server_result.peer_static_pubkey,
        client_id.x25519_public.to_bytes()
    );
}

#[test]
fn messages_carry_their_payloads() {
    let client_id = IdentityKeypair::generate();
    let server_id = IdentityKeypair::generate();
    let server_x25519 = server_id.x25519_public.to_bytes();
    let mut client = ClientHandshake::new(&client_id, &server_x25519).unwrap();
    let mut server = ServerHandshake::new(&server_id).unwrap();

    // Messages are appended; the first one is an ephemeral key and its payload.
    let mut msg1 = vec![7u8];
    client.write_msg1(&server_id.kem_pk, &mut msg1).unwrap();
    assert_eq!(msg1[0], 7);
    assert_eq!(msg1.len(), 1 + 32 + 2 + KEM_PUBLIC_LEN);
    assert_eq!(msg1[33..], key_payload(&server_id.kem_pk)[..]);
    server.read_msg1(&msg1[1..]).unwrap();

    let mut msg2 = Vec::new();
    server.write_msg2(&server_id.kem_pk, &mut msg2).unwrap();
    let key = client.read_msg2(&msg2).unwrap();
    assert_eq!(pk_to_bytes(&key), pk_to_bytes(&server_id.kem_pk));
}

#[test]
fn out_of_turn_and_damaged_messages_are_refused() {
    let client_id = IdentityKeypair::generate();
    let server_id = IdentityKeypair::generate();
    let server_x25519 = server_id.x25519_public.to_bytes();
    let mut client = ClientHandshake::new(&client_id, &server_x25519).unwrap();
    let mut server = ServerHandshake::new(&server_id).unwrap();

    assert!(client.read_msg2(&[0u8; 100]).is_err());
    assert!(server.read_msg1(&[0u8; 3]).is_err());
    let mut out = Vec::new();
    assert!(server.write_msg2(&server_id.kem_pk, &mut out).is_err());
    assert!(out.is_empty());

    let mut msg1 = Vec::new();
    client.write_msg1(&server_id.kem_pk, &mut msg1).unwrap();
    server.read_msg1(&msg1).unwrap();
    let mut msg2 = Vec::new();
    server.write_msg2(&server_id.kem_pk, &mut msg2).unwrap();
    let last = msg2.len() - 1;
    msg2[last] ^= 1;
    assert!(client.read_msg2(&msg2).is_err());
}

#[test]
fn finish_before_the_peer_is_known_is_refused() {
    let server_id = IdentityKeypair::generate();
    let server = ServerHandshake::new(&server_id).unwrap();
    assert!(server
        .read_msg3_and_finish(&server_id.kem_sk, &[0u8; 64])
        .is_err());

    let hash = [5u8; 32];
    assert_eq!(reason(finish_with(&hash, None, [1u8; 32])), "no remote static");
    assert_eq!(
        reason(finish_with(&hash, Some(vec![1u8; 31]), [1u8; 32])),
        "bad static key length"
    );
    let ok = finish_with(&hash, Some(vec![9u8; 32]), [1u8; 32]).unwrap();
    assert_eq!(ok.peer_static_pubkey, [9u8; 32]);
}

#[test]
fn sides_with_one_transcript_and_secret_agree() {
    let hash: Vec<u8> = (0..32).collect();
    let client = finish(&hash, [1u8; 32], [7u8; 32]);
    let server = finish(&hash, [2u8; 32], [7u8; 32]);
    assert_eq!(client.session_id, 0x0706_0504_0302_0100);
    assert_eq!(client.session_id, server.session_id);
    assert_eq!(client.keys.to_bytes(), server.keys.to_bytes());

    // Both the transcript and the secret matter.
    let other = finish(&hash, [2u8; 32], [8u8; 32]);
    assert_ne!(client.keys.to_bytes(), other.keys.to_bytes());
    let other = finish(&[3u8; 32], [2u8; 32], [7u8; 32]);
    assert_ne!(client.keys.to_bytes(), other.keys.to_bytes());

    // The X25519 half is derived from the transcript.
    let half = blake3::derive_key("apex/x25519-component/v1", &hash);
    let keys = HybridSharedSecret::new([7u8; 32], half).derive_packet_keys(&hash);
    assert_eq!(client.keys.to_bytes(), keys.to_bytes());
    let mut secret = vec![7u8; 32];
    secret.extend_from_slice(&half);
    secret.extend_from_slice(&hash);
    assert_eq!(
        keys.to_bytes(),
        PacketKeys::derive_from_secret(&secret).to_bytes()
    );
}

#[test]
fn length_prefixes_are_read_back() {
    assert_eq!(length_prefix(b"abc"), vec![3, 0, b'a', b'b', b'c']);
    assert_eq!(extract_prefix(&length_prefix(b"abc")).unwrap(), b"abc");
    assert_eq!(extract_prefix(&[2, 0, 8, 9, 10]).unwrap(), &[8, 9]);
    assert_eq!(reason(extract_prefix(&[1])), "payload too short");
    assert_eq!(reason(extract_prefix(&[3, 0, 1, 2])), "payload truncated");
}

#[test]
fn key_payload_of_the_wrong_length_is_refused() {
    let id = IdentityKeypair::generate();
    let key = key_from_payload(&key_payload(&id.kem_pk)).unwrap();
    assert_eq!(pk_to_bytes(&key), pk_to_bytes(&id.kem_pk));
    assert_eq!(reason(key_from_payload(&[1, 0, 5])), "bad KEM PK");
    assert_eq!(reason(key_from_payload(&[])), "payload too short");
    assert_eq!(reason(key_from_payload(&[9, 0])), "payload truncated");
}

#[test]
fn encapsulated_secret_is_decapsulated() {
    let id = IdentityKeypair::generate();
    let (text, shared) = kem_encapsulate(&id.kem_pk);
    assert_eq!(text.len(), KEM_CIPHERTEXT_LEN);
    assert_eq!(kem_decapsulate(&id.kem_sk, &text), Some(shared));
    assert_eq!(kem_decapsulate(&id.kem_sk, &text[1..]), None);
    let other = IdentityKeypair::generate();
    assert_ne!(kem_decapsulate(&other.kem_sk, &text), Some(shared));

    // A payload without a ciphertext gives zeros.
    assert_eq!(
        shared_from_payload(&id.kem_sk, &length_prefix(&text)),
        shared
    );
    assert_eq!(shared_from_payload(&id.kem_sk, &[]), [0u8; 32]);
    assert_eq!(shared_from_payload(&id.kem_sk, &[1, 0, 4]), [0u8; 32]);
}

#[test]
fn identity_is_read_back() {
    let id = IdentityKeypair::generate();
    let bytes = id.to_bytes();
    assert_eq!(bytes.len(), IDENTITY_LEN);
    assert_eq!(bytes.len(), 64 + KEM_PUBLIC_LEN + KEM_SECRET_LEN);
    let again = IdentityKeypair::from_bytes(&bytes).unwrap();
    assert_eq!(again.to_bytes(), bytes);
    assert_eq!(again.x25519_public.as_bytes(), id.x25519_public.as_bytes());
    assert!(IdentityKeypair::from_bytes(&bytes[1..]).is_none());
    // The secret KEM key holds the public key.
    let at = 64 + KEM_PUBLIC_LEN + 1152;
    assert_eq!(bytes[at..at + KEM_PUBLIC_LEN], pk_to_bytes(&id.kem_pk)[..]);
    assert_ne!(IdentityKeypair::generate().to_bytes(), bytes);
}

#[test]
fn public_key_bytes_are_read_back() {
    let id = IdentityKeypair::generate();
    let bytes = pk_to_bytes(&id.kem_pk);
    assert_eq!(pk_to_bytes(&pk_from_bytes(&bytes).unwrap()), bytes);
    assert_eq!(pk_to_bytes(&id.kem_pk.duplicate()), bytes);
    assert!(pk_from_bytes(&bytes[..KEM_PUBLIC_LEN - 1]).is_none());
    let key = X25519Key::from_bytes([3u8; 32]);
    assert_eq!(key.to_bytes(), [3u8; 32]);
}

#[test]
fn cookies_are_bound_to_address_and_secret() {
    let factory = CookieFactory::new([9u8; 32]);
    let cookie = factory.generate(b"10.0.0.1:4433");
    assert_eq!(
        cookie,
        *blake3::keyed_hash(&[9u8; 32], b"10.0.0.1:4433").as_bytes()
    );
    assert!(factory.verify(b"10.0.0.1:4433", &cookie));
    assert!(!factory.verify(b"10.0.0.2:4433", &cookie));
    assert!(!CookieFactory::new([8u8; 32]).verify(b"10.0.0.1:4433", &cookie));
    let mut bad = cookie;
    bad[31] ^= 1;
    assert!(!factory.verify(b"10.0.0.1:4433", &bad));
}
