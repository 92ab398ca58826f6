//! The handshake messages: what each side sends, and the session that results.

use crate::crypto::aead::{derive_key, derived_key};
use crate::crypto::keys::{array_32_at, keys_of_bytes_unique, PacketKeys};
use crate::error::{handshake_failed, ErrorView, SeamError};
use crate::handshake::hybrid_keys::{
    kem_decapsulate, kem_encapsulate, pk_from_bytes, pk_to_bytes, x25519_key_len,
    HybridSharedSecret, IdentityKeypair, KemPublicKey, KemSecretKey,
};
use crate::handshake::kem::{decapsulated, encapsulates, KEM_CIPHERTEXT_LEN, KEM_PUBLIC_LEN};
use crate::handshake::noise::{
    answers_initiators, handshake_hash, initiator, is_read_by_peer, noise_hash, noise_in_step,
    noise_initiator, noise_reads, noise_remote, noise_responder, noise_writes, read_message,
    remote_static, responder, write_message, x25519_public_of, MAX_NOISE,
};
use crate::wire::{
    bytes_at, le_bytes, le_bytes_len, le_round_trip, le_value, pow256_values, put_u16_le,
    u16_le_at, u64_le_at,
};
use vstd::prelude::*;
use vstd::string::to_string_from_display_ensures;

verus! {

/// What a finished handshake yields.
pub struct HandshakeResult {
    pub session_id: u64,
    pub keys: PacketKeys,
    pub peer_static_pubkey: [u8; 32],
}

// ── Payloads ─────────────────────────────────────────────────────────────────
/// Data with its length in front.
pub open spec fn prefixed(data: Seq<u8>) -> Seq<u8> {
    le_bytes(data.len(), 2) + data
}

/// The data behind a length; bytes behind the data are ignored.
pub open spec fn behind_prefix(buf: Seq<u8>) -> Result<Seq<u8>, Seq<char>> {
    let len = le_value(buf.subrange(0, 2)) as int;
    if buf.len() < 2 {
        Err("payload too short"@)
    } else if buf.len() < 2 + len {
        Err("payload truncated"@)
    } else {
        Ok(buf.subrange(2, 2 + len))
    }
}

/// Data with its length in front.
pub fn length_prefix(data: &[u8]) -> (out: Vec<u8>)
    requires
        data@.len() <= 0xFFFF,
    ensures
        out@ == prefixed(data@),
        out@.len() == 2 + data@.len(),
{
    let mut out: Vec<u8> = Vec::new();
    put_u16_le(&mut out, data.len() as u16);
    out.extend_from_slice(data);
    proof {
        le_bytes_len(data@.len(), 2);
        assert(out@ =~= prefixed(data@));
    }
    out
}

/// The data behind a length.
pub fn extract_prefix(buf: &[u8]) -> (r: Result<&[u8], SeamError>)
    ensures
        match r {
            Ok(data) => behind_prefix(buf@) == Ok::<Seq<u8>, Seq<char>>(data@),
            Err(e) => match behind_prefix(buf@) {
                Ok(_) => false,
                Err(reason) => e@ == ErrorView::HandshakeFailed(reason),
            },
        },
{
    if buf.len() < 2 {
        return Err(handshake_failed("payload too short"));
    }
    let len: usize = u16_le_at(buf, 0) as usize;
    if buf.len() < 2 + len {
        return Err(handshake_failed("payload truncated"));
    }
    Ok(bytes_at(buf, 2, len))
}

/// Data is found behind its length.
pub proof fn prefix_round_trip(data: Seq<u8>)
    requires
        data.len() <= 0xFFFF,
    ensures
        behind_prefix(prefixed(data)) == Ok::<Seq<u8>, Seq<char>>(data),
{
    pow256_values();
    le_bytes_len(data.len(), 2);
    le_round_trip(data.len(), 2);
    assert(prefixed(data).subrange(0, 2) =~= le_bytes(data.len(), 2));
    assert(prefixed(data).subrange(2, 2 + data.len() as int) =~= data);
}

/// The payload of the first and second message: the server's KEM public key.
pub fn key_payload(pk: &KemPublicKey) -> (payload: Vec<u8>)
    ensures
        payload@ == prefixed(pk@),
        payload@.len() == 2 + KEM_PUBLIC_LEN,
{
    let pk_bytes = pk_to_bytes(pk);
    length_prefix(pk_bytes.as_slice())
}

/// The KEM public key in the payload of the second message, or what is wrong
/// with the payload.
pub open spec fn key_in(payload: Seq<u8>) -> Result<Seq<u8>, Seq<char>> {
    match behind_prefix(payload) {
        Ok(data) => if data.len() == KEM_PUBLIC_LEN {
            Ok(data)
        } else {
            Err("bad KEM PK"@)
        },
        Err(reason) => Err(reason),
    }
}

/// The server's KEM public key from the payload of the second message.
pub fn key_from_payload(payload: &[u8]) -> (r: Result<KemPublicKey, SeamError>)
    ensures
        match r {
            Ok(pk) => key_in(payload@) == Ok::<Seq<u8>, Seq<char>>(pk@),
            Err(e) => key_in(payload@) is Err && e@ == ErrorView::HandshakeFailed(
                key_in(payload@)->Err_0,
            ),
        },
{
    match extract_prefix(payload) {
        Ok(data) => match pk_from_bytes(data) {
            Some(pk) => Ok(pk),
            None => Err(handshake_failed("bad KEM PK")),
        },
        Err(e) => Err(e),
    }
}

/// The KEM secret that the payload of the third message carries; zeros if it
/// carries none, which no honest client shares.
pub open spec fn shared_in(sk: Seq<u8>, payload: Seq<u8>) -> Seq<u8> {
    match behind_prefix(payload) {
        Ok(ciphertext) => if ciphertext.len() == KEM_CIPHERTEXT_LEN {
            decapsulated(sk, ciphertext)
        } else {
            Seq::new(32, |i: int| 0u8)
        },
        Err(_) => Seq::new(32, |i: int| 0u8),
    }
}

/// The KEM secret from the payload of the third message.
pub fn shared_from_payload(sk: &KemSecretKey, payload: &[u8]) -> (shared: [u8; 32])
    ensures
        shared@ == shared_in(sk@, payload@),
{
    let zeros: [u8; 32] = [0;32];
    assert(zeros@ =~= Seq::new(32, |i: int| 0u8));
    match extract_prefix(payload) {
        Ok(ciphertext) => match kem_decapsulate(sk, ciphertext) {
            Some(shared) => shared,
            None => zeros,
        },
        Err(_) => zeros,
    }
}

/// The session that a transcript hash and a KEM secret make: the id is the
/// start of the hash, and the keys depend on both.
pub open spec fn is_session(
    r: HandshakeResult,
    hash: Seq<u8>,
    peer_static: Seq<u8>,
    kem_shared: Seq<u8>,
) -> bool {
    &&& r.session_id == le_value(hash.subrange(0, 8))
    &&& r.peer_static_pubkey@ == peer_static
    &&& r.keys.derived_from(
        kem_shared + derived_key("apex/x25519-component/v1"@, hash) + hash,
    )
}

/// Finish a handshake.
pub fn finish(hash: &[u8], peer_static: [u8; 32], kem_shared: [u8; 32]) -> (r: HandshakeResult)
    requires
        hash@.len() >= 8,
    ensures
        is_session(r, hash@, peer_static@, kem_shared@),
{
    let x25519_component = derive_key("apex/x25519-component/v1", hash);
    let hybrid = HybridSharedSecret::new(kem_shared, x25519_component);
    let keys = hybrid.derive_packet_keys(hash);
    let session_id: u64 = u64_le_at(hash, 0);
    HandshakeResult { session_id, keys, peer_static_pubkey: peer_static }
}

/// `r` is what a transcript hash, the peer's static key and a KEM secret make:
/// a session, if the key is known and has the right length.
pub open spec fn is_finish(
    hash: Seq<u8>,
    peer_static: Option<Seq<u8>>,
    kem_shared: Seq<u8>,
    r: Result<HandshakeResult, SeamError>,
) -> bool {
    match (r, peer_static) {
        (Ok(result), Some(key)) => key.len() == 32 && is_session(result, hash, key, kem_shared),
        (Ok(_), None) => false,
        (Err(e), Some(key)) => key.len() != 32 && e@ == ErrorView::HandshakeFailed(
            "bad static key length"@,
        ),
        (Err(e), None) => e@ == ErrorView::HandshakeFailed("no remote static"@),
    }
}

/// Finish a handshake, given what the Noise state knows of the peer.
pub fn finish_with(hash: &[u8], peer_static: Option<Vec<u8>>, kem_shared: [u8; 32]) -> (r: Result<
    HandshakeResult,
    SeamError,
>)
    requires
        hash@.len() >= 8,
    ensures
        is_finish(
            hash@,
            match peer_static {
                Some(key) => Some(key@),
                None => None,
            },
            kem_shared@,
            r,
        ),
{
    match peer_static {
        Some(key) => {
            if key.len() != 32 {
                return Err(handshake_failed("bad static key length"));
            }
            let peer = array_32_at(key.as_slice(), 0);
            assert(key@.subrange(0, 32) =~= key@);
            Ok(finish(hash, peer, kem_shared))
        },
        None => Err(handshake_failed("no remote static")),
    }
}

/// The error is the library's for a Noise operation that failed with `cause`:
/// the reason is the text with which the cause is displayed.
pub open spec fn is_noise_failure(e: SeamError, cause: snow::Error) -> bool {
    match e {
        SeamError::HandshakeFailed(reason) => to_string_from_display_ensures(&cause, reason),
        _ => false,
    }
}

/// A client that writes message 3 for the KEM key `pk` in the Noise state
/// `before`, ends with `r`. The message is appended to `out`.
pub open spec fn is_client_end(
    before: snow::HandshakeState,
    pk: Seq<u8>,
    out: Seq<u8>,
    r: Result<HandshakeResult, SeamError>,
    out_after: Seq<u8>,
) -> bool {
    exists|ciphertext: Seq<u8>, shared: Seq<u8>| #[trigger]
        is_client_end_with(before, pk, ciphertext, shared, out, r, out_after)
}

/// The same, for a message that carries this ciphertext with this secret.
pub open spec fn is_client_end_with(
    before: snow::HandshakeState,
    pk: Seq<u8>,
    ciphertext: Seq<u8>,
    shared: Seq<u8>,
    out: Seq<u8>,
    r: Result<HandshakeResult, SeamError>,
    out_after: Seq<u8>,
) -> bool {
    &&& ciphertext.len() == KEM_CIPHERTEXT_LEN
    &&& encapsulates(pk, ciphertext, shared)
    &&& exists|message: Result<Seq<u8>, snow::Error>, after: snow::HandshakeState|
        {
            &&& #[trigger] noise_writes(before, prefixed(ciphertext), message, after)
            &&& match message {
                Ok(msg3) => {
                    &&& 2 + KEM_CIPHERTEXT_LEN <= msg3.len() <= MAX_NOISE
                    &&& out_after == out + msg3
                    &&& is_read_by_peer(before, prefixed(ciphertext), msg3, after)
                    &&& is_finish(noise_hash(after), noise_remote(after), shared, r)
                },
                Err(cause) => (r matches Err(e) && is_noise_failure(e, cause)) && out_after == out,
            }
        }
}

/// A server that reads message 3 in the Noise state `before` ends with `r`.
pub open spec fn is_server_end(
    before: snow::HandshakeState,
    sk: Seq<u8>,
    msg3: Seq<u8>,
    r: Result<HandshakeResult, SeamError>,
) -> bool {
    let (payload, after) = noise_reads(before, msg3);
    match payload {
        Ok(payload) => is_finish(
            noise_hash(after),
            noise_remote(after),
            shared_in(sk, payload),
            r,
        ),
        Err(cause) => r matches Err(e) && is_noise_failure(e, cause),
    }
}

/// Messages that the other side reads arrive: each side gets the payload.
pub proof fn messages_in_step(
    client_id: IdentityKeypair,
    server_id: IdentityKeypair,
    expected: Seq<u8>,
    c0: snow::HandshakeState,
    s0: snow::HandshakeState,
    msg1: Seq<u8>,
    c1: snow::HandshakeState,
    msg2: Seq<u8>,
    s2: snow::HandshakeState,
)
    requires
        noise_initiator(client_id.x25519_secret@, expected) == Ok::<
            snow::HandshakeState,
            snow::Error,
        >(c0),
        answers_initiators(s0, server_id.x25519_secret@),
        is_read_by_peer(c0, prefixed(server_id.kem_pk@), msg1, c1),
        is_read_by_peer(noise_reads(s0, msg1).1, prefixed(server_id.kem_pk@), msg2, s2),
    ensures
        noise_reads(s0, msg1).0 == Ok::<Seq<u8>, snow::Error>(prefixed(server_id.kem_pk@)),
        noise_reads(c1, msg2).0 == Ok::<Seq<u8>, snow::Error>(prefixed(server_id.kem_pk@)),
        noise_in_step(
            2,
            noise_reads(c1, msg2).1,
            s2,
            x25519_public_of(client_id.x25519_secret@),
            x25519_public_of(server_id.x25519_secret@),
        ),
{
    let client_key = x25519_public_of(client_id.x25519_secret@);
    let server_key = x25519_public_of(server_id.x25519_secret@);
    assert(noise_in_step(0, c0, s0, client_key, server_key));
    assert(noise_in_step(1, noise_reads(s0, msg1).1, c1, server_key, client_key));
}

/// What `handshake_agrees` says, of messages that the other side reads.
pub proof fn messages_agree(
    client_id: IdentityKeypair,
    server_id: IdentityKeypair,
    expected: Seq<u8>,
    c0: snow::HandshakeState,
    s0: snow::HandshakeState,
    msg1: Seq<u8>,
    c1: snow::HandshakeState,
    msg2: Seq<u8>,
    s2: snow::HandshakeState,
    pk: Seq<u8>,
    ciphertext: Seq<u8>,
    shared: Seq<u8>,
    msg3: Seq<u8>,
    client: HandshakeResult,
    server: Result<HandshakeResult, SeamError>,
)
    requires
        client_id.is_paired(),
        server_id.is_paired(),
        server_id.kem_pk@.len() == KEM_PUBLIC_LEN,
        noise_initiator(client_id.x25519_secret@, expected) == Ok::<
            snow::HandshakeState,
            snow::Error,
        >(c0),
        answers_initiators(s0, server_id.x25519_secret@),
        is_read_by_peer(c0, prefixed(server_id.kem_pk@), msg1, c1),
        is_read_by_peer(noise_reads(s0, msg1).1, prefixed(server_id.kem_pk@), msg2, s2),
        noise_reads(c1, msg2).0 matches Ok(payload) ==> key_in(payload) == Ok::<
            Seq<u8>,
            Seq<char>,
        >(pk),
        is_client_end_with(
            noise_reads(c1, msg2).1,
            pk,
            ciphertext,
            shared,
            Seq::empty(),
            Ok(client),
            msg3,
        ),
        is_server_end(s2, server_id.kem_sk@, msg3, server),
        decapsulated(server_id.kem_sk@, ciphertext) == shared,
    ensures
        noise_reads(s0, msg1).0 is Ok,
        noise_reads(c1, msg2).0 is Ok,
        pk == server_id.kem_pk@,
        server matches Ok(result) && {
            &&& result.session_id == client.session_id
            &&& result.keys == client.keys
            &&& result.peer_static_pubkey@ == client_id.x25519_public@
        },
        client.peer_static_pubkey@ == server_id.x25519_public@,
{
    let client_key = x25519_public_of(client_id.x25519_secret@);
    let server_key = x25519_public_of(server_id.x25519_secret@);
    let c2 = noise_reads(c1, msg2).1;
    messages_in_step(client_id, server_id, expected, c0, s0, msg1, c1, msg2, s2);
    prefix_round_trip(server_id.kem_pk@);
    let (message, c3) = choose|message: Result<Seq<u8>, snow::Error>, after: snow::HandshakeState|
        {
            &&& #[trigger] noise_writes(c2, prefixed(ciphertext), message, after)
            &&& match message {
                Ok(m) => {
                    &&& 2 + KEM_CIPHERTEXT_LEN <= m.len() <= MAX_NOISE
                    &&& msg3 == Seq::<u8>::empty() + m
                    &&& is_read_by_peer(c2, prefixed(ciphertext), m, after)
                    &&& is_finish(noise_hash(after), noise_remote(after), shared, Ok(client))
                },
                Err(_) => false,
            }
        };
    assert(msg3 =~= message->Ok_0);
    assert(noise_in_step(3, noise_reads(s2, msg3).1, c3, server_key, client_key));
    prefix_round_trip(ciphertext);
    x25519_key_len(client_id.x25519_public);
    match server {
        Ok(result) => {
            keys_of_bytes_unique(client.keys, result.keys);
        },
        Err(_) => {},
    }
}

/// A handshake whose messages arrive as they were written succeeds, and both
/// sides end with the same session: the same id and the same keys, each knowing
/// the other's static key. The client begins in `c0` and the server in `s0`; each
/// message takes the sides to the next states. The server's KEM key must give
/// the client's secret back, which ML-KEM does but for a negligible part of
/// ciphertexts.
pub proof fn handshake_agrees(
    client_id: IdentityKeypair,
    server_id: IdentityKeypair,
    expected: Seq<u8>,
    c0: snow::HandshakeState,
    s0: snow::HandshakeState,
    msg1: Seq<u8>,
    c1: snow::HandshakeState,
    s1: snow::HandshakeState,
    msg2: Seq<u8>,
    s2: snow::HandshakeState,
    c2: snow::HandshakeState,
    pk: Seq<u8>,
    ciphertext: Seq<u8>,
    shared: Seq<u8>,
    msg3: Seq<u8>,
    client: HandshakeResult,
    server: Result<HandshakeResult, SeamError>,
)
    requires
        client_id.is_paired(),
        server_id.is_paired(),
        server_id.kem_pk@.len() == KEM_PUBLIC_LEN,
        noise_initiator(client_id.x25519_secret@, expected) == Ok::<
            snow::HandshakeState,
            snow::Error,
        >(c0),
        answers_initiators(s0, server_id.x25519_secret@),
        is_write(c0, prefixed(server_id.kem_pk@), Seq::empty(), Ok(()), msg1, c1),
        s1 == noise_reads(s0, msg1).1,
        is_write(s1, prefixed(server_id.kem_pk@), Seq::empty(), Ok(()), msg2, s2),
        c2 == noise_reads(c1, msg2).1,
        noise_reads(c1, msg2).0 matches Ok(payload) ==> key_in(payload) == Ok::<
            Seq<u8>,
            Seq<char>,
        >(pk),
        is_client_end_with(c2, pk, ciphertext, shared, Seq::empty(), Ok(client), msg3),
        is_server_end(s2, server_id.kem_sk@, msg3, server),
        decapsulated(server_id.kem_sk@, ciphertext) == shared,
    ensures
        noise_reads(s0, msg1).0 is Ok,
        noise_reads(c1, msg2).0 is Ok,
        pk == server_id.kem_pk@,
        server matches Ok(result) && {
            &&& result.session_id == client.session_id
            &&& result.keys == client.keys
            &&& result.peer_static_pubkey@ == client_id.x25519_public@
        },
        client.peer_static_pubkey@ == server_id.x25519_public@,
{
    let payload = prefixed(server_id.kem_pk@);
    let one = choose|message: Seq<u8>|
        {
            &&& #[trigger] noise_writes(c0, payload, Ok(message), c1)
            &&& payload.len() <= message.len() <= MAX_NOISE
            &&& msg1 == Seq::<u8>::empty() + message
            &&& is_read_by_peer(c0, payload, message, c1)
        };
    assert(msg1 =~= one);
    let two = choose|message: Seq<u8>|
        {
            &&& #[trigger] noise_writes(s1, payload, Ok(message), s2)
            &&& payload.len() <= message.len() <= MAX_NOISE
            &&& msg2 == Seq::<u8>::empty() + message
            &&& is_read_by_peer(s1, payload, message, s2)
        };
    assert(msg2 =~= two);
    messages_agree(
        client_id,
        server_id,
        expected,
        c0,
        s0,
        msg1,
        c1,
        msg2,
        s2,
        pk,
        ciphertext,
        shared,
        msg3,
        client,
        server,
    );
}

/// The library's error for a failed Noise operation: the reason is the text
/// with which the operation's own error is displayed.
fn noise_failed(e: snow::Error) -> (r: SeamError)
    ensures
        is_noise_failure(r, e),
{
    SeamError::HandshakeFailed(e.to_string())
}

/// `r` and `after` are what writing `payload` in the Noise state `before` gives;
/// the message is appended to `out`.
pub open spec fn is_write(
    before: snow::HandshakeState,
    payload: Seq<u8>,
    out: Seq<u8>,
    r: Result<(), SeamError>,
    out_after: Seq<u8>,
    after: snow::HandshakeState,
) -> bool {
    match r {
        Ok(()) => exists|message: Seq<u8>|
            {
                &&& #[trigger] noise_writes(before, payload, Ok(message), after)
                &&& payload.len() <= message.len() <= MAX_NOISE
                &&& out_after == out + message
                &&& is_read_by_peer(before, payload, message, after)
            },
        Err(e) => {
            &&& exists|cause: snow::Error| #[trigger]
                noise_writes(before, payload, Err(cause), after) && is_noise_failure(e, cause)
            &&& out_after == out
        },
    }
}

/// Append the next Noise message, with the given payload, to `out`.
fn write_noise(state: &mut snow::HandshakeState, payload: &[u8], out: &mut Vec<u8>) -> (r: Result<
    (),
    SeamError,
>)
    ensures
        is_write(*old(state), payload@, old(out)@, r, final(out)@, *final(state)),
{
    match write_message(state, payload) {
        Ok(mut message) => {
            out.append(&mut message);
            Ok(())
        },
        Err(e) => Err(noise_failed(e)),
    }
}

/// The payload of a Noise message.
fn read_noise(state: &mut snow::HandshakeState, msg: &[u8]) -> (r: Result<Vec<u8>, SeamError>)
    ensures
        match r {
            Ok(payload) => noise_reads(*old(state), msg@) == (
                Ok::<Seq<u8>, snow::Error>(payload@),
                *final(state),
            ),
            Err(e) => {
                &&& noise_reads(*old(state), msg@).1 == *final(state)
                &&& noise_reads(*old(state), msg@).0 matches Err(cause) && is_noise_failure(
                    e,
                    cause,
                )
            },
        },
{
    match read_message(state, msg) {
        Ok(payload) => Ok(payload),
        Err(e) => Err(noise_failed(e)),
    }
}

// ── Client side ──────────────────────────────────────────────────────────────
/// The client's side of a handshake.
pub struct ClientHandshake {
    noise: snow::HandshakeState,
}

impl View for ClientHandshake {
    type V = snow::HandshakeState;

    closed spec fn view(&self) -> snow::HandshakeState {
        self.noise
    }
}

impl ClientHandshake {
    /// Begin a handshake with the server whose static key is known.
    pub fn new(local: &IdentityKeypair, server_x25519_static: &[u8; 32]) -> (r: Result<
        Self,
        SeamError,
    >)
        ensures
            match r {
                Ok(hs) => noise_initiator(local.x25519_secret@, server_x25519_static@) == Ok::<
                    snow::HandshakeState,
                    snow::Error,
                >(hs@),
                Err(e) => noise_initiator(local.x25519_secret@, server_x25519_static@) matches Err(
                    cause,
                ) && is_noise_failure(e, cause),
            },
    {
        match initiator(&local.x25519_secret.to_bytes(), server_x25519_static) {
            Ok(noise) => Ok(ClientHandshake { noise }),
            Err(e) => Err(noise_failed(e)),
        }
    }

    /// Message 1: the payload is the server's KEM public key behind its length.
    /// The message is appended to `out`.
    pub fn write_msg1(&mut self, server_kem_pk: &KemPublicKey, out: &mut Vec<u8>) -> (r: Result<
        (),
        SeamError,
    >)
        ensures
            is_write(
                old(self)@,
                prefixed(server_kem_pk@),
                old(out)@,
                r,
                final(out)@,
                final(self)@,
            ),
    {
        let payload = key_payload(server_kem_pk);
        write_noise(&mut self.noise, payload.as_slice(), out)
    }

    /// Message 2: the server sends its KEM public key back.
    pub fn read_msg2(&mut self, msg: &[u8]) -> (r: Result<KemPublicKey, SeamError>)
        ensures
            final(self)@ == noise_reads(old(self)@, msg@).1,
            match noise_reads(old(self)@, msg@).0 {
                Ok(payload) => match r {
                    Ok(pk) => key_in(payload) == Ok::<Seq<u8>, Seq<char>>(pk@),
                    Err(e) => key_in(payload) is Err && e@ == ErrorView::HandshakeFailed(
                        key_in(payload)->Err_0,
                    ),
                },
                Err(cause) => r matches Err(e) && is_noise_failure(e, cause),
            },
    {
        match read_noise(&mut self.noise, msg) {
            Ok(payload) => key_from_payload(payload.as_slice()),
            Err(e) => Err(e),
        }
    }

    /// Message 3: encapsulate a secret for the server's KEM public key, append
    /// the message to `out`, and finish.
    pub fn write_msg3_and_finish(self, server_kem_pk: &KemPublicKey, out: &mut Vec<u8>) -> (r:
        Result<HandshakeResult, SeamError>)
        ensures
            is_client_end(self@, server_kem_pk@, old(out)@, r, final(out)@),
    {
        let (ciphertext, kem_shared) = kem_encapsulate(server_kem_pk);
        let payload = length_prefix(ciphertext.as_slice());
        let mut noise = self.noise;
        // Message 3 is part of the transcript, so it is written first.
        match write_noise(&mut noise, payload.as_slice(), out) {
            Ok(()) => {},
            Err(e) => {
                let ghost cause = choose|cause: snow::Error| #[trigger]
                    noise_writes(self@, payload@, Err(cause), noise) && is_noise_failure(e, cause);
                assert(noise_writes(self@, prefixed(ciphertext@), Err(cause), noise));
                let r: Result<HandshakeResult, SeamError> = Err(e);
                assert(is_client_end_with(
                    self@,
                    server_kem_pk@,
                    ciphertext@,
                    kem_shared@,
                    old(out)@,
                    r,
                    out@,
                ));
                return r;
            },
        }
        let hash = handshake_hash(&noise);
        let r = finish_with(hash.as_slice(), remote_static(&noise), kem_shared);
        proof {
            let message = choose|message: Seq<u8>|
                {
                    &&& #[trigger] noise_writes(self@, payload@, Ok(message), noise)
                    &&& payload@.len() <= message.len() <= MAX_NOISE
                    &&& out@ == old(out)@ + message
                    &&& is_read_by_peer(self@, payload@, message, noise)
                };
            assert(noise_writes(self@, prefixed(ciphertext@), Ok(message), noise));
            assert(is_client_end_with(
                self@,
                server_kem_pk@,
                ciphertext@,
                kem_shared@,
                old(out)@,
                r,
                out@,
            ));
        }
        r
    }
}

// ── Server side ──────────────────────────────────────────────────────────────
/// The server's side of a handshake.
pub struct ServerHandshake {
    noise: snow::HandshakeState,
}

impl View for ServerHandshake {
    type V = snow::HandshakeState;

    closed spec fn view(&self) -> snow::HandshakeState {
        self.noise
    }
}

impl ServerHandshake {
    /// Begin to answer a handshake.
    pub fn new(local: &IdentityKeypair) -> (r: Result<Self, SeamError>)
        ensures
            match r {
                Ok(hs) => {
                    &&& noise_responder(local.x25519_secret@) == Ok::<
                        snow::HandshakeState,
                        snow::Error,
                    >(hs@)
                    &&& answers_initiators(hs@, local.x25519_secret@)
                },
                Err(e) => noise_responder(local.x25519_secret@) matches Err(cause)
                    && is_noise_failure(e, cause),
            },
    {
        match responder(&local.x25519_secret.to_bytes()) {
            Ok(noise) => Ok(ServerHandshake { noise }),
            Err(e) => Err(noise_failed(e)),
        }
    }

    /// Message 1: its payload is our own key and is ignored.
    pub fn read_msg1(&mut self, msg: &[u8]) -> (r: Result<(), SeamError>)
        ensures
            final(self)@ == noise_reads(old(self)@, msg@).1,
            match r {
                Ok(()) => noise_reads(old(self)@, msg@).0 is Ok,
                Err(e) => noise_reads(old(self)@, msg@).0 matches Err(cause) && is_noise_failure(
                    e,
                    cause,
                ),
            },
    {
        match read_noise(&mut self.noise, msg) {
            Ok(_) => Ok(()),
            Err(e) => Err(e),
        }
    }

    /// Message 2: our KEM public key behind its length, so that the client can
    /// encapsulate. The message is appended to `out`.
    pub fn write_msg2(&mut self, local_kem_pk: &KemPublicKey, out: &mut Vec<u8>) -> (r: Result<
        (),
        SeamError,
    >)
        ensures
            is_write(
                old(self)@,
                prefixed(local_kem_pk@),
                old(out)@,
                r,
                final(out)@,
                final(self)@,
            ),
    {
        let payload = key_payload(local_kem_pk);
        write_noise(&mut self.noise, payload.as_slice(), out)
    }

    /// Message 3: the client sends a KEM ciphertext; the secret that it carries
    /// is one half of the session secret.
    pub fn read_msg3_and_finish(self, local_kem_sk: &KemSecretKey, msg3: &[u8]) -> (r: Result<
        HandshakeResult,
        SeamError,
    >)
        ensures
            is_server_end(self@, local_kem_sk@, msg3@, r),
    {
        let mut noise = self.noise;
        let payload = match read_noise(&mut noise, msg3) {
            Ok(payload) => payload,
            Err(e) => {
                return Err(e);
            },
        };
        let kem_shared = shared_from_payload(local_kem_sk, payload.as_slice());
        let hash = handshake_hash(&noise);
        finish_with(hash.as_slice(), remote_static(&noise), kem_shared)
    }
}

} // verus!
