//! The outside Noise implementation.
//!
//! One side of a handshake is an opaque state. Reading a message, the
//! transcript hash and the peer's static key are functions of the state;
//! writing a message also draws fresh random keys, so of it only the possible
//! outcomes have a name. Two states can be the two sides of one handshake: then
//! one reads what the other writes.

use snow::Builder;
use vstd::prelude::*;

verus! {

/// `snow::HandshakeState`, one side of a Noise handshake.
#[verifier::external_type_specification]
#[verifier::external_body]
pub struct ExHandshakeState(snow::HandshakeState);

/// `snow::Error`, why a Noise operation failed.
#[verifier::external_type_specification]
#[verifier::external_body]
pub struct ExNoiseError(snow::Error);

/// Longest Noise message.
pub const MAX_NOISE: usize = 65535;

/// The X25519 public key of a secret key.
pub uninterp spec fn x25519_public_of(secret: Seq<u8>) -> Seq<u8>;

/// The state of an initiator with this secret key that expects the peer to
/// have this static key, or why it cannot be built.
pub uninterp spec fn noise_initiator(secret: Seq<u8>, remote: Seq<u8>) -> Result<
    snow::HandshakeState,
    snow::Error,
>;

/// The state of a responder with this secret key, or why it cannot be built.
pub uninterp spec fn noise_responder(secret: Seq<u8>) -> Result<snow::HandshakeState, snow::Error>;

/// To write `payload` in `state` may give this message, or this error, and
/// leave this state.
pub uninterp spec fn noise_writes(
    state: snow::HandshakeState,
    payload: Seq<u8>,
    message: Result<Seq<u8>, snow::Error>,
    after: snow::HandshakeState,
) -> bool;

/// The payload of a message that is read in `state`, or why it is refused, and
/// the state that is left.
pub uninterp spec fn noise_reads(state: snow::HandshakeState, message: Seq<u8>) -> (
    Result<Seq<u8>, snow::Error>,
    snow::HandshakeState,
);

/// The hash of everything exchanged up to `state`.
pub uninterp spec fn noise_hash(state: snow::HandshakeState) -> Seq<u8>;

/// The peer's static public key, if `state` knows it.
pub uninterp spec fn noise_remote(state: snow::HandshakeState) -> Option<Seq<u8>>;

/// The two states are the sides of one handshake in which `n` messages were
/// exchanged: the writer, with the static public key `writer_key`, is to write
/// the next one, and the reader, with `reader_key`, to read it.
pub uninterp spec fn noise_in_step(
    n: nat,
    writer: snow::HandshakeState,
    reader: snow::HandshakeState,
    writer_key: Seq<u8>,
    reader_key: Seq<u8>,
) -> bool;

/// The state of a responder with this secret key is in step with that of any
/// initiator.
pub open spec fn answers_initiators(state: snow::HandshakeState, secret: Seq<u8>) -> bool {
    forall|other: Seq<u8>, remote: Seq<u8>|
        #[trigger] noise_initiator(other, remote) matches Ok(i) ==> noise_in_step(
            0,
            i,
            state,
            x25519_public_of(other),
            x25519_public_of(secret),
        )
}

/// The other side of the handshake reads the message that was written: it gets
/// the payload, and the sides stay in step, with the same transcript. The second
/// and third message tell the reader the writer's static key, so that with the
/// third both know each other's.
pub open spec fn is_read_by_peer(
    before: snow::HandshakeState,
    payload: Seq<u8>,
    message: Seq<u8>,
    after: snow::HandshakeState,
) -> bool {
    forall|n: nat, reader: snow::HandshakeState, writer_key: Seq<u8>, reader_key: Seq<u8>|
        #[trigger] noise_in_step(n, before, reader, writer_key, reader_key) ==> {
            let (read, reader_after) = noise_reads(reader, message);
            &&& read == Ok::<Seq<u8>, snow::Error>(payload)
            &&& noise_in_step(n + 1, reader_after, after, reader_key, writer_key)
            &&& noise_hash(reader_after) == noise_hash(after)
            &&& n >= 1 ==> noise_remote(reader_after) == Some(writer_key)
            &&& n >= 2 ==> noise_remote(after) == Some(reader_key)
        }
}

/// `snow::Builder::generate_keypair` for X25519: a fresh key pair, secret key
/// first. Both keys have 32 bytes, and the public key is that of the secret key.
#[verifier::external_body]
pub(crate) fn generate_x25519() -> (pair: (Vec<u8>, Vec<u8>))
    ensures
        pair.0@.len() == 32,
        pair.1@.len() == 32,
        pair.1@ == x25519_public_of(pair.0@),
{
    let pattern = "Noise_XX_25519_ChaChaPoly_BLAKE2s".parse().expect("known pattern");
    let pair = Builder::new(pattern).generate_keypair().expect("known primitives");
    (pair.private, pair.public)
}

/// `snow::Builder::build_initiator` for the XX pattern over X25519,
/// ChaCha20-Poly1305 and BLAKE2s: the state depends on the two keys alone.
#[verifier::external_body]
pub(crate) fn initiator(secret: &[u8; 32], remote: &[u8; 32]) -> (r: Result<
    snow::HandshakeState,
    snow::Error,
>)
    ensures
        r == noise_initiator(secret@, remote@),
{
    let pattern = "Noise_XX_25519_ChaChaPoly_BLAKE2s".parse().expect("known pattern");
    Builder::new(pattern).local_private_key(secret).remote_public_key(remote).build_initiator()
}

/// `snow::Builder::build_responder` for the same pattern: the state depends on
/// the key alone. It begins as the state of an initiator does, whatever key that
/// one expects: in this pattern nothing is mixed in before the first message.
#[verifier::external_body]
pub(crate) fn responder(secret: &[u8; 32]) -> (r: Result<snow::HandshakeState, snow::Error>)
    ensures
        r == noise_responder(secret@),
        r matches Ok(state) ==> forall|other: Seq<u8>, remote: Seq<u8>|
            #[trigger] noise_initiator(other, remote) matches Ok(i) ==> noise_in_step(
                0,
                i,
                state,
                x25519_public_of(other),
                x25519_public_of(secret@),
            ),
{
    let pattern = "Noise_XX_25519_ChaChaPoly_BLAKE2s".parse().expect("known pattern");
    Builder::new(pattern).local_private_key(secret).build_responder()
}

/// `snow::HandshakeState::write_message`: the next message, which carries the
/// payload. It depends on fresh random keys; it is no shorter than the payload
/// and no longer than a Noise message can be. `read_message` in the state of the
/// other side mixes in what was mixed in here, computes the same Diffie-Hellman
/// results, and so decrypts what was encrypted.
#[verifier::external_body]
pub(crate) fn write_message(state: &mut snow::HandshakeState, payload: &[u8]) -> (r: Result<
    Vec<u8>,
    snow::Error,
>)
    ensures
        match r {
            Ok(message) => {
                &&& payload@.len() <= message@.len() <= MAX_NOISE
                &&& noise_writes(*old(state), payload@, Ok(message@), *final(state))
                &&& is_read_by_peer(*old(state), payload@, message@, *final(state))
            },
            Err(e) => noise_writes(*old(state), payload@, Err(e), *final(state)),
        },
{
    let mut message = vec![0u8; 65535];
    let n = state.write_message(payload, &mut message)?;
    message.truncate(n);
    Ok(message)
}

/// `snow::HandshakeState::read_message`: the payload of a message, a function
/// of state and message. It is no longer than the message, which is no longer
/// than a Noise message can be.
#[verifier::external_body]
pub(crate) fn read_message(state: &mut snow::HandshakeState, message: &[u8]) -> (r: Result<
    Vec<u8>,
    snow::Error,
>)
    ensures
        match r {
            Ok(payload) => {
                &&& payload@.len() <= message@.len() <= MAX_NOISE
                &&& noise_reads(*old(state), message@) == (
                    Ok::<Seq<u8>, snow::Error>(payload@),
                    *final(state),
                )
            },
            Err(e) => noise_reads(*old(state), message@) == (
                Err::<Seq<u8>, snow::Error>(e),
                *final(state),
            ),
        },
{
    let mut payload = vec![0u8; 65535];
    let n = state.read_message(message, &mut payload)?;
    payload.truncate(n);
    Ok(payload)
}

/// `snow::HandshakeState::get_handshake_hash`: the hash of everything exchanged
/// so far, of the length that the hash function has, at least 32 bytes.
#[verifier::external_body]
pub(crate) fn handshake_hash(state: &snow::HandshakeState) -> (hash: Vec<u8>)
    ensures
        hash@ == noise_hash(*state),
        hash@.len() >= 32,
{
    state.get_handshake_hash().to_vec()
}

/// `snow::HandshakeState::get_remote_static`: the peer's static public key, if
/// it is known already.
#[verifier::external_body]
pub(crate) fn remote_static(state: &snow::HandshakeState) -> (key: Option<Vec<u8>>)
    ensures
        match key {
            Some(key) => noise_remote(*state) == Some(key@),
            None => noise_remote(*state) is None,
        },
{
    state.get_remote_static().map(|key| key.to_vec())
}

} // verus!
