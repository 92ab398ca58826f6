//! 0-RTT session resumption via encrypted session tickets.
//!
//! ⚠️  **WEAKER FORWARD SECRECY**: Session tickets store the derived traffic
//! keys. If the server's ticket-encryption key is compromised, past 0-RTT
//! sessions can be decrypted. Use only where latency beats FS requirements.
//!
//! A ticket is a nonce of 12 bytes, then the session id, the packet keys and
//! the expiry time, encrypted with the server's ticket key.

use crate::clock::{seconds_at, unix_now};
use crate::crypto::aead::{open, opened, seal, sealed};
use crate::crypto::keys::{array_12_at, keys_of_bytes_unique, PacketKeys, PACKET_KEYS_LEN};
use crate::entropy::{may_be_drawn, random_nonce};
use crate::error::{handshake_failed, ErrorView, SeamError};
use crate::session::stream::clamp_u64;
use crate::wire::{
    bytes_at, le_bytes, le_bytes_len, le_bytes_of_value, le_round_trip, pow256_values, put_u64_le,
    u64_le_at,
};
use vstd::prelude::*;

verus! {

/// Session id, keys and expiry time.
pub const TICKET_PLAINTEXT_LEN: usize = 92;

/// Nonce, encrypted fields and tag.
pub const TICKET_LEN: usize = 120;

/// Ticket lifetime: 24 hours.
pub const TICKET_TTL_SECS: u64 = 86_400;

pub const WEAKER_FS_WARNING: &'static str =
    "WARNING: session tickets weaken forward secrecy — if the server ticket key leaks, past 0-RTT sessions can be decrypted.";

/// The key under which a server encrypts its tickets.
#[derive(Clone, Copy)]
pub struct TicketKey {
    key: [u8; 32],
}

impl View for TicketKey {
    type V = Seq<u8>;

    closed spec fn view(&self) -> Seq<u8> {
        self.key@
    }
}

/// The context that tickets are bound to: `seam-ticket`.
pub open spec fn ticket_aad() -> Seq<u8> {
    seq![
        0x73u8,
        0x65u8,
        0x61u8,
        0x6du8,
        0x2du8,
        0x74u8,
        0x69u8,
        0x63u8,
        0x6bu8,
        0x65u8,
        0x74u8,
    ]
}

/// The fields of a ticket in the clear.
pub open spec fn ticket_fields(session_id: u64, keys: PacketKeys, expiry: u64) -> Seq<u8> {
    le_bytes(session_id as nat, 8) + keys.encoding() + le_bytes(expiry as nat, 8)
}

/// A ticket.
pub open spec fn ticket(
    key: Seq<u8>,
    nonce: Seq<u8>,
    session_id: u64,
    keys: PacketKeys,
    expiry: u64,
) -> Seq<u8> {
    nonce + sealed(key, nonce, ticket_aad(), ticket_fields(session_id, keys, expiry))
}

/// What is inside a ticket.
pub open spec fn ticket_contents(key: Seq<u8>, ticket: Seq<u8>) -> Option<Seq<u8>> {
    opened(key, ticket.take(12), ticket_aad(), ticket.skip(12))
}

/// The ticket carries this session id and these keys, and expires then.
pub open spec fn is_ticket_for(
    key: Seq<u8>,
    ticket: Seq<u8>,
    session_id: u64,
    keys: PacketKeys,
    expiry: u64,
) -> bool {
    ticket.len() == TICKET_LEN && ticket_contents(key, ticket) == Some(
        ticket_fields(session_id, keys, expiry),
    )
}

/// The ticket carries this session id and these keys under a nonce that was
/// drawn, and expires a day after some point in time.
pub open spec fn is_issued(
    key: Seq<u8>,
    ticket_bytes: Seq<u8>,
    session_id: u64,
    keys: PacketKeys,
) -> bool {
    exists|nonce: Seq<u8>, t: std::time::SystemTime|
        {
            &&& nonce.len() == 12
            &&& may_be_drawn(nonce)
            &&& ticket_bytes == #[trigger] ticket(key, nonce, session_id, keys, expiry_at(t))
            &&& is_ticket_for(key, ticket_bytes, session_id, keys, expiry_at(t))
        }
}

/// When a ticket that is issued at `t` expires, in seconds: a day later, or when
/// time ends.
pub open spec fn expiry_at(t: std::time::SystemTime) -> u64 {
    clamp_u64(seconds_at(t) + TICKET_TTL_SECS) as u64
}

fn build_aad() -> (aad: [u8; 11])
    ensures
        aad@ == ticket_aad(),
{
    let aad: [u8; 11] = [
        0x73,
        0x65,
        0x61,
        0x6d,
        0x2d,
        0x74,
        0x69,
        0x63,
        0x6b,
        0x65,
        0x74,
    ];
    assert(aad@ =~= ticket_aad());
    aad
}

/// A ticket says one thing only.
pub proof fn ticket_fields_unique(
    session_a: u64,
    keys_a: PacketKeys,
    expiry_a: u64,
    session_b: u64,
    keys_b: PacketKeys,
    expiry_b: u64,
)
    requires
        ticket_fields(session_a, keys_a, expiry_a) == ticket_fields(session_b, keys_b, expiry_b),
    ensures
        session_a == session_b,
        keys_a == keys_b,
        expiry_a == expiry_b,
{
    let f = ticket_fields(session_a, keys_a, expiry_a);
    pow256_values();
    le_bytes_len(session_a as nat, 8);
    le_bytes_len(session_b as nat, 8);
    le_bytes_len(expiry_a as nat, 8);
    le_bytes_len(expiry_b as nat, 8);
    le_round_trip(session_a as nat, 8);
    le_round_trip(session_b as nat, 8);
    le_round_trip(expiry_a as nat, 8);
    le_round_trip(expiry_b as nat, 8);
    assert(f.subrange(0, 8) =~= le_bytes(session_a as nat, 8));
    assert(f.subrange(0, 8) =~= le_bytes(session_b as nat, 8));
    assert(f.subrange(8, 84) =~= keys_a.encoding());
    assert(f.subrange(8, 84) =~= keys_b.encoding());
    assert(f.subrange(84, 92) =~= le_bytes(expiry_a as nat, 8));
    assert(f.subrange(84, 92) =~= le_bytes(expiry_b as nat, 8));
    keys_of_bytes_unique(keys_a, keys_b);
}

impl TicketKey {
    pub fn new(key: [u8; 32]) -> (k: Self)
        ensures
            k@ == key@,
    {
        TicketKey { key }
    }

    /// Issue a new session ticket for `session_id` / `keys`, valid for a day.
    pub fn issue(&self, session_id: u64, keys: &PacketKeys) -> (out: Vec<u8>)
        ensures
            is_issued(self@, out@, session_id, *keys),
            out@.len() == TICKET_LEN,
    {
        let nonce = random_nonce();
        let now: u64 = unix_now();
        let out = self.issue_with(session_id, keys, &nonce, now.saturating_add(TICKET_TTL_SECS));
        proof {
            let t = choose|t: std::time::SystemTime| now == #[trigger] seconds_at(t);
            assert(out@ == ticket(self@, nonce@, session_id, *keys, expiry_at(t)));
        }
        out
    }

    /// Issue the ticket that expires at `expiry`, under the given nonce.
    pub fn issue_with(&self, session_id: u64, keys: &PacketKeys, nonce: &[u8; 12], expiry: u64) -> (out:
        Vec<u8>)
        ensures
            out@ == ticket(self@, nonce@, session_id, *keys, expiry),
            is_ticket_for(self@, out@, session_id, *keys, expiry),
    {
        let mut plain: Vec<u8> = Vec::new();
        put_u64_le(&mut plain, session_id);
        let mut key_bytes = keys.to_bytes();
        plain.append(&mut key_bytes);
        put_u64_le(&mut plain, expiry);
        proof {
            le_bytes_len(session_id as nat, 8);
            le_bytes_len(expiry as nat, 8);
            assert(plain@ =~= ticket_fields(session_id, *keys, expiry));
        }
        let aad = build_aad();
        let mut text = seal(&self.key, nonce, aad.as_slice(), plain.as_slice());
        let ghost sealed_text = text@;
        let mut out: Vec<u8> = Vec::new();
        out.extend_from_slice(nonce.as_slice());
        out.append(&mut text);
        proof {
            assert(out@.take(12) =~= nonce@);
            assert(out@.skip(12) =~= sealed_text);
        }
        out
    }

    /// Decrypt and validate a session ticket. Returns session id and keys.
    pub fn redeem(&self, ticket_bytes: &[u8]) -> (r: Result<(u64, PacketKeys), SeamError>)
        ensures
            exists|t: std::time::SystemTime|
                is_redemption(self@, ticket_bytes@, #[trigger] seconds_at(t), r),
    {
        self.redeem_at(ticket_bytes, unix_now())
    }

    /// Redeem a ticket at the given time: it must have a ticket's length, be
    /// authentic, and not be expired.
    pub fn redeem_at(&self, ticket_bytes: &[u8], now: u64) -> (r: Result<
        (u64, PacketKeys),
        SeamError,
    >)
        ensures
            is_redemption(self@, ticket_bytes@, now, r),
            match r {
                Ok(redeemed) => exists|expiry: u64|
                    now <= expiry && ticket_bytes@ == #[trigger] ticket(
                        self@,
                        ticket_bytes@.take(12),
                        redeemed.0,
                        redeemed.1,
                        expiry,
                    ),
                Err(_) => true,
            },
    {
        if ticket_bytes.len() != TICKET_LEN {
            return Err(handshake_failed("bad ticket length"));
        }
        let nonce = array_12_at(ticket_bytes, 0);
        let text = bytes_at(ticket_bytes, 12, TICKET_LEN - 12);
        assert(nonce@ =~= ticket_bytes@.take(12));
        assert(text@ =~= ticket_bytes@.skip(12));
        let aad = build_aad();
        let plain = match open(&self.key, &nonce, aad.as_slice(), text) {
            Some(plain) => plain,
            None => {
                return Err(SeamError::AuthFailed);
            },
        };
        let session_id: u64 = u64_le_at(plain.as_slice(), 0);
        let keys = match PacketKeys::from_bytes(bytes_at(plain.as_slice(), 8, PACKET_KEYS_LEN)) {
            Some(keys) => keys,
            None => {
                return Err(SeamError::AuthFailed);
            },
        };
        let expiry: u64 = u64_le_at(plain.as_slice(), 84);
        proof {
            le_bytes_of_value(plain@.subrange(0, 8));
            le_bytes_of_value(plain@.subrange(84, 92));
            assert(plain@ =~= ticket_fields(session_id, keys, expiry));
            assert(is_ticket_for(self@, ticket_bytes@, session_id, keys, expiry));
            assert(ticket_bytes@ =~= ticket(
                self@,
                ticket_bytes@.take(12),
                session_id,
                keys,
                expiry,
            ));
        }
        if now > expiry {
            return Err(handshake_failed("ticket expired"));
        }
        let r: Result<(u64, PacketKeys), SeamError> = Ok((session_id, keys));
        assert(is_ticket_for(self@, ticket_bytes@, r->Ok_0.0, r->Ok_0.1, expiry));
        r
    }
}

/// `r` is what redeeming the ticket at `now` gives.
pub open spec fn is_redemption(
    key: Seq<u8>,
    ticket: Seq<u8>,
    now: u64,
    r: Result<(u64, PacketKeys), SeamError>,
) -> bool {
    match r {
        Ok(redeemed) => exists|expiry: u64|
            now <= expiry && #[trigger] is_ticket_for(
                key,
                ticket,
                redeemed.0,
                redeemed.1,
                expiry,
            ),
        Err(e) => if ticket.len() != TICKET_LEN {
            e@ == ErrorView::HandshakeFailed("bad ticket length"@)
        } else if ticket_contents(key, ticket) is None {
            e@ == ErrorView::AuthFailed
        } else {
            &&& e@ == ErrorView::HandshakeFailed("ticket expired"@)
            &&& exists|session_id: u64, keys: PacketKeys, expiry: u64|
                now > expiry && #[trigger] is_ticket_for(key, ticket, session_id, keys, expiry)
        },
    }
}

/// A ticket can be redeemed for exactly what it was issued for, until it
/// expires and no longer.
pub proof fn ticket_round_trip(
    key: Seq<u8>,
    ticket: Seq<u8>,
    session_id: u64,
    keys: PacketKeys,
    expiry: u64,
    now: u64,
    r: Result<(u64, PacketKeys), SeamError>,
)
    requires
        is_ticket_for(key, ticket, session_id, keys, expiry),
        is_redemption(key, ticket, now, r),
    ensures
        now <= expiry ==> r == Ok::<(u64, PacketKeys), SeamError>((session_id, keys)),
        now > expiry ==> (r matches Err(e) && e@ == ErrorView::HandshakeFailed("ticket expired"@)),
{
    match r {
        Ok((s, k)) => {
            let e = choose|e: u64| now <= e && #[trigger] is_ticket_for(key, ticket, s, k, e);
            ticket_fields_unique(session_id, keys, expiry, s, k, e);
        },
        Err(_) => {
            if now <= expiry {
                let (s, k, e) = choose|s: u64, k: PacketKeys, e: u64|
                    now > e && #[trigger] is_ticket_for(key, ticket, s, k, e);
                ticket_fields_unique(session_id, keys, expiry, s, k, e);
            }
        },
    }
}

/// In-memory representation of a redeemed ticket (for the client side).
#[derive(Debug, Clone, Copy)]
pub struct SessionTicket {
    pub session_id: u64,
    pub keys: PacketKeys,
}

impl SessionTicket {
    /// Session id and keys, one after the other.
    pub open spec fn encoding(self) -> Seq<u8> {
        le_bytes(self.session_id as nat, 8) + self.keys.encoding()
    }

    pub fn new(session_id: u64, keys: PacketKeys) -> (t: Self)
        ensures
            t == (SessionTicket { session_id, keys }),
    {
        SessionTicket { session_id, keys }
    }

    /// The ticket as 84 bytes.
    pub fn to_bytes(&self) -> (out: Vec<u8>)
        ensures
            out@ == self.encoding(),
            out@.len() == 84,
    {
        let mut out: Vec<u8> = Vec::new();
        put_u64_le(&mut out, self.session_id);
        let mut key_bytes = self.keys.to_bytes();
        out.append(&mut key_bytes);
        proof {
            le_bytes_len(self.session_id as nat, 8);
        }
        out
    }

    /// The ticket whose serialised form `buf` is; nothing if it is not 84 bytes long.
    pub fn from_bytes(buf: &[u8]) -> (t: Option<Self>)
        ensures
            match t {
                Some(t) => t.encoding() == buf@,
                None => buf@.len() != 84,
            },
    {
        if buf.len() != 84 {
            return None;
        }
        let session_id: u64 = u64_le_at(buf, 0);
        match PacketKeys::from_bytes(bytes_at(buf, 8, PACKET_KEYS_LEN)) {
            Some(keys) => {
                let t = SessionTicket { session_id, keys };
                proof {
                    le_bytes_of_value(buf@.subrange(0, 8));
                    assert(buf@ =~= t.encoding());
                }
                Some(t)
            },
            None => None,
        }
    }
}

/// Tickets with the same serialised form are the same: reading one back gives
/// the ticket that was written.
pub proof fn session_ticket_round_trip(a: SessionTicket, b: SessionTicket)
    requires
        a.encoding() == b.encoding(),
    ensures
        a == b,
{
    le_bytes_len(a.session_id as nat, 8);
    le_bytes_len(b.session_id as nat, 8);
    pow256_values();
    le_round_trip(a.session_id as nat, 8);
    le_round_trip(b.session_id as nat, 8);
    assert(a.encoding().subrange(0, 8) =~= le_bytes(a.session_id as nat, 8));
    assert(a.encoding().subrange(0, 8) =~= le_bytes(b.session_id as nat, 8));
    assert(a.encoding().subrange(8, 84) =~= a.keys.encoding());
    assert(a.encoding().subrange(8, 84) =~= b.keys.encoding());
    keys_of_bytes_unique(a.keys, b.keys);
}

} // verus!
