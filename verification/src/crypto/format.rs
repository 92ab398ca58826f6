//! The wire format of a protected packet.
//!
//! A packet is a header of 17 bytes, then the encrypted payload with its tag.
//! The header is the packet type, the session id and the packet number. It is
//! authenticated with the payload; type and packet number are masked.

use crate::crypto::aead::{open, opened, seal, sealed};
use crate::crypto::keys::{array_12_at, PacketKeys};
use crate::error::ErrorView;
use crate::packet::PktType;
use crate::wire::{
    bytes_at, le_bytes, le_bytes_len, le_bytes_of_value, le_round_trip, le_value, le_value_bound,
    pow256_values, put_u64_le, u64_le_at,
};
use vstd::prelude::*;

verus! {

pub const HEADER_LEN: usize = 17;

/// Bytes that a packet has beyond its payload.
pub const PACKET_OVERHEAD: usize = 33;

/// Longest packet that can be built or read, far beyond what a network carries.
pub const MAX_PACKET: usize = 0x7FFF_FFFF;

/// The fields of a packet whose protection was taken off.
#[verifier::ext_equal]
pub struct Unprotected {
    pub code: u8,
    pub session_id: u64,
    pub pkt_num: u64,
    pub payload: Seq<u8>,
}

/// What came of a packet.
#[verifier::ext_equal]
pub enum Decoding {
    Packet { pkt_type: PktType, pkt_num: u64, payload: Seq<u8> },
    Rejected(ErrorView),
}

/// The header in the clear.
pub open spec fn header(code: u8, session_id: u64, pkt_num: u64) -> Seq<u8> {
    seq![code] + le_bytes(session_id as nat, 8) + le_bytes(pkt_num as nat, 8)
}

/// The nonce of a packet: the nonce base, its last eight bytes combined with
/// the packet number.
pub open spec fn packet_nonce(base: Seq<u8>, pkt_num: u64) -> Seq<u8> {
    Seq::new(
        12,
        |i: int|
            if i < 4 {
                base[i]
            } else {
                base[i] ^ le_bytes(pkt_num as nat, 8)[i - 4]
            },
    )
}

/// The nine mask bytes: the cipher applied to zeros, with the first twelve
/// bytes of the encrypted payload as nonce.
pub open spec fn header_mask(keys: PacketKeys, text: Seq<u8>) -> Seq<u8> {
    sealed(keys.hp_key@, text.take(12), Seq::empty(), Seq::new(9, |i: int| 0u8))
}

/// The header with type and packet number masked. Masking twice undoes it.
pub open spec fn masked(header: Seq<u8>, mask: Seq<u8>) -> Seq<u8> {
    Seq::new(
        17,
        |i: int|
            if i == 0 {
                header[i] ^ mask[i]
            } else if i < 9 {
                header[i]
            } else {
                header[i] ^ mask[i - 8]
            },
    )
}

/// The packet on the wire.
pub open spec fn protected(
    keys: PacketKeys,
    session_id: u64,
    code: u8,
    pkt_num: u64,
    payload: Seq<u8>,
) -> Seq<u8> {
    let h = header(code, session_id, pkt_num);
    let text = sealed(keys.enc_key@, packet_nonce(keys.nonce_base@, pkt_num), h, payload);
    masked(h, header_mask(keys, text)) + text
}

/// The length is one that a packet can have.
pub open spec fn has_packet_length(buf: Seq<u8>) -> bool {
    PACKET_OVERHEAD <= buf.len() <= MAX_PACKET
}

/// The fields of a packet on the wire; nothing if it is not authentic.
pub open spec fn unprotected(keys: PacketKeys, buf: Seq<u8>) -> Option<Unprotected> {
    let text = buf.skip(17);
    let h = masked(buf.take(17), header_mask(keys, text));
    let pkt_num = le_value(h.subrange(9, 17)) as u64;
    match opened(keys.enc_key@, packet_nonce(keys.nonce_base@, pkt_num), h, text) {
        Some(payload) => Some(
            Unprotected {
                code: h[0],
                session_id: le_value(h.subrange(1, 9)) as u64,
                pkt_num,
                payload,
            },
        ),
        None => None,
    }
}

/// Distinct packet numbers give distinct nonces.
pub proof fn nonces_distinct(base: Seq<u8>, a: u64, b: u64)
    requires
        packet_nonce(base, a) == packet_nonce(base, b),
    ensures
        a == b,
{
    let la = le_bytes(a as nat, 8);
    let lb = le_bytes(b as nat, 8);
    le_bytes_len(a as nat, 8);
    le_bytes_len(b as nat, 8);
    assert forall|i: int| 0 <= i < 8 implies la[i] == lb[i] by {
        assert(packet_nonce(base, a)[i + 4] == packet_nonce(base, b)[i + 4]);
        assert(packet_nonce(base, a)[i + 4] == base[i + 4] ^ la[i + 4 - 4]);
        assert(packet_nonce(base, b)[i + 4] == base[i + 4] ^ lb[i + 4 - 4]);
        xor_cancels(base[i + 4], la[i], lb[i]);
    }
    assert(la =~= lb);
    pow256_values();
    le_round_trip(a as nat, 8);
    le_round_trip(b as nat, 8);
}

proof fn xor_cancels(x: u8, p: u8, q: u8)
    by (bit_vector)
    requires
        x ^ p == x ^ q,
    ensures
        p == q,
{
}

proof fn xor_twice(x: u8, m: u8)
    by (bit_vector)
    ensures
        (x ^ m) ^ m == x,
{
}

/// Masking a header a second time gives it back.
pub proof fn masking_is_involution(h: Seq<u8>, mask: Seq<u8>)
    requires
        h.len() == 17,
    ensures
        masked(masked(h, mask), mask) == h,
{
    assert forall|i: int| 0 <= i < 17 implies masked(masked(h, mask), mask)[i] == h[i] by {
        if i == 0 {
            xor_twice(h[i], mask[i]);
        } else if i >= 9 {
            xor_twice(h[i], mask[i - 8]);
        }
    }
    assert(masked(masked(h, mask), mask) =~= h);
}

/// The parts of a header are where the format says.
proof fn header_parts(code: u8, session_id: u64, pkt_num: u64)
    ensures
        header(code, session_id, pkt_num).len() == 17,
        header(code, session_id, pkt_num)[0] == code,
        le_value(header(code, session_id, pkt_num).subrange(1, 9)) == session_id,
        le_value(header(code, session_id, pkt_num).subrange(9, 17)) == pkt_num,
{
    let h = header(code, session_id, pkt_num);
    le_bytes_len(session_id as nat, 8);
    le_bytes_len(pkt_num as nat, 8);
    pow256_values();
    le_round_trip(session_id as nat, 8);
    le_round_trip(pkt_num as nat, 8);
    assert(h.subrange(1, 9) =~= le_bytes(session_id as nat, 8));
    assert(h.subrange(9, 17) =~= le_bytes(pkt_num as nat, 8));
}

/// A header is determined by its parts.
proof fn header_of_parts(h: Seq<u8>)
    requires
        h.len() == 17,
    ensures
        le_value(h.subrange(1, 9)) <= u64::MAX,
        le_value(h.subrange(9, 17)) <= u64::MAX,
        h == header(
            h[0],
            le_value(h.subrange(1, 9)) as u64,
            le_value(h.subrange(9, 17)) as u64,
        ),
{
    pow256_values();
    le_value_bound(h.subrange(1, 9));
    le_value_bound(h.subrange(9, 17));
    le_bytes_of_value(h.subrange(1, 9));
    le_bytes_of_value(h.subrange(9, 17));
    assert(h =~= seq![h[0]] + h.subrange(1, 9) + h.subrange(9, 17));
}

fn build_nonce(base: &[u8; 12], pkt_num: u64) -> (nonce: [u8; 12])
    ensures
        nonce@ == packet_nonce(base@, pkt_num),
{
    let mut number: Vec<u8> = Vec::new();
    put_u64_le(&mut number, pkt_num);
    proof {
        le_bytes_len(pkt_num as nat, 8);
    }
    let mut nonce: [u8; 12] = [0;12];
    for i in 0..12usize
        invariant
            number@ == le_bytes(pkt_num as nat, 8),
            number@.len() == 8,
            base@.len() == 12,
            nonce@.len() == 12,
            forall|j: int| 0 <= j < i ==> nonce@[j] == packet_nonce(base@, pkt_num)[j],
    {
        nonce[i] = if i < 4 {
            base[i]
        } else {
            base[i] ^ number[i - 4]
        };
    }
    assert(nonce@ =~= packet_nonce(base@, pkt_num));
    nonce
}

fn mask_header(head: &[u8], mask: &[u8]) -> (out: Vec<u8>)
    requires
        head@.len() == 17,
        mask@.len() >= 9,
    ensures
        out@ == masked(head@, mask@),
{
    let mut out: Vec<u8> = Vec::new();
    for i in 0..17usize
        invariant
            head@.len() == 17,
            mask@.len() >= 9,
            out@.len() == i,
            forall|j: int| 0 <= j < i ==> out@[j] == masked(head@, mask@)[j],
    {
        let b: u8 = if i == 0 {
            head[i] ^ mask[i]
        } else if i < 9 {
            head[i]
        } else {
            head[i] ^ mask[i - 8]
        };
        out.push(b);
    }
    assert(out@ =~= masked(head@, mask@));
    out
}

fn build_mask(keys: &PacketKeys, text: &[u8]) -> (mask: Vec<u8>)
    requires
        text@.len() >= 12,
    ensures
        mask@ == header_mask(*keys, text@),
        mask@.len() >= 9,
{
    let sample = array_12_at(text, 0);
    let zeros: [u8; 9] = [0;9];
    let none: [u8; 0] = [];
    assert(zeros@ =~= Seq::new(9, |i: int| 0u8));
    assert(none@ =~= Seq::<u8>::empty());
    assert(text@.subrange(0, 12) =~= text@.take(12));
    seal(&keys.hp_key, &sample, none.as_slice(), zeros.as_slice())
}

/// Build the packet for the given fields.
pub fn protect(
    keys: &PacketKeys,
    session_id: u64,
    pkt_type: PktType,
    pkt_num: u64,
    payload: &[u8],
) -> (packet: Vec<u8>)
    requires
        payload@.len() + PACKET_OVERHEAD <= MAX_PACKET,
    ensures
        packet@ == protected(*keys, session_id, pkt_type.code(), pkt_num, payload@),
        packet@.len() == payload@.len() + PACKET_OVERHEAD,
        unprotected(*keys, packet@) == Some(
            (Unprotected { code: pkt_type.code(), session_id, pkt_num, payload: payload@ }),
        ),
{
    let mut head: Vec<u8> = Vec::new();
    head.push(pkt_type.to_code());
    put_u64_le(&mut head, session_id);
    put_u64_le(&mut head, pkt_num);
    let ghost h = header(pkt_type.code(), session_id, pkt_num);
    assert(head@ =~= h);
    proof {
        header_parts(pkt_type.code(), session_id, pkt_num);
    }
    let nonce = build_nonce(&keys.nonce_base, pkt_num);
    let mut text = seal(&keys.enc_key, &nonce, head.as_slice(), payload);
    let mask = build_mask(keys, text.as_slice());
    let mut packet = mask_header(head.as_slice(), mask.as_slice());
    let ghost sealed_text = text@;
    packet.append(&mut text);
    proof {
        assert(packet@.skip(17) =~= sealed_text);
        assert(packet@.take(17) =~= masked(h, mask@));
        masking_is_involution(h, mask@);
    }
    packet
}

/// Take the protection off a packet. Only what the key holder protected is
/// accepted: an authentic packet is the protected form of its own fields.
pub fn unprotect(keys: &PacketKeys, buf: &[u8]) -> (r: Option<(u8, u64, u64, Vec<u8>)>)
    requires
        has_packet_length(buf@),
    ensures
        match r {
            Some((code, session_id, pkt_num, payload)) => {
                &&& unprotected(*keys, buf@) == Some(
                    (Unprotected { code, session_id, pkt_num, payload: payload@ }),
                )
                &&& payload@.len() + PACKET_OVERHEAD == buf@.len()
                &&& buf@ == protected(*keys, session_id, code, pkt_num, payload@)
            },
            None => unprotected(*keys, buf@) is None,
        },
{
    let text = bytes_at(buf, HEADER_LEN, buf.len() - HEADER_LEN);
    assert(text@ =~= buf@.skip(17));
    let mask = build_mask(keys, text);
    let front = bytes_at(buf, 0, HEADER_LEN);
    assert(front@ =~= buf@.take(17));
    let head = mask_header(front, mask.as_slice());
    let session_id: u64 = u64_le_at(head.as_slice(), 1);
    let pkt_num: u64 = u64_le_at(head.as_slice(), 9);
    let nonce = build_nonce(&keys.nonce_base, pkt_num);
    match open(&keys.enc_key, &nonce, head.as_slice(), text) {
        Some(payload) => {
            proof {
                header_of_parts(head@);
                masking_is_involution(front@, mask@);
                assert(buf@ =~= front@ + text@);
            }
            Some((head[0], session_id, pkt_num, payload))
        },
        None => None,
    }
}

} // verus!
