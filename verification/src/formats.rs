//! Where the bytes of packets, frames and keys lie.

use crate::api::finished;
use crate::cli::proto::framed;
use crate::cli::transfer::file_info;
use crate::crypto::encoder::{fits_packet, EncoderState};
use crate::crypto::format::{has_packet_length, header, masked, packet_nonce};
use crate::crypto::keys::PacketKeys;
use crate::handshake::cookie::cookie_for;
use crate::packet::PktType;
use crate::session::ack::{ack_frame, are_runs, range_bytes, top_ranges, AckState};
use crate::session::frame::{parsed_frame, stream_frame};
use crate::session::receiving::knows;
use crate::session::state::{index_is, is_stream_at, stream_index, SessionState};
use crate::session::stream::{SendState, StreamId};
use crate::transport::connection::{
    challenge_packet, echo_packet, echo_round_trip, handshake_packet, is_valid_echo,
};
use crate::transport::resumption::{ticket_fields, SessionTicket};
use crate::wire::{
    be_bytes, be_value, le_bytes, le_bytes_len, le_value, le_value_bound, pow256, pow256_values,
};
use vstd::prelude::*;
use vstd::utf8::encode_utf8;

verus! {

// ── Numbers ──────────────────────────────────────────────────────────────────
/// Little-endian: the byte at place `i` counts 256 to the power of `i`.
/// Big-endian: the same from the other end.
pub proof fn bytes_of_numbers(v: nat, n: nat, i: int)
    requires
        0 <= i < n,
    ensures
        le_bytes(v, n).len() == n,
        be_bytes(v, n).len() == n,
        le_bytes(v, n)[i] == (v / pow256(i as nat)) % 256,
        be_bytes(v, n)[n - 1 - i] == (v / pow256(i as nat)) % 256,
    decreases n,
{
    le_bytes_len(v, n);
    if i > 0 {
        bytes_of_numbers(v / 256, (n - 1) as nat, i - 1);
        let p = pow256((i - 1) as nat);
        power_is_positive((i - 1) as nat);
        vstd::arithmetic::div_mod::lemma_div_denominator(v as int, 256, p as int);
        assert(pow256(i as nat) == 256 * p);
        assert(v / pow256(i as nat) == (v / 256) / p);
        assert(le_bytes(v, n)[i] == le_bytes(v / 256, (n - 1) as nat)[i - 1]);
    } else {
        let one = pow256(0);
        assert(v / one == v) by (nonlinear_arith)
            requires
                one == 1,
        ;
        assert(le_bytes(v, n)[0] == v % 256);
    }
    assert(be_bytes(v, n)[n - 1 - i] == le_bytes(v, n)[i]);
}

proof fn power_is_positive(n: nat)
    ensures
        pow256(n) > 0,
    decreases n,
{
    if n > 0 {
        power_is_positive((n - 1) as nat);
    }
}

/// What bytes spell: the first counts least, or most.
pub proof fn numbers_of_bytes(s: Seq<u8>, b: u8)
    ensures
        le_value(Seq::empty()) == 0,
        le_value(seq![b] + s) == b + 256 * le_value(s),
        be_value(s + seq![b]) == 256 * be_value(s) + b,
{
    assert((seq![b] + s).drop_first() =~= s);
    assert((s + seq![b]).reverse() =~= seq![b] + s.reverse());
    assert((seq![b] + s.reverse()).drop_first() =~= s.reverse());
}

// ── Packets ──────────────────────────────────────────────────────────────────
/// A header is the type, the session's id and the packet's number. Masking
/// leaves the id alone, and touches the type with the first byte of the mask and
/// the number with the next eight.
pub proof fn header_layout(code: u8, session_id: u64, pkt_num: u64, mask: Seq<u8>, i: int)
    ensures
        ({
            let h = header(code, session_id, pkt_num);
            &&& h.len() == 17
            &&& h[0] == code
            &&& h.subrange(1, 9) == le_bytes(session_id as nat, 8)
            &&& h.subrange(9, 17) == le_bytes(pkt_num as nat, 8)
            &&& masked(h, mask).len() == 17
            &&& masked(h, mask)[0] == code ^ mask[0]
            &&& 1 <= i < 9 ==> masked(h, mask)[i] == h[i]
            &&& 9 <= i < 17 ==> masked(h, mask)[i] == h[i] ^ mask[i - 8]
        }),
{
    le_bytes_len(session_id as nat, 8);
    le_bytes_len(pkt_num as nat, 8);
    let h = header(code, session_id, pkt_num);
    assert(h.subrange(1, 9) =~= le_bytes(session_id as nat, 8));
    assert(h.subrange(9, 17) =~= le_bytes(pkt_num as nat, 8));
}

/// A packet has between 33 bytes and 2 GiB, so that a payload has 33 bytes less.
/// The nonce is the base with the number in its last eight bytes.
pub proof fn packet_sizes(payload: Seq<u8>, buf: Seq<u8>, base: Seq<u8>, pkt_num: u64, i: int)
    ensures
        fits_packet(payload) <==> payload.len() + 33 <= 0x7FFF_FFFF,
        has_packet_length(buf) <==> 33 <= buf.len() <= 0x7FFF_FFFF,
        packet_nonce(base, pkt_num).len() == 12,
        0 <= i < 4 ==> packet_nonce(base, pkt_num)[i] == base[i],
        4 <= i < 12 ==> packet_nonce(base, pkt_num)[i] == base[i] ^ le_bytes(
            pkt_num as nat,
            8,
        )[i - 4],
{
}

/// Numbers count up by one with each packet, to the greatest; keys and session
/// stay.
pub proof fn numbers_count_up(e: EncoderState, n: nat)
    ensures
        e.has_numbers(n) <==> e.next + n <= u64::MAX,
        e.has_numbers(n) ==> e.advance(n).next == e.next + n,
        e.advance(n).keys == e.keys,
        e.advance(n).session_id == e.session_id,
        e.advance(0) == e,
{
}

/// The byte of each packet type.
pub proof fn packet_codes()
    ensures
        PktType::Data.code() == 0,
        PktType::Ack.code() == 1,
        PktType::MaxData.code() == 2,
        PktType::Ping.code() == 3,
        PktType::Pong.code() == 4,
        PktType::SessionTicket.code() == 5,
        PktType::Close.code() == 6,
        PktType::Datagram.code() == 7,
        PktType::Chaff.code() == 8,
        PktType::PathProbe.code() == 9,
        forall|c: u8| c > 9 ==> #[trigger] PktType::of_code(c) is None,
{
    assert forall|c: u8| c > 9 implies #[trigger] PktType::of_code(c) is None by {
        if exists|t: PktType| #[trigger] t.code() == c {
            let t = choose|t: PktType| #[trigger] t.code() == c;
            assert(t.code() <= 9);
        }
    }
}

// ── Frames ───────────────────────────────────────────────────────────────────
/// A stream frame is a type byte, the end flag, the length of the data in two
/// bytes, the stream's id in four, the offset in eight, all little-endian, and the
/// data.
pub proof fn stream_frame_layout(id: u32, offset: u64, fin: bool, data: Seq<u8>)
    ensures
        ({
            let frame = stream_frame(id, offset, fin, data);
            &&& frame.len() == 16 + data.len()
            &&& frame[0] == 1
            &&& fin ==> frame[1] == 1
            &&& !fin ==> frame[1] == 0
            &&& frame.subrange(2, 4) == le_bytes(data.len(), 2)
            &&& frame.subrange(4, 8) == le_bytes(id as nat, 4)
            &&& frame.subrange(8, 16) == le_bytes(offset as nat, 8)
            &&& frame.skip(16) == data
        }),
{
    let frame = stream_frame(id, offset, fin, data);
    le_bytes_len(data.len(), 2);
    le_bytes_len(id as nat, 4);
    le_bytes_len(offset as nat, 8);
    assert(frame.subrange(2, 4) =~= le_bytes(data.len(), 2));
    assert(frame.subrange(4, 8) =~= le_bytes(id as nat, 4));
    assert(frame.subrange(8, 16) =~= le_bytes(offset as nat, 8));
    assert(frame.skip(16) =~= data);
}

/// A stream frame is read if all that it announces is there; only the lowest bit
/// of its flags counts, and bytes behind the data do not.
pub proof fn stream_frames_are_read_whole(frame: Seq<u8>)
    ensures
        frame.len() < 16 ==> parsed_frame(frame) is None,
        frame.len() >= 16 ==> (parsed_frame(frame) is Some <==> frame.len() >= 16 + le_value(
            frame.subrange(2, 4),
        )),
        parsed_frame(frame) matches Some(f) ==> {
            &&& f.data.len() == le_value(frame.subrange(2, 4))
            &&& f.data == frame.subrange(16, 16 + f.data.len() as int)
            &&& f.fin <==> frame[1] % 2 == 1
            &&& f.stream_id == le_value(frame.subrange(4, 8))
            &&& f.offset == le_value(frame.subrange(8, 16))
        },
{
    if frame.len() >= 16 {
        pow256_values();
        le_value_bound(frame.subrange(4, 8));
        le_value_bound(frame.subrange(8, 16));
    }
}

/// An acknowledgement is the largest number, the delay, the number of ranges and
/// the ranges, each as its first and its last number, all little-endian.
pub proof fn ack_frame_layout(largest: u64, delay: u64, ranges: Seq<(u64, u64)>, range: (u64, u64))
    ensures
        ({
            let frame = ack_frame(largest, delay, ranges);
            &&& frame.len() >= 18
            &&& frame.subrange(0, 8) == le_bytes(largest as nat, 8)
            &&& frame.subrange(8, 16) == le_bytes(delay as nat, 8)
            &&& frame.subrange(16, 18) == le_bytes(ranges.len(), 2)
            &&& frame.skip(18) == range_bytes(ranges)
        }),
        range_bytes(Seq::empty()).len() == 0,
        range_bytes(ranges.push(range)) == range_bytes(ranges) + (le_bytes(range.0 as nat, 8)
            + le_bytes(range.1 as nat, 8)),
{
    let frame = ack_frame(largest, delay, ranges);
    le_bytes_len(largest as nat, 8);
    le_bytes_len(delay as nat, 8);
    le_bytes_len(ranges.len(), 2);
    assert(frame.subrange(0, 8) =~= le_bytes(largest as nat, 8));
    assert(frame.subrange(8, 16) =~= le_bytes(delay as nat, 8));
    assert(frame.subrange(16, 18) =~= le_bytes(ranges.len(), 2));
    assert(frame.skip(18) =~= range_bytes(ranges));
    assert(ranges.push(range).drop_last() =~= ranges);
    assert(range_bytes(ranges.push(range)) =~= range_bytes(ranges) + (le_bytes(range.0 as nat, 8)
        + le_bytes(range.1 as nat, 8)));
}

/// The largest number of an acknowledgement was received, and none above it
/// was; its delay is 0. Of more than 64 ranges, the 64 with the highest numbers are
/// listed.
pub proof fn acknowledgement_names_the_largest(s: AckState, n: u64)
    requires
        s.wf(),
        s.ranges.len() > 0,
    ensures
        s.has(s.largest()),
        s.has(n) ==> n <= s.largest(),
        s.frame() == ack_frame(s.largest(), 0, top_ranges(s.ranges)),
        s.ranges.len() <= 64 ==> top_ranges(s.ranges) == s.ranges,
        s.ranges.len() > 64 ==> top_ranges(s.ranges).len() == 64 && top_ranges(s.ranges)
            == s.ranges.skip(s.ranges.len() - 64),
{
    let k = s.ranges.len() - 1;
    assert(are_runs(s.ranges));
    assert(s.ranges[k].0 <= s.largest() <= s.ranges[k].1);
    if s.has(n) {
        let i = choose|i: int|
            0 <= i < s.ranges.len() && (#[trigger] s.ranges[i]).0 <= n <= s.ranges[i].1;
        if i < k {
            assert(s.ranges[i].1 + 1 < s.ranges[k].0);
        }
    }
}

// ── Before the session ───────────────────────────────────────────────────────
/// The packets of the handshake start with their own type bytes; an echo holds
/// the cookie, the length of message 1 and message 1. An echo is valid for the
/// address whose cookie it holds, whatever comes with it.
pub proof fn handshake_packet_layouts(
    secret: Seq<u8>,
    address: Seq<u8>,
    cookie: Seq<u8>,
    msg: Seq<u8>,
)
    requires
        cookie.len() == 32,
        msg.len() <= 0xFFFF,
    ensures
        challenge_packet(cookie) == seq![0x11u8] + cookie,
        echo_packet(cookie, msg) == seq![0x12u8] + cookie + le_bytes(msg.len(), 2) + msg,
        handshake_packet(msg) == seq![0x13u8] + msg,
        is_valid_echo(secret, address, echo_packet(cookie, msg)) <==> cookie == cookie_for(
            secret,
            address,
        ),
{
    echo_round_trip(cookie, msg);
}

// ── Keys and tickets ─────────────────────────────────────────────────────────
/// Keys are kept as the encryption key, the header key and the nonce base; a
/// ticket holds the session's id before them and its expiry behind them.
pub proof fn key_layouts(keys: PacketKeys, session_id: u64, expiry: u64)
    ensures
        keys.encoding().len() == 76,
        keys.encoding().subrange(0, 32) == keys.enc_key@,
        keys.encoding().subrange(32, 64) == keys.hp_key@,
        keys.encoding().subrange(64, 76) == keys.nonce_base@,
        ticket_fields(session_id, keys, expiry).len() == 92,
        ticket_fields(session_id, keys, expiry).subrange(0, 8) == le_bytes(session_id as nat, 8),
        ticket_fields(session_id, keys, expiry).subrange(8, 84) == keys.encoding(),
        ticket_fields(session_id, keys, expiry).subrange(84, 92) == le_bytes(expiry as nat, 8),
        (SessionTicket { session_id, keys }).encoding().len() == 84,
        (SessionTicket { session_id, keys }).encoding().subrange(0, 8) == le_bytes(
            session_id as nat,
            8,
        ),
        (SessionTicket { session_id, keys }).encoding().subrange(8, 84) == keys.encoding(),
{
    le_bytes_len(session_id as nat, 8);
    le_bytes_len(expiry as nat, 8);
    let all = keys.encoding();
    assert(all.subrange(0, 32) =~= keys.enc_key@);
    assert(all.subrange(32, 64) =~= keys.hp_key@);
    assert(all.subrange(64, 76) =~= keys.nonce_base@);
    let fields = ticket_fields(session_id, keys, expiry);
    assert(fields.subrange(0, 8) =~= le_bytes(session_id as nat, 8));
    assert(fields.subrange(8, 84) =~= keys.encoding());
    assert(fields.subrange(84, 92) =~= le_bytes(expiry as nat, 8));
    let ticket = (SessionTicket { session_id, keys }).encoding();
    assert(ticket.subrange(0, 8) =~= le_bytes(session_id as nat, 8));
    assert(ticket.subrange(8, 84) =~= keys.encoding());
}

// ── Transfers ────────────────────────────────────────────────────────────────
/// A transfer frame is its length in four bytes, most significant first, and its
/// payload. An announcement is a type byte, the size, the length of the name, the
/// name and four zero bytes.
pub proof fn transfer_layouts(payload: Seq<u8>, size: u64, name: Seq<char>)
    ensures
        framed(payload).len() == 4 + payload.len(),
        framed(payload).take(4) == be_bytes(payload.len(), 4),
        framed(payload).skip(4) == payload,
        ({
            let info = file_info(size, name);
            let n = encode_utf8(name).len() as int;
            &&& info.len() == 15 + n
            &&& info[0] == 2
            &&& info.subrange(1, 9) == be_bytes(size as nat, 8)
            &&& info.subrange(9, 11) == be_bytes(n as nat, 2)
            &&& info.subrange(11, 11 + n) == encode_utf8(name)
            &&& info.subrange(11 + n, 15 + n) == be_bytes(0, 4)
        }),
{
    le_bytes_len(payload.len(), 4);
    assert(framed(payload).take(4) =~= be_bytes(payload.len(), 4));
    assert(framed(payload).skip(4) =~= payload);
    let info = file_info(size, name);
    let n = encode_utf8(name).len() as int;
    le_bytes_len(size as nat, 8);
    le_bytes_len(n as nat, 2);
    le_bytes_len(0, 4);
    assert(info.subrange(1, 9) =~= be_bytes(size as nat, 8));
    assert(info.subrange(9, 11) =~= be_bytes(n as nat, 2));
    assert(info.subrange(11, 11 + n) =~= encode_utf8(name));
    assert(info.subrange(11 + n, 15 + n) =~= be_bytes(0, 4));
}

// ── The end of a stream ──────────────────────────────────────────────────────
/// Finishing a stream ends its sending half and nothing else; a stream that is
/// not there is no error.
pub proof fn finishing_ends_the_sending_half(s: SessionState, id: StreamId, other: StreamId)
    requires
        s.wf(),
        other != id,
    ensures
        !knows(s, id) ==> finished(s, id) == s,
        knows(s, id) ==> {
            let after = finished(s, id);
            &&& after.stream(id).send == (SendState { finished: true, ..s.stream(id).send })
            &&& after.stream(id).recv == s.stream(id).recv
            &&& after.stream(id).priority == s.stream(id).priority
            &&& knows(s, other) ==> after.stream(other) == s.stream(other)
            &&& after == (SessionState { streams: after.streams, ..s })
        },
{
    if s.has_stream(id) {
        let i = stream_index(s.streams, id);
        assert(is_stream_at(s.streams, id, i));
        let after = finished(s, id);
        assert forall|a: int, b: int| 0 <= a < b < after.streams.len() implies (
        #[trigger] after.streams[a]).id != (#[trigger] after.streams[b]).id by {
            assert(s.streams[a].id != s.streams[b].id);
        }
        assert(is_stream_at(after.streams, id, i));
        index_is(after.streams, id, i);
        if knows(s, other) {
            let j = choose|j: int| 0 <= j < s.streams.len() && (#[trigger] s.streams[j]).id == other;
            assert(is_stream_at(s.streams, other, j));
            index_is(s.streams, other, j);
            assert(is_stream_at(after.streams, other, j));
            index_is(after.streams, other, j);
        }
    }
    if knows(s, id) {
        let i = choose|i: int| 0 <= i < s.streams.len() && (#[trigger] s.streams[i]).id == id;
        assert(is_stream_at(s.streams, id, i));
    }
}

} // verus!
