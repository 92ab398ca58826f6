//! The sending side of packet protection.

use crate::crypto::format::{
    protect, protected, unprotected, Unprotected, MAX_PACKET, PACKET_OVERHEAD,
};
use crate::crypto::keys::PacketKeys;
use crate::error::{ErrorView, SeamError};
use crate::packet::PktType;
use vstd::prelude::*;

verus! {

/// Protects packets under one set of keys, each with a packet number of its own.
pub struct PacketEncoder {
    keys: PacketKeys,
    session_id: u64,
    next_pkt_num: u64,
}

/// What a [`PacketEncoder`] stands for.
pub struct EncoderState {
    pub keys: PacketKeys,
    pub session_id: u64,
    /// The number of the next packet.
    pub next: u64,
}

impl View for PacketEncoder {
    type V = EncoderState;

    closed spec fn view(&self) -> EncoderState {
        EncoderState { keys: self.keys, session_id: self.session_id, next: self.next_pkt_num }
    }
}

/// A payload of this length fits into a packet.
pub open spec fn fits_packet(payload: Seq<u8>) -> bool {
    payload.len() + PACKET_OVERHEAD <= MAX_PACKET
}

/// The error for a payload that fits into no packet.
pub open spec fn payload_too_long(payload: Seq<u8>) -> ErrorView {
    ErrorView::BufferTooSmall {
        need: if payload.len() + PACKET_OVERHEAD <= usize::MAX {
            (payload.len() + PACKET_OVERHEAD) as usize
        } else {
            usize::MAX
        },
        have: MAX_PACKET,
    }
}

impl EncoderState {
    /// The packet that carries `payload` under the next number.
    pub open spec fn packet(self, pkt_type: PktType, payload: Seq<u8>) -> Seq<u8> {
        protected(self.keys, self.session_id, pkt_type.code(), self.next, payload)
    }

    /// The state after `n` more packets.
    pub open spec fn advance(self, n: nat) -> EncoderState {
        EncoderState { next: (self.next + n) as u64, ..self }
    }

    /// There are numbers for `n` more packets.
    pub open spec fn has_numbers(self, n: nat) -> bool {
        self.next + n <= u64::MAX
    }

    /// The receiver of `packet` gets back what was encoded.
    pub open spec fn reads_back(self, packet: Seq<u8>, pkt_type: PktType, payload: Seq<u8>) -> bool {
        unprotected(self.keys, packet) == Some(
            (Unprotected {
                code: pkt_type.code(),
                session_id: self.session_id,
                pkt_num: self.next,
                payload,
            }),
        )
    }
}

impl PacketEncoder {
    pub fn new(keys: PacketKeys, session_id: u64) -> (e: Self)
        ensures
            e@ == (EncoderState { keys, session_id, next: 0 }),
    {
        PacketEncoder { keys, session_id, next_pkt_num: 0 }
    }

    /// The number that the next packet will have.
    pub fn peek_next_pkt_num(&self) -> (n: u64)
        ensures
            n == self@.next,
    {
        self.next_pkt_num
    }

    /// The session that the packets belong to.
    pub fn session_id(&self) -> (id: u64)
        ensures
            id == self@.session_id,
    {
        self.session_id
    }

    /// The keys that protect the packets.
    pub fn keys(&self) -> (keys: PacketKeys)
        ensures
            keys == self@.keys,
    {
        self.keys
    }

    /// Build the next packet. Each packet takes a number; one that is not
    /// built takes none.
    pub fn seal_packet(&mut self, pkt_type: PktType, payload: &[u8]) -> (r: Result<
        Vec<u8>,
        SeamError,
    >)
        ensures
            match r {
                Ok(packet) => {
                    &&& fits_packet(payload@)
                    &&& old(self)@.has_numbers(1)
                    &&& packet@ == old(self)@.packet(pkt_type, payload@)
                    &&& packet@.len() == payload@.len() + PACKET_OVERHEAD
                    &&& old(self)@.reads_back(packet@, pkt_type, payload@)
                    &&& final(self)@ == old(self)@.advance(1)
                },
                Err(e) => {
                    &&& final(self)@ == old(self)@
                    &&& if fits_packet(payload@) {
                        !old(self)@.has_numbers(1) && e@ == ErrorView::PacketNumbersExhausted
                    } else {
                        e@ == payload_too_long(payload@)
                    }
                },
            },
    {
        if payload.len() > MAX_PACKET - PACKET_OVERHEAD {
            return Err(
                SeamError::BufferTooSmall {
                    need: payload.len().saturating_add(PACKET_OVERHEAD),
                    have: MAX_PACKET,
                },
            );
        }
        if self.next_pkt_num == u64::MAX {
            return Err(SeamError::PacketNumbersExhausted);
        }
        let packet = protect(&self.keys, self.session_id, pkt_type, self.next_pkt_num, payload);
        self.next_pkt_num = self.next_pkt_num + 1;
        Ok(packet)
    }

    /// Build the next packet into the front of `out`; returns its length.
    pub fn encode(&mut self, pkt_type: PktType, payload: &[u8], out: &mut [u8]) -> (r: Result<
        usize,
        SeamError,
    >)
        ensures
            final(out)@.len() == old(out)@.len(),
            match r {
                Ok(n) => {
                    &&& fits_packet(payload@)
                    &&& old(self)@.has_numbers(1)
                    &&& n == payload@.len() + PACKET_OVERHEAD <= old(out)@.len()
                    &&& final(out)@ == old(self)@.packet(pkt_type, payload@) + old(out)@.skip(
                        n as int,
                    )
                    &&& old(self)@.reads_back(final(out)@.take(n as int), pkt_type, payload@)
                    &&& final(self)@ == old(self)@.advance(1)
                },
                Err(e) => {
                    &&& final(self)@ == old(self)@
                    &&& final(out)@ == old(out)@
                    &&& if !fits_packet(payload@) {
                        e@ == payload_too_long(payload@)
                    } else if payload@.len() + PACKET_OVERHEAD > old(out)@.len() {
                        e@ == (ErrorView::BufferTooSmall {
                            need: (payload@.len() + PACKET_OVERHEAD) as usize,
                            have: old(out)@.len() as usize,
                        })
                    } else {
                        !old(self)@.has_numbers(1) && e@ == ErrorView::PacketNumbersExhausted
                    }
                },
            },
    {
        if payload.len() <= MAX_PACKET - PACKET_OVERHEAD && payload.len() + PACKET_OVERHEAD
            > out.len() {
            return Err(
                SeamError::BufferTooSmall {
                    need: payload.len() + PACKET_OVERHEAD,
                    have: out.len(),
                },
            );
        }
        let packet = match self.seal_packet(pkt_type, payload) {
            Ok(packet) => packet,
            Err(e) => {
                return Err(e);
            },
        };
        let n: usize = packet.len();
        let ghost before = out@;
        for i in 0..n
            invariant
                n == packet@.len() <= out@.len(),
                out@.len() == before.len(),
                forall|j: int| 0 <= j < i ==> out@[j] == packet@[j],
                forall|j: int| i <= j < before.len() ==> out@[j] == before[j],
        {
            out[i] = packet[i];
        }
        assert(out@ =~= packet@ + before.skip(n as int));
        assert(out@.take(n as int) =~= packet@);
        Ok(n)
    }
}

} // verus!
