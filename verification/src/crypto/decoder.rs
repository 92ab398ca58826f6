//! The receiving side of packet protection.

use crate::crypto::format::{
    has_packet_length, protected, unprotect, unprotected, Decoding, MAX_PACKET, PACKET_OVERHEAD,
};
use crate::crypto::keys::PacketKeys;
use crate::crypto::replay::{ReplayState, ReplayWindow};
use crate::error::{ErrorView, SeamError};
use crate::packet::PktType;
use vstd::prelude::*;

verus! {

/// Opens packets protected under one set of keys, each number once.
pub struct PacketDecoder {
    keys: PacketKeys,
    replay: ReplayWindow,
}

/// What a [`PacketDecoder`] stands for.
#[verifier::ext_equal]
pub struct DecoderState {
    pub keys: PacketKeys,
    pub replay: ReplayState,
}

impl View for PacketDecoder {
    type V = DecoderState;

    closed spec fn view(&self) -> DecoderState {
        DecoderState { keys: self.keys, replay: self.replay@ }
    }
}

impl DecoderState {
    pub open spec fn new(keys: PacketKeys) -> DecoderState {
        DecoderState { keys, replay: ReplayState::new() }
    }

    /// What comes of a packet: it must have a packet's length, be authentic,
    /// have a known type, and be new.
    pub open spec fn decoding(self, buf: Seq<u8>) -> Decoding {
        if !has_packet_length(buf) {
            Decoding::Rejected(ErrorView::MalformedPacket)
        } else {
            match unprotected(self.keys, buf) {
                None => Decoding::Rejected(ErrorView::AuthFailed),
                Some(d) => match PktType::of_code(d.code) {
                    None => Decoding::Rejected(ErrorView::MalformedPacket),
                    Some(pkt_type) => if self.replay.is_fresh(d.pkt_num) {
                        Decoding::Packet { pkt_type, pkt_num: d.pkt_num, payload: d.payload }
                    } else {
                        Decoding::Rejected(ErrorView::Replayed(d.pkt_num))
                    },
                },
            }
        }
    }

    /// The state after the packet: its number counts as seen if it was accepted.
    pub open spec fn after(self, buf: Seq<u8>) -> DecoderState {
        match self.decoding(buf) {
            Decoding::Packet { pkt_num, .. } => DecoderState {
                replay: self.replay.accept(pkt_num),
                ..self
            },
            Decoding::Rejected(_) => self,
        }
    }
}

impl PacketDecoder {
    pub fn new(keys: PacketKeys) -> (d: Self)
        ensures
            d@ == DecoderState::new(keys),
    {
        PacketDecoder { keys, replay: ReplayWindow::new() }
    }

    /// Open a packet: its type, its number and its payload.
    pub fn decode(&mut self, buf: &[u8]) -> (r: Result<(PktType, u64, Vec<u8>), SeamError>)
        ensures
            final(self)@ == old(self)@.after(buf@),
            match r {
                Ok((pkt_type, pkt_num, payload)) => {
                    &&& old(self)@.decoding(buf@) == (Decoding::Packet {
                        pkt_type,
                        pkt_num,
                        payload: payload@,
                    })
                    &&& payload@.len() + PACKET_OVERHEAD == buf@.len() <= MAX_PACKET
                    &&& exists|session_id: u64|
                        buf@ == #[trigger] protected(
                            old(self)@.keys,
                            session_id,
                            pkt_type.code(),
                            pkt_num,
                            payload@,
                        )
                },
                Err(e) => old(self)@.decoding(buf@) == Decoding::Rejected(e@),
            },
    {
        if buf.len() < PACKET_OVERHEAD || buf.len() > MAX_PACKET {
            return Err(SeamError::MalformedPacket);
        }
        let (code, _session_id, pkt_num, payload) = match unprotect(&self.keys, buf) {
            Some(fields) => fields,
            None => {
                return Err(SeamError::AuthFailed);
            },
        };
        let pkt_type = match PktType::from_code(code) {
            Some(pkt_type) => pkt_type,
            None => {
                return Err(SeamError::MalformedPacket);
            },
        };
        if !self.replay.accept(pkt_num) {
            return Err(SeamError::Replayed(pkt_num));
        }
        assert(pkt_type.code() == code);
        Ok((pkt_type, pkt_num, payload))
    }
}

/// A packet that was accepted once is rejected from then on.
pub proof fn replayed_packet_is_rejected(d: DecoderState, buf: Seq<u8>)
    requires
        d.decoding(buf) is Packet,
    ensures
        d.after(buf).decoding(buf) == Decoding::Rejected(
            ErrorView::Replayed(d.decoding(buf)->pkt_num),
        ),
{
}

} // verus!
