//! Packet types.

use vstd::prelude::*;

verus! {

/// What a packet carries.
#[derive(Clone, Copy, Debug, PartialEq, Eq, Structural)]
pub enum PktType {
    Data,
    Ack,
    MaxData,
    Ping,
    Pong,
    SessionTicket,
    Close,
    Datagram,
    Chaff,
    PathProbe,
}

impl PktType {
    /// The byte that stands for the type on the wire.
    pub open spec fn code(self) -> u8 {
        match self {
            PktType::Data => 0,
            PktType::Ack => 1,
            PktType::MaxData => 2,
            PktType::Ping => 3,
            PktType::Pong => 4,
            PktType::SessionTicket => 5,
            PktType::Close => 6,
            PktType::Datagram => 7,
            PktType::Chaff => 8,
            PktType::PathProbe => 9,
        }
    }

    /// The type that a byte stands for.
    pub open spec fn of_code(code: u8) -> Option<PktType> {
        if exists|t: PktType| #[trigger] t.code() == code {
            Some(choose|t: PktType| #[trigger] t.code() == code)
        } else {
            None
        }
    }

    /// The byte that stands for the type on the wire.
    pub fn to_code(self) -> (code: u8)
        ensures
            code == self.code(),
    {
        match self {
            PktType::Data => 0,
            PktType::Ack => 1,
            PktType::MaxData => 2,
            PktType::Ping => 3,
            PktType::Pong => 4,
            PktType::SessionTicket => 5,
            PktType::Close => 6,
            PktType::Datagram => 7,
            PktType::Chaff => 8,
            PktType::PathProbe => 9,
        }
    }

    /// The type that a byte stands for.
    pub fn from_code(code: u8) -> (t: Option<PktType>)
        ensures
            t == PktType::of_code(code),
    {
        let t = match code {
            0 => PktType::Data,
            1 => PktType::Ack,
            2 => PktType::MaxData,
            3 => PktType::Ping,
            4 => PktType::Pong,
            5 => PktType::SessionTicket,
            6 => PktType::Close,
            7 => PktType::Datagram,
            8 => PktType::Chaff,
            9 => PktType::PathProbe,
            _ => {
                return None;
            },
        };
        proof {
            code_round_trip(t);
        }
        Some(t)
    }

    /// The receiver owes an acknowledgement for a packet of this type.
    pub open spec fn elicits_ack(self) -> bool {
        match self {
            PktType::Ack
            | PktType::Chaff
            | PktType::PathProbe
            | PktType::MaxData
            | PktType::Pong => false,
            _ => true,
        }
    }

    /// Acknowledgements, window updates, pongs, chaff and path probes are not
    /// acknowledged: that would never end.
    pub fn is_ack_eliciting(self) -> (yes: bool)
        ensures
            yes == self.elicits_ack(),
    {
        match self {
            PktType::Ack
            | PktType::Chaff
            | PktType::PathProbe
            | PktType::MaxData
            | PktType::Pong => false,
            _ => true,
        }
    }
}

/// A type's code stands for that type and no other.
pub proof fn code_round_trip(t: PktType)
    ensures
        PktType::of_code(t.code()) == Some(t),
{
    let other = choose|other: PktType| #[trigger] other.code() == t.code();
    assert(other.code() == t.code());
}

} // verus!
