//! The errors of the protocol core.

use vstd::prelude::*;

verus! {

/// Everything that can go wrong in a session, a handshake or a ticket.
#[derive(Debug)]
pub enum SeamError {
    /// The window has `available` bytes of credit left; `requested` were asked for.
    FlowControlBlocked { available: u64, requested: u64 },
    /// Data was written to a stream whose sending side is finished.
    StreamFinished(u32),
    /// No stream has this id.
    UnknownStream(u32),
    /// The handshake cannot go on.
    HandshakeFailed(String),
    /// Authenticated decryption failed.
    AuthFailed,
    /// `need` bytes do not fit into `have`.
    BufferTooSmall { need: usize, have: usize },
    /// The peer broke a rule of the protocol.
    ProtocolViolation(String),
    /// The packet is too short or has an unknown type.
    MalformedPacket,
    /// The packet number was already seen, or is too old to tell.
    Replayed(u64),
    /// Every packet number of the session has been used.
    PacketNumbersExhausted,
    /// The session has as many streams as it may have.
    StreamLimitExceeded(u32),
    /// Every id for streams of this side has been used.
    StreamIdsExhausted,
}

/// What a [`SeamError`] stands for.
#[verifier::ext_equal]
pub enum ErrorView {
    FlowControlBlocked { available: u64, requested: u64 },
    StreamFinished(u32),
    UnknownStream(u32),
    HandshakeFailed(Seq<char>),
    AuthFailed,
    BufferTooSmall { need: usize, have: usize },
    ProtocolViolation(Seq<char>),
    MalformedPacket,
    Replayed(u64),
    PacketNumbersExhausted,
    StreamLimitExceeded(u32),
    StreamIdsExhausted,
}

impl View for SeamError {
    type V = ErrorView;

    open spec fn view(&self) -> ErrorView {
        match *self {
            SeamError::FlowControlBlocked { available, requested } => {
                ErrorView::FlowControlBlocked { available, requested }
            },
            SeamError::StreamFinished(id) => ErrorView::StreamFinished(id),
            SeamError::UnknownStream(id) => ErrorView::UnknownStream(id),
            SeamError::HandshakeFailed(reason) => ErrorView::HandshakeFailed(reason@),
            SeamError::AuthFailed => ErrorView::AuthFailed,
            SeamError::BufferTooSmall { need, have } => ErrorView::BufferTooSmall { need, have },
            SeamError::ProtocolViolation(reason) => ErrorView::ProtocolViolation(reason@),
            SeamError::MalformedPacket => ErrorView::MalformedPacket,
            SeamError::Replayed(n) => ErrorView::Replayed(n),
            SeamError::PacketNumbersExhausted => ErrorView::PacketNumbersExhausted,
            SeamError::StreamLimitExceeded(limit) => ErrorView::StreamLimitExceeded(limit),
            SeamError::StreamIdsExhausted => ErrorView::StreamIdsExhausted,
        }
    }
}

/// A handshake failure with the given reason.
pub fn handshake_failed(reason: &str) -> (e: SeamError)
    ensures
        e@ == ErrorView::HandshakeFailed(reason@),
{
    SeamError::HandshakeFailed(reason.to_owned())
}

} // verus!
