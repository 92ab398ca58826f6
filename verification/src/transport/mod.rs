//! Connections, endpoints and session resumption.

pub mod connection;
pub mod endpoint;
pub mod fec;
pub mod laws;
pub mod pacer;
pub mod resumption;

pub use connection::{ConnPhase, Connection};
pub use endpoint::{EndpointAction, EndpointTable, ServerTable};
pub use pacer::Pacer;
pub use resumption::{SessionTicket, TicketKey, WEAKER_FS_WARNING};

use crate::text::same_text;
use vstd::prelude::*;

verus! {

/// The congestion controllers to choose from.
#[derive(Debug, Clone, Copy, PartialEq, Eq, Structural)]
pub enum CongestionKind {
    Bbr,
    Cubic,
}

/// The default congestion controller, respecting the value of the `SEAM_CC`
/// setting (`bbr` or `cubic`).
pub fn default_cc(setting: Option<&str>) -> (kind: CongestionKind)
    ensures
        kind == CongestionKind::Bbr <==> (match setting {
            Some(name) => name@ == "bbr"@,
            None => false,
        }),
{
    match setting {
        Some(name) => {
            if same_text(name, "bbr") {
                CongestionKind::Bbr
            } else {
                CongestionKind::Cubic
            }
        },
        None => CongestionKind::Cubic,
    }
}

} // verus!
