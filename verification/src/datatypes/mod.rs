//! Datatypes that can be subscribed to.

pub mod conn_fts;
pub mod cryptopan;
pub mod heuristic;
pub mod maybe_iperf3;
pub mod maybe_quic;
pub mod maybe_tls;
pub mod maybe_zoom;
pub mod measures;
pub mod ranges;
pub mod reassembly_stats;
pub mod recognition;
pub mod sessions;
pub mod tcp_fts;

use crate::conntrack::pdu::L4Pdu;
use crate::protocols::Session;
use vstd::prelude::*;

verus! {

/// A datatype that is made of a parsed session. It is delivered once the session's headers
/// are complete.
pub trait FromSession: Sized {
    /// The session, or `None` if it is of another protocol. Called when the session is fully
    /// matched, parsed, and ready to be delivered to a callback.
    fn from_session(session: &Session) -> Option<&Self>;
}

/// A datatype that is constant throughout a connection and can be told from its first
/// packet.
pub trait StaticData: Sized {
    fn new(first_pkt: &L4Pdu) -> Self;
}

} // verus!
