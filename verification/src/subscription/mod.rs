//! What subscriptions ask for and how their state is kept on a connection.

pub mod callback;
pub mod data;

use crate::conntrack::pdu::{l4_context, L4Context, L4Pdu, Mbuf, UDP_PROTOCOL};
use crate::conntrack::tcp::TCP_PROTOCOL;
use vstd::prelude::*;

verus! {

/// What a filter function makes of a connection.
#[derive(Debug, Clone, Copy, PartialEq, Eq, Hash, Structural)]
pub enum FilterResult {
    /// Undecided: go on.
    Continue,
    /// The connection does not match.
    Drop,
    /// The connection matches.
    Accept,
}

/// A filter that is kept on a connection and decides from what it has seen there.
pub trait StreamingFilter: Sized {
    /// Initializes internal data on the first packet in a connection.
    fn new(first_packet: &L4Pdu) -> Self;

    /// Clears internal data.
    fn clear(&mut self);
}

/// Packets and bytes per transport protocol.
#[derive(Debug, Clone, Copy, PartialEq, Eq, Structural)]
pub struct TransportCounts {
    pub tcp_pkt: u64,
    pub tcp_byte: u64,
    pub udp_pkt: u64,
    pub udp_byte: u64,
}

impl TransportCounts {
    /// There is room to count a packet of `len` bytes.
    pub open spec fn has_room(&self, len: int) -> bool {
        &&& self.tcp_pkt < u64::MAX
        &&& self.udp_pkt < u64::MAX
        &&& self.tcp_byte + len <= u64::MAX
        &&& self.udp_byte + len <= u64::MAX
    }

    /// The counts after a packet of `len` bytes.
    pub open spec fn after(self, proto: usize, len: int) -> TransportCounts {
        if proto == TCP_PROTOCOL {
            TransportCounts {
                tcp_pkt: (self.tcp_pkt + 1) as u64,
                tcp_byte: (self.tcp_byte + len) as u64,
                ..self
            }
        } else if proto == UDP_PROTOCOL {
            TransportCounts {
                udp_pkt: (self.udp_pkt + 1) as u64,
                udp_byte: (self.udp_byte + len) as u64,
                ..self
            }
        } else {
            self
        }
    }

    /// Counts a packet. Returns its transport-layer context, with which it goes to the
    /// connection tracker; a packet without one goes no further.
    pub fn process_packet(&mut self, mbuf: &Mbuf) -> (r: Option<L4Context>)
        requires
            old(self).has_room(mbuf@.len() as int),
        ensures
            match l4_context(mbuf@) {
                Ok(ctxt) => r == Some(ctxt) && *final(self) == old(self).after(
                    ctxt.proto,
                    mbuf@.len() as int,
                ),
                Err(_) => r is None && *final(self) == *old(self),
            },
    {
        match L4Context::new(mbuf) {
            Ok(ctxt) => {
                let len: u64 = mbuf.data_len() as u64;
                if ctxt.proto == TCP_PROTOCOL {
                    self.tcp_pkt += 1;
                    self.tcp_byte += len;
                } else if ctxt.proto == UDP_PROTOCOL {
                    self.udp_pkt += 1;
                    self.udp_byte += len;
                }
                Some(ctxt)
            },
            Err(_) => None,
        }
    }
}

} // verus!
