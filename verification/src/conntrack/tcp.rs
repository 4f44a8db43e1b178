//! TCP header constants.

use vstd::prelude::*;

verus! {

/// Transport protocol number of TCP.
pub const TCP_PROTOCOL: usize = 6;

pub const FIN: u8 = 0b0000_0001;

pub const SYN: u8 = 0b0000_0010;

pub const RST: u8 = 0b0000_0100;

pub const PSH: u8 = 0b0000_1000;

pub const ACK: u8 = 0b0001_0000;

/// The flags of a SYN that acknowledges a SYN.
pub open spec fn is_synack(flags: u8) -> bool {
    flags & SYN != 0 && flags & ACK != 0
}

} // verus!
