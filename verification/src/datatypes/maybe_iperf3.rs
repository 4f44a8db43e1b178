//! A streaming filter that heuristically accepts connections that look like iperf3 traffic
//! on [`IPERF3_PORT`], the default for both its TCP control/data channel and its UDP data
//! channel.
//!
//! It has two independent paths, of very different strength:
//!
//! - UDP: every test datagram's payload starts with a fixed 12-byte, big-endian header:
//!   seconds, microseconds, which are below one million, and a send-sequence counter that
//!   increases with each datagram sent. Both the check of each packet's microseconds and the
//!   check across packets that the counter increases must hold before a connection is
//!   accepted.
//! - TCP (best effort): payload bytes are random, so there is no byte-level signature. This
//!   path looks at flow shape: whether most of a connection's early payload-bearing packets
//!   are near-full-size segments, the pattern that a sustained bulk send produces.

use crate::conntrack::pdu::{L4Pdu, UDP_PROTOCOL};
use crate::conntrack::tcp::TCP_PROTOCOL;
use crate::datatypes::heuristic::{decide_vote, is_fraction, reaches_fraction, vote};
use crate::subscription::{FilterResult, StreamingFilter};
use crate::wire::{be32, read_be32};
use vstd::prelude::*;

verus! {

/// Port that iperf3 traffic is expected on.
pub const IPERF3_PORT: u16 = 5201;

/// Number of payload-bearing UDP packets inspected before making a decision.
pub const MAYBE_IPERF3_UDP_WINDOW: usize = 10;

/// Fraction of the first [`MAYBE_IPERF3_UDP_WINDOW`] payload-bearing UDP packets that must
/// carry a plausible header: this many in [`MAYBE_IPERF3_UDP_MIN_FRACTION_OF`].
pub const MAYBE_IPERF3_UDP_MIN_FRACTION: u8 = 4;

pub const MAYBE_IPERF3_UDP_MIN_FRACTION_OF: u8 = 5;

/// Minimum payload-bearing UDP packets needed to judge a connection that ended before
/// [`MAYBE_IPERF3_UDP_WINDOW`] was reached.
pub const MAYBE_IPERF3_UDP_MIN_PKTS: usize = 5;

/// Number of payload-bearing TCP packets inspected before making a decision.
pub const MAYBE_IPERF3_TCP_WINDOW: usize = 20;

/// Fraction of the first [`MAYBE_IPERF3_TCP_WINDOW`] payload-bearing TCP packets that must
/// be near-full-size segments: this many in [`MAYBE_IPERF3_TCP_MIN_FRACTION_OF`].
pub const MAYBE_IPERF3_TCP_MIN_FRACTION: u8 = 9;

pub const MAYBE_IPERF3_TCP_MIN_FRACTION_OF: u8 = 10;

/// Minimum payload-bearing TCP packets needed to judge a connection that ended before
/// [`MAYBE_IPERF3_TCP_WINDOW`] was reached.
pub const MAYBE_IPERF3_TCP_MIN_PKTS: usize = 10;

/// Minimum payload length in bytes for a TCP segment to count as near-full size.
pub const TCP_LARGE_SEGMENT_MIN: usize = 1400;

/// The payload has a header whose microseconds are below one million.
pub open spec fn plausible_usec(payload: Seq<u8>) -> bool {
    payload.len() >= 12 && be32(payload, 4) < 1_000_000
}

/// Checks that bytes 4 to 8 of `payload` look like microseconds within a second.
pub fn has_plausible_usec_field(payload: &[u8]) -> (b: bool)
    ensures
        b == plausible_usec(payload@),
{
    payload.len() >= 12 && read_be32(payload, 4) < 1_000_000
}

/// Reads the send-sequence counter from bytes 8 to 12 of `payload`.
pub fn seq_field(payload: &[u8]) -> (n: u32)
    requires
        payload@.len() >= 12,
    ensures
        n == be32(payload@, 8),
{
    read_be32(payload, 8)
}

/// The least number of packets that is the required fraction of a full UDP window.
pub open spec fn is_required_udp(n: int) -> bool {
    &&& is_fraction(
        n,
        MAYBE_IPERF3_UDP_WINDOW as int,
        MAYBE_IPERF3_UDP_MIN_FRACTION as int,
        MAYBE_IPERF3_UDP_MIN_FRACTION_OF as int,
    )
    &&& !is_fraction(
        n - 1,
        MAYBE_IPERF3_UDP_WINDOW as int,
        MAYBE_IPERF3_UDP_MIN_FRACTION as int,
        MAYBE_IPERF3_UDP_MIN_FRACTION_OF as int,
    )
}

/// The least number of packets that is the required fraction of a full TCP window.
pub open spec fn is_required_tcp(n: int) -> bool {
    &&& is_fraction(
        n,
        MAYBE_IPERF3_TCP_WINDOW as int,
        MAYBE_IPERF3_TCP_MIN_FRACTION as int,
        MAYBE_IPERF3_TCP_MIN_FRACTION_OF as int,
    )
    &&& !is_fraction(
        n - 1,
        MAYBE_IPERF3_TCP_WINDOW as int,
        MAYBE_IPERF3_TCP_MIN_FRACTION as int,
        MAYBE_IPERF3_TCP_MIN_FRACTION_OF as int,
    )
}

/// Number of matching packets required within a full UDP window.
pub fn required_udp_matches() -> (n: usize)
    ensures
        is_required_udp(n as int),
        n == 8,
{
    8
}

/// Number of matching packets required within a full TCP window.
pub fn required_tcp_matches() -> (n: usize)
    ensures
        is_required_tcp(n as int),
        n == 18,
{
    18
}

/// Accepts a connection on [`IPERF3_PORT`] once it looks like iperf3 traffic. Connections on
/// any other port are dropped immediately.
#[derive(Debug, Clone, Copy, PartialEq, Eq, Structural)]
pub struct MaybeIperf3 {
    /// The connection's transport protocol, set once from the first packet and never
    /// cleared: it identifies which of the two paths applies.
    pub l4_proto: usize,
    /// Payload-bearing packets inspected so far.
    pub seen: usize,
    /// Of those, how many matched the relevant path's check.
    pub matched: usize,
    /// UDP path only: the most recent matched packet's send-sequence value.
    pub last_seq: Option<u32>,
    /// UDP path only: true once a matched packet's send-sequence exceeded the previous
    /// matched packet's.
    pub increasing_seen: bool,
}

impl StreamingFilter for MaybeIperf3 {
    fn new(first_packet: &L4Pdu) -> (f: MaybeIperf3)
        ensures
            f == MaybeIperf3::fresh(first_packet.ctxt.proto),
    {
        MaybeIperf3 {
            l4_proto: first_packet.ctxt.proto,
            seen: 0,
            matched: 0,
            last_seq: None,
            increasing_seen: false,
        }
    }

    fn clear(&mut self)
        ensures
            *final(self) == MaybeIperf3::fresh(old(self).l4_proto),
    {
        self.seen = 0;
        self.matched = 0;
        self.last_seq = None;
        self.increasing_seen = false;
    }
}

impl MaybeIperf3 {
    /// Nothing seen yet.
    pub open spec fn fresh(l4_proto: usize) -> MaybeIperf3 {
        MaybeIperf3 { l4_proto, seen: 0, matched: 0, last_seq: None, increasing_seen: false }
    }

    /// No more packets matched than were seen.
    pub open spec fn wf(&self) -> bool {
        self.matched <= self.seen
    }

    /// There is room to count one more packet.
    pub open spec fn has_room(&self) -> bool {
        self.seen < usize::MAX - MAYBE_IPERF3_TCP_WINDOW
    }

    /// The counts after a UDP payload.
    pub open spec fn recorded_udp(self, data: Seq<u8>) -> MaybeIperf3 {
        if plausible_usec(data) {
            let seq = be32(data, 8) as u32;
            MaybeIperf3 {
                seen: (self.seen + 1) as usize,
                matched: (self.matched + 1) as usize,
                last_seq: Some(seq),
                increasing_seen: self.increasing_seen || match self.last_seq {
                    Some(prev) => seq > prev,
                    None => false,
                },
                ..self
            }
        } else {
            MaybeIperf3 { seen: (self.seen + 1) as usize, ..self }
        }
    }

    /// The counts after a TCP payload of `len` bytes.
    pub open spec fn recorded_tcp(self, len: usize) -> MaybeIperf3 {
        MaybeIperf3 {
            seen: (self.seen + 1) as usize,
            matched: if len >= TCP_LARGE_SEGMENT_MIN {
                (self.matched + 1) as usize
            } else {
                self.matched
            },
            ..self
        }
    }

    /// What the counts of the UDP path have come to.
    pub open spec fn verdict_udp(self) -> FilterResult {
        vote(
            self.matched as int,
            self.matched as int,
            self.seen as int,
            MAYBE_IPERF3_UDP_WINDOW as int,
            8,
            self.increasing_seen,
        )
    }

    /// What the counts of the TCP path have come to.
    pub open spec fn verdict_tcp(self) -> FilterResult {
        vote(
            self.matched as int,
            self.matched as int,
            self.seen as int,
            MAYBE_IPERF3_TCP_WINDOW as int,
            18,
            true,
        )
    }

    /// What the UDP path makes of a connection that ended.
    pub open spec fn final_verdict_udp(self) -> FilterResult {
        if self.seen >= MAYBE_IPERF3_UDP_MIN_PKTS && self.increasing_seen && is_fraction(
            self.matched as int,
            self.seen as int,
            MAYBE_IPERF3_UDP_MIN_FRACTION as int,
            MAYBE_IPERF3_UDP_MIN_FRACTION_OF as int,
        ) {
            FilterResult::Accept
        } else {
            FilterResult::Drop
        }
    }

    /// What the TCP path makes of a connection that ended.
    pub open spec fn final_verdict_tcp(self) -> FilterResult {
        if self.seen >= MAYBE_IPERF3_TCP_MIN_PKTS && is_fraction(
            self.matched as int,
            self.seen as int,
            MAYBE_IPERF3_TCP_MIN_FRACTION as int,
            MAYBE_IPERF3_TCP_MIN_FRACTION_OF as int,
        ) {
            FilterResult::Accept
        } else {
            FilterResult::Drop
        }
    }

    /// Updates counts of the UDP path from one payload.
    pub fn record_udp(&mut self, data: &[u8])
        requires
            old(self).wf() && old(self).has_room(),
        ensures
            final(self).wf(),
            *final(self) == old(self).recorded_udp(data@),
    {
        self.seen += 1;
        if !has_plausible_usec_field(data) {
            return;
        }
        self.matched += 1;
        let seq: u32 = seq_field(data);
        match self.last_seq {
            Some(prev) => {
                if seq > prev {
                    self.increasing_seen = true;
                }
            },
            None => {},
        }
        self.last_seq = Some(seq);
    }

    /// Resolves the current counts of the UDP path to a `FilterResult`.
    pub fn decide_udp(&self) -> (r: FilterResult)
        requires
            self.matched <= usize::MAX - MAYBE_IPERF3_UDP_WINDOW,
        ensures
            r == self.verdict_udp(),
    {
        decide_vote(
            self.matched,
            self.matched,
            self.seen,
            MAYBE_IPERF3_UDP_WINDOW,
            required_udp_matches(),
            self.increasing_seen,
        )
    }

    /// Reached only if the connection terminated before the UDP window filled. The fraction
    /// is applied to the packets actually observed, but only once there are enough of them
    /// to be meaningful.
    pub fn terminated_udp(&self) -> (r: FilterResult)
        ensures
            r == self.final_verdict_udp(),
    {
        if self.seen >= MAYBE_IPERF3_UDP_MIN_PKTS && self.increasing_seen && reaches_fraction(
            self.matched,
            self.seen,
            MAYBE_IPERF3_UDP_MIN_FRACTION,
            MAYBE_IPERF3_UDP_MIN_FRACTION_OF,
        ) {
            FilterResult::Accept
        } else {
            FilterResult::Drop
        }
    }

    /// Updates counts of the TCP path from one payload's length.
    pub fn record_tcp(&mut self, len: usize)
        requires
            old(self).wf() && old(self).has_room(),
        ensures
            final(self).wf(),
            *final(self) == old(self).recorded_tcp(len),
    {
        self.seen += 1;
        if len >= TCP_LARGE_SEGMENT_MIN {
            self.matched += 1;
        }
    }

    /// Resolves the current counts of the TCP path to a `FilterResult`.
    pub fn decide_tcp(&self) -> (r: FilterResult)
        requires
            self.matched <= usize::MAX - MAYBE_IPERF3_TCP_WINDOW,
        ensures
            r == self.verdict_tcp(),
    {
        decide_vote(
            self.matched,
            self.matched,
            self.seen,
            MAYBE_IPERF3_TCP_WINDOW,
            required_tcp_matches(),
            true,
        )
    }

    /// Reached only if the connection terminated before the TCP window filled. The fraction
    /// is applied to the packets actually observed, but only once there are enough of them
    /// to be meaningful.
    pub fn terminated_tcp(&self) -> (r: FilterResult)
        ensures
            r == self.final_verdict_tcp(),
    {
        if self.seen >= MAYBE_IPERF3_TCP_MIN_PKTS && reaches_fraction(
            self.matched,
            self.seen,
            MAYBE_IPERF3_TCP_MIN_FRACTION,
            MAYBE_IPERF3_TCP_MIN_FRACTION_OF,
        ) {
            FilterResult::Accept
        } else {
            FilterResult::Drop
        }
    }

    /// Follows a packet. A UDP packet whose payload cannot be read is not counted. Packets
    /// without payload, such as pure acknowledgments, do not dilute the evidence.
    pub fn update(&mut self, pdu: &L4Pdu) -> (r: FilterResult)
        requires
            old(self).wf() && old(self).has_room(),
        ensures
            final(self).wf(),
            if (pdu.ctxt.proto != UDP_PROTOCOL && pdu.ctxt.proto != TCP_PROTOCOL) || (
            pdu.ctxt.src.port != IPERF3_PORT && pdu.ctxt.dst.port != IPERF3_PORT) {
                r == FilterResult::Drop && *final(self) == *old(self)
            } else if pdu.ctxt.length == 0 {
                r == FilterResult::Continue && *final(self) == *old(self)
            } else if pdu.ctxt.proto == UDP_PROTOCOL {
                &&& *final(self) == (match pdu.payload() {
                    Some(data) => old(self).recorded_udp(data),
                    None => *old(self),
                })
                &&& r == final(self).verdict_udp()
            } else {
                &&& *final(self) == old(self).recorded_tcp(pdu.ctxt.length)
                &&& r == final(self).verdict_tcp()
            },
    {
        let proto: usize = pdu.ctxt.proto;
        if proto != UDP_PROTOCOL && proto != TCP_PROTOCOL {
            return FilterResult::Drop;
        }
        if pdu.ctxt.src.port != IPERF3_PORT && pdu.ctxt.dst.port != IPERF3_PORT {
            return FilterResult::Drop;
        }
        if pdu.length() == 0 {
            return FilterResult::Continue;
        }
        if proto == UDP_PROTOCOL {
            match pdu.mbuf_ref().get_data_slice(pdu.offset(), pdu.length()) {
                Ok(data) => {
                    self.record_udp(data);
                },
                Err(_) => {},
            }
            self.decide_udp()
        } else {
            self.record_tcp(pdu.length());
            self.decide_tcp()
        }
    }

    /// The verdict on a connection that ended, by the path of its transport protocol.
    pub fn terminated(&self) -> (r: FilterResult)
        ensures
            r == (if self.l4_proto == UDP_PROTOCOL {
                self.final_verdict_udp()
            } else if self.l4_proto == TCP_PROTOCOL {
                self.final_verdict_tcp()
            } else {
                FilterResult::Drop
            }),
    {
        if self.l4_proto == UDP_PROTOCOL {
            self.terminated_udp()
        } else if self.l4_proto == TCP_PROTOCOL {
            self.terminated_tcp()
        } else {
            FilterResult::Drop
        }
    }
}

/// A send-sequence counter that never increases is never accepted, however many packets
/// carry a plausible header.
pub proof fn law_constant_counter_is_never_accepted(f: MaybeIperf3, data: Seq<u8>)
    requires
        !f.increasing_seen,
        f.last_seq is Some ==> be32(data, 8) as u32 <= f.last_seq->0,
    ensures
        !f.recorded_udp(data).increasing_seen,
        f.verdict_udp() != FilterResult::Accept,
        f.final_verdict_udp() == FilterResult::Drop,
{
}

} // verus!
