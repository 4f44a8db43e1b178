//! A streaming filter that heuristically accepts connections that look like QUIC: on an
//! expected port, not clearly another protocol, and initial packets with (potential) QUIC
//! short headers.
//!
//! The first byte of a QUIC short header starts with bits `01`: header form 0, fixed bit 1.
//! Header protection masks only the low five bits of that byte, so the top two are directly
//! observable and the low five are pseudorandom per packet, which the entropy check relies
//! on.
//!
//! Three shapes count as evidence of QUIC (see [`Shape`]). What filters non-QUIC traffic is:
//! requiring at least one unambiguous packet before anything is credited; requiring
//! [`MAYBE_QUIC_MIN_DISTINCT_LOW5`] distinct values of the low five bits across the matched
//! packets, or one recognized long header in place of that; and the window, fraction, and
//! packet floor below. Greasing flips only the fixed bit, never the low five, so greased
//! packets are counted toward the entropy check too.

use crate::conntrack::pdu::{L4Pdu, UDP_PROTOCOL};
use crate::datatypes::heuristic::{decide_vote, is_fraction, reaches_fraction, vote};
use crate::protocols::quic::{is_quic_version, QuicVersion};
use crate::protocols::SessionProto;
use crate::subscription::{FilterResult, StreamingFilter};
use crate::wire::{be32, read_be32};
use vstd::prelude::*;

verus! {

/// Number of payload-bearing packets inspected before making a decision.
pub const MAYBE_QUIC_WINDOW: usize = 12;

/// Fraction of the first [`MAYBE_QUIC_WINDOW`] payload-bearing packets that must look like
/// QUIC headers for the connection to be accepted: this many in
/// [`MAYBE_QUIC_MIN_FRACTION_OF`]. The slack tolerates one stray packet.
pub const MAYBE_QUIC_MIN_FRACTION: u8 = 9;

pub const MAYBE_QUIC_MIN_FRACTION_OF: u8 = 10;

/// Minimum payload-bearing packets needed to judge a connection that ended before
/// [`MAYBE_QUIC_WINDOW`] was reached. Shorter connections carry too little evidence to
/// classify and are dropped.
pub const MAYBE_QUIC_MIN_PKTS: usize = 11;

/// Ports that QUIC is expected on: HTTP/3, DNS over QUIC, the interoperability test port,
/// and the alternative HTTP/3 port. A connection on any other port is dropped without
/// inspection.
pub const QUIC_PORTS: [u16; 4] = [443, 853, 4433, 8443];

/// Smallest datagram that can carry a 1-RTT packet: one header byte, a zero-length
/// destination connection ID, and the four packet-number bytes plus 16-byte sample that
/// header protection needs.
pub const MIN_1RTT_DATAGRAM_LEN: usize = 21;

/// Distinct values of a matched packet's low five header bits required before those packets
/// are credited.
pub const MAYBE_QUIC_MIN_DISTINCT_LOW5: usize = 5;

/// Number of matching packets required within a full window of [`MAYBE_QUIC_WINDOW`] packets
/// to meet [`MAYBE_QUIC_MIN_FRACTION`].
pub const MAYBE_QUIC_REQUIRED_MATCHES: usize = 11;

/// The required number of matches is the least that is the required fraction of a full
/// window.
pub proof fn law_required_matches_derive_from_the_fraction()
    ensures
        is_fraction(
            MAYBE_QUIC_REQUIRED_MATCHES as int,
            MAYBE_QUIC_WINDOW as int,
            MAYBE_QUIC_MIN_FRACTION as int,
            MAYBE_QUIC_MIN_FRACTION_OF as int,
        ),
        !is_fraction(
            MAYBE_QUIC_REQUIRED_MATCHES - 1,
            MAYBE_QUIC_WINDOW as int,
            MAYBE_QUIC_MIN_FRACTION as int,
            MAYBE_QUIC_MIN_FRACTION_OF as int,
        ),
{
}

/// QUIC is expected on the port.
pub open spec fn on_quic_port(port: u16) -> bool {
    QUIC_PORTS@.contains(port)
}

pub fn is_quic_port(port: u16) -> (b: bool)
    ensures
        b == on_quic_port(port),
{
    let ports: [u16; 4] = QUIC_PORTS;
    let mut i: usize = 0;
    while i < 4
        invariant
            i <= 4,
            ports@ == QUIC_PORTS@,
            forall|j: int| 0 <= j < i ==> ports@[j] != port,
        decreases 4 - i,
    {
        if ports[i] == port {
            assert(ports@.contains(ports@[i as int]));
            return true;
        }
        i = i + 1;
    }
    false
}

/// How a datagram classifies against the QUIC packet headers.
#[derive(Debug, Clone, Copy, PartialEq, Eq, Structural)]
pub enum Shape {
    /// Short header with the fixed bit set: `01` in the top two bits.
    ShortHeader,
    /// Long header carrying a recognized version. The fixed bit is not checked here: it may
    /// be greased too.
    LongHeader,
    /// Short form with the fixed bit cleared, large enough to be a 1-RTT packet: a possible
    /// greased packet. Only credible in a connection that has also shown one of the others.
    GreasedShortHeader,
    /// Nothing that looks like QUIC.
    Other,
}

/// The shape of a datagram's payload. Version negotiation is no evidence: it is a shape that
/// other binary formats hit by accident.
pub open spec fn shape_of(payload: Seq<u8>) -> Shape {
    if payload.len() == 0 {
        Shape::Other
    } else if payload[0] >= 0x80 {
        if payload.len() >= 5 && be32(payload, 1) != 0 && QuicVersion::of(
            be32(payload, 1) as u32,
        ) != QuicVersion::Unknown {
            Shape::LongHeader
        } else {
            Shape::Other
        }
    } else if payload[0] >= 0x40 {
        Shape::ShortHeader
    } else if payload.len() >= MIN_1RTT_DATAGRAM_LEN {
        Shape::GreasedShortHeader
    } else {
        Shape::Other
    }
}

/// Classifies one datagram's payload by its first byte and length.
pub fn classify(payload: &[u8]) -> (s: Shape)
    ensures
        s == shape_of(payload@),
{
    if payload.len() == 0 {
        return Shape::Other;
    }
    let first: u8 = payload[0];
    if first >= 0x80 {
        if payload.len() < 5 {
            return Shape::Other;
        }
        let version: u32 = read_be32(payload, 1);
        if version != 0 && is_quic_version(version) {
            Shape::LongHeader
        } else {
            Shape::Other
        }
    } else if first >= 0x40 {
        Shape::ShortHeader
    } else if payload.len() >= MIN_1RTT_DATAGRAM_LEN {
        Shape::GreasedShortHeader
    } else {
        Shape::Other
    }
}

/// Bit `v` of a set of small numbers.
pub open spec fn has_bit(set: u32, v: u32) -> bool {
    set & (1u32 << v) != 0
}

/// How many of the numbers below `n` are in a set.
pub open spec fn members_below(set: u32, n: u32) -> nat
    decreases n,
{
    if n == 0 {
        0
    } else {
        members_below(set, (n - 1) as u32) + if has_bit(set, (n - 1) as u32) {
            1nat
        } else {
            0
        }
    }
}

/// How many numbers are in a set.
pub open spec fn members(set: u32) -> nat {
    members_below(set, 32)
}

/// A set with one more number.
pub open spec fn with_bit(set: u32, v: u32) -> u32 {
    set | (1u32 << v)
}

/// A set with one more number has that number and those it had before, and no others.
pub proof fn law_sets_grow_by_one_number(set: u32, v: u32, w: u32)
    requires
        v < 32,
        w < 32,
    ensures
        has_bit(with_bit(set, v), w) <==> w == v || has_bit(set, w),
{
    assert(((set | (1u32 << v)) & (1u32 << w) != 0) <==> (w == v || set & (1u32 << w) != 0))
        by (bit_vector)
        requires
            v < 32,
            w < 32,
    ;
}

fn count_members(set: u32) -> (n: usize)
    ensures
        n == members(set),
{
    let mut n: usize = 0;
    let mut i: u32 = 0;
    while i < 32
        invariant
            i <= 32,
            n == members_below(set, i),
            n <= i,
        decreases 32 - i,
    {
        if set & (1u32 << i) != 0 {
            n = n + 1;
        }
        i = i + 1;
    }
    n
}

/// Accepts a connection once at least 9 in 10 of its first [`MAYBE_QUIC_WINDOW`]
/// payload-bearing packets (UDP, on one of [`QUIC_PORTS`]) look like QUIC packet headers, and
/// those matches carry enough header entropy. Non-UDP or non-QUIC-port connections are
/// dropped immediately.
#[derive(Debug, Clone, Copy, PartialEq, Eq, Structural)]
pub struct MaybeQuic {
    /// Payload-bearing packets inspected so far.
    pub seen: usize,
    /// Of those, how many were unambiguously QUIC-shaped: a short header with the fixed bit
    /// set, or a long header with a recognized version.
    pub quic_like: usize,
    /// Of those, how many were fixed-bit-clear short-form datagrams big enough to be greased
    /// 1-RTT packets. Credited only if `quic_like` is nonzero.
    pub greased: usize,
    /// Bit `v` is set once some short-form matched packet had the low five bits `v`.
    pub low5_seen: u32,
    /// True once a long header has been seen. A version match is stronger evidence than the
    /// entropy check, so it satisfies that check outright.
    pub saw_long_header: bool,
}

impl StreamingFilter for MaybeQuic {
    fn new(_first_packet: &L4Pdu) -> (f: MaybeQuic)
        ensures
            f == MaybeQuic::fresh(),
    {
        MaybeQuic { seen: 0, quic_like: 0, greased: 0, low5_seen: 0, saw_long_header: false }
    }

    fn clear(&mut self)
        ensures
            *final(self) == MaybeQuic::fresh(),
    {
        self.seen = 0;
        self.quic_like = 0;
        self.greased = 0;
        self.low5_seen = 0;
        self.saw_long_header = false;
    }
}

impl MaybeQuic {
    /// Nothing seen yet.
    pub open spec fn fresh() -> MaybeQuic {
        MaybeQuic { seen: 0, quic_like: 0, greased: 0, low5_seen: 0, saw_long_header: false }
    }

    /// No more packets matched than were seen.
    pub open spec fn wf(&self) -> bool {
        self.quic_like + self.greased <= self.seen
    }

    /// There is room to count one more packet.
    pub open spec fn has_room(&self) -> bool {
        self.seen < usize::MAX - MAYBE_QUIC_WINDOW
    }

    /// The counts after a payload.
    pub open spec fn recorded(self, data: Seq<u8>) -> MaybeQuic {
        let seen = (self.seen + 1) as usize;
        match shape_of(data) {
            Shape::ShortHeader => MaybeQuic {
                seen,
                quic_like: (self.quic_like + 1) as usize,
                low5_seen: with_bit(self.low5_seen, (data[0] % 32) as u32),
                ..self
            },
            Shape::LongHeader => MaybeQuic {
                seen,
                quic_like: (self.quic_like + 1) as usize,
                saw_long_header: true,
                ..self
            },
            Shape::GreasedShortHeader => MaybeQuic {
                seen,
                greased: (self.greased + 1) as usize,
                low5_seen: with_bit(self.low5_seen, (data[0] % 32) as u32),
                ..self
            },
            Shape::Other => MaybeQuic { seen, ..self },
        }
    }

    /// Packets credited as QUIC.
    pub open spec fn credited(self) -> int {
        if self.quic_like == 0 {
            0
        } else {
            self.quic_like + self.greased
        }
    }

    /// The matched packets carry enough header entropy to trust.
    pub open spec fn entropy_ok(self) -> bool {
        self.saw_long_header || members(self.low5_seen) >= MAYBE_QUIC_MIN_DISTINCT_LOW5
    }

    /// What the counts have come to. Greased packets already seen become creditable the
    /// moment one unambiguous packet arrives, so they are within reach.
    pub open spec fn verdict(self) -> FilterResult {
        vote(
            self.credited(),
            self.quic_like + self.greased,
            self.seen as int,
            MAYBE_QUIC_WINDOW as int,
            MAYBE_QUIC_REQUIRED_MATCHES as int,
            self.entropy_ok(),
        )
    }

    /// Updates counts from one payload.
    pub fn record(&mut self, data: &[u8])
        requires
            old(self).wf() && old(self).has_room(),
        ensures
            final(self).wf(),
            *final(self) == old(self).recorded(data@),
    {
        self.seen += 1;
        match classify(data) {
            Shape::ShortHeader => {
                self.quic_like += 1;
                self.low5_seen = self.low5_seen | (1u32 << ((data[0] % 32) as u32));
            },
            Shape::LongHeader => {
                self.quic_like += 1;
                self.saw_long_header = true;
            },
            Shape::GreasedShortHeader => {
                self.greased += 1;
                self.low5_seen = self.low5_seen | (1u32 << ((data[0] % 32) as u32));
            },
            Shape::Other => {},
        }
    }

    /// Packets credited as QUIC. Greased packets count only once the connection has
    /// independently shown a real QUIC packet.
    pub fn matches(&self) -> (n: usize)
        requires
            self.wf(),
        ensures
            n == self.credited(),
    {
        if self.quic_like == 0 {
            0
        } else {
            self.quic_like + self.greased
        }
    }

    /// Upper bound on [`MaybeQuic::matches`] for the packets seen so far.
    pub fn reachable_matches(&self) -> (n: usize)
        requires
            self.wf(),
        ensures
            n == self.quic_like + self.greased,
    {
        self.quic_like + self.greased
    }

    /// True once the matched packets carry enough header entropy to trust:
    /// [`MAYBE_QUIC_MIN_DISTINCT_LOW5`] distinct values of the low five bits, or a recognized
    /// long header on its own.
    pub fn header_entropy_ok(&self) -> (b: bool)
        ensures
            b == self.entropy_ok(),
    {
        self.saw_long_header || count_members(self.low5_seen) >= MAYBE_QUIC_MIN_DISTINCT_LOW5
    }

    /// Resolves the current counts to a `FilterResult`.
    pub fn decide(&self) -> (r: FilterResult)
        requires
            self.wf(),
            self.seen <= usize::MAX - MAYBE_QUIC_WINDOW,
        ensures
            r == self.verdict(),
    {
        decide_vote(
            self.matches(),
            self.reachable_matches(),
            self.seen,
            MAYBE_QUIC_WINDOW,
            MAYBE_QUIC_REQUIRED_MATCHES,
            self.header_entropy_ok(),
        )
    }

    /// Follows a packet. A packet whose payload cannot be read is not counted.
    pub fn update(&mut self, pdu: &L4Pdu) -> (r: FilterResult)
        requires
            old(self).wf() && old(self).has_room(),
        ensures
            final(self).wf(),
            if pdu.ctxt.proto != UDP_PROTOCOL || !(on_quic_port(pdu.ctxt.src.port)
                || on_quic_port(pdu.ctxt.dst.port)) {
                r == FilterResult::Drop && *final(self) == *old(self)
            } else if pdu.ctxt.length == 0 {
                r == FilterResult::Continue && *final(self) == *old(self)
            } else {
                &&& *final(self) == (match pdu.payload() {
                    Some(data) => old(self).recorded(data),
                    None => *old(self),
                })
                &&& r == final(self).verdict()
            },
    {
        if pdu.ctxt.proto != UDP_PROTOCOL || !(is_quic_port(pdu.ctxt.src.port) || is_quic_port(
            pdu.ctxt.dst.port,
        )) {
            return FilterResult::Drop;
        }
        if pdu.length() == 0 {
            return FilterResult::Continue;
        }
        match pdu.mbuf_ref().get_data_slice(pdu.offset(), pdu.length()) {
            Ok(data) => {
                self.record(data);
            },
            Err(_) => {},
        }
        self.decide()
    }

    /// Vetoes the connection once a parser has identified it, so that only what the parsers
    /// missed is reported.
    pub fn unclaimed(&self, proto: &SessionProto) -> (r: FilterResult)
        ensures
            r == (if proto.claimed() {
                FilterResult::Drop
            } else {
                FilterResult::Continue
            }),
    {
        if proto.is_claimed() {
            FilterResult::Drop
        } else {
            FilterResult::Continue
        }
    }

    /// Reached only if the connection terminated before the window filled. The fraction is
    /// applied to the packets actually observed, but only once there are enough of them to
    /// be meaningful.
    pub fn terminated(&self) -> (r: FilterResult)
        requires
            self.wf(),
        ensures
            r == (if self.seen >= MAYBE_QUIC_MIN_PKTS && self.entropy_ok() && is_fraction(
                self.credited(),
                self.seen as int,
                MAYBE_QUIC_MIN_FRACTION as int,
                MAYBE_QUIC_MIN_FRACTION_OF as int,
            ) {
                FilterResult::Accept
            } else {
                FilterResult::Drop
            }),
    {
        if self.seen >= MAYBE_QUIC_MIN_PKTS && self.header_entropy_ok() && reaches_fraction(
            self.matches(),
            self.seen,
            MAYBE_QUIC_MIN_FRACTION,
            MAYBE_QUIC_MIN_FRACTION_OF,
        ) {
            FilterResult::Accept
        } else {
            FilterResult::Drop
        }
    }
}

/// Nothing is accepted before the connection has shown an unambiguous QUIC packet.
pub proof fn law_greased_packets_alone_are_no_evidence(f: MaybeQuic)
    requires
        f.quic_like == 0,
    ensures
        f.credited() == 0,
        f.verdict() != FilterResult::Accept,
{
}

} // verus!
