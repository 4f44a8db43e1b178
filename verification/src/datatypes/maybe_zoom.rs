//! A streaming filter that heuristically accepts connections that look like Zoom: on a UDP
//! port from [`ZOOM_PORT_MIN`] to [`ZOOM_PORT_MAX`], with initial packets whose first byte
//! matches one of Zoom's observed payload-type markers.

use crate::conntrack::pdu::{L4Pdu, UDP_PROTOCOL};
use crate::datatypes::heuristic::{decide_vote, is_fraction, reaches_fraction, vote};
use crate::subscription::{FilterResult, StreamingFilter};
use vstd::prelude::*;

verus! {

/// Number of payload-bearing packets inspected before making a decision.
pub const MAYBE_ZOOM_WINDOW: usize = 30;

/// Fraction of the first [`MAYBE_ZOOM_WINDOW`] payload-bearing packets that must look like
/// Zoom for the connection to be accepted: this many in [`MAYBE_ZOOM_MIN_FRACTION_OF`].
pub const MAYBE_ZOOM_MIN_FRACTION: u8 = 19;

pub const MAYBE_ZOOM_MIN_FRACTION_OF: u8 = 20;

/// Minimum payload-bearing packets needed to judge a connection that ended before
/// [`MAYBE_ZOOM_WINDOW`] was reached. Shorter connections carry too little evidence to
/// classify and are dropped.
pub const MAYBE_ZOOM_MIN_PKTS: usize = MAYBE_ZOOM_WINDOW;

/// First and last UDP port Zoom traffic is expected on.
pub const ZOOM_PORT_MIN: u16 = 8801;

pub const ZOOM_PORT_MAX: u16 = 8810;

/// The port is one that Zoom traffic is expected on.
pub open spec fn on_zoom_port(port: u16) -> bool {
    ZOOM_PORT_MIN <= port <= ZOOM_PORT_MAX
}

/// First-byte values that mark a Zoom payload.
pub const ZOOM_FIRST_BYTES: [u8; 4] = [0x03, 0x04, 0x05, 0x07];

/// The byte marks a Zoom payload.
pub open spec fn zoom_first_byte(b: u8) -> bool {
    ZOOM_FIRST_BYTES@.contains(b)
}

/// The payload starts with a marker.
pub open spec fn zoom_payload(payload: Seq<u8>) -> bool {
    payload.len() > 0 && zoom_first_byte(payload[0])
}

/// Checks that the first byte marks a Zoom payload.
pub fn is_zoom_payload(payload: &[u8]) -> (b: bool)
    ensures
        b == zoom_payload(payload@),
{
    if payload.len() == 0 {
        return false;
    }
    let markers: [u8; 4] = ZOOM_FIRST_BYTES;
    let mut i: usize = 0;
    while i < 4
        invariant
            i <= 4,
            payload@.len() > 0,
            markers@ == ZOOM_FIRST_BYTES@,
            forall|j: int| 0 <= j < i ==> markers@[j] != payload@[0],
        decreases 4 - i,
    {
        if markers[i] == payload[0] {
            assert(markers@.contains(markers@[i as int]));
            return true;
        }
        i = i + 1;
    }
    false
}

/// The least number of packets that is the required fraction of a full window.
pub open spec fn is_required(n: int) -> bool {
    &&& is_fraction(
        n,
        MAYBE_ZOOM_WINDOW as int,
        MAYBE_ZOOM_MIN_FRACTION as int,
        MAYBE_ZOOM_MIN_FRACTION_OF as int,
    )
    &&& !is_fraction(
        n - 1,
        MAYBE_ZOOM_WINDOW as int,
        MAYBE_ZOOM_MIN_FRACTION as int,
        MAYBE_ZOOM_MIN_FRACTION_OF as int,
    )
}

/// Number of matching payloads required within a full window.
pub fn required_matches() -> (n: usize)
    ensures
        is_required(n as int),
        n == 29,
{
    29
}

/// Accepts a connection once at least 19 in 20 of its first [`MAYBE_ZOOM_WINDOW`]
/// payload-bearing packets (UDP, on a Zoom port) start with a marker. Non-UDP or
/// non-Zoom-port connections are dropped immediately.
#[derive(Debug, Clone, Copy, PartialEq, Eq, Structural)]
pub struct MaybeZoom {
    /// Payload-bearing packets inspected so far.
    pub seen: usize,
    /// Of those, how many started with a marker.
    pub matched: usize,
}

impl StreamingFilter for MaybeZoom {
    fn new(_first_packet: &L4Pdu) -> (f: MaybeZoom)
        ensures
            f == (MaybeZoom { seen: 0, matched: 0 }),
    {
        MaybeZoom { seen: 0, matched: 0 }
    }

    fn clear(&mut self)
        ensures
            *final(self) == (MaybeZoom { seen: 0, matched: 0 }),
    {
        self.seen = 0;
        self.matched = 0;
    }
}

impl MaybeZoom {
    /// No more packets matched than were seen.
    pub open spec fn wf(&self) -> bool {
        self.matched <= self.seen
    }

    /// There is room to count one more packet.
    pub open spec fn has_room(&self) -> bool {
        self.seen < usize::MAX - MAYBE_ZOOM_WINDOW
    }

    /// The counts after a payload.
    pub open spec fn recorded(self, payload: Seq<u8>) -> MaybeZoom {
        MaybeZoom {
            seen: (self.seen + 1) as usize,
            matched: if zoom_payload(payload) {
                (self.matched + 1) as usize
            } else {
                self.matched
            },
        }
    }

    /// What the counts have come to.
    pub open spec fn verdict(self) -> FilterResult {
        vote(
            self.matched as int,
            self.matched as int,
            self.seen as int,
            MAYBE_ZOOM_WINDOW as int,
            29,
            true,
        )
    }

    /// Updates counts from one payload.
    pub fn record(&mut self, data: &[u8])
        requires
            old(self).wf() && old(self).has_room(),
        ensures
            final(self).wf(),
            *final(self) == old(self).recorded(data@),
    {
        self.seen += 1;
        if is_zoom_payload(data) {
            self.matched += 1;
        }
    }

    /// Resolves the current counts to a `FilterResult`.
    pub fn decide(&self) -> (r: FilterResult)
        requires
            self.matched <= usize::MAX - MAYBE_ZOOM_WINDOW,
        ensures
            r == self.verdict(),
    {
        decide_vote(
            self.matched,
            self.matched,
            self.seen,
            MAYBE_ZOOM_WINDOW,
            required_matches(),
            true,
        )
    }

    /// Follows a packet. A packet whose payload cannot be read is not counted.
    pub fn update(&mut self, pdu: &L4Pdu) -> (r: FilterResult)
        requires
            old(self).wf() && old(self).has_room(),
        ensures
            final(self).wf(),
            if pdu.ctxt.proto != UDP_PROTOCOL || !(on_zoom_port(pdu.ctxt.src.port)
                || on_zoom_port(pdu.ctxt.dst.port)) {
                r == FilterResult::Drop && *final(self) == *old(self)
            } else if pdu.ctxt.length == 0 {
                r == FilterResult::Continue && *final(self) == *old(self)
            } else {
                &&& *final(self) == (match pdu.payload() {
                    Some(data) => old(self).recorded(data),
                    None => *old(self),
                })
                &&& r == final(self).verdict()
            },
    {
        // Drop traffic that isn't UDP on a Zoom port.
        let src: u16 = pdu.ctxt.src.port;
        let dst: u16 = pdu.ctxt.dst.port;
        if pdu.ctxt.proto != UDP_PROTOCOL || !((ZOOM_PORT_MIN <= src && src <= ZOOM_PORT_MAX) || (
        ZOOM_PORT_MIN <= dst && dst <= ZOOM_PORT_MAX)) {
            return FilterResult::Drop;
        }
        // Skip packets with no payload.

        if pdu.length() == 0 {
            return FilterResult::Continue;
        }
        match pdu.mbuf_ref().get_data_slice(pdu.offset(), pdu.length()) {
            Ok(data) => {
                self.record(data);
            },
            Err(_) => {},
        }
        self.decide()
    }

    /// Reached only if the connection terminated before the window filled. The fraction is
    /// applied to the packets actually observed, but only once there are enough of them to
    /// be meaningful.
    pub fn terminated(&self) -> (r: FilterResult)
        ensures
            r == (if self.seen >= MAYBE_ZOOM_MIN_PKTS && is_fraction(
                self.matched as int,
                self.seen as int,
                MAYBE_ZOOM_MIN_FRACTION as int,
                MAYBE_ZOOM_MIN_FRACTION_OF as int,
            ) {
                FilterResult::Accept
            } else {
                FilterResult::Drop
            }),
    {
        if self.seen >= MAYBE_ZOOM_MIN_PKTS && reaches_fraction(
            self.matched,
            self.seen,
            MAYBE_ZOOM_MIN_FRACTION,
            MAYBE_ZOOM_MIN_FRACTION_OF,
        ) {
            FilterResult::Accept
        } else {
            FilterResult::Drop
        }
    }
}

} // verus!
