//! Per-connection accounting of TCP stream data that reassembly gave up on.
//!
//! A connection is not discarded when a sequence-number gap cannot be filled: the gap is
//! abandoned, the stream resumes at the next buffered segment, and that segment is marked
//! with the number of bytes lost. This datatype accumulates those marks, so that an
//! application can tell how much of the stream it actually saw. It reports only the gaps that
//! were permanently abandoned: the bytes no subscription or parser ever saw.

use crate::conntrack::pdu::L4Pdu;
use crate::subscription::data::TrackedData;
use crate::time::Instant;
use vstd::prelude::*;

verus! {

/// Reassembly gap accounting for one direction of a connection.
#[derive(Debug, Clone, Copy, PartialEq, Eq, Structural)]
pub struct GapStats {
    /// Number of sequence-number gaps permanently given up on in this direction.
    pub nb_gaps: u64,
    /// Total stream bytes never observed, summed over those gaps.
    pub missing_bytes: u64,
    /// Payload bytes delivered after at least one gap. These bytes are real and were parsed,
    /// but they are not stream-contiguous with what preceded them.
    pub bytes_after_gap: u64,
    /// The beginning of this direction's stream was never observed, so an unknown number of
    /// bytes precede the first segment seen. Those bytes are not counted in `missing_bytes`,
    /// which only reports gaps of known size.
    pub start_unknown: bool,
}

impl Default for GapStats {
    fn default() -> (s: GapStats)
        ensures
            s == GapStats::nothing_lost(),
    {
        GapStats { nb_gaps: 0, missing_bytes: 0, bytes_after_gap: 0, start_unknown: false }
    }
}

impl GapStats {
    /// No gap, and no data yet.
    pub open spec fn nothing_lost() -> GapStats {
        GapStats { nb_gaps: 0, missing_bytes: 0, bytes_after_gap: 0, start_unknown: false }
    }

    /// No abandoned gaps, and the stream start was seen.
    pub open spec fn is_complete(&self) -> bool {
        self.nb_gaps == 0 && !self.start_unknown
    }

    /// There is room to account for a segment.
    pub open spec fn has_room(&self, pdu: L4Pdu) -> bool {
        &&& self.nb_gaps < u64::MAX
        &&& self.missing_bytes + pdu.ctxt.gap_before <= u64::MAX
        &&& self.bytes_after_gap + pdu.ctxt.length <= u64::MAX
    }

    /// The account after a segment. Every segment from this direction's first gap onwards is
    /// data after a gap, not just the one that carries the mark.
    pub open spec fn after(self, pdu: L4Pdu) -> GapStats {
        let gap = pdu.ctxt.gap_before;
        let noted = GapStats {
            nb_gaps: if gap > 0 {
                (self.nb_gaps + 1) as u64
            } else {
                self.nb_gaps
            },
            missing_bytes: (self.missing_bytes + gap) as u64,
            start_unknown: self.start_unknown || pdu.ctxt.stream_start_unknown,
            ..self
        };
        if noted.is_complete() {
            noted
        } else {
            GapStats {
                bytes_after_gap: (self.bytes_after_gap + pdu.ctxt.length) as u64,
                ..noted
            }
        }
    }

    /// The whole of this direction's stream was observed: no abandoned gaps, and the stream
    /// start was seen.
    pub fn complete(&self) -> (b: bool)
        ensures
            b == self.is_complete(),
    {
        self.nb_gaps == 0 && !self.start_unknown
    }

    fn add_segment(&mut self, pdu: &L4Pdu)
        requires
            old(self).has_room(*pdu),
        ensures
            *final(self) == old(self).after(*pdu),
    {
        let gap: u32 = pdu.gap_before();
        if gap > 0 {
            self.nb_gaps += 1;
            self.missing_bytes += gap as u64;
        }
        if pdu.stream_start_unknown() {
            self.start_unknown = true;
        }
        if !self.complete() {
            self.bytes_after_gap += pdu.length() as u64;
        }
    }
}

/// How much of a connection's reassembled stream was lost to unfilled sequence gaps.
///
/// A subscription that receives a session alongside this datatype can tell whether the
/// session was parsed over a complete stream.
///
/// It is updated with reassembled segments, so subscribing to it turns on full reassembly
/// for every connection that the filter matches, for as long as they live.
#[derive(Debug, Clone, Copy, PartialEq, Eq, Structural)]
pub struct ReassemblyStats {
    /// Originator (client to server) direction.
    pub orig: GapStats,
    /// Responder (server to client) direction.
    pub resp: GapStats,
}

impl Default for ReassemblyStats {
    fn default() -> (s: ReassemblyStats)
        ensures
            s.orig == GapStats::nothing_lost(),
            s.resp == GapStats::nothing_lost(),
    {
        ReassemblyStats { orig: GapStats::default(), resp: GapStats::default() }
    }
}

impl ReassemblyStats {
    /// The reassembled stream is byte-complete in both directions: no gaps were abandoned and
    /// neither stream start was missed.
    pub fn complete(&self) -> (b: bool)
        ensures
            b == (self.orig.is_complete() && self.resp.is_complete()),
    {
        self.orig.complete() && self.resp.complete()
    }

    /// The beginning of at least one direction's stream was never observed, so an unknown
    /// number of bytes precede everything reported here. This does not imply that the
    /// connection was adopted in the middle of a stream.
    pub fn start_unobserved(&self) -> (b: bool)
        ensures
            b == (self.orig.start_unknown || self.resp.start_unknown),
    {
        self.orig.start_unknown || self.resp.start_unknown
    }

    /// Total stream bytes never observed, across both directions.
    pub fn missing_bytes(&self) -> (n: u64)
        requires
            self.orig.missing_bytes + self.resp.missing_bytes <= u64::MAX,
        ensures
            n == self.orig.missing_bytes + self.resp.missing_bytes,
    {
        self.orig.missing_bytes + self.resp.missing_bytes
    }

    /// Total number of abandoned gaps, across both directions.
    pub fn nb_gaps(&self) -> (n: u64)
        requires
            self.orig.nb_gaps + self.resp.nb_gaps <= u64::MAX,
        ensures
            n == self.orig.nb_gaps + self.resp.nb_gaps,
    {
        self.orig.nb_gaps + self.resp.nb_gaps
    }

    /// Total payload bytes delivered after a gap, across both directions. A stream whose
    /// start was not observed has a gap of unknown size in front of it, so that all of its
    /// bytes count.
    pub fn recovered_bytes(&self) -> (n: u64)
        requires
            self.orig.bytes_after_gap + self.resp.bytes_after_gap <= u64::MAX,
        ensures
            n == self.orig.bytes_after_gap + self.resp.bytes_after_gap,
    {
        self.orig.bytes_after_gap + self.resp.bytes_after_gap
    }

    /// Accumulates from a reassembled segment. The two directions are independent streams.
    pub fn update(&mut self, pdu: &L4Pdu)
        requires
            pdu.dir ==> old(self).orig.has_room(*pdu),
            !pdu.dir ==> old(self).resp.has_room(*pdu),
        ensures
            final(self).orig == (if pdu.dir {
                old(self).orig.after(*pdu)
            } else {
                old(self).orig
            }),
            final(self).resp == (if pdu.dir {
                old(self).resp
            } else {
                old(self).resp.after(*pdu)
            }),
    {
        if pdu.dir {
            self.orig.add_segment(pdu);
        } else {
            self.resp.add_segment(pdu);
        }
    }
}

impl TrackedData for ReassemblyStats {
    fn new(_first_pkt: &L4Pdu, _now: Instant) -> (s: ReassemblyStats)
        ensures
            s.orig == GapStats::nothing_lost(),
            s.resp == GapStats::nothing_lost(),
    {
        ReassemblyStats::default()
    }

    fn clear(&mut self)
        ensures
            *final(self) == *old(self),
    {
    }
}

/// A direction whose stream was completely observed misses nothing and has no data after a
/// gap: it holds before the first segment, and each segment keeps it.
pub proof fn law_complete_stream_lost_nothing(s: GapStats, pdu: L4Pdu)
    requires
        s.has_room(pdu),
        s.is_complete() ==> s.bytes_after_gap == 0 && s.missing_bytes == 0,
    ensures
        GapStats::nothing_lost().is_complete(),
        s.after(pdu).is_complete() ==> s.after(pdu).bytes_after_gap == 0 && s.after(
            pdu,
        ).missing_bytes == 0,
        s.after(pdu).is_complete() <==> s.is_complete() && pdu.ctxt.gap_before == 0
            && !pdu.ctxt.stream_start_unknown,
{
}

/// A segment never completes a stream that is not.
pub proof fn law_lost_data_stays_lost(s: GapStats, pdu: L4Pdu)
    requires
        s.has_room(pdu),
        !s.is_complete(),
    ensures
        !s.after(pdu).is_complete(),
        s.after(pdu).missing_bytes >= s.missing_bytes,
        s.after(pdu).bytes_after_gap == s.bytes_after_gap + pdu.ctxt.length,
{
}

} // verus!
