//! A streaming filter that heuristically accepts TCP connections carrying TLS whose
//! handshake was never observed.
//!
//! What is distinctive about TLS is not any single record header but that record headers
//! chain: a header at stream offset `p` declaring length `L` places the next header at
//! exactly `p + 5 + L`. So the filter finds one plausible header, then predicts where the
//! following one must be and checks. A header found at a predicted offset is independent
//! evidence, and [`MAYBE_TLS_MIN_CHAINED`] confirmations in a row are a lock.
//!
//! Chains are followed per direction over payload bytes in arrival order. A retransmission, a
//! reordering, or a gap desynchronizes the byte count, and the next prediction fails; the
//! chain resets and the filter re-anchors on a later segment. So does a header that straddles
//! a segment boundary.

use crate::conntrack::pdu::L4Pdu;
use crate::conntrack::tcp::TCP_PROTOCOL;
use crate::protocols::SessionProto;
use crate::subscription::{FilterResult, StreamingFilter};
use crate::wire::{be16, read_be16};
use vstd::prelude::*;

verus! {

/// Payload-bearing packets inspected before giving up on a connection.
pub const MAYBE_TLS_WINDOW: usize = 96;

/// Record headers that must be found at a predicted offset before the connection is
/// accepted. The anchor header that starts a chain is not counted.
pub const MAYBE_TLS_MIN_CHAINED: u32 = 3;

/// Byte positions from the start of a segment searched for a chain anchor while a direction
/// is unlocked.
pub const MAYBE_TLS_SCAN_LIMIT: usize = 256;

/// TCP ports TLS is expected on. A connection on any other port is dropped without
/// inspection.
pub const TLS_PORTS: [u16; 6] = [443, 465, 853, 993, 995, 8443];

/// Record header length: content type, two-byte legacy version, two-byte length.
pub const RECORD_HEADER_LEN: usize = 5;

/// Largest a record's payload may be.
pub const MAX_RECORD_LEN: u16 = 16_640;

/// Content type of application data. Mid-stream this is essentially every record.
pub const CONTENT_APPLICATION_DATA: u8 = 0x17;

/// Change of cipher, alert, handshake and application data.
pub const CONTENT_TYPES: [u8; 4] = [0x14, 0x15, 0x16, CONTENT_APPLICATION_DATA];

/// TLS is expected on the port.
pub open spec fn on_tls_port(port: u16) -> bool {
    TLS_PORTS@.contains(port)
}

pub fn is_tls_port(port: u16) -> (b: bool)
    ensures
        b == on_tls_port(port),
{
    let ports: [u16; 6] = TLS_PORTS;
    let mut i: usize = 0;
    while i < 6
        invariant
            i <= 6,
            ports@ == TLS_PORTS@,
            forall|j: int| 0 <= j < i ==> ports@[j] != port,
        decreases 6 - i,
    {
        if ports[i] == port {
            assert(ports@.contains(ports@[i as int]));
            return true;
        }
        i = i + 1;
    }
    false
}

/// Size of the record whose header is at `pos`, header included, if a plausible header is
/// there: a known content type, a version from TLS 1.0 to 1.2 as the record layer has it,
/// and a length that is neither zero nor too large.
pub open spec fn record_at(data: Seq<u8>, pos: int) -> Option<int> {
    if pos + RECORD_HEADER_LEN <= data.len() && 0x14 <= data[pos] <= 0x17 && 0x0301 <= be16(
        data,
        pos + 1,
    ) <= 0x0303 && 0 < be16(data, pos + 3) <= MAX_RECORD_LEN {
        Some(RECORD_HEADER_LEN + be16(data, pos + 3))
    } else {
        None
    }
}

/// Validates a record header at the start of `bytes` and returns the total record size
/// (header plus declared payload), or `None`.
pub fn record_length(bytes: &[u8]) -> (r: Option<u64>)
    ensures
        match r {
            Some(n) => record_at(bytes@, 0) == Some(n as int) && n <= 16_645,
            None => record_at(bytes@, 0) is None,
        },
{
    if bytes.len() < RECORD_HEADER_LEN {
        return None;
    }
    if bytes[0] < 0x14 || bytes[0] > CONTENT_APPLICATION_DATA {
        return None;
    }
    let version: u16 = read_be16(bytes, 1);
    if version < 0x0301 || version > 0x0303 {
        return None;
    }
    let length: u16 = read_be16(bytes, 3);
    if length == 0 || length > MAX_RECORD_LEN {
        return None;
    }
    Some(RECORD_HEADER_LEN as u64 + length as u64)
}

/// The content types are the ones that a header may have.
pub proof fn law_content_types_link_chains(ty: u8)
    ensures
        CONTENT_TYPES@.contains(ty) <==> 0x14 <= ty <= 0x17,
{
    let types = CONTENT_TYPES@;
    assert(types[0] == 0x14 && types[1] == 0x15 && types[2] == 0x16 && types[3] == 0x17);
}

/// One direction's record chain, as numbers.
pub struct ChainModel {
    /// Where the next record header is predicted, in the segment's own offsets.
    pub next: Option<int>,
    pub chained: int,
    pub best: int,
}

/// Follows a chain through a segment for as long as headers are found where they are
/// predicted. Returns whether the chain broke inside the segment.
pub open spec fn follow(m: ChainModel, data: Seq<u8>) -> (ChainModel, bool)
    decreases
            match m.next {
                Some(e) => if e < data.len() {
                    data.len() - e
                } else {
                    0
                },
                None => 0,
            },
{
    match m.next {
        None => (m, true),
        Some(expected) => if expected >= data.len() {
            (m, false)
        } else if expected < 0 {
            (m, true)
        } else {
            match record_at(data, expected) {
                Some(size) => if size > 0 {
                    follow(
                        ChainModel {
                            next: Some(expected + size),
                            chained: m.chained + 1,
                            best: if m.chained + 1 > m.best {
                                m.chained + 1
                            } else {
                                m.best
                            },
                        },
                        data,
                    )
                } else {
                    (m, true)
                },
                None => (m, true),
            }
        },
    }
}

/// The first position at or after `from` that is searched and has a plausible header.
pub open spec fn anchor_from(data: Seq<u8>, from: int) -> Option<int>
    decreases MAYBE_TLS_SCAN_LIMIT - from,
{
    if from >= MAYBE_TLS_SCAN_LIMIT || from + RECORD_HEADER_LEN > data.len() {
        None
    } else if record_at(data, from) is Some {
        Some(from)
    } else {
        anchor_from(data, from + 1)
    }
}

/// A chain after a segment: it is followed; if it breaks, the search for an anchor goes on
/// past the last one, and a fresh chain is followed from there.
pub open spec fn consumed(m: ChainModel, data: Seq<u8>, scan_from: int) -> ChainModel
    decreases MAYBE_TLS_SCAN_LIMIT - scan_from,
{
    let (f, broke) = follow(m, data);
    if !broke {
        f
    } else {
        match anchor_from(data, scan_from) {
            Some(at) if at >= scan_from && at < MAYBE_TLS_SCAN_LIMIT => consumed(
                ChainModel {
                    next: Some(at + record_at(data, at)->0),
                    chained: 0,
                    best: f.best,
                },
                data,
                at + 1,
            ),
            _ => ChainModel { next: None, chained: 0, best: f.best },
        }
    }
}

proof fn lemma_follow_keeps_best(m: ChainModel, data: Seq<u8>)
    ensures
        follow(m, data).0.best >= m.best,
    decreases
            match m.next {
                Some(e) => if e < data.len() {
                    data.len() - e
                } else {
                    0
                },
                None => 0,
            },
{
    if let Some(e) = m.next {
        if 0 <= e < data.len() {
            if let Some(size) = record_at(data, e) {
                lemma_follow_keeps_best(
                    ChainModel {
                        next: Some(e + size),
                        chained: m.chained + 1,
                        best: if m.chained + 1 > m.best {
                            m.chained + 1
                        } else {
                            m.best
                        },
                    },
                    data,
                );
            }
        }
    }
}

/// The longest chain is kept across resets: no segment takes it back.
pub proof fn law_longest_chain_is_kept(m: ChainModel, data: Seq<u8>, scan_from: int)
    requires
        0 <= scan_from,
    ensures
        consumed(m, data, scan_from).best >= m.best,
    decreases MAYBE_TLS_SCAN_LIMIT - scan_from,
{
    lemma_follow_keeps_best(m, data);
    let (f, broke) = follow(m, data);
    if broke {
        match anchor_from(data, scan_from) {
            Some(at) if at >= scan_from && at < MAYBE_TLS_SCAN_LIMIT => {
                law_longest_chain_is_kept(
                    ChainModel {
                        next: Some(at + record_at(data, at)->0),
                        chained: 0,
                        best: f.best,
                    },
                    data,
                    at + 1,
                );
            },
            _ => {},
        }
    }
}

/// A header found where it was predicted is one more confirmation.
pub proof fn law_predicted_header_confirms(m: ChainModel, data: Seq<u8>, expected: int)
    requires
        m.next == Some(expected),
        0 <= expected < data.len(),
        record_at(data, expected) is Some,
    ensures
        follow(m, data).0.best >= m.chained + 1,
{
    let size = record_at(data, expected)->0;
    let grown = ChainModel {
        next: Some(expected + size),
        chained: m.chained + 1,
        best: if m.chained + 1 > m.best {
            m.chained + 1
        } else {
            m.best
        },
    };
    lemma_follow_keeps_best(grown, data);
}

/// `n` records follow one another from `pos` on, each header where the last one predicts it.
pub open spec fn records_from(data: Seq<u8>, pos: int, n: nat) -> bool
    decreases n,
{
    n > 0 ==> match record_at(data, pos) {
        Some(size) => records_from(data, pos + size, (n - 1) as nat),
        None => false,
    }
}

proof fn lemma_follow_counts(m: ChainModel, data: Seq<u8>, pos: int, n: nat)
    requires
        m.next == Some(pos),
        0 <= pos,
        records_from(data, pos, n),
        n > 0,
    ensures
        follow(m, data).0.best >= m.chained + n,
    decreases n,
{
    let size = record_at(data, pos)->0;
    let grown = ChainModel {
        next: Some(pos + size),
        chained: m.chained + 1,
        best: if m.chained + 1 > m.best {
            m.chained + 1
        } else {
            m.best
        },
    };
    if n > 1 {
        lemma_follow_counts(grown, data, pos + size, (n - 1) as nat);
    } else {
        lemma_follow_keeps_best(grown, data);
    }
}

/// A segment that starts a run of records, of which the first is an anchor, confirms each of
/// the others.
pub proof fn law_records_in_a_row_confirm(m: ChainModel, data: Seq<u8>, n: nat)
    requires
        m.next is None,
        n > 0,
        records_from(data, 0, n + 1),
    ensures
        consumed(m, data, 0).best >= n,
{
    let size = record_at(data, 0)->0;
    let anchored = ChainModel { next: Some(size), chained: 0, best: m.best };
    assert(follow(m, data) == (m, true));
    assert(anchor_from(data, 0) == Some(0int));
    assert(consumed(m, data, 0) == consumed(anchored, data, 1));
    lemma_follow_counts(anchored, data, size, n);
    let (f, broke) = follow(anchored, data);
    if broke {
        if let Some(at) = anchor_from(data, 1) {
            if at >= 1 && at < MAYBE_TLS_SCAN_LIMIT {
                law_longest_chain_is_kept(
                    ChainModel {
                        next: Some(at + record_at(data, at)->0),
                        chained: 0,
                        best: f.best,
                    },
                    data,
                    at + 1,
                );
            }
        }
    }
}

/// An anchor alone is no evidence: a header that is searched for, not predicted, adds no
/// confirmation unless others follow where it predicts them.
pub proof fn law_anchor_alone_is_no_evidence(m: ChainModel, data: Seq<u8>)
    requires
        m.next is None,
        anchor_from(data, 0) matches Some(at) ==> at + record_at(data, at)->0 >= data.len(),
    ensures
        consumed(m, data, 0).best == m.best,
{
    reveal_with_fuel(consumed, 2);
}

/// One direction's record-chain state, over payload bytes in arrival order.
#[derive(Debug, Clone, Copy, PartialEq, Eq, Structural)]
pub struct Direction {
    /// Payload bytes seen in this direction so far.
    pub pos: u64,
    /// Offset, counted as `pos` is, where the next record header is predicted, once a chain
    /// is anchored.
    pub next: Option<u64>,
    /// Confirmations in the current chain: headers found where predicted.
    pub chained: u32,
    /// Longest chain this direction has reached, kept across resets.
    pub best: u32,
}

impl Default for Direction {
    fn default() -> (d: Direction)
        ensures
            d == Direction::fresh(),
    {
        Direction { pos: 0, next: None, chained: 0, best: 0 }
    }
}

impl Direction {
    pub open spec fn fresh() -> Direction {
        Direction { pos: 0, next: None, chained: 0, best: 0 }
    }

    /// The chain, in the offsets of a segment that starts at `start`.
    pub open spec fn chain(&self, start: int) -> ChainModel {
        ChainModel {
            next: match self.next {
                Some(e) => Some(e - start),
                None => None,
            },
            chained: self.chained as int,
            best: self.best as int,
        }
    }

    /// There is room to count a segment of `len` bytes.
    pub open spec fn has_room(&self, len: int) -> bool {
        &&& self.pos + len + 20_000 <= u64::MAX
        &&& self.chained + len <= u32::MAX
        &&& self.best <= u32::MAX
        &&& len <= u32::MAX
    }

    /// Follows the chain through a segment. Returns whether it broke inside it.
    fn follow_chain(&mut self, data: &[u8], seg_start: u64) -> (broke: bool)
        requires
            old(self).pos == seg_start + data@.len(),
            seg_start + data@.len() + 20_000 <= u64::MAX,
            old(self).chained + data@.len() <= u32::MAX,
        ensures
            final(self).pos == old(self).pos,
            (final(self).chain(seg_start as int), broke) == follow(
                old(self).chain(seg_start as int),
                data@,
            ),
    {
        let ghost goal = follow(self.chain(seg_start as int), data@);
        let seg_end: u64 = seg_start + data.len() as u64;
        let ghost chained0 = self.chained;
        let ghost mut used: int = 0;
        loop
            invariant
                self.pos == old(self).pos,
                seg_end == seg_start + data@.len(),
                seg_end + 20_000 <= u64::MAX,
                chained0 + data@.len() <= u32::MAX,
                self.chained == chained0 + used,
                0 <= used <= data@.len(),
                used > 0 ==> self.next is Some && self.next->0 >= seg_start + used,
                goal == follow(old(self).chain(seg_start as int), data@),
                goal == follow(self.chain(seg_start as int), data@),
            decreases data@.len() - used,
        {
            let expected: u64 = match self.next {
                Some(e) => e,
                None => {
                    return true;
                },
            };
            if expected >= seg_end {
                // The prediction lands in a later segment; nothing to check yet.
                return false;
            }
            if expected < seg_start {
                return true;
            }
            let offset: usize = (expected - seg_start) as usize;
            let bytes = vstd::slice::slice_subrange(data, offset, data.len());
            proof {
                lemma_record_at_tail(data@, offset as int);
                assert(bytes@ =~= data@.skip(offset as int));
            }
            match record_length(bytes) {
                Some(size) => {
                    self.chained += 1;
                    if self.chained > self.best {
                        self.best = self.chained;
                    }
                    self.next = Some(expected + size);
                    proof {
                        used = used + 1;
                    }
                },
                // The byte count was desynchronized, the header straddles the segment's
                // tail, or this was never TLS.
                None => {
                    return true;
                },
            }
        }
    }

    /// Consumes one segment's payload, advancing the chain and re-anchoring as many times as
    /// the segment allows.
    pub fn consume(&mut self, data: &[u8])
        requires
            old(self).has_room(data@.len() as int),
        ensures
            final(self).pos == old(self).pos + data@.len(),
            final(self).chain(old(self).pos as int) == consumed(
                old(self).chain(old(self).pos as int),
                data@,
                0,
            ),
    {
        let seg_start: u64 = self.pos;
        self.pos = seg_start + data.len() as u64;
        let ghost goal = consumed(self.chain(seg_start as int), data@, 0);
        let mut scan_from: usize = 0;
        loop
            invariant
                seg_start == old(self).pos,
                self.pos == seg_start + data@.len(),
                self.pos + 20_000 <= u64::MAX,
                self.chained + data@.len() <= u32::MAX,
                scan_from <= MAYBE_TLS_SCAN_LIMIT,
                goal == consumed(old(self).chain(old(self).pos as int), data@, 0),
                goal == consumed(self.chain(seg_start as int), data@, scan_from as int),
            decreases MAYBE_TLS_SCAN_LIMIT - scan_from,
        {
            if !self.follow_chain(data, seg_start) {
                return;
            }
            self.next = None;
            self.chained = 0;
            match Direction::anchor(data, scan_from) {
                Some((at, size)) => {
                    self.next = Some(seg_start + at as u64 + size);
                    scan_from = at + 1;
                },
                None => {
                    return;
                },
            }
        }
    }

    /// Looks for a plausible record header at or after `scan_from`. Returns where it is and
    /// the size of its record. The anchor itself is not counted as evidence.
    fn anchor(data: &[u8], scan_from: usize) -> (r: Option<(usize, u64)>)
        ensures
            match r {
                Some((at, size)) => anchor_from(data@, scan_from as int) == Some(at as int)
                    && record_at(data@, at as int) == Some(size as int) && scan_from <= at
                    < MAYBE_TLS_SCAN_LIMIT && at < data@.len() && size <= 16_645,
                None => anchor_from(data@, scan_from as int) is None,
            },
    {
        let mut offset: usize = scan_from;
        while offset < MAYBE_TLS_SCAN_LIMIT && offset < data.len() && data.len() - offset
            >= RECORD_HEADER_LEN
            invariant
                scan_from <= offset,
                anchor_from(data@, scan_from as int) == anchor_from(data@, offset as int),
            decreases MAYBE_TLS_SCAN_LIMIT - offset,
        {
            let bytes = vstd::slice::slice_subrange(data, offset, data.len());
            proof {
                lemma_record_at_tail(data@, offset as int);
                assert(bytes@ =~= data@.skip(offset as int));
            }
            match record_length(bytes) {
                Some(size) => {
                    return Some((offset, size));
                },
                None => {},
            }
            offset = offset + 1;
        }
        None
    }
}

proof fn lemma_record_at_tail(data: Seq<u8>, offset: int)
    requires
        0 <= offset <= data.len(),
    ensures
        record_at(data.skip(offset), 0) == record_at(data, offset),
{
    let tail = data.skip(offset);
    if offset + RECORD_HEADER_LEN <= data.len() {
        assert(tail[0] == data[offset]);
        assert(be16(tail, 1) == be16(data, offset + 1));
        assert(be16(tail, 3) == be16(data, offset + 3));
    }
}

/// Accepts a TCP connection on a [`TLS_PORTS`] port once one direction has confirmed
/// [`MAYBE_TLS_MIN_CHAINED`] record headers at predicted stream offsets. Non-TCP or
/// non-TLS-port connections are dropped immediately.
///
/// Only one direction has to lock on: in a bulk download the other one carries almost no
/// records.
#[derive(Debug, Clone, Copy, PartialEq, Eq, Structural)]
pub struct MaybeTls {
    /// Payload-bearing packets inspected so far, both directions.
    pub seen: usize,
    /// Originator to responder.
    pub orig: Direction,
    /// Responder to originator.
    pub resp: Direction,
}

impl StreamingFilter for MaybeTls {
    fn new(_first_packet: &L4Pdu) -> (f: MaybeTls)
        ensures
            f == MaybeTls::fresh(),
    {
        MaybeTls { seen: 0, orig: Direction::default(), resp: Direction::default() }
    }

    fn clear(&mut self)
        ensures
            *final(self) == MaybeTls::fresh(),
    {
        self.seen = 0;
        self.orig = Direction::default();
        self.resp = Direction::default();
    }
}

impl MaybeTls {
    /// Nothing seen yet.
    pub open spec fn fresh() -> MaybeTls {
        MaybeTls { seen: 0, orig: Direction::fresh(), resp: Direction::fresh() }
    }

    /// Enough confirmations in one direction.
    pub open spec fn is_locked(self) -> bool {
        self.orig.best >= MAYBE_TLS_MIN_CHAINED || self.resp.best >= MAYBE_TLS_MIN_CHAINED
    }

    /// There is room to count a payload of `len` bytes.
    pub open spec fn has_room(&self, len: int) -> bool {
        &&& self.seen < usize::MAX
        &&& self.orig.has_room(len)
        &&& self.resp.has_room(len)
    }

    /// What the evidence has come to.
    pub open spec fn verdict(self) -> FilterResult {
        if self.is_locked() {
            FilterResult::Accept
        } else if self.seen >= MAYBE_TLS_WINDOW {
            FilterResult::Drop
        } else {
            FilterResult::Continue
        }
    }

    /// `after` is the filter once it has seen a payload: that direction's chain has consumed
    /// it, and the other direction's is as it was.
    pub open spec fn recorded(self, after: MaybeTls, dir: bool, data: Seq<u8>) -> bool {
        let (before, moved) = if dir {
            (self.orig, after.orig)
        } else {
            (self.resp, after.resp)
        };
        &&& after.seen == self.seen + 1
        &&& moved.pos == before.pos + data.len()
        &&& moved.chain(before.pos as int) == consumed(before.chain(before.pos as int), data, 0)
        &&& dir ==> after.resp == self.resp
        &&& !dir ==> after.orig == self.orig
    }

    /// Longest chain confirmed in either direction.
    pub fn best_chain(&self) -> (n: u32)
        ensures
            n == (if self.orig.best >= self.resp.best {
                self.orig.best
            } else {
                self.resp.best
            }),
    {
        if self.orig.best >= self.resp.best {
            self.orig.best
        } else {
            self.resp.best
        }
    }

    /// Whether the evidence is sufficient. A chain is a lock, not a rate, so there is nothing
    /// to prorate against a connection that ended early.
    pub fn locked(&self) -> (b: bool)
        ensures
            b == self.is_locked(),
    {
        self.best_chain() >= MAYBE_TLS_MIN_CHAINED
    }

    /// Feeds one direction's payload into its chain.
    pub fn record(&mut self, dir: bool, data: &[u8])
        requires
            old(self).has_room(data@.len() as int),
        ensures
            old(self).recorded(*final(self), dir, data@),
    {
        self.seen += 1;
        if dir {
            self.orig.consume(data);
        } else {
            self.resp.consume(data);
        }
    }

    pub fn decide(&self) -> (r: FilterResult)
        ensures
            r == self.verdict(),
    {
        if self.locked() {
            FilterResult::Accept
        } else if self.seen >= MAYBE_TLS_WINDOW {
            FilterResult::Drop
        } else {
            FilterResult::Continue
        }
    }

    /// Follows a packet. A packet whose payload cannot be read is not counted.
    pub fn update(&mut self, pdu: &L4Pdu) -> (r: FilterResult)
        requires
            old(self).has_room(pdu.ctxt.length as int),
        ensures
            if pdu.ctxt.proto != TCP_PROTOCOL || !(on_tls_port(pdu.ctxt.src.port)
                || on_tls_port(pdu.ctxt.dst.port)) {
                r == FilterResult::Drop && *final(self) == *old(self)
            } else if pdu.ctxt.length == 0 {
                r == FilterResult::Continue && *final(self) == *old(self)
            } else {
                &&& match pdu.payload() {
                    Some(data) => old(self).recorded(*final(self), pdu.dir, data),
                    None => *final(self) == *old(self),
                }
                &&& r == final(self).verdict()
            },
    {
        if pdu.ctxt.proto != TCP_PROTOCOL || !(is_tls_port(pdu.ctxt.src.port) || is_tls_port(
            pdu.ctxt.dst.port,
        )) {
            return FilterResult::Drop;
        }
        if pdu.length() == 0 {
            return FilterResult::Continue;
        }
        match pdu.mbuf_ref().get_data_slice(pdu.offset(), pdu.length()) {
            Ok(data) => {
                self.record(pdu.dir, data);
            },
            Err(_) => {},
        }
        self.decide()
    }

    /// Vetoes the connection once a parser has identified it, so that only what the parsers
    /// missed is reported.
    pub fn unclaimed(&self, proto: &SessionProto) -> (r: FilterResult)
        ensures
            r == (if proto.claimed() {
                FilterResult::Drop
            } else {
                FilterResult::Continue
            }),
    {
        if proto.is_claimed() {
            FilterResult::Drop
        } else {
            FilterResult::Continue
        }
    }

    /// Reached only if the connection ended before the window filled.
    pub fn terminated(&self) -> (r: FilterResult)
        ensures
            r == (if self.is_locked() {
                FilterResult::Accept
            } else {
                FilterResult::Drop
            }),
    {
        if self.locked() {
            FilterResult::Accept
        } else {
            FilterResult::Drop
        }
    }
}

} // verus!
