//! TCP stream reassembly in one direction.
//!
//! Segments are delivered in sequence order. A segment that arrives ahead of the next
//! expected sequence number waits in a bounded buffer; when the buffer overflows, or when
//! its deadline passes, the gap in front of it is given up.

use crate::conntrack::pdu::{FiveTuple, L4Context, L4Pdu};
use crate::conntrack::tcp::{is_synack, ACK, FIN, RST, SYN};
use std::collections::VecDeque;
use vstd::prelude::*;

verus! {

/// Distance from `a` forward to `b` on the circle of sequence numbers.
pub open spec fn seq_dist(a: u32, b: u32) -> int {
    if b >= a {
        b - a
    } else {
        b - a + 0x1_0000_0000
    }
}

/// The sequence number `n` bytes after `a`.
pub open spec fn seq_add(a: u32, n: int) -> u32 {
    ((a + n) % 0x1_0000_0000) as u32
}

/// `a` comes before `b`: `b` lies less than half the circle ahead of `a`.
pub open spec fn seq_before(a: u32, b: u32) -> bool {
    0 < seq_dist(a, b) < 0x8000_0000
}

/// Compares sequence numbers in the wrapping order of RFC 1323: a number is old if it is
/// not within half the sequence space of the left edge of the window.
pub fn wrapping_lt(lhs: u32, rhs: u32) -> (b: bool)
    ensures
        b == seq_before(lhs, rhs),
{
    lhs.wrapping_sub(rhs) > 0x8000_0000
}

/// No sequence number comes before itself, and of two numbers at most one comes before
/// the other.
pub proof fn law_seq_before_is_asymmetric(a: u32, b: u32)
    ensures
        !seq_before(a, a),
        seq_before(a, b) ==> !seq_before(b, a),
{
}

/// Two sequence numbers are equal, or exactly half the circle apart, or one of them comes
/// before the other.
pub proof fn law_seq_before_is_total_but_for_antipodes(a: u32, b: u32)
    ensures
        a == b || seq_dist(a, b) == 0x8000_0000 || seq_before(a, b) || seq_before(b, a),
{
}

/// The wrapping order is transitive among numbers within half the circle of each other.
pub proof fn law_seq_before_is_transitive_in_window(a: u32, b: u32, c: u32)
    requires
        seq_before(a, b),
        seq_before(b, c),
        seq_dist(a, b) + seq_dist(b, c) < 0x8000_0000,
    ensures
        seq_before(a, c),
{
}

/// The order is unchanged when both numbers advance by the same number of bytes.
pub proof fn law_seq_before_is_translation_invariant(a: u32, b: u32, n: u32)
    ensures
        seq_before(seq_add(a, n as int), seq_add(b, n as int)) == seq_before(a, b),
{
}

/// `r` is the sequence number at which to resume after giving up the gap in front of
/// `next_seq`: the nearest of `seqs` that lies ahead of it.
pub open spec fn is_resume(next_seq: u32, seqs: Seq<u32>, r: u32) -> bool {
    &&& seqs.contains(r)
    &&& seq_before(next_seq, r)
    &&& forall|i: int|
        0 <= i < seqs.len() && seq_before(next_seq, #[trigger] seqs[i]) ==> seq_dist(next_seq, r)
            <= seq_dist(next_seq, seqs[i])
}

/// None of `seqs` lies ahead of `next_seq`.
pub open spec fn none_ahead(next_seq: u32, seqs: Seq<u32>) -> bool {
    forall|i: int| 0 <= i < seqs.len() ==> !seq_before(next_seq, #[trigger] seqs[i])
}

/// The resume point, if there is one.
pub open spec fn resume_seq(next_seq: u32, seqs: Seq<u32>) -> Option<u32> {
    if none_ahead(next_seq, seqs) {
        None
    } else {
        Some(choose|r: u32| is_resume(next_seq, seqs, r))
    }
}

proof fn lemma_resume_unique(next_seq: u32, seqs: Seq<u32>, r: u32)
    requires
        is_resume(next_seq, seqs, r),
    ensures
        resume_seq(next_seq, seqs) == Some(r),
{
    let k = choose|k: int| 0 <= k < seqs.len() && seqs[k] == r;
    assert(seq_before(next_seq, seqs[k]));
    let other = choose|o: u32| is_resume(next_seq, seqs, o);
    assert(is_resume(next_seq, seqs, other));
    let j = choose|j: int| 0 <= j < seqs.len() && seqs[j] == other;
    assert(seq_before(next_seq, seqs[j]));
    assert(seq_dist(next_seq, r) == seq_dist(next_seq, other));
}

/// Picks the sequence number at which to resume after abandoning a gap: the lowest
/// buffered one that lies ahead of `next_seq`, paired with the number of bytes skipped to
/// reach it. Returns `None` when nothing buffered is ahead of `next_seq`, in which case
/// skipping would make no progress.
pub fn select_resume_seq(next_seq: u32, seqs: &[u32]) -> (r: Option<(u32, u32)>)
    ensures
        match r {
            Some((seq, gap)) => {
                &&& is_resume(next_seq, seqs@, seq)
                &&& resume_seq(next_seq, seqs@) == Some(seq)
                &&& gap == seq_dist(next_seq, seq)
            },
            None => none_ahead(next_seq, seqs@),
        },
{
    let mut best: Option<u32> = None;
    let mut i: usize = 0;
    while i < seqs.len()
        invariant
            i <= seqs@.len(),
            match best {
                Some(b) => is_resume(next_seq, seqs@.take(i as int), b),
                None => none_ahead(next_seq, seqs@.take(i as int)),
            },
        decreases seqs@.len() - i,
    {
        let seq: u32 = seqs[i];
        let ghost before = seqs@.take(i as int);
        let ghost after = seqs@.take(i + 1);
        assert(after =~= before.push(seq));
        if wrapping_lt(next_seq, seq) {
            match best {
                Some(acc) => {
                    proof {
                        let k = choose|k: int| 0 <= k < before.len() && before[k] == acc;
                        assert(after[k] == acc);
                        assert(after[i as int] == seq);
                    }
                    if wrapping_lt(seq, acc) {
                        best = Some(seq);
                    }
                    assert forall|j: int|
                        0 <= j < after.len() && seq_before(
                            next_seq,
                            #[trigger] after[j],
                        ) implies seq_dist(next_seq, best->0) <= seq_dist(next_seq, after[j]) by {
                        if j < i {
                            assert(before[j] == after[j]);
                        }
                    }
                },
                None => {
                    best = Some(seq);
                    assert(after[i as int] == seq);
                    assert forall|j: int|
                        0 <= j < after.len() && seq_before(
                            next_seq,
                            #[trigger] after[j],
                        ) implies seq_dist(next_seq, seq) <= seq_dist(next_seq, after[j]) by {
                        if j < i {
                            assert(before[j] == after[j]);
                        }
                    }
                },
            }
        } else {
            match best {
                Some(acc) => {
                    proof {
                        let k = choose|k: int| 0 <= k < before.len() && before[k] == acc;
                        assert(after[k] == acc);
                        assert forall|j: int|
                            0 <= j < after.len() && seq_before(
                                next_seq,
                                #[trigger] after[j],
                            ) implies seq_dist(next_seq, acc) <= seq_dist(next_seq, after[j]) by {
                            if j < i {
                                assert(before[j] == after[j]);
                            }
                        }
                    }
                },
                None => {
                    assert forall|j: int| 0 <= j < after.len() implies !seq_before(
                        next_seq,
                        #[trigger] after[j],
                    ) by {
                        if j < i {
                            assert(before[j] == after[j]);
                        }
                    }
                },
            }
        }
        i = i + 1;
    }
    assert(seqs@.take(i as int) =~= seqs@);
    match best {
        Some(seq) => {
            proof {
                lemma_resume_unique(next_seq, seqs@, seq);
            }
            Some((seq, seq.wrapping_sub(next_seq)))
        },
        None => None,
    }
}

/// The lowest of `seqs`: each number in turn replaces the lowest so far if it comes before
/// it.
pub open spec fn lowest_of(seqs: Seq<u32>) -> Option<u32>
    decreases seqs.len(),
{
    if seqs.len() == 0 {
        None
    } else {
        match lowest_of(seqs.drop_last()) {
            None => Some(seqs.last()),
            Some(acc) => if seq_before(seqs.last(), acc) {
                Some(seqs.last())
            } else {
                Some(acc)
            },
        }
    }
}

/// The lowest of `seqs` under the wrapping order, or `None` if empty.
///
/// Used when a flow has no expected sequence number yet, where every buffered segment is a
/// candidate stream start and the earliest one loses the least data.
pub fn lowest_seq(seqs: &[u32]) -> (r: Option<u32>)
    ensures
        r == lowest_of(seqs@),
{
    let mut best: Option<u32> = None;
    let mut i: usize = 0;
    while i < seqs.len()
        invariant
            i <= seqs@.len(),
            best == lowest_of(seqs@.take(i as int)),
        decreases seqs@.len() - i,
    {
        let seq: u32 = seqs[i];
        assert(seqs@.take(i + 1).drop_last() =~= seqs@.take(i as int));
        match best {
            None => {
                best = Some(seq);
            },
            Some(acc) => {
                if wrapping_lt(seq, acc) {
                    best = Some(seq);
                }
            },
        }
        i = i + 1;
    }
    assert(seqs@.take(i as int) =~= seqs@);
    best
}

/// There is a lowest number exactly if there are any, and it is one of them.
pub proof fn law_lowest_is_a_member(seqs: Seq<u32>)
    ensures
        lowest_of(seqs) is Some <==> seqs.len() > 0,
        lowest_of(seqs) is Some ==> seqs.contains(lowest_of(seqs)->0),
    decreases seqs.len(),
{
    if seqs.len() > 0 {
        law_lowest_is_a_member(seqs.drop_last());
        assert(seqs[seqs.len() - 1] == seqs.last());
        if let Some(acc) = lowest_of(seqs.drop_last()) {
            let k = choose|k: int|
                0 <= k < seqs.drop_last().len() && seqs.drop_last()[k] == acc;
            assert(seqs[k] == acc);
        }
    }
}

/// Among numbers that lie within half the circle ahead of some `base`, the lowest is the
/// one nearest to `base`, in whatever order they are listed.
pub proof fn law_lowest_is_earliest_in_window(base: u32, seqs: Seq<u32>)
    requires
        forall|i: int| 0 <= i < seqs.len() ==> seq_dist(base, #[trigger] seqs[i]) < 0x8000_0000,
        seqs.len() > 0,
    ensures
        forall|i: int|
            0 <= i < seqs.len() ==> seq_dist(base, lowest_of(seqs)->0) <= seq_dist(
                base,
                #[trigger] seqs[i],
            ),
    decreases seqs.len(),
{
    let init = seqs.drop_last();
    law_lowest_is_a_member(init);
    if init.len() > 0 {
        assert forall|i: int| 0 <= i < init.len() implies seq_dist(base, #[trigger] init[i])
            < 0x8000_0000 by {
            assert(init[i] == seqs[i]);
        }
        law_lowest_is_earliest_in_window(base, init);
        let acc = lowest_of(init)->0;
        let k = choose|k: int| 0 <= k < init.len() && init[k] == acc;
        assert(seqs[k] == acc);
        assert(seqs[seqs.len() - 1] == seqs.last());
        assert forall|i: int| 0 <= i < seqs.len() implies seq_dist(base, lowest_of(seqs)->0)
            <= seq_dist(base, #[trigger] seqs[i]) by {
            if i < init.len() {
                assert(init[i] == seqs[i]);
            }
        }
    }
}

/// What reassembly hands its segments to: the layers above the transport layer.
pub trait StreamConsumer: Sized {
    /// The connection is no longer wanted.
    spec fn dropped(&self) -> bool;

    /// The connection that the stream belongs to.
    spec fn conn(&self) -> FiveTuple;

    /// The consumer can get from one state to the other by taking the segment.
    spec fn took(before: Self, segment: L4Pdu, after: Self) -> bool;

    /// The consumer can get from one state to the other by being told that the handshake
    /// has completed.
    spec fn told_of_handshake(before: Self, after: Self) -> bool;

    /// Returns `true` if the connection is no longer wanted.
    fn drop(&self) -> (b: bool)
        ensures
            b == self.dropped(),
    ;

    /// Takes the next segment of the stream.
    fn consume_stream(&mut self, segment: &mut L4Pdu)
        ensures
            final(self).conn() == old(self).conn(),
            Self::took(*old(self), *old(segment), *final(self)),
    ;

    /// Takes note that the handshake has completed.
    fn handshake_done(&mut self)
        ensures
            final(self).conn() == old(self).conn(),
            Self::told_of_handshake(*old(self), *final(self)),
    ;
}

/// The consumer took these segments, one after the other, and had not dropped the connection
/// before any of them.
pub open spec fn fed<C: StreamConsumer>(before: C, segments: Seq<L4Pdu>, after: C) -> bool
    decreases segments.len(),
{
    if segments.len() == 0 {
        after == before
    } else {
        exists|mid: C|
            fed(before, segments.drop_last(), mid) && !mid.dropped() && #[trigger] C::took(
                mid,
                segments.last(),
                after,
            )
    }
}

/// The list of delivered segments grew by just those that the consumer took, none of them
/// after it had dropped the connection.
pub open spec fn handed<C: StreamConsumer>(
    before: C,
    list: Seq<L4Pdu>,
    after: C,
    grown: Seq<L4Pdu>,
) -> bool {
    &&& list.is_prefix_of(grown)
    &&& fed(before, grown.skip(list.len() as int), after)
}

/// The list of delivered segments grew by just those that the consumer took: an arriving
/// segment that continues the stream whatever the consumer had decided before, and what it
/// made contiguous for as long as the connection was not dropped.
pub open spec fn handed_on_arrival<C: StreamConsumer>(
    before: C,
    list: Seq<L4Pdu>,
    after: C,
    grown: Seq<L4Pdu>,
    continues: bool,
) -> bool {
    if continues {
        &&& list.len() < grown.len()
        &&& exists|mid: C|
            {
                &&& #[trigger] C::took(before, grown[list.len() as int], mid)
                &&& handed(mid, list.push(grown[list.len() as int]), after, grown)
            }
    } else {
        handed(before, list, after, grown)
    }
}

proof fn lemma_fed_append<C: StreamConsumer>(
    before: C,
    first: Seq<L4Pdu>,
    mid: C,
    second: Seq<L4Pdu>,
    after: C,
)
    requires
        fed(before, first, mid),
        fed(mid, second, after),
    ensures
        fed(before, first + second, after),
    decreases second.len(),
{
    if second.len() == 0 {
        assert(first + second =~= first);
    } else {
        let m = choose|m: C|
            fed(mid, second.drop_last(), m) && !m.dropped() && #[trigger] C::took(
                m,
                second.last(),
                after,
            );
        lemma_fed_append(before, first, mid, second.drop_last(), m);
        assert((first + second).drop_last() =~= first + second.drop_last());
        assert((first + second).last() == second.last());
    }
}

proof fn lemma_handed_on<C: StreamConsumer>(
    before: C,
    list: Seq<L4Pdu>,
    mid: C,
    longer: Seq<L4Pdu>,
    after: C,
    longest: Seq<L4Pdu>,
)
    requires
        handed(before, list, mid, longer),
        handed(mid, longer, after, longest),
    ensures
        handed(before, list, after, longest),
{
    let n = list.len() as int;
    let m = longer.len() as int;
    lemma_fed_append(before, longer.skip(n), mid, longest.skip(m), after);
    assert(longest.skip(n) =~= longer.skip(n) + longest.skip(m)) by {
        assert forall|i: int| n <= i < m implies longer[i] == longest[i] by {
            assert(longest.subrange(0, m)[i] == longer[i]);
        }
    }
}

proof fn lemma_handed_next<C: StreamConsumer>(
    before: C,
    list: Seq<L4Pdu>,
    mid: C,
    longer: Seq<L4Pdu>,
    segment: L4Pdu,
    after: C,
)
    requires
        handed(before, list, mid, longer),
        !mid.dropped(),
        C::took(mid, segment, after),
    ensures
        handed(before, list, after, longer.push(segment)),
{
    let n = list.len() as int;
    let more = longer.push(segment).skip(n);
    assert(more.drop_last() =~= longer.skip(n));
    assert(more.last() == segment);
    assert(longer.push(segment).subrange(0, n) =~= longer.subrange(0, n));
}

/// The segment's payload lies at representable offsets.
pub open spec fn segment_ok(s: L4Pdu) -> bool {
    s.ctxt.offset + s.ctxt.length < usize::MAX
}

/// A FIN takes up one sequence number.
pub open spec fn fin_len(flags: u8) -> int {
    if flags & FIN != 0 {
        1
    } else {
        0
    }
}

/// Length of the payload as it counts in sequence numbers.
pub open spec fn seq_len(s: L4Pdu) -> int {
    s.ctxt.length as u32 as int
}

/// The sequence number after the segment, its FIN included.
pub open spec fn end_seq(s: L4Pdu) -> u32 {
    seq_add(seq_add(s.ctxt.seq_no, seq_len(s)), fin_len(s.ctxt.flags))
}

/// The part of the segment that lies at `expected_seq` and after, if there is any.
pub open spec fn new_part(s: L4Pdu, expected_seq: u32) -> Option<L4Pdu> {
    if seq_before(expected_seq, end_seq(s)) {
        Some(
            L4Pdu {
                ctxt: L4Context {
                    offset: (s.ctxt.offset + seq_dist(s.ctxt.seq_no, expected_seq)) as usize,
                    length: (seq_dist(expected_seq, end_seq(s)) - fin_len(s.ctxt.flags)) as usize,
                    ..s.ctxt
                },
                ..s
            },
        )
    } else {
        None
    }
}

/// The sequence numbers of buffered segments, in buffer order.
pub open spec fn seqs_of(buf: Seq<L4Pdu>) -> Seq<u32> {
    Seq::new(buf.len(), |i: int| buf[i].ctxt.seq_no)
}

/// A counter, which wraps around, after it has counted `by` more.
pub open spec fn bumped(n: u64, by: int) -> u64 {
    ((n + by) % 0x1_0000_0000_0000_0000) as u64
}

/// What reassembly gave up on in one direction. Counters wrap around.
#[derive(Debug, Clone, Copy, PartialEq, Eq, Structural)]
pub struct ReassemblyCounts {
    /// Times the out-of-order buffer was full.
    pub overflows: u64,
    /// Segments dropped because the out-of-order buffer could not be drained.
    pub segments_dropped: u64,
    /// Sequence-number gaps that reassembly permanently gave up on.
    pub gaps: u64,
    /// Stream bytes never observed, summed over all abandoned gaps.
    pub gap_bytes: u64,
    /// Segments that resumed the stream after an abandoned gap.
    pub segments_after_gap: u64,
}

impl ReassemblyCounts {
    /// Nothing was given up on.
    pub open spec fn zero() -> ReassemblyCounts {
        ReassemblyCounts {
            overflows: 0,
            segments_dropped: 0,
            gaps: 0,
            gap_bytes: 0,
            segments_after_gap: 0,
        }
    }

    /// A gap was given up on, and a segment resumes the stream after it.
    pub open spec fn with_gap(self, gap: u32) -> ReassemblyCounts {
        ReassemblyCounts {
            gaps: bumped(self.gaps, 1),
            gap_bytes: bumped(self.gap_bytes, gap as int),
            segments_after_gap: bumped(self.segments_after_gap, 1),
            ..self
        }
    }

    /// The out-of-order buffer was full.
    pub open spec fn with_overflow(self) -> ReassemblyCounts {
        ReassemblyCounts { overflows: bumped(self.overflows, 1), ..self }
    }

    /// Some segments were dropped.
    pub open spec fn with_dropped(self, n: int) -> ReassemblyCounts {
        ReassemblyCounts { segments_dropped: bumped(self.segments_dropped, n), ..self }
    }

    fn new() -> (c: ReassemblyCounts)
        ensures
            c == ReassemblyCounts::zero(),
    {
        ReassemblyCounts {
            overflows: 0,
            segments_dropped: 0,
            gaps: 0,
            gap_bytes: 0,
            segments_after_gap: 0,
        }
    }

    fn count_gap(&mut self, gap: u32)
        ensures
            *final(self) == old(self).with_gap(gap),
    {
        self.gaps = self.gaps.wrapping_add(1);
        self.gap_bytes = self.gap_bytes.wrapping_add(gap as u64);
        self.segments_after_gap = self.segments_after_gap.wrapping_add(1);
    }

    fn count_overflow(&mut self)
        ensures
            *final(self) == old(self).with_overflow(),
    {
        self.overflows = self.overflows.wrapping_add(1);
    }

    fn count_dropped(&mut self, n: usize)
        ensures
            *final(self) == old(self).with_dropped(n as int),
    {
        self.segments_dropped = self.segments_dropped.wrapping_add(n as u64);
    }
}

/// One direction of a connection, as reassembly sees it.
pub struct FlowModel {
    /// Expected sequence number of the next segment.
    pub next_seq: Option<u32>,
    /// Last-seen acknowledgment number for the peer's flow.
    pub last_ack: Option<u32>,
    /// Flags of the consumed segments.
    pub flags: u8,
    /// Segments that wait for a gap to fill, in order of arrival.
    pub buf: Seq<L4Pdu>,
    /// Segments that were delivered, oldest first.
    pub delivered: Seq<L4Pdu>,
    /// Number of segments observed.
    pub observed: int,
    /// The start of the stream was never observed.
    pub start_unknown: bool,
    /// What was given up on.
    pub counts: ReassemblyCounts,
}

/// How many more deliveries the consumer takes before it drops the connection, if it does.
pub open spec fn one_less(limit: Option<nat>) -> Option<nat> {
    match limit {
        Some(n) => Some((n - 1) as nat),
        None => None,
    }
}

/// Delivers `s`, with `next_seq` expected after it.
pub open spec fn deliver(f: FlowModel, s: L4Pdu, next_seq: u32) -> FlowModel {
    FlowModel {
        next_seq: Some(next_seq),
        last_ack: Some(s.ctxt.ack_no),
        flags: f.flags | s.ctxt.flags,
        delivered: f.delivered.push(s),
        ..f
    }
}

/// Delivers a reset, after which nothing is expected to move.
pub open spec fn deliver_reset(f: FlowModel, s: L4Pdu) -> FlowModel {
    FlowModel { flags: f.flags | s.ctxt.flags, delivered: f.delivered.push(s), ..f }
}

/// Works the buffer off from `index` on: delivers what has become the next expected
/// segment, skips what is still ahead, and drops what is old. Each delivery starts over
/// from the front. It ends when every segment left is ahead, when a reset was delivered,
/// or when the consumer, after `limit` deliveries, has dropped the connection.
#[verifier::opaque]
pub open spec fn flushed(f: FlowModel, index: int, limit: Option<nat>) -> FlowModel
    decreases f.buf.len(), f.buf.len() - index,
{
    if !(0 <= index < f.buf.len()) || limit == Some(0nat) {
        f
    } else {
        let s = f.buf[index];
        let next = f.next_seq->0;
        let rest = FlowModel { buf: f.buf.remove(index), ..f };
        if s.ctxt.seq_no == next {
            if s.ctxt.flags & RST != 0 {
                deliver_reset(rest, s)
            } else {
                flushed(deliver(rest, s, end_seq(s)), 0, one_less(limit))
            }
        } else if seq_before(next, s.ctxt.seq_no) {
            flushed(f, index + 1, limit)
        } else {
            match new_part(s, next) {
                Some(part) => flushed(deliver(rest, part, end_seq(s)), 0, one_less(limit)),
                None => flushed(rest, index, limit),
            }
        }
    }
}

/// Works the whole buffer off, with `expected_seq` expected; a connection that is dropped
/// stays as it is.
pub open spec fn flush_from(f: FlowModel, expected_seq: u32, limit: Option<nat>) -> FlowModel {
    if limit == Some(0nat) {
        f
    } else {
        flushed(FlowModel { next_seq: Some(expected_seq), ..f }, 0, limit)
    }
}

/// Where the flow resumes if it gives up the gap in front of it: at the nearest buffered
/// segment ahead, or, if nothing is expected yet, at the lowest buffered segment.
pub open spec fn resume_point(f: FlowModel) -> Option<u32> {
    match f.next_seq {
        Some(next) => resume_seq(next, seqs_of(f.buf)),
        None => lowest_of(seqs_of(f.buf)),
    }
}

/// Number of bytes known to be skipped by resuming at `seq`.
pub open spec fn skipped_bytes(f: FlowModel, seq: u32) -> u32 {
    match f.next_seq {
        Some(next) => seq_dist(next, seq) as u32,
        None => 0,
    }
}

/// `i` is the first segment at `seq`.
pub open spec fn is_first_at(buf: Seq<L4Pdu>, seq: u32, i: int) -> bool {
    &&& 0 <= i < buf.len()
    &&& buf[i].ctxt.seq_no == seq
    &&& forall|j: int| 0 <= j < i ==> (#[trigger] buf[j]).ctxt.seq_no != seq
}

/// Marks the first segment at `seq` as the one that resumes the stream.
pub open spec fn stamped(f: FlowModel, seq: u32) -> Seq<L4Pdu> {
    let i = choose|i: int| is_first_at(f.buf, seq, i);
    f.buf.update(
        i,
        L4Pdu {
            ctxt: L4Context {
                gap_before: skipped_bytes(f, seq),
                stream_start_unknown: f.next_seq is None || f.buf[i].ctxt.stream_start_unknown,
                ..f.buf[i].ctxt
            },
            ..f.buf[i]
        },
    )
}

/// Gives up the gap in front of the flow.
pub open spec fn gap_skipped(f: FlowModel, limit: Option<nat>) -> FlowModel {
    match resume_point(f) {
        Some(seq) if limit != Some(0nat) => flush_from(
            FlowModel {
                buf: stamped(f, seq),
                start_unknown: f.start_unknown || f.next_seq is None,
                counts: f.counts.with_gap(skipped_bytes(f, seq)),
                ..f
            },
            seq,
            limit,
        ),
        _ => f,
    }
}

/// Buffers a segment. Overflow gives up the gap in front of the flow and releases
/// everything still buffered.
pub open spec fn buffered(f: FlowModel, capacity: nat, s: L4Pdu, limit: Option<nat>) -> FlowModel {
    let grown = FlowModel { buf: f.buf.push(s), ..f };
    if f.buf.len() < capacity {
        grown
    } else {
        let full = FlowModel { counts: f.counts.with_overflow(), ..grown };
        let g = gap_skipped(full, limit);
        FlowModel { buf: Seq::empty(), counts: g.counts.with_dropped(g.buf.len() as int), ..g }
    }
}

/// Delivers a segment and what it makes contiguous. Only a flow that had no expected
/// sequence number has one, whatever the consumer then decides.
pub open spec fn delivered_then_flushed(
    f: FlowModel,
    s: L4Pdu,
    expected_seq: u32,
    limit: Option<nat>,
) -> FlowModel {
    let f1 = FlowModel {
        next_seq: if f.next_seq is None {
            Some(expected_seq)
        } else {
            f.next_seq
        },
        ..deliver(f, s, expected_seq)
    };
    flush_from(f1, expected_seq, one_less(limit))
}

/// The flow after a segment has arrived.
pub open spec fn inserted(
    before: FlowModel,
    capacity: nat,
    arriving: L4Pdu,
    limit: Option<nat>,
) -> FlowModel {
    let f = FlowModel { observed: before.observed + 1, ..before };
    let s = L4Pdu { ctxt: L4Context { reassembled: true, ..arriving.ctxt }, ..arriving };
    match f.next_seq {
        Some(next) => if s.ctxt.seq_no == next {
            if s.ctxt.flags & RST != 0 {
                deliver_reset(f, s)
            } else {
                delivered_then_flushed(f, s, end_seq(s), limit)
            }
        } else if seq_before(next, s.ctxt.seq_no) {
            buffered(f, capacity, s, limit)
        } else {
            match new_part(s, next) {
                Some(part) => delivered_then_flushed(f, part, end_seq(s), limit),
                None => f,
            }
        },
        None => if is_synack(s.ctxt.flags) {
            delivered_then_flushed(f, s, seq_add(s.ctxt.seq_no, 1 + seq_len(s)), limit)
        } else {
            buffered(f, capacity, s, limit)
        },
    }
}

/// The arriving segment continues the stream, so that it is delivered at once.
pub open spec fn continues_stream(f: FlowModel, s: L4Pdu) -> bool {
    match f.next_seq {
        Some(next) => s.ctxt.seq_no == next || (!seq_before(next, s.ctxt.seq_no) && new_part(
            s,
            next,
        ) is Some),
        None => is_synack(s.ctxt.flags),
    }
}

/// The limit that explains what a call did: if the connection is dropped after it, the
/// consumer took as many deliveries as the call made.
pub open spec fn limit_of(dropped: bool, before: FlowModel, after: FlowModel) -> Option<nat> {
    if dropped {
        Some((after.delivered.len() - before.delivered.len()) as nat)
    } else {
        None
    }
}

pub open spec fn all_ok(buf: Seq<L4Pdu>) -> bool {
    forall|i: int| 0 <= i < buf.len() ==> segment_ok(#[trigger] buf[i])
}

pub(crate) proof fn lemma_flush_stops(f: FlowModel, index: int, limit: Option<nat>)
    requires
        !(0 <= index < f.buf.len()) || limit == Some(0nat),
    ensures
        flushed(f, index, limit) == f,
{
    reveal(flushed);
}

pub(crate) proof fn lemma_flush_in_order(f: FlowModel, index: int, limit: Option<nat>)
    requires
        0 <= index < f.buf.len(),
        limit != Some(0nat),
        f.next_seq == Some(f.buf[index].ctxt.seq_no),
    ensures
        ({
            let s = f.buf[index];
            let rest = FlowModel { buf: f.buf.remove(index), ..f };
            flushed(f, index, limit) == if s.ctxt.flags & RST != 0 {
                deliver_reset(rest, s)
            } else {
                flushed(deliver(rest, s, end_seq(s)), 0, one_less(limit))
            }
        }),
{
    reveal(flushed);
}

proof fn lemma_flush_ahead(f: FlowModel, index: int, limit: Option<nat>)
    requires
        0 <= index < f.buf.len(),
        f.next_seq is Some,
        seq_before(f.next_seq->0, f.buf[index].ctxt.seq_no),
    ensures
        flushed(f, index, limit) == flushed(f, index + 1, limit),
{
    reveal(flushed);
}

proof fn lemma_flush_behind(f: FlowModel, index: int, limit: Option<nat>)
    requires
        0 <= index < f.buf.len(),
        limit != Some(0nat),
        f.next_seq is Some,
        f.next_seq->0 != f.buf[index].ctxt.seq_no,
        !seq_before(f.next_seq->0, f.buf[index].ctxt.seq_no),
    ensures
        ({
            let s = f.buf[index];
            let rest = FlowModel { buf: f.buf.remove(index), ..f };
            flushed(f, index, limit) == match new_part(s, f.next_seq->0) {
                Some(part) => flushed(deliver(rest, part, end_seq(s)), 0, one_less(limit)),
                None => flushed(rest, index, limit),
            }
        }),
{
    reveal(flushed);
}

/// What a flush delivers leaves the buffer, and nothing enters it: deliveries are only
/// ever added to those made before, and the buffer shrinks by at least as many segments.
pub proof fn law_flush_delivers_from_the_buffer(f: FlowModel, index: int, limit: Option<nat>)
    ensures
        f.delivered.is_prefix_of(flushed(f, index, limit).delivered),
        flushed(f, index, limit).buf.len() + flushed(f, index, limit).delivered.len()
            <= f.buf.len() + f.delivered.len(),
        f.next_seq is Some ==> flushed(f, index, limit).next_seq is Some,
    decreases f.buf.len(), f.buf.len() - index,
{
    reveal(flushed);
    if !(0 <= index < f.buf.len()) || limit == Some(0nat) {
    } else {
        let s = f.buf[index];
        let next = f.next_seq->0;
        let rest = FlowModel { buf: f.buf.remove(index), ..f };
        if s.ctxt.seq_no == next {
            if s.ctxt.flags & RST == 0 {
                law_flush_delivers_from_the_buffer(
                    deliver(rest, s, end_seq(s)),
                    0,
                    one_less(limit),
                );
            }
        } else if seq_before(next, s.ctxt.seq_no) {
            law_flush_delivers_from_the_buffer(f, index + 1, limit);
        } else {
            match new_part(s, next) {
                Some(part) => law_flush_delivers_from_the_buffer(
                    deliver(rest, part, end_seq(s)),
                    0,
                    one_less(limit),
                ),
                None => law_flush_delivers_from_the_buffer(rest, index, limit),
            }
        }
    }
}

/// A flush of a connection that stays wanted ends with every buffered segment ahead of
/// the next expected sequence number, unless it delivered a reset.
pub proof fn law_flush_leaves_only_future_segments(f: FlowModel, index: int)
    requires
        f.next_seq is Some,
        0 <= index <= f.buf.len(),
        forall|i: int|
            0 <= i < index ==> seq_before(f.next_seq->0, (#[trigger] f.buf[i]).ctxt.seq_no),
    ensures
        ({
            let g = flushed(f, index, None);
            ||| g.delivered.len() > f.delivered.len() && g.delivered.last().ctxt.flags & RST != 0
            ||| forall|i: int|
                0 <= i < g.buf.len() ==> seq_before(
                    g.next_seq->0,
                    (#[trigger] g.buf[i]).ctxt.seq_no,
                )
        }),
    decreases f.buf.len(), f.buf.len() - index,
{
    reveal(flushed);
    if index < f.buf.len() {
        let s = f.buf[index];
        let next = f.next_seq->0;
        let rest = FlowModel { buf: f.buf.remove(index), ..f };
        if s.ctxt.seq_no == next {
            if s.ctxt.flags & RST == 0 {
                let d = deliver(rest, s, end_seq(s));
                law_flush_leaves_only_future_segments(d, 0);
                law_flush_delivers_from_the_buffer(d, 0, None);
            }
        } else if seq_before(next, s.ctxt.seq_no) {
            law_flush_leaves_only_future_segments(f, index + 1);
        } else {
            match new_part(s, next) {
                Some(part) => {
                    let d = deliver(rest, part, end_seq(s));
                    law_flush_leaves_only_future_segments(d, 0);
                    law_flush_delivers_from_the_buffer(d, 0, None);
                },
                None => {
                    assert forall|i: int| 0 <= i < index implies seq_before(
                        next,
                        (#[trigger] rest.buf[i]).ctxt.seq_no,
                    ) by {
                        assert(rest.buf[i] == f.buf[i]);
                    }
                    law_flush_leaves_only_future_segments(rest, index);
                },
            }
        }
    }
}

/// The sequence number after a delivered segment, from where the stream was expected to
/// continue: a segment that was cut down starts there.
pub open spec fn advance(next_seq: u32, s: L4Pdu) -> u32 {
    if s.ctxt.seq_no == next_seq {
        end_seq(s)
    } else {
        seq_add(next_seq, s.ctxt.length + fin_len(s.ctxt.flags))
    }
}

/// The expected sequence number after delivering `segs` in turn.
pub open spec fn advance_all(next_seq: u32, segs: Seq<L4Pdu>) -> u32
    decreases segs.len(),
{
    if segs.len() == 0 {
        next_seq
    } else {
        advance(advance_all(next_seq, segs.drop_last()), segs.last())
    }
}

proof fn lemma_advance_append(next_seq: u32, s: L4Pdu, more: Seq<L4Pdu>)
    ensures
        advance_all(next_seq, seq![s] + more) == advance_all(advance(next_seq, s), more),
    decreases more.len(),
{
    let all = seq![s] + more;
    reveal_with_fuel(advance_all, 2);
    if more.len() == 0 {
        assert(all.drop_last() =~= Seq::empty());
        assert(all.last() == s);
    } else {
        assert(all.drop_last() =~= seq![s] + more.drop_last());
        lemma_advance_append(next_seq, s, more.drop_last());
    }
}

/// The stream that a flush delivers has no holes: each delivery starts where the one
/// before it ended, so that the next expected sequence number is the starting point
/// advanced over the deliveries one by one. (A reset, delivered last, advances nothing.)
pub proof fn law_flush_delivers_contiguous_stream(f: FlowModel, index: int, limit: Option<nat>)
    requires
        f.next_seq is Some,
    ensures
        ({
            let g = flushed(f, index, limit);
            let segs = g.delivered.skip(f.delivered.len() as int);
            ||| g.next_seq == Some(advance_all(f.next_seq->0, segs))
            ||| segs.len() > 0 && segs.last().ctxt.flags & RST != 0 && g.next_seq == Some(
                advance_all(f.next_seq->0, segs.drop_last()),
            )
        }),
    decreases f.buf.len(), f.buf.len() - index,
{
    reveal(flushed);
    let g = flushed(f, index, limit);
    let start = f.delivered.len() as int;
    let segs = g.delivered.skip(start);
    if !(0 <= index < f.buf.len()) || limit == Some(0nat) {
        assert(segs =~= Seq::empty());
    } else {
        let s = f.buf[index];
        let next = f.next_seq->0;
        let rest = FlowModel { buf: f.buf.remove(index), ..f };
        if s.ctxt.seq_no == next && s.ctxt.flags & RST != 0 {
            assert(segs =~= seq![s]);
            assert(segs.drop_last() =~= Seq::empty());
        } else if s.ctxt.seq_no != next && seq_before(next, s.ctxt.seq_no) {
            law_flush_delivers_contiguous_stream(f, index + 1, limit);
        } else if s.ctxt.seq_no != next && new_part(s, next) is None {
            law_flush_delivers_contiguous_stream(rest, index, limit);
        } else {
            let part = if s.ctxt.seq_no == next {
                s
            } else {
                new_part(s, next)->0
            };
            let d = deliver(rest, part, end_seq(s));
            assert(advance(next, part) == end_seq(s));
            law_flush_delivers_contiguous_stream(d, 0, one_less(limit));
            law_flush_delivers_from_the_buffer(d, 0, one_less(limit));
            let more = g.delivered.skip(start + 1);
            assert(segs =~= seq![part] + more) by {
                assert(d.delivered[start] == part);
                assert(g.delivered[start] == part);
            }
            lemma_advance_append(next, part, more);
            if more.len() > 0 {
                assert(segs.drop_last() =~= seq![part] + more.drop_last());
                lemma_advance_append(next, part, more.drop_last());
                assert(segs.last() == more.last());
            }
        }
    }
}

proof fn lemma_flush_makes_progress(f: FlowModel, index: int, limit: Option<nat>, at: int)
    requires
        limit != Some(0nat),
        0 <= index <= at < f.buf.len(),
        f.next_seq == Some(f.buf[at].ctxt.seq_no),
    ensures
        flushed(f, index, limit).buf.len() < f.buf.len(),
    decreases at - index,
{
    reveal(flushed);
    let s = f.buf[index];
    let next = f.next_seq->0;
    let rest = FlowModel { buf: f.buf.remove(index), ..f };
    if s.ctxt.seq_no == next {
        law_flush_delivers_from_the_buffer(deliver(rest, s, end_seq(s)), 0, one_less(limit));
    } else if seq_before(next, s.ctxt.seq_no) {
        lemma_flush_makes_progress(f, index + 1, limit, at);
    } else {
        match new_part(s, next) {
            Some(part) => law_flush_delivers_from_the_buffer(
                deliver(rest, part, end_seq(s)),
                0,
                one_less(limit),
            ),
            None => law_flush_delivers_from_the_buffer(rest, index, limit),
        }
    }
}

/// A gap can be given up only where a buffered segment lies beyond it.
pub(crate) proof fn lemma_resume_point_is_buffered(f: FlowModel)
    requires
        resume_point(f) is Some,
    ensures
        seqs_of(f.buf).contains(resume_point(f)->0),
{
    match f.next_seq {
        Some(next) => {
            lemma_resume_exists(next, seqs_of(f.buf));
        },
        None => law_lowest_is_a_member(seqs_of(f.buf)),
    }
}

pub(crate) proof fn lemma_resume_exists(next_seq: u32, seqs: Seq<u32>)
    requires
        !none_ahead(next_seq, seqs),
    ensures
        exists|r: u32| is_resume(next_seq, seqs, r),
    decreases seqs.len(),
{
    let k = choose|k: int| 0 <= k < seqs.len() && seq_before(next_seq, #[trigger] seqs[k]);
    let init = seqs.drop_last();
    let last = seqs.last();
    assert(seqs[seqs.len() - 1] == last);
    if none_ahead(next_seq, init) {
        assert(k == seqs.len() - 1) by {
            if k < init.len() {
                assert(init[k] == seqs[k]);
            }
        }
        assert forall|i: int| 0 <= i < seqs.len() && seq_before(next_seq, #[trigger] seqs[i])
            implies seq_dist(next_seq, last) <= seq_dist(next_seq, seqs[i]) by {
            if i < init.len() {
                assert(init[i] == seqs[i]);
            }
        }
        assert(is_resume(next_seq, seqs, last));
    } else {
        lemma_resume_exists(next_seq, init);
        let r0 = choose|r: u32| is_resume(next_seq, init, r);
        let j = choose|j: int| 0 <= j < init.len() && init[j] == r0;
        assert(seqs[j] == r0);
        let r = if seq_before(next_seq, last) && seq_dist(next_seq, last) < seq_dist(next_seq, r0) {
            last
        } else {
            r0
        };
        assert forall|i: int| 0 <= i < seqs.len() && seq_before(next_seq, #[trigger] seqs[i])
            implies seq_dist(next_seq, r) <= seq_dist(next_seq, seqs[i]) by {
            if i < init.len() {
                assert(init[i] == seqs[i]);
            }
        }
        assert(is_resume(next_seq, seqs, r));
    }
}

pub(crate) proof fn lemma_first_at_exists(buf: Seq<L4Pdu>, seq: u32, k: int)
    requires
        0 <= k < buf.len(),
        buf[k].ctxt.seq_no == seq,
    ensures
        exists|i: int| is_first_at(buf, seq, i),
    decreases k,
{
    if exists|j: int| 0 <= j < k && (#[trigger] buf[j]).ctxt.seq_no == seq {
        let j = choose|j: int| 0 <= j < k && (#[trigger] buf[j]).ctxt.seq_no == seq;
        lemma_first_at_exists(buf, seq, j);
    } else {
        assert(is_first_at(buf, seq, k));
    }
}

/// Giving up a gap always frees at least one buffered segment, and never loses the count
/// of what was delivered.
pub proof fn law_skipping_a_gap_makes_progress(f: FlowModel, limit: Option<nat>)
    requires
        limit != Some(0nat),
        resume_point(f) is Some,
    ensures
        gap_skipped(f, limit).buf.len() < f.buf.len(),
        f.delivered.is_prefix_of(gap_skipped(f, limit).delivered),
{
    let seq = resume_point(f)->0;
    lemma_resume_point_is_buffered(f);
    let k = choose|k: int| 0 <= k < seqs_of(f.buf).len() && seqs_of(f.buf)[k] == seq;
    lemma_first_at_exists(f.buf, seq, k);
    let i = choose|i: int| is_first_at(f.buf, seq, i);
    let g = FlowModel {
        next_seq: Some(seq),
        buf: stamped(f, seq),
        start_unknown: f.start_unknown || f.next_seq is None,
        counts: f.counts.with_gap(skipped_bytes(f, seq)),
        ..f
    };
    assert(g.buf[i].ctxt.seq_no == seq);
    lemma_flush_makes_progress(g, 0, limit, i);
    law_flush_delivers_from_the_buffer(g, 0, limit);
}

pub(crate) proof fn lemma_flush_passes_over(f: FlowModel, index: int, at: int, limit: Option<nat>)
    requires
        0 <= index <= at <= f.buf.len(),
        f.next_seq is Some,
        forall|j: int|
            index <= j < at ==> seq_before(f.next_seq->0, (#[trigger] f.buf[j]).ctxt.seq_no),
    ensures
        flushed(f, index, limit) == flushed(f, at, limit),
    decreases at - index,
{
    if index < at {
        lemma_flush_ahead(f, index, limit);
        lemma_flush_passes_over(f, index + 1, at, limit);
    }
}

/// The segment that resumes a stream after a gap tells how many bytes are missing before
/// it, and is the first to be delivered.
pub proof fn law_resuming_segment_tells_the_gap(f: FlowModel, next_seq: u32, limit: Option<nat>)
    requires
        limit != Some(0nat),
        f.next_seq == Some(next_seq),
        resume_point(f) is Some,
        forall|i: int|
            0 <= i < f.buf.len() ==> seq_before(next_seq, (#[trigger] f.buf[i]).ctxt.seq_no),
    ensures
        ({
            let g = gap_skipped(f, limit);
            let n = f.delivered.len() as int;
            &&& g.delivered.len() > n
            &&& Some(g.delivered[n].ctxt.seq_no) == resume_point(f)
            &&& g.delivered[n].ctxt.gap_before == seq_dist(next_seq, resume_point(f)->0)
        }),
{
    let seqs = seqs_of(f.buf);
    let seq = resume_point(f)->0;
    lemma_resume_point_is_buffered(f);
    lemma_resume_exists(next_seq, seqs);
    let k = choose|k: int| 0 <= k < seqs.len() && seqs[k] == seq;
    lemma_first_at_exists(f.buf, seq, k);
    let at = choose|i: int| is_first_at(f.buf, seq, i);
    let g = FlowModel {
        next_seq: Some(seq),
        buf: stamped(f, seq),
        start_unknown: f.start_unknown || f.next_seq is None,
        counts: f.counts.with_gap(skipped_bytes(f, seq)),
        ..f
    };
    assert forall|j: int| 0 <= j < at implies seq_before(seq, (#[trigger] g.buf[j]).ctxt.seq_no) by {
        assert(g.buf[j] == f.buf[j]);
        assert(seqs[j] == f.buf[j].ctxt.seq_no);
        assert(seq_before(next_seq, seqs[j]));
    }
    lemma_flush_passes_over(g, 0, at, limit);
    lemma_flush_in_order(g, at, limit);
    let s = g.buf[at];
    let rest = FlowModel { buf: g.buf.remove(at), ..g };
    law_flush_delivers_from_the_buffer(deliver(rest, s, end_seq(s)), 0, one_less(limit));
    let all = gap_skipped(f, limit).delivered;
    let n = f.delivered.len() as int;
    if s.ctxt.flags & RST == 0 {
        let d = deliver(rest, s, end_seq(s)).delivered;
        assert(d[n] == s);
        assert(all.subrange(0, d.len() as int)[n] == d[n]);
    }
}

/// Whatever arrives, the out-of-order buffer never holds more than its capacity.
pub proof fn law_buffer_stays_within_capacity(
    f: FlowModel,
    capacity: nat,
    s: L4Pdu,
    limit: Option<nat>,
)
    requires
        f.buf.len() <= capacity,
    ensures
        inserted(f, capacity, s, limit).buf.len() <= capacity,
{
    let f1 = FlowModel { observed: f.observed + 1, ..f };
    let s1 = L4Pdu { ctxt: L4Context { reassembled: true, ..s.ctxt }, ..s };
    lemma_deliver_then_flush_shrinks(f1, s1, end_seq(s1), limit);
    lemma_deliver_then_flush_shrinks(
        f1,
        s1,
        seq_add(s1.ctxt.seq_no, 1 + seq_len(s1)),
        limit,
    );
    if f.next_seq is Some {
        if let Some(part) = new_part(s1, f.next_seq->0) {
            lemma_deliver_then_flush_shrinks(f1, part, end_seq(s1), limit);
        }
    }
}

proof fn lemma_deliver_then_flush_shrinks(
    f: FlowModel,
    s: L4Pdu,
    expected_seq: u32,
    limit: Option<nat>,
)
    ensures
        delivered_then_flushed(f, s, expected_seq, limit).buf.len() <= f.buf.len(),
{
    let f1 = FlowModel {
        next_seq: Some(expected_seq),
        ..deliver(f, s, expected_seq)
    };
    law_flush_delivers_from_the_buffer(f1, 0, one_less(limit));
}

/// Every buffered segment waits for a gap to fill: it lies ahead of what is expected.
pub open spec fn only_future(f: FlowModel) -> bool {
    f.next_seq is Some ==> forall|i: int|
        0 <= i < f.buf.len() ==> seq_before(f.next_seq->0, (#[trigger] f.buf[i]).ctxt.seq_no)
}

/// A reset was delivered between `before` and `after`.
pub open spec fn reset_delivered(before: FlowModel, after: FlowModel) -> bool {
    exists|i: int|
        before.delivered.len() <= i < after.delivered.len() && (
        #[trigger] after.delivered[i]).ctxt.flags & RST != 0
}

/// On a connection that stays wanted and is not reset, a buffered segment always waits for
/// a gap to fill: whatever becomes contiguous is delivered at once.
pub proof fn law_insert_keeps_only_future_segments(f: FlowModel, capacity: nat, s: L4Pdu)
    requires
        only_future(f),
    ensures
        only_future(inserted(f, capacity, s, None)) || reset_delivered(
            f,
            inserted(f, capacity, s, None),
        ),
{
    let f1 = FlowModel { observed: f.observed + 1, ..f };
    let s1 = L4Pdu { ctxt: L4Context { reassembled: true, ..s.ctxt }, ..s };
    lemma_deliver_then_flush_leaves_only_future(f1, s1, end_seq(s1));
    lemma_deliver_then_flush_leaves_only_future(
        f1,
        s1,
        seq_add(s1.ctxt.seq_no, 1 + seq_len(s1)),
    );
    if f.next_seq is Some {
        if let Some(part) = new_part(s1, f.next_seq->0) {
            lemma_deliver_then_flush_leaves_only_future(f1, part, end_seq(s1));
        }
    }
}

proof fn lemma_deliver_then_flush_leaves_only_future(f: FlowModel, s: L4Pdu, expected_seq: u32)
    ensures
        ({
            let g = delivered_then_flushed(f, s, expected_seq, None);
            only_future(g) || reset_delivered(f, g)
        }),
{
    let f1 = FlowModel { next_seq: Some(expected_seq), ..deliver(f, s, expected_seq) };
    law_flush_leaves_only_future_segments(f1, 0);
    law_flush_delivers_from_the_buffer(f1, 0, None);
    let g = flushed(f1, 0, None);
    if !only_future(g) {
        assert(g.delivered[g.delivered.len() - 1].ctxt.flags & RST != 0);
    }
}

/// What is left of a limit after `k` deliveries.
pub open spec fn minus(limit: Option<nat>, k: int) -> Option<nat> {
    match limit {
        Some(n) => Some((n - k) as nat),
        None => None,
    }
}

/// Gives up one gap after the other, until the buffer is empty, nothing buffered lies
/// ahead, or the consumer, after `limit` deliveries, has dropped the connection.
pub open spec fn gaps_recovered(f: FlowModel, limit: Option<nat>) -> FlowModel
    decreases f.buf.len(),
{
    if f.buf.len() == 0 || limit == Some(0nat) || resume_point(f) is None {
        f
    } else {
        let g = gap_skipped(f, limit);
        proof {
            law_skipping_a_gap_makes_progress(f, limit);
        }
        gaps_recovered(g, minus(limit, g.delivered.len() - f.delivered.len()))
    }
}

/// Recovering the gaps of a connection that stays wanted and is not reset delivers or
/// discards everything: nothing stays behind in the buffer.
pub proof fn law_recovery_empties_the_buffer(f: FlowModel)
    requires
        only_future(f),
    ensures
        gaps_recovered(f, None).buf.len() == 0 || reset_delivered(f, gaps_recovered(f, None)),
        f.delivered.is_prefix_of(gaps_recovered(f, None).delivered),
    decreases f.buf.len(),
{
    if f.buf.len() > 0 {
        match f.next_seq {
            Some(next) => {
                assert(seqs_of(f.buf)[0] == f.buf[0].ctxt.seq_no);
                assert(!none_ahead(next, seqs_of(f.buf)));
            },
            None => law_lowest_is_a_member(seqs_of(f.buf)),
        }
        let g = gap_skipped(f, None);
        law_skipping_a_gap_makes_progress(f, None);
        let seq = resume_point(f)->0;
        let start = FlowModel {
            next_seq: Some(seq),
            buf: stamped(f, seq),
            start_unknown: f.start_unknown || f.next_seq is None,
            counts: f.counts.with_gap(skipped_bytes(f, seq)),
            ..f
        };
        law_flush_leaves_only_future_segments(start, 0);
        law_flush_delivers_from_the_buffer(start, 0, None);
        let end = gaps_recovered(g, None);
        if only_future(g) {
            law_recovery_empties_the_buffer(g);
        } else {
            lemma_recovery_extends(g, None);
            assert(end.delivered[g.delivered.len() - 1] == g.delivered.last());
        }
    }
}

pub(crate) proof fn lemma_recovery_extends(f: FlowModel, limit: Option<nat>)
    ensures
        f.delivered.is_prefix_of(gaps_recovered(f, limit).delivered),
        gaps_recovered(f, limit).buf.len() <= f.buf.len(),
    decreases f.buf.len(),
{
    if f.buf.len() == 0 || limit == Some(0nat) || resume_point(f) is None {
    } else {
        let g = gap_skipped(f, limit);
        law_skipping_a_gap_makes_progress(f, limit);
        lemma_recovery_extends(g, minus(limit, g.delivered.len() - f.delivered.len()));
    }
}

/// A limit beyond what a flush delivers does not affect it.
proof fn lemma_flush_slack(f: FlowModel, index: int, extra: nat)
    requires
        extra > 0,
    ensures
        ({
            let g = flushed(f, index, None);
            flushed(f, index, Some((g.delivered.len() - f.delivered.len() + extra) as nat)) == g
        }),
    decreases f.buf.len(), f.buf.len() - index,
{
    reveal(flushed);
    let g = flushed(f, index, None);
    law_flush_delivers_from_the_buffer(f, index, None);
    if 0 <= index < f.buf.len() {
        let s = f.buf[index];
        let next = f.next_seq->0;
        let rest = FlowModel { buf: f.buf.remove(index), ..f };
        if s.ctxt.seq_no == next {
            if s.ctxt.flags & RST == 0 {
                lemma_flush_slack(deliver(rest, s, end_seq(s)), 0, extra);
            }
        } else if seq_before(next, s.ctxt.seq_no) {
            lemma_flush_slack(f, index + 1, extra);
        } else {
            match new_part(s, next) {
                Some(part) => lemma_flush_slack(deliver(rest, part, end_seq(s)), 0, extra),
                None => lemma_flush_slack(rest, index, extra),
            }
        }
    }
}

proof fn lemma_skip_slack(f: FlowModel, extra: nat)
    requires
        extra > 0,
        resume_point(f) is Some,
    ensures
        ({
            let g = gap_skipped(f, None);
            gap_skipped(f, Some((g.delivered.len() - f.delivered.len() + extra) as nat)) == g
        }),
{
    law_skipping_a_gap_makes_progress(f, None);
    let seq = resume_point(f)->0;
    let start = FlowModel {
        next_seq: Some(seq),
        buf: stamped(f, seq),
        start_unknown: f.start_unknown || f.next_seq is None,
        counts: f.counts.with_gap(skipped_bytes(f, seq)),
        ..f
    };
    lemma_flush_slack(start, 0, extra);
}

/// An old segment changes nothing but the count of observed segments: what was delivered
/// once is not delivered again.
pub proof fn law_old_segments_are_not_delivered(
    f: FlowModel,
    capacity: nat,
    s: L4Pdu,
    limit: Option<nat>,
)
    requires
        f.next_seq is Some,
        s.ctxt.seq_no != f.next_seq->0,
        !seq_before(f.next_seq->0, s.ctxt.seq_no),
        !seq_before(f.next_seq->0, end_seq(s)),
    ensures
        inserted(f, capacity, s, limit) == (FlowModel { observed: f.observed + 1, ..f }),
{
}

/// A buffer to hold reordered TCP segments.
#[derive(Debug)]
pub struct OutOfOrderBuffer {
    capacity: usize,
    buf: VecDeque<L4Pdu>,
}

impl View for OutOfOrderBuffer {
    type V = Seq<L4Pdu>;

    closed spec fn view(&self) -> Seq<L4Pdu> {
        self.buf@
    }
}

/// A uni-directional TCP flow.
pub struct TcpFlow {
    /// Expected sequence number of the next segment.
    pub next_seq: Option<u32>,
    /// Last-seen acknowledgment number for the peer's flow.
    pub last_ack: Option<u32>,
    /// Flags of the consumed segments.
    pub consumed_flags: u8,
    /// Out-of-order buffer.
    pub ooo_buf: OutOfOrderBuffer,
    /// Number of observed (not necessarily reassembled) packets.
    pub observed: usize,
    /// The start of this flow's stream was never observed, so the number of bytes missing
    /// before the first delivered segment is unknown.
    pub start_unknown: bool,
    /// What was given up on.
    pub counts: ReassemblyCounts,
    /// Every segment that was handed to the consumer, oldest first.
    pub delivered: Ghost<Seq<L4Pdu>>,
}

impl View for TcpFlow {
    type V = FlowModel;

    open spec fn view(&self) -> FlowModel {
        FlowModel {
            next_seq: self.next_seq,
            last_ack: self.last_ack,
            flags: self.consumed_flags,
            buf: self.ooo_buf@,
            delivered: self.delivered@,
            observed: self.observed as int,
            start_unknown: self.start_unknown,
            counts: self.counts,
        }
    }
}

/// The sequence number after the segment, its FIN included.
fn segment_end(segment: &L4Pdu) -> (end: u32)
    ensures
        end == end_seq(*segment),
{
    let end: u32 = segment.seq_no().wrapping_add(segment.length() as u32);
    if segment.flags() & FIN != 0 {
        end.wrapping_add(1)
    } else {
        end
    }
}

/// The sequence number after a SYN, which takes up one.
fn next_after_syn(segment: &L4Pdu) -> (next: u32)
    ensures
        next == seq_add(segment.ctxt.seq_no, 1 + seq_len(*segment)),
{
    segment.seq_no().wrapping_add(1).wrapping_add(segment.length() as u32)
}

/// Checks if a segment that starts at or before `expected_seq` has data after it. If so,
/// cuts the segment down to its new data and returns the new expected sequence number.
fn overlap(segment: &mut L4Pdu, expected_seq: u32) -> (r: Option<u32>)
    requires
        segment_ok(*old(segment)),
        !seq_before(expected_seq, old(segment).ctxt.seq_no),
    ensures
        match r {
            Some(end) => new_part(*old(segment), expected_seq) == Some(*final(segment)) && end
                == end_seq(*old(segment)),
            None => new_part(*old(segment), expected_seq) is None && *final(segment) == *old(segment),
        },
{
    let length: u32 = segment.length() as u32;
    let cur_seq: u32 = segment.seq_no();
    let end: u32 = segment_end(segment);
    if wrapping_lt(expected_seq, end) {
        let mut new_data_len: u32 = end.wrapping_sub(expected_seq);
        if segment.flags() & FIN != 0 {
            // The FIN takes up a sequence number, but no payload.
            new_data_len = new_data_len - 1;
        }
        let overlap_data_len: u32 = expected_seq.wrapping_sub(cur_seq);
        assert(length <= segment.ctxt.length) by {
            lemma_truncate_le(segment.ctxt.length);
        }
        segment.ctxt.offset = segment.ctxt.offset + overlap_data_len as usize;
        segment.ctxt.length = new_data_len as usize;
        Some(end)
    } else {
        None
    }
}

proof fn lemma_truncate_le(n: usize)
    ensures
        n as u32 <= n,
{
    assert(n as u32 <= n) by (bit_vector);
}

/// Adds `n` to a limit.
spec fn plus(limit: Option<nat>, n: nat) -> Option<nat> {
    match limit {
        Some(k) => Some(k + n),
        None => None,
    }
}

/// After `n` deliveries a flush has come to `before`; one more delivery brings it to `cur`.
proof fn lemma_one_more_delivery(f: FlowModel, before: FlowModel, at: int, cur: FlowModel, n: nat)
    requires
        forall|rem: Option<nat>|
            rem != Some(0nat) ==> #[trigger] flushed(f, 0, plus(rem, n)) == flushed(
                before,
                at,
                rem,
            ),
        forall|rem: Option<nat>|
            #[trigger] flushed(before, at, plus(rem, 1)) == flushed(cur, 0, rem),
    ensures
        forall|rem: Option<nat>|
            #[trigger] flushed(f, 0, plus(rem, n + 1)) == flushed(cur, 0, rem),
{
    assert forall|rem: Option<nat>| #[trigger] flushed(f, 0, plus(rem, n + 1)) == flushed(
        cur,
        0,
        rem,
    ) by {
        assert(plus(rem, n + 1) == plus(plus(rem, 1), n));
        assert(flushed(f, 0, plus(plus(rem, 1), n)) == flushed(before, at, plus(rem, 1)));
    }
}

impl OutOfOrderBuffer {
    /// Number of segments that the buffer holds before the next insert overflows it.
    pub closed spec fn cap(&self) -> nat {
        self.capacity as nat
    }

    /// Creates a new buffer with the given capacity.
    fn new(capacity: usize) -> (b: OutOfOrderBuffer)
        ensures
            b@.len() == 0,
            b.cap() == capacity,
    {
        OutOfOrderBuffer { capacity, buf: VecDeque::new() }
    }

    pub fn is_empty(&self) -> (b: bool)
        ensures
            b == (self@.len() == 0),
    {
        self.buf.len() == 0
    }

    /// The buffer is at capacity; the next insert would overflow.
    pub fn is_full(&self) -> (b: bool)
        ensures
            b == (self@.len() >= self.cap()),
    {
        self.len() >= self.capacity
    }

    /// Returns the number of segments in the buffer.
    pub fn len(&self) -> (n: usize)
        ensures
            n == self@.len(),
    {
        self.buf.len()
    }

    /// Releases every buffered segment.
    pub fn clear(&mut self)
        ensures
            final(self)@ == Seq::<L4Pdu>::empty(),
            final(self).cap() == old(self).cap(),
    {
        self.buf.clear();
    }

    /// Inserts a segment at the end of the buffer. Capacity is enforced by the caller.
    fn insert_back(&mut self, segment: L4Pdu)
        ensures
            final(self)@ == old(self)@.push(segment),
            final(self).cap() == old(self).cap(),
    {
        self.buf.push_back(segment);
    }

    /// Takes a segment out of the buffer.
    fn take(&mut self, i: usize) -> (s: L4Pdu)
        requires
            i < old(self)@.len(),
        ensures
            s == old(self)@[i as int],
            final(self)@ == old(self)@.remove(i as int),
            final(self).cap() == old(self).cap(),
    {
        self.buf.remove(i).unwrap()
    }

    /// The sequence numbers of the buffered segments, in buffer order.
    fn seqs(&self) -> (r: Vec<u32>)
        ensures
            r@ == seqs_of(self@),
    {
        let mut out: Vec<u32> = Vec::new();
        let mut i: usize = 0;
        while i < self.buf.len()
            invariant
                i <= self.buf@.len(),
                out@ == seqs_of(self.buf@).take(i as int),
            decreases self.buf@.len() - i,
        {
            out.push(self.buf[i].seq_no());
            i = i + 1;
            assert(out@ =~= seqs_of(self.buf@).take(i as int));
        }
        assert(out@ =~= seqs_of(self.buf@));
        out
    }

    /// Marks the first segment at `seq` as the one that resumes the stream.
    fn stamp(&mut self, seq: u32, gap: u32, start_unknown: bool)
        requires
            seqs_of(old(self)@).contains(seq),
            all_ok(old(self)@),
        ensures
            final(self).cap() == old(self).cap(),
            all_ok(final(self)@),
            forall|f: FlowModel|
                f.buf == old(self)@ && gap == skipped_bytes(f, seq) && start_unknown
                    == f.next_seq is None ==> final(self)@ == #[trigger] stamped(f, seq),
    {
        let ghost buf = self.buf@;
        let mut i: usize = 0;
        proof {
            let k = choose|k: int| 0 <= k < seqs_of(buf).len() && seqs_of(buf)[k] == seq;
            assert(buf[k].ctxt.seq_no == seq);
        }
        let len: usize = self.buf.len();
        while self.buf[i].seq_no() != seq
            invariant
                buf.len() == len,
                self.buf@ == buf,
                i < buf.len(),
                exists|k: int| i <= k < buf.len() && (#[trigger] buf[k]).ctxt.seq_no == seq,
                forall|j: int| 0 <= j < i ==> (#[trigger] buf[j]).ctxt.seq_no != seq,
            decreases buf.len() - i,
        {
            i = i + 1;
        }
        assert(is_first_at(buf, seq, i as int));
        let mut segment = self.take(i);
        segment.ctxt.gap_before = gap;
        if start_unknown {
            segment.ctxt.stream_start_unknown = true;
        }
        self.buf.insert(i, segment);
        assert forall|f: FlowModel|
            f.buf == buf && gap == skipped_bytes(f, seq) && start_unknown
                == f.next_seq is None implies self.buf@ == #[trigger] stamped(f, seq) by {
            let j = choose|j: int| is_first_at(f.buf, seq, j);
            assert(is_first_at(f.buf, seq, j));
            assert(j == i);
            assert(self.buf@ =~= stamped(f, seq));
        }
    }

    /// Consumes segments with expected data, retains segments with future data, and drops
    /// segments with old data. Returns the next expected sequence number.
    fn flush_ordered<C: StreamConsumer>(
        &mut self,
        expected_seq: u32,
        last_ack: &mut Option<u32>,
        consumed_flags: &mut u8,
        delivered: &mut Ghost<Seq<L4Pdu>>,
        info: &mut C,
        Ghost(f): Ghost<FlowModel>,
    ) -> (next_seq: u32)
        requires
            all_ok(old(self)@),
            !old(info).dropped(),
            f.next_seq == Some(expected_seq),
            f.last_ack == *old(last_ack),
            f.flags == *old(consumed_flags),
            f.buf == old(self)@,
            f.delivered == old(delivered)@,
        ensures
            final(info).conn() == old(info).conn(),
            handed(*old(info), old(delivered)@, *final(info), final(delivered)@),
            final(self).cap() == old(self).cap(),
            all_ok(final(self)@),
            old(delivered)@.len() <= final(delivered)@.len(),
            old(delivered)@.len() == final(delivered)@.len() ==> *final(info) == *old(info),
            ({
                let g = FlowModel {
                    next_seq: Some(next_seq),
                    last_ack: *final(last_ack),
                    flags: *final(consumed_flags),
                    buf: final(self)@,
                    delivered: final(delivered)@,
                    ..f
                };
                g == flushed(f, 0, limit_of(final(info).dropped(), f, g))
            }),
    {
        let mut next_seq: u32 = expected_seq;
        let mut index: usize = 0;
        let ghost mut cur: FlowModel = f;
        let ghost mut n: nat = 0;
        while index < self.buf.len()
            invariant
                info.conn() == old(info).conn(),
                handed(*old(info), old(delivered)@, *info, delivered@),
                self.cap() == old(self).cap(),
                f.delivered == old(delivered)@,
                all_ok(self@),
                cur == (FlowModel {
                    next_seq: Some(next_seq),
                    last_ack: *last_ack,
                    flags: *consumed_flags,
                    buf: self@,
                    delivered: delivered@,
                    ..f
                }),
                index <= self@.len(),
                cur.delivered.len() == f.delivered.len() + n,
                n == 0 ==> *info == *old(info),
                forall|rem: Option<nat>|
                    info.dropped() || rem != Some(0nat) ==> #[trigger] flushed(f, 0, plus(rem, n))
                        == flushed(cur, index as int, rem),
            decreases self@.len(), self@.len() - index,
        {
            if info.drop() {
                proof {
                    assert(flushed(f, 0, plus(Some(0nat), n)) == flushed(
                        cur,
                        index as int,
                        Some(0nat),
                    ));
                    lemma_flush_stops(cur, index as int, Some(0nat));
                }
                return next_seq;
            }
            let ghost before = cur;
            let ghost at = index as int;
            let ghost taker = *info;
            let cur_seq: u32 = self.buf[index].seq_no();
            if next_seq == cur_seq {
                let mut segment = self.take(index);
                *consumed_flags = *consumed_flags | segment.flags();
                proof {
                    delivered@ = delivered@.push(segment);
                }
                let ack: u32 = segment.ack_no();
                let ghost seg = segment;
                if segment.flags() & RST != 0 {
                    info.consume_stream(&mut segment);
                    proof {
                        lemma_handed_next(
                            *old(info),
                            f.delivered,
                            taker,
                            before.delivered,
                            seg,
                            *info,
                        );
                        assert(flushed(f, 0, plus(Some(1nat), n)) == flushed(
                            before,
                            at,
                            Some(1nat),
                        ));
                        assert(flushed(f, 0, plus(None, n)) == flushed(before, at, None));
                        lemma_flush_in_order(before, at, Some(1nat));
                        lemma_flush_in_order(before, at, None);
                    }
                    return next_seq;
                }
                next_seq = segment_end(&segment);
                info.consume_stream(&mut segment);
                *last_ack = Some(ack);
                index = 0;
                proof {
                    lemma_handed_next(
                        *old(info),
                        f.delivered,
                        taker,
                        before.delivered,
                        seg,
                        *info,
                    );
                    cur = deliver(FlowModel { buf: self@, ..before }, seg, next_seq);
                    n = n + 1;
                    assert(cur == deliver(
                        FlowModel { buf: before.buf.remove(at), ..before },
                        before.buf[at],
                        end_seq(before.buf[at]),
                    ));
                    assert forall|rem: Option<nat>| flushed(before, at, plus(rem, 1)) == flushed(
                        cur,
                        0,
                        rem,
                    ) by {
                        lemma_flush_in_order(before, at, plus(rem, 1));
                    }
                    lemma_one_more_delivery(f, before, at, cur, (n - 1) as nat);
                }
            } else if wrapping_lt(next_seq, cur_seq) {
                index = index + 1;
                proof {
                    assert forall|rem: Option<nat>|
                        rem != Some(0nat) implies #[trigger] flushed(f, 0, plus(rem, n))
                        == flushed(cur, index as int, rem) by {
                        lemma_flush_ahead(before, at, rem);
                    }
                }
            } else {
                let mut segment = self.take(index);
                match overlap(&mut segment, next_seq) {
                    Some(update_seq) => {
                        next_seq = update_seq;
                        *consumed_flags = *consumed_flags | segment.flags();
                        proof {
                            delivered@ = delivered@.push(segment);
                        }
                        let ack: u32 = segment.ack_no();
                        let ghost seg = segment;
                        info.consume_stream(&mut segment);
                        *last_ack = Some(ack);
                        index = 0;
                        proof {
                            lemma_handed_next(
                                *old(info),
                                f.delivered,
                                taker,
                                before.delivered,
                                seg,
                                *info,
                            );
                            cur = deliver(FlowModel { buf: self@, ..before }, seg, next_seq);
                            n = n + 1;
                            assert(cur == deliver(
                                FlowModel { buf: before.buf.remove(at), ..before },
                                new_part(before.buf[at], before.next_seq->0)->0,
                                end_seq(before.buf[at]),
                            ));
                            assert forall|rem: Option<nat>|
                                flushed(before, at, plus(rem, 1)) == flushed(cur, 0, rem) by {
                                lemma_flush_behind(before, at, plus(rem, 1));
                            }
                            lemma_one_more_delivery(f, before, at, cur, (n - 1) as nat);
                        }
                    },
                    None => {
                        segment.mark_no_payload();
                        proof {
                            cur = FlowModel { buf: self@, ..before };
                            assert forall|rem: Option<nat>|
                                rem != Some(0nat) implies #[trigger] flushed(f, 0, plus(rem, n))
                                == flushed(cur, index as int, rem) by {
                                lemma_flush_behind(before, at, rem);
                            }
                        }
                    },
                }
            }
        }
        proof {
            lemma_flush_stops(cur, index as int, Some(0nat));
            lemma_flush_stops(cur, index as int, None);
            if info.dropped() {
                assert(flushed(f, 0, plus(Some(0nat), n)) == cur);
            } else {
                assert(flushed(f, 0, plus(None, n)) == cur);
            }
        }
        next_seq
    }
}

impl TcpFlow {
    /// The flow's segments can be handled.
    pub open spec fn wf(&self) -> bool {
        all_ok(self.ooo_buf@) && self.ooo_buf@.len() <= self.ooo_buf.cap()
    }

    /// Creates a flow on which nothing has been observed.
    pub fn default(capacity: usize) -> (f: TcpFlow)
        ensures
            f.wf(),
            f.ooo_buf.cap() == capacity,
            f@ == (FlowModel {
                next_seq: None,
                last_ack: None,
                flags: 0,
                buf: Seq::empty(),
                delivered: Seq::empty(),
                observed: 0,
                start_unknown: false,
                counts: ReassemblyCounts::zero(),
            }),
    {
        let f = TcpFlow {
            next_seq: None,
            last_ack: None,
            consumed_flags: 0,
            ooo_buf: OutOfOrderBuffer::new(capacity),
            observed: 0,
            start_unknown: false,
            counts: ReassemblyCounts::new(),
            delivered: Ghost(Seq::empty()),
        };
        assert(f@.buf =~= Seq::empty());
        f
    }

    /// Creates a flow whose first segment has been observed, with the given next sequence
    /// number, flags and acknowledgment number.
    pub fn new(capacity: usize, next_seq: u32, flags: u8, ack: u32) -> (f: TcpFlow)
        ensures
            f.wf(),
            f.ooo_buf.cap() == capacity,
            f@ == (FlowModel {
                next_seq: Some(next_seq),
                last_ack: Some(ack),
                flags,
                buf: Seq::empty(),
                delivered: Seq::empty(),
                observed: 1,
                start_unknown: false,
                counts: ReassemblyCounts::zero(),
            }),
    {
        let f = TcpFlow {
            next_seq: Some(next_seq),
            last_ack: Some(ack),
            consumed_flags: flags,
            ooo_buf: OutOfOrderBuffer::new(capacity),
            observed: 1,
            start_unknown: false,
            counts: ReassemblyCounts::new(),
            delivered: Ghost(Seq::empty()),
        };
        assert(f@.buf =~= Seq::empty());
        f
    }

    /// Hands a segment to the consumer.
    fn consume<C: StreamConsumer>(&mut self, segment: L4Pdu, info: &mut C)
        ensures
            final(info).conn() == old(info).conn(),
            C::took(*old(info), segment, *final(info)),
            *final(self) == (TcpFlow {
                consumed_flags: old(self).consumed_flags | segment.ctxt.flags,
                delivered: Ghost(old(self).delivered@.push(segment)),
                ..*old(self)
            }),
    {
        let mut segment = segment;
        self.consumed_flags = self.consumed_flags | segment.flags();
        proof {
            self.delivered@ = self.delivered@.push(segment);
        }
        info.consume_stream(&mut segment);
    }

    /// Attempts to insert an incoming data segment into the flow. Buffers future segments
    /// and drops old segments.
    ///
    /// If the out-of-order buffer is full, reassembly gives up on a sequence gap rather
    /// than discarding the connection. The arriving segment takes part in that decision.
    pub fn insert_segment<C: StreamConsumer>(&mut self, segment: L4Pdu, info: &mut C)
        requires
            old(self).wf(),
            segment_ok(segment),
            old(self).observed < usize::MAX,
        ensures
            final(info).conn() == old(info).conn(),
            handed_on_arrival(
                *old(info),
                old(self)@.delivered,
                *final(info),
                final(self)@.delivered,
                continues_stream(old(self)@, segment),
            ),
            final(self).wf(),
            final(self).ooo_buf.cap() == old(self).ooo_buf.cap(),
            final(self)@ == inserted(
                old(self)@,
                old(self).ooo_buf.cap(),
                segment,
                limit_of(final(info).dropped(), old(self)@, final(self)@),
            ),
    {
        let mut segment = segment;
        self.observed = self.observed + 1;
        segment.ctxt.reassembled = true;
        let cur_seq: u32 = segment.seq_no();
        let flags: u8 = segment.flags();
        match self.next_seq {
            Some(next_seq) => {
                if next_seq == cur_seq {
                    if flags & RST != 0 {
                        let ghost list = self@.delivered;
                        self.consume(segment, info);
                        assert(C::took(*old(info), self@.delivered[list.len() as int], *info));
                        return;
                    }
                    let expected_seq: u32 = segment_end(&segment);
                    self.deliver_and_flush(segment, expected_seq, info);
                } else if wrapping_lt(next_seq, cur_seq) {
                    self.buffer_ooo_seg(segment, info);
                } else {
                    match overlap(&mut segment, next_seq) {
                        Some(expected_seq) => {
                            self.deliver_and_flush(segment, expected_seq, info);
                        },
                        None => {
                            segment.mark_no_payload();
                        },
                    }
                }
            },
            None => {
                if flags & SYN != 0 && flags & ACK != 0 {
                    // A SYN/ACK in response to the originator's SYN.
                    let expected_seq: u32 = next_after_syn(&segment);
                    self.deliver_and_flush(segment, expected_seq, info);
                } else {
                    self.buffer_ooo_seg(segment, info);
                }
            },
        }
    }

    /// Hands a segment to the consumer, and then whatever it makes contiguous.
    fn deliver_and_flush<C: StreamConsumer>(
        &mut self,
        segment: L4Pdu,
        expected_seq: u32,
        info: &mut C,
    )
        requires
            old(self).wf(),
        ensures
            final(info).conn() == old(info).conn(),
            handed_on_arrival(
                *old(info),
                old(self)@.delivered,
                *final(info),
                final(self)@.delivered,
                true,
            ),
            final(self).wf(),
            final(self).ooo_buf.cap() == old(self).ooo_buf.cap(),
            final(self)@ == delivered_then_flushed(
                old(self)@,
                segment,
                expected_seq,
                limit_of(final(info).dropped(), old(self)@, final(self)@),
            ),
    {
        let ack: u32 = segment.ack_no();
        self.consume(segment, info);
        if self.next_seq.is_none() {
            self.next_seq = Some(expected_seq);
        }
        self.last_ack = Some(ack);
        let ghost taker = *info;
        let ghost list = self@.delivered;
        self.flush_ooo_buffer(expected_seq, info);
        assert(self@.delivered[list.len() - 1] == segment) by {
            assert(self@.delivered.subrange(0, list.len() as int)[list.len() - 1] == segment);
        }
        assert(C::took(*old(info), self@.delivered[list.len() - 1], taker));
    }

    /// Inserts a packet into the out-of-order buffer.
    ///
    /// Overflow means this flow is too fragmented to reassemble within its budget. Gives
    /// up on the gap in front of it, delivering whatever that makes contiguous, and then
    /// releases everything still buffered rather than holding it. The arriving segment is
    /// buffered first so that it competes as a resume point.
    fn buffer_ooo_seg<C: StreamConsumer>(&mut self, segment: L4Pdu, info: &mut C)
        requires
            old(self).wf(),
            segment_ok(segment),
        ensures
            final(info).conn() == old(info).conn(),
            handed(*old(info), old(self)@.delivered, *final(info), final(self)@.delivered),
            final(self).wf(),
            final(self).ooo_buf.cap() == old(self).ooo_buf.cap(),
            final(self)@.delivered.len() >= old(self)@.delivered.len(),
            final(self)@ == buffered(
                old(self)@,
                old(self).ooo_buf.cap(),
                segment,
                limit_of(final(info).dropped(), old(self)@, final(self)@),
            ),
    {
        let full = self.ooo_buf.is_full();
        self.ooo_buf.insert_back(segment);
        assert(self@ == (FlowModel { buf: old(self)@.buf.push(segment), ..old(self)@ }));
        if !full {
            return;
        }
        self.counts.count_overflow();
        self.skip_gap(info);
        self.counts.count_dropped(self.ooo_buf.len());
        self.ooo_buf.clear();
    }

    /// Permanently gives up on the sequence gap in front of this flow: resumes at the
    /// lowest buffered sequence number and flushes everything that becomes contiguous.
    ///
    /// The number of skipped bytes is stamped onto the resuming segment, so that consumers
    /// can tell that the stream is no longer byte-contiguous. With no expected sequence
    /// number yet, the size of the missing prefix is unknowable: the gap is zero and the
    /// flow and the segment are flagged instead.
    ///
    /// Returns `true` if the buffer made progress.
    pub fn skip_gap<C: StreamConsumer>(&mut self, info: &mut C) -> (progress: bool)
        requires
            all_ok(old(self).ooo_buf@),
        ensures
            final(info).conn() == old(info).conn(),
            handed(*old(info), old(self)@.delivered, *final(info), final(self)@.delivered),
            all_ok(final(self).ooo_buf@),
            final(self).ooo_buf.cap() == old(self).ooo_buf.cap(),
            final(self)@.delivered.len() >= old(self)@.delivered.len(),
            progress == (!old(info).dropped() && resume_point(old(self)@) is Some),
            final(self)@.delivered.len() == old(self)@.delivered.len() ==> *final(info) == *old(info),
            final(self)@ == gap_skipped(
                old(self)@,
                if progress {
                    limit_of(final(info).dropped(), old(self)@, final(self)@)
                } else {
                    Some(0)
                },
            ),
    {
        if info.drop() {
            return false;
        }
        let start_unknown = self.next_seq.is_none();
        let seqs = self.ooo_buf.seqs();
        let (resume, gap) = match self.next_seq {
            Some(next_seq) => match select_resume_seq(next_seq, seqs.as_slice()) {
                Some(found) => found,
                None => {
                    return false;
                },
            },
            None => match lowest_seq(seqs.as_slice()) {
                Some(seq) => {
                    proof {
                        law_lowest_is_a_member(seqs@);
                    }
                    (seq, 0u32)
                },
                None => {
                    return false;
                },
            },
        };
        let ghost f = self@;
        self.start_unknown = self.start_unknown || start_unknown;
        self.counts.count_gap(gap);
        self.ooo_buf.stamp(resume, gap, start_unknown);
        assert(self.ooo_buf@ == stamped(f, resume));
        self.next_seq = Some(resume);
        self.flush_ooo_buffer(resume, info);
        true
    }

    /// Flushes the out-of-order buffer given the next expected sequence number, and updates
    /// the flow's next expected sequence number and status after the flush.
    pub fn flush_ooo_buffer<C: StreamConsumer>(&mut self, expected_seq: u32, info: &mut C)
        requires
            all_ok(old(self).ooo_buf@),
        ensures
            final(info).conn() == old(info).conn(),
            handed(*old(info), old(self)@.delivered, *final(info), final(self)@.delivered),
            all_ok(final(self).ooo_buf@),
            final(self).ooo_buf.cap() == old(self).ooo_buf.cap(),
            final(self)@.delivered.len() >= old(self)@.delivered.len(),
            final(self)@ == flush_from(
                old(self)@,
                expected_seq,
                if old(info).dropped() {
                    Some(0)
                } else {
                    limit_of(final(info).dropped(), old(self)@, final(self)@)
                },
            ),
            final(self)@.delivered.len() == old(self)@.delivered.len() ==> *final(info) == *old(info),
            final(self)@.buf.len() <= old(self)@.buf.len(),
    {
        if info.drop() {
            return;
        }
        let ghost f = FlowModel { next_seq: Some(expected_seq), ..self@ };
        let next_seq: u32 = self.ooo_buf.flush_ordered(
            expected_seq,
            &mut self.last_ack,
            &mut self.consumed_flags,
            &mut self.delivered,
            info,
            Ghost(f),
        );
        self.next_seq = Some(next_seq);
        proof {
            law_flush_delivers_from_the_buffer(f, 0, limit_of(info.dropped(), f, self@));
        }
    }

    /// Gives up one gap after the other, delivering all buffered out-of-order data.
    pub fn recover_gaps<C: StreamConsumer>(&mut self, info: &mut C)
        requires
            old(self).wf(),
        ensures
            final(info).conn() == old(info).conn(),
            handed(*old(info), old(self)@.delivered, *final(info), final(self)@.delivered),
            final(self).wf(),
            final(self).ooo_buf.cap() == old(self).ooo_buf.cap(),
            final(self)@ == gaps_recovered(
                old(self)@,
                if old(info).dropped() {
                    Some(0)
                } else {
                    limit_of(final(info).dropped(), old(self)@, final(self)@)
                },
            ),
            old(info).dropped() ==> *final(info) == *old(info),
    {
        if info.drop() {
            return;
        }
        let ghost f = self@;
        let ghost mut n: nat = 0;
        let mut progress = true;
        while progress && !self.ooo_buf.is_empty()
            invariant
                info.conn() == old(info).conn(),
                handed(*old(info), old(self)@.delivered, *info, self@.delivered),
                self.wf(),
                self.ooo_buf.cap() == old(self).ooo_buf.cap(),
                self@.delivered.len() == f.delivered.len() + n,
                !progress ==> info.dropped() || resume_point(self@) is None,
                info.dropped() ==> gaps_recovered(f, Some(n)) == self@,
                !info.dropped() ==> forall|rem: Option<nat>|
                    rem != Some(0nat) ==> #[trigger] gaps_recovered(f, plus(rem, n))
                        == gaps_recovered(self@, rem),
            decreases (if progress {
                1int
            } else {
                0
            }), self@.buf.len(),
        {
            let ghost before = self@;
            let ghost done = n;
            let ghost taker = *info;
            progress = self.skip_gap(info);
            proof {
                lemma_handed_on(
                    *old(info),
                    old(self)@.delivered,
                    taker,
                    before.delivered,
                    *info,
                    self@.delivered,
                );
                let k = (self@.delivered.len() - before.delivered.len()) as nat;
                n = done + k;
                if progress {
                    let limit = limit_of(info.dropped(), before, self@);
                    law_skipping_a_gap_makes_progress(before, limit);
                    if info.dropped() {
                        assert(gaps_recovered(self@, Some(0nat)) == self@);
                        assert(minus(Some(k), k as int) == Some(0nat));
                        assert(plus(Some(k), done) == Some(n));
                        assert(gaps_recovered(f, plus(Some(k), done)) == gaps_recovered(
                            before,
                            Some(k),
                        ));
                    } else {
                        assert forall|rem: Option<nat>|
                            rem != Some(0nat) implies #[trigger] gaps_recovered(f, plus(rem, n))
                            == gaps_recovered(self@, rem) by {
                            assert(plus(rem, n) == plus(plus(rem, k), done));
                            assert(gaps_recovered(f, plus(plus(rem, k), done)) == gaps_recovered(
                                before,
                                plus(rem, k),
                            ));
                            if rem is Some {
                                lemma_skip_slack(before, rem->0);
                            }
                            assert(gap_skipped(before, plus(rem, k)) == self@);
                            assert(minus(plus(rem, k), k as int) == rem);
                        }
                    }
                }
            }
        }
        proof {
            if !info.dropped() {
                assert(gaps_recovered(f, plus(None, n)) == gaps_recovered(self@, None));
            }
        }
    }
}

} // verus!
