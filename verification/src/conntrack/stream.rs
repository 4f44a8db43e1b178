//! What reassembly delivers, in terms of the stream that the sender wrote.

use crate::conntrack::pdu::{L4Context, L4Pdu};
use crate::conntrack::reassembly::{
    deliver, delivered_then_flushed, end_seq, flushed, gap_skipped, gaps_recovered,
    inserted, is_first_at, law_flush_delivers_from_the_buffer,
    law_flush_leaves_only_future_segments, law_insert_keeps_only_future_segments,
    law_resuming_segment_tells_the_gap, law_skipping_a_gap_makes_progress, lemma_first_at_exists, lemma_flush_in_order,
    lemma_flush_passes_over, lemma_recovery_extends, lemma_resume_exists,
    lemma_resume_point_is_buffered, new_part, one_less, only_future, reset_delivered,
    resume_point, seq_add, seq_before, seq_dist, seq_len, seqs_of, skipped_bytes, stamped,
    FlowModel,
};
use crate::conntrack::tcp::{is_synack, RST};
use vstd::prelude::*;

verus! {

/// The payload of a segment, where its context places it inside the frame.
pub open spec fn payload(s: L4Pdu) -> Seq<u8> {
    s.mbuf@.subrange(s.ctxt.offset as int, s.ctxt.offset + s.ctxt.length)
}

/// The payload lies inside the frame, and the segment covers less than half of the sequence
/// numbers.
pub open spec fn in_frame(s: L4Pdu) -> bool {
    s.ctxt.offset + s.ctxt.length <= s.mbuf@.len() && s.ctxt.length + 1 < 0x8000_0000
}

/// The `n` bytes of a stream that start at a sequence number.
pub open spec fn stream_part(stream: spec_fn(u32) -> u8, from: u32, n: int) -> Seq<u8> {
    Seq::new(n as nat, |k: int| stream(seq_add(from, k)))
}

/// The segment holds the bytes of the stream at its sequence numbers.
pub open spec fn of_stream(s: L4Pdu, stream: spec_fn(u32) -> u8) -> bool {
    in_frame(s) && payload(s) == stream_part(stream, s.ctxt.seq_no, s.ctxt.length as int)
}

/// The segment holds bytes of the stream and has not been marked as one after a gap.
pub open spec fn fresh(s: L4Pdu, stream: spec_fn(u32) -> u8) -> bool {
    of_stream(s, stream) && s.ctxt.gap_before == 0
}

/// All segments are fresh.
pub open spec fn all_fresh(segs: Seq<L4Pdu>, stream: spec_fn(u32) -> u8) -> bool {
    forall|i: int| 0 <= i < segs.len() ==> fresh(#[trigger] segs[i], stream)
}

/// The sequence numbers that a segment takes up: one for each byte, and one for a FIN.
pub open spec fn span(s: L4Pdu) -> int {
    s.ctxt.length + if s.ctxt.flags & 0x01 != 0 {
        1int
    } else {
        0
    }
}

/// From `from` on the segments hold the stream, one after the other: each starts where the
/// one before it ended, or as many bytes later as it says are missing before it.
pub open spec fn runs(stream: spec_fn(u32) -> u8, from: u32, segs: Seq<L4Pdu>) -> bool
    decreases segs.len(),
{
    segs.len() > 0 ==> {
        let start = seq_add(from, segs[0].ctxt.gap_before as int);
        &&& in_frame(segs[0])
        &&& payload(segs[0]) == stream_part(stream, start, segs[0].ctxt.length as int)
        &&& runs(stream, seq_add(start, span(segs[0])), segs.skip(1))
    }
}

/// Where the segments end, if the first starts at `from`.
pub open spec fn run_end(from: u32, segs: Seq<L4Pdu>) -> u32
    decreases segs.len(),
{
    if segs.len() == 0 {
        from
    } else {
        run_end(
            seq_add(seq_add(from, segs[0].ctxt.gap_before as int), span(segs[0])),
            segs.skip(1),
        )
    }
}

/// The payloads of the segments, put together.
pub open spec fn bytes_of(segs: Seq<L4Pdu>) -> Seq<u8>
    decreases segs.len(),
{
    if segs.len() == 0 {
        Seq::empty()
    } else {
        payload(segs[0]) + bytes_of(segs.skip(1))
    }
}

/// None of the segments is a reset.
pub open spec fn no_reset(segs: Seq<L4Pdu>) -> bool {
    forall|i: int| 0 <= i < segs.len() ==> (#[trigger] segs[i]).ctxt.flags & RST == 0
}

/// Nothing is missing before any of the segments, and none but the last has a FIN.
pub open spec fn unbroken(segs: Seq<L4Pdu>) -> bool {
    &&& forall|i: int| 0 <= i < segs.len() ==> (#[trigger] segs[i]).ctxt.gap_before == 0
    &&& forall|i: int| 0 <= i < segs.len() - 1 ==> (#[trigger] segs[i]).ctxt.flags & 0x01 == 0
}

proof fn lemma_seq_add_zero(a: u32)
    ensures
        seq_add(a, 0) == a,
{
}

proof fn lemma_seq_add_twice(a: u32, m: int, n: int)
    ensures
        seq_add(seq_add(a, m), n) == seq_add(a, m + n),
{
}

proof fn lemma_stream_parts_join(stream: spec_fn(u32) -> u8, from: u32, m: int, n: int)
    requires
        m >= 0,
        n >= 0,
    ensures
        stream_part(stream, from, m) + stream_part(stream, seq_add(from, m), n) == stream_part(
            stream,
            from,
            m + n,
        ),
{
    let a = stream_part(stream, from, m);
    let b = stream_part(stream, seq_add(from, m), n);
    let c = stream_part(stream, from, m + n);
    assert forall|k: int| 0 <= k < m + n implies (a + b)[k] == c[k] by {
        if k >= m {
            lemma_seq_add_twice(from, m, k - m);
        }
    }
    assert(a + b =~= c);
}

/// Segments that hold the stream one after the other, with nothing missing, hold its bytes
/// from the first sequence number on.
pub proof fn law_unbroken_segments_are_the_stream(
    stream: spec_fn(u32) -> u8,
    from: u32,
    segs: Seq<L4Pdu>,
)
    requires
        runs(stream, from, segs),
        unbroken(segs),
    ensures
        bytes_of(segs) == stream_part(stream, from, bytes_of(segs).len() as int),
    decreases segs.len(),
{
    if segs.len() == 0 {
        assert(bytes_of(segs) =~= stream_part(stream, from, 0));
    } else {
        let rest = segs.skip(1);
        let s = segs[0];
        lemma_seq_add_zero(from);
        assert(forall|i: int| 0 <= i < rest.len() ==> rest[i] == segs[i + 1]);
        assert(unbroken(rest));
        let next = seq_add(from, span(s));
        law_unbroken_segments_are_the_stream(stream, next, rest);
        let n = s.ctxt.length as int;
        if rest.len() > 0 {
            assert(s.ctxt.flags & 0x01 == 0);
            lemma_stream_parts_join(stream, from, n, bytes_of(rest).len() as int);
        } else {
            assert(payload(s) + bytes_of(rest) =~= payload(s));
        }
    }
}

/// A segment that was cut down to what is new ends where it ended before, and starts as many
/// bytes later as lie before the expected sequence number.
pub proof fn law_cut_segment_keeps_its_end(s: L4Pdu, expected_seq: u32, part: L4Pdu)
    requires
        in_frame(s),
        !seq_before(expected_seq, s.ctxt.seq_no),
        new_part(s, expected_seq) == Some(part),
    ensures
        part.ctxt.offset + part.ctxt.length == s.ctxt.offset + s.ctxt.length,
        part.ctxt.offset == s.ctxt.offset + seq_dist(s.ctxt.seq_no, expected_seq),
        part.mbuf == s.mbuf,
        part.ctxt.flags == s.ctxt.flags,
        part.ctxt.gap_before == s.ctxt.gap_before,
        seq_add(expected_seq, span(part)) == seq_add(s.ctxt.seq_no, span(s)),
{
    assert(s.mbuf@.len() == s.mbuf.data.len());
    lemma_small_length(s.ctxt.length);
}

proof fn lemma_small_length(n: usize)
    requires
        n < 0x8000_0000,
    ensures
        n as u32 == n,
{
}

/// A segment that was cut down holds the stream from the expected sequence number on.
pub proof fn law_cut_segment_holds_the_stream(
    s: L4Pdu,
    expected_seq: u32,
    part: L4Pdu,
    stream: spec_fn(u32) -> u8,
)
    requires
        of_stream(s, stream),
        !seq_before(expected_seq, s.ctxt.seq_no),
        new_part(s, expected_seq) == Some(part),
    ensures
        in_frame(part),
        payload(part) == stream_part(stream, expected_seq, part.ctxt.length as int),
{
    law_cut_segment_keeps_its_end(s, expected_seq, part);
    let d = seq_dist(s.ctxt.seq_no, expected_seq);
    let whole = stream_part(stream, s.ctxt.seq_no, s.ctxt.length as int);
    let b = stream_part(stream, expected_seq, part.ctxt.length as int);
    assert forall|k: int| 0 <= k < b.len() implies payload(part)[k] == b[k] by {
        assert(payload(part)[k] == payload(s)[d + k]);
        assert(payload(s)[d + k] == whole[d + k]);
        lemma_seq_add_twice(s.ctxt.seq_no, d, k);
        assert(seq_add(s.ctxt.seq_no, d) == expected_seq);
    }
    assert(payload(part) =~= b);
}

proof fn lemma_ends(s: L4Pdu)
    requires
        in_frame(s),
    ensures
        end_seq(s) == seq_add(s.ctxt.seq_no, span(s)),
{
    lemma_small_length(s.ctxt.length);
}

proof fn lemma_runs_first(
    stream: spec_fn(u32) -> u8,
    from: u32,
    s: L4Pdu,
    more: Seq<L4Pdu>,
)
    requires
        in_frame(s),
        ({
            let start = seq_add(from, s.ctxt.gap_before as int);
            &&& payload(s) == stream_part(stream, start, s.ctxt.length as int)
            &&& runs(stream, seq_add(start, span(s)), more)
        }),
    ensures
        runs(stream, from, seq![s] + more),
        run_end(from, seq![s] + more) == run_end(
            seq_add(seq_add(from, s.ctxt.gap_before as int), span(s)),
            more,
        ),
{
    let all = seq![s] + more;
    assert(all.skip(1) =~= more);
    assert(all[0] == s);
}

proof fn lemma_runs_joined(
    stream: spec_fn(u32) -> u8,
    from: u32,
    a: Seq<L4Pdu>,
    b: Seq<L4Pdu>,
)
    requires
        runs(stream, from, a),
        runs(stream, run_end(from, a), b),
    ensures
        runs(stream, from, a + b),
        run_end(from, a + b) == run_end(run_end(from, a), b),
    decreases a.len(),
{
    if a.len() == 0 {
        assert(a + b =~= b);
    } else {
        let start = seq_add(from, a[0].ctxt.gap_before as int);
        lemma_runs_joined(stream, seq_add(start, span(a[0])), a.skip(1), b);
        assert((a + b).skip(1) =~= a.skip(1) + b);
        assert((a + b)[0] == a[0]);
    }
}

proof fn lemma_all_fresh_without(
    segs: Seq<L4Pdu>,
    stream: spec_fn(u32) -> u8,
    i: int,
)
    requires
        all_fresh(segs, stream),
        0 <= i < segs.len(),
    ensures
        all_fresh(segs.remove(i), stream),
{
    let rest = segs.remove(i);
    assert forall|j: int| 0 <= j < rest.len() implies fresh(#[trigger] rest[j], stream) by {
        if j < i {
            assert(rest[j] == segs[j]);
        } else {
            assert(rest[j] == segs[j + 1]);
        }
    }
}

/// What a flush delivers from a buffer of segments of the stream is the stream, from the
/// next expected sequence number on. What stays in the buffer is of the stream, too.
pub proof fn law_flush_delivers_the_stream(
    f: FlowModel,
    index: int,
    limit: Option<nat>,
    next_seq: u32,
    stream: spec_fn(u32) -> u8,
)
    requires
        f.next_seq == Some(next_seq),
        all_fresh(f.buf, stream),
    ensures
        ({
            let g = flushed(f, index, limit);
            let segs = g.delivered.skip(f.delivered.len() as int);
            &&& runs(stream, next_seq, segs)
            &&& no_reset(segs) ==> g.next_seq == Some(run_end(next_seq, segs))
            &&& all_fresh(g.buf, stream)
        }),
    decreases f.buf.len(), f.buf.len() - index,
{
    reveal(flushed);
    let g = flushed(f, index, limit);
    let at = f.delivered.len() as int;
    let segs = g.delivered.skip(at);
    if !(0 <= index < f.buf.len()) || limit == Some(0nat) {
        assert(segs =~= Seq::empty());
    } else {
        let s = f.buf[index];
        let rest = FlowModel { buf: f.buf.remove(index), ..f };
        assert(fresh(s, stream));
        lemma_all_fresh_without(f.buf, stream, index);
        lemma_seq_add_zero(next_seq);
        if s.ctxt.seq_no == next_seq && s.ctxt.flags & RST != 0 {
            assert(segs =~= seq![s] + Seq::empty());
            assert(segs[0] == s);
            lemma_runs_first(stream, next_seq, s, Seq::empty());
        } else if s.ctxt.seq_no != next_seq && seq_before(next_seq, s.ctxt.seq_no) {
            law_flush_delivers_the_stream(f, index + 1, limit, next_seq, stream);
        } else if s.ctxt.seq_no != next_seq && new_part(s, next_seq) is None {
            law_flush_delivers_the_stream(rest, index, limit, next_seq, stream);
        } else {
            let part = if s.ctxt.seq_no == next_seq {
                s
            } else {
                new_part(s, next_seq)->0
            };
            lemma_ends(s);
            if s.ctxt.seq_no != next_seq {
                law_cut_segment_keeps_its_end(s, next_seq, part);
                law_cut_segment_holds_the_stream(s, next_seq, part, stream);
            }
            let d = deliver(rest, part, end_seq(s));
            law_flush_delivers_the_stream(d, 0, one_less(limit), end_seq(s), stream);
            law_flush_delivers_from_the_buffer(d, 0, one_less(limit));
            let more = g.delivered.skip(at + 1);
            assert(segs =~= seq![part] + more) by {
                assert(d.delivered[at] == part);
                assert(g.delivered[at] == part);
            }
            lemma_runs_first(stream, next_seq, part, more);
            if no_reset(segs) {
                assert forall|i: int| 0 <= i < more.len() implies (#[trigger] more[i]).ctxt.flags
                    & RST == 0 by {
                    assert(more[i] == segs[i + 1]);
                }
            }
        }
    }
}

proof fn lemma_delivered_then_flushed(
    f: FlowModel,
    s: L4Pdu,
    expected_seq: u32,
    limit: Option<nat>,
    from: u32,
    stream: spec_fn(u32) -> u8,
)
    requires
        all_fresh(f.buf, stream),
        in_frame(s),
        s.ctxt.gap_before == 0,
        payload(s) == stream_part(stream, from, s.ctxt.length as int),
        expected_seq == seq_add(from, span(s)),
    ensures
        ({
            let g = delivered_then_flushed(f, s, expected_seq, limit);
            let segs = g.delivered.skip(f.delivered.len() as int);
            &&& f.delivered.is_prefix_of(g.delivered)
            &&& segs.len() > 0 && segs[0] == s
            &&& runs(stream, from, segs)
            &&& limit is None && no_reset(segs) ==> g.next_seq == Some(run_end(from, segs))
            &&& all_fresh(g.buf, stream)
        }),
{
    let g = delivered_then_flushed(f, s, expected_seq, limit);
    let at = f.delivered.len() as int;
    let segs = g.delivered.skip(at);
    let d = FlowModel { next_seq: Some(expected_seq), ..deliver(f, s, expected_seq) };
    let left = one_less(limit);
    law_flush_delivers_the_stream(d, 0, left, expected_seq, stream);
    law_flush_delivers_from_the_buffer(d, 0, left);
    let more = g.delivered.skip(at + 1);
    assert(d.delivered[at] == s);
    if left == Some(0nat) {
        assert(more =~= Seq::empty());
        assert(g.delivered == f.delivered.push(s));
    } else {
        assert(g == flushed(d, 0, left));
        assert(d.delivered.is_prefix_of(g.delivered));
        assert(g.delivered[at] == s);
    }
    assert(f.delivered.is_prefix_of(g.delivered));
    assert(segs =~= seq![s] + more);
    lemma_seq_add_zero(from);
    lemma_runs_first(stream, from, s, more);
    if no_reset(segs) {
        assert forall|i: int| 0 <= i < more.len() implies (#[trigger] more[i]).ctxt.flags & RST
            == 0 by {
            assert(more[i] == segs[i + 1]);
        }
    }
}

/// What is delivered when a gap is given up is the stream, from where it was expected to go
/// on: the first segment tells how many bytes are missing before it.
pub proof fn law_skipped_gap_is_told(
    f: FlowModel,
    limit: Option<nat>,
    next_seq: u32,
    stream: spec_fn(u32) -> u8,
)
    requires
        f.next_seq == Some(next_seq),
        only_future(f),
        all_fresh(f.buf, stream),
    ensures
        ({
            let g = gap_skipped(f, limit);
            let segs = g.delivered.skip(f.delivered.len() as int);
            &&& f.delivered.is_prefix_of(g.delivered)
            &&& runs(stream, next_seq, segs)
            &&& no_reset(segs) ==> g.next_seq == Some(run_end(next_seq, segs))
            &&& limit != Some(0nat) && f.buf.len() > 0 ==> segs.len() > 0
            &&& all_fresh(g.buf, stream)
        }),
{
    let g = gap_skipped(f, limit);
    let n = f.delivered.len() as int;
    let segs = g.delivered.skip(n);
    let seqs = seqs_of(f.buf);
    if f.buf.len() > 0 {
        assert(seqs[0] == f.buf[0].ctxt.seq_no);
        assert(seq_before(next_seq, seqs[0]));
    }
    if resume_point(f) is None || limit == Some(0nat) {
        assert(segs =~= Seq::empty());
    } else {
        let seq = resume_point(f)->0;
        lemma_resume_point_is_buffered(f);
        lemma_resume_exists(next_seq, seqs);
        let k = choose|k: int| 0 <= k < seqs.len() && seqs[k] == seq;
        lemma_first_at_exists(f.buf, seq, k);
        let at = choose|i: int| is_first_at(f.buf, seq, i);
        let h = FlowModel {
            next_seq: Some(seq),
            buf: stamped(f, seq),
            start_unknown: f.start_unknown || f.next_seq is None,
            counts: f.counts.with_gap(skipped_bytes(f, seq)),
            ..f
        };
        assert forall|j: int| 0 <= j < at implies seq_before(
            seq,
            (#[trigger] h.buf[j]).ctxt.seq_no,
        ) by {
            assert(h.buf[j] == f.buf[j]);
            assert(seqs[j] == f.buf[j].ctxt.seq_no);
            assert(seq_before(next_seq, seqs[j]));
        }
        lemma_flush_passes_over(h, 0, at, limit);
        lemma_flush_in_order(h, at, limit);
        let s = h.buf[at];
        let rest = FlowModel { buf: h.buf.remove(at), ..h };
        assert(fresh(f.buf[at], stream));
        assert(s.ctxt.gap_before == seq_dist(next_seq, seq));
        assert(seq_add(next_seq, s.ctxt.gap_before as int) == seq);
        assert(payload(s) == payload(f.buf[at]));
        assert(rest.buf =~= f.buf.remove(at));
        lemma_all_fresh_without(f.buf, stream, at);
        if s.ctxt.flags & RST != 0 {
            assert(segs =~= seq![s] + Seq::empty());
            assert(segs[0] == s);
            lemma_runs_first(stream, next_seq, s, Seq::empty());
        } else {
            lemma_ends(s);
            let d = deliver(rest, s, end_seq(s));
            let left = one_less(limit);
            law_flush_delivers_the_stream(d, 0, left, end_seq(s), stream);
            law_flush_delivers_from_the_buffer(d, 0, left);
            let more = g.delivered.skip(n + 1);
            assert(segs =~= seq![s] + more) by {
                assert(d.delivered[n] == s);
                assert(g.delivered[n] == s);
            }
            lemma_runs_first(stream, next_seq, s, more);
            if no_reset(segs) {
                assert forall|i: int| 0 <= i < more.len() implies (#[trigger] more[i]).ctxt.flags
                    & RST == 0 by {
                    assert(more[i] == segs[i + 1]);
                }
            }
        }
    }
}

/// Whatever segment of the stream arrives, what is then delivered is the stream, from where
/// it was expected to go on. A segment that reaches past that point is delivered at once, up
/// to its end; one that lies ahead waits, as long as there is room.
pub proof fn law_arrival_continues_the_stream(
    f: FlowModel,
    capacity: nat,
    s: L4Pdu,
    limit: Option<nat>,
    next_seq: u32,
    stream: spec_fn(u32) -> u8,
)
    requires
        f.next_seq == Some(next_seq),
        only_future(f),
        all_fresh(f.buf, stream),
        fresh(s, stream),
    ensures
        ({
            let g = inserted(f, capacity, s, limit);
            let segs = g.delivered.skip(f.delivered.len() as int);
            let seq = s.ctxt.seq_no;
            &&& f.delivered.is_prefix_of(g.delivered)
            &&& runs(stream, next_seq, segs)
            &&& limit is None && no_reset(segs) ==> g.next_seq == Some(run_end(next_seq, segs))
            &&& all_fresh(g.buf, stream)
            &&& seq == next_seq || (!seq_before(next_seq, seq) && seq_before(
                next_seq,
                seq_add(seq, span(s)),
            )) ==> segs.len() > 0 && seq_add(next_seq, span(segs[0])) == seq_add(seq, span(s))
            &&& seq_before(next_seq, seq) && f.buf.len() < capacity ==> segs.len() == 0
                && g.buf.len() == f.buf.len() + 1 && payload(g.buf.last()) == payload(s)
                && g.buf.last().ctxt.seq_no == seq && g.buf.drop_last() == f.buf
        }),
{
    let g = inserted(f, capacity, s, limit);
    let segs = g.delivered.skip(f.delivered.len() as int);
    let seq = s.ctxt.seq_no;
    let f1 = FlowModel { observed: f.observed + 1, ..f };
    let s1 = L4Pdu { ctxt: L4Context { reassembled: true, ..s.ctxt }, ..s };
    assert(payload(s1) == payload(s));
    assert(fresh(s1, stream));
    lemma_ends(s1);
    lemma_seq_add_zero(next_seq);
    if seq == next_seq {
        if s1.ctxt.flags & RST != 0 {
            assert(segs =~= seq![s1] + Seq::empty());
            assert(segs[0] == s1);
            lemma_runs_first(stream, next_seq, s1, Seq::empty());
        } else {
            lemma_delivered_then_flushed(f1, s1, end_seq(s1), limit, next_seq, stream);
        }
    } else if seq_before(next_seq, seq) {
        let grown = FlowModel { buf: f1.buf.push(s1), ..f1 };
        assert(all_fresh(grown.buf, stream));
        if f1.buf.len() < capacity {
            assert(segs =~= Seq::empty());
            assert(g.buf.drop_last() =~= f.buf);
        } else {
            let full = FlowModel { counts: f1.counts.with_overflow(), ..grown };
            assert(only_future(full));
            law_skipped_gap_is_told(full, limit, next_seq, stream);
        }
    } else {
        match new_part(s1, next_seq) {
            Some(part) => {
                law_cut_segment_keeps_its_end(s1, next_seq, part);
                law_cut_segment_holds_the_stream(s1, next_seq, part, stream);
                lemma_delivered_then_flushed(f1, part, end_seq(s1), limit, next_seq, stream);
            },
            None => {
                assert(segs =~= Seq::empty());
            },
        }
    }
}

/// The flow after segments have arrived, one after the other, on a connection that stays
/// wanted.
pub open spec fn all_inserted(f: FlowModel, capacity: nat, segs: Seq<L4Pdu>) -> FlowModel
    decreases segs.len(),
{
    if segs.len() == 0 {
        f
    } else {
        inserted(all_inserted(f, capacity, segs.drop_last()), capacity, segs.last(), None)
    }
}

/// In whatever order and however often the segments of a stream arrive, what is delivered
/// is the stream, from the first expected sequence number on: where nothing was given up,
/// its bytes in order, each of them once; where something was, with the number of missing
/// bytes told. (Nothing is said of what follows a reset.)
pub proof fn law_stream_is_delivered(
    f: FlowModel,
    capacity: nat,
    segs: Seq<L4Pdu>,
    first_seq: u32,
    stream: spec_fn(u32) -> u8,
)
    requires
        f.next_seq == Some(first_seq),
        f.buf.len() == 0,
        f.delivered.len() == 0,
        all_fresh(segs, stream),
        no_reset(all_inserted(f, capacity, segs).delivered),
    ensures
        ({
            let g = all_inserted(f, capacity, segs);
            let bytes = bytes_of(g.delivered);
            &&& runs(stream, first_seq, g.delivered)
            &&& g.next_seq == Some(run_end(first_seq, g.delivered))
            &&& unbroken(g.delivered) ==> bytes == stream_part(
                stream,
                first_seq,
                bytes.len() as int,
            )
        }),
{
    lemma_stream_is_delivered(f, capacity, segs, first_seq, stream);
    let g = all_inserted(f, capacity, segs);
    if unbroken(g.delivered) {
        law_unbroken_segments_are_the_stream(stream, first_seq, g.delivered);
    }
}

proof fn lemma_stream_is_delivered(
    f: FlowModel,
    capacity: nat,
    segs: Seq<L4Pdu>,
    first_seq: u32,
    stream: spec_fn(u32) -> u8,
)
    requires
        f.next_seq == Some(first_seq),
        f.buf.len() == 0,
        f.delivered.len() == 0,
        all_fresh(segs, stream),
        no_reset(all_inserted(f, capacity, segs).delivered),
    ensures
        ({
            let g = all_inserted(f, capacity, segs);
            &&& runs(stream, first_seq, g.delivered)
            &&& g.next_seq == Some(run_end(first_seq, g.delivered))
            &&& all_fresh(g.buf, stream)
            &&& only_future(g)
        }),
    decreases segs.len(),
{
    if segs.len() > 0 {
        let init = segs.drop_last();
        let s = segs.last();
        let e = all_inserted(f, capacity, init);
        let g = all_inserted(f, capacity, segs);
        assert(s == segs[segs.len() - 1]);
        assert(forall|i: int| 0 <= i < init.len() ==> init[i] == segs[i]);
        lemma_arrival_extends(e, capacity, s);
        assert forall|i: int| 0 <= i < e.delivered.len() implies (
        #[trigger] e.delivered[i]).ctxt.flags & RST == 0 by {
            assert(e.delivered[i] == g.delivered[i]);
        }
        lemma_stream_is_delivered(f, capacity, init, first_seq, stream);
        let next = e.next_seq->0;
        law_arrival_continues_the_stream(e, capacity, s, None, next, stream);
        let more = g.delivered.skip(e.delivered.len() as int);
        assert(g.delivered =~= e.delivered + more);
        assert forall|i: int| 0 <= i < more.len() implies (#[trigger] more[i]).ctxt.flags & RST
            == 0 by {
            assert(more[i] == g.delivered[i + e.delivered.len()]);
        }
        lemma_runs_joined(stream, first_seq, e.delivered, more);
        law_insert_keeps_only_future_segments(e, capacity, s);
        assert(!reset_delivered(e, g));
    }
}

proof fn lemma_arrival_extends(f: FlowModel, capacity: nat, s: L4Pdu)
    ensures
        f.delivered.is_prefix_of(inserted(f, capacity, s, None).delivered),
{
    let f1 = FlowModel { observed: f.observed + 1, ..f };
    let s1 = L4Pdu { ctxt: L4Context { reassembled: true, ..s.ctxt }, ..s };
    let full = FlowModel {
        counts: f1.counts.with_overflow(),
        buf: f1.buf.push(s1),
        ..f1
    };
    if resume_point(full) is Some {
        law_skipping_a_gap_makes_progress(full, None);
    }
    lemma_delivery_extends(f1, s1, end_seq(s1));
    lemma_delivery_extends(
        f1,
        s1,
        seq_add(s1.ctxt.seq_no, 1 + seq_len(s1)),
    );
    if f.next_seq is Some {
        if let Some(part) = new_part(s1, f.next_seq->0) {
            lemma_delivery_extends(f1, part, end_seq(s1));
        }
    }
}

proof fn lemma_delivery_extends(f: FlowModel, s: L4Pdu, expected_seq: u32)
    ensures
        f.delivered.is_prefix_of(delivered_then_flushed(f, s, expected_seq, None).delivered),
{
    let d = FlowModel { next_seq: Some(expected_seq), ..deliver(f, s, expected_seq) };
    law_flush_delivers_from_the_buffer(d, 0, None);
    assert(f.delivered.is_prefix_of(d.delivered));
}

/// Where nothing is expected yet, a SYN/ACK starts the stream one sequence number after its
/// own, and what is delivered is the stream from there on.
pub proof fn law_syn_ack_starts_the_stream(
    f: FlowModel,
    capacity: nat,
    s: L4Pdu,
    limit: Option<nat>,
    stream: spec_fn(u32) -> u8,
)
    requires
        f.next_seq is None,
        is_synack(s.ctxt.flags),
        s.ctxt.flags & 0x01 == 0,
        s.ctxt.gap_before == 0,
        in_frame(s),
        payload(s) == stream_part(stream, seq_add(s.ctxt.seq_no, 1), s.ctxt.length as int),
        all_fresh(f.buf, stream),
    ensures
        ({
            let g = inserted(f, capacity, s, limit);
            let segs = g.delivered.skip(f.delivered.len() as int);
            let first = seq_add(s.ctxt.seq_no, 1);
            &&& segs.len() > 0 && payload(segs[0]) == payload(s)
            &&& runs(stream, first, segs)
            &&& limit is None && no_reset(segs) ==> g.next_seq == Some(run_end(first, segs))
        }),
{
    let f1 = FlowModel { observed: f.observed + 1, ..f };
    let s1 = L4Pdu { ctxt: L4Context { reassembled: true, ..s.ctxt }, ..s };
    let first = seq_add(s.ctxt.seq_no, 1);
    assert(payload(s1) == payload(s));
    lemma_small_length(s.ctxt.length);
    lemma_seq_add_twice(s.ctxt.seq_no, 1, s.ctxt.length as int);
    lemma_delivered_then_flushed(
        f1,
        s1,
        seq_add(s1.ctxt.seq_no, 1 + seq_len(s1)),
        limit,
        first,
        stream,
    );
}

/// Where nothing was expected before the gap was given up, the stream is delivered from the
/// lowest buffered sequence number on.
pub proof fn law_unknown_start_delivers_the_stream(
    f: FlowModel,
    limit: Option<nat>,
    stream: spec_fn(u32) -> u8,
)
    requires
        f.next_seq is None,
        resume_point(f) is Some,
        limit != Some(0nat),
        all_fresh(f.buf, stream),
    ensures
        ({
            let g = gap_skipped(f, limit);
            let segs = g.delivered.skip(f.delivered.len() as int);
            let first = resume_point(f)->0;
            &&& runs(stream, first, segs)
            &&& no_reset(segs) ==> g.next_seq == Some(run_end(first, segs))
            &&& g.start_unknown
            &&& all_fresh(g.buf, stream)
        }),
{
    let seq = resume_point(f)->0;
    lemma_resume_point_is_buffered(f);
    let seqs = seqs_of(f.buf);
    let k = choose|k: int| 0 <= k < seqs.len() && seqs[k] == seq;
    lemma_first_at_exists(f.buf, seq, k);
    let at = choose|i: int| is_first_at(f.buf, seq, i);
    let h = FlowModel {
        next_seq: Some(seq),
        buf: stamped(f, seq),
        start_unknown: f.start_unknown || f.next_seq is None,
        counts: f.counts.with_gap(skipped_bytes(f, seq)),
        ..f
    };
    assert(all_fresh(h.buf, stream)) by {
        assert forall|i: int| 0 <= i < h.buf.len() implies fresh(#[trigger] h.buf[i], stream) by {
            assert(fresh(f.buf[i], stream));
            assert(payload(h.buf[i]) == payload(f.buf[i]));
        }
    }
    law_flush_delivers_the_stream(h, 0, limit, seq, stream);
    lemma_flush_keeps_start(h, 0, limit);
}

proof fn lemma_flush_keeps_start(f: FlowModel, index: int, limit: Option<nat>)
    ensures
        flushed(f, index, limit).start_unknown == f.start_unknown,
        flushed(f, index, limit).counts == f.counts,
    decreases f.buf.len(), f.buf.len() - index,
{
    reveal(flushed);
    if 0 <= index < f.buf.len() && limit != Some(0nat) {
        let s = f.buf[index];
        let next = f.next_seq->0;
        let rest = FlowModel { buf: f.buf.remove(index), ..f };
        if s.ctxt.seq_no == next {
            if s.ctxt.flags & RST == 0 {
                lemma_flush_keeps_start(deliver(rest, s, end_seq(s)), 0, one_less(limit));
            }
        } else if seq_before(next, s.ctxt.seq_no) {
            lemma_flush_keeps_start(f, index + 1, limit);
        } else {
            match new_part(s, next) {
                Some(part) => lemma_flush_keeps_start(
                    deliver(rest, part, end_seq(s)),
                    0,
                    one_less(limit),
                ),
                None => lemma_flush_keeps_start(rest, index, limit),
            }
        }
    }
}

/// Giving up one gap after the other delivers the stream, with the number of missing bytes
/// told at each gap, and leaves nothing behind.
pub proof fn law_recovery_delivers_the_stream(
    f: FlowModel,
    next_seq: u32,
    stream: spec_fn(u32) -> u8,
)
    requires
        f.next_seq == Some(next_seq),
        only_future(f),
        all_fresh(f.buf, stream),
        no_reset(gaps_recovered(f, None).delivered.skip(f.delivered.len() as int)),
    ensures
        ({
            let g = gaps_recovered(f, None);
            let segs = g.delivered.skip(f.delivered.len() as int);
            &&& runs(stream, next_seq, segs)
            &&& g.next_seq == Some(run_end(next_seq, segs))
            &&& g.buf.len() == 0
        }),
    decreases f.buf.len(),
{
    let g = gaps_recovered(f, None);
    let n = f.delivered.len() as int;
    let segs = g.delivered.skip(n);
    if f.buf.len() == 0 {
        assert(segs =~= Seq::empty());
    } else {
        assert(seqs_of(f.buf)[0] == f.buf[0].ctxt.seq_no);
        assert(seq_before(next_seq, seqs_of(f.buf)[0]));
        let e = gap_skipped(f, None);
        law_skipping_a_gap_makes_progress(f, None);
        law_skipped_gap_is_told(f, None, next_seq, stream);
        lemma_recovery_extends(e, None);
        let m = e.delivered.len() as int;
        let first = e.delivered.skip(n);
        let more = g.delivered.skip(m);
        assert(segs =~= first + more);
        assert forall|i: int| 0 <= i < first.len() implies (#[trigger] first[i]).ctxt.flags & RST
            == 0 by {
            assert(first[i] == segs[i]);
        }
        assert forall|i: int| 0 <= i < more.len() implies (#[trigger] more[i]).ctxt.flags & RST
            == 0 by {
            assert(more[i] == segs[i + first.len()]);
        }
        lemma_skipping_leaves_only_future(f, next_seq);
        if !only_future(e) {
            assert(first[first.len() - 1].ctxt.flags & RST == 0);
        }
        law_recovery_delivers_the_stream(e, e.next_seq->0, stream);
        lemma_runs_joined(stream, next_seq, first, more);
    }
}

proof fn lemma_skipping_leaves_only_future(f: FlowModel, next_seq: u32)
    requires
        f.next_seq == Some(next_seq),
        only_future(f),
        resume_point(f) is Some,
    ensures
        ({
            let g = gap_skipped(f, None);
            ||| only_future(g)
            ||| g.delivered.len() > f.delivered.len() && g.delivered.last().ctxt.flags & RST != 0
        }),
{
    let seq = resume_point(f)->0;
    let h = FlowModel {
        next_seq: Some(seq),
        buf: stamped(f, seq),
        start_unknown: f.start_unknown || f.next_seq is None,
        counts: f.counts.with_gap(skipped_bytes(f, seq)),
        ..f
    };
    law_flush_leaves_only_future_segments(h, 0);
}

/// When the buffer is full, the stream resumes at the segment nearest ahead, the one that has
/// just arrived included, and that segment tells how many bytes are missing before it.
pub proof fn law_overflow_resumes_at_the_nearest_segment(
    f: FlowModel,
    capacity: nat,
    s: L4Pdu,
    limit: Option<nat>,
    next_seq: u32,
    j: int,
)
    requires
        f.next_seq == Some(next_seq),
        only_future(f),
        f.buf.len() >= capacity,
        seq_before(next_seq, s.ctxt.seq_no),
        limit != Some(0nat),
    ensures
        ({
            let g = inserted(f, capacity, s, limit);
            let n = f.delivered.len() as int;
            let first = g.delivered[n];
            &&& g.delivered.len() > n
            &&& g.buf.len() == 0
            &&& first.ctxt.gap_before == seq_dist(next_seq, first.ctxt.seq_no)
            &&& seq_dist(next_seq, first.ctxt.seq_no) <= seq_dist(next_seq, s.ctxt.seq_no)
            &&& 0 <= j < f.buf.len() ==> seq_dist(next_seq, first.ctxt.seq_no) <= seq_dist(
                next_seq,
                f.buf[j].ctxt.seq_no,
            )
        }),
{
    let f1 = FlowModel { observed: f.observed + 1, ..f };
    let s1 = L4Pdu { ctxt: L4Context { reassembled: true, ..s.ctxt }, ..s };
    let full = FlowModel {
        counts: f1.counts.with_overflow(),
        buf: f1.buf.push(s1),
        ..f1
    };
    let seqs = seqs_of(full.buf);
    let last = f.buf.len() as int;
    assert(seqs[last] == s.ctxt.seq_no);
    assert forall|i: int| 0 <= i < full.buf.len() implies seq_before(
        next_seq,
        (#[trigger] full.buf[i]).ctxt.seq_no,
    ) by {
        if i < last {
            assert(full.buf[i] == f.buf[i]);
        }
    }
    assert(seq_before(next_seq, seqs[last]));
    lemma_resume_exists(next_seq, seqs);
    law_resuming_segment_tells_the_gap(full, next_seq, limit);
    if 0 <= j < f.buf.len() {
        assert(seqs[j] == f.buf[j].ctxt.seq_no);
        assert(seq_before(next_seq, f.buf[j].ctxt.seq_no));
    }
}

/// The segment that resumes the stream is marked with the bytes that are missing before it,
/// or, where nothing was expected yet, as the first of a stream whose start was never seen. It
/// keeps its payload, and the other segments stay as they were.
pub proof fn law_resuming_segment_is_marked(f: FlowModel, seq: u32, i: int, j: int)
    requires
        is_first_at(f.buf, seq, i),
        0 <= j < f.buf.len(),
        j != i,
    ensures
        ({
            let s = stamped(f, seq)[i];
            &&& stamped(f, seq).len() == f.buf.len()
            &&& f.next_seq matches Some(next) ==> s.ctxt.gap_before == seq_dist(next, seq)
                && s.ctxt.stream_start_unknown == f.buf[i].ctxt.stream_start_unknown
            &&& f.next_seq is None ==> s.ctxt.gap_before == 0 && s.ctxt.stream_start_unknown
            &&& payload(s) == payload(f.buf[i])
            &&& s.ctxt.seq_no == seq
            &&& stamped(f, seq)[j] == f.buf[j]
        }),
{
    let k = choose|k: int| is_first_at(f.buf, seq, k);
    assert(is_first_at(f.buf, seq, k));
    if k < i {
        assert(f.buf[k].ctxt.seq_no != seq);
    }
    if i < k {
        assert(f.buf[i].ctxt.seq_no != seq);
    }
}

} // verus!
