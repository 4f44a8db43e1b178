//! How TCP connections begin and end.

use crate::conntrack::conn::{bare_syn, opening_pdu, AdmissionCounts, Conn, InitPolicy, L4Conn};
use crate::conntrack::conn_info::Trackable;
use crate::conntrack::pdu::{FiveTuple, L4Context, L4Pdu};
use crate::conntrack::reassembly::{
    deliver, end_seq, inserted, lemma_flush_stops, seq_add, seq_len, FlowModel, ReassemblyCounts,
    TcpFlow,
};
use crate::conntrack::stream::{
    all_fresh, all_inserted, bytes_of, law_stream_is_delivered, no_reset, run_end, runs,
    stream_part, unbroken,
};
use crate::conntrack::tcp_conn::TcpConn;
use vstd::prelude::*;

verus! {

/// What the originator of a connection sends is delivered from the sequence number after its
/// SYN on, with the SYN's own payload counted, in whatever order it arrives.
pub proof fn law_originator_stream_is_delivered(
    syn: L4Context,
    max_ooo: usize,
    c: TcpConn,
    segs: Seq<L4Pdu>,
    stream: spec_fn(u32) -> u8,
)
    requires
        call_ensures(TcpConn::new_on_syn, (syn, max_ooo), c),
        syn.length < 0x1_0000,
        all_fresh(segs, stream),
        no_reset(all_inserted(c.ctos@, max_ooo as nat, segs).delivered),
    ensures
        ({
            let g = all_inserted(c.ctos@, max_ooo as nat, segs);
            let first = seq_add(syn.seq_no, 1 + syn.length);
            let bytes = bytes_of(g.delivered);
            &&& runs(stream, first, g.delivered)
            &&& g.next_seq == Some(run_end(first, g.delivered))
            &&& unbroken(g.delivered) ==> bytes == stream_part(stream, first, bytes.len() as int)
        }),
{
    law_stream_is_delivered(
        c.ctos@,
        max_ooo as nat,
        segs,
        seq_add(syn.seq_no, 1 + syn.length),
        stream,
    );
}

/// A segment without payload that arrives in order, on a flow with nothing buffered.
pub open spec fn in_order(f: FlowModel, s: L4Pdu) -> bool {
    &&& f.buf.len() == 0
    &&& f.next_seq == Some(s.ctxt.seq_no)
    &&& s.ctxt.length == 0
}

/// The flow after such a segment.
spec fn follows(f: FlowModel, s: L4Pdu, g: FlowModel) -> bool {
    &&& g.next_seq == Some(
        seq_add(
            s.ctxt.seq_no,
            if s.ctxt.flags & 0x01 != 0 {
                1
            } else {
                0
            },
        ),
    )
    &&& g.last_ack == Some(s.ctxt.ack_no)
    &&& g.flags == f.flags | s.ctxt.flags
    &&& g.buf.len() == 0
}

/// The segment has arrived on the flow, of a connection that stays wanted.
#[verifier::opaque]
pub open spec fn arrived(f: TcpFlow, s: L4Pdu, g: TcpFlow) -> bool {
    g@ == inserted(f@, f.ooo_buf.cap(), s, None)
}

proof fn lemma_arrived(f: TcpFlow, s: L4Pdu, g: TcpFlow)
    requires
        arrived(f, s, g),
        in_order(f@, s),
        s.ctxt.flags & 0x04 == 0,
    ensures
        follows(f@, s, g@),
{
    reveal(arrived);
    lemma_in_order(f@, f.ooo_buf.cap(), s);
}

proof fn lemma_in_order(f: FlowModel, capacity: nat, s: L4Pdu)
    requires
        in_order(f, s),
        s.ctxt.flags & 0x04 == 0,
    ensures
        follows(f, s, inserted(f, capacity, s, None)),
{
    let s1 = L4Pdu { ctxt: L4Context { reassembled: true, ..s.ctxt }, ..s };
    let f1 = FlowModel { observed: f.observed + 1, ..f };
    let d = FlowModel {
        next_seq: Some(end_seq(s1)),
        ..deliver(
            f1,
            s1,
            end_seq(s1),
        )
    };
    lemma_flush_stops(d, 0, None);
}

proof fn lemma_flags(a: u8, b: u8, mask: u8)
    requires
        mask == 0x01 || mask == 0x02 || mask == 0x04 || mask == 0x10,
    ensures
        (a | b) & mask != 0 <==> a & mask != 0 || b & mask != 0,
        a & b & mask != 0 <==> a & mask != 0 && b & mask != 0,
        (a & mask) | (b & mask) != 0 <==> a & mask != 0 || b & mask != 0,
{
    assert(((a | b) & mask != 0 <==> a & mask != 0 || b & mask != 0) && (a & b & mask != 0 <==> a
        & mask != 0 && b & mask != 0) && ((a & mask) | (b & mask) != 0 <==> a & mask != 0 || b
        & mask != 0)) by (bit_vector)
        requires
            mask == 0x01 || mask == 0x02 || mask == 0x04 || mask == 0x10,
    ;
}

proof fn lemma_over(c: TcpConn, over: bool)
    requires
        call_ensures(TcpConn::is_terminated, (&c,), over),
    ensures
        over <==> {
            ||| c.ctos@.flags & 0x04 != 0
            ||| c.stoc@.flags & 0x04 != 0
            ||| c.ctos@.flags & 0x01 != 0 && c.stoc@.flags & 0x01 != 0 && c.ctos@.last_ack
                == c.stoc@.next_seq && c.stoc@.last_ack == c.ctos@.next_seq
        },
{
    lemma_flags(c.ctos.consumed_flags, c.stoc.consumed_flags, 0x01);
    lemma_flags(c.ctos.consumed_flags, c.stoc.consumed_flags, 0x04);
}

/// The flags of a flow that has seen neither a FIN nor a reset, and then one segment.
proof fn lemma_close_flags(x: u8, f: u8)
    requires
        x & 0x05 == 0,
    ensures
        (x | f) & 0x01 != 0 <==> f & 0x01 != 0,
        (x | f) & 0x04 != 0 <==> f & 0x04 != 0,
        x & 0x01 == 0,
        x & 0x04 == 0,
{
    lemma_split(x);
    lemma_flags(x, f, 0x01);
    lemma_flags(x, f, 0x04);
}

proof fn lemma_closing(
    before: TcpConn,
    fin: L4Pdu,
    fin_back: L4Pdu,
    ack: L4Pdu,
    half_closed: TcpConn,
    unacknowledged: TcpConn,
    closed: TcpConn,
    a: bool,
    b: bool,
    c: bool,
)
    requires
        before.ctos.consumed_flags & 0x05 == 0,
        before.stoc.consumed_flags & 0x05 == 0,
        fin.ctxt.flags & 0x04 == 0 && fin.ctxt.flags & 0x01 != 0,
        fin_back.ctxt.flags & 0x04 == 0 && fin_back.ctxt.flags & 0x01 != 0,
        ack.ctxt.flags & 0x05 == 0,
        fin.ctxt.ack_no == fin_back.ctxt.seq_no,
        fin_back.ctxt.ack_no == seq_add(fin.ctxt.seq_no, 1),
        ack.ctxt.seq_no == fin_back.ctxt.ack_no,
        ack.ctxt.ack_no == seq_add(fin_back.ctxt.seq_no, 1),
        follows(before.ctos@, fin, half_closed.ctos@),
        half_closed.stoc == before.stoc,
        unacknowledged.ctos == half_closed.ctos,
        follows(before.stoc@, fin_back, unacknowledged.stoc@),
        follows(unacknowledged.ctos@, ack, closed.ctos@),
        closed.stoc == unacknowledged.stoc,
        call_ensures(TcpConn::is_terminated, (&half_closed,), a),
        call_ensures(TcpConn::is_terminated, (&unacknowledged,), b),
        call_ensures(TcpConn::is_terminated, (&closed,), c),
    ensures
        !a,
        !b,
        c,
{
    lemma_over(half_closed, a);
    lemma_over(unacknowledged, b);
    lemma_over(closed, c);
    lemma_split(ack.ctxt.flags);
    lemma_close_flags(before.ctos.consumed_flags, fin.ctxt.flags);
    lemma_close_flags(before.stoc.consumed_flags, fin_back.ctxt.flags);
    lemma_flags(half_closed.ctos@.flags, ack.ctxt.flags, 0x01);
    lemma_flags(half_closed.ctos@.flags, ack.ctxt.flags, 0x04);
}

/// A connection is over once each side has sent a FIN and acknowledged the other's, and not
/// before: a FIN from the originator, one from the responder that acknowledges it, and an
/// acknowledgment of that.
pub proof fn law_orderly_close_ends_the_connection(
    before: TcpConn,
    fin: L4Pdu,
    fin_back: L4Pdu,
    ack: L4Pdu,
    half_closed: TcpConn,
    unacknowledged: TcpConn,
    closed: TcpConn,
    a: bool,
    b: bool,
    c: bool,
)
    requires
        before.ctos.consumed_flags & 0x05 == 0,
        before.stoc.consumed_flags & 0x05 == 0,
        in_order(before.ctos@, fin),
        in_order(before.stoc@, fin_back),
        fin.ctxt.flags & 0x04 == 0 && fin.ctxt.flags & 0x01 != 0,
        fin_back.ctxt.flags & 0x04 == 0 && fin_back.ctxt.flags & 0x01 != 0,
        ack.ctxt.flags & 0x05 == 0,
        fin.ctxt.ack_no == fin_back.ctxt.seq_no,
        fin_back.ctxt.ack_no == seq_add(fin.ctxt.seq_no, 1),
        ack.ctxt.seq_no == fin_back.ctxt.ack_no,
        ack.ctxt.ack_no == seq_add(fin_back.ctxt.seq_no, 1),
        ack.ctxt.length == 0,
        arrived(before.ctos, fin, half_closed.ctos),
        half_closed.stoc == before.stoc,
        unacknowledged.ctos == half_closed.ctos,
        arrived(before.stoc, fin_back, unacknowledged.stoc),
        arrived(unacknowledged.ctos, ack, closed.ctos),
        closed.stoc == unacknowledged.stoc,
        call_ensures(TcpConn::is_terminated, (&half_closed,), a),
        call_ensures(TcpConn::is_terminated, (&unacknowledged,), b),
        call_ensures(TcpConn::is_terminated, (&closed,), c),
    ensures
        !a,
        !b,
        c,
{
    lemma_arrived(before.ctos, fin, half_closed.ctos);
    lemma_arrived(before.stoc, fin_back, unacknowledged.stoc);
    lemma_split(ack.ctxt.flags);
    lemma_arrived(unacknowledged.ctos, ack, closed.ctos);
    lemma_closing(
        before,
        fin,
        fin_back,
        ack,
        half_closed,
        unacknowledged,
        closed,
        a,
        b,
        c,
    );
}

proof fn lemma_split(a: u8)
    requires
        a & 0x05 == 0,
    ensures
        a & 0x01 == 0,
        a & 0x04 == 0,
{
    assert(a & 0x01 == 0 && a & 0x04 == 0) by (bit_vector)
        requires
            a & 0x05 == 0,
    ;
}

/// A reset of either side that arrives in order ends the connection.
pub proof fn law_reset_ends_the_connection(
    before: TcpConn,
    reset: L4Pdu,
    dir: bool,
    after: TcpConn,
    limit: Option<nat>,
    over: bool,
)
    requires
        reset.ctxt.flags & 0x04 != 0,
        before.flow(dir).next_seq == Some(reset.ctxt.seq_no),
        after.flow(dir)@ == inserted(
            before.flow(dir)@,
            before.flow(dir).ooo_buf.cap(),
            reset,
            limit,
        ),
        call_ensures(TcpConn::is_terminated, (&after,), over),
    ensures
        over,
        after.flow(dir).next_seq == before.flow(dir).next_seq,
{
    let x = before.flow(dir).consumed_flags;
    lemma_flags(x, reset.ctxt.flags, 0x04);
    lemma_flags(after.ctos.consumed_flags, after.stoc.consumed_flags, 0x04);
    assert(after.flow(dir)@.flags == x | reset.ctxt.flags);
    assert(after.flow(dir)@.next_seq == before.flow(dir).next_seq);
}

/// The handshake is done with the originator's acknowledgment of the responder's SYN, which is
/// told once: a SYN, a SYN with an ACK, an ACK.
pub proof fn law_handshake_takes_three_segments(
    syn: L4Context,
    max_ooo: usize,
    opened: TcpConn,
    syn_ack: L4Pdu,
    answered: TcpConn,
    ack: L4Pdu,
    done: TcpConn,
    a: bool,
    b: bool,
    c: bool,
)
    requires
        syn.flags == 0x02,
        syn.length == 0,
        call_ensures(TcpConn::new_on_syn, (syn, max_ooo), opened),
        syn_ack.ctxt.flags == 0x12,
        syn_ack.ctxt.length == 0,
        syn_ack.ctxt.ack_no == seq_add(syn.seq_no, 1),
        answered.ctos == opened.ctos,
        answered.stoc@ == inserted(opened.stoc@, max_ooo as nat, syn_ack, None),
        !answered.handshake_done,
        ack.ctxt.flags == 0x10,
        ack.ctxt.length == 0,
        ack.ctxt.seq_no == syn_ack.ctxt.ack_no,
        ack.ctxt.ack_no == seq_add(syn_ack.ctxt.seq_no, 1),
        done.ctos@ == inserted(answered.ctos@, max_ooo as nat, ack, None),
        done.stoc == answered.stoc,
        !done.handshake_done,
        call_ensures(TcpConn::handshake_done, (&opened,), a),
        call_ensures(TcpConn::handshake_done, (&answered,), b),
        call_ensures(TcpConn::handshake_done, (&done,), c),
    ensures
        !a,
        !b,
        c,
        answered.stoc.next_seq == Some(ack.ctxt.ack_no),
        done.ctos.next_seq == Some(ack.ctxt.seq_no),
{
    assert(0x02u8 & 0x10 == 0) by (bit_vector);
    assert(0x12u8 & 0x02 != 0 && 0x12u8 & 0x10 != 0 && 0u8 | 0x12 == 0x12u8 && 0u8 & 0x02 == 0)
        by (bit_vector);
    assert(0x02u8 | 0x10 == 0x12u8 && 0x10u8 & 0x04 == 0 && 0x10u8 & 0x01 == 0) by (bit_vector);
    let s1 = L4Pdu { ctxt: L4Context { reassembled: true, ..syn_ack.ctxt }, ..syn_ack };
    let f1 = FlowModel { observed: opened.stoc@.observed + 1, ..opened.stoc@ };
    let next = seq_add(s1.ctxt.seq_no, 1 + seq_len(s1));
    let d = FlowModel {
        next_seq: Some(next),
        ..deliver(f1, s1, next)
    };
    lemma_flush_stops(d, 0, None);
    assert(answered.stoc@.flags == 0x12);
    assert(answered.stoc@.next_seq == Some(next));
    lemma_in_order(answered.ctos@, max_ooo as nat, ack);
    assert(done.ctos@.flags == 0x12);
    assert(done.ctos@.next_seq == done.ctos.next_seq);
}

/// A connection that is opened by a packet is named by who opened it: the sender of a SYN, and
/// the receiver of a SYN that acknowledges one.
pub proof fn law_originator_is_who_sent_the_first_syn(pdu: L4Pdu)
    requires
        pdu.dir,
    ensures
        ({
            let opening = opening_pdu(pdu);
            let name = FiveTuple::of(opening.ctxt, opening.dir);
            &&& bare_syn(pdu.ctxt.flags) ==> name.orig == pdu.ctxt.src && name.resp
                == pdu.ctxt.dst
            &&& pdu.ctxt.flags & 0x02 != 0 && pdu.ctxt.flags & 0x10 != 0 ==> name.orig
                == pdu.ctxt.dst && name.resp == pdu.ctxt.src
            &&& opening.ctxt.stream_start_unknown <==> pdu.ctxt.stream_start_unknown || pdu.ctxt.flags
                & 0x02 == 0
        }),
{
}

/// Of a connection in progress, only the switch for the kind of packet that came first
/// decides whether it is adopted: a reset, else a FIN, else a SYN that acknowledges one, else
/// a packet with data. A bare acknowledgment is never adopted.
pub proof fn law_policy_goes_by_kind(p: InitPolicy, flags: u8, length: usize, b: bool)
    requires
        call_ensures(InitPolicy::adopts, (&p, flags, length), b),
    ensures
        flags & 0x04 != 0 ==> b == p.rst,
        flags & 0x04 == 0 && flags & 0x01 != 0 ==> b == p.fin,
        flags & 0x05 == 0 && flags & 0x02 != 0 && flags & 0x10 != 0 ==> b == p.synack,
        flags & 0x07 == 0 ==> b == (p.data && length > 0),
{
    assert(flags & 0x05 == 0 ==> flags & 0x04 == 0 && flags & 0x01 == 0) by (bit_vector);
    assert(flags & 0x07 == 0 ==> flags & 0x04 == 0 && flags & 0x01 == 0 && flags & 0x02 == 0)
        by (bit_vector);
}

/// A packet that no connection is opened for is counted with the bytes of its frame; a
/// connection in progress that is opened is counted as adopted, and one that starts with a
/// SYN is not.
pub proof fn law_refused_packets_are_counted(counts: AdmissionCounts, pdu: L4Pdu)
    requires
        counts.dropped_pkts < u64::MAX,
        counts.dropped_bytes + pdu.mbuf@.len() <= u64::MAX,
        counts.adopted < u64::MAX,
    ensures
        ({
            let refused = counts.after(pdu, false);
            &&& refused.dropped_pkts == counts.dropped_pkts + 1
            &&& refused.dropped_bytes == counts.dropped_bytes + pdu.mbuf@.len()
            &&& refused.adopted == counts.adopted
        }),
        ({
            let opened = counts.after(pdu, true);
            &&& opened.dropped_pkts == counts.dropped_pkts
            &&& opened.dropped_bytes == counts.dropped_bytes
            &&& opened.adopted == counts.adopted + (if bare_syn(pdu.ctxt.flags) {
                0int
            } else {
                1
            })
        }),
{
}

/// What reassembly gave up on is counted apart: a gap with its bytes and the segment after it,
/// an overflow, and the segments that were dropped.
pub proof fn law_what_was_given_up_is_counted(c: ReassemblyCounts, gap: u32, n: int)
    requires
        c.gaps < u64::MAX,
        c.gap_bytes + gap <= u64::MAX,
        c.segments_after_gap < u64::MAX,
        c.overflows < u64::MAX,
        0 <= n,
        c.segments_dropped + n <= u64::MAX,
    ensures
        ({
            let g = c.with_gap(gap);
            &&& g.gaps == c.gaps + 1
            &&& g.gap_bytes == c.gap_bytes + gap
            &&& g.segments_after_gap == c.segments_after_gap + 1
            &&& g.overflows == c.overflows && g.segments_dropped == c.segments_dropped
        }),
        ({
            let o = c.with_overflow();
            &&& o.overflows == c.overflows + 1
            &&& o.gaps == c.gaps && o.segments_dropped == c.segments_dropped
            &&& o.gap_bytes == c.gap_bytes
        }),
        ({
            let d = c.with_dropped(n);
            &&& d.segments_dropped == c.segments_dropped + n
            &&& d.gaps == c.gaps && d.overflows == c.overflows && d.gap_bytes == c.gap_bytes
        }),
{
}

/// Flags are noted for the side that sent them, and change nothing else.
pub proof fn law_flags_are_noted_by_side(flags: u8, dir: bool)
    ensures
        forall|c: &mut TcpConn| #[trigger]
            call_ensures(TcpConn::update_flags, (c, flags, dir), ()) ==> {
                &&& dir ==> (*final(c)).stoc == (*c).stoc && (*final(c)).ctos.consumed_flags == (
                *c).ctos.consumed_flags | flags
                &&& !dir ==> (*final(c)).ctos == (*c).ctos && (*final(c)).stoc.consumed_flags == (
                *c).stoc.consumed_flags | flags
                &&& (*final(c)).ctos.next_seq == (*c).ctos.next_seq
                &&& (*final(c)).stoc.next_seq == (*c).stoc.next_seq
                &&& (*final(c)).handshake_done == (*c).handshake_done
            },
{
}

/// While a direction waits for a gap to fill, the deadline is that of the gap.
pub proof fn law_gaps_have_their_own_deadline(
    c: TcpConn,
    pending: bool,
    inactivity: usize,
    gap: usize,
    n: usize,
)
    requires
        call_ensures(TcpConn::has_pending_gap, (&c,), pending),
        call_ensures(TcpConn::inactivity_timeout, (&c, inactivity, gap), n),
    ensures
        pending <==> c.ctos@.buf.len() > 0 || c.stoc@.buf.len() > 0,
        pending ==> n == gap,
        !pending ==> n == inactivity,
{
}

/// A packet goes from originator to responder exactly if the originator sent it, whichever
/// packet opened the connection.
pub proof fn law_packets_have_a_direction<T: Trackable>(
    c: Conn<T>,
    there: L4Context,
    back: L4Context,
    a: bool,
    b: bool,
)
    requires
        c.info.five_tuple == FiveTuple::of(there, true),
        back.src == there.dst,
        back.dst == there.src,
        there.src != there.dst,
        call_ensures(Conn::<T>::packet_dir, (&c, &there), a),
        call_ensures(Conn::<T>::packet_dir, (&c, &back), b),
    ensures
        a,
        !b,
{
}

/// The packets of a TCP connection are those of its two directions.
pub proof fn law_lengths_add_up<T: Trackable>(
    c: Conn<T>,
    a: Option<usize>,
    b: Option<usize>,
    n: Option<usize>,
)
    requires
        call_ensures(Conn::<T>::flow_len, (&c, true), a),
        call_ensures(Conn::<T>::flow_len, (&c, false), b),
        call_ensures(Conn::<T>::total_len, (&c,), n),
        c.l4conn matches L4Conn::Tcp(t) ==> t.ctos.observed + t.stoc.observed <= usize::MAX,
    ensures
        c.l4conn matches L4Conn::Tcp(t) ==> a == Some(t.ctos.observed) && b == Some(
            t.stoc.observed,
        ) && n == Some((a->0 + b->0) as usize),
        c.l4conn is Udp ==> a is None && b is None && n is None,
{
}

} // verus!
