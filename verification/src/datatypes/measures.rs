//! What the measures of a connection are for: how they relate to what was sent, and when.

use crate::conntrack::pdu::L4Pdu;
use crate::conntrack::reassembly::{seq_add, seq_dist};
use crate::datatypes::conn_fts::{
    history_after, recorded, with_arrival, ByteCount, ConnDuration, InterArrivals, PktCount,
};
use crate::datatypes::ranges::span;
use crate::datatypes::reassembly_stats::ReassemblyStats;
use crate::datatypes::tcp_fts::{
    acked, highest, inflation_samples, is_retransmit, law_acknowledged_sends_leave_in_order,
    law_min_rtt_is_a_lower_bound, min_after,
    newly_acked, queuing_samples, rtt_fold, rtt_samples, rtt_step, seq_end, unacked, with_send,
    Arrival, Received, RttModel, TcpInFlight, TcpLatencyInflation, TcpLossReorder,
    TcpQueuingDelay, TcpRetransmits, TcpRtt, TcpThroughput,
};
use crate::time::{Duration, Instant};
use vstd::prelude::*;

verus! {

/// A send that has been acknowledged gives, as its round-trip time, the microseconds from when
/// it was seen to when its acknowledgment was; sends are acknowledged oldest first, and those
/// that are not wait on.
pub proof fn law_samples_are_the_delays(
    pending: Seq<(u32, Instant)>,
    ack: u32,
    now: Instant,
    k: int,
)
    requires
        0 <= k <= pending.len(),
        forall|i: int|
            0 <= i < k ==> seq_dist((#[trigger] pending[i]).0, ack) < 0x8000_0000
                && pending[i].1.nanos + 1000 <= now.nanos,
        k < pending.len() ==> seq_dist(pending[k].0, ack) >= 0x8000_0000,
    ensures
        unacked(pending, ack) == pending.skip(k),
        rtt_samples(pending, ack, now).len() == k,
        forall|i: int|
            0 <= i < k ==> #[trigger] rtt_samples(pending, ack, now)[i] == (now.nanos
                - pending[i].1.nanos) / 1000,
    decreases k,
{
    if k == 0 {
        assert(pending.skip(0) =~= pending);
    } else {
        let rest = pending.skip(1);
        assert forall|i: int| 0 <= i < k - 1 implies seq_dist((#[trigger] rest[i]).0, ack)
            < 0x8000_0000 && rest[i].1.nanos + 1000 <= now.nanos by {
            assert(rest[i] == pending[i + 1]);
        }
        assert(acked(pending[0].0, ack));
        law_samples_are_the_delays(rest, ack, now, k - 1);
        assert(rest.skip(k - 1) =~= pending.skip(k));
        let samples = rtt_samples(pending, ack, now);
        assert forall|i: int| 0 <= i < k implies #[trigger] samples[i] == (now.nanos
            - pending[i].1.nanos) / 1000 by {
            if i > 0 {
                assert(samples[i] == rtt_samples(rest, ack, now)[i - 1]);
                assert(rest[i - 1] == pending[i]);
            }
        }
    }
}

/// A segment of the originator waits for the acknowledgment of its last byte: the
/// acknowledgment with its end gives the time since, and one of less gives nothing.
pub proof fn law_segments_wait_for_their_end(pdu: L4Pdu, back: L4Pdu)
    requires
        0 < pdu.ctxt.length < 0x8000_0000,
        pdu.ts.nanos + 1000 <= back.ts.nanos,
    ensures
        ({
            let waiting = with_send(Seq::empty(), (seq_end(pdu), pdu.ts));
            let whole = seq_add(pdu.ctxt.seq_no, pdu.ctxt.length as int);
            let less = seq_add(pdu.ctxt.seq_no, pdu.ctxt.length - 1);
            &&& back.ctxt.ack_no == whole ==> rtt_samples(waiting, back.ctxt.ack_no, back.ts)
                == seq![((back.ts.nanos - pdu.ts.nanos) / 1000) as u64]
            &&& back.ctxt.ack_no == less ==> rtt_samples(waiting, back.ctxt.ack_no, back.ts).len()
                == 0 && unacked(waiting, back.ctxt.ack_no) == waiting
        }),
{
    let waiting = with_send(Seq::empty(), (seq_end(pdu), pdu.ts));
    let n = pdu.ctxt.length;
    assert(n as u32 == n);
    assert(waiting =~= seq![(seq_end(pdu), pdu.ts)]);
    let whole = seq_add(pdu.ctxt.seq_no, n as int);
    let less = seq_add(pdu.ctxt.seq_no, n - 1);
    if back.ctxt.ack_no == whole {
        law_samples_are_the_delays(waiting, whole, back.ts, 1);
        assert(rtt_samples(waiting, whole, back.ts) =~= seq![
            ((back.ts.nanos - pdu.ts.nanos) / 1000) as u64,
        ]);
    }
    if back.ctxt.ack_no == less {
        assert(seq_dist(waiting[0].0, less) == 0xFFFF_FFFF);
        law_samples_are_the_delays(waiting, less, back.ts, 0);
        assert(waiting.skip(0) =~= waiting);
    }
}

/// The estimates move as RFC 6298, section 2, has it: the variance by a quarter of the way
/// to the distance from the old estimate, the estimate by an eighth of the way to the sample.
/// (They are rounded down.)
pub proof fn law_estimates_move_by_fractions(m: RttModel, rtt: int)
    requires
        m.count > 0,
        m.srtt >= 0,
        m.rttvar >= 0,
        rtt > 0,
    ensures
        ({
            let after = rtt_step(m, rtt);
            let off = if rtt > m.srtt {
                rtt - m.srtt
            } else {
                m.srtt - rtt
            };
            &&& 0 <= 7 * m.srtt + rtt - 8 * after.srtt < 8
            &&& 0 <= 3 * m.rttvar + off - 4 * after.rttvar < 4
            &&& rtt <= m.srtt ==> rtt <= after.srtt <= m.srtt
            &&& rtt >= m.srtt ==> m.srtt <= after.srtt <= rtt
            &&& after.min == m.min || after.min == rtt
        }),
        ({
            let first = rtt_step(RttModel { count: 0, ..m }, rtt);
            first.srtt == rtt && first.min == rtt && 0 <= rtt - 2 * first.rttvar < 2
        }),
{
}

/// On a path with a constant delay, the estimate is that delay, however many samples there
/// are, and the variance only shrinks.
pub proof fn law_constant_delay_is_the_estimate(m: RttModel, samples: Seq<u64>, delay: u64)
    requires
        delay > 0,
        m.count == 0,
        samples.len() > 0,
        forall|i: int| 0 <= i < samples.len() ==> #[trigger] samples[i] == delay,
    ensures
        ({
            let after = rtt_fold(m, samples);
            &&& after.srtt == delay
            &&& after.min == delay
            &&& after.count == samples.len()
            &&& 0 <= after.rttvar <= delay / 2
        }),
    decreases samples.len(),
{
    let init = samples.drop_last();
    reveal_with_fuel(rtt_fold, 2);
    assert(samples[samples.len() - 1] == delay);
    if init.len() > 0 {
        assert forall|i: int| 0 <= i < init.len() implies #[trigger] init[i] == delay by {
            assert(init[i] == samples[i]);
        }
        law_constant_delay_is_the_estimate(m, init, delay);
    }
}

/// A segment that goes beyond what was sent is no retransmit, and one that ends within it is.
pub proof fn law_new_data_is_no_retransmit(h: u32, n: int)
    requires
        0 <= n < 0x8000_0000,
    ensures
        n > 0 ==> !is_retransmit(Some(h), seq_add(h, n)),
        is_retransmit(Some(h), seq_add(h, -n)),
        !is_retransmit(None, h),
        n > 0 ==> highest(Some(h), seq_add(h, n)) == Some(seq_add(h, n)),
        highest(Some(h), seq_add(h, -n)) == Some(h),
{
}

/// Positions number the bytes of a direction as the sequence numbers do, on both sides of the
/// highest byte seen, and however often the sequence numbers wrap around.
pub proof fn law_positions_follow_sequence_numbers(r: Received, d: int)
    requires
        r.max_position > 0,
        -0x8000_0000 < d < 0x8000_0000,
    ensures
        r.position(seq_add(r.max_seq, d)) == r.max_position + d,
{
}

/// A segment leaves the positions of all bytes near it as they were.
pub proof fn law_positions_stay(before: Received, after: Received, seq: u32, n: int, d: int)
    requires
        before.wf(),
        before.max_position > 0,
        0 < n < 0x4000_0000,
        before.grown(after, seq, n),
        seq_dist(before.max_seq, seq) < 0x2000_0000,
        -0x1000_0000 < d < 0x1000_0000,
    ensures
        after.position(seq_add(seq, d)) == before.position(seq_add(seq, d)),
        after.position(seq) == before.position(seq),
{
    let e = seq_dist(before.max_seq, seq);
    assert(seq == seq_add(before.max_seq, e));
    assert(seq_add(seq, d) == seq_add(before.max_seq, e + d));
    law_positions_follow_sequence_numbers(before, e + d);
    law_positions_follow_sequence_numbers(before, e);
    assert(after.max_seq == seq_add(seq, n));
    assert(seq_add(seq, d) == seq_add(after.max_seq, d - n));
    assert(seq == seq_add(after.max_seq, -n));
    law_positions_follow_sequence_numbers(after, d - n);
    law_positions_follow_sequence_numbers(after, -n);
}

/// What acknowledgments newly cover adds up: two in order cover together what the second
/// alone would, and an old one covers nothing.
pub proof fn law_acknowledged_bytes_add_up(last: u32, n: int, more: int)
    requires
        0 <= n,
        0 <= more,
        n + more < 0x8000_0000,
    ensures
        ({
            let first = seq_add(last, n);
            let second = seq_add(last, n + more);
            &&& newly_acked(Some(last), first) == n
            &&& highest(Some(last), first) == Some(first)
            &&& newly_acked(highest(Some(last), first), second) == more
            &&& newly_acked(Some(last), second) == n + more
            &&& n > 0 ==> newly_acked(Some(first), last) == 0 && highest(Some(first), last)
                == Some(first)
        }),
{
}

/// What the responder acknowledges is counted for the originator, and what the originator
/// acknowledges for the responder.
pub proof fn law_acknowledgments_count_for_the_other_side(
    t: TcpThroughput,
    pdu: L4Pdu,
    last: u32,
    n: int,
)
    requires
        pdu.ctxt.flags & 0x10 != 0,
        0 <= n < 0x8000_0000,
        pdu.ctxt.ack_no == seq_add(last, n),
        pdu.dir ==> t.last_ack_orig == Some(last),
        !pdu.dir ==> t.last_ack_resp == Some(last),
    ensures
        !pdu.dir ==> t.interval_after(pdu, true) == t.interval_bytes_orig + n && t.interval_after(
            pdu,
            false,
        ) == t.interval_bytes_resp,
        pdu.dir ==> t.interval_after(pdu, false) == t.interval_bytes_resp + n && t.interval_after(
            pdu,
            true,
        ) == t.interval_bytes_orig,
        !pdu.dir ==> t.ack_after(pdu, false) == Some(pdu.ctxt.ack_no) && t.ack_after(pdu, true)
            == t.last_ack_orig,
        pdu.dir ==> t.ack_after(pdu, true) == Some(pdu.ctxt.ack_no) && t.ack_after(pdu, false)
            == t.last_ack_resp,
{
}

/// A segment that the originator sends beyond what it sent before is in flight until the
/// responder acknowledges it; of what is acknowledged in part, the rest is in flight.
pub proof fn law_unacknowledged_bytes_are_in_flight(
    f: TcpInFlight,
    base: u32,
    sent: L4Pdu,
    g: TcpInFlight,
    back: L4Pdu,
    n: int,
)
    requires
        f.max_seq_sent == Some(base),
        f.max_ack_recv == Some(base),
        sent.dir,
        sent.ctxt.seq_no == base,
        0 < sent.ctxt.length < 0x8000_0000,
        g.max_seq_sent == f.sent_after(sent),
        g.max_ack_recv == f.acked_after(sent),
        !back.dir,
        back.ctxt.flags & 0x10 != 0,
        0 <= n <= sent.ctxt.length,
        back.ctxt.ack_no == seq_add(base, n),
    ensures
        f.flight_after(sent) == sent.ctxt.length,
        g.flight_after(back) == sent.ctxt.length - n,
{
    let len = sent.ctxt.length;
    assert(len as u32 == len);
}

/// The queuing delay is what a round-trip time exceeds the smallest one by: together with a
/// smallest one, which is the one before or some sample up to there, it is the sample.
pub proof fn law_queuing_delay_is_above_the_minimum(
    min: u64,
    rtts: Seq<u64>,
    elapsed: u64,
    i: int,
)
    requires
        0 <= i < rtts.len(),
    ensures
        ({
            let delay = queuing_samples(min, rtts, elapsed)[i].queuing_delay_us as int;
            let base = rtts[i] - delay;
            &&& queuing_samples(min, rtts, elapsed).len() == rtts.len()
            &&& queuing_samples(min, rtts, elapsed)[i].elapsed_ms == elapsed
            &&& base <= min
            &&& forall|j: int| 0 <= j <= i ==> base <= #[trigger] rtts[j]
            &&& base == min || exists|j: int| 0 <= j <= i && base == #[trigger] rtts[j]
        }),
{
    law_min_rtt_is_a_lower_bound(min, rtts, i + 1);
    lemma_min_is_attained(min, rtts, i + 1);
}

proof fn lemma_min_is_attained(min: u64, rtts: Seq<u64>, n: int)
    requires
        0 <= n <= rtts.len(),
    ensures
        min_after(min, rtts, n) == min || exists|j: int|
            0 <= j < n && min_after(min, rtts, n) == #[trigger] rtts[j],
    decreases n,
{
    if n > 0 {
        lemma_min_is_attained(min, rtts, n - 1);
        if min_after(min, rtts, n) != min_after(min, rtts, n - 1) {
            assert(min_after(min, rtts, n) == rtts[n - 1]);
        }
    }
}

/// The inflation, in thousandths, times the smallest round-trip time is the sample, up to
/// rounding.
pub proof fn law_inflation_scales_the_minimum(min: u64, rtts: Seq<u64>, elapsed: u64, i: int)
    requires
        0 <= i < rtts.len(),
        0 < min,
        forall|j: int|
            0 <= j < rtts.len() ==> 0 < #[trigger] rtts[j] <= 18_446_744_073_709_551,
    ensures
        ({
            let x = inflation_samples(min, rtts, elapsed)[i].inflation_permille as int;
            let base = min_after(min, rtts, i + 1) as int;
            &&& base * x <= rtts[i] * 1000 < base * (x + 1)
            &&& inflation_samples(min, rtts, elapsed)[i].elapsed_ms == elapsed
        }),
{
    law_min_rtt_is_a_lower_bound(min, rtts, i + 1);
    lemma_min_is_attained(min, rtts, i + 1);
    let base = min_after(min, rtts, i + 1) as int;
    let r = rtts[i] as int;
    let x = r * 1000 / base;
    assert(0 <= x <= r * 1000) by (nonlinear_arith)
        requires
            x == r * 1000 / base,
            base > 0,
            r > 0,
    ;
    assert(base * x <= r * 1000 < base * (x + 1)) by (nonlinear_arith)
        requires
            x == r * 1000 / base,
            base > 0,
    ;
}

/// The sum of some spans of time.
pub open spec fn total(times: Seq<Duration>) -> int
    decreases times.len(),
{
    if times.len() == 0 {
        0
    } else {
        total(times.drop_last()) + times.last().nanos
    }
}

/// The inter-arrival times of a flow add up to the time from its first packet to its last,
/// and there is one fewer of them than packets.
pub proof fn law_interarrivals_add_up(
    times: Seq<Duration>,
    packets: usize,
    first: Instant,
    last: Instant,
    now: Instant,
)
    requires
        packets > 0 ==> times.len() == packets - 1 && total(times) == last.nanos - first.nanos,
        packets == 0 ==> times.len() == 0 && first == now,
        last.nanos <= now.nanos,
        packets < usize::MAX,
    ensures
        ({
            let after = with_arrival(times, packets, last, now);
            after.len() == packets && total(after) == now.nanos - first.nanos
        }),
{
    let after = with_arrival(times, packets, last, now);
    if packets > 0 {
        assert(after.drop_last() =~= times);
    }
}

/// The duration of a connection is the time from its first packet to its last.
pub proof fn law_duration_is_from_first_to_last(
    c: ConnDuration,
    ms: u64,
    d: Duration,
)
    requires
        c.start_ts.nanos <= c.last_ts.nanos,
        call_ensures(ConnDuration::duration_ms, (&c,), ms),
        call_ensures(ConnDuration::duration, (&c,), d),
    ensures
        c.start_ts.nanos + d.nanos == c.last_ts.nanos,
        ms * 1_000_000 <= d.nanos < (ms + 1) * 1_000_000,
{
}

/// A history holds a letter exactly if it did before or its event has just happened: upper
/// case for the originator, lower case for the responder.
pub proof fn law_history_tells_the_events(
    history: Seq<u8>,
    flags: u8,
    length: usize,
    dir: bool,
    x: u8,
)
    ensures
        history_after(history, flags, length, dir).contains(x) <==> {
            ||| history.contains(x)
            ||| x == (if dir {
                'S'
            } else {
                's'
            }) as u8 && flags == 0x02
            ||| x == (if dir {
                'H'
            } else {
                'h'
            }) as u8 && flags == 0x12
            ||| x == (if dir {
                'A'
            } else {
                'a'
            }) as u8 && flags == 0x10 && length == 0
            ||| x == (if dir {
                'D'
            } else {
                'd'
            }) as u8 && length > 0
            ||| x == (if dir {
                'F'
            } else {
                'f'
            }) as u8 && flags & 0x01 != 0
            ||| x == (if dir {
                'R'
            } else {
                'r'
            }) as u8 && flags & 0x04 != 0
        },
{
    assert(0x02u8 | 0x10 == 0x12u8) by (bit_vector);
    let low: u8 = if dir {
        0
    } else {
        0x20
    };
    let a = recorded(history, (0x53 + low) as u8, flags == 0x02);
    let b = recorded(a, (0x48 + low) as u8, flags == 0x12);
    let c = recorded(
        b,
        (0x41 + low) as u8,
        flags == 0x10 && length == 0,
    );
    let d = recorded(c, (0x44 + low) as u8, length > 0);
    let e = recorded(d, (0x46 + low) as u8, flags & 0x01 != 0);
    lemma_recorded(history, (0x53 + low) as u8, flags == 0x02, x);
    lemma_recorded(a, (0x48 + low) as u8, flags == 0x12, x);
    lemma_recorded(b, (0x41 + low) as u8, flags == 0x10 && length == 0, x);
    lemma_recorded(c, (0x44 + low) as u8, length > 0, x);
    lemma_recorded(d, (0x46 + low) as u8, flags & 0x01 != 0, x);
    lemma_recorded(e, (0x52 + low) as u8, flags & 0x04 != 0, x);
}

proof fn lemma_recorded(history: Seq<u8>, letter: u8, happened: bool, x: u8)
    ensures
        recorded(history, letter, happened).contains(x)
            <==> history.contains(x) || (happened && x == letter),
{
    let after = recorded(history, letter, happened);
    if history.contains(x) {
        let k = choose|k: int| 0 <= k < history.len() && history[k] == x;
        assert(after[k] == x);
    }
    if happened && x == letter && !history.contains(letter) {
        assert(after[history.len() as int] == x);
    }
}

/// Packets and their payload bytes are counted for the side that sent them, one packet and
/// its own bytes at a time.
pub proof fn law_packets_are_counted_by_side(pdu: L4Pdu)
    ensures
        forall|c: &mut PktCount| #[trigger]
            call_ensures(PktCount::update, (c, &pdu), ()) ==> {
                &&& pdu.dir ==> (*final(c)).orig == (*c).orig + 1 && (*final(c)).resp == (*c).resp
                &&& !pdu.dir ==> (*final(c)).resp == (*c).resp + 1 && (*final(c)).orig == (*c).orig
            },
        forall|c: &mut ByteCount| #[trigger]
            call_ensures(ByteCount::update, (c, &pdu), ()) ==> {
                &&& pdu.dir ==> (*final(c)).orig == (*c).orig + pdu.ctxt.length && (*final(c)).resp
                    == (*c).resp
                &&& !pdu.dir ==> (*final(c)).resp == (*c).resp + pdu.ctxt.length && (*final(c)).orig == (*c).orig
            },
        forall|c: &mut ConnDuration| #[trigger]
            call_ensures(ConnDuration::update, (c, &pdu), ()) ==> (*final(c)).start_ts
                == (*c).start_ts && (*final(c)).last_ts == pdu.ts,
        forall|c: &PktCount, n: usize| #[trigger]
            call_ensures(PktCount::total, (c,), n) ==> n == c.orig + c.resp,
        forall|c: &ByteCount, n: usize| #[trigger]
            call_ensures(ByteCount::total, (c,), n) ==> n == c.orig + c.resp,
{
}

/// Gaps, retransmits, losses and reorderings are counted for the side that sent the segment,
/// and what is known of the other side stays as it was.
pub proof fn law_streams_are_followed_by_side(pdu: L4Pdu)
    ensures
        forall|s: &mut ReassemblyStats| #[trigger]
            call_ensures(ReassemblyStats::update, (s, &pdu), ()) ==> {
                &&& pdu.dir ==> (*final(s)).resp == (*s).resp
                &&& !pdu.dir ==> (*final(s)).orig == (*s).orig
                &&& pdu.dir && (*s).orig.has_room(pdu) ==> (*final(s)).orig.missing_bytes
                    == (*s).orig.missing_bytes + pdu.ctxt.gap_before
                &&& !pdu.dir && (*s).resp.has_room(pdu) ==> (*final(s)).resp.missing_bytes
                    == (*s).resp.missing_bytes + pdu.ctxt.gap_before
            },
        forall|r: &mut TcpRetransmits| #[trigger]
            call_ensures(TcpRetransmits::update, (r, &pdu), ()) ==> {
                &&& pdu.dir ==> (*final(r)).resp == (*r).resp && (*final(r)).max_seq_resp
                    == (*r).max_seq_resp
                &&& !pdu.dir ==> (*final(r)).orig == (*r).orig && (*final(r)).max_seq_orig
                    == (*r).max_seq_orig
                &&& pdu.ctxt.length == 0 ==> *final(r) == *r
            },
        forall|r: &mut TcpLossReorder| #[trigger]
            call_ensures(TcpLossReorder::update, (r, &pdu), ()) && (*r).has_room() ==> {
                &&& pdu.dir ==> (*final(r)).loss_resp == (*r).loss_resp && (*final(r)).reorder_resp
                    == (*r).reorder_resp
                &&& !pdu.dir ==> (*final(r)).loss_orig == (*r).loss_orig && (*final(r)).reorder_orig == (*r).reorder_orig
            },
        forall|a: &mut InterArrivals, now: Instant| #[trigger]
            call_ensures(InterArrivals::update, (a, &pdu, now), ()) ==> {
                &&& pdu.dir ==> (*final(a)).last_pkt_ctos == now && (*final(a)).interarrivals_stoc == (*a).interarrivals_stoc
                &&& !pdu.dir ==> (*final(a)).last_pkt_stoc == now && (*final(a)).interarrivals_ctos == (*a).interarrivals_ctos
            },
{
}

/// A segment of the originator that was sent before is one more retransmit of the
/// originator's, and one of the responder's is one of the responder's.
pub proof fn law_segments_sent_again_are_retransmits(pdu: L4Pdu, highest_end: u32, n: int)
    requires
        0 < pdu.ctxt.length < 0x8000_0000,
        seq_add(pdu.ctxt.seq_no, pdu.ctxt.length as int) == seq_add(highest_end, -n),
        -0x8000_0000 < n < 0x8000_0000,
    ensures
        forall|r: &mut TcpRetransmits| #[trigger]
            call_ensures(TcpRetransmits::update, (r, &pdu), ()) && (*r).orig < u64::MAX
                && (*r).resp < u64::MAX ==> {
                let again: int = if n >= 0 {
                    1
                } else {
                    0
                };
                &&& pdu.dir && (*r).max_seq_orig == Some(highest_end) ==> (*final(r)).orig
                    == (*r).orig + again
                &&& !pdu.dir && (*r).max_seq_resp == Some(highest_end) ==> (*final(r)).resp
                    == (*r).resp + again
            },
{
    let len = pdu.ctxt.length;
    assert(len as u32 == len);
}

/// Only segments of the originator wait for an acknowledgment, each under the number after its
/// payload and with its time, and only acknowledgments of the responder give samples.
pub proof fn law_sends_of_the_originator_are_timed(pdu: L4Pdu)
    requires
        pdu.ctxt.length < 0x8000_0000,
    ensures
        forall|r: &mut TcpRtt| #[trigger]
            call_ensures(TcpRtt::update, (r, &pdu), ()) ==> {
                &&& pdu.dir ==> (*final(r)).model() == (*r).model()
                &&& pdu.dir && pdu.ctxt.length > 0 ==> (*final(r)).pending@.len() > 0 && (*final(r)).pending@.last() == (
                    seq_add(pdu.ctxt.seq_no, pdu.ctxt.length as int),
                    pdu.ts,
                )
                &&& !pdu.dir ==> (*final(r)).pending@.len() <= (*r).pending@.len()
            },
        forall|q: &mut TcpQueuingDelay| #[trigger]
            call_ensures(TcpQueuingDelay::update, (q, &pdu), ()) && pdu.dir ==> {
                &&& (*final(q)).samples == (*q).samples
                &&& pdu.ctxt.length > 0 ==> (*final(q)).pending@.len() > 0 && (*final(q)).pending@.last() == (
                    seq_add(pdu.ctxt.seq_no, pdu.ctxt.length as int),
                    pdu.ts,
                )
            },
        forall|q: &mut TcpLatencyInflation| #[trigger]
            call_ensures(TcpLatencyInflation::update, (q, &pdu), ()) && pdu.dir ==> {
                &&& (*final(q)).samples == (*q).samples
                &&& pdu.ctxt.length > 0 ==> (*final(q)).pending@.len() > 0 && (*final(q)).pending@.last() == (
                    seq_add(pdu.ctxt.seq_no, pdu.ctxt.length as int),
                    pdu.ts,
                )
            },
{
    let len = pdu.ctxt.length;
    assert(len as u32 == len);
    assert forall|r: &mut TcpRtt| #[trigger]
        call_ensures(TcpRtt::update, (r, &pdu), ()) && !pdu.dir implies (*final(r)).pending@.len()
        <= (*r).pending@.len() by {
        law_acknowledged_sends_leave_in_order((*r).pending@, pdu.ctxt.ack_no);
    }
}

/// Samples are taken at least 100 ms apart, with the milliseconds since the start.
pub proof fn law_samples_are_spaced(pdu: L4Pdu)
    ensures
        forall|f: &mut TcpInFlight| #[trigger]
            call_ensures(TcpInFlight::update, (f, &pdu), ()) && (*f).last_sample_ts.nanos
                <= pdu.ts.nanos && (*f).start_ts.nanos <= pdu.ts.nanos ==> {
                let due = pdu.ts.nanos - (*f).last_sample_ts.nanos >= 100_000_000;
                &&& !due ==> (*final(f)).samples@ == (*f).samples@ && (*final(f)).last_sample_ts
                    == (*f).last_sample_ts
                &&& due ==> (*final(f)).samples@.len() == (*f).samples@.len() + 1 && (*final(f)).samples@.last().elapsed_ms == (pdu.ts.nanos - (*f).start_ts.nanos)
                    / 1_000_000 && (*final(f)).last_sample_ts == pdu.ts && (*final(f)).samples@.last().bytes_in_flight == (*f).flight_after(pdu)
            },
        forall|t: &mut TcpThroughput| #[trigger]
            call_ensures(TcpThroughput::update, (t, &pdu), ()) && (*t).last_sample_ts.nanos
                <= pdu.ts.nanos && (*t).start_ts.nanos <= pdu.ts.nanos ==> {
                let due = pdu.ts.nanos - (*t).last_sample_ts.nanos >= 100_000_000;
                &&& !due ==> (*final(t)).samples@ == (*t).samples@ && (*final(t)).last_sample_ts
                    == (*t).last_sample_ts
                &&& due ==> (*final(t)).samples@.len() == (*t).samples@.len() + 1 && (*final(t)).samples@.last().elapsed_ms == (pdu.ts.nanos - (*t).start_ts.nanos)
                    / 1_000_000 && (*final(t)).last_sample_ts == pdu.ts && (*final(t)).interval_bytes_orig == 0 && (*final(t)).interval_bytes_resp == 0
            },
{
}

/// A segment at or after the highest byte seen is an advance; one from before is a duplicate
/// if all of it was seen, and late if not.
pub proof fn law_segments_are_told_by_their_position(r: Received, d: int, n: int)
    requires
        r.wf(),
        r.max_position > 0,
        -0x8000_0000 < d < 0x8000_0000,
        n > 0,
        forall|p: int| #[trigger] r.seen@.contains(p) ==> p < r.max_position,
    ensures
        d >= 0 ==> r.arrival(seq_add(r.max_seq, d), n) == Arrival::Advance,
        d < 0 && (forall|p: int|
            r.max_position + d <= p < r.max_position + d + n ==> #[trigger] r.seen@.contains(p))
            ==> r.arrival(seq_add(r.max_seq, d), n) == Arrival::Duplicate,
        d < 0 && !(forall|p: int|
            r.max_position + d <= p < r.max_position + d + n ==> #[trigger] r.seen@.contains(p))
            ==> r.arrival(seq_add(r.max_seq, d), n) == Arrival::Late,
{
    law_positions_follow_sequence_numbers(r, d);
    let start = r.max_position + d;
    let all = span(start, start + n);
    assert(all.contains(start));
    if all.subset_of(r.seen@) {
        assert(r.seen@.contains(start));
        assert forall|p: int| start <= p < start + n implies #[trigger] r.seen@.contains(p) by {
            assert(all.contains(p));
        }
    } else {
        let p = choose|p: int| all.contains(p) && !r.seen@.contains(p);
        assert(!r.seen@.contains(p));
    }
}

} // verus!
