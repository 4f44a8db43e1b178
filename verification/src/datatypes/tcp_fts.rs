//! TCP datatypes: round-trip times, retransmissions, bytes in flight, losses and throughput.

use crate::conntrack::pdu::{read_tcp_window, tcp_window, L4Pdu};
use crate::conntrack::reassembly::{seq_add, seq_before, seq_dist, wrapping_lt};
use crate::conntrack::tcp::ACK;
use crate::datatypes::ranges::{span, Ranges};
use crate::subscription::data::TrackedData;
use crate::time::{Duration, Instant, NANOS_PER_MICRO, NANOS_PER_MILLI};
use std::collections::VecDeque;
use vstd::prelude::*;

verus! {

/// The sequence number after a segment's payload.
pub open spec fn seq_end(pdu: L4Pdu) -> u32 {
    seq_add(pdu.ctxt.seq_no, pdu.ctxt.length as u32 as int)
}

fn end_of(pdu: &L4Pdu) -> (n: u32)
    ensures
        n == seq_end(*pdu),
{
    pdu.seq_no().wrapping_add(pdu.length() as u32)
}

/// At most so many sends wait for their acknowledgment, to avoid unbounded growth under
/// loss.
pub const MAX_PENDING: usize = 256;

/// Sends that wait for their acknowledgment: where each ends, and when it was seen.
#[derive(Debug, Clone)]
pub struct PendingSends {
    pub queue: VecDeque<(u32, Instant)>,
}

/// A send that ends at `end` is acknowledged by `ack`.
pub open spec fn acked(end: u32, ack: u32) -> bool {
    seq_before(end, ack) || end == ack
}

/// The sends that wait after one more: the oldest is dropped if there are too many.
pub open spec fn with_send(pending: Seq<(u32, Instant)>, send: (u32, Instant)) -> Seq<
    (u32, Instant),
> {
    if pending.len() < MAX_PENDING {
        pending.push(send)
    } else {
        pending.push(send).skip(1)
    }
}

/// The time from `sent` to `now`, in microseconds.
pub open spec fn rtt_us(sent: Instant, now: Instant) -> u64 {
    now.since(sent).nanos / NANOS_PER_MICRO
}

/// The sends that still wait after `ack`: the oldest one that it does not acknowledge, and
/// those after it.
pub open spec fn unacked(pending: Seq<(u32, Instant)>, ack: u32) -> Seq<(u32, Instant)>
    decreases pending.len(),
{
    if pending.len() == 0 || !acked(pending[0].0, ack) {
        pending
    } else {
        unacked(pending.skip(1), ack)
    }
}

/// The round-trip times of the sends that `ack` acknowledges, oldest first; those of less
/// than a microsecond are left out.
pub open spec fn rtt_samples(pending: Seq<(u32, Instant)>, ack: u32, now: Instant) -> Seq<u64>
    decreases pending.len(),
{
    if pending.len() == 0 || !acked(pending[0].0, ack) {
        Seq::empty()
    } else {
        let rest = rtt_samples(pending.skip(1), ack, now);
        let rtt = rtt_us(pending[0].1, now);
        if rtt == 0 {
            rest
        } else {
            seq![rtt] + rest
        }
    }
}

/// The largest round-trip time that time stamps can give.
pub const MAX_RTT_US: u64 = 18_446_744_073_709_551;

proof fn lemma_samples(pending: Seq<(u32, Instant)>, ack: u32, now: Instant)
    ensures
        rtt_samples(pending, ack, now).len() <= pending.len(),
        forall|i: int|
            0 <= i < rtt_samples(pending, ack, now).len() ==> 0 < #[trigger] rtt_samples(
                pending,
                ack,
                now,
            )[i] <= MAX_RTT_US,
    decreases pending.len(),
{
    if pending.len() > 0 && acked(pending[0].0, ack) {
        lemma_samples(pending.skip(1), ack, now);
    }
}

/// What still waits is the newest of what waited before.
pub proof fn law_acknowledged_sends_leave_in_order(pending: Seq<(u32, Instant)>, ack: u32)
    ensures
        unacked(pending, ack).len() <= pending.len(),
        unacked(pending, ack) == pending.skip(pending.len() - unacked(pending, ack).len()),
        unacked(pending, ack).len() > 0 ==> !acked(unacked(pending, ack)[0].0, ack),
    decreases pending.len(),
{
    if pending.len() == 0 || !acked(pending[0].0, ack) {
        assert(pending.skip(0) =~= pending);
    } else {
        law_acknowledged_sends_leave_in_order(pending.skip(1), ack);
        let rest = unacked(pending.skip(1), ack);
        assert(pending.skip(1).skip(pending.len() - 1 - rest.len()) =~= pending.skip(
            pending.len() - rest.len(),
        ));
    }
}

impl View for PendingSends {
    type V = Seq<(u32, Instant)>;

    open spec fn view(&self) -> Seq<(u32, Instant)> {
        self.queue@
    }
}

impl PendingSends {
    pub open spec fn wf(&self) -> bool {
        self@.len() <= MAX_PENDING
    }

    pub fn new() -> (p: PendingSends)
        ensures
            p.wf(),
            p@.len() == 0,
    {
        PendingSends { queue: VecDeque::new() }
    }

    /// Notes a send.
    pub fn push(&mut self, end: u32, sent: Instant)
        requires
            old(self).wf(),
        ensures
            final(self).wf(),
            final(self)@ == with_send(old(self)@, (end, sent)),
    {
        self.queue.push_back((end, sent));
        if self.queue.len() > MAX_PENDING {
            let ghost all = self.queue@;
            self.queue.pop_front();
            assert(self.queue@ =~= all.skip(1));
        }
    }

    /// Takes the sends that `ack` acknowledges off, and returns their round-trip times.
    pub fn take_acked(&mut self, ack: u32, now: Instant) -> (samples: Vec<u64>)
        requires
            old(self).wf(),
        ensures
            final(self).wf(),
            final(self)@ == unacked(old(self)@, ack),
            samples@ == rtt_samples(old(self)@, ack, now),
    {
        let mut samples: Vec<u64> = Vec::new();
        let ghost left = unacked(self@, ack);
        let ghost goal = rtt_samples(self@, ack, now);
        assert(samples@ + goal =~= goal);
        while self.queue.len() > 0
            invariant
                self.wf(),
                left == unacked(old(self)@, ack),
                goal == rtt_samples(old(self)@, ack, now),
                left == unacked(self@, ack),
                goal == samples@ + rtt_samples(self@, ack, now),
            decreases self@.len(),
        {
            let (end, sent) = self.queue[0];
            if !wrapping_lt(end, ack) && end != ack {
                assert(samples@ + rtt_samples(self@, ack, now) =~= samples@);
                return samples;
            }
            let ghost all = self.queue@;
            let ghost before = samples@;
            self.queue.pop_front();
            assert(self.queue@ =~= all.skip(1));
            let rtt: u64 = now.duration_since(sent).as_micros();
            if rtt != 0 {
                samples.push(rtt);
                assert(before + (seq![rtt] + rtt_samples(self@, ack, now)) =~= samples@
                    + rtt_samples(self@, ack, now));
            }
        }
        assert(samples@ + rtt_samples(self@, ack, now) =~= samples@);
        samples
    }
}

/// Smoothed round-trip time and its variance, estimated from acknowledgment timing
/// (RFC 6298).
///
/// Samples are derived from the time between a data segment leaving the originator and the
/// corresponding acknowledgment arriving from the responder.
#[derive(Debug, Clone)]
pub struct TcpRtt {
    /// Smoothed estimate in microseconds.
    pub srtt_us: u64,
    /// Variance in microseconds.
    pub rttvar_us: u64,
    /// Smallest sample in microseconds.
    pub min_rtt_us: u64,
    /// Number of samples collected.
    pub sample_count: u64,
    pub pending: PendingSends,
}

/// The estimates, as numbers.
pub struct RttModel {
    pub srtt: int,
    pub rttvar: int,
    pub min: int,
    pub count: int,
}

/// The distance between two numbers.
pub open spec fn distance(a: int, b: int) -> int {
    if a > b {
        a - b
    } else {
        b - a
    }
}

/// The estimates after one more sample: the first sets them; from then on the variance
/// moves by a quarter, and the smoothed estimate by an eighth.
pub open spec fn rtt_step(m: RttModel, rtt: int) -> RttModel {
    if m.count == 0 {
        RttModel { srtt: rtt, rttvar: rtt / 2, min: rtt, count: 1 }
    } else {
        RttModel {
            srtt: (7 * m.srtt + rtt) / 8,
            rttvar: (3 * m.rttvar + distance(rtt, m.srtt)) / 4,
            min: if rtt < m.min {
                rtt
            } else {
                m.min
            },
            count: m.count + 1,
        }
    }
}

/// The estimates after some samples.
pub open spec fn rtt_fold(m: RttModel, samples: Seq<u64>) -> RttModel
    decreases samples.len(),
{
    if samples.len() == 0 {
        m
    } else {
        rtt_step(rtt_fold(m, samples.drop_last()), samples.last() as int)
    }
}

/// Each number fits, and once there is a sample, the smallest one is no larger than the
/// smoothed estimate.
pub open spec fn rtt_bounded(m: RttModel) -> bool {
    &&& 0 <= m.srtt <= MAX_RTT_US
    &&& 0 <= m.rttvar <= MAX_RTT_US
    &&& 0 <= m.count
    &&& m.count > 0 ==> 0 < m.min <= m.srtt
}

/// The smoothed estimate never drops below the smallest sample, and no estimate exceeds
/// what a sample can be.
pub proof fn law_smoothed_rtt_is_at_least_the_minimum(m: RttModel, rtt: int)
    requires
        rtt_bounded(m),
        0 < rtt <= MAX_RTT_US,
    ensures
        rtt_bounded(rtt_step(m, rtt)),
        rtt_step(m, rtt).min <= rtt,
        m.count > 0 ==> rtt_step(m, rtt).min <= m.min,
{
}

proof fn lemma_fold_bounded(m: RttModel, samples: Seq<u64>)
    requires
        rtt_bounded(m),
        forall|i: int| 0 <= i < samples.len() ==> 0 < #[trigger] samples[i] <= MAX_RTT_US,
    ensures
        rtt_bounded(rtt_fold(m, samples)),
        rtt_fold(m, samples).count == m.count + samples.len(),
    decreases samples.len(),
{
    if samples.len() > 0 {
        lemma_fold_bounded(m, samples.drop_last());
        law_smoothed_rtt_is_at_least_the_minimum(
            rtt_fold(m, samples.drop_last()),
            samples.last() as int,
        );
    }
}

impl TcpRtt {
    pub open spec fn model(&self) -> RttModel {
        RttModel {
            srtt: self.srtt_us as int,
            rttvar: self.rttvar_us as int,
            min: self.min_rtt_us as int,
            count: self.sample_count as int,
        }
    }

    pub open spec fn wf(&self) -> bool {
        &&& self.pending.wf()
        &&& rtt_bounded(self.model())
    }

    /// Smoothed round-trip time.
    pub fn srtt(&self) -> (d: Duration)
        requires
            self.wf(),
        ensures
            d.nanos == self.srtt_us * NANOS_PER_MICRO,
    {
        Duration::from_micros(self.srtt_us)
    }

    /// Round-trip time variance.
    pub fn rttvar(&self) -> (d: Duration)
        requires
            self.wf(),
        ensures
            d.nanos == self.rttvar_us * NANOS_PER_MICRO,
    {
        Duration::from_micros(self.rttvar_us)
    }

    /// Smallest round-trip time observed.
    pub fn min_rtt(&self) -> (r: Option<Duration>)
        requires
            self.wf(),
        ensures
            match r {
                Some(d) => self.sample_count > 0 && d.nanos == self.min_rtt_us * NANOS_PER_MICRO,
                None => self.sample_count == 0,
            },
    {
        if self.sample_count == 0 {
            None
        } else {
            Some(Duration::from_micros(self.min_rtt_us))
        }
    }

    fn add_sample(&mut self, rtt: u64)
        requires
            rtt_bounded(old(self).model()),
            old(self).sample_count < u64::MAX,
            0 < rtt <= MAX_RTT_US,
        ensures
            final(self).model() == rtt_step(old(self).model(), rtt as int),
            final(self).pending == old(self).pending,
    {
        if self.sample_count == 0 {
            self.srtt_us = rtt;
            self.rttvar_us = rtt / 2;
            self.min_rtt_us = rtt;
        } else {
            let diff: u64 = if rtt > self.srtt_us {
                rtt - self.srtt_us
            } else {
                self.srtt_us - rtt
            };
            self.rttvar_us = (3 * self.rttvar_us + diff) / 4;
            self.srtt_us = (7 * self.srtt_us + rtt) / 8;
            if rtt < self.min_rtt_us {
                self.min_rtt_us = rtt;
            }
        }
        self.sample_count += 1;
    }

    /// Notes a send of the originator, or takes samples from an acknowledgment of the
    /// responder.
    pub fn update(&mut self, pdu: &L4Pdu)
        requires
            old(self).wf(),
            old(self).sample_count <= u64::MAX - MAX_PENDING,
        ensures
            final(self).wf(),
            pdu.dir ==> {
                &&& final(self).model() == old(self).model()
                &&& final(self).pending@ == (if pdu.ctxt.length > 0 {
                    with_send(old(self).pending@, (seq_end(*pdu), pdu.ts))
                } else {
                    old(self).pending@
                })
            },
            !pdu.dir ==> {
                &&& final(self).pending@ == unacked(old(self).pending@, pdu.ctxt.ack_no)
                &&& final(self).model() == rtt_fold(
                    old(self).model(),
                    rtt_samples(old(self).pending@, pdu.ctxt.ack_no, pdu.ts),
                )
            },
    {
        if pdu.dir {
            if pdu.length() > 0 {
                self.pending.push(end_of(pdu), pdu.ts);
            }
        } else {
            let ghost before = self.model();
            proof {
                lemma_samples(self.pending@, pdu.ctxt.ack_no, pdu.ts);
            }
            let samples = self.pending.take_acked(pdu.ack_no(), pdu.ts);
            let mut i: usize = 0;
            assert(samples@.take(0) =~= Seq::empty());
            while i < samples.len()
                invariant
                    i <= samples@.len() <= MAX_PENDING,
                    self.pending.wf(),
                    self.pending@ == unacked(old(self).pending@, pdu.ctxt.ack_no),
                    forall|j: int|
                        0 <= j < samples@.len() ==> 0 < #[trigger] samples@[j] <= MAX_RTT_US,
                    rtt_bounded(before),
                    before.count <= u64::MAX - MAX_PENDING,
                    self.model() == rtt_fold(before, samples@.take(i as int)),
                decreases samples@.len() - i,
            {
                proof {
                    lemma_fold_bounded(before, samples@.take(i as int));
                    assert(samples@.take(i + 1).drop_last() =~= samples@.take(i as int));
                }
                self.add_sample(samples[i]);
                i = i + 1;
            }
            assert(samples@.take(i as int) =~= samples@);
            proof {
                lemma_fold_bounded(before, samples@);
            }
        }
    }
}

impl TrackedData for TcpRtt {
    fn new(_first_pkt: &L4Pdu, _now: Instant) -> (r: TcpRtt)
        ensures
            r.wf(),
            r.srtt_us == 0 && r.rttvar_us == 0 && r.sample_count == 0,
            r.min_rtt_us == u64::MAX,
            r.pending@.len() == 0,
    {
        TcpRtt {
            srtt_us: 0,
            rttvar_us: 0,
            min_rtt_us: u64::MAX,
            sample_count: 0,
            pending: PendingSends::new(),
        }
    }

    fn clear(&mut self)
        ensures
            *final(self) == *old(self),
    {
    }
}

/// Counts of retransmitted segments per direction.
///
/// A segment is counted as a retransmit when its sequence number falls entirely within data
/// already sent in that direction: it ends at or before the highest sequence number
/// previously observed.
#[derive(Debug, Clone)]
pub struct TcpRetransmits {
    /// Retransmits from originator.
    pub orig: u64,
    /// Retransmits from responder.
    pub resp: u64,
    /// Highest end of a segment seen from the originator.
    pub max_seq_orig: Option<u32>,
    /// Highest end of a segment seen from the responder.
    pub max_seq_resp: Option<u32>,
}

/// A segment that ends at `end` adds nothing to what was sent up to `highest`.
pub open spec fn is_retransmit(highest: Option<u32>, end: u32) -> bool {
    match highest {
        Some(h) => acked(end, h),
        None => false,
    }
}

/// A count of retransmits and the highest end after a segment.
pub open spec fn retransmit_step(count: u64, highest: Option<u32>, end: u32) -> (
    int,
    Option<u32>,
) {
    if is_retransmit(highest, end) {
        (count + 1, highest)
    } else {
        (count as int, Some(end))
    }
}

/// Returns `true` if a segment that ends at `end` adds nothing to what was sent.
fn retransmits(highest: Option<u32>, end: u32) -> (b: bool)
    ensures
        b == is_retransmit(highest, end),
{
    match highest {
        Some(h) => wrapping_lt(end, h) || end == h,
        None => false,
    }
}

impl TcpRetransmits {
    /// Total retransmits across both directions.
    pub fn total(&self) -> (n: u64)
        requires
            self.orig + self.resp <= u64::MAX,
        ensures
            n == self.orig + self.resp,
    {
        self.orig + self.resp
    }

    /// Counts a segment with payload in its direction.
    pub fn update(&mut self, pdu: &L4Pdu)
        requires
            old(self).orig < u64::MAX,
            old(self).resp < u64::MAX,
        ensures
            pdu.ctxt.length == 0 ==> *final(self) == *old(self),
            pdu.ctxt.length > 0 && pdu.dir ==> {
                &&& (final(self).orig as int, final(self).max_seq_orig) == retransmit_step(
                    old(self).orig,
                    old(self).max_seq_orig,
                    seq_end(*pdu),
                )
                &&& final(self).resp == old(self).resp
                &&& final(self).max_seq_resp == old(self).max_seq_resp
            },
            pdu.ctxt.length > 0 && !pdu.dir ==> {
                &&& (final(self).resp as int, final(self).max_seq_resp) == retransmit_step(
                    old(self).resp,
                    old(self).max_seq_resp,
                    seq_end(*pdu),
                )
                &&& final(self).orig == old(self).orig
                &&& final(self).max_seq_orig == old(self).max_seq_orig
            },
    {
        if pdu.length() == 0 {
            return;
        }
        let end: u32 = end_of(pdu);
        if pdu.dir {
            if retransmits(self.max_seq_orig, end) {
                self.orig += 1;
            } else {
                self.max_seq_orig = Some(end);
            }
        } else if retransmits(self.max_seq_resp, end) {
            self.resp += 1;
        } else {
            self.max_seq_resp = Some(end);
        }
    }
}

impl TrackedData for TcpRetransmits {
    fn new(_first_pkt: &L4Pdu, _now: Instant) -> (r: TcpRetransmits)
        ensures
            r == (TcpRetransmits { orig: 0, resp: 0, max_seq_orig: None, max_seq_resp: None }),
    {
        TcpRetransmits { orig: 0, resp: 0, max_seq_orig: None, max_seq_resp: None }
    }

    fn clear(&mut self)
        ensures
            *final(self) == *old(self),
    {
    }
}

/// A segment that was just seen counts as a retransmit when it comes again.
pub proof fn law_repeated_segment_is_a_retransmit(count: u64, highest: Option<u32>, end: u32)
    ensures
        is_retransmit(retransmit_step(count, highest, end).1, end),
{
}

/// Time between two samples: 100 ms.
pub const SAMPLE_INTERVAL_NANOS: u64 = 100_000_000;

/// A sample is due.
pub open spec fn sample_due(last: Instant, now: Instant) -> bool {
    now.since(last).nanos >= SAMPLE_INTERVAL_NANOS
}

/// Milliseconds from the start of the connection to `now`.
pub open spec fn elapsed_ms(start: Instant, now: Instant) -> u64 {
    now.since(start).nanos / NANOS_PER_MILLI
}

/// A single sample of bytes in flight and receiver window.
#[derive(Debug, Clone, Copy, PartialEq, Eq, Structural)]
pub struct InFlightSample {
    /// Milliseconds since the start of the connection.
    pub elapsed_ms: u64,
    /// Estimated bytes currently in flight (unacknowledged).
    pub bytes_in_flight: u32,
    /// Receiver window last advertised, in bytes.
    pub rwnd: u16,
}

/// Bytes in flight and TCP receiver window, sampled every 100 ms.
///
/// `bytes_in_flight` is approximated as the difference between the highest sequence number
/// sent by the originator and the highest acknowledgment number sent by the responder.
#[derive(Debug, Clone)]
pub struct TcpInFlight {
    pub samples: Vec<InFlightSample>,
    pub start_ts: Instant,
    pub last_sample_ts: Instant,
    pub max_seq_sent: Option<u32>,
    pub max_ack_recv: Option<u32>,
    pub last_rwnd: u16,
}

/// The later of a sequence number and the highest so far.
pub open spec fn highest(so_far: Option<u32>, n: u32) -> Option<u32> {
    match so_far {
        Some(h) if seq_before(n, h) => Some(h),
        _ => Some(n),
    }
}

fn later(so_far: Option<u32>, n: u32) -> (r: Option<u32>)
    ensures
        r == highest(so_far, n),
{
    match so_far {
        Some(h) => {
            if wrapping_lt(n, h) {
                Some(h)
            } else {
                Some(n)
            }
        },
        None => Some(n),
    }
}

/// The number, or zero if there is none yet.
pub open spec fn or_zero(n: Option<u32>) -> u32 {
    match n {
        Some(n) => n,
        None => 0,
    }
}

impl TcpInFlight {
    /// Highest sequence number sent after a packet.
    pub open spec fn sent_after(self, pdu: L4Pdu) -> Option<u32> {
        if pdu.dir && pdu.ctxt.length > 0 {
            highest(self.max_seq_sent, seq_end(pdu))
        } else {
            self.max_seq_sent
        }
    }

    /// Highest acknowledgment received after a packet.
    pub open spec fn acked_after(self, pdu: L4Pdu) -> Option<u32> {
        if !pdu.dir && pdu.ctxt.flags & ACK != 0 {
            highest(self.max_ack_recv, pdu.ctxt.ack_no)
        } else {
            self.max_ack_recv
        }
    }

    /// Bytes in flight after a packet: from the highest acknowledgment up to the highest
    /// sequence number sent.
    pub open spec fn flight_after(self, pdu: L4Pdu) -> u32 {
        seq_dist(or_zero(self.acked_after(pdu)), or_zero(self.sent_after(pdu))) as u32
    }

    /// Receiver window after a packet.
    pub open spec fn window_after(self, pdu: L4Pdu) -> u16 {
        match tcp_window(pdu.mbuf@) {
            Some(w) if !pdu.dir => w,
            _ => self.last_rwnd,
        }
    }

    /// Follows a packet, and takes a sample if one is due.
    pub fn update(&mut self, pdu: &L4Pdu)
        ensures
            final(self).start_ts == old(self).start_ts,
            final(self).max_seq_sent == old(self).sent_after(*pdu),
            final(self).max_ack_recv == old(self).acked_after(*pdu),
            final(self).last_rwnd == old(self).window_after(*pdu),
            if sample_due(old(self).last_sample_ts, pdu.ts) {
                &&& final(self).last_sample_ts == pdu.ts
                &&& final(self).samples@ == old(self).samples@.push(
                    InFlightSample {
                        elapsed_ms: elapsed_ms(old(self).start_ts, pdu.ts),
                        bytes_in_flight: old(self).flight_after(*pdu),
                        rwnd: old(self).window_after(*pdu),
                    },
                )
            } else {
                &&& final(self).last_sample_ts == old(self).last_sample_ts
                &&& final(self).samples@ == old(self).samples@
            },
    {
        if pdu.dir {
            if pdu.length() > 0 {
                self.max_seq_sent = later(self.max_seq_sent, end_of(pdu));
            }
        } else {
            if pdu.flags() & ACK != 0 {
                self.max_ack_recv = later(self.max_ack_recv, pdu.ack_no());
            }
            match read_tcp_window(pdu.mbuf_ref()) {
                Some(w) => {
                    self.last_rwnd = w;
                },
                None => {},
            }
        }
        if pdu.ts.duration_since(self.last_sample_ts).nanos >= SAMPLE_INTERVAL_NANOS {
            let sent: u32 = match self.max_seq_sent {
                Some(n) => n,
                None => 0,
            };
            let acked: u32 = match self.max_ack_recv {
                Some(n) => n,
                None => 0,
            };
            self.samples.push(
                InFlightSample {
                    elapsed_ms: pdu.ts.duration_since(self.start_ts).as_millis(),
                    bytes_in_flight: sent.wrapping_sub(acked),
                    rwnd: self.last_rwnd,
                },
            );
            self.last_sample_ts = pdu.ts;
        }
    }
}

impl TrackedData for TcpInFlight {
    fn new(first_pkt: &L4Pdu, _now: Instant) -> (f: TcpInFlight)
        ensures
            f.samples@.len() == 0,
            f.start_ts == first_pkt.ts && f.last_sample_ts == first_pkt.ts,
            f.max_seq_sent is None && f.max_ack_recv is None && f.last_rwnd == 0,
    {
        TcpInFlight {
            samples: Vec::new(),
            start_ts: first_pkt.ts,
            last_sample_ts: first_pkt.ts,
            max_seq_sent: None,
            max_ack_recv: None,
            last_rwnd: 0,
        }
    }

    fn clear(&mut self)
        ensures
            final(self).samples@.len() == 0,
            final(self).start_ts == old(self).start_ts,
            final(self).last_sample_ts == old(self).last_sample_ts,
            final(self).max_seq_sent == old(self).max_seq_sent,
            final(self).max_ack_recv == old(self).max_ack_recv,
            final(self).last_rwnd == old(self).last_rwnd,
    {
        self.samples.clear();
    }
}

/// Position of the first byte of the first segment seen in a direction. Positions number a
/// direction's bytes without wrapping around.
pub const FIRST_POSITION: u64 = 0x1_0000_0000;

/// Positions are not counted past this one.
pub const MAX_POSITION: u64 = 0x7FFF_FFFF_FFFF_FFFF;

/// What has been received in one direction.
#[derive(Debug, Clone)]
pub struct Received {
    /// Sequence number after the highest byte seen.
    pub max_seq: u32,
    /// Position of that byte's successor, or zero if nothing was seen yet.
    pub max_position: u64,
    /// Positions of the bytes that were seen.
    pub seen: Ranges,
}

/// The kinds of segments, by what they add to what was received.
#[derive(Debug, Clone, Copy, PartialEq, Eq, Structural)]
pub enum Arrival {
    /// At or after the highest byte seen.
    Advance,
    /// Entirely received before.
    Duplicate,
    /// From before the highest byte seen, with new data.
    Late,
}

impl Received {
    pub open spec fn wf(&self) -> bool {
        &&& self.seen.wf()
        &&& self.max_position <= MAX_POSITION
        &&& self.max_position > 0 ==> self.max_position >= FIRST_POSITION
    }

    /// Position of the byte with a sequence number, which is taken to be within half the
    /// number circle of the highest byte seen.
    pub open spec fn position(&self, seq: u32) -> int {
        if self.max_position == 0 {
            FIRST_POSITION as int
        } else if seq_before(seq, self.max_seq) {
            self.max_position - seq_dist(seq, self.max_seq)
        } else {
            self.max_position + seq_dist(self.max_seq, seq)
        }
    }

    /// What a segment of `n` bytes at `seq` adds.
    pub open spec fn arrival(&self, seq: u32, n: int) -> Arrival {
        let start = self.position(seq);
        if self.max_position == 0 {
            Arrival::Advance
        } else if span(start, start + n).subset_of(self.seen@) {
            Arrival::Duplicate
        } else if start < self.max_position {
            Arrival::Late
        } else {
            Arrival::Advance
        }
    }

    /// What was received, after a segment of `n` bytes at `seq`.
    pub open spec fn grown(&self, after: Received, seq: u32, n: int) -> bool {
        let start = self.position(seq);
        let end = start + n;
        &&& after.seen@ == self.seen@.union(span(start, end))
        &&& after.max_position == (if end > self.max_position {
            end
        } else {
            self.max_position as int
        })
        &&& after.max_seq == (if end > self.max_position {
            seq_add(seq, n)
        } else {
            self.max_seq
        })
    }

    pub fn new() -> (r: Received)
        ensures
            r.wf(),
            r.max_seq == 0,
            r.max_position == 0,
            r.seen@ == Set::<int>::empty(),
    {
        Received { max_seq: 0, max_position: 0, seen: Ranges::new() }
    }

    /// Adds a segment, and tells what it added.
    pub fn add_segment(&mut self, seq: u32, n: u32) -> (a: Arrival)
        requires
            old(self).wf(),
            n > 0,
            old(self).max_position <= MAX_POSITION - 0x2_0000_0000,
        ensures
            final(self).wf(),
            a == old(self).arrival(seq, n as int),
            old(self).grown(*final(self), seq, n as int),
    {
        let first: bool = self.max_position == 0;
        let start: u64 = if first {
            FIRST_POSITION
        } else if wrapping_lt(seq, self.max_seq) {
            self.max_position - self.max_seq.wrapping_sub(seq) as u64
        } else {
            self.max_position + seq.wrapping_sub(self.max_seq) as u64
        };
        let end: u64 = start + n as u64;
        let duplicate: bool = !first && self.seen.covers(start, end);
        let arrival = if first {
            Arrival::Advance
        } else if duplicate {
            Arrival::Duplicate
        } else if start < self.max_position {
            Arrival::Late
        } else {
            Arrival::Advance
        };
        self.seen.insert(start, end);
        if end > self.max_position {
            self.max_position = end;
            self.max_seq = seq.wrapping_add(n);
        }
        arrival
    }
}

/// Counts of loss events (retransmits) and reorder events per direction.
///
/// - **Loss** is detected when a data segment's entire sequence range has already been
///   received (full duplicate).
/// - **Reorder** is detected when a segment arrives with a sequence number earlier than the
///   highest seen so far but still carries new data (partial overlap or fill-in from a gap).
#[derive(Debug, Clone)]
pub struct TcpLossReorder {
    /// Loss events (full retransmits) originator to responder.
    pub loss_orig: u64,
    /// Loss events responder to originator.
    pub loss_resp: u64,
    /// Reorder events originator to responder.
    pub reorder_orig: u64,
    /// Reorder events responder to originator.
    pub reorder_resp: u64,
    pub received_orig: Received,
    pub received_resp: Received,
}

/// A count, and one more if an arrival is of a kind.
pub open spec fn counted(n: u64, a: Arrival, kind: Arrival) -> int {
    if a == kind {
        n + 1
    } else {
        n as int
    }
}

impl TcpLossReorder {
    pub open spec fn wf(&self) -> bool {
        &&& self.received_orig.wf()
        &&& self.received_resp.wf()
    }

    /// There is room to count one more segment.
    pub open spec fn has_room(&self) -> bool {
        &&& self.loss_orig < u64::MAX
        &&& self.loss_resp < u64::MAX
        &&& self.reorder_orig < u64::MAX
        &&& self.reorder_resp < u64::MAX
        &&& self.received_orig.max_position <= MAX_POSITION - 0x2_0000_0000
        &&& self.received_resp.max_position <= MAX_POSITION - 0x2_0000_0000
    }

    /// Counts a segment with payload in its direction.
    pub fn update(&mut self, pdu: &L4Pdu)
        requires
            old(self).wf(),
            old(self).has_room(),
        ensures
            final(self).wf(),
            pdu.ctxt.length as u32 == 0 ==> *final(self) == *old(self),
            pdu.ctxt.length as u32 > 0 && pdu.dir ==> {
                let n = pdu.ctxt.length as u32 as int;
                let a = old(self).received_orig.arrival(pdu.ctxt.seq_no, n);
                &&& final(self).loss_orig == counted(old(self).loss_orig, a, Arrival::Duplicate)
                &&& final(self).reorder_orig == counted(
                    old(self).reorder_orig,
                    a,
                    Arrival::Late,
                )
                &&& old(self).received_orig.grown(
                    final(self).received_orig,
                    pdu.ctxt.seq_no,
                    n,
                )
                &&& final(self).loss_resp == old(self).loss_resp
                &&& final(self).reorder_resp == old(self).reorder_resp
                &&& final(self).received_resp == old(self).received_resp
            },
            pdu.ctxt.length as u32 > 0 && !pdu.dir ==> {
                let n = pdu.ctxt.length as u32 as int;
                let a = old(self).received_resp.arrival(pdu.ctxt.seq_no, n);
                &&& final(self).loss_resp == counted(old(self).loss_resp, a, Arrival::Duplicate)
                &&& final(self).reorder_resp == counted(
                    old(self).reorder_resp,
                    a,
                    Arrival::Late,
                )
                &&& old(self).received_resp.grown(
                    final(self).received_resp,
                    pdu.ctxt.seq_no,
                    n,
                )
                &&& final(self).loss_orig == old(self).loss_orig
                &&& final(self).reorder_orig == old(self).reorder_orig
                &&& final(self).received_orig == old(self).received_orig
            },
    {
        let n: u32 = pdu.length() as u32;
        if n == 0 {
            return;
        }
        if pdu.dir {
            match self.received_orig.add_segment(pdu.seq_no(), n) {
                Arrival::Duplicate => {
                    self.loss_orig += 1;
                },
                Arrival::Late => {
                    self.reorder_orig += 1;
                },
                Arrival::Advance => {},
            }
        } else {
            match self.received_resp.add_segment(pdu.seq_no(), n) {
                Arrival::Duplicate => {
                    self.loss_resp += 1;
                },
                Arrival::Late => {
                    self.reorder_resp += 1;
                },
                Arrival::Advance => {},
            }
        }
    }
}

impl TrackedData for TcpLossReorder {
    fn new(_first_pkt: &L4Pdu, _now: Instant) -> (l: TcpLossReorder)
        ensures
            l.wf() && l.has_room(),
            l.loss_orig == 0 && l.loss_resp == 0,
            l.reorder_orig == 0 && l.reorder_resp == 0,
            l.received_orig.max_seq == 0 && l.received_resp.max_seq == 0,
            l.received_orig.max_position == 0 && l.received_resp.max_position == 0,
            l.received_orig.seen@ == Set::<int>::empty(),
            l.received_resp.seen@ == Set::<int>::empty(),
    {
        TcpLossReorder {
            loss_orig: 0,
            loss_resp: 0,
            reorder_orig: 0,
            reorder_resp: 0,
            received_orig: Received::new(),
            received_resp: Received::new(),
        }
    }

    fn clear(&mut self)
        ensures
            *final(self) == *old(self),
    {
    }
}

/// A segment that was received before is a duplicate, however often it comes again.
pub proof fn law_repeated_segment_is_a_duplicate(
    before: Received,
    after: Received,
    seq: u32,
    n: int,
)
    requires
        before.wf(),
        after.wf(),
        0 < n < 0x8000_0000,
        before.grown(after, seq, n),
    ensures
        after.arrival(seq, n) == Arrival::Duplicate,
{
    let start = before.position(seq);
    assert(after.position(seq) == start);
    assert(span(start, start + n).subset_of(after.seen@));
}

/// A single queuing-delay sample.
#[derive(Debug, Clone, Copy, PartialEq, Eq, Structural)]
pub struct QueuingDelaySample {
    /// Milliseconds since connection start.
    pub elapsed_ms: u64,
    /// Queuing delay in microseconds: the current round-trip time without the smallest one
    /// seen so far.
    pub queuing_delay_us: u64,
}

/// Queuing delay recorded for each round-trip time sample.
///
/// It approximates the extra latency introduced by congestion queuing on the path.
#[derive(Debug, Clone)]
pub struct TcpQueuingDelay {
    pub samples: Vec<QueuingDelaySample>,
    pub start_ts: Instant,
    pub min_rtt_us: u64,
    pub pending: PendingSends,
}

/// The smallest of `min` and the first `n` samples.
pub open spec fn min_after(min: u64, rtts: Seq<u64>, n: int) -> u64
    decreases n,
{
    if n <= 0 {
        min
    } else if rtts[n - 1] < min_after(min, rtts, n - 1) {
        rtts[n - 1]
    } else {
        min_after(min, rtts, n - 1)
    }
}

/// The smallest round-trip time so far is no larger than any sample up to there, nor than
/// what it was before.
pub proof fn law_min_rtt_is_a_lower_bound(min: u64, rtts: Seq<u64>, n: int)
    requires
        0 <= n <= rtts.len(),
    ensures
        min_after(min, rtts, n) <= min,
        forall|i: int| 0 <= i < n ==> min_after(min, rtts, n) <= #[trigger] rtts[i],
    decreases n,
{
    if n > 0 {
        law_min_rtt_is_a_lower_bound(min, rtts, n - 1);
    }
}

/// The samples that round-trip times give: what each exceeds the smallest one so far by.
pub open spec fn queuing_samples(min: u64, rtts: Seq<u64>, elapsed: u64) -> Seq<
    QueuingDelaySample,
> {
    Seq::new(
        rtts.len(),
        |i: int|
            QueuingDelaySample {
                elapsed_ms: elapsed,
                queuing_delay_us: (rtts[i] - min_after(min, rtts, i + 1)) as u64,
            },
    )
}

impl TcpQueuingDelay {
    /// Notes a send of the originator, or takes samples from an acknowledgment of the
    /// responder.
    pub fn update(&mut self, pdu: &L4Pdu)
        requires
            old(self).pending.wf(),
        ensures
            final(self).pending.wf(),
            final(self).start_ts == old(self).start_ts,
            pdu.dir ==> {
                &&& final(self).samples == old(self).samples
                &&& final(self).min_rtt_us == old(self).min_rtt_us
                &&& final(self).pending@ == (if pdu.ctxt.length > 0 {
                    with_send(old(self).pending@, (seq_end(*pdu), pdu.ts))
                } else {
                    old(self).pending@
                })
            },
            !pdu.dir ==> {
                let rtts = rtt_samples(old(self).pending@, pdu.ctxt.ack_no, pdu.ts);
                &&& final(self).pending@ == unacked(old(self).pending@, pdu.ctxt.ack_no)
                &&& final(self).min_rtt_us == min_after(
                    old(self).min_rtt_us,
                    rtts,
                    rtts.len() as int,
                )
                &&& final(self).samples@ == old(self).samples@ + queuing_samples(
                    old(self).min_rtt_us,
                    rtts,
                    elapsed_ms(old(self).start_ts, pdu.ts),
                )
            },
    {
        if pdu.dir {
            if pdu.length() > 0 {
                self.pending.push(end_of(pdu), pdu.ts);
            }
        } else {
            let rtts = self.pending.take_acked(pdu.ack_no(), pdu.ts);
            let elapsed: u64 = pdu.ts.duration_since(self.start_ts).as_millis();
            let ghost min = self.min_rtt_us;
            let ghost before = self.samples@;
            let ghost all = queuing_samples(min, rtts@, elapsed);
            let mut i: usize = 0;
            assert(before + all.take(0) =~= before);
            while i < rtts.len()
                invariant
                    i <= rtts@.len(),
                    self.start_ts == old(self).start_ts,
                    self.pending.wf(),
                    self.pending@ == unacked(old(self).pending@, pdu.ctxt.ack_no),
                    all == queuing_samples(min, rtts@, elapsed),
                    self.min_rtt_us == min_after(min, rtts@, i as int),
                    self.samples@ == before + all.take(i as int),
                decreases rtts@.len() - i,
            {
                let rtt: u64 = rtts[i];
                if rtt < self.min_rtt_us {
                    self.min_rtt_us = rtt;
                }
                self.samples.push(
                    QueuingDelaySample {
                        elapsed_ms: elapsed,
                        queuing_delay_us: rtt.saturating_sub(self.min_rtt_us),
                    },
                );
                i = i + 1;
                assert(self.samples@ =~= before + all.take(i as int));
            }
            assert(all.take(i as int) =~= all);
        }
    }
}

impl TrackedData for TcpQueuingDelay {
    fn new(first_pkt: &L4Pdu, _now: Instant) -> (q: TcpQueuingDelay)
        ensures
            q.samples@.len() == 0,
            q.start_ts == first_pkt.ts,
            q.min_rtt_us == u64::MAX,
            q.pending.wf() && q.pending@.len() == 0,
    {
        TcpQueuingDelay {
            samples: Vec::new(),
            start_ts: first_pkt.ts,
            min_rtt_us: u64::MAX,
            pending: PendingSends::new(),
        }
    }

    fn clear(&mut self)
        ensures
            final(self).samples@.len() == 0,
            final(self).start_ts == old(self).start_ts,
            final(self).min_rtt_us == old(self).min_rtt_us,
            final(self).pending == old(self).pending,
    {
        self.samples.clear();
    }
}

/// A single latency-inflation sample.
#[derive(Debug, Clone, Copy, PartialEq, Eq, Structural)]
pub struct LatencyInflationSample {
    /// Milliseconds since connection start.
    pub elapsed_ms: u64,
    /// Ratio of the current round-trip time to the smallest one, times 1000. A value of
    /// 1000 means no inflation; 2000 means twofold inflation.
    pub inflation_permille: u64,
}

/// Latency inflation: ratio of the current round-trip time to the smallest one.
///
/// Inflation above one indicates that the connection is experiencing elevated latency
/// relative to its best observed round-trip time, typically due to queue buildup.
#[derive(Debug, Clone)]
pub struct TcpLatencyInflation {
    pub samples: Vec<LatencyInflationSample>,
    pub start_ts: Instant,
    pub min_rtt_us: u64,
    pub pending: PendingSends,
}

/// The samples that round-trip times give: the ratio of each to the smallest one so far.
pub open spec fn inflation_samples(min: u64, rtts: Seq<u64>, elapsed: u64) -> Seq<
    LatencyInflationSample,
> {
    Seq::new(
        rtts.len(),
        |i: int|
            LatencyInflationSample {
                elapsed_ms: elapsed,
                inflation_permille: (rtts[i] * 1000 / min_after(min, rtts, i + 1) as int) as u64,
            },
    )
}

/// No round-trip time is shorter than the smallest one: a sample never shows less than
/// 1000.
pub proof fn law_inflation_is_at_least_one(min: u64, rtts: Seq<u64>, elapsed: u64, i: int)
    requires
        0 < min,
        0 <= i < rtts.len(),
        forall|j: int| 0 <= j < rtts.len() ==> 0 < #[trigger] rtts[j] <= MAX_RTT_US,
    ensures
        inflation_samples(min, rtts, elapsed)[i].inflation_permille >= 1000,
{
    law_min_rtt_is_a_lower_bound(min, rtts, i + 1);
    lemma_min_positive(min, rtts, i + 1);
    let m = min_after(min, rtts, i + 1) as int;
    let r = rtts[i] as int;
    assert(r * 1000 / m >= 1000) by (nonlinear_arith)
        requires
            0 < m <= r,
    ;
    assert(r * 1000 / m <= r * 1000) by (nonlinear_arith)
        requires
            0 < m,
            0 <= r,
    ;
}

proof fn lemma_min_positive(min: u64, rtts: Seq<u64>, n: int)
    requires
        0 < min,
        0 <= n <= rtts.len(),
        forall|j: int| 0 <= j < rtts.len() ==> 0 < #[trigger] rtts[j],
    ensures
        min_after(min, rtts, n) > 0,
    decreases n,
{
    if n > 0 {
        lemma_min_positive(min, rtts, n - 1);
    }
}

impl TcpLatencyInflation {
    pub open spec fn wf(&self) -> bool {
        &&& self.pending.wf()
        &&& self.min_rtt_us > 0
    }

    /// Notes a send of the originator, or takes samples from an acknowledgment of the
    /// responder.
    pub fn update(&mut self, pdu: &L4Pdu)
        requires
            old(self).wf(),
        ensures
            final(self).wf(),
            final(self).start_ts == old(self).start_ts,
            pdu.dir ==> {
                &&& final(self).samples == old(self).samples
                &&& final(self).min_rtt_us == old(self).min_rtt_us
                &&& final(self).pending@ == (if pdu.ctxt.length > 0 {
                    with_send(old(self).pending@, (seq_end(*pdu), pdu.ts))
                } else {
                    old(self).pending@
                })
            },
            !pdu.dir ==> {
                let rtts = rtt_samples(old(self).pending@, pdu.ctxt.ack_no, pdu.ts);
                &&& final(self).pending@ == unacked(old(self).pending@, pdu.ctxt.ack_no)
                &&& final(self).min_rtt_us == min_after(
                    old(self).min_rtt_us,
                    rtts,
                    rtts.len() as int,
                )
                &&& final(self).samples@ == old(self).samples@ + inflation_samples(
                    old(self).min_rtt_us,
                    rtts,
                    elapsed_ms(old(self).start_ts, pdu.ts),
                )
            },
    {
        if pdu.dir {
            if pdu.length() > 0 {
                self.pending.push(end_of(pdu), pdu.ts);
            }
        } else {
            proof {
                lemma_samples(self.pending@, pdu.ctxt.ack_no, pdu.ts);
            }
            let rtts = self.pending.take_acked(pdu.ack_no(), pdu.ts);
            let elapsed: u64 = pdu.ts.duration_since(self.start_ts).as_millis();
            let ghost min = self.min_rtt_us;
            let ghost before = self.samples@;
            let ghost all = inflation_samples(min, rtts@, elapsed);
            let mut i: usize = 0;
            assert(before + all.take(0) =~= before);
            while i < rtts.len()
                invariant
                    i <= rtts@.len(),
                    self.start_ts == old(self).start_ts,
                    self.wf(),
                    self.pending@ == unacked(old(self).pending@, pdu.ctxt.ack_no),
                    forall|j: int|
                        0 <= j < rtts@.len() ==> 0 < #[trigger] rtts@[j] <= MAX_RTT_US,
                    all == inflation_samples(min, rtts@, elapsed),
                    self.min_rtt_us == min_after(min, rtts@, i as int),
                    self.samples@ == before + all.take(i as int),
                decreases rtts@.len() - i,
            {
                let rtt: u64 = rtts[i];
                if rtt < self.min_rtt_us {
                    self.min_rtt_us = rtt;
                }
                let inflation: u64 = rtt * 1000 / self.min_rtt_us;
                self.samples.push(
                    LatencyInflationSample { elapsed_ms: elapsed, inflation_permille: inflation },
                );
                i = i + 1;
                assert(self.samples@ =~= before + all.take(i as int));
            }
            assert(all.take(i as int) =~= all);
        }
    }
}

impl TrackedData for TcpLatencyInflation {
    fn new(first_pkt: &L4Pdu, _now: Instant) -> (l: TcpLatencyInflation)
        ensures
            l.wf(),
            l.samples@.len() == 0,
            l.start_ts == first_pkt.ts,
            l.min_rtt_us == u64::MAX,
            l.pending@.len() == 0,
    {
        TcpLatencyInflation {
            samples: Vec::new(),
            start_ts: first_pkt.ts,
            min_rtt_us: u64::MAX,
            pending: PendingSends::new(),
        }
    }

    fn clear(&mut self)
        ensures
            final(self).samples@.len() == 0,
            final(self).start_ts == old(self).start_ts,
            final(self).min_rtt_us == old(self).min_rtt_us,
            final(self).pending == old(self).pending,
    {
        self.samples.clear();
    }
}

/// A single throughput sample.
#[derive(Debug, Clone, Copy, PartialEq, Eq, Structural)]
pub struct TcpThroughputSample {
    /// Milliseconds since connection start.
    pub elapsed_ms: u64,
    /// Bytes acknowledged (delivered) during the preceding interval, originator to responder
    /// direction.
    pub bytes_acked_orig: u64,
    /// Bytes acknowledged, responder to originator direction.
    pub bytes_acked_resp: u64,
}

/// Throughput sampled every 100 ms.
///
/// Throughput is estimated from the advancement of the acknowledgment number in each
/// direction: bytes newly acknowledged since the last sample.
#[derive(Debug, Clone)]
pub struct TcpThroughput {
    pub samples: Vec<TcpThroughputSample>,
    pub start_ts: Instant,
    pub last_sample_ts: Instant,
    /// Highest acknowledgment that the originator sent.
    pub last_ack_orig: Option<u32>,
    /// Highest acknowledgment that the responder sent.
    pub last_ack_resp: Option<u32>,
    /// Bytes of the originator acknowledged within the current interval.
    pub interval_bytes_orig: u64,
    /// Bytes of the responder acknowledged within the current interval.
    pub interval_bytes_resp: u64,
}

/// Bytes that an acknowledgment newly covers: how far it advances beyond the last one.
pub open spec fn newly_acked(last: Option<u32>, ack: u32) -> int {
    match last {
        Some(l) if !seq_before(ack, l) => seq_dist(l, ack),
        _ => 0,
    }
}

fn advance(last: Option<u32>, ack: u32) -> (n: u64)
    ensures
        n == newly_acked(last, ack),
        n <= u32::MAX,
{
    match last {
        Some(l) => {
            if wrapping_lt(ack, l) {
                0
            } else {
                ack.wrapping_sub(l) as u64
            }
        },
        None => 0,
    }
}

impl TcpThroughput {
    /// Bytes of one side acknowledged within the current interval, after a packet. The
    /// acknowledgments of one side are for the data of the other.
    pub open spec fn interval_after(self, pdu: L4Pdu, orig: bool) -> int {
        let before = if orig {
            self.interval_bytes_orig
        } else {
            self.interval_bytes_resp
        };
        if pdu.ctxt.flags & ACK != 0 && pdu.dir != orig {
            before + newly_acked(
                if orig {
                    self.last_ack_resp
                } else {
                    self.last_ack_orig
                },
                pdu.ctxt.ack_no,
            )
        } else {
            before as int
        }
    }

    /// Highest acknowledgment that one side sent, after a packet.
    pub open spec fn ack_after(self, pdu: L4Pdu, orig: bool) -> Option<u32> {
        let before = if orig {
            self.last_ack_orig
        } else {
            self.last_ack_resp
        };
        if pdu.ctxt.flags & ACK != 0 && pdu.dir == orig {
            highest(before, pdu.ctxt.ack_no)
        } else {
            before
        }
    }

    /// Follows a packet, and takes a sample if one is due.
    pub fn update(&mut self, pdu: &L4Pdu)
        requires
            old(self).interval_bytes_orig <= u64::MAX - u32::MAX,
            old(self).interval_bytes_resp <= u64::MAX - u32::MAX,
        ensures
            final(self).start_ts == old(self).start_ts,
            final(self).last_ack_orig == old(self).ack_after(*pdu, true),
            final(self).last_ack_resp == old(self).ack_after(*pdu, false),
            if sample_due(old(self).last_sample_ts, pdu.ts) {
                &&& final(self).last_sample_ts == pdu.ts
                &&& final(self).interval_bytes_orig == 0
                &&& final(self).interval_bytes_resp == 0
                &&& final(self).samples@ == old(self).samples@.push(
                    TcpThroughputSample {
                        elapsed_ms: elapsed_ms(old(self).start_ts, pdu.ts),
                        bytes_acked_orig: old(self).interval_after(*pdu, true) as u64,
                        bytes_acked_resp: old(self).interval_after(*pdu, false) as u64,
                    },
                )
            } else {
                &&& final(self).last_sample_ts == old(self).last_sample_ts
                &&& final(self).interval_bytes_orig == old(self).interval_after(*pdu, true)
                &&& final(self).interval_bytes_resp == old(self).interval_after(*pdu, false)
                &&& final(self).samples@ == old(self).samples@
            },
    {
        if pdu.flags() & ACK != 0 {
            let ack: u32 = pdu.ack_no();
            if pdu.dir {
                // Covers data of the responder.
                let delta: u64 = advance(self.last_ack_orig, ack);
                self.interval_bytes_resp += delta;
                self.last_ack_orig = later(self.last_ack_orig, ack);
            } else {
                // Covers data of the originator.
                let delta: u64 = advance(self.last_ack_resp, ack);
                self.interval_bytes_orig += delta;
                self.last_ack_resp = later(self.last_ack_resp, ack);
            }
        }
        if pdu.ts.duration_since(self.last_sample_ts).nanos >= SAMPLE_INTERVAL_NANOS {
            self.samples.push(
                TcpThroughputSample {
                    elapsed_ms: pdu.ts.duration_since(self.start_ts).as_millis(),
                    bytes_acked_orig: self.interval_bytes_orig,
                    bytes_acked_resp: self.interval_bytes_resp,
                },
            );
            self.interval_bytes_orig = 0;
            self.interval_bytes_resp = 0;
            self.last_sample_ts = pdu.ts;
        }
    }
}

impl TrackedData for TcpThroughput {
    fn new(first_pkt: &L4Pdu, _now: Instant) -> (t: TcpThroughput)
        ensures
            t.samples@.len() == 0,
            t.start_ts == first_pkt.ts && t.last_sample_ts == first_pkt.ts,
            t.last_ack_orig is None && t.last_ack_resp is None,
            t.interval_bytes_orig == 0 && t.interval_bytes_resp == 0,
    {
        TcpThroughput {
            samples: Vec::new(),
            start_ts: first_pkt.ts,
            last_sample_ts: first_pkt.ts,
            last_ack_orig: None,
            last_ack_resp: None,
            interval_bytes_orig: 0,
            interval_bytes_resp: 0,
        }
    }

    fn clear(&mut self)
        ensures
            final(self).samples@.len() == 0,
            final(self).start_ts == old(self).start_ts,
            final(self).last_sample_ts == old(self).last_sample_ts,
            final(self).last_ack_orig == old(self).last_ack_orig,
            final(self).last_ack_resp == old(self).last_ack_resp,
            final(self).interval_bytes_orig == old(self).interval_bytes_orig,
            final(self).interval_bytes_resp == old(self).interval_bytes_resp,
    {
        self.samples.clear();
    }
}

/// An acknowledgment that is sent again covers nothing new, and the first one only sets
/// where counting begins.
pub proof fn law_repeated_acks_add_nothing(last: Option<u32>, ack: u32)
    ensures
        newly_acked(highest(last, ack), ack) == 0,
        last is None ==> newly_acked(last, ack) == 0,
{
}

} // verus!
