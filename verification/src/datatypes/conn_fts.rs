//! Connection-level datatypes for connection information, statistics, and state history.

use crate::conntrack::pdu::L4Pdu;
use crate::conntrack::tcp::{ACK, FIN, RST, SYN};
use crate::subscription::data::TrackedData;
use crate::time::{Duration, Instant, NANOS_PER_MILLI};
use vstd::prelude::*;

verus! {

/// Tracks the start (first packet seen) and end (last packet seen) times of a connection.
#[derive(Debug, Clone)]
pub struct ConnDuration {
    pub start_ts: Instant,
    pub last_ts: Instant,
}

impl ConnDuration {
    /// The duration of the connection in milliseconds.
    pub fn duration_ms(&self) -> (n: u64)
        ensures
            n == self.last_ts.since(self.start_ts).nanos / NANOS_PER_MILLI,
    {
        self.last_ts.duration_since(self.start_ts).as_millis()
    }

    /// The duration of the connection.
    pub fn duration(&self) -> (d: Duration)
        ensures
            d == self.last_ts.since(self.start_ts),
    {
        self.last_ts.duration_since(self.start_ts)
    }

    pub fn update(&mut self, pdu: &L4Pdu)
        ensures
            *final(self) == (ConnDuration { last_ts: pdu.ts, ..*old(self) }),
    {
        self.last_ts = pdu.ts;
    }
}

impl TrackedData for ConnDuration {
    fn new(_first_pkt: &L4Pdu, now: Instant) -> (d: ConnDuration)
        ensures
            d == (ConnDuration { start_ts: now, last_ts: now }),
    {
        ConnDuration { start_ts: now, last_ts: now }
    }

    fn clear(&mut self)
        ensures
            *final(self) == *old(self),
    {
    }
}

/// The number of packets observed in a connection.
#[derive(Debug, Clone)]
pub struct PktCount {
    pub orig: usize,
    pub resp: usize,
}

impl PktCount {
    pub fn total(&self) -> (n: usize)
        requires
            self.orig + self.resp <= usize::MAX,
        ensures
            n == self.orig + self.resp,
    {
        self.orig + self.resp
    }

    pub fn orig(&self) -> (n: usize)
        ensures
            n == self.orig,
    {
        self.orig
    }

    pub fn resp(&self) -> (n: usize)
        ensures
            n == self.resp,
    {
        self.resp
    }

    /// Counts a packet in its direction.
    pub fn update(&mut self, pdu: &L4Pdu)
        requires
            pdu.dir ==> old(self).orig < usize::MAX,
            !pdu.dir ==> old(self).resp < usize::MAX,
        ensures
            final(self).orig == old(self).orig + (if pdu.dir {
                1int
            } else {
                0
            }),
            final(self).resp == old(self).resp + (if pdu.dir {
                0int
            } else {
                1
            }),
    {
        if pdu.dir {
            self.orig += 1;
        } else {
            self.resp += 1;
        }
    }
}

impl TrackedData for PktCount {
    fn new(_first_pkt: &L4Pdu, _now: Instant) -> (c: PktCount)
        ensures
            c == (PktCount { orig: 0, resp: 0 }),
    {
        PktCount { orig: 0, resp: 0 }
    }

    fn clear(&mut self)
        ensures
            *final(self) == *old(self),
    {
    }
}

/// The number of bytes, excluding packet headers, in each flow in a connection.
#[derive(Debug, Clone)]
pub struct ByteCount {
    pub orig: usize,
    pub resp: usize,
}

impl ByteCount {
    pub fn total(&self) -> (n: usize)
        requires
            self.orig + self.resp <= usize::MAX,
        ensures
            n == self.orig + self.resp,
    {
        self.orig + self.resp
    }

    pub fn orig(&self) -> (n: usize)
        ensures
            n == self.orig,
    {
        self.orig
    }

    pub fn resp(&self) -> (n: usize)
        ensures
            n == self.resp,
    {
        self.resp
    }

    /// Counts the payload of a packet in its direction.
    pub fn update(&mut self, pdu: &L4Pdu)
        requires
            pdu.dir ==> old(self).orig + pdu.ctxt.length <= usize::MAX,
            !pdu.dir ==> old(self).resp + pdu.ctxt.length <= usize::MAX,
        ensures
            final(self).orig == old(self).orig + (if pdu.dir {
                pdu.ctxt.length as int
            } else {
                0
            }),
            final(self).resp == old(self).resp + (if pdu.dir {
                0int
            } else {
                pdu.ctxt.length as int
            }),
    {
        if pdu.dir {
            self.orig += pdu.length();
        } else {
            self.resp += pdu.length();
        }
    }
}

impl TrackedData for ByteCount {
    fn new(_first_pkt: &L4Pdu, _now: Instant) -> (c: ByteCount)
        ensures
            c == (ByteCount { orig: 0, resp: 0 }),
    {
        ByteCount { orig: 0, resp: 0 }
    }

    fn clear(&mut self)
        ensures
            *final(self) == *old(self),
    {
    }
}

/// Packet inter-arrival times, by the packets' time stamps.
#[derive(Debug, Clone)]
pub struct InterArrivals {
    pub pkt_count_ctos: usize,
    pub pkt_count_stoc: usize,
    pub last_pkt_ctos: Instant,
    pub last_pkt_stoc: Instant,
    /// Inter-arrival durations in the client-to-server (originator) flow.
    pub interarrivals_ctos: Vec<Duration>,
    /// Inter-arrival durations in the server-to-client (responder) flow.
    pub interarrivals_stoc: Vec<Duration>,
}

/// The inter-arrival times of a flow once one more packet has come: the first packet has
/// none.
pub open spec fn with_arrival(
    times: Seq<Duration>,
    packets_before: usize,
    last: Instant,
    now: Instant,
) -> Seq<Duration> {
    if packets_before > 0 {
        times.push(now.since(last))
    } else {
        times
    }
}

impl InterArrivals {
    /// No packet has arrived in either flow; `now` is what the clock reads.
    pub fn new_empty(now: Instant) -> (a: InterArrivals)
        ensures
            a.pkt_count_ctos == 0 && a.pkt_count_stoc == 0,
            a.last_pkt_ctos == now && a.last_pkt_stoc == now,
            a.interarrivals_ctos@.len() == 0 && a.interarrivals_stoc@.len() == 0,
    {
        InterArrivals {
            pkt_count_ctos: 0,
            pkt_count_stoc: 0,
            last_pkt_ctos: now,
            last_pkt_stoc: now,
            interarrivals_ctos: Vec::new(),
            interarrivals_stoc: Vec::new(),
        }
    }

    /// Notes the arrival of a packet in its flow, at the time `now` that the clock reads. The
    /// other flow is left alone.
    pub fn update(&mut self, pdu: &L4Pdu, now: Instant)
        requires
            pdu.dir ==> old(self).pkt_count_ctos < usize::MAX,
            !pdu.dir ==> old(self).pkt_count_stoc < usize::MAX,
        ensures
            pdu.dir ==> {
                &&& final(self).pkt_count_ctos == old(self).pkt_count_ctos + 1
                &&& final(self).last_pkt_ctos == now
                &&& final(self).interarrivals_ctos@ == with_arrival(
                    old(self).interarrivals_ctos@,
                    old(self).pkt_count_ctos,
                    old(self).last_pkt_ctos,
                    now,
                )
                &&& final(self).pkt_count_stoc == old(self).pkt_count_stoc
                &&& final(self).last_pkt_stoc == old(self).last_pkt_stoc
                &&& final(self).interarrivals_stoc == old(self).interarrivals_stoc
            },
            !pdu.dir ==> {
                &&& final(self).pkt_count_stoc == old(self).pkt_count_stoc + 1
                &&& final(self).last_pkt_stoc == now
                &&& final(self).interarrivals_stoc@ == with_arrival(
                    old(self).interarrivals_stoc@,
                    old(self).pkt_count_stoc,
                    old(self).last_pkt_stoc,
                    now,
                )
                &&& final(self).pkt_count_ctos == old(self).pkt_count_ctos
                &&& final(self).last_pkt_ctos == old(self).last_pkt_ctos
                &&& final(self).interarrivals_ctos == old(self).interarrivals_ctos
            },
    {
        if pdu.dir {
            self.pkt_count_ctos += 1;
            if self.pkt_count_ctos > 1 {
                self.interarrivals_ctos.push(now.duration_since(self.last_pkt_ctos));
            }
            self.last_pkt_ctos = now;
        } else {
            self.pkt_count_stoc += 1;
            if self.pkt_count_stoc > 1 {
                self.interarrivals_stoc.push(now.duration_since(self.last_pkt_stoc));
            }
            self.last_pkt_stoc = now;
        }
    }
}

impl TrackedData for InterArrivals {
    fn new(_first_pkt: &L4Pdu, now: Instant) -> (a: InterArrivals)
        ensures
            a.pkt_count_ctos == 0 && a.pkt_count_stoc == 0,
            a.last_pkt_ctos == now && a.last_pkt_stoc == now,
            a.interarrivals_ctos@.len() == 0 && a.interarrivals_stoc@.len() == 0,
    {
        InterArrivals::new_empty(now)
    }

    fn clear(&mut self)
        ensures
            final(self).interarrivals_ctos@.len() == 0,
            final(self).interarrivals_stoc@.len() == 0,
            final(self).pkt_count_ctos == old(self).pkt_count_ctos,
            final(self).pkt_count_stoc == old(self).pkt_count_stoc,
            final(self).last_pkt_ctos == old(self).last_pkt_ctos,
            final(self).last_pkt_stoc == old(self).last_pkt_stoc,
    {
        self.interarrivals_ctos.clear();
        self.interarrivals_stoc.clear();
    }
}

/// Letters of a connection history, as the originator's events are recorded.
pub const HIST_SYN: u8 = 0x53;

pub const HIST_SYNACK: u8 = 0x48;

pub const HIST_ACK: u8 = 0x41;

pub const HIST_DATA: u8 = 0x44;

pub const HIST_FIN: u8 = 0x46;

pub const HIST_RST: u8 = 0x52;

/// What is added to a letter to make it lowercase, for an event of the responder.
pub const LOWERCASE: u8 = 0x20;

/// A letter as it is recorded in one direction.
pub open spec fn letter(event: u8, dir: bool) -> u8 {
    if dir {
        event
    } else {
        (event + LOWERCASE) as u8
    }
}

/// A history with a letter recorded if its event happened and it is not there yet.
pub open spec fn recorded(history: Seq<u8>, letter: u8, happened: bool) -> Seq<u8> {
    if happened && !history.contains(letter) {
        history.push(letter)
    } else {
        history
    }
}

/// A history after a segment with these flags and this payload length.
pub open spec fn history_after(history: Seq<u8>, flags: u8, length: usize, dir: bool) -> Seq<u8> {
    let h = recorded(history, letter(HIST_SYN, dir), flags == SYN);
    let h = recorded(h, letter(HIST_SYNACK, dir), flags == SYN | ACK);
    let h = recorded(h, letter(HIST_ACK, dir), flags == ACK && length == 0);
    let h = recorded(h, letter(HIST_DATA, dir), length > 0);
    let h = recorded(h, letter(HIST_FIN, dir), flags & FIN != 0);
    recorded(h, letter(HIST_RST, dir), flags & RST != 0)
}

/// Records a letter if its event happened and it is not there yet.
fn record(history: &mut Vec<u8>, letter: u8, happened: bool)
    ensures
        final(history)@ == recorded(old(history)@, letter, happened),
{
    if !happened {
        return;
    }
    let mut i: usize = 0;
    while i < history.len()
        invariant
            i <= history@.len(),
            history@ == old(history)@,
            happened,
            forall|j: int| 0 <= j < i ==> history@[j] != letter,
        decreases history@.len() - i,
    {
        if history[i] == letter {
            assert(history@.contains(history@[i as int]));
            return;
        }
        i = i + 1;
    }
    history.push(letter);
}

/// Connection history.
///
/// This represents a summary of the connection history in the order the packets were
/// observed, with letters encoded as a vector of bytes. If the event comes from the
/// originator, the letter is uppercase; if it comes from the responder, the letter is
/// lowercase.
/// - S: a pure SYN with only the SYN bit set (may have payload)
/// - H: a pure SYNACK with only the SYN and ACK bits set (may have payload)
/// - A: a pure ACK with only the ACK bit set and no payload
/// - D: segment contains non-zero payload length
/// - F: the segment has the FIN bit set (may have other flags and/or payload)
/// - R: segment has the RST bit set (may have other flags and/or payload)
///
/// Each letter is recorded a maximum of once in either direction.
#[derive(Debug, Clone)]
pub struct ConnHistory {
    pub history: Vec<u8>,
}

/// Each letter is recorded once at most, and none is ever taken back.
pub proof fn law_history_records_each_letter_once(
    history: Seq<u8>,
    flags: u8,
    length: usize,
    dir: bool,
)
    requires
        history.no_duplicates(),
    ensures
        history_after(history, flags, length, dir).no_duplicates(),
        history.is_prefix_of(history_after(history, flags, length, dir)),
{
    let a = recorded(history, letter(HIST_SYN, dir), flags == SYN);
    let b = recorded(a, letter(HIST_SYNACK, dir), flags == SYN | ACK);
    let c = recorded(b, letter(HIST_ACK, dir), flags == ACK && length == 0);
    let d = recorded(c, letter(HIST_DATA, dir), length > 0);
    let e = recorded(d, letter(HIST_FIN, dir), flags & FIN != 0);
    lemma_recorded_once(history, letter(HIST_SYN, dir), flags == SYN);
    lemma_recorded_once(a, letter(HIST_SYNACK, dir), flags == SYN | ACK);
    lemma_recorded_once(b, letter(HIST_ACK, dir), flags == ACK && length == 0);
    lemma_recorded_once(c, letter(HIST_DATA, dir), length > 0);
    lemma_recorded_once(d, letter(HIST_FIN, dir), flags & FIN != 0);
    lemma_recorded_once(e, letter(HIST_RST, dir), flags & RST != 0);
}

proof fn lemma_recorded_once(history: Seq<u8>, letter: u8, happened: bool)
    requires
        history.no_duplicates(),
    ensures
        recorded(history, letter, happened).no_duplicates(),
        history.is_prefix_of(recorded(history, letter, happened)),
{
}

impl ConnHistory {
    /// Records the events of a segment.
    pub fn update(&mut self, pdu: &L4Pdu)
        ensures
            final(self).history@ == history_after(
                old(self).history@,
                pdu.ctxt.flags,
                pdu.ctxt.length,
                pdu.dir,
            ),
    {
        let mask: u8 = if pdu.dir {
            0
        } else {
            LOWERCASE
        };
        let flags: u8 = pdu.flags();
        let length: usize = pdu.length();
        record(&mut self.history, HIST_SYN + mask, flags == SYN);
        record(&mut self.history, HIST_SYNACK + mask, flags == SYN | ACK);
        record(&mut self.history, HIST_ACK + mask, flags == ACK && length == 0);
        record(&mut self.history, HIST_DATA + mask, length > 0);
        record(&mut self.history, HIST_FIN + mask, flags & FIN != 0);
        record(&mut self.history, HIST_RST + mask, flags & RST != 0);
    }
}

impl Default for ConnHistory {
    fn default() -> (h: ConnHistory)
        ensures
            h.history@.len() == 0,
    {
        ConnHistory { history: Vec::new() }
    }
}

impl TrackedData for ConnHistory {
    fn new(_first_pkt: &L4Pdu, _now: Instant) -> (h: ConnHistory)
        ensures
            h.history@.len() == 0,
    {
        ConnHistory { history: Vec::with_capacity(16) }
    }

    fn clear(&mut self)
        ensures
            *final(self) == *old(self),
    {
    }
}

} // verus!
