//! Replay of captured frames.

use crate::stats::ledger::{record, Outcome, PacketLedger};
use crate::time::{Duration, Instant, NANOS_PER_MICRO, NANOS_PER_SEC};
use vstd::prelude::*;

verus! {

/// A number, or zero if it is negative.
pub open spec fn clamped(n: i64) -> int {
    if n < 0 {
        0
    } else {
        n as int
    }
}

/// Nanoseconds of a capture time stamp since the epoch.
pub open spec fn capture_nanos(tv_sec: i64, tv_usec: i64) -> int {
    clamped(tv_sec) * NANOS_PER_SEC + clamped(tv_usec) * NANOS_PER_MICRO
}

/// The largest number of microseconds that fit a time stamp's fraction.
pub const MAX_CAPTURE_USEC: i64 = 4_294_967;

/// A time stamp that can be expressed.
pub open spec fn capture_fits(tv_sec: i64, tv_usec: i64) -> bool {
    tv_usec <= MAX_CAPTURE_USEC && capture_nanos(tv_sec, tv_usec) <= u64::MAX
}

/// A frame's capture time stamp as a duration since the epoch. Negative seconds or
/// microseconds, which a corrupt or hand-built capture can carry, clamp to zero rather than
/// wrapping.
pub fn capture_ts(tv_sec: i64, tv_usec: i64) -> (d: Duration)
    requires
        capture_fits(tv_sec, tv_usec),
    ensures
        d.nanos == capture_nanos(tv_sec, tv_usec),
{
    let secs: u64 = if tv_sec < 0 {
        0
    } else {
        tv_sec as u64
    };
    let micros: u64 = if tv_usec < 0 {
        0
    } else {
        tv_usec as u64
    };
    Duration::from_nanos(secs * NANOS_PER_SEC + micros * NANOS_PER_MICRO)
}

/// Nanoseconds from the first frame's capture time stamp to this one's, or zero if this one
/// precedes it.
pub open spec fn since_first(first: Duration, ts: Duration) -> int {
    if ts.nanos >= first.nanos {
        ts.nanos - first.nanos
    } else {
        0
    }
}

/// The instant to stamp a frame with, given the replay clock's `base` instant, the capture
/// time stamp of the trace's `first` frame, and this frame's capture time stamp `ts`.
///
/// A frame whose capture time stamp precedes the first frame's stamps at `base` rather than
/// before it, since the timer wheel subtracts its own start from these time stamps.
pub fn replay_instant(base: Instant, first: Duration, ts: Duration) -> (t: Instant)
    requires
        base.nanos + since_first(first, ts) <= u64::MAX,
    ensures
        t.nanos == base.nanos + since_first(first, ts),
{
    let offset: u64 = if ts.nanos >= first.nanos {
        ts.nanos - first.nanos
    } else {
        0
    };
    Instant::from_nanos(base.nanos + offset)
}

/// The replay clock never runs before its base, and it keeps the order of time stamps.
pub proof fn law_replay_clock_keeps_order(first: Duration, a: Duration, b: Duration)
    requires
        a.nanos <= b.nanos,
    ensures
        0 <= since_first(first, a) <= since_first(first, b),
        since_first(first, first) == 0,
{
}

/// Progress of a replay: its clock, and what has been processed.
#[derive(Debug, Clone, Copy, PartialEq, Eq, Structural)]
pub struct Replay {
    /// When the replay began.
    pub base: Instant,
    /// Capture time stamp of the first frame that was stamped by it.
    pub first_capture_ts: Option<Duration>,
    pub nb_pkts: u64,
    pub nb_bytes: u64,
}

impl Replay {
    pub fn new(base: Instant) -> (r: Replay)
        ensures
            r == (Replay { base, first_capture_ts: None, nb_pkts: 0, nb_bytes: 0 }),
    {
        Replay { base, first_capture_ts: None, nb_pkts: 0, nb_bytes: 0 }
    }

    /// The capture time stamp that the clock counts from, once a frame with `ts` has come.
    pub open spec fn first_after(self, ts: Duration) -> Duration {
        match self.first_capture_ts {
            Some(first) => first,
            None => ts,
        }
    }

    /// Stamps a frame by its capture time stamp.
    pub fn stamp(&mut self, ts: Duration) -> (t: Instant)
        requires
            old(self).base.nanos + since_first(old(self).first_after(ts), ts) <= u64::MAX,
        ensures
            *final(self) == (Replay {
                first_capture_ts: Some(old(self).first_after(ts)),
                ..*old(self)
            }),
            t.nanos == old(self).base.nanos + since_first(old(self).first_after(ts), ts),
    {
        let first = match self.first_capture_ts {
            Some(first) => first,
            None => ts,
        };
        self.first_capture_ts = Some(first);
        replay_instant(self.base, first, ts)
    }

    /// Takes a frame in: a frame longer than the MTU is passed over, any other is counted,
    /// and goes into the ledger as received. Returns whether it is to be processed.
    pub fn take_frame(
        &mut self,
        frame_len: usize,
        mtu: usize,
        data_len: u64,
        ledger: &mut PacketLedger,
    ) -> (b: bool)
        requires
            old(self).nb_pkts < u64::MAX,
            old(self).nb_bytes + data_len <= u64::MAX,
            old(ledger).received.pkts < u64::MAX,
            old(ledger).received.bytes + data_len <= u64::MAX,
        ensures
            b == (frame_len <= mtu),
            !b ==> *final(self) == *old(self) && *final(ledger) == *old(ledger),
            b ==> *final(self) == (Replay {
                nb_pkts: (old(self).nb_pkts + 1) as u64,
                nb_bytes: (old(self).nb_bytes + data_len) as u64,
                ..*old(self)
            }) && *final(ledger) == old(ledger).with_frame(Outcome::Received, data_len),
    {
        if frame_len > mtu {
            return false;
        }
        self.nb_pkts += 1;
        self.nb_bytes += data_len;
        record(ledger, Outcome::Received, data_len);
        true
    }
}

/// Two frames of a trace are stamped as far apart as they were captured, and the first at the
/// beginning of the replay.
pub proof fn law_replay_keeps_the_pace(base: Instant, ts: Duration, more: Duration, r: Replay)
    requires
        ts.nanos <= more.nanos,
        base.nanos + (more.nanos - ts.nanos) <= u64::MAX,
        r.base == base,
        r.first_capture_ts is None,
    ensures
        forall|a: &mut Replay, b: &mut Replay, s: Instant, t: Instant|
            *a == r && #[trigger] call_ensures(Replay::stamp, (a, ts), s) && *b == *final(a)
                && #[trigger] call_ensures(Replay::stamp, (b, more), t) ==> s == base && t.nanos
                - s.nanos == more.nanos - ts.nanos,
{
}

/// A frame that is passed over leaves no trace, and one that is taken in is counted with its
/// bytes, in the replay and as received.
pub proof fn law_frames_are_counted_as_received(frame_len: usize, mtu: usize, data_len: u64)
    ensures
        forall|r: &mut Replay, l: &mut PacketLedger, taken: bool| #[trigger]
            call_ensures(Replay::take_frame, (r, frame_len, mtu, data_len, l), taken)
                && (*r).nb_pkts < u64::MAX && (*r).nb_bytes + data_len <= u64::MAX
                && (*l).received.pkts < u64::MAX && (*l).received.bytes + data_len <= u64::MAX
                ==> {
                let n: int = if frame_len <= mtu {
                    1
                } else {
                    0
                };
                &&& taken == (frame_len <= mtu)
                &&& (*final(r)).nb_pkts == (*r).nb_pkts + n
                &&& (*final(r)).nb_bytes == (*r).nb_bytes + n * data_len
                &&& (*final(l)).received.pkts == (*l).received.pkts + n
                &&& (*final(l)).received.bytes == (*l).received.bytes + n * data_len
                &&& (*final(r)).base == (*r).base
            },
{
}

} // verus!
