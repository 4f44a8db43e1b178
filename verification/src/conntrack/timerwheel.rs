//! Expiration of inactive connections.

use crate::conntrack::conn::{gaps_given_up, terminated_as, Conn};
use crate::conntrack::conn_info::Trackable;
use crate::conntrack::table::{ConnId, ConnTable};
use crate::time::{Instant, NANOS_PER_MILLI};
use std::collections::VecDeque;
use vstd::prelude::*;

verus! {

/// Milliseconds from `start` to `t`.
pub open spec fn millis_between(start: Instant, t: Instant) -> int {
    (t.since(start).nanos / NANOS_PER_MILLI) as int
}

/// Tracks inactive connection expiration.
pub struct TimerWheel {
    /// Period to check for inactive connections, in milliseconds.
    pub period: u64,
    /// Start time of the wheel: its epoch.
    pub start_ts: Instant,
    /// Previous check time of the wheel.
    pub prev_ts: Instant,
    /// Number of the next bucket to expire.
    pub next_bucket: u64,
    /// Timers, by bucket. Each entry pairs a connection with the deadline it was scheduled
    /// for, in milliseconds since the epoch.
    pub timers: Vec<VecDeque<(ConnId, u64)>>,
}

/// What is to be done with a timer entry whose bucket has come round.
#[derive(Debug, Clone, Copy, PartialEq, Eq, Structural)]
pub enum Sweep {
    /// The connection has been scheduled anew since: forget the entry.
    Superseded,
    /// The connection has been active since: file it under this deadline.
    Requeue(u64),
    /// The deadline was for a gap to be filled, not for the connection: give the gap up.
    RecoverGaps,
    /// The connection is over.
    Expire,
}

/// What is to be done with a connection whose gaps were given up.
#[derive(Debug, Clone, Copy, PartialEq, Eq, Structural)]
pub enum Recovered {
    /// A subscription lost interest: remove it.
    Remove,
    /// Its FIN/ACK sequence is now complete: terminate it.
    Terminate,
    /// File it under this deadline, with the normal timeout.
    Requeue(u64),
}

/// What is to be done with an entry that was filed under `deadline`, for a connection that
/// is scheduled for `scheduled`, was last seen at `last_seen`, expires after `window`, and
/// may be stalled behind a gap.
pub open spec fn sweep(
    deadline: u64,
    scheduled: u64,
    last_seen: int,
    window: u64,
    gap_pending: bool,
    check_time: int,
    tcp_timeout: u64,
) -> Sweep {
    if deadline != scheduled {
        Sweep::Superseded
    } else if last_seen + window >= check_time {
        Sweep::Requeue((last_seen + window) as u64)
    } else if gap_pending && last_seen + tcp_timeout >= check_time {
        Sweep::RecoverGaps
    } else {
        Sweep::Expire
    }
}

/// Decides what is to be done with a timer entry; see `sweep`.
pub fn sweep_decision(
    deadline: u64,
    scheduled: u64,
    last_seen: u64,
    window: u64,
    gap_pending: bool,
    check_time: u64,
    tcp_timeout: u64,
) -> (s: Sweep)
    requires
        last_seen + window <= u64::MAX,
        last_seen + tcp_timeout <= u64::MAX,
    ensures
        s == sweep(
            deadline,
            scheduled,
            last_seen as int,
            window,
            gap_pending,
            check_time as int,
            tcp_timeout,
        ),
{
    if deadline != scheduled {
        return Sweep::Superseded;
    }
    let expire_time: u64 = last_seen + window;
    if expire_time >= check_time {
        return Sweep::Requeue(expire_time);
    }
    if gap_pending && last_seen + tcp_timeout >= check_time {
        return Sweep::RecoverGaps;
    }
    Sweep::Expire
}

/// Decides what is to be done with a connection whose gaps were given up, given whether a
/// subscription lost interest during the flush and whether the connection has terminated.
pub fn recovery_decision(
    unwanted: bool,
    terminated: bool,
    last_seen: u64,
    tcp_timeout: u64,
) -> (r: Recovered)
    requires
        last_seen + tcp_timeout <= u64::MAX,
    ensures
        r == (if unwanted {
            Recovered::Remove
        } else if terminated {
            Recovered::Terminate
        } else {
            Recovered::Requeue((last_seen + tcp_timeout) as u64)
        }),
{
    if unwanted {
        Recovered::Remove
    } else if terminated {
        Recovered::Terminate
    } else {
        Recovered::Requeue(last_seen + tcp_timeout)
    }
}

/// A connection that left the table, and whether its end was delivered, if it was
/// terminated.
#[derive(Debug, Clone, Copy)]
pub struct Closed {
    pub id: ConnId,
    pub delivered: Option<bool>,
}

/// Number of the last bucket, before which all have come round, at time `now`.
pub open spec fn due_bucket(w: TimerWheel, now: Instant) -> int {
    millis_between(w.start_ts, now) / w.period as int
}

/// The point in time that a check at `now` measures against: the start of the bucket that
/// has not come round yet.
pub open spec fn check_time(w: TimerWheel, now: Instant) -> int {
    due_bucket(w, now) * w.period
}

/// An entry for the connection, with this deadline, is in the bucket for that deadline.
pub open spec fn filed(w: TimerWheel, id: ConnId, deadline: u64) -> bool {
    w.timers@[bucket_index(w, deadline)]@.contains((id, deadline))
}

/// Number of entries in some buckets.
pub open spec fn entries_in(buckets: Seq<VecDeque<(ConnId, u64)>>) -> nat
    decreases buckets.len(),
{
    if buckets.len() == 0 {
        0
    } else {
        entries_in(buckets.drop_last()) + buckets.last()@.len()
    }
}

proof fn lemma_entries_of_one_bucket(
    before: Seq<VecDeque<(ConnId, u64)>>,
    after: Seq<VecDeque<(ConnId, u64)>>,
    i: int,
)
    requires
        before.len() == after.len(),
        0 <= i < before.len(),
        forall|j: int|
            0 <= j < before.len() && j != i ==> (#[trigger] after[j])@.len() == before[j]@.len(),
    ensures
        entries_in(after) - entries_in(before) == after[i]@.len() - before[i]@.len(),
    decreases before.len(),
{
    let b = before.drop_last();
    let a = after.drop_last();
    if i < b.len() {
        lemma_entries_of_one_bucket(b, a, i);
    } else {
        lemma_same_entries(b, a);
    }
}

proof fn lemma_same_entries(before: Seq<VecDeque<(ConnId, u64)>>, after: Seq<VecDeque<(ConnId, u64)>>)
    requires
        before.len() == after.len(),
        forall|j: int|
            0 <= j < before.len() ==> (#[trigger] after[j])@.len() == before[j]@.len(),
    ensures
        entries_in(after) == entries_in(before),
    decreases before.len(),
{
    if before.len() > 0 {
        lemma_same_entries(before.drop_last(), after.drop_last());
    }
}

/// Index of the bucket for a deadline.
pub open spec fn bucket_index(w: TimerWheel, deadline: u64) -> int {
    (deadline / w.period) as int % w.timers@.len() as int
}

/// Every connection has a live entry in the wheel.
pub open spec fn all_filed<T: Trackable>(w: TimerWheel, t: Map<ConnId, Conn<T>>) -> bool {
    forall|id: ConnId| #[trigger] t.contains_key(id) ==> filed(w, id, t[id].scheduled_expiry)
}

/// Every connection's deadline is in a bucket that is yet to come round.
pub open spec fn all_ahead<T: Trackable>(w: TimerWheel, t: Map<ConnId, Conn<T>>) -> bool {
    forall|id: ConnId| #[trigger]
        t.contains_key(id) ==> t[id].scheduled_expiry / w.period >= w.next_bucket
}

/// The connections' deadlines can be represented.
pub open spec fn deadlines_fit<T: Trackable>(
    start: Instant,
    t: Map<ConnId, Conn<T>>,
    tcp_timeout: u64,
) -> bool {
    forall|id: ConnId| #[trigger]
        t.contains_key(id) ==> t[id].wf() && millis_between(start, t[id].last_seen_ts)
            + t[id].inactivity_window <= u64::MAX && millis_between(start, t[id].last_seen_ts)
            + tcp_timeout <= u64::MAX
}

/// What is to be done with the connection when its entry comes round.
pub open spec fn swept_for<T: Trackable>(
    start: Instant,
    c: Conn<T>,
    check: int,
    tcp_timeout: u64,
) -> Sweep {
    sweep(
        c.scheduled_expiry,
        c.scheduled_expiry,
        millis_between(start, c.last_seen_ts),
        c.inactivity_window,
        c.gap_pending(),
        check,
        tcp_timeout,
    )
}

/// The connection stays when its entry comes round: it is filed under the deadline that its
/// window gives, or, after its gaps were given up, under the normal timeout.
pub open spec fn stays_as<T: Trackable>(
    start: Instant,
    before: Conn<T>,
    check: int,
    tcp_timeout: u64,
    after: Conn<T>,
) -> bool {
    match swept_for(start, before, check, tcp_timeout) {
        Sweep::Requeue(deadline) => after == (Conn { scheduled_expiry: deadline, ..before }),
        Sweep::RecoverGaps => exists|mid: Conn<T>|
            {
                &&& #[trigger] gaps_given_up(before, mid)
                &&& !mid.unwanted()
                &&& !mid.over()
                &&& after.wf()
                &&& after == (Conn {
                    inactivity_window: tcp_timeout,
                    scheduled_expiry: (millis_between(start, before.last_seen_ts)
                        + tcp_timeout) as u64,
                    ..mid
                })
            },
        _ => false,
    }
}

/// The connection leaves the table when its entry comes round, its end delivered or not if
/// it was terminated: it has been inactive for its window, or, once its gaps were given up,
/// a subscription lost interest or its FIN/ACK sequence was complete.
pub open spec fn leaves_as<T: Trackable>(
    start: Instant,
    before: Conn<T>,
    check: int,
    tcp_timeout: u64,
    delivered: Option<bool>,
) -> bool {
    match swept_for(start, before, check, tcp_timeout) {
        Sweep::RecoverGaps => exists|mid: Conn<T>|
            {
                &&& #[trigger] gaps_given_up(before, mid)
                &&& if mid.unwanted() {
                    delivered is None
                } else {
                    mid.over() && delivered is Some && can_end(mid, delivered->0)
                }
            },
        Sweep::Expire => delivered is Some && can_end(before, delivered->0),
        _ => false,
    }
}

/// The connection's termination can end with its end delivered, or not delivered.
pub open spec fn can_end<T: Trackable>(c: Conn<T>, delivered: bool) -> bool {
    exists|last: Conn<T>| #[trigger] terminated_as(c, delivered, last)
}

/// The connection is listed as closed, in a way that it can leave the table.
pub open spec fn closed_as<T: Trackable>(
    start: Instant,
    id: ConnId,
    before: Conn<T>,
    check: int,
    tcp_timeout: u64,
    closed: Seq<Closed>,
) -> bool {
    exists|i: int|
        0 <= i < closed.len() && (#[trigger] closed[i]).id == id && leaves_as(
            start,
            before,
            check,
            tcp_timeout,
            closed[i].delivered,
        )
}

/// The connection stayed, filed again, or left and is listed as closed.
pub open spec fn dealt_with<T: Trackable>(
    start: Instant,
    id: ConnId,
    before: Conn<T>,
    check: int,
    tcp_timeout: u64,
    after: Map<ConnId, Conn<T>>,
    closed: Seq<Closed>,
) -> bool {
    if after.contains_key(id) {
        stays_as(start, before, check, tcp_timeout, after[id])
    } else {
        closed_as(start, id, before, check, tcp_timeout, closed)
    }
}

/// Index of a bucket by its number.
pub open spec fn slot_of(w: TimerWheel, bucket: int) -> int {
    bucket % w.timers@.len() as int
}

/// The bucket for the deadline is among those that come round before the bucket `to`.
pub open spec fn comes_round(w: TimerWheel, to: int, deadline: u64) -> bool {
    exists|b: int|
        w.next_bucket <= b < to && #[trigger] slot_of(w, b) == bucket_index(w, deadline)
}

/// A sweep up to the bucket `to` turns one table into the other: the connections whose
/// entries come round are dealt with, and the others stay as they were.
pub open spec fn swept<T: Trackable>(
    w: TimerWheel,
    to: int,
    before: Map<ConnId, Conn<T>>,
    check: int,
    tcp_timeout: u64,
    after: Map<ConnId, Conn<T>>,
    closed: Seq<Closed>,
) -> bool {
    &&& forall|id: ConnId| #[trigger] after.contains_key(id) ==> before.contains_key(id)
    &&& forall|id: ConnId| #[trigger]
        before.contains_key(id) ==> if comes_round(w, to, before[id].scheduled_expiry) {
            dealt_with(w.start_ts, id, before[id], check, tcp_timeout, after, closed)
        } else {
            after.contains_key(id) && after[id] == before[id]
        }
}

/// The entry of the connection comes round, and its deadline was for a gap to be filled.
pub open spec fn gap_times_out<T: Trackable>(
    w: TimerWheel,
    to: int,
    before: Map<ConnId, Conn<T>>,
    check: int,
    tcp_timeout: u64,
    id: ConnId,
) -> bool {
    &&& before.contains_key(id)
    &&& comes_round(w, to, before[id].scheduled_expiry)
    &&& swept_for(w.start_ts, before[id], check, tcp_timeout) is RecoverGaps
}

/// The list names each connection whose reassembly deadline expired, once.
pub open spec fn lists_timeouts<T: Trackable>(
    w: TimerWheel,
    to: int,
    before: Map<ConnId, Conn<T>>,
    check: int,
    tcp_timeout: u64,
    list: Seq<ConnId>,
) -> bool {
    &&& list.no_duplicates()
    &&& forall|id: ConnId| #[trigger]
        list.contains(id) <==> gap_times_out(w, to, before, check, tcp_timeout, id)
}

/// A sweep never removes a connection that has been active within its window, nor changes
/// anything but its deadline.
pub proof fn law_active_connections_stay<T: Trackable>(
    w: TimerWheel,
    to: int,
    before: Map<ConnId, Conn<T>>,
    check: int,
    tcp_timeout: u64,
    after: Map<ConnId, Conn<T>>,
    closed: Seq<Closed>,
    id: ConnId,
)
    requires
        swept(w, to, before, check, tcp_timeout, after, closed),
        before.contains_key(id),
        millis_between(w.start_ts, before[id].last_seen_ts) + before[id].inactivity_window >= check,
    ensures
        after.contains_key(id),
        after[id] == (Conn { scheduled_expiry: after[id].scheduled_expiry, ..before[id] }),
{
}

/// A sweep removes every connection whose deadline has passed and that has been inactive
/// for its window, unless all that it waited for was a gap to be filled.
pub proof fn law_inactive_connections_leave<T: Trackable>(
    w: TimerWheel,
    to: int,
    before: Map<ConnId, Conn<T>>,
    check: int,
    tcp_timeout: u64,
    after: Map<ConnId, Conn<T>>,
    closed: Seq<Closed>,
    id: ConnId,
)
    requires
        w.wf(),
        all_ahead(w, before),
        swept(w, to, before, check, tcp_timeout, after, closed),
        before.contains_key(id),
        before[id].scheduled_expiry < to * w.period,
        millis_between(w.start_ts, before[id].last_seen_ts) + before[id].inactivity_window < check,
        !before[id].gap_pending() || millis_between(w.start_ts, before[id].last_seen_ts)
            + tcp_timeout < check,
    ensures
        !after.contains_key(id),
        closed_as(w.start_ts, id, before[id], check, tcp_timeout, closed),
{
    let d = before[id].scheduled_expiry;
    let b = (d / w.period) as int;
    assert(b < to) by (nonlinear_arith)
        requires
            b == d / w.period,
            w.period > 0,
            d < to * w.period,
    ;
    assert(slot_of(w, b) == bucket_index(w, d));
}

/// The closed connections are those that left the table, each listed once.
pub open spec fn lists_removed<T: Trackable>(
    closed: Seq<Closed>,
    before: Map<ConnId, Conn<T>>,
    after: Map<ConnId, Conn<T>>,
) -> bool {
    &&& forall|i: int|
        0 <= i < closed.len() ==> before.contains_key((#[trigger] closed[i]).id)
            && !after.contains_key(closed[i].id)
    &&& forall|i: int, j: int|
        0 <= i < j < closed.len() ==> (#[trigger] closed[i]).id != (#[trigger] closed[j]).id
    &&& forall|id: ConnId| #[trigger]
        before.contains_key(id) && !after.contains_key(id) ==> exists|i: int|
            0 <= i < closed.len() && (#[trigger] closed[i]).id == id
}

/// The entry is among the first `n` of the list.
spec fn listed(list: Seq<(ConnId, u64)>, n: int, id: ConnId, deadline: u64) -> bool {
    exists|j: int| 0 <= j < n && #[trigger] list[j] == (id, deadline)
}

proof fn lemma_listed_next(list: Seq<(ConnId, u64)>, n: int, id: ConnId, deadline: u64)
    requires
        0 <= n < list.len(),
    ensures
        listed(list, n + 1, id, deadline) == (listed(list, n, id, deadline) || list[n] == (
            id,
            deadline,
        )),
{
    if listed(list, n, id, deadline) {
        let j = choose|j: int| 0 <= j < n && #[trigger] list[j] == (id, deadline);
        assert(0 <= j < n + 1);
    }
}

impl TimerWheel {
    /// Every entry is in the bucket for its deadline.
    pub open spec fn wf(&self) -> bool {
        &&& self.period > 0
        &&& self.timers@.len() > 0
        &&& forall|i: int, k: int|
            0 <= i < self.timers@.len() && 0 <= k < self.timers@[i]@.len() ==> bucket_index(
                *self,
                (#[trigger] self.timers@[i]@[k]).1,
            ) == i
    }

    /// Creates a wheel with a maximum timeout of `max_timeout` and a timeout check period of
    /// `timeout_resolution`, both in milliseconds, whose epoch is `now`.
    pub fn new(max_timeout: u64, timeout_resolution: u64, now: Instant) -> (w: TimerWheel)
        requires
            0 < timeout_resolution <= max_timeout,
            max_timeout / timeout_resolution <= usize::MAX,
        ensures
            w.wf(),
            w.period == timeout_resolution,
            w.start_ts == now,
            w.prev_ts == now,
            w.next_bucket == 0,
            w.timers@.len() == max_timeout / timeout_resolution,
            forall|i: int| 0 <= i < w.timers@.len() ==> (#[trigger] w.timers@[i])@.len() == 0,
    {
        let nb_buckets: usize = (max_timeout / timeout_resolution) as usize;
        let mut timers: Vec<VecDeque<(ConnId, u64)>> = Vec::new();
        while timers.len() < nb_buckets
            invariant
                timers@.len() <= nb_buckets,
                forall|i: int| 0 <= i < timers@.len() ==> (#[trigger] timers@[i])@.len() == 0,
            decreases nb_buckets - timers@.len(),
        {
            timers.push(VecDeque::new());
        }
        proof {
            assert(max_timeout / timeout_resolution >= 1) by (nonlinear_arith)
                requires
                    0 < timeout_resolution <= max_timeout,
            ;
        }
        TimerWheel {
            period: timeout_resolution,
            start_ts: now,
            prev_ts: now,
            next_bucket: 0,
            timers,
        }
    }

    fn millis_since_epoch(&self, t: Instant) -> (n: u64)
        ensures
            n == millis_between(self.start_ts, t),
    {
        t.duration_since(self.start_ts).as_millis()
    }

    /// When a connection last seen at `last_seen_ts` expires, in milliseconds since the
    /// wheel's epoch. Comparable across connections and across time, unlike the inactivity
    /// window on its own.
    pub fn expire_time(&self, last_seen_ts: Instant, inactivity_window: u64) -> (n: u64)
        requires
            millis_between(self.start_ts, last_seen_ts) + inactivity_window <= u64::MAX,
        ensures
            n == millis_between(self.start_ts, last_seen_ts) + inactivity_window,
    {
        self.millis_since_epoch(last_seen_ts) + inactivity_window
    }

    /// Index of the bucket for a deadline.
    fn index_of(&self, deadline: u64) -> (i: usize)
        requires
            self.wf(),
        ensures
            i == bucket_index(*self, deadline),
            i < self.timers@.len(),
    {
        let n: usize = self.timers.len();
        let i: u64 = (deadline / self.period) % (n as u64);
        assert(0 <= (deadline / self.period) as int % n as int) by (nonlinear_arith)
            requires
                n > 0,
        ;
        assert(((deadline / self.period) as int % n as int) < n) by (nonlinear_arith)
            requires
                n > 0,
        ;
        i as usize
    }

    /// Inserts a connection into the wheel, returning the deadline that the entry was filed
    /// under. The caller must store it as the connection's scheduled expiry: an entry whose
    /// deadline does not match is treated as superseded and discarded on sweep.
    pub fn insert(&mut self, conn_id: &ConnId, last_seen_ts: Instant, inactivity_window: u64) -> (n:
        u64)
        requires
            old(self).wf(),
            millis_between(old(self).start_ts, last_seen_ts) + inactivity_window <= u64::MAX,
        ensures
            final(self).wf(),
            n == millis_between(old(self).start_ts, last_seen_ts) + inactivity_window,
            filed(*final(self), *conn_id, n),
            entries_in(final(self).timers@) == entries_in(old(self).timers@) + 1,
            final(self).period == old(self).period,
            final(self).start_ts == old(self).start_ts,
            final(self).prev_ts == old(self).prev_ts,
            final(self).next_bucket == old(self).next_bucket,
            final(self).timers@.len() == old(self).timers@.len(),
            forall|i: int|
                0 <= i < old(self).timers@.len() ==> (#[trigger] final(self).timers@[i])@ == (if i
                    == bucket_index(*old(self), n) {
                    old(self).timers@[i]@.push((*conn_id, n))
                } else {
                    old(self).timers@[i]@
                }),
    {
        let expire_time: u64 = self.expire_time(last_seen_ts, inactivity_window);
        self.file(*conn_id, expire_time);
        expire_time
    }

    /// Adds an entry to the bucket for its deadline.
    fn file(&mut self, conn_id: ConnId, deadline: u64)
        requires
            old(self).wf(),
        ensures
            final(self).wf(),
            filed(*final(self), conn_id, deadline),
            entries_in(final(self).timers@) == entries_in(old(self).timers@) + 1,
            final(self).period == old(self).period,
            final(self).start_ts == old(self).start_ts,
            final(self).prev_ts == old(self).prev_ts,
            final(self).next_bucket == old(self).next_bucket,
            final(self).timers@.len() == old(self).timers@.len(),
            forall|i: int|
                0 <= i < old(self).timers@.len() ==> (#[trigger] final(self).timers@[i])@ == (if i
                    == bucket_index(*old(self), deadline) {
                    old(self).timers@[i]@.push((conn_id, deadline))
                } else {
                    old(self).timers@[i]@
                }),
            forall|id: ConnId, d: u64| #[trigger]
                filed(*old(self), id, d) ==> filed(*final(self), id, d),
    {
        let index: usize = self.index_of(deadline);
        let ghost before = self.timers@[index as int]@;
        self.timers[index].push_back((conn_id, deadline));
        proof {
            let w = *old(self);
            assert(self.timers@[index as int]@[before.len() as int] == (conn_id, deadline));
            lemma_entries_of_one_bucket(w.timers@, self.timers@, index as int);
            assert forall|id: ConnId, d: u64| #[trigger] filed(w, id, d) implies filed(
                *self,
                id,
                d,
            ) by {
                let b = bucket_index(w, d);
                assert(0 <= b < w.timers@.len()) by (nonlinear_arith)
                    requires
                        w.timers@.len() > 0,
                        b == (d / w.period) as int % w.timers@.len() as int,
                ;
                let k = choose|k: int|
                    0 <= k < w.timers@[b]@.len() && w.timers@[b]@[k] == (id, d);
                assert(self.timers@[b]@[k] == (id, d));
            }
        }
    }

    /// Checks for and removes inactive connections, if a period has passed since the last
    /// check. Those that are removed are added to `closed`.
    pub fn check_inactive<T: Trackable>(
        &mut self,
        table: &mut ConnTable<T>,
        tcp_inactivity_timeout: u64,
        now: Instant,
        closed: &mut Vec<Closed>,
        timeouts: &mut Vec<ConnId>,
    )
        requires
            old(self).wf(),
            old(table).wf(),
            all_filed(*old(self), old(table)@),
            deadlines_fit(old(self).start_ts, old(table)@, tcp_inactivity_timeout),
        ensures
            final(self).wf(),
            final(table).wf(),
            all_filed(*final(self), final(table)@),
            all_ahead(*old(self), old(table)@) ==> all_ahead(*final(self), final(table)@),
            entries_in(final(self).timers@) <= entries_in(old(self).timers@),
            final(self).period == old(self).period,
            final(self).start_ts == old(self).start_ts,
            if millis_between(old(self).prev_ts, now) >= old(self).period {
                &&& final(self).prev_ts == now
                &&& swept(
                    *old(self),
                    due_bucket(*old(self), now),
                    old(table)@,
                    check_time(*old(self), now),
                    tcp_inactivity_timeout,
                    final(table)@,
                    final(closed)@.skip(old(closed)@.len() as int),
                )
                &&& old(closed)@.is_prefix_of(final(closed)@)
                &&& lists_removed(
                    final(closed)@.skip(old(closed)@.len() as int),
                    old(table)@,
                    final(table)@,
                )
                &&& old(timeouts)@.is_prefix_of(final(timeouts)@)
                &&& lists_timeouts(
                    *old(self),
                    due_bucket(*old(self), now),
                    old(table)@,
                    check_time(*old(self), now),
                    tcp_inactivity_timeout,
                    final(timeouts)@.skip(old(timeouts)@.len() as int),
                )
            } else {
                &&& *final(self) == *old(self)
                &&& *final(table) == *old(table)
                &&& final(closed)@ == old(closed)@
                &&& final(timeouts)@ == old(timeouts)@
            },
    {
        if now.duration_since(self.prev_ts).as_millis() >= self.period {
            self.prev_ts = now;
            assert(all_filed(*self, table@)) by {
                assert forall|id: ConnId| #[trigger] table@.contains_key(id) implies filed(
                    *self,
                    id,
                    table@[id].scheduled_expiry,
                ) by {
                    assert(filed(*old(self), id, table@[id].scheduled_expiry));
                }
            }
            let ghost w = *self;
            let _ = self.remove_inactive(
                now,
                table,
                tcp_inactivity_timeout,
                closed,
                timeouts,
            );
            assert forall|to: int, d: u64| #[trigger] comes_round(w, to, d) == comes_round(
                *old(self),
                to,
                d,
            ) by {
                if comes_round(w, to, d) {
                    lemma_comes_round_by_shape(w, *old(self), to, d);
                }
                if comes_round(*old(self), to, d) {
                    lemma_comes_round_by_shape(*old(self), w, to, d);
                }
            }
        }
    }

    /// Removes connections that have been inactive for at least their inactivity window.
    ///
    /// A connection stalled behind a sequence gap carries the shorter reassembly timeout as
    /// its window. When that window expires but the connection is not yet inactive by
    /// `tcp_inactivity_timeout`, the expiry means that the gap is never going to be filled:
    /// the gap is abandoned, its buffered data delivered, and the connection filed again
    /// under the normal timeout.
    ///
    /// Returns the number of connections removed; they are added to `closed`. Every
    /// connection that stays keeps a live entry, in a bucket that has yet to come round, and
    /// entries do not accumulate. Connections whose reassembly deadline expired while they
    /// were stalled behind a gap are added to `timeouts`.
    pub fn remove_inactive<T: Trackable>(
        &mut self,
        now: Instant,
        table: &mut ConnTable<T>,
        tcp_inactivity_timeout: u64,
        closed: &mut Vec<Closed>,
        timeouts: &mut Vec<ConnId>,
    ) -> (nb_removed: usize)
        requires
            old(self).wf(),
            old(table).wf(),
            all_filed(*old(self), old(table)@),
            deadlines_fit(old(self).start_ts, old(table)@, tcp_inactivity_timeout),
        ensures
            final(self).wf(),
            final(table).wf(),
            final(self).period == old(self).period,
            final(self).start_ts == old(self).start_ts,
            final(self).prev_ts == old(self).prev_ts,
            final(self).next_bucket == due_bucket(*old(self), now),
            all_filed(*final(self), final(table)@),
            all_ahead(*old(self), old(table)@) ==> all_ahead(*final(self), final(table)@),
            entries_in(final(self).timers@) <= entries_in(old(self).timers@),
            deadlines_fit(final(self).start_ts, final(table)@, tcp_inactivity_timeout),
            swept(
                *old(self),
                due_bucket(*old(self), now),
                old(table)@,
                check_time(*old(self), now),
                tcp_inactivity_timeout,
                final(table)@,
                final(closed)@.skip(old(closed)@.len() as int),
            ),
            old(closed)@.is_prefix_of(final(closed)@),
            nb_removed == final(closed)@.len() - old(closed)@.len(),
            lists_removed(
                final(closed)@.skip(old(closed)@.len() as int),
                old(table)@,
                final(table)@,
            ),
            old(timeouts)@.is_prefix_of(final(timeouts)@),
            lists_timeouts(
                *old(self),
                due_bucket(*old(self), now),
                old(table)@,
                check_time(*old(self), now),
                tcp_inactivity_timeout,
                final(timeouts)@.skip(old(timeouts)@.len() as int),
            ),
    {
        let start: Instant = self.start_ts;
        let period: u64 = self.period;
        let last_expire_bucket: u64 = self.millis_since_epoch(now) / period;
        proof {
            assert(last_expire_bucket * period <= millis_between(start, now)) by (nonlinear_arith)
                requires
                    period > 0,
                    last_expire_bucket == millis_between(start, now) / period as int,
            ;
        }
        let check: u64 = last_expire_bucket * period;
        let ghost before = table@;
        let ghost closed_before = closed@;
        let nb_closed: usize = closed.len();
        let mut bucket: u64 = self.next_bucket;
        let ghost n0 = closed@.len() as int;
        assert(closed@.skip(n0) =~= Seq::empty());
        let ghost timeouts_before = timeouts@;
        let ghost m0 = timeouts@.len() as int;
        assert(timeouts@.skip(m0) =~= Seq::empty());
        while bucket < last_expire_bucket
            invariant
                self.wf(),
                table.wf(),
                period == self.period,
                start == self.start_ts,
                self.period == old(self).period,
                self.start_ts == old(self).start_ts,
                self.prev_ts == old(self).prev_ts,
                check == last_expire_bucket * period,
                all_filed(*self, table@),
                all_ahead(*old(self), before) ==> forall|id: ConnId| #[trigger]
                    table@.contains_key(id) ==> table@[id].scheduled_expiry / period >= bucket,
                old(self).wf(),
                self.timers@.len() == old(self).timers@.len(),
                entries_in(self.timers@) <= entries_in(old(self).timers@),
                old(self).next_bucket <= bucket,
                bucket <= last_expire_bucket || bucket == old(self).next_bucket,
                n0 == closed_before.len(),
                deadlines_fit(start, before, tcp_inactivity_timeout),
                deadlines_fit(start, table@, tcp_inactivity_timeout),
                swept(
                    *old(self),
                    bucket as int,
                    before,
                    check as int,
                    tcp_inactivity_timeout,
                    table@,
                    closed@.skip(n0),
                ),
                closed_before.is_prefix_of(closed@),
                lists_removed(closed@.skip(n0), before, table@),
                m0 == timeouts_before.len(),
                timeouts_before.is_prefix_of(timeouts@),
                lists_timeouts(
                    *old(self),
                    bucket as int,
                    before,
                    check as int,
                    tcp_inactivity_timeout,
                    timeouts@.skip(m0),
                ),
            decreases last_expire_bucket - bucket,
        {
            let index: usize = self.index_of_bucket(bucket);
            let mut list: VecDeque<(ConnId, u64)> = VecDeque::new();
            let ghost w0 = *self;
            let ghost t0 = table@;
            let ghost closed0 = closed@;
            let ghost timeouts0 = timeouts@;
            core::mem::swap(&mut self.timers[index], &mut list);
            let ghost w1 = *self;
            proof {
                lemma_entries_of_one_bucket(w0.timers@, w1.timers@, index as int);
            }
            let requeue = sweep_list(
                start,
                &list,
                table,
                check,
                tcp_inactivity_timeout,
                closed,
                timeouts,
            );
            let mut i: usize = 0;
            while i < requeue.len()
                invariant
                    self.wf(),
                    i <= requeue@.len(),
                    entries_in(self.timers@) == entries_in(w1.timers@) + i,
                    self.period == w1.period,
                    self.start_ts == w1.start_ts,
                    self.prev_ts == w1.prev_ts,
                    self.timers@.len() == w1.timers@.len(),
                    forall|id: ConnId, d: u64| #[trigger]
                        filed(w1, id, d) ==> filed(*self, id, d),
                    forall|j: int|
                        0 <= j < i ==> filed(*self, (#[trigger] requeue@[j]).0, requeue@[j].1),
                decreases requeue@.len() - i,
            {
                let (id, deadline) = requeue[i];
                let ghost w2 = *self;
                self.file(id, deadline);
                i = i + 1;
                assert forall|j: int| 0 <= j < i implies filed(
                    *self,
                    (#[trigger] requeue@[j]).0,
                    requeue@[j].1,
                ) by {
                    if j < i - 1 {
                        assert(filed(w2, requeue@[j].0, requeue@[j].1));
                    }
                }
            }
            bucket = bucket + 1;
            proof {
                let more = closed@.skip(closed0.len() as int);
                lemma_removed_concat(closed0.skip(n0), more, before, t0, table@);
                assert(closed@.skip(n0) =~= closed0.skip(n0) + more);
                assert forall|id: ConnId| #[trigger] before.contains_key(id) implies if comes_round(
                    *old(self),
                    bucket as int,
                    before[id].scheduled_expiry,
                ) {
                    dealt_with(
                        start,
                        id,
                        before[id],
                        check as int,
                        tcp_inactivity_timeout,
                        table@,
                        closed@.skip(n0),
                    )
                } else {
                    table@.contains_key(id) && table@[id] == before[id]
                } by {
                    let d = before[id].scheduled_expiry;
                    lemma_comes_round_next(*old(self), bucket - 1, d);
                    lemma_closed_grows(
                        start,
                        id,
                        before[id],
                        check as int,
                        tcp_inactivity_timeout,
                        closed0.skip(n0),
                        more,
                    );
                    if t0.contains_key(id) {
                        let e = t0[id].scheduled_expiry;
                        lemma_filed_is_listed(w0, index as int, list@, id, e);
                        if comes_round(*old(self), bucket - 1, d) {
                            lemma_stays_once(
                                start,
                                before[id],
                                check as int,
                                tcp_inactivity_timeout,
                                t0[id],
                            );
                        }
                    }
                }
                let late = timeouts@.skip(timeouts0.len() as int);
                assert(timeouts@.skip(m0) =~= timeouts0.skip(m0) + late);
                assert forall|id: ConnId| #[trigger] late.contains(id) <==> gap_times_out(
                    *old(self),
                    bucket as int,
                    before,
                    check as int,
                    tcp_inactivity_timeout,
                    id,
                ) && !gap_times_out(
                    *old(self),
                    bucket - 1,
                    before,
                    check as int,
                    tcp_inactivity_timeout,
                    id,
                ) by {
                    if before.contains_key(id) {
                        let d = before[id].scheduled_expiry;
                        lemma_comes_round_next(*old(self), bucket - 1, d);
                        if t0.contains_key(id) {
                            let e = t0[id].scheduled_expiry;
                            lemma_filed_is_listed(w0, index as int, list@, id, e);
                            if comes_round(*old(self), bucket - 1, d) {
                                lemma_stays_once(
                                    start,
                                    before[id],
                                    check as int,
                                    tcp_inactivity_timeout,
                                    t0[id],
                                );
                            }
                        }
                    }
                }
                lemma_timeouts_concat(
                    timeouts0.skip(m0),
                    late,
                );
                assert forall|id: ConnId| #[trigger]
                    timeouts@.skip(m0).contains(id) <==> gap_times_out(
                    *old(self),
                    bucket as int,
                    before,
                    check as int,
                    tcp_inactivity_timeout,
                    id,
                ) by {
                    lemma_member_of_concat(timeouts0.skip(m0), late, id);
                    if before.contains_key(id) {
                        lemma_comes_round_next(
                            *old(self),
                            bucket - 1,
                            before[id].scheduled_expiry,
                        );
                    }
                }
                assert forall|id: ConnId| #[trigger] table@.contains_key(id) implies filed(
                    *self,
                    id,
                    table@[id].scheduled_expiry,
                ) && (all_ahead(*old(self), before) ==> table@[id].scheduled_expiry / period
                    >= bucket) by {
                    let d = table@[id].scheduled_expiry;
                    if requeue@.contains((id, d)) && d >= check {
                        let j = choose|j: int| 0 <= j < requeue@.len() && requeue@[j] == (id, d);
                        assert(filed(*self, requeue@[j].0, requeue@[j].1));
                        lemma_bucket_of_late_deadline(d, last_expire_bucket, period);
                    } else {
                        assert(t0.contains_key(id));
                        assert(filed(w0, id, d));
                        lemma_bucket_bounds(d / period, w0.timers@.len() as int);
                        if bucket_index(w0, d) == index {
                            let k = choose|k: int|
                                0 <= k < list@.len() && list@[k] == (id, d);
                            assert(list@[k] == (id, d));
                        }
                        assert(filed(w1, id, d));
                    }
                }
            }
        }
        self.next_bucket = last_expire_bucket;
        proof {
            assert forall|id: ConnId| #[trigger] table@.contains_key(id) implies filed(
                *self,
                id,
                table@[id].scheduled_expiry,
            ) by {
            }
            let w = *old(self);
            assert(check_time(w, now) == check);
            assert forall|d: u64| comes_round(w, last_expire_bucket as int, d) == #[trigger]
                comes_round(w, bucket as int, d) by {
                if bucket > last_expire_bucket {
                    assert(!comes_round(w, last_expire_bucket as int, d));
                }
            }
        }
        closed.len() - nb_closed
    }

    /// Index of a bucket by its number.
    fn index_of_bucket(&self, bucket: u64) -> (i: usize)
        requires
            self.wf(),
        ensures
            i == bucket as int % self.timers@.len() as int,
            i < self.timers@.len(),
    {
        let n: usize = self.timers.len();
        proof {
            lemma_bucket_bounds(bucket, n as int);
        }
        (bucket % (n as u64)) as usize
    }
}

proof fn lemma_bucket_bounds(bucket: u64, n: int)
    requires
        n > 0,
    ensures
        0 <= bucket as int % n < n,
{
    assert(0 <= bucket as int % n < n) by (nonlinear_arith)
        requires
            n > 0,
    ;
}

proof fn lemma_bucket_of_late_deadline(d: u64, bucket: u64, period: u64)
    requires
        period > 0,
        d >= bucket * period,
    ensures
        d / period >= bucket,
{
    assert(d / period >= bucket) by (nonlinear_arith)
        requires
            period > 0,
            d >= bucket * period,
    ;
}

proof fn lemma_filed_is_listed(
    w: TimerWheel,
    index: int,
    list: Seq<(ConnId, u64)>,
    id: ConnId,
    deadline: u64,
)
    requires
        w.wf(),
        0 <= index < w.timers@.len(),
        list == w.timers@[index]@,
        filed(w, id, deadline),
    ensures
        listed(list, list.len() as int, id, deadline) <==> bucket_index(w, deadline) == index,
{
    if listed(list, list.len() as int, id, deadline) {
        let k = choose|k: int| 0 <= k < list.len() && #[trigger] list[k] == (id, deadline);
        assert(w.timers@[index]@[k].1 == deadline);
    }
    if bucket_index(w, deadline) == index {
        let k = choose|k: int| 0 <= k < list.len() && list[k] == (id, deadline);
        assert(list[k] == (id, deadline));
    }
}

proof fn lemma_member_of_concat(a: Seq<ConnId>, b: Seq<ConnId>, id: ConnId)
    ensures
        (a + b).contains(id) <==> a.contains(id) || b.contains(id),
{
    if a.contains(id) {
        let k = choose|k: int| 0 <= k < a.len() && a[k] == id;
        assert((a + b)[k] == id);
    }
    if b.contains(id) {
        let k = choose|k: int| 0 <= k < b.len() && b[k] == id;
        assert((a + b)[a.len() + k] == id);
    }
}

proof fn lemma_timeouts_concat(a: Seq<ConnId>, b: Seq<ConnId>)
    requires
        a.no_duplicates(),
        b.no_duplicates(),
        forall|id: ConnId| #[trigger] b.contains(id) ==> !a.contains(id),
    ensures
        (a + b).no_duplicates(),
{
    let c = a + b;
    assert forall|i: int, j: int| 0 <= i < c.len() && 0 <= j < c.len() && i != j implies c[i]
        != c[j] by {
        if i < a.len() && j >= a.len() {
            assert(b.contains(b[j - a.len()]) && a.contains(a[i]));
        } else if j < a.len() && i >= a.len() {
            assert(b.contains(b[i - a.len()]) && a.contains(a[j]));
        }
    }
}

/// A connection that was filed again stays as it is when it comes round once more.
proof fn lemma_stays_once<T: Trackable>(
    start: Instant,
    before: Conn<T>,
    check: int,
    tcp_timeout: u64,
    after: Conn<T>,
)
    requires
        stays_as(start, before, check, tcp_timeout, after),
        millis_between(start, before.last_seen_ts) + before.inactivity_window <= u64::MAX,
        millis_between(start, before.last_seen_ts) + tcp_timeout <= u64::MAX,
    ensures
        after.scheduled_expiry >= check,
        swept_for(start, after, check, tcp_timeout) is Requeue,
        forall|again: Conn<T>|
            stays_as(start, after, check, tcp_timeout, again) ==> again == after,
        forall|delivered: Option<bool>| !leaves_as(start, after, check, tcp_timeout, delivered),
{
}

proof fn lemma_comes_round_by_shape(w: TimerWheel, v: TimerWheel, to: int, deadline: u64)
    requires
        w.next_bucket == v.next_bucket,
        w.period == v.period,
        w.timers@.len() == v.timers@.len(),
        comes_round(w, to, deadline),
    ensures
        comes_round(v, to, deadline),
{
    let b = choose|b: int|
        w.next_bucket <= b < to && #[trigger] slot_of(w, b) == bucket_index(w, deadline);
    assert(slot_of(v, b) == bucket_index(v, deadline));
}

proof fn lemma_comes_round_next(w: TimerWheel, to: int, deadline: u64)
    requires
        w.next_bucket <= to,
    ensures
        comes_round(w, to + 1, deadline) == (comes_round(w, to, deadline) || slot_of(w, to)
            == bucket_index(w, deadline)),
{
    if comes_round(w, to, deadline) {
        let b = choose|b: int|
            w.next_bucket <= b < to && #[trigger] slot_of(w, b) == bucket_index(w, deadline);
        assert(w.next_bucket <= b < to + 1);
    }
}

proof fn lemma_closed_grows<T: Trackable>(
    start: Instant,
    id: ConnId,
    before: Conn<T>,
    check: int,
    tcp_timeout: u64,
    first: Seq<Closed>,
    second: Seq<Closed>,
)
    ensures
        closed_as(start, id, before, check, tcp_timeout, first) || closed_as(
            start,
            id,
            before,
            check,
            tcp_timeout,
            second,
        ) ==> closed_as(start, id, before, check, tcp_timeout, first + second),
{
    let all = first + second;
    if closed_as(start, id, before, check, tcp_timeout, first) {
        let i = choose|i: int|
            0 <= i < first.len() && (#[trigger] first[i]).id == id && leaves_as(
                start,
                before,
                check,
                tcp_timeout,
                first[i].delivered,
            );
        assert(all[i] == first[i]);
    } else if closed_as(start, id, before, check, tcp_timeout, second) {
        let i = choose|i: int|
            0 <= i < second.len() && (#[trigger] second[i]).id == id && leaves_as(
                start,
                before,
                check,
                tcp_timeout,
                second[i].delivered,
            );
        assert(all[first.len() + i] == second[i]);
    }
}

proof fn lemma_removed_concat<T: Trackable>(
    first: Seq<Closed>,
    second: Seq<Closed>,
    a: Map<ConnId, Conn<T>>,
    b: Map<ConnId, Conn<T>>,
    c: Map<ConnId, Conn<T>>,
)
    requires
        lists_removed(first, a, b),
        lists_removed(second, b, c),
        forall|id: ConnId| #[trigger] b.contains_key(id) ==> a.contains_key(id),
        forall|id: ConnId| #[trigger] c.contains_key(id) ==> b.contains_key(id),
    ensures
        lists_removed(first + second, a, c),
{
    let all = first + second;
    assert forall|i: int| 0 <= i < all.len() implies a.contains_key((#[trigger] all[i]).id)
        && !c.contains_key(all[i].id) by {
        if i < first.len() {
            assert(all[i] == first[i]);
        } else {
            assert(all[i] == second[i - first.len()]);
        }
    }
    assert forall|i: int, j: int| 0 <= i < j < all.len() implies (#[trigger] all[i]).id != (
    #[trigger] all[j]).id by {
        if j < first.len() {
            assert(all[i] == first[i] && all[j] == first[j]);
        } else if i < first.len() {
            assert(all[i] == first[i] && all[j] == second[j - first.len()]);
        } else {
            assert(all[i] == second[i - first.len()] && all[j] == second[j - first.len()]);
        }
    }
    assert forall|id: ConnId| #[trigger] a.contains_key(id) && !c.contains_key(id) implies exists|
        i: int,
    |
        0 <= i < all.len() && (#[trigger] all[i]).id == id by {
        if b.contains_key(id) {
            let k = choose|k: int| 0 <= k < second.len() && (#[trigger] second[k]).id == id;
            assert(all[first.len() + k].id == id);
        } else {
            let k = choose|k: int| 0 <= k < first.len() && (#[trigger] first[k]).id == id;
            assert(all[k].id == id);
        }
    }
}

/// The entries of a list were dealt with: each connection with a live entry among the first
/// `n` of them stayed, to be filed again, or left; the others are as they were.
spec fn list_swept<T: Trackable>(
    start: Instant,
    list: Seq<(ConnId, u64)>,
    n: int,
    before: Map<ConnId, Conn<T>>,
    check: int,
    tcp_timeout: u64,
    after: Map<ConnId, Conn<T>>,
    requeue: Seq<(ConnId, u64)>,
    closed: Seq<Closed>,
) -> bool {
    &&& forall|id: ConnId| #[trigger] after.contains_key(id) ==> before.contains_key(id)
    &&& forall|id: ConnId| #[trigger]
        before.contains_key(id) ==> if listed(list, n, id, before[id].scheduled_expiry) {
            &&& dealt_with(start, id, before[id], check, tcp_timeout, after, closed)
            &&& after.contains_key(id) ==> requeue.contains((id, after[id].scheduled_expiry))
        } else {
            after.contains_key(id) && after[id] == before[id]
        }
}

/// The list names each connection with a live entry among the first `n` whose deadline was
/// for a gap to be filled, once.
spec fn list_timeouts<T: Trackable>(
    start: Instant,
    list: Seq<(ConnId, u64)>,
    n: int,
    before: Map<ConnId, Conn<T>>,
    check: int,
    tcp_timeout: u64,
    late: Seq<ConnId>,
) -> bool {
    &&& late.no_duplicates()
    &&& forall|id: ConnId| #[trigger]
        late.contains(id) <==> before.contains_key(id) && listed(
            list,
            n,
            id,
            before[id].scheduled_expiry,
        ) && swept_for(start, before[id], check, tcp_timeout) is RecoverGaps
}

/// Deals with the entries of a bucket that has come round, and returns those that are to
/// be filed again.
fn sweep_list<T: Trackable>(
    start: Instant,
    list: &VecDeque<(ConnId, u64)>,
    table: &mut ConnTable<T>,
    check: u64,
    tcp_timeout: u64,
    closed: &mut Vec<Closed>,
    timeouts: &mut Vec<ConnId>,
) -> (requeue: Vec<(ConnId, u64)>)
    requires
        old(table).wf(),
        deadlines_fit(start, old(table)@, tcp_timeout),
    ensures
        final(table).wf(),
        deadlines_fit(start, final(table)@, tcp_timeout),
        requeue@.len() <= list@.len(),
        old(closed)@.is_prefix_of(final(closed)@),
        lists_removed(final(closed)@.skip(old(closed)@.len() as int), old(table)@, final(table)@),
        list_swept(
            start,
            list@,
            list@.len() as int,
            old(table)@,
            check as int,
            tcp_timeout,
            final(table)@,
            requeue@,
            final(closed)@.skip(old(closed)@.len() as int),
        ),
        old(timeouts)@.is_prefix_of(final(timeouts)@),
        list_timeouts(
            start,
            list@,
            list@.len() as int,
            old(table)@,
            check as int,
            tcp_timeout,
            final(timeouts)@.skip(old(timeouts)@.len() as int),
        ),
{
    let mut requeue: Vec<(ConnId, u64)> = Vec::new();
    let ghost before = table@;
    let ghost n0 = closed@.len() as int;
    let ghost closed_before = closed@;
    let mut i: usize = 0;
    assert(closed@.skip(n0) =~= Seq::empty());
    let ghost timeouts_before = timeouts@;
    let ghost m0 = timeouts@.len() as int;
    assert(timeouts@.skip(m0) =~= Seq::empty());
    while i < list.len()
        invariant
            i <= list@.len(),
            n0 == closed_before.len(),
            requeue@.len() <= i,
            table.wf(),
            deadlines_fit(start, before, tcp_timeout),
            deadlines_fit(start, table@, tcp_timeout),
            closed_before.is_prefix_of(closed@),
            lists_removed(closed@.skip(n0), before, table@),
            list_swept(
                start,
                list@,
                i as int,
                before,
                check as int,
                tcp_timeout,
                table@,
                requeue@,
                closed@.skip(n0),
            ),
            m0 == timeouts_before.len(),
            timeouts_before.is_prefix_of(timeouts@),
            list_timeouts(
                start,
                list@,
                i as int,
                before,
                check as int,
                tcp_timeout,
                timeouts@.skip(m0),
            ),
        decreases list@.len() - i,
    {
        let (id, deadline) = list[i];
        let ghost t0 = table@;
        let ghost closed0 = closed@;
        let ghost requeue0 = requeue@;
        let ghost timeouts0 = timeouts@;
        sweep_entry(
            start,
            id,
            deadline,
            table,
            check,
            tcp_timeout,
            &mut requeue,
            closed,
            timeouts,
        );
        i = i + 1;
        proof {
            let late = timeouts@.skip(timeouts0.len() as int);
            assert(timeouts@.skip(m0) =~= timeouts0.skip(m0) + late);
            assert forall|x: ConnId| #[trigger] late.contains(x) <==> before.contains_key(x)
                && swept_for(start, before[x], check as int, tcp_timeout) is RecoverGaps && listed(
                list@,
                i as int,
                x,
                before[x].scheduled_expiry,
            ) && !listed(list@, i - 1, x, before[x].scheduled_expiry) by {
                if before.contains_key(x) {
                    lemma_listed_next(list@, i - 1, x, before[x].scheduled_expiry);
                    if listed(list@, i - 1, x, before[x].scheduled_expiry) && t0.contains_key(x) {
                        lemma_stays_once(start, before[x], check as int, tcp_timeout, t0[x]);
                    }
                }
                if late.len() > 0 {
                    assert(late[0] == id);
                }
            }
            lemma_timeouts_concat(timeouts0.skip(m0), late);
            assert forall|x: ConnId| #[trigger]
                timeouts@.skip(m0).contains(x) <==> before.contains_key(x) && listed(
                list@,
                i as int,
                x,
                before[x].scheduled_expiry,
            ) && swept_for(start, before[x], check as int, tcp_timeout) is RecoverGaps by {
                lemma_member_of_concat(timeouts0.skip(m0), late, x);
                if before.contains_key(x) {
                    lemma_listed_next(list@, i - 1, x, before[x].scheduled_expiry);
                }
            }
            let more = closed@.skip(closed0.len() as int);
            lemma_removed_concat(closed0.skip(n0), more, before, t0, table@);
            assert(closed@.skip(n0) =~= closed0.skip(n0) + more);
            assert forall|x: ConnId| #[trigger] before.contains_key(x) implies if listed(
                list@,
                i as int,
                x,
                before[x].scheduled_expiry,
            ) {
                &&& dealt_with(
                    start,
                    x,
                    before[x],
                    check as int,
                    tcp_timeout,
                    table@,
                    closed@.skip(n0),
                )
                &&& table@.contains_key(x) ==> requeue@.contains((x, table@[x].scheduled_expiry))
            } else {
                table@.contains_key(x) && table@[x] == before[x]
            } by {
                let d = before[x].scheduled_expiry;
                assert(list@[i - 1] == (id, deadline));
                lemma_closed_grows(
                    start,
                    x,
                    before[x],
                    check as int,
                    tcp_timeout,
                    closed0.skip(n0),
                    more,
                );
                lemma_listed_next(list@, i - 1, x, d);
                if listed(list@, i - 1, x, d) {
                    if t0.contains_key(x) {
                        lemma_stays_once(start, before[x], check as int, tcp_timeout, t0[x]);
                        let k = choose|k: int|
                            0 <= k < requeue0.len() && requeue0[k] == (x, t0[x].scheduled_expiry);
                        assert(requeue@[k] == requeue0[k]);
                    }
                } else if x == id && d == deadline {
                    if table@.contains_key(x) {
                        assert(requeue@[requeue0.len() as int] == (x, table@[x].scheduled_expiry));
                    }
                }
            }
        }
    }
    requeue
}

/// Deals with one entry of a bucket that has come round.
fn sweep_entry<T: Trackable>(
    start: Instant,
    id: ConnId,
    deadline: u64,
    table: &mut ConnTable<T>,
    check: u64,
    tcp_timeout: u64,
    requeue: &mut Vec<(ConnId, u64)>,
    closed: &mut Vec<Closed>,
    timeouts: &mut Vec<ConnId>,
)
    requires
        old(table).wf(),
        deadlines_fit(start, old(table)@, tcp_timeout),
    ensures
        final(table).wf(),
        deadlines_fit(start, final(table)@, tcp_timeout),
        old(closed)@.is_prefix_of(final(closed)@),
        old(requeue)@.is_prefix_of(final(requeue)@),
        final(requeue)@.len() <= old(requeue)@.len() + 1,
        lists_removed(final(closed)@.skip(old(closed)@.len() as int), old(table)@, final(table)@),
        forall|x: ConnId|
            x != id ==> (#[trigger] final(table)@.contains_key(x) == old(table)@.contains_key(x))
                && final(table)@[x] == old(table)@[x],
        final(timeouts)@.skip(old(timeouts)@.len() as int) == (if old(table)@.contains_key(id)
            && old(table)@[id].scheduled_expiry == deadline && swept_for(
            start,
            old(table)@[id],
            check as int,
            tcp_timeout,
        ) is RecoverGaps {
            seq![id]
        } else {
            Seq::empty()
        }),
        old(timeouts)@.is_prefix_of(final(timeouts)@),
        if old(table)@.contains_key(id) && old(table)@[id].scheduled_expiry == deadline {
            &&& dealt_with(
                start,
                id,
                old(table)@[id],
                check as int,
                tcp_timeout,
                final(table)@,
                final(closed)@.skip(old(closed)@.len() as int),
            )
            &&& final(table)@.contains_key(id) ==> final(requeue)@ == old(requeue)@.push(
                (id, final(table)@[id].scheduled_expiry),
            )
        } else {
            final(table)@ == old(table)@
        },
{
    let ghost t0 = table@;
    let ghost c0 = closed@;
    let mut remove: Option<Option<bool>> = None;
    match table.get_mut(id) {
        Some(conn) => {
            let ghost conn0 = *conn;
            let last_seen: u64 = conn.last_seen_ts.duration_since(start).as_millis();
            assert(t0.contains_key(id));
            match sweep_decision(
                deadline,
                conn.scheduled_expiry,
                last_seen,
                conn.inactivity_window,
                conn.has_pending_gap(),
                check,
                tcp_timeout,
            ) {
                Sweep::Superseded => {},
                Sweep::Requeue(expire_time) => {
                    conn.scheduled_expiry = expire_time;
                    requeue.push((id, expire_time));
                },
                Sweep::RecoverGaps => {
                    timeouts.push(id);
                    conn.recover_gaps();
                    let ghost mid = *conn;
                    assert(gaps_given_up(conn0, mid));
                    match recovery_decision(
                        conn.remove_from_table(),
                        conn.terminated(),
                        last_seen,
                        tcp_timeout,
                    ) {
                        Recovered::Remove => {
                            remove = Some(None);
                        },
                        Recovered::Terminate => {
                            let delivered = conn.terminate();
                            assert(terminated_as(mid, delivered, *conn));
                            remove = Some(Some(delivered));
                        },
                        Recovered::Requeue(expire_time) => {
                            conn.inactivity_window = tcp_timeout;
                            conn.scheduled_expiry = expire_time;
                            requeue.push((id, expire_time));
                        },
                    }
                },
                Sweep::Expire => {
                    let delivered = conn.terminate();
                    assert(terminated_as(conn0, delivered, *conn));
                    remove = Some(Some(delivered));
                },
            }
        },
        None => {},
    }
    let ghost late = timeouts@.skip(old(timeouts)@.len() as int);
    assert(late =~= Seq::empty() || late =~= seq![id]);
    match remove {
        Some(delivered) => {
            let _ = table.remove(id);
            closed.push(Closed { id, delivered });
            assert(closed@.skip(c0.len() as int) =~= seq![Closed { id, delivered }]);
            assert(seq![Closed { id, delivered }][0].id == id);
        },
        None => {
            assert(closed@.skip(c0.len() as int) =~= Seq::empty());
            proof {
                if !t0.contains_key(id) || t0[id].scheduled_expiry != deadline {
                    assert(table@ =~= t0);
                }
            }
        },
    }
}

} // verus!
