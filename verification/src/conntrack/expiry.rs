//! When connections expire, in terms of when they were last seen.

use crate::conntrack::conn_info::{
    ended, packet_seen, transitioned, AppCall, ConnInfo, Trackable,
};
use crate::conntrack::conn_state::{LayerState, StateTransition};
use crate::conntrack::pdu::L4Pdu;
use crate::conntrack::timerwheel::{
    bucket_index, check_time, comes_round, millis_between, slot_of, sweep, Sweep, TimerWheel,
};
use crate::time::Instant;
use vstd::arithmetic::div_mod::lemma_fundamental_div_mod;
use vstd::prelude::*;

verus! {

proof fn lemma_same_slot(a: int, b: int, n: int)
    requires
        n > 0,
        a <= b < a + n,
        a % n == b % n,
    ensures
        a == b,
{
    lemma_fundamental_div_mod(a, n);
    lemma_fundamental_div_mod(b, n);
    let q = b / n - a / n;
    assert(b - a == n * q) by (nonlinear_arith)
        requires
            b == n * (b / n) + b % n,
            a == n * (a / n) + a % n,
            a % n == b % n,
            q == b / n - a / n,
    ;
    assert(q == 0) by (nonlinear_arith)
        requires
            0 <= n * q < n,
            n > 0,
    ;
}

/// An entry comes round with the bucket of its deadline: not before, as long as the deadline
/// lies within one turn of the wheel, and at the latest once that bucket has passed.
pub proof fn law_entries_come_round_in_time(w: TimerWheel, deadline: u64, to: int)
    requires
        w.wf(),
        w.next_bucket <= deadline / w.period,
    ensures
        to > deadline / w.period ==> comes_round(w, to, deadline),
        to <= deadline / w.period && deadline / w.period < w.next_bucket + w.timers@.len()
            ==> !comes_round(w, to, deadline),
{
    let d = (deadline / w.period) as int;
    let n = w.timers@.len() as int;
    if to > d {
        assert(slot_of(w, d) == bucket_index(w, deadline));
    }
    if to <= d && d < w.next_bucket + n && comes_round(w, to, deadline) {
        let b = choose|b: int|
            w.next_bucket <= b < to && #[trigger] slot_of(w, b) == bucket_index(w, deadline);
        lemma_same_slot(b, d, n);
    }
}

/// A check measures against a point in time that has come, and less than a period ago.
pub proof fn law_checks_measure_against_the_past(w: TimerWheel, now: Instant)
    requires
        w.wf(),
    ensures
        check_time(w, now) <= millis_between(w.start_ts, now) < check_time(w, now) + w.period,
{
    let m = millis_between(w.start_ts, now);
    let p = w.period as int;
    lemma_fundamental_div_mod(m, p);
    assert((m / p) * p == p * (m / p)) by (nonlinear_arith);
}

/// A connection never expires before it has been inactive for its window, and one whose
/// deadline was for a gap never before the normal timeout; one that was seen since is filed
/// under a deadline that has not passed.
pub proof fn law_expiry_is_never_early(
    w: TimerWheel,
    now: Instant,
    deadline: u64,
    scheduled: u64,
    last_seen: Instant,
    window: u64,
    gap_pending: bool,
    tcp_timeout: u64,
)
    requires
        w.wf(),
        millis_between(w.start_ts, last_seen) + window <= u64::MAX,
    ensures
        ({
            let seen = millis_between(w.start_ts, last_seen);
            let s = sweep(
                deadline,
                scheduled,
                seen,
                window,
                gap_pending,
                check_time(w, now),
                tcp_timeout,
            );
            let idle = millis_between(w.start_ts, now) - seen;
            &&& s == Sweep::Expire ==> idle > window && (gap_pending ==> idle > tcp_timeout)
            &&& s == Sweep::RecoverGaps ==> gap_pending && idle > window
            &&& s matches Sweep::Requeue(next) ==> next == seen + window && next >= check_time(
                w,
                now,
            )
            &&& s == Sweep::Superseded <==> deadline != scheduled
        }),
{
    law_checks_measure_against_the_past(w, now);
}

/// A connection that has been inactive for its window, and for the period of a check, expires
/// as soon as its entry comes round, unless it waits for a gap.
pub proof fn law_expiry_is_not_late(
    w: TimerWheel,
    now: Instant,
    deadline: u64,
    last_seen: Instant,
    window: u64,
    tcp_timeout: u64,
)
    requires
        w.wf(),
        millis_between(w.start_ts, now) - millis_between(w.start_ts, last_seen) > window
            + w.period,
    ensures
        sweep(
            deadline,
            deadline,
            millis_between(w.start_ts, last_seen),
            window,
            false,
            check_time(w, now),
            tcp_timeout,
        ) == Sweep::Expire,
{
    law_checks_measure_against_the_past(w, now);
}

/// A transition drops a connection only if neither the transport layer nor a layer above has
/// anything left to do, and a bare packet or the first one never does.
pub proof fn law_connections_are_dropped_when_idle<T: Trackable>(
    before: ConnInfo<T>,
    tx: StateTransition,
    after: ConnInfo<T>,
)
    requires
        transitioned(before, tx, after),
        before.state != LayerState::Dropped,
        after.state == LayerState::Dropped,
    ensures
        tx != StateTransition::Packet && tx != StateTransition::L4FirstPacket,
        exists|app: T| #[trigger]
            call_ensures(T::l4_done, (&app,), true) && call_ensures(T::layers_done, (&app,), true),
        call_ensures(T::skip_tx, (&before.app, tx), false),
{
}

/// A reassembled segment is offered to those who ask for the stream, and a packet as it
/// arrived to those who ask for packets: who refuses is left alone.
pub proof fn law_packets_go_to_those_who_ask<T: Trackable>(
    before: ConnInfo<T>,
    pdu: L4Pdu,
    after: ConnInfo<T>,
)
    requires
        packet_seen(before, pdu, after),
        after != before,
    ensures
        pdu.ctxt.reassembled ==> call_ensures(T::needs_parse, (&before.app,), true) && exists|
            refresh: bool,
            app: T,
        | #[trigger]
            T::step(before.app, AppCall::Update(pdu, StateTransition::InL4Stream, refresh), app),
        !pdu.ctxt.reassembled ==> call_ensures(T::needs_update, (&before.app,), true) && exists|
            refresh: bool,
            app: T,
        | #[trigger]
            T::step(before.app, AppCall::Update(pdu, StateTransition::InL4Conn, refresh), app),
{
}

/// The end of a connection is not delivered only where the connection was dropped.
pub proof fn law_end_is_delivered_unless_dropped<T: Trackable>(
    before: ConnInfo<T>,
    delivered: bool,
    after: ConnInfo<T>,
)
    requires
        ended(before, delivered, after),
    ensures
        !delivered ==> after.state == LayerState::Dropped,
{
}

} // verus!
