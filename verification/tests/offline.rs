//! Replay of captures.

use iris::runtime::offline::{capture_ts, replay_instant, Replay};
use iris::stats::ledger::PacketLedger;
use iris::time::{Duration, Instant};

#[test]
fn capture_ts_converts_seconds_and_micros() {
    let (tv_sec, tv_usec) = (5, 250_000);
    assert_eq!(capture_ts(tv_sec, tv_usec), Duration::from_millis(5250));
}

#[test]
fn capture_ts_clamps_negative() {
    let (tv_sec, tv_usec) = (-1, -1);
    assert_eq!(capture_ts(tv_sec, tv_usec), Duration::from_nanos(0));
}

#[test]
fn replay_instant_offsets_from_first_frame() {
    let base = Instant::from_nanos(7_000_000_000);
    let first = Duration::from_secs(1_700_000_000);
    let ts = Duration::from_nanos(first.nanos + Duration::from_millis(4200).nanos);
    assert_eq!(
        replay_instant(base, first, ts),
        Instant::from_nanos(base.nanos + Duration::from_millis(4200).nanos)
    );
}

#[test]
fn replay_instant_never_precedes_base() {
    let base = Instant::from_nanos(7_000_000_000);
    let first = Duration::from_secs(1_700_000_000);
    let ts = Duration::from_nanos(first.nanos - Duration::from_secs(3).nanos);
    assert_eq!(replay_instant(base, first, ts), base);
}

#[test]
fn frames_are_stamped_from_the_first_one_on() {
    let mut r = Replay::new(Instant::from_nanos(1000));
    assert_eq!(r.stamp(Duration::from_nanos(50)), Instant::from_nanos(1000));
    assert_eq!(r.stamp(Duration::from_nanos(80)), Instant::from_nanos(1030));
    assert_eq!(r.stamp(Duration::from_nanos(20)), Instant::from_nanos(1000));
}

#[test]
fn frames_longer_than_the_mtu_are_passed_over() {
    let mut r = Replay::new(Instant::from_nanos(0));
    let mut ledger = PacketLedger::default();
    assert!(!r.take_frame(1501, 1500, 1501, &mut ledger));
    assert!(r.take_frame(1500, 1500, 1500, &mut ledger));
    assert_eq!((r.nb_pkts, r.nb_bytes), (1, 1500));
    assert_eq!((ledger.received.pkts, ledger.received.bytes), (1, 1500));
}
