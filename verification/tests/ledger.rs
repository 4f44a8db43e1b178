//! Packet accounting.

use iris::stats::ledger::{
    packet_ledger, record, record_conn_closed, record_new_conn, Outcome, PacketLedger, Tally,
};

fn tally(pkts: u64, bytes: u64) -> Tally {
    Tally { pkts, bytes }
}

#[test]
fn buckets_partition_received() {
    let ledger = PacketLedger {
        received: tally(10, 1000),
        ignored_by_packet_filter: tally(1, 100),
        not_transport: tally(2, 200),
        dropped_no_syn: tally(3, 300),
        tracked_tcp: tally(4, 400),
        ..Default::default()
    };
    assert_eq!(ledger.dropped(), tally(6, 600));
    assert_eq!(ledger.tracked_total(), tally(4, 400));
    assert_eq!(ledger.unaccounted(), 0);
}

#[test]
fn unaccounted_is_signed() {
    let ledger = PacketLedger {
        received: tally(1, 100),
        tracked_udp: tally(2, 250),
        ..Default::default()
    };
    assert_eq!(ledger.unaccounted(), -150);
}

#[test]
fn merge_sums_every_bucket() {
    let mut a = PacketLedger {
        received: tally(1, 10),
        tracked_tcp: tally(1, 10),
        new_tcp_conns: 1,
        ..Default::default()
    };
    let b = PacketLedger {
        received: tally(2, 20),
        tracked_udp: tally(2, 20),
        new_udp_conns: 3,
        ..Default::default()
    };
    a.merge(b);
    assert_eq!(a.received, tally(3, 30));
    assert_eq!(a.tracked_total(), tally(3, 30));
    assert_eq!(a.new_tcp_conns, 1);
    assert_eq!(a.new_udp_conns, 3);
    assert_eq!(a.unaccounted(), 0);
}

#[test]
fn recording_accumulates_on_this_thread() {
    let mut ledger = PacketLedger::default();
    let before = packet_ledger(&ledger);
    record(&mut ledger, Outcome::Received, 64);
    record(&mut ledger, Outcome::DroppedNoSyn, 64);
    record_new_conn(&mut ledger, true);
    let after = packet_ledger(&ledger);
    assert_eq!(after.received.bytes - before.received.bytes, 64);
    assert_eq!(after.dropped_no_syn.pkts - before.dropped_no_syn.pkts, 1);
    assert_eq!(after.new_tcp_conns - before.new_tcp_conns, 1);
}

#[test]
fn connections_are_counted_as_they_come_and_go() {
    let mut ledger = PacketLedger::default();
    record_new_conn(&mut ledger, false);
    record_conn_closed(&mut ledger, true);
    record_conn_closed(&mut ledger, false);
    record_conn_closed(&mut ledger, false);
    assert_eq!(ledger.new_udp_conns, 1);
    assert_eq!((ledger.conns_terminated, ledger.conns_discarded), (1, 2));
}
