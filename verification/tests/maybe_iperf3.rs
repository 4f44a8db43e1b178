//! The iperf3 heuristic.

use iris::conntrack::pdu::UDP_PROTOCOL;
use iris::conntrack::tcp::TCP_PROTOCOL;
use iris::datatypes::maybe_iperf3::{
    has_plausible_usec_field, required_tcp_matches, required_udp_matches, seq_field, MaybeIperf3,
    MAYBE_IPERF3_TCP_MIN_PKTS, MAYBE_IPERF3_TCP_WINDOW, MAYBE_IPERF3_UDP_MIN_PKTS,
    MAYBE_IPERF3_UDP_WINDOW, TCP_LARGE_SEGMENT_MIN,
};
use iris::subscription::FilterResult;

fn new_for_test(l4_proto: usize) -> MaybeIperf3 {
    MaybeIperf3 { l4_proto, seen: 0, matched: 0, last_seq: None, increasing_seen: false }
}

/// Builds a 12-byte iperf3-UDP-style payload: 4 zero bytes (`sec`,
/// irrelevant to these checks), then `usec` and `seq` big-endian.
fn udp_payload(usec: u32, seq: u32) -> Vec<u8> {
    let mut buf = vec![0u8; 4];
    buf.extend_from_slice(&usec.to_be_bytes());
    buf.extend_from_slice(&seq.to_be_bytes());
    buf
}

#[test]
fn plausible_usec_field_check() {
    assert!(has_plausible_usec_field(&udp_payload(0, 0)));
    assert!(has_plausible_usec_field(&udp_payload(999_999, 0)));
    assert!(!has_plausible_usec_field(&udp_payload(1_000_000, 0)));
    assert!(!has_plausible_usec_field(&udp_payload(u32::MAX, 0)));
    assert!(!has_plausible_usec_field(&[0u8; 11])); // too short
    assert!(!has_plausible_usec_field(&[]));
}

#[test]
fn seq_field_extracts_the_counter() {
    assert_eq!(seq_field(&udp_payload(0, 256)), 256);
    assert_eq!(seq_field(&udp_payload(0, 0)), 0);
}

#[test]
fn required_udp_matches_matches_configured_threshold() {
    // 10 * 0.8 = 8.0, so 8 of 10.
    assert_eq!(required_udp_matches(), 8);
}

#[test]
fn required_tcp_matches_matches_configured_threshold() {
    // 20 * 0.9 = 18.0, so 18 of 20.
    assert_eq!(required_tcp_matches(), 18);
}

#[test]
fn terminated_udp_drops_flows_below_the_evidence_floor() {
    let mut f = new_for_test(UDP_PROTOCOL);
    for i in 0..(MAYBE_IPERF3_UDP_MIN_PKTS - 1) {
        f.record_udp(&udp_payload(0, i as u32));
    }
    assert!(matches!(f.terminated_udp(), FilterResult::Drop));

    let mut f = new_for_test(UDP_PROTOCOL);
    for i in 0..MAYBE_IPERF3_UDP_MIN_PKTS {
        f.record_udp(&udp_payload(0, i as u32));
    }
    assert!(matches!(f.terminated_udp(), FilterResult::Accept));
}

#[test]
fn terminated_udp_applies_fraction_to_observed_packets() {
    let mut f = new_for_test(UDP_PROTOCOL);
    for i in 0..8 {
        f.record_udp(&udp_payload(0, i as u32));
    }
    for _ in 0..2 {
        f.record_udp(&udp_payload(1_000_000, 0)); // not a plausible header
    }
    // 10 seen, 8 matched, increasing -- 80% >= 80%
    assert_eq!(f.seen, 10);
    assert!(matches!(f.terminated_udp(), FilterResult::Accept));

    let mut f = new_for_test(UDP_PROTOCOL);
    for i in 0..7 {
        f.record_udp(&udp_payload(0, i as u32));
    }
    for _ in 0..3 {
        f.record_udp(&udp_payload(1_000_000, 0));
    }
    // 10 seen, 7 matched -- 70% < 80%
    assert!(matches!(f.terminated_udp(), FilterResult::Drop));
}

#[test]
fn terminated_udp_rejects_a_constant_sequence_counter() {
    // Every packet matches (100%), but the sequence counter never
    // increases -- e.g. constant zero padding coincidentally passing
    // the usec check.
    let mut f = new_for_test(UDP_PROTOCOL);
    for _ in 0..MAYBE_IPERF3_UDP_WINDOW {
        f.record_udp(&udp_payload(0, 42));
    }
    assert!(matches!(f.terminated_udp(), FilterResult::Drop));
}

#[test]
fn decide_udp_drops_once_window_exhausted_on_constant_seq() {
    let mut f = new_for_test(UDP_PROTOCOL);
    let mut result = FilterResult::Continue;
    for _ in 0..MAYBE_IPERF3_UDP_WINDOW {
        f.record_udp(&udp_payload(0, 7));
        result = f.decide_udp();
    }
    assert!(matches!(result, FilterResult::Drop));
}

#[test]
fn decide_udp_accepts_once_seq_starts_increasing() {
    let mut f = new_for_test(UDP_PROTOCOL);
    for _ in 0..(required_udp_matches() - 1) {
        f.record_udp(&udp_payload(0, 5));
    }
    assert!(matches!(f.decide_udp(), FilterResult::Continue));
    f.record_udp(&udp_payload(0, 6));
    assert!(matches!(f.decide_udp(), FilterResult::Accept));
}

#[test]
fn tcp_large_segment_threshold() {
    let mut f = new_for_test(TCP_PROTOCOL);
    f.record_tcp(TCP_LARGE_SEGMENT_MIN);
    assert_eq!(f.matched, 1);

    let mut f = new_for_test(TCP_PROTOCOL);
    f.record_tcp(TCP_LARGE_SEGMENT_MIN - 1);
    assert_eq!(f.matched, 0);
}

#[test]
fn decide_tcp_drops_once_window_exhausted_below_threshold() {
    let mut f = new_for_test(TCP_PROTOCOL);
    let mut result = FilterResult::Continue;
    for i in 0..MAYBE_IPERF3_TCP_WINDOW {
        if i < 5 {
            f.record_tcp(TCP_LARGE_SEGMENT_MIN);
        } else {
            f.record_tcp(0);
        }
        result = f.decide_tcp();
    }
    assert!(matches!(result, FilterResult::Drop));
}

#[test]
fn decide_tcp_accepts_once_threshold_reached() {
    let mut f = new_for_test(TCP_PROTOCOL);
    for _ in 0..(required_tcp_matches() - 1) {
        f.record_tcp(TCP_LARGE_SEGMENT_MIN);
    }
    assert!(matches!(f.decide_tcp(), FilterResult::Continue));
    f.record_tcp(TCP_LARGE_SEGMENT_MIN);
    assert!(matches!(f.decide_tcp(), FilterResult::Accept));
}

#[test]
fn terminated_tcp_drops_flows_below_the_evidence_floor() {
    let mut f = new_for_test(TCP_PROTOCOL);
    for _ in 0..(MAYBE_IPERF3_TCP_MIN_PKTS - 1) {
        f.record_tcp(TCP_LARGE_SEGMENT_MIN);
    }
    assert!(matches!(f.terminated_tcp(), FilterResult::Drop));

    let mut f = new_for_test(TCP_PROTOCOL);
    for _ in 0..MAYBE_IPERF3_TCP_MIN_PKTS {
        f.record_tcp(TCP_LARGE_SEGMENT_MIN);
    }
    assert!(matches!(f.terminated_tcp(), FilterResult::Accept));
}

#[test]
fn terminated_dispatches_on_l4_proto() {
    // A UDP-mode connection whose evidence would fail the TCP path's
    // (looser-on-count, higher-fraction) checks and vice versa --
    // confirms `terminated()` uses the *right* path, not just any path.
    let mut udp_conn = new_for_test(UDP_PROTOCOL);
    for i in 0..MAYBE_IPERF3_UDP_MIN_PKTS {
        udp_conn.record_udp(&udp_payload(0, i as u32));
    }
    assert!(matches!(udp_conn.terminated(), FilterResult::Accept));

    let mut tcp_conn = new_for_test(TCP_PROTOCOL);
    for _ in 0..MAYBE_IPERF3_TCP_MIN_PKTS {
        tcp_conn.record_tcp(TCP_LARGE_SEGMENT_MIN);
    }
    assert!(matches!(tcp_conn.terminated(), FilterResult::Accept));
}

