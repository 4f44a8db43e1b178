//! Datatypes that can be subscribed to.

use iris::conntrack::pdu::{FiveTuple, IpAddr, L4Context, L4Pdu, Mbuf, SocketAddr};
use iris::conntrack::tcp::{ACK, FIN, RST, SYN, TCP_PROTOCOL};
use iris::datatypes::conn_fts::{ByteCount, ConnDuration, ConnHistory, InterArrivals, PktCount};
use iris::datatypes::cryptopan::{anonymized_bit, CryptoPAN};
use iris::datatypes::heuristic::{decide_vote, reaches_fraction};
use iris::datatypes::ranges::Ranges;
use iris::datatypes::reassembly_stats::{GapStats, ReassemblyStats};
use iris::datatypes::sessions::{SshHandshake, TlsHandshake, WireGuardMessage};
use iris::datatypes::tcp_fts::{
    Arrival, InFlightSample, LatencyInflationSample, PendingSends, QueuingDelaySample, Received,
    TcpInFlight, TcpLatencyInflation, TcpLossReorder, TcpQueuingDelay, TcpRetransmits, TcpRtt,
    TcpThroughput, TcpThroughputSample, MAX_PENDING,
};
use iris::datatypes::{FromSession, StaticData};
use iris::protocols::ssh::Ssh;
use iris::protocols::{Session, SessionData};
use iris::subscription::data::TrackedData;
use iris::subscription::FilterResult;
use iris::time::{Duration, Instant};

const A: SocketAddr = SocketAddr { ip: IpAddr::V4(1), port: 10 };
const B: SocketAddr = SocketAddr { ip: IpAddr::V4(2), port: 20 };

fn ms(n: u64) -> Instant {
    Instant::from_nanos(n * 1_000_000)
}

fn pdu(dir: bool, seq_no: u32, ack_no: u32, flags: u8, length: usize, ts: Instant) -> L4Pdu {
    let ctxt = L4Context {
        src: if dir { A } else { B },
        dst: if dir { B } else { A },
        proto: TCP_PROTOCOL,
        offset: 0,
        length,
        seq_no,
        ack_no,
        flags,
        reassembled: false,
        app_offset: None,
        gap_before: 0,
        stream_start_unknown: false,
    };
    L4Pdu::new(Mbuf::from_bytes(vec![]), ctxt, dir, ts)
}

#[test]
fn durations_run_from_the_first_to_the_last_packet() {
    let mut d = ConnDuration::new(&pdu(true, 0, 0, SYN, 0, ms(1)), ms(5));
    assert_eq!(d.duration_ms(), 0);
    d.update(&pdu(true, 0, 0, ACK, 0, ms(12)));
    assert_eq!(d.duration_ms(), 7);
    assert_eq!(d.duration(), Duration::from_millis(7));
}

#[test]
fn packets_and_bytes_are_counted_by_direction() {
    let first = pdu(true, 0, 0, SYN, 0, ms(0));
    let mut p = PktCount::new(&first, ms(0));
    let mut b = ByteCount::new(&first, ms(0));
    for (dir, length) in [(true, 10), (true, 0), (false, 7)] {
        p.update(&pdu(dir, 0, 0, ACK, length, ms(0)));
        b.update(&pdu(dir, 0, 0, ACK, length, ms(0)));
    }
    assert_eq!((p.orig(), p.resp(), p.total()), (2, 1, 3));
    assert_eq!((b.orig(), b.resp(), b.total()), (10, 7, 17));
}

#[test]
fn inter_arrivals_start_with_the_second_packet() {
    let mut a = InterArrivals::new(&pdu(true, 0, 0, SYN, 0, ms(0)), ms(1));
    a.update(&pdu(true, 0, 0, ACK, 0, ms(0)), ms(3));
    assert!(a.interarrivals_ctos.is_empty());
    a.update(&pdu(true, 0, 0, ACK, 0, ms(0)), ms(8));
    a.update(&pdu(false, 0, 0, ACK, 0, ms(0)), ms(9));
    assert_eq!(a.interarrivals_ctos, vec![Duration::from_millis(5)]);
    assert!(a.interarrivals_stoc.is_empty());
    a.clear();
    assert!(a.interarrivals_ctos.is_empty());
}

#[test]
fn history_has_each_letter_once_in_either_direction() {
    let mut h = ConnHistory::default();
    h.update(&pdu(true, 0, 0, SYN, 0, ms(0)));
    h.update(&pdu(false, 0, 0, SYN | ACK, 0, ms(0)));
    h.update(&pdu(true, 0, 0, ACK, 0, ms(0)));
    h.update(&pdu(true, 0, 0, ACK, 5, ms(0)));
    h.update(&pdu(true, 0, 0, ACK, 5, ms(0)));
    h.update(&pdu(false, 0, 0, ACK, 5, ms(0)));
    h.update(&pdu(true, 0, 0, FIN | ACK, 0, ms(0)));
    h.update(&pdu(false, 0, 0, RST, 0, ms(0)));
    assert_eq!(h.history, b"ShADdFr".to_vec());
}

#[test]
fn round_trip_times_are_smoothed() {
    let mut r = TcpRtt::new(&pdu(true, 0, 0, SYN, 0, ms(0)), ms(0));
    assert_eq!(r.min_rtt(), None);
    r.update(&pdu(true, 100, 0, ACK, 10, ms(0)));
    r.update(&pdu(false, 0, 110, ACK, 0, ms(80)));
    assert_eq!((r.srtt_us, r.rttvar_us, r.min_rtt_us), (80_000, 40_000, 80_000));
    r.update(&pdu(true, 110, 0, ACK, 10, ms(100)));
    // Does not acknowledge it yet.
    r.update(&pdu(false, 0, 119, ACK, 0, ms(110)));
    assert_eq!(r.sample_count, 1);
    r.update(&pdu(false, 0, 120, ACK, 0, ms(140)));
    assert_eq!(r.sample_count, 2);
    // (3 * 40000 + 40000) / 4 and (7 * 80000 + 40000) / 8.
    assert_eq!((r.srtt_us, r.rttvar_us), (75_000, 40_000));
    assert_eq!(r.min_rtt(), Some(Duration::from_millis(40)));
    assert_eq!(r.srtt(), Duration::from_millis(75));
    assert_eq!(r.rttvar(), Duration::from_millis(40));
}

#[test]
fn pending_sends_are_bounded() {
    let mut p = PendingSends::new();
    for k in 0..(MAX_PENDING as u32 + 5) {
        p.push(k, ms(k as u64));
    }
    assert_eq!(p.queue.len(), MAX_PENDING);
    assert_eq!(p.queue[0].0, 5);
    // Samples of less than a microsecond are left out.
    assert_eq!(p.take_acked(6, ms(6)), vec![1000]);
    assert_eq!(p.queue.len(), MAX_PENDING - 2);
}

#[test]
fn retransmits_end_at_or_before_the_highest_byte() {
    let mut r = TcpRetransmits::new(&pdu(true, 0, 0, SYN, 0, ms(0)), ms(0));
    r.update(&pdu(true, 100, 0, ACK, 10, ms(0)));
    assert_eq!(r.total(), 0);
    r.update(&pdu(true, 100, 0, ACK, 10, ms(0)));
    r.update(&pdu(true, 100, 0, ACK, 5, ms(0)));
    r.update(&pdu(true, 100, 0, ACK, 0, ms(0)));
    r.update(&pdu(true, 110, 0, ACK, 5, ms(0)));
    r.update(&pdu(false, 100, 0, ACK, 5, ms(0)));
    assert_eq!((r.orig, r.resp, r.total()), (2, 0, 2));
}

#[test]
fn bytes_in_flight_are_sampled() {
    let mut f = TcpInFlight::new(&pdu(true, 0, 0, SYN, 0, ms(0)), ms(0));
    f.update(&pdu(true, 3_000_000_000, 0, ACK, 100, ms(10)));
    assert!(f.samples.is_empty());
    f.update(&pdu(false, 0, 3_000_000_040, ACK, 0, ms(120)));
    assert_eq!(
        f.samples,
        vec![InFlightSample { elapsed_ms: 120, bytes_in_flight: 60, rwnd: 0 }]
    );
    f.clear();
    assert!(f.samples.is_empty());
}

#[test]
fn losses_and_reorderings_are_told_apart() {
    let mut l = TcpLossReorder::new(&pdu(true, 0, 0, SYN, 0, ms(0)), ms(0));
    l.update(&pdu(true, 100, 0, ACK, 10, ms(0)));
    // A gap, which is filled later.
    l.update(&pdu(true, 120, 0, ACK, 10, ms(0)));
    assert_eq!((l.loss_orig, l.reorder_orig), (0, 0));
    l.update(&pdu(true, 110, 0, ACK, 10, ms(0)));
    assert_eq!((l.loss_orig, l.reorder_orig), (0, 1));
    // All of it was received.
    l.update(&pdu(true, 105, 0, ACK, 20, ms(0)));
    assert_eq!((l.loss_orig, l.reorder_orig), (1, 1));
    // Partly new.
    l.update(&pdu(true, 125, 0, ACK, 10, ms(0)));
    assert_eq!((l.loss_orig, l.reorder_orig), (1, 2));
    assert_eq!((l.loss_resp, l.reorder_resp), (0, 0));
    l.update(&pdu(false, 7, 0, ACK, 1, ms(0)));
    l.update(&pdu(false, 7, 0, ACK, 1, ms(0)));
    assert_eq!((l.loss_resp, l.reorder_resp), (1, 0));
}

#[test]
fn received_positions_do_not_wrap() {
    let mut r = Received::new();
    assert_eq!(r.add_segment(u32::MAX - 4, 10), Arrival::Advance);
    assert_eq!(r.add_segment(5, 10), Arrival::Advance);
    assert_eq!(r.add_segment(u32::MAX - 4, 10), Arrival::Duplicate);
    assert_eq!(r.add_segment(u32::MAX - 14, 10), Arrival::Late);
}

#[test]
fn ranges_merge() {
    let mut r = Ranges::new();
    r.insert(10, 20);
    r.insert(30, 40);
    assert!(r.covers(10, 20) && r.covers(12, 13));
    assert!(!r.covers(10, 21) && !r.covers(20, 30) && !r.covers(5, 11));
    r.insert(20, 30);
    assert_eq!(r.ranges, vec![(10, 40)]);
    r.insert(0, 5);
    r.insert(50, 60);
    r.insert(4, 11);
    assert_eq!(r.ranges, vec![(0, 40), (50, 60)]);
}

#[test]
fn queuing_delay_is_what_exceeds_the_minimum() {
    let mut q = TcpQueuingDelay::new(&pdu(true, 0, 0, SYN, 0, ms(0)), ms(0));
    let mut l = TcpLatencyInflation::new(&pdu(true, 0, 0, SYN, 0, ms(0)), ms(0));
    for (seq, sent, acked) in [(0, 0, 20), (10, 30, 80), (20, 100, 110)] {
        for p in [pdu(true, seq, 0, ACK, 10, ms(sent)), pdu(false, 0, seq + 10, ACK, 0, ms(acked))] {
            q.update(&p);
            l.update(&p);
        }
    }
    let delay = |elapsed_ms, queuing_delay_us| QueuingDelaySample { elapsed_ms, queuing_delay_us };
    assert_eq!(q.samples, vec![delay(20, 0), delay(80, 30_000), delay(110, 0)]);
    let inflation =
        |elapsed_ms, inflation_permille| LatencyInflationSample { elapsed_ms, inflation_permille };
    assert_eq!(l.samples, vec![inflation(20, 1000), inflation(80, 2500), inflation(110, 1000)]);
}

#[test]
fn throughput_counts_what_acknowledgments_advance() {
    let mut t = TcpThroughput::new(&pdu(true, 0, 0, SYN, 0, ms(0)), ms(0));
    t.update(&pdu(false, 0, 1000, ACK, 0, ms(10)));
    t.update(&pdu(false, 0, 1500, ACK, 0, ms(20)));
    t.update(&pdu(false, 0, 1500, ACK, 0, ms(30)));
    t.update(&pdu(true, 0, 77, ACK, 0, ms(40)));
    t.update(&pdu(true, 0, 80, ACK, 0, ms(100)));
    t.update(&pdu(false, 0, 1600, 0, 0, ms(150)));
    assert_eq!(
        t.samples,
        vec![TcpThroughputSample { elapsed_ms: 100, bytes_acked_orig: 500, bytes_acked_resp: 3 }]
    );
}

#[test]
fn gaps_are_accounted_for_by_direction() {
    let mut s = ReassemblyStats::default();
    assert!(s.complete() && !s.start_unobserved());
    s.update(&pdu(true, 0, 0, ACK, 10, ms(0)));
    assert_eq!(s.orig, GapStats::default());
    let mut gap = pdu(true, 0, 0, ACK, 20, ms(0));
    gap.ctxt.gap_before = 300;
    s.update(&gap);
    s.update(&pdu(true, 0, 0, ACK, 5, ms(0)));
    s.update(&pdu(false, 0, 0, ACK, 9, ms(0)));
    assert_eq!((s.nb_gaps(), s.missing_bytes(), s.recovered_bytes()), (1, 300, 25));
    assert!(!s.complete() && s.resp.complete());
    let mut unknown = pdu(false, 0, 0, ACK, 1, ms(0));
    unknown.ctxt.stream_start_unknown = true;
    s.update(&unknown);
    assert!(s.start_unobserved() && !s.resp.complete());
    assert_eq!(s.recovered_bytes(), 26);
}

#[test]
fn sessions_are_delivered_to_their_own_datatype() {
    let session = Session { data: SessionData::Ssh(Box::new(Ssh::new())), id: 0 };
    assert!(SshHandshake::from_session(&session).is_some());
    assert!(TlsHandshake::from_session(&session).is_none());
    assert!(WireGuardMessage::from_session(&session).is_none());
    let tuple = <FiveTuple as StaticData>::new(&pdu(false, 0, 0, ACK, 0, ms(0)));
    assert_eq!((tuple.orig, tuple.resp), (A, B));
}

#[test]
fn votes_are_decided() {
    assert_eq!(decide_vote(3, 3, 3, 4, 3, true), FilterResult::Accept);
    assert_eq!(decide_vote(3, 3, 3, 4, 3, false), FilterResult::Continue);
    assert_eq!(decide_vote(2, 2, 4, 4, 3, true), FilterResult::Drop);
    assert_eq!(decide_vote(1, 1, 3, 4, 3, true), FilterResult::Drop);
    assert!(reaches_fraction(9, 10, 9, 10));
    assert!(!reaches_fraction(89, 99, 9, 10));
}

/// The first half is the cipher's key; the second half is encrypted to give the pad.
const KEY: [u8; 32] = [
    0x2b, 0x7e, 0x15, 0x16, 0x28, 0xae, 0xd2, 0xa6, 0xab, 0xf7, 0x15, 0x88, 0x09, 0xcf, 0x4f, 0x3c,
    0x6b, 0xc1, 0xbe, 0xe2, 0x2e, 0x40, 0x9f, 0x96, 0xe9, 0x3d, 0x7e, 0x11, 0x73, 0x93, 0x17, 0x2a,
];

#[test]
fn the_pad_is_the_encrypted_second_half_of_the_key() {
    // A known pair of plaintext and ciphertext for this key.
    assert_eq!(CryptoPAN::new(&KEY).pad, 0x3ad77bb40d7a3660a89ecaf32466ef97);
}

#[test]
fn anonymized_addresses_share_prefixes_just_as_before() {
    let c = CryptoPAN::new(&KEY);
    let anonymize = |ip: u32| match c.anonymize(IpAddr::V4(ip)) {
        IpAddr::V4(n) => n,
        IpAddr::V6(_) => panic!("kind changed"),
    };
    let addrs = [0x0a000001u32, 0x0a000002, 0x0a0000ff, 0x0aff0001, 0xc0a80101, 0];
    for a in addrs {
        for b in addrs {
            assert_eq!((a ^ b).leading_zeros(), (anonymize(a) ^ anonymize(b)).leading_zeros());
        }
    }
    assert!(addrs.iter().any(|a| anonymize(*a) != *a));
    let v6 = |ip: u128| match c.anonymize(IpAddr::V6(ip)) {
        IpAddr::V6(n) => n,
        IpAddr::V4(_) => panic!("kind changed"),
    };
    let (a, b) = (0x20010db8_00000000_00000000_00000001u128, 0x20010db8_00000000_00000000_00000100);
    assert_eq!((a ^ b).leading_zeros(), (v6(a) ^ v6(b)).leading_zeros());
    assert_ne!(v6(a), v6(b));
}

#[test]
fn five_tuples_keep_their_ports() {
    let c = CryptoPAN::new(&KEY);
    let tuple = FiveTuple { orig: A, resp: B, proto: TCP_PROTOCOL };
    let r = c.anonymize_fivetuple(&tuple);
    assert_eq!(r.orig, SocketAddr { ip: c.anonymize(A.ip), port: 10 });
    assert_eq!(r.resp, SocketAddr { ip: c.anonymize(B.ip), port: 20 });
    assert_eq!(r.proto, TCP_PROTOCOL);
    assert_eq!(anonymized_bit(&[0x80], 1), 0);
    assert_eq!(anonymized_bit(&[0x7f], 1), 1);
}
