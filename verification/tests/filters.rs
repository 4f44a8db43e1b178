//! Hardware rules, drop rules, callbacks and packet accounting.

use iris::conntrack::conn_state::StateTransition;
use iris::conntrack::pdu::{FiveTuple, IpAddr, L4Context, L4Pdu, Mbuf, SocketAddr, UDP_PROTOCOL};
use iris::conntrack::tcp::TCP_PROTOCOL;
use iris::filter::flow_drop::{
    find_table, install_drop_flow, uninstall_drop_flow, DropFlowError, DropRule,
};
use iris::filter::hardware::{
    device_supported, hw_excludable, predicate_supported, probe_patterns, FlowAction,
    HardwareFilter, HardwareFilterError, Installation, RuleReply,
};
use iris::filter::pattern::{BinOp, FlatPattern, Predicate, Value};
use iris::protocols::SessionProto;
use iris::subscription::callback::{
    StatelessCallbackWrapper, StaticCallbackWrapper, StreamCallbackWrapper, StreamingCallback,
};
use iris::subscription::data::{TrackedData, TrackedDataWrapper};
use iris::subscription::TransportCounts;
use iris::text::{to_hex, to_text_or_hex};
use iris::time::Instant;

fn unary(protocol: SessionProto) -> Predicate {
    Predicate::Unary { protocol }
}

fn binary(protocol: SessionProto, field: &str, op: BinOp, value: Value) -> Predicate {
    Predicate::Binary { protocol, field: field.to_string(), op, value }
}

fn port(op: BinOp, n: u64) -> Predicate {
    binary(SessionProto::Udp, "dst_port", op, Value::Int(n))
}

fn pattern(predicates: Vec<Predicate>) -> FlatPattern {
    FlatPattern { predicates, as_str: None }
}

#[test]
fn predicates_that_rule_each_other_out_are_exclusive() {
    assert!(port(BinOp::Eq, 1).is_excl(&port(BinOp::Eq, 2)));
    assert!(port(BinOp::Eq, 1).is_excl(&port(BinOp::Ne, 1)));
    assert!(!port(BinOp::Ne, 1).is_excl(&port(BinOp::Ne, 2)));
    assert!(port(BinOp::Lt, 5).is_excl(&port(BinOp::Ge, 5)));
    assert!(!port(BinOp::Le, 5).is_excl(&port(BinOp::Ge, 5)));
    assert!(port(BinOp::Gt, 5).is_excl(&port(BinOp::Le, 5)));
    let range = |from, to| {
        binary(SessionProto::Udp, "dst_port", BinOp::In, Value::IntRange { from, to })
    };
    assert!(range(1, 5).is_excl(&range(6, 9)));
    assert!(!range(1, 6).is_excl(&range(6, 9)));
    assert!(port(BinOp::Lt, 0).is_excl(&unary(SessionProto::Tcp)));
    assert!(port(BinOp::Lt, 0).is_excl(&port(BinOp::Ne, 3)));
    assert!(unary(SessionProto::Ipv4).is_excl(&unary(SessionProto::Ipv6)));
    assert!(unary(SessionProto::Tls).is_excl(&unary(SessionProto::Ssh)));
    assert!(!unary(SessionProto::Tls).is_excl(&unary(SessionProto::Tcp)));
    let sni = |op, s: &str| binary(SessionProto::Tls, "sni", op, Value::Text(s.into()));
    assert!(sni(BinOp::Eq, "a").is_excl(&sni(BinOp::Eq, "b")));
    assert!(sni(BinOp::Eq, "a").is_excl(&sni(BinOp::Ne, "a")));
    assert!(!sni(BinOp::Re, "a").is_excl(&sni(BinOp::Eq, "b")));
    let custom = Predicate::Custom { name: "f".into() };
    assert!(!custom.is_excl(&unary(SessionProto::Tcp)));
    assert!(!custom.same(&unary(SessionProto::Tcp)) && custom.same(&custom.copy()));
}

#[test]
fn devices_support_equality_and_address_blocks() {
    let block = Value::Ipv4 { from: 0x0a000000, to: 0x0affffff };
    assert!(device_supported(&unary(SessionProto::Tcp), true));
    assert!(!device_supported(&unary(SessionProto::Tcp), false));
    assert!(!device_supported(&unary(SessionProto::Tls), true));
    assert!(device_supported(&port(BinOp::Eq, 5), true));
    assert!(!device_supported(&port(BinOp::Ne, 5), true));
    assert!(device_supported(&binary(SessionProto::Ipv4, "src_addr", BinOp::In, block), true));
    let ports = Value::IntRange { from: 1, to: 2 };
    assert!(!device_supported(&binary(SessionProto::Udp, "src_port", BinOp::In, ports), true));
    assert!(!device_supported(&Predicate::Custom { name: "f".into() }, true));
    assert!(hw_excludable(&port(BinOp::Ne, 5), true).unwrap().same(&port(BinOp::Eq, 5)));
    assert!(hw_excludable(&port(BinOp::Ne, 5), false).is_none());
    assert!(hw_excludable(&port(BinOp::Eq, 5), true).is_none());
    assert_eq!(probe_patterns(&port(BinOp::Eq, 5)).len(), 2);
    assert_eq!(probe_patterns(&unary(SessionProto::Ipv6)).len(), 1);
    assert!(predicate_supported(&vec![true, true]) && !predicate_supported(&vec![true, false]));
}

#[test]
fn rules_exclude_first_and_drop_last() {
    let filter = vec![
        pattern(vec![unary(SessionProto::Udp), port(BinOp::Ne, 1234), unary(SessionProto::Quic)]),
        pattern(vec![unary(SessionProto::Ipv4), unary(SessionProto::Tcp)]),
    ];
    let validated = vec![vec![true, true, true], vec![true, true]];
    let hw = HardwareFilter::new(&filter, &validated, &validated);
    assert_eq!(hw.patterns.len(), 3);
    // They are sorted.
    assert!(hw.patterns[0].same(&filter[1]));
    assert!(hw.patterns[1].same(&pattern(vec![unary(SessionProto::Ipv4), unary(SessionProto::Udp)])));
    assert!(hw.patterns[2].same(&pattern(vec![unary(SessionProto::Ipv6), unary(SessionProto::Udp)])));
    assert_eq!(hw.exclude_patterns.len(), 2);
    assert!(hw.exclude_patterns[0].same(&pattern(vec![
        unary(SessionProto::Ipv4),
        unary(SessionProto::Udp),
        port(BinOp::Eq, 1234),
    ])));
    let rules = hw.install();
    let kinds: Vec<(u32, FlowAction)> = rules.iter().map(|r| (r.priority, r.action)).collect();
    let (rss, jump) = (FlowAction::Rss, FlowAction::Jump(1));
    assert_eq!(kinds, vec![(0, jump), (0, jump), (1, rss), (1, rss), (1, rss), (3, jump)]);
    assert!(rules[5].pattern.is_empty());
    // A filter that matches everything needs no rules.
    let all = vec![pattern(vec![unary(SessionProto::Tls)])];
    let validated = vec![vec![true]];
    assert!(HardwareFilter::new(&all, &validated, &validated).install().is_empty());
}

#[test]
fn what_another_pattern_wants_is_not_excluded() {
    let filter = vec![
        pattern(vec![unary(SessionProto::Udp), port(BinOp::Ne, 1234)]),
        pattern(vec![unary(SessionProto::Udp), port(BinOp::Ne, 5246)]),
    ];
    let validated = vec![vec![true, true], vec![true, true]];
    let hw = HardwareFilter::new(&filter, &validated, &validated);
    assert!(hw.exclude_patterns.is_empty());
    // The two patterns are the same in hardware.
    assert_eq!(hw.patterns.len(), 2);
}

#[test]
fn redundant_patterns_are_pruned() {
    let filter = vec![
        pattern(vec![unary(SessionProto::Ipv4), unary(SessionProto::Udp), port(BinOp::Eq, 53)]),
        pattern(vec![unary(SessionProto::Udp), unary(SessionProto::Ipv4)]),
        pattern(vec![unary(SessionProto::Ipv4), unary(SessionProto::Udp)]),
    ];
    let validated = vec![vec![true; 3], vec![true; 2], vec![true; 2]];
    let hw = HardwareFilter::new(&filter, &validated, &validated);
    assert_eq!(hw.patterns.len(), 1);
    assert!(hw.patterns[0].same(&filter[2]));
}

#[test]
fn installation_stops_at_the_first_failure() {
    let filter = vec![pattern(vec![unary(SessionProto::Tcp)])];
    let validated = vec![vec![true]];
    let rules = || HardwareFilter::new(&filter, &validated, &validated).install();
    let mut i = Installation::new(rules());
    for _ in 0..3 {
        assert!(i.next_rule().is_some());
        assert!(i.report(RuleReply::Created).is_ok());
    }
    assert!(i.next_rule().is_none());
    let mut i = Installation::new(rules());
    assert!(matches!(i.report(RuleReply::NotExpressible), Err(HardwareFilterError::InvalidRule(p)) if p.predicates.len() == 2));
    assert!(matches!(
        i.report(RuleReply::NotValidated("v".into())),
        Err(HardwareFilterError::Validation { pattern, reason })
            if reason == "v" && pattern.predicates.len() == 2
    ));
    assert!(matches!(
        i.report(RuleReply::NotCreated("c".into())),
        Err(HardwareFilterError::Creation { pattern, reason })
            if reason == "c" && pattern.predicates.len() == 2
    ));
    assert_eq!(i.done, 0);
}

const A: SocketAddr = SocketAddr { ip: IpAddr::V4(1), port: 10 };
const B: SocketAddr = SocketAddr { ip: IpAddr::V4(2), port: 0x1bb };

#[test]
fn tables_are_spread_by_the_low_bits_of_the_port() {
    let t = |port, proto| {
        find_table(&FiveTuple { orig: A, resp: SocketAddr { ip: B.ip, port }, proto })
    };
    assert_eq!(t(0x1bb, TCP_PROTOCOL), 2 + 11);
    assert_eq!(t(0x1bc, UDP_PROTOCOL), 14);
    assert_eq!(t(0x1bd, TCP_PROTOCOL), 2);
    assert_eq!(t(0x1bf, TCP_PROTOCOL), 4);
    assert_eq!(t(0x1bb, 1), 2);
}

#[test]
fn drop_rules_go_both_ways_on_every_port() {
    let tuple = FiveTuple { orig: A, resp: B, proto: TCP_PROTOCOL };
    let mut install = install_drop_flow(vec![3, 4], &tuple).unwrap();
    let forward = DropRule { src: A, dst: B, proto: TCP_PROTOCOL };
    let reverse = DropRule { src: B, dst: A, proto: TCP_PROTOCOL };
    let expected = [(3, forward), (4, forward), (3, reverse), (4, reverse)];
    for (k, step) in expected.into_iter().enumerate() {
        assert_eq!(install.next_rule(), Some(step));
        assert!(install.created(Ok(100 + k as u64)).is_ok());
    }
    assert_eq!(install.next_rule(), None);
    // All of them are removed, each on its port; handles of no rule are passed over.
    let mut flows = install.flows;
    flows[1] = 0;
    let mut uninstall = uninstall_drop_flow(vec![3, 4], flows).unwrap();
    for step in [(3, 100), (3, 102), (4, 103)] {
        assert_eq!(uninstall.next_flow(), Some(step));
        assert!(uninstall.removed(Ok(())).is_ok());
    }
    assert_eq!(uninstall.next_flow(), None);
}

#[test]
fn drop_rules_fail_as_the_device_does() {
    let tuple = FiveTuple { orig: A, resp: B, proto: UDP_PROTOCOL };
    let mixed = FiveTuple { resp: SocketAddr { ip: IpAddr::V6(1), port: 1 }, ..tuple };
    assert!(matches!(
        install_drop_flow(vec![1], &mixed),
        Err(DropFlowError::MismatchedIpVersions)
    ));
    assert!(matches!(
        install_drop_flow(vec![1], &FiveTuple { proto: 1, ..tuple }),
        Err(DropFlowError::UnsupportedProtocol(1))
    ));
    let mut install = install_drop_flow(vec![7], &tuple).unwrap();
    assert!(install.created(Ok(5)).is_ok());
    assert!(matches!(
        install.created(Err("full".into())),
        Err(DropFlowError::Install { port: 7, reason }) if reason == "full"
    ));
    assert!(matches!(
        uninstall_drop_flow(vec![7], vec![5]),
        Err(DropFlowError::MismatchedLengths { ports: 1, flows: 1 })
    ));
    let mut uninstall = uninstall_drop_flow(vec![7], vec![5, 6]).unwrap();
    assert_eq!(uninstall.next_flow(), Some((7, 5)));
    assert!(matches!(
        uninstall.removed(Err("busy".into())),
        Err(DropFlowError::Uninstall { port: 7, reason }) if reason == "busy"
    ));
}

fn pdu() -> L4Pdu {
    let ctxt = L4Context {
        src: A,
        dst: B,
        proto: TCP_PROTOCOL,
        offset: 0,
        length: 0,
        seq_no: 0,
        ack_no: 0,
        flags: 0,
        reassembled: false,
        app_offset: None,
        gap_before: 0,
        stream_start_unknown: false,
    };
    L4Pdu::new(Mbuf::from_bytes(vec![]), ctxt, true, Instant::from_nanos(0))
}

struct Counter(u32);

impl StreamingCallback for Counter {
    fn new(_first_pkt: &L4Pdu) -> Counter {
        Counter(0)
    }
    fn clear(&mut self) {
        self.0 = 0;
    }
}

impl TrackedData for Counter {
    fn new(_first_pkt: &L4Pdu, _now: Instant) -> Counter {
        Counter(0)
    }
    fn clear(&mut self) {
        self.0 = 0;
    }
}

#[test]
fn callbacks_stay_unsubscribed() {
    let mut w: StreamCallbackWrapper<Counter> = StreamCallbackWrapper::new(&pdu());
    assert!(!w.is_active() && w.is_subscribed());
    w.try_set_active();
    assert!(w.is_active());
    w.callback.0 = 5;
    w.set_inactive();
    assert!(!w.is_active() && !w.is_subscribed());
    w.try_set_active();
    assert!(!w.is_active());
    let mut s = StatelessCallbackWrapper::new(&pdu());
    s.try_set_active();
    assert!(s.is_active() && s.is_subscribed());
    s.set_inactive();
    s.try_set_active();
    assert!(!s.is_active() && !s.is_subscribed());
    let mut once = StaticCallbackWrapper::new(&pdu());
    assert!(once.should_invoke());
    once.set_invoked();
    assert!(!once.should_invoke());
}

#[test]
fn expensive_data_goes_out_of_scope_unless_claimed() {
    let mut w: TrackedDataWrapper<Counter> =
        TrackedDataWrapper::new(&pdu(), Instant::from_nanos(0));
    w.data.0 = 7;
    let tx = StateTransition::L7OnDisc;
    w.set_active_until(1 << tx.as_usize());
    // Another transition changes nothing.
    w.start_state_tx(&StateTransition::L7EndHdrs);
    w.end_state_tx();
    assert!(w.is_active());
    // Claimed in the transition.
    w.start_state_tx(&tx);
    assert!(w.is_active());
    w.set_active_until(0);
    w.end_state_tx();
    assert!(w.is_active());
    assert_eq!(w.data.0, 7);
    // Not claimed.
    w.start_state_tx(&tx);
    w.end_state_tx();
    assert!(!w.is_active());
    assert_eq!(w.data.0, 0);
}

#[test]
fn packets_are_counted_by_transport_protocol() {
    let zero = TransportCounts { tcp_pkt: 0, tcp_byte: 0, udp_pkt: 0, udp_byte: 0 };
    let mut counts = zero;
    assert!(counts.process_packet(&Mbuf::from_bytes(vec![0; 60])).is_none());
    assert_eq!(counts, zero);
    let mut udp = vec![0u8; 12];
    udp.extend_from_slice(&[0x86, 0xdd]);
    udp.extend_from_slice(&[0x60, 0, 0, 0, 0, 9, 17, 64]);
    udp.extend_from_slice(&[0; 32]);
    udp.extend_from_slice(&[0, 53, 0, 54, 0, 9, 0, 0, 1]);
    let len = udp.len() as u64;
    let ctxt = counts.process_packet(&Mbuf::from_bytes(udp)).unwrap();
    assert_eq!((ctxt.src.port, ctxt.dst.port, ctxt.length), (53, 54, 1));
    assert_eq!(counts, TransportCounts { udp_pkt: 1, udp_byte: len, ..zero });
}

#[test]
fn bytes_are_shown_as_text_or_in_hexadecimal() {
    assert_eq!(to_hex(&[0x00, 0xab, 0x7f]), "00ab7f");
    assert_eq!(to_text_or_hex("h2".as_bytes()), "h2");
    assert_eq!(to_text_or_hex(&[0xff, 0x01]), "<Invalid UTF-8: ff01>");
}
