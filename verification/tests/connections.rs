//! Connections: reassembly, state transitions, the table and the timer wheel.

use iris::conntrack::conn::{AdmissionCounts, Conn, ConnError, InitPolicy, L4Conn};
use iris::conntrack::conn_info::{after_transition, executes, packet_transition, Trackable};
use iris::conntrack::conn_state::{LayerState, StateTransition, StateTxData, StateTxOrd};
use iris::conntrack::pdu::{
    read_tcp_window, FiveTuple, IpAddr, L4Context, L4Pdu, Mbuf, PacketParseError, SocketAddr,
    UDP_PROTOCOL,
};
use iris::conntrack::reassembly::wrapping_lt;
use iris::conntrack::table::{ConnId, ConnTable};
use iris::conntrack::tcp::{ACK, FIN, PSH, RST, SYN, TCP_PROTOCOL};
use iris::conntrack::timerwheel::{
    recovery_decision, sweep_decision, Closed, Recovered, Sweep, TimerWheel,
};
use iris::protocols::{Session, SessionData, SessionProto};
use iris::time::Instant;

/// An application that asks for the reassembled stream and writes down what it is given.
struct Recorder {
    packets: Vec<(u32, usize)>,
    stream: Vec<(u32, usize, u32)>,
    transitions: Vec<StateTransition>,
    owed: Vec<StateTransition>,
    wanted: bool,
}

impl Trackable for Recorder {
    fn new(_first_pkt: &L4Pdu, _core_id: u32) -> Recorder {
        Recorder { packets: vec![], stream: vec![], transitions: vec![], owed: vec![], wanted: true }
    }
    fn needs_update(&self) -> bool {
        true
    }
    fn needs_parse(&self) -> bool {
        true
    }
    fn needs_stream(&self) -> bool {
        false
    }
    fn skip_tx(&self, _tx: StateTransition) -> bool {
        false
    }
    fn start_state_tx(&mut self, _tx: StateTransition) {}
    fn state_tx(&mut self, tx: StateTransition, _pdu: Option<&L4Pdu>) {
        self.transitions.push(tx);
    }
    fn end_state_tx(&mut self) {}
    fn l4_done(&self) -> bool {
        !self.wanted
    }
    fn layers_done(&self) -> bool {
        true
    }
    fn set_next_layer(&mut self) {}
    fn update(&mut self, pdu: &L4Pdu, tx: StateTransition) -> bool {
        if tx == StateTransition::InL4Stream {
            self.stream.push((pdu.seq_no(), pdu.length(), pdu.gap_before()));
        } else {
            self.packets.push((pdu.seq_no(), pdu.length()));
        }
        false
    }
    fn process_stream(&mut self, _pdu: &mut L4Pdu) -> StateTransition {
        StateTransition::Packet
    }
    fn needs_process(&self, _tx: StateTransition, _pdu: &L4Pdu) -> bool {
        false
    }
    fn handle_terminate(&mut self) -> Option<StateTransition> {
        self.owed.pop()
    }
    fn clear(&mut self) {
        self.stream.clear();
    }
}

const CLIENT: SocketAddr = SocketAddr { ip: IpAddr::V4(0x0a000001), port: 40_000 };
const SERVER: SocketAddr = SocketAddr { ip: IpAddr::V4(0x0a000002), port: 443 };

fn segment(dir: bool, seq_no: u32, ack_no: u32, flags: u8, length: usize, ms: u64) -> L4Pdu {
    let (src, dst) = if dir { (CLIENT, SERVER) } else { (SERVER, CLIENT) };
    let ctxt = L4Context {
        src,
        dst,
        proto: TCP_PROTOCOL,
        offset: 0,
        length,
        seq_no,
        ack_no,
        flags,
        reassembled: false,
        app_offset: None,
        gap_before: 0,
        stream_start_unknown: false,
    };
    L4Pdu::new(Mbuf::from_bytes(vec![0xab; length]), ctxt, dir, Instant::from_nanos(ms * 1_000_000))
}

/// A connection after its handshake. The client's data starts at 101, the server's at 501.
fn established() -> Conn<Recorder> {
    let mut syn = segment(true, 100, 0, SYN, 0, 0);
    let mut conn = Conn::new_tcp(1000, 3, InitPolicy::default(), &mut syn, 0, &mut AdmissionCounts::default()).unwrap();
    conn.update(syn);
    conn.update(segment(false, 500, 101, SYN | ACK, 0, 1));
    conn.update(segment(true, 101, 501, ACK, 0, 2));
    conn
}

fn id(n: u128) -> ConnId {
    (n, 1, 2, 3, TCP_PROTOCOL)
}

#[test]
fn sequence_numbers_wrap_around() {
    assert!(wrapping_lt(1, 2));
    assert!(!wrapping_lt(2, 1));
    assert!(!wrapping_lt(7, 7));
    assert!(wrapping_lt(u32::MAX, 0));
    assert!(!wrapping_lt(0, u32::MAX));
}

#[test]
fn handshake_is_dispatched_once() {
    let conn = established();
    assert_eq!(conn.info.app.transitions, vec![StateTransition::L4EndHshk]);
    assert_eq!(conn.info.state, LayerState::Payload);
}

#[test]
fn segments_out_of_order_are_delivered_in_order() {
    let mut conn = established();
    conn.info.app.stream.clear();
    conn.update(segment(true, 111, 501, ACK, 10, 3));
    assert!(conn.has_pending_gap());
    conn.update(segment(true, 101, 501, ACK, 10, 4));
    assert!(!conn.has_pending_gap());
    assert_eq!(conn.info.app.stream, vec![(101, 10, 0), (111, 10, 0)]);
    // An old segment is not delivered again.
    conn.update(segment(true, 101, 501, ACK, 10, 5));
    assert_eq!(conn.info.app.stream.len(), 2);
}

#[test]
fn a_gap_is_given_up_when_the_buffer_is_full() {
    let mut conn = established();
    conn.info.app.stream.clear();
    for k in 0..4u32 {
        conn.update(segment(true, 201 + 10 * k, 501, ACK, 10, 3));
    }
    assert_eq!(
        conn.info.app.stream,
        vec![(201, 10, 100), (211, 10, 0), (221, 10, 0), (231, 10, 0)]
    );
    assert!(!conn.has_pending_gap());
}

#[test]
fn recovery_delivers_what_is_buffered() {
    let mut conn = established();
    conn.info.app.stream.clear();
    conn.update(segment(true, 301, 501, ACK, 10, 3));
    conn.update(segment(true, 401, 501, ACK, 10, 4));
    conn.recover_gaps();
    assert_eq!(conn.info.app.stream, vec![(301, 10, 200), (401, 10, 90)]);
    assert!(!conn.has_pending_gap());
}

#[test]
fn fins_from_both_sides_end_a_connection() {
    let mut conn = established();
    conn.update(segment(true, 101, 501, FIN | ACK, 0, 3));
    assert!(!conn.terminated());
    conn.update(segment(false, 501, 102, FIN | ACK, 0, 4));
    conn.update(segment(true, 102, 502, ACK, 0, 5));
    assert!(conn.terminated());
    assert!(conn.terminate());
    assert_eq!(conn.info.app.transitions.last(), Some(&StateTransition::L4Terminated));
}

#[test]
fn a_reset_ends_a_connection() {
    let mut conn = established();
    conn.update(segment(true, 101, 501, RST, 0, 3));
    assert!(conn.terminated());
}

#[test]
fn a_dropped_connection_delivers_no_end() {
    let mut conn = established();
    conn.info.exec_drop();
    assert!(conn.remove_from_table());
    assert!(!conn.terminate());
    assert!(!conn.info.app.transitions.contains(&StateTransition::L4Terminated));
}

#[test]
fn connections_in_progress_are_adopted_by_policy_only() {
    let mut counts = AdmissionCounts::default();
    let mut data = segment(true, 900, 700, PSH | ACK, 20, 0);
    assert!(matches!(
        Conn::<Recorder>::new_tcp(1000, 3, InitPolicy::default(), &mut data, 0, &mut counts),
        Err(ConnError::NotSyn)
    ));
    let policy = InitPolicy { data: true, ..InitPolicy::default() };
    let conn = Conn::<Recorder>::new_tcp(1000, 3, policy, &mut data, 0, &mut counts).ok().unwrap();
    assert!(data.stream_start_unknown());
    assert_eq!(conn.info.state, LayerState::Payload);
    assert_eq!(counts, AdmissionCounts { dropped_pkts: 1, dropped_bytes: 20, adopted: 1 });
}

#[test]
fn a_synack_is_sent_by_the_responder() {
    let mut synack = segment(true, 500, 101, SYN | ACK, 0, 0);
    let policy = InitPolicy { synack: true, ..InitPolicy::default() };
    let conn = Conn::<Recorder>::new_tcp(1000, 3, policy, &mut synack, 0, &mut AdmissionCounts::default()).ok().unwrap();
    assert!(!synack.dir);
    assert_eq!(conn.info.five_tuple.orig, SERVER);
    assert_eq!(conn.info.five_tuple.resp, CLIENT);
}

#[test]
fn udp_connections_have_no_flows() {
    let mut pdu = segment(true, 0, 0, 0, 5, 0);
    pdu.ctxt.proto = UDP_PROTOCOL;
    let conn = Conn::<Recorder>::new_udp(1000, &pdu, 0).ok().unwrap();
    assert!(matches!(conn.l4conn, L4Conn::Udp));
    assert_eq!(conn.flow_len(true), None);
    assert_eq!(conn.total_len(), None);
    assert!(!conn.terminated());
}

#[test]
fn transitions_are_executed_unless_skipped() {
    assert!(!executes(StateTransition::Packet, false));
    assert!(!executes(StateTransition::L4FirstPacket, false));
    assert!(!executes(StateTransition::L7OnDisc, true));
    assert!(executes(StateTransition::L7OnDisc, false));
    assert_eq!(packet_transition(true, true, false), (StateTransition::InL4Stream, false));
    assert_eq!(packet_transition(false, true, false), (StateTransition::InL4Conn, true));
    assert_eq!(
        after_transition(LayerState::Headers, true, true),
        (LayerState::Dropped, false)
    );
    assert_eq!(after_transition(LayerState::Headers, true, false), (LayerState::Headers, true));
    assert_eq!(after_transition(LayerState::Headers, false, true), (LayerState::Headers, false));
}

#[test]
fn transitions_have_an_order() {
    assert_eq!(StateTransition::L4FirstPacket.compare(&StateTransition::L7OnDisc), StateTxOrd::Less);
    assert_eq!(StateTransition::L4Terminated.compare(&StateTransition::L7EndHdrs), StateTxOrd::Greater);
    assert_eq!(StateTransition::L7EndHdrs.compare(&StateTransition::L7OnDisc), StateTxOrd::Greater);
    assert_eq!(StateTransition::L4EndHshk.compare(&StateTransition::L7EndHdrs), StateTxOrd::Less);
    assert_eq!(StateTransition::InL4Conn.compare(&StateTransition::L7OnDisc), StateTxOrd::Unknown);
    assert_eq!(StateTransition::Packet.compare(&StateTransition::L7OnDisc), StateTxOrd::Any);
    assert_eq!(StateTransition::InL4Conn.compare(&StateTransition::InL4Conn), StateTxOrd::Equal);
    for i in 0..=7 {
        assert_eq!(StateTransition::from_usize(i).as_usize(), i);
        assert_eq!(StateTransition::from_str(&StateTransition::from_usize(i).to_text()), Ok(StateTransition::from_usize(i)));
    }
    assert_eq!(StateTransition::from_str("InL4Conn(reassemble)"), Ok(StateTransition::InL4Stream));
    assert_eq!(StateTransition::from_str("x"), Err("Invalid StateTransition: x".to_string()));
}

#[test]
fn transition_data_carries_what_is_known() {
    let session = Session { data: SessionData::Null, id: 0 };
    let data = StateTxData::from_tx(&StateTransition::L7OnDisc, SessionProto::Tls, &session);
    assert_eq!(data.as_usize(), StateTransition::L7OnDisc.as_usize());
}

#[test]
fn the_table_finds_what_was_inserted() {
    let mut table: ConnTable<Recorder> = ConnTable::new();
    assert!(!table.contains(id(1)));
    table.insert(id(1), established());
    table.insert(id(2), established());
    assert!(table.contains(id(1)) && table.contains(id(2)) && !table.contains(id(3)));
    assert_eq!(table.get(id(1)).unwrap().inactivity_window, established().inactivity_window);
    table.get_mut(id(1)).unwrap().inactivity_window = 77;
    assert_eq!(table.get(id(1)).unwrap().inactivity_window, 77);
    assert!(table.remove(id(3)).is_none());
    assert_eq!(table.remove(id(1)).unwrap().inactivity_window, 77);
    assert!(!table.contains(id(1)) && table.contains(id(2)));
}

#[test]
fn idle_connections_are_removed_and_active_ones_stay() {
    let start = Instant::from_nanos(0);
    let mut wheel = TimerWheel::new(10_000, 100, start);
    let mut table: ConnTable<Recorder> = ConnTable::new();
    for n in 1..=2 {
        let mut conn = established();
        conn.inactivity_window = 1000;
        let due = wheel.insert(&id(n), conn.last_seen_ts, conn.inactivity_window);
        assert_eq!(due, 1000);
        conn.scheduled_expiry = due;
        table.insert(id(n), conn);
    }
    // The second one is seen again, later.
    table.get_mut(id(2)).unwrap().last_seen_ts = Instant::from_nanos(1_500_000_000);
    let mut closed: Vec<Closed> = vec![];
    let mut timeouts: Vec<ConnId> = vec![];
    let now = Instant::from_nanos(1_600_000_000);
    assert_eq!(wheel.remove_inactive(now, &mut table, 1000, &mut closed, &mut timeouts), 1);
    assert_eq!(closed.len(), 1);
    assert_eq!(closed[0].id, id(1));
    assert_eq!(closed[0].delivered, Some(true));
    assert!(!table.contains(id(1)) && table.contains(id(2)));
    assert_eq!(table.get(id(2)).unwrap().scheduled_expiry, 2500);
    // It is removed once it has been idle, too.
    let later = Instant::from_nanos(2_700_000_000);
    wheel.check_inactive(&mut table, 1000, later, &mut closed, &mut timeouts);
    assert_eq!(closed.len(), 2);
    assert!(!table.contains(id(2)));
    // Nothing is checked again before a period has passed.
    wheel.check_inactive(&mut table, 1000, later, &mut closed, &mut timeouts);
    assert_eq!(closed.len(), 2);
}

#[test]
fn a_stalled_connection_gives_its_gap_up_and_stays() {
    let start = Instant::from_nanos(0);
    let mut wheel = TimerWheel::new(10_000, 100, start);
    let mut table: ConnTable<Recorder> = ConnTable::new();
    let mut conn = established();
    conn.info.app.stream.clear();
    conn.update(segment(true, 201, 501, ACK, 10, 3));
    conn.inactivity_window = 500;
    conn.scheduled_expiry = wheel.insert(&id(1), conn.last_seen_ts, 500);
    table.insert(id(1), conn);
    let mut closed: Vec<Closed> = vec![];
    let mut timeouts: Vec<ConnId> = vec![];
    let now = Instant::from_nanos(700_000_000);
    assert_eq!(wheel.remove_inactive(now, &mut table, 3000, &mut closed, &mut timeouts), 0);
    assert!(closed.is_empty());
    assert_eq!(timeouts, vec![id(1)]);
    let conn = table.get(id(1)).unwrap();
    if let L4Conn::Tcp(tcp) = &conn.l4conn {
        let counts = tcp.ctos.counts;
        assert_eq!((counts.gaps, counts.gap_bytes, counts.segments_after_gap), (1, 100, 1));
        assert_eq!((counts.overflows, counts.segments_dropped), (0, 0));
    }
    assert!(!conn.has_pending_gap());
    assert_eq!(conn.info.app.stream, vec![(201, 10, 100)]);
    assert_eq!((conn.inactivity_window, conn.scheduled_expiry), (3000, 3000));
    // The normal timeout applies from here on.
    let now = Instant::from_nanos(3_200_000_000);
    assert_eq!(wheel.remove_inactive(now, &mut table, 3000, &mut closed, &mut timeouts), 1);
    assert!(!table.contains(id(1)));
}

#[test]
fn the_first_packet_starts_the_filters() {
    let mut syn = segment(true, 100, 0, SYN, 0, 0);
    let mut conn = Conn::<Recorder>::new_tcp(1000, 3, InitPolicy::default(), &mut syn, 0, &mut AdmissionCounts::default()).ok().unwrap();
    conn.info.filter_first_packet(&syn);
    assert_eq!(conn.info.app.transitions, vec![StateTransition::L4FirstPacket]);
    assert_eq!(conn.info.state, LayerState::Headers);
    assert!(!conn.drop_pdu());
    assert!(conn.packet_dir(&syn.ctxt));
    assert!(!conn.packet_dir(&segment(false, 500, 101, SYN | ACK, 0, 1).ctxt));
    assert_eq!(syn.app_body_offset(), None);
    assert_eq!(syn.mbuf_own().data_len(), 0);
    conn.info.exec_drop();
    assert!(conn.drop_pdu());
}

#[test]
fn a_stalled_connection_has_the_shorter_timeout() {
    let mut conn = established();
    if let L4Conn::Tcp(tcp) = &conn.l4conn {
        assert_eq!(tcp.inactivity_timeout(3000, 500), 3000);
    }
    conn.update(segment(true, 201, 501, ACK, 10, 3));
    if let L4Conn::Tcp(tcp) = &conn.l4conn {
        assert_eq!(tcp.inactivity_timeout(3000, 500), 500);
    }
    assert_eq!(StateTransition::L4EndHshk.layer_idx(), None);
    assert_eq!(StateTransition::L7OnDisc.layer_idx(), Some(0));
}

#[test]
fn a_udp_packet_is_seen_once_as_it_arrives_and_once_in_the_stream() {
    let mut pdu = segment(true, 7, 0, 0, 5, 0);
    pdu.ctxt.proto = UDP_PROTOCOL;
    let mut conn = Conn::<Recorder>::new_udp(1000, &pdu, 0).ok().unwrap();
    conn.update(pdu);
    assert_eq!(conn.info.app.packets, vec![(7, 5)]);
    assert_eq!(conn.info.app.stream, vec![(7, 5, 0)]);
}

#[test]
fn timer_entries_are_decided_one_by_one() {
    assert_eq!(sweep_decision(5, 6, 0, 10, false, 100, 50), Sweep::Superseded);
    assert_eq!(sweep_decision(5, 5, 95, 10, false, 100, 50), Sweep::Requeue(105));
    assert_eq!(sweep_decision(5, 5, 60, 10, true, 100, 50), Sweep::RecoverGaps);
    assert_eq!(sweep_decision(5, 5, 40, 10, true, 100, 50), Sweep::Expire);
    assert_eq!(sweep_decision(5, 5, 60, 10, false, 100, 50), Sweep::Expire);
    assert_eq!(recovery_decision(true, true, 1, 2), Recovered::Remove);
    assert_eq!(recovery_decision(false, true, 1, 2), Recovered::Terminate);
    assert_eq!(recovery_decision(false, false, 1, 2), Recovered::Requeue(3));
}

/// An Ethernet frame with an IPv4 TCP packet that carries `payload`.
fn tcp_frame(payload: &[u8]) -> Vec<u8> {
    let mut f = vec![0u8; 12];
    f.extend_from_slice(&[0x08, 0x00]);
    let total = 20 + 20 + payload.len() as u16;
    f.extend_from_slice(&[0x45, 0]);
    f.extend_from_slice(&total.to_be_bytes());
    f.extend_from_slice(&[0, 0, 0x40, 0, 64, 6, 0, 0, 10, 0, 0, 1, 10, 0, 0, 2]);
    f.extend_from_slice(&[0x9c, 0x40, 0x01, 0xbb]);
    f.extend_from_slice(&7u32.to_be_bytes());
    f.extend_from_slice(&9u32.to_be_bytes());
    f.extend_from_slice(&[0x50, ACK, 0x12, 0x34, 0, 0, 0, 0]);
    f.extend_from_slice(payload);
    f
}

#[test]
fn frames_are_taken_apart() {
    let mbuf = Mbuf::from_bytes(tcp_frame(b"hello"));
    let ctxt = L4Context::new(&mbuf).unwrap();
    assert_eq!(ctxt.src, CLIENT);
    assert_eq!(ctxt.dst, SERVER);
    assert_eq!((ctxt.proto, ctxt.offset, ctxt.length), (TCP_PROTOCOL, 54, 5));
    assert_eq!((ctxt.seq_no, ctxt.ack_no, ctxt.flags), (7, 9, ACK));
    assert_eq!(mbuf.get_data_slice(ctxt.offset, ctxt.length), Ok(&b"hello"[..]));
    assert_eq!(read_tcp_window(&mbuf), Some(0x1234));
    let tuple = FiveTuple::from_ctxt(&ctxt, true);
    assert_eq!((tuple.orig, tuple.resp, tuple.proto), (CLIENT, SERVER, TCP_PROTOCOL));
    assert_eq!(FiveTuple::from_ctxt(&ctxt, false).orig, SERVER);
}

#[test]
fn vlan_tags_are_passed_over() {
    let mut f = tcp_frame(b"hello");
    let rest = f.split_off(12);
    f.extend_from_slice(&[0x81, 0x00, 0x00, 0x05]);
    f.extend_from_slice(&rest);
    let ctxt = L4Context::new(&Mbuf::from_bytes(f)).unwrap();
    assert_eq!((ctxt.offset, ctxt.length), (58, 5));
}

#[test]
fn frames_that_cannot_be_read_are_refused() {
    assert_eq!(
        L4Context::new(&Mbuf::from_bytes(vec![0; 10])),
        Err(PacketParseError::InvalidProtocol)
    );
    let mut arp = tcp_frame(b"");
    arp[13] = 0x06;
    assert_eq!(L4Context::new(&Mbuf::from_bytes(arp)), Err(PacketParseError::InvalidProtocol));
    let mut fragment = tcp_frame(b"");
    fragment[21] = 1;
    assert_eq!(
        L4Context::new(&Mbuf::from_bytes(fragment)),
        Err(PacketParseError::InvalidProtocol)
    );
    let mut short = tcp_frame(b"");
    short[17] = 30;
    assert_eq!(L4Context::new(&Mbuf::from_bytes(short)), Err(PacketParseError::InvalidRead));
    let mbuf = Mbuf::from_bytes(vec![1, 2, 3]);
    assert_eq!(mbuf.get_data_slice(1, 2), Ok(&[2u8, 3][..]));
    assert_eq!(mbuf.get_data_slice(1, 3), Err(PacketParseError::InvalidRead));
    assert_eq!(mbuf.get_data_slice(3, 0), Err(PacketParseError::InvalidRead));
}

#[test]
fn everything_that_is_owed_is_settled_before_the_end() {
    let mut conn = established();
    conn.info.app.transitions.clear();
    conn.info.app.owed = vec![StateTransition::L7EndHdrs, StateTransition::L7OnDisc];
    assert!(conn.terminate());
    assert_eq!(
        conn.info.app.transitions,
        vec![StateTransition::L7OnDisc, StateTransition::L7EndHdrs, StateTransition::L4Terminated]
    );
}

#[test]
fn a_fin_takes_up_a_sequence_number_after_its_payload() {
    let mut conn = established();
    conn.info.app.stream.clear();
    conn.update(segment(true, 101, 501, FIN | ACK, 10, 3));
    if let L4Conn::Tcp(tcp) = &conn.l4conn {
        assert_eq!(tcp.ctos.next_seq, Some(112));
    }
    // What is cut off a segment with a FIN leaves only payload.
    let mut conn = established();
    conn.info.app.stream.clear();
    conn.update(segment(true, 101, 501, ACK, 10, 3));
    conn.update(segment(true, 106, 501, FIN | ACK, 10, 4));
    assert_eq!(conn.info.app.stream, vec![(101, 10, 0), (106, 5, 0)]);
    if let L4Conn::Tcp(tcp) = &conn.l4conn {
        assert_eq!(tcp.ctos.next_seq, Some(117));
    }
}

#[test]
fn a_full_buffer_is_counted_with_what_it_drops() {
    let mut conn = established();
    for k in 0..4u32 {
        conn.update(segment(true, 201 + 100 * k, 501, ACK, 10, 3));
    }
    assert!(!conn.has_pending_gap());
    if let L4Conn::Tcp(tcp) = &conn.l4conn {
        let counts = tcp.ctos.counts;
        assert_eq!((counts.overflows, counts.segments_dropped), (1, 3));
        assert_eq!((counts.gaps, counts.gap_bytes, counts.segments_after_gap), (1, 100, 1));
        assert_eq!(tcp.stoc.counts.overflows, 0);
    }
}
