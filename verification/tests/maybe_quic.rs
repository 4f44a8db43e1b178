//! The QUIC heuristic.

use iris::datatypes::maybe_quic::{
    classify, is_quic_port, MaybeQuic, Shape, MAYBE_QUIC_MIN_PKTS, MAYBE_QUIC_REQUIRED_MATCHES,
    MAYBE_QUIC_WINDOW, MIN_1RTT_DATAGRAM_LEN, QUIC_PORTS,
};
use iris::protocols::SessionProto;
use iris::subscription::FilterResult;

fn new_for_test() -> MaybeQuic {
    MaybeQuic { seen: 0, quic_like: 0, greased: 0, low5_seen: 0, saw_long_header: false }
}

/// QUIC v1 long header (Initial), first five bytes: form+fixed bits set,
/// then version `0x00000001`.
const LONG_HDR_V1: [u8; 5] = [0xc3, 0x00, 0x00, 0x00, 0x01];
/// The same long header with the fixed bit greased away (RFC 9287).
const LONG_HDR_V1_GREASED: [u8; 5] = [0x83, 0x00, 0x00, 0x00, 0x01];

/// A fixed-bit-clear short-form datagram long enough to be a greased
/// 1-RTT packet.
fn greased(first: u8) -> [u8; MIN_1RTT_DATAGRAM_LEN] {
    let mut buf = [0u8; MIN_1RTT_DATAGRAM_LEN];
    buf[0] = first;
    buf
}

#[test]
fn short_header_bit_pattern() {
    assert_eq!(classify(&[0x41, 0x00]), Shape::ShortHeader);
    assert_eq!(classify(&[0x40]), Shape::ShortHeader);
    assert_eq!(classify(&[0x7f]), Shape::ShortHeader);
    // Fixed bit clear and too short to be a 1-RTT packet.
    assert_eq!(classify(&[0x00]), Shape::Other);
    // Long header, but no room for a version field.
    assert_eq!(classify(&[0xc0]), Shape::Other);
    assert_eq!(classify(&[0x80]), Shape::Other);
    assert_eq!(classify(&[]), Shape::Other);
}

#[test]
fn long_header_matches_only_on_a_recognized_version() {
    assert_eq!(classify(&LONG_HDR_V1), Shape::LongHeader);
    // The fixed bit may be greased on a long header too; the version
    // carries the decision.
    assert_eq!(classify(&LONG_HDR_V1_GREASED), Shape::LongHeader);
    // QUIC v2 (RFC 9369).
    assert_eq!(classify(&[0xc0, 0x6b, 0x33, 0x43, 0xcf]), Shape::LongHeader);
    // RTP: version 2, and the following four bytes are not a QUIC version.
    assert_eq!(classify(&[0x80, 0x60, 0x12, 0x34, 0x56]), Shape::Other);
}

#[test]
fn version_zero_is_not_evidence_of_quic() {
    // Version Negotiation (RFC 9000 Section 6). `is_quic_version` accepts
    // it for the parser's sake, but a datagram shaped `0x?? 00 00 00 00`
    // is also a pattern length- and ID-prefixed binary formats hit by
    // accident, and it isn't evidence of a 1-RTT-bearing connection.
    assert_eq!(classify(&[0xc0, 0x00, 0x00, 0x00, 0x00]), Shape::Other);
    assert_eq!(classify(&[0x80, 0x00, 0x00, 0x00, 0x00]), Shape::Other);
}

#[test]
fn greased_short_header_needs_room_for_a_1rtt_packet() {
    assert_eq!(classify(&greased(0x08)), Shape::GreasedShortHeader);
    // One byte short of the header-protection sampling minimum.
    assert_eq!(
        classify(&greased(0x08)[..MIN_1RTT_DATAGRAM_LEN - 1]),
        Shape::Other
    );
}

#[test]
fn required_matches_derives_from_the_configured_threshold() {
    // 12 * 0.9 = 10.8, so 11 of 12 -- tolerates exactly one stray packet.
    assert_eq!(MAYBE_QUIC_REQUIRED_MATCHES, 11);
}

#[test]
fn distinct_low5_masks_out_the_header_bits() {
    // 0x40 and 0x60 are different first bytes but the same low-5 value.
    let mut f = new_for_test();
    f.record(&[0x40]);
    f.record(&[0x60]);
    assert_eq!(f.low5_seen.count_ones(), 1);
}

#[test]
fn maybe_quic_terminated_drops_flows_below_the_evidence_floor() {
    // Five distinct low-5 values, but too few packets to clear the floor.
    let mut f = new_for_test();
    for b in [0x41, 0x42, 0x43, 0x44, 0x45]
        .into_iter()
        .cycle()
        .take(MAYBE_QUIC_MIN_PKTS - 1)
    {
        f.record(&[b]);
    }
    assert!(matches!(f.terminated(), FilterResult::Drop));

    let mut f = new_for_test();
    for b in [0x41, 0x42, 0x43, 0x44, 0x45]
        .into_iter()
        .cycle()
        .take(MAYBE_QUIC_MIN_PKTS)
    {
        f.record(&[b]);
    }
    assert!(matches!(f.terminated(), FilterResult::Accept));
}

#[test]
fn maybe_quic_terminated_applies_fraction_to_observed_packets() {
    let mut f = new_for_test();
    for b in [0x41, 0x42, 0x43, 0x44, 0x45] {
        f.record(&[b]);
    }
    for _ in 0..5 {
        f.record(&[0x41]);
    }
    f.record(&[0x00]); // not a short header
                       // 11 seen, 10 matched across five distinct low-5 values -- 91% >= 90%
    assert_eq!(f.seen, 11);
    assert!(matches!(f.terminated(), FilterResult::Accept));

    let mut f = new_for_test();
    for b in [0x41, 0x42, 0x43, 0x44, 0x45] {
        f.record(&[b]);
    }
    for _ in 0..4 {
        f.record(&[0x41]);
    }
    for _ in 0..2 {
        f.record(&[0x00]);
    }
    // 11 seen, 9 matched -- 82% < 90%
    assert!(matches!(f.terminated(), FilterResult::Drop));
}

#[test]
fn terminated_rejects_a_low_entropy_first_byte() {
    // Every packet matches and the fraction is 100%, but it's the same
    // byte throughout -- the OpenVPN/TURN/bencode/GTP false-positive
    // shape this check exists to catch.
    let mut f = new_for_test();
    for _ in 0..MAYBE_QUIC_WINDOW {
        f.record(&[0x48]); // e.g. OpenVPN P_DATA_V2, key_id 0
    }
    assert!(matches!(f.terminated(), FilterResult::Drop));
}

#[test]
fn decide_drops_once_window_exhausted_on_constant_byte() {
    let mut f = new_for_test();
    let mut result = FilterResult::Continue;
    for _ in 0..MAYBE_QUIC_WINDOW {
        f.record(&[0x64]); // e.g. bencoded BitTorrent DHT message
        result = f.decide();
    }
    assert!(matches!(result, FilterResult::Drop));
}

#[test]
fn decide_accepts_once_header_entropy_is_reached() {
    let mut f = new_for_test();
    for b in [0x41, 0x42, 0x43, 0x44] {
        for _ in 0..2 {
            f.record(&[b]);
        }
    }
    for _ in 0..2 {
        f.record(&[0x41]);
    }
    // 10 seen, all matched, but only four distinct low-5 values.
    assert!(matches!(f.decide(), FilterResult::Continue));
    f.record(&[0x45]);
    // 11 seen, 11 matched, five distinct low-5 values.
    assert!(matches!(f.decide(), FilterResult::Accept));
}

#[test]
fn pinned_first_byte_protocols_are_rejected() {
    // uTP: ST_SYN (0x41) sets the fixed bit; ST_DATA (0x01) and ST_STATE
    // (0x21) don't, but their datagrams are large enough for the greased
    // bucket. All three share the same low-5 value (0x01), so the
    // entropy gate rejects the mix even though matches() alone clears
    // the bar.
    let mut f = new_for_test();
    for i in 0..MAYBE_QUIC_WINDOW {
        match i % 3 {
            0 => f.record(&[0x41]),
            1 => f.record(&greased(0x01)),
            _ => f.record(&greased(0x21)),
        }
    }
    assert_eq!(f.low5_seen.count_ones(), 1);
    assert!(matches!(f.decide(), FilterResult::Drop));

    // OpenVPN P_DATA_V2 across four key IDs: more distinct low-5 values,
    // but still one short of the threshold.
    let mut f = new_for_test();
    for b in [0x48, 0x49, 0x4a, 0x4b]
        .into_iter()
        .cycle()
        .take(MAYBE_QUIC_WINDOW)
    {
        f.record(&[b]);
    }
    assert_eq!(f.low5_seen.count_ones(), 4);
    assert!(matches!(f.decide(), FilterResult::Drop));
}

#[test]
fn turn_channeldata_mixed_with_stun_is_rejected() {
    // TURN ChannelData (0x40, fixed bit set) interleaved with STUN
    // (0x01, top two bits clear, well over the 1-RTT minimum size).
    // Low-5 values collapse to {0x00, 0x01} -- far too few.
    let mut f = new_for_test();
    let mut result = FilterResult::Continue;
    for i in 0..MAYBE_QUIC_WINDOW {
        if i % 2 == 0 {
            f.record(&[0x40]);
        } else {
            f.record(&greased(0x01));
        }
        result = f.decide();
    }
    assert_eq!(f.low5_seen.count_ones(), 2);
    assert!(matches!(result, FilterResult::Drop));
}

#[test]
fn long_headers_count_toward_the_threshold() {
    // A capture that starts mid-handshake: the first datagrams are long
    // headers. They are not scored against the
    // connection. A recognized long header also satisfies the
    // entropy gate outright, so the short headers here don't need to be
    // individually diverse.
    let mut f = new_for_test();
    for _ in 0..4 {
        f.record(&LONG_HDR_V1);
        assert!(matches!(f.decide(), FilterResult::Continue));
    }
    for b in [0x41, 0x52, 0x4a, 0x5c, 0x43, 0x50, 0x4f] {
        f.record(&[b]);
    }
    // 11 of 11 matched.
    assert!(matches!(f.decide(), FilterResult::Accept));
}

#[test]
fn a_long_header_satisfies_the_entropy_gate_on_its_own() {
    // Only one distinct low-5 value among the short-form packets, but a
    // recognized long header is independently strong enough evidence.
    let mut f = new_for_test();
    f.record(&LONG_HDR_V1);
    for _ in 0..10 {
        f.record(&[0x41]);
    }
    // 11 seen, 11 matched (1 long header + 10 identical short headers).
    assert_eq!(f.matches(), 11);
    assert!(matches!(f.decide(), FilterResult::Accept));
}

#[test]
fn a_stray_long_header_mid_stream_is_not_held_against_the_connection() {
    // Handshake packets are still interleaved after 1-RTT traffic begins; they are
    // no evidence against the connection.
    let mut f = new_for_test();
    for b in [0x41, 0x52] {
        f.record(&[b]);
    }
    f.record(&LONG_HDR_V1);
    f.record(&[0x4a]);
    f.record(&LONG_HDR_V1);
    assert!(matches!(f.decide(), FilterResult::Continue));
    for b in [0x5c, 0x43, 0x50, 0x4f, 0x48, 0x5e] {
        f.record(&[b]);
    }
    assert!(matches!(f.decide(), FilterResult::Accept));
}

#[test]
fn greased_packets_count_once_the_connection_shows_real_quic() {
    let mut f = new_for_test();
    // Alternating greased and fixed-bit-set packets, as a connection with
    // one greasing endpoint looks.
    for b in [0x41, 0x52, 0x4a, 0x5c, 0x43, 0x50] {
        f.record(&greased(0x08));
        f.record(&[b]);
    }
    // 12 seen: 6 unambiguous, 6 greased and credited.
    assert_eq!(f.seen, 12);
    assert_eq!(f.matches(), 12);
    assert!(matches!(f.decide(), FilterResult::Accept));
}

#[test]
fn greased_packets_contribute_header_entropy() {
    // A single fixed-bit-set packet, then several distinct greased ones
    // that clear the entropy check largely on their own.
    let mut f = new_for_test();
    f.record(&[0x41]);
    for b in [0x02, 0x03, 0x04, 0x05] {
        f.record(&greased(b));
    }
    for _ in 0..6 {
        f.record(&[0x41]);
    }
    // 11 seen: 7 unambiguous, 4 greased -- 11 matched, five distinct
    // low-5 values contributed mostly by the greased packets.
    assert_eq!(f.seen, 11);
    assert_eq!(f.matches(), 11);
    assert!(matches!(f.decide(), FilterResult::Accept));
}

#[test]
fn a_genuine_two_way_greasing_connection_is_accepted() {
    // Both endpoints grease per-packet: roughly half the datagrams clear
    // the fixed bit, but their low-5 bits still vary like real header
    // protection.
    let mut f = new_for_test();
    for k in 0..6u8 {
        f.record(&[0x40 | k]);
        f.record(&greased(k));
    }
    // 12 seen: 6 unambiguous, 6 greased, all credited.
    assert_eq!(f.seen, 12);
    assert_eq!(f.matches(), 12);
    assert!(matches!(f.decide(), FilterResult::Accept));
}

#[test]
fn greased_packets_alone_are_not_evidence_of_quic() {
    // STUN pins its top two bits to `00`, and its messages are well over
    // the 1-RTT minimum. Without a real QUIC packet these earn nothing --
    // and they must not satisfy the entropy check either.
    let mut f = new_for_test();
    let mut result = FilterResult::Continue;
    for b in [0x00, 0x01].into_iter().cycle().take(MAYBE_QUIC_WINDOW) {
        f.record(&greased(b));
        result = f.decide();
    }
    assert_eq!(f.greased, MAYBE_QUIC_WINDOW);
    assert_eq!(f.matches(), 0);
    assert!(!f.header_entropy_ok());
    assert!(matches!(result, FilterResult::Drop));
    assert!(matches!(f.terminated(), FilterResult::Drop));
}

#[test]
fn a_greased_opening_does_not_trigger_the_impossibility_drop() {
    // Both of the first two datagrams have the fixed bit clear -- roughly a
    // one-in-four opening for a greasing endpoint. Writing them off would
    // drop the connection here, before any short header arrives.
    let mut f = new_for_test();
    f.record(&greased(0x08));
    f.record(&greased(0x08));
    assert!(matches!(f.decide(), FilterResult::Continue));
    for b in [0x41, 0x52, 0x4a, 0x5c, 0x43, 0x50, 0x4f, 0x48, 0x5e] {
        f.record(&[b]);
    }
    // 11 seen, 9 unambiguous + 2 greased.
    assert_eq!(f.matches(), 11);
    assert!(matches!(f.decide(), FilterResult::Accept));
}

#[test]
fn maybe_quic_a_parser_identifying_the_connection_vetoes_the_heuristic() {
    let f = new_for_test();
    // Any parser claiming the connection takes it out of `MaybeQuic`'s
    // population -- not just the `quic` parser.
    for proto in [
        SessionProto::Quic,
        SessionProto::Tls,
        SessionProto::Dns,
        SessionProto::Http,
        SessionProto::Ssh,
        SessionProto::Wireguard,
        SessionProto::Ike,
    ] {
        assert!(
            matches!(f.unclaimed(&proto), FilterResult::Drop),
            "{:?} should veto",
            proto
        );
    }
    // Unclaimed: discovery still running, or every parser declined.
    for proto in [SessionProto::Probing, SessionProto::Null] {
        assert!(
            matches!(f.unclaimed(&proto), FilterResult::Continue),
            "{:?} should not veto",
            proto
        );
    }
}

#[test]
fn the_veto_leaves_an_already_matching_connection_to_its_own_verdict() {
    // The veto is a `Continue`/`Drop` decision only: it never accepts, and
    // an unclaimed connection carries on accumulating evidence.
    let mut f = new_for_test();
    for b in [0x41, 0x42, 0x43, 0x44] {
        for _ in 0..2 {
            f.record(&[b]);
        }
    }
    for _ in 0..2 {
        f.record(&[0x41]);
    }
    assert!(matches!(
        f.unclaimed(&SessionProto::Null),
        FilterResult::Continue
    ));
    f.record(&[0x45]);
    assert!(matches!(f.decide(), FilterResult::Accept));
}

#[test]
fn quic_ports_cover_h3_doq_and_the_interop_port() {
    assert!(QUIC_PORTS.contains(&443));
    assert!(QUIC_PORTS.contains(&853));
    assert!(QUIC_PORTS.contains(&4433));
    assert!(QUIC_PORTS.contains(&8443));
    assert!(!QUIC_PORTS.contains(&80));
}

#[test]
fn ports_are_looked_up() {
    assert!(QUIC_PORTS.iter().all(|p| is_quic_port(*p)));
    assert!(!is_quic_port(80));
}
