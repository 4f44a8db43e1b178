//! CAPWAP parser.

use iris::protocols::capwap::{
    classify_probe, parse_transport_header, Capwap, CapwapParser, Channel, MsgType,
    CONTROL_HEADER_LEN,
};
use iris::protocols::wireguard::WireGuard;
use iris::protocols::{ParseResult, ParsingState, ProbeResult};

/// Builds a transport header. `flags` is the raw byte for F/L/W/M/K (bits 7..3) with
/// reserved bits 2..0 left at 0. `fragment_offset` is in 8-byte units (13 bits).
fn build_transport_header(
    preamble_type: u8,
    hlen: u8,
    rid: u8,
    wbid: u8,
    t: u8,
    flags: u8,
    fragment_id: u16,
    fragment_offset: u16,
) -> Vec<u8> {
    let b0 = preamble_type & 0x0F; // version 0
    let b1 = (hlen << 3) | ((rid >> 2) & 0x07);
    let b2 = ((rid & 0x03) << 6) | ((wbid & 0x1F) << 1) | (t & 0x01);
    let b3 = flags & 0xF8;
    let frag_raw = (fragment_offset & 0x1FFF) << 3;
    let mut data = vec![b0, b1, b2, b3];
    data.extend_from_slice(&fragment_id.to_be_bytes());
    data.extend_from_slice(&frag_raw.to_be_bytes());
    data
}

fn build_control_header(
    vendor_id: u32,
    msg_type_id: u8,
    seq_num: u8,
    msg_element_length: u16,
) -> Vec<u8> {
    let msg_type_value = (vendor_id << 8) | msg_type_id as u32;
    let mut data = Vec::with_capacity(CONTROL_HEADER_LEN);
    data.extend_from_slice(&msg_type_value.to_be_bytes());
    data.push(seq_num);
    data.extend_from_slice(&msg_element_length.to_be_bytes());
    data.push(0); // flags
    data
}

const F: u8 = 0x80;
const L: u8 = 0x40;
const W: u8 = 0x20;
const M: u8 = 0x10;
const K: u8 = 0x08;

fn discovery_request() -> Vec<u8> {
    let mut data = build_transport_header(0, 2, 3, 7, 1, 0, 0x1234, 0);
    data.extend_from_slice(&build_control_header(0, 1, 5, 0));
    data
}

fn discovery_response() -> Vec<u8> {
    let mut data = build_transport_header(0, 2, 3, 7, 1, 0, 0x1234, 0);
    data.extend_from_slice(&build_control_header(0, 2, 5, 0));
    data
}

/// A Join Request -- like Discovery, a plaintext control-channel message, but (unlike
/// Discovery) one that finalizes parsing immediately, since [RFC 5415] only exempts
/// Discovery Request/Response from the DTLS-protection requirement.
fn join_request() -> Vec<u8> {
    let mut data = build_transport_header(0, 2, 3, 7, 1, 0, 0x1234, 0);
    data.extend_from_slice(&build_control_header(0, 3, 5, 0));
    data
}

/// A DTLS Handshake record (ClientHello), DTLS 1.2 -- the message that would normally
/// follow Discovery once the WTP starts securing the control channel.
fn dtls_client_hello() -> Vec<u8> {
    let mut data = build_transport_header(1, 2, 3, 7, 1, 0, 0x1234, 0);
    data.extend_from_slice(&[22, 0xFE, 0xFD]);
    data
}

#[test]
fn parses_plaintext_control_channel_join_request() {
    let data = join_request();
    let mut capwap = Capwap::new();
    assert_eq!(
        capwap.update(&data, Channel::Control),
        ParseResult::HeadersDone(0)
    );

    assert_eq!(capwap.version(), 0);
    assert_eq!(capwap.preamble_type(), 0);
    assert!(!capwap.is_dtls());
    assert_eq!(capwap.hlen(), 2);
    assert_eq!(capwap.rid(), 3);
    assert_eq!(capwap.wbid(), 7);
    assert_eq!(capwap.payload_type(), 1);
    assert_eq!(capwap.fragment_id(), 0x1234);
    assert_eq!(capwap.fragment_offset(), 0);
    assert_eq!(capwap.vendor_id(), 0);
    assert_eq!(capwap.msg_type_id(), 3);
    assert_eq!(capwap.msg_type(), MsgType::JoinRequest);
    assert_eq!(capwap.seq_num(), 5);
    assert_eq!(capwap.msg_element_length(), 0);
    assert_eq!(capwap.channel(), Channel::Control);
}

#[test]
fn discovery_request_defers_finalization() {
    let data = discovery_request();
    let mut capwap = Capwap::new();
    assert_eq!(
        capwap.update(&data, Channel::Control),
        ParseResult::Continue(0)
    );
    // Best-effort snapshot: reflects the Discovery message seen so far, even though
    // parsing hasn't finalized.
    assert_eq!(capwap.msg_type(), MsgType::DiscoveryRequest);
    assert_eq!(capwap.channel(), Channel::Control);
}

#[test]
fn discovery_response_also_defers_finalization() {
    let data = discovery_response();
    let mut capwap = Capwap::new();
    assert_eq!(
        capwap.update(&data, Channel::Control),
        ParseResult::Continue(0)
    );
    assert_eq!(capwap.msg_type(), MsgType::DiscoveryResponse);
}

#[test]
fn repeated_discovery_messages_keep_deferring() {
    let mut capwap = Capwap::new();
    assert_eq!(
        capwap.update(&discovery_request(), Channel::Control),
        ParseResult::Continue(0)
    );
    assert_eq!(
        capwap.update(&discovery_request(), Channel::Control),
        ParseResult::Continue(0)
    );
    assert_eq!(capwap.msg_type(), MsgType::DiscoveryRequest);
}

#[test]
fn discovery_then_dtls_finalizes_as_encrypted() {
    let mut capwap = Capwap::new();
    assert_eq!(
        capwap.update(&discovery_request(), Channel::Control),
        ParseResult::Continue(0)
    );
    assert!(!capwap.is_dtls());

    assert_eq!(
        capwap.update(&dtls_client_hello(), Channel::Control),
        ParseResult::HeadersDone(0)
    );
    assert!(capwap.is_dtls());
    assert_eq!(capwap.preamble_type(), 1);
}

#[test]
fn discovery_then_non_discovery_control_message_finalizes() {
    let mut capwap = Capwap::new();
    assert_eq!(
        capwap.update(&discovery_request(), Channel::Control),
        ParseResult::Continue(0)
    );
    assert_eq!(
        capwap.update(&join_request(), Channel::Control),
        ParseResult::HeadersDone(0)
    );
    assert_eq!(capwap.msg_type(), MsgType::JoinRequest);
    assert!(!capwap.is_dtls());
}

#[test]
fn discovery_on_unknown_port_defers_and_marks_control_channel() {
    let data = discovery_request();
    let mut capwap = Capwap::new();
    assert_eq!(
        capwap.update(&data, Channel::Unknown),
        ParseResult::Continue(0)
    );
    // A valid base-spec control header, even a deferred one, is enough to resolve the
    // channel to `Control`.
    assert_eq!(capwap.channel(), Channel::Control);
}

#[test]
fn parses_radio_mac_when_m_flag_set() {
    // Fixed 8 bytes + Radio MAC field (1 length byte + 6-byte MAC, padded to 8) = 16
    // bytes total -> HLEN = 4.
    let mut data = build_transport_header(0, 4, 0, 0, 0, M, 0, 0);
    data.push(6); // Radio MAC length
    data.extend_from_slice(&[0xAA, 0xBB, 0xCC, 0xDD, 0xEE, 0xFF]);
    data.push(0); // padding to 4-byte boundary

    let mut capwap = Capwap::new();
    assert_eq!(
        capwap.update(&data, Channel::Data),
        ParseResult::HeadersDone(0)
    );
    assert_eq!(
        capwap.radio_mac(),
        Some([0xAA, 0xBB, 0xCC, 0xDD, 0xEE, 0xFF].as_slice())
    );
    assert_eq!(capwap.wireless_info(), None);
}

#[test]
fn parses_radio_mac_and_wireless_info_when_m_and_w_flags_set() {
    // Fixed 8 bytes + Radio MAC (1 + 6 = 7, padded to 8) + Wireless Info (1 + 3 = 4,
    // already aligned) = 8 + 8 + 4 = 20 bytes -> HLEN = 5.
    let mut data = build_transport_header(0, 5, 0, 0, 0, M | W, 0, 0);
    data.push(6); // Radio MAC length
    data.extend_from_slice(&[0xAA, 0xBB, 0xCC, 0xDD, 0xEE, 0xFF]);
    data.push(0); // padding to 4-byte boundary
    data.push(3); // Wireless Info length
    data.extend_from_slice(&[0x01, 0x02, 0x03]);

    let mut capwap = Capwap::new();
    assert_eq!(
        capwap.update(&data, Channel::Data),
        ParseResult::HeadersDone(0)
    );
    assert_eq!(
        capwap.radio_mac(),
        Some([0xAA, 0xBB, 0xCC, 0xDD, 0xEE, 0xFF].as_slice())
    );
    assert_eq!(capwap.wireless_info(), Some([0x01, 0x02, 0x03].as_slice()));
}

#[test]
fn parses_fragment_flags() {
    let data = build_transport_header(0, 2, 0, 0, 0, F | L, 5, 10);
    let mut capwap = Capwap::new();
    assert_eq!(
        capwap.update(&data, Channel::Data),
        ParseResult::HeadersDone(0)
    );
    assert!(capwap.is_fragment());
    assert!(capwap.last_fragment());
    assert_eq!(capwap.fragment_id(), 5);
    assert_eq!(capwap.fragment_offset(), 10);
}

#[test]
fn parses_data_channel_keep_alive() {
    let data = build_transport_header(0, 2, 0, 0, 0, K, 0, 0);
    let mut capwap = Capwap::new();
    assert_eq!(
        capwap.update(&data, Channel::Data),
        ParseResult::HeadersDone(0)
    );
    assert!(capwap.keep_alive());
    assert_eq!(capwap.msg_type(), MsgType::Absent);
    assert_eq!(capwap.channel(), Channel::Data);
}

#[test]
fn rejects_radio_mac_field_running_past_hlen() {
    // HLEN=2 (8 bytes -- no room for the M-flagged Radio MAC field at all).
    let mut data = build_transport_header(0, 2, 0, 0, 0, M, 0, 0);
    data.push(6);
    data.extend_from_slice(&[0xAA, 0xBB, 0xCC, 0xDD, 0xEE, 0xFF]);
    data.push(0);
    assert!(parse_transport_header(&data).is_none());
}

#[test]
fn rejects_hlen_below_minimum() {
    let data = build_transport_header(0, 1, 0, 0, 0, 0, 0, 0);
    assert!(parse_transport_header(&data).is_none());
}

#[test]
fn rejects_hlen_extending_past_data() {
    // HLEN=3 (12 bytes) but only 8 bytes of data.
    let data = build_transport_header(0, 3, 0, 0, 0, 0, 0, 0);
    assert!(parse_transport_header(&data).is_none());
}

#[test]
fn rejects_nonzero_header_reserved_bits() {
    let mut data = build_transport_header(0, 2, 0, 0, 0, 0, 0, 0);
    data[3] |= 0x01; // set a reserved bit in byte 3
    assert!(parse_transport_header(&data).is_none());
}

#[test]
fn rejects_nonzero_fragment_reserved_bits() {
    let mut data = build_transport_header(0, 2, 0, 0, 0, 0, 0, 0);
    data[7] |= 0x01; // set a reserved bit in byte 7
    assert!(parse_transport_header(&data).is_none());
}

#[test]
fn rejects_nonzero_version() {
    let mut data = build_transport_header(0, 2, 0, 0, 0, 0, 0, 0);
    data[0] |= 0x10; // version = 1
    assert!(parse_transport_header(&data).is_none());
}

#[test]
fn probe_is_certain_off_port_for_valid_control_header() {
    let data = discovery_request();
    assert_eq!(classify_probe(&data, false, false), ProbeResult::Certain);
}

#[test]
fn probe_uses_port_as_tiebreaker_for_bare_data_channel_header() {
    let data = build_transport_header(0, 2, 0, 0, 0, K, 0, 0);
    assert_eq!(classify_probe(&data, false, false), ProbeResult::Unsure);
    assert_eq!(classify_probe(&data, false, true), ProbeResult::Certain);
}

#[test]
fn probe_rejects_structurally_invalid_header_regardless_of_port() {
    let mut data = build_transport_header(0, 2, 0, 0, 0, 0, 0, 0);
    data[0] |= 0x10; // version = 1
    assert_eq!(classify_probe(&data, true, false), ProbeResult::NotForUs);
}

#[test]
fn probe_detects_dtls_encapsulated_capwap_on_control_port() {
    let mut data = build_transport_header(1, 2, 0, 0, 0, 0, 0, 0);
    data.extend_from_slice(&[22, 0xFE, 0xFD]); // DTLS Handshake record, DTLS 1.2
    assert_eq!(classify_probe(&data, true, false), ProbeResult::Certain);
    assert_eq!(classify_probe(&data, false, false), ProbeResult::Unsure);
}

#[test]
fn session_skips_unrecognized_data() {
    let mut capwap = Capwap::new();
    assert_eq!(
        capwap.update(&[0u8; 4], Channel::Unknown),
        ParseResult::Skipped
    );
    let mut wg = WireGuard::new();
    assert_eq!(wg.update(&[9, 9, 9, 9]), ParseResult::Skipped);
}

#[test]
fn parser_reports_stop_so_conntrack_can_drop_the_parse_action() {
    let parser = CapwapParser::default();
    assert!(matches!(parser.session_parsed_state(), ParsingState::Stop));
}

#[test]
fn a_vendor_message_is_no_discovery() {
    let mut data = build_transport_header(0, 2, 3, 7, 1, 0, 0x1234, 0);
    data.extend_from_slice(&build_control_header(9, 1, 5, 0));
    let mut capwap = Capwap::new();
    assert_eq!(capwap.update(&data, Channel::Control), ParseResult::HeadersDone(0));
}
