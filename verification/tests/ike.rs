//! IKE parser.

use iris::protocols::ike::{
    classify_probe, parse_ike_header, strip_non_esp_marker, Ike, IkeExchangeType, IkeParser,
    FLAG_INITIATOR, IKE_HEADER_LEN,
};
use iris::protocols::{ParseResult, ParsingState, ProbeResult};

fn build_header(
    initiator_spi: [u8; 8],
    responder_spi: [u8; 8],
    version: u8,
    exchange_type: u8,
    flags: u8,
    message_id: u32,
    length: u32,
) -> Vec<u8> {
    let mut data = Vec::with_capacity(IKE_HEADER_LEN);
    data.extend_from_slice(&initiator_spi);
    data.extend_from_slice(&responder_spi);
    data.push(0); // next payload
    data.push(version);
    data.push(exchange_type);
    data.push(flags);
    data.extend_from_slice(&message_id.to_be_bytes());
    data.extend_from_slice(&length.to_be_bytes());
    data
}

fn ike_sa_init_header() -> Vec<u8> {
    build_header(
        [1, 2, 3, 4, 5, 6, 7, 8],
        [0; 8],
        0x20,
        34, // IKE_SA_INIT
        FLAG_INITIATOR,
        0,
        IKE_HEADER_LEN as u32,
    )
}

#[test]
fn parses_ike_sa_init_header_fields() {
    let data = ike_sa_init_header();
    let fields = parse_ike_header(&data).expect("valid header");
    assert_eq!(fields.initiator_spi, [1, 2, 3, 4, 5, 6, 7, 8]);
    assert_eq!(fields.responder_spi, [0; 8]);
    assert_eq!(fields.version_major, 2);
    assert_eq!(fields.version_minor, 0);
    assert_eq!(fields.exchange_type, 34);
    assert!(fields.is_initiator);
    assert!(!fields.is_response);
    assert_eq!(fields.message_id, 0);
    assert_eq!(fields.length, IKE_HEADER_LEN as u32);
}

#[test]
fn rejects_truncated_header() {
    let data = ike_sa_init_header();
    assert!(parse_ike_header(&data[..IKE_HEADER_LEN - 1]).is_none());
}

#[test]
fn rejects_bad_version_nibble() {
    let data = build_header([0; 8], [0; 8], 0x50, 34, 0, 0, IKE_HEADER_LEN as u32);
    assert!(parse_ike_header(&data).is_none());
}

#[test]
fn rejects_wildly_inconsistent_length() {
    let data = build_header([0; 8], [0; 8], 0x20, 34, 0, 0, 5);
    assert!(parse_ike_header(&data).is_none());
}

#[test]
fn strips_non_esp_marker_on_nat_t_port() {
    let mut with_marker = vec![0u8; 4];
    with_marker.extend_from_slice(&ike_sa_init_header());
    let stripped = strip_non_esp_marker(&with_marker, true);
    assert_eq!(stripped, ike_sa_init_header().as_slice());
}

#[test]
fn does_not_strip_marker_off_standard_port() {
    let mut with_marker = vec![0u8; 4];
    with_marker.extend_from_slice(&ike_sa_init_header());
    let stripped = strip_non_esp_marker(&with_marker, false);
    assert_eq!(stripped, with_marker.as_slice());
}

#[test]
fn probe_is_certain_on_nonstandard_port_when_structurally_unambiguous() {
    let data = ike_sa_init_header();
    assert_eq!(
        classify_probe(&data, /* on_known_port */ false, false),
        ProbeResult::Certain
    );
}

#[test]
fn probe_uses_port_as_tiebreaker_for_ambiguous_header() {
    // Exchange type 5 is outside the known IKEv2 range, so this header is a
    // structural match but not "unambiguous" -- port should decide certainty.
    let data = build_header([0; 8], [0; 8], 0x10, 5, 0, 0, IKE_HEADER_LEN as u32);
    assert_eq!(
        classify_probe(&data, /* on_known_port */ true, false),
        ProbeResult::Certain
    );
    assert_eq!(
        classify_probe(&data, /* on_known_port */ false, false),
        ProbeResult::Unsure
    );
}

#[test]
fn parser_probe_rejects_structurally_invalid_header_regardless_of_port() {
    let data = build_header([0; 8], [0; 8], 0x50, 34, 0, 0, IKE_HEADER_LEN as u32);
    assert_eq!(
        classify_probe(&data, /* on_known_port */ true, false),
        ProbeResult::NotForUs
    );
}

#[test]
fn probe_strips_non_esp_marker_before_classifying() {
    let mut with_marker = vec![0u8; 4];
    with_marker.extend_from_slice(&ike_sa_init_header());
    assert_eq!(
        classify_probe(&with_marker, false, /* on_nat_t_port */ true),
        ProbeResult::Certain
    );
}

#[test]
fn session_update_tracks_header_fields() {
    let mut ike = Ike::new();
    let data = ike_sa_init_header();
    assert_eq!(ike.update(&data, false), ParseResult::HeadersDone(0));
    assert_eq!(ike.initiator_spi(), [1, 2, 3, 4, 5, 6, 7, 8]);
    assert_eq!(ike.exchange_type(), Some(IkeExchangeType::IkeSaInit));
    assert_eq!(ike.version(), (2, 0));
    assert!(ike.is_initiator());
    assert!(!ike.is_response());
}

#[test]
fn parser_session_skips_unrecognized_data() {
    let mut ike = Ike::new();
    assert_eq!(ike.update(&[0u8; 10], false), ParseResult::Skipped);
}

#[test]
fn parser_parser_reports_stop_so_conntrack_can_drop_the_parse_action() {
    let parser = IkeParser::default();
    assert!(matches!(parser.session_parsed_state(), ParsingState::Stop));
}
