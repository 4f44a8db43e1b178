//! WireGuard parser.

use iris::protocols::wireguard::{
    classify_message, WireGuard, WireGuardMessageType, COOKIE_REPLY_LEN,
    HANDSHAKE_INITIATION_LEN, HANDSHAKE_RESPONSE_LEN, MSG_TYPE_COOKIE_REPLY,
    MSG_TYPE_HANDSHAKE_INITIATION, MSG_TYPE_HANDSHAKE_RESPONSE, MSG_TYPE_TRANSPORT_DATA,
    TRANSPORT_DATA_MIN_LEN,
};
use iris::protocols::ParseResult;

fn build_message(msg_type: u8, total_len: usize) -> Vec<u8> {
    vec![msg_type, 0, 0, 0]
        .into_iter()
        .chain(std::iter::repeat_n(0xAB, total_len.saturating_sub(4)))
        .collect()
}

#[test]
fn classifies_handshake_initiation() {
    let data = build_message(MSG_TYPE_HANDSHAKE_INITIATION, HANDSHAKE_INITIATION_LEN);
    assert_eq!(
        classify_message(&data),
        Some(WireGuardMessageType::HandshakeInitiation)
    );
}

#[test]
fn classifies_handshake_response() {
    let data = build_message(MSG_TYPE_HANDSHAKE_RESPONSE, HANDSHAKE_RESPONSE_LEN);
    assert_eq!(
        classify_message(&data),
        Some(WireGuardMessageType::HandshakeResponse)
    );
}

#[test]
fn classifies_cookie_reply() {
    let data = build_message(MSG_TYPE_COOKIE_REPLY, COOKIE_REPLY_LEN);
    assert_eq!(
        classify_message(&data),
        Some(WireGuardMessageType::CookieReply)
    );
}

#[test]
fn classifies_transport_data_at_minimum_length() {
    let data = build_message(MSG_TYPE_TRANSPORT_DATA, TRANSPORT_DATA_MIN_LEN);
    assert_eq!(
        classify_message(&data),
        Some(WireGuardMessageType::TransportData)
    );
}

#[test]
fn classifies_transport_data_with_larger_payload() {
    let data = build_message(MSG_TYPE_TRANSPORT_DATA, TRANSPORT_DATA_MIN_LEN + 1400);
    assert_eq!(
        classify_message(&data),
        Some(WireGuardMessageType::TransportData)
    );
}

#[test]
fn rejects_wrong_length_for_fixed_size_types() {
    let too_short = build_message(MSG_TYPE_HANDSHAKE_INITIATION, HANDSHAKE_INITIATION_LEN - 1);
    assert_eq!(classify_message(&too_short), None);
    let too_long = build_message(MSG_TYPE_HANDSHAKE_RESPONSE, HANDSHAKE_RESPONSE_LEN + 1);
    assert_eq!(classify_message(&too_long), None);
    let wrong = build_message(MSG_TYPE_COOKIE_REPLY, COOKIE_REPLY_LEN - 1);
    assert_eq!(classify_message(&wrong), None);
}

#[test]
fn rejects_transport_data_below_minimum_length() {
    let data = build_message(MSG_TYPE_TRANSPORT_DATA, TRANSPORT_DATA_MIN_LEN - 1);
    assert_eq!(classify_message(&data), None);
}

#[test]
fn rejects_nonzero_reserved_bytes() {
    let mut data = build_message(MSG_TYPE_HANDSHAKE_INITIATION, HANDSHAKE_INITIATION_LEN);
    data[2] = 1;
    assert_eq!(classify_message(&data), None);
}

#[test]
fn rejects_unknown_type_byte() {
    let data = build_message(5, HANDSHAKE_INITIATION_LEN);
    assert_eq!(classify_message(&data), None);
}

#[test]
fn rejects_empty_input() {
    assert_eq!(classify_message(&[]), None);
}

#[test]
fn rejects_truncated_input() {
    let data = build_message(MSG_TYPE_HANDSHAKE_INITIATION, 3);
    assert_eq!(classify_message(&data), None);
}

#[test]
fn session_tracks_handshake_then_transport_state() {
    let mut wg = WireGuard::new();

    let init = build_message(MSG_TYPE_HANDSHAKE_INITIATION, HANDSHAKE_INITIATION_LEN);
    assert_eq!(wg.update(&init), ParseResult::Continue(0));
    assert!(wg.handshake_initiation_seen);
    assert!(!wg.handshake_complete());

    let resp = build_message(MSG_TYPE_HANDSHAKE_RESPONSE, HANDSHAKE_RESPONSE_LEN);
    assert_eq!(wg.update(&resp), ParseResult::HeadersDone(0));
    assert!(wg.handshake_complete());

    let data = build_message(MSG_TYPE_TRANSPORT_DATA, TRANSPORT_DATA_MIN_LEN);
    assert_eq!(wg.update(&data), ParseResult::Continue(0));
    assert_eq!(wg.transport_data_count, 1);
    assert_eq!(wg.message_type(), Some(WireGuardMessageType::TransportData));
}

#[test]
fn session_marks_headers_done_on_first_transport_data_without_handshake() {
    let mut wg = WireGuard::new();
    let data = build_message(MSG_TYPE_TRANSPORT_DATA, TRANSPORT_DATA_MIN_LEN);
    assert_eq!(wg.update(&data), ParseResult::HeadersDone(0));
}

#[test]
fn wireguard_session_skips_unrecognized_data() {
    let mut wg = WireGuard::new();
    assert_eq!(wg.update(&[9, 9, 9, 9]), ParseResult::Skipped);
}
