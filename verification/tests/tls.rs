//! TLS parser.

use iris::protocols::tls::{
    classify_probe, parse_sslv2_client_hello, SslV2Error, Tls, SSLV2_PROBE_LEN,
};
use iris::protocols::{ParseResult, ProbeResult};

/// SSLv2-format ClientHello, captured as frame 4032 of `traces/small_flows.pcap` (stream
/// 164). 15 cipher specs (9 v3-compatible, 6 SSLv2-only), no session ID, 16-byte challenge.
const SSLV2_CLIENT_HELLO: &str = "8046010301002d00000010000005000004000\
00a0000090000640000620000080000030000060100800700c00300800600400200800400807cbdca33481976efd43\
5e26b20110ea7";

/// TLS 1.0 ServerHello record replying to the above, captured as frame 4033 (same stream).
const SERVER_HELLO_RECORD: &str = "160301004a020000460301401be48602ade029e17774e544b9c99cb4\
31315e02dd779d154a9609ba5da870201ca0e4f64c6351ae2f8e4ee1e6766a0a88d5d8c55cae98c5e481f22a69bf905\
8000500";

/// A second, distinct SSLv2-format ClientHello, captured as frame 4884 (stream 218).
const SSLV2_CLIENT_HELLO_2: &str = "804c01030000330000001000000400000500000a0100800700c0030\
08000000906004000006400006200000300000602008004008000001300001200006373d2cf902a02321147358f7b8\
014b688";

/// A v3 record whose body is entirely empty -- the legitimate 5-byte first segment some
/// clients send (e.g. streams 176/203/204/209/212/247/284 in `small_flows.pcap`).
const EMPTY_V3_RECORD: &str = "1603010000";

fn hex(s: &str) -> Vec<u8> {
    hex::decode(s).unwrap()
}

#[test]
fn classify_probe_recognizes_v3_records() {
    assert_eq!(classify_probe(&hex(EMPTY_V3_RECORD)), ProbeResult::Certain);
    assert_eq!(
        classify_probe(&hex(SERVER_HELLO_RECORD)),
        ProbeResult::Certain
    );
}

#[test]
fn classify_probe_recognizes_sslv2_client_hello() {
    assert_eq!(
        classify_probe(&hex(SSLV2_CLIENT_HELLO)),
        ProbeResult::Certain
    );
    assert_eq!(
        classify_probe(&hex(SSLV2_CLIENT_HELLO_2)),
        ProbeResult::Certain
    );
}

#[test]
fn classify_probe_unsure_on_short_input() {
    let full = hex(SSLV2_CLIENT_HELLO);
    for n in 0..SSLV2_PROBE_LEN {
        assert_eq!(
            classify_probe(&full[..n]),
            ProbeResult::Unsure,
            "expected Unsure at length {n}"
        );
    }
    assert_eq!(classify_probe(&[]), ProbeResult::Unsure);
    assert_eq!(classify_probe(&[0x16]), ProbeResult::Unsure);
    assert_eq!(classify_probe(&[0x16, 0x03]), ProbeResult::Unsure);
}

#[test]
fn classify_probe_rejects_other_traffic() {
    assert_eq!(classify_probe(b"GET / HTTP/1.1\r\n"), ProbeResult::NotForUs);
    // High bit set, but not the SSLv2 ClientHello shape (msg_type != 1).
    assert_eq!(
        classify_probe(&[0x80, 0x10, 0x02, 0x03, 0x01, 0x00]),
        ProbeResult::NotForUs
    );
    // SSLv2-shaped, but the embedded client version isn't a recognized 3.x.
    assert_eq!(
        classify_probe(&[0x80, 0x10, 0x01, 0x02, 0x00, 0x00]),
        ProbeResult::NotForUs
    );
}

#[test]
fn parse_sslv2_client_hello_decodes_real_capture() {
    let data = hex(SSLV2_CLIENT_HELLO);
    let (consumed, hello) = parse_sslv2_client_hello(&data).expect("should parse");
    assert_eq!(consumed, data.len());
    assert_eq!(consumed, 72);
    assert_eq!(hello.version, 0x0301);
    assert_eq!(hello.cipher_specs.len(), 15);
    assert_eq!(
        hello.cipher_specs.iter().filter(|c| *c >> 16 == 0).count(),
        9,
        "9 of the 15 cipher specs are v3-compatible (leading byte 0)"
    );
    assert!(hello.session_id.is_empty());
    assert_eq!(hello.challenge.len(), 16);
}

#[test]
fn parse_sslv2_client_hello_incomplete() {
    let data = hex(SSLV2_CLIENT_HELLO);
    for n in 1..data.len() {
        assert!(
            matches!(parse_sslv2_client_hello(&data[..n]), Err(SslV2Error::Incomplete)),
            "expected Incomplete at length {n}"
        );
    }
    assert!(matches!(parse_sslv2_client_hello(&[]), Err(SslV2Error::Incomplete)));
}

#[test]
fn parse_sslv2_client_hello_rejects_malformed() {
    // High bit not set: not this format at all.
    assert!(matches!(parse_sslv2_client_hello(&[0x00, 0x02, 0x01, 0x03, 0x01, 0x00, 0x00, 0x00, 0x00]), Err(SslV2Error::Malformed)));
    // High bit set, but msg_type != 1 (CLIENT-HELLO).
    assert!(matches!(parse_sslv2_client_hello(&[0x80, 0x07, 0x02, 0x03, 0x01, 0x00, 0x00, 0x00, 0x00]), Err(SslV2Error::Malformed)));
    // Declared sub-lengths (cipher_spec_len=3, session_id_len=0, challenge_len=0) don't add
    // up to the declared message length (9, i.e. just the fixed 9-byte header).
    assert!(matches!(parse_sslv2_client_hello(&[
            0x80, 0x09, 0x01, 0x03, 0x01, 0x00, 0x03, 0x00, 0x00, 0x00, 0x00
        ]), Err(SslV2Error::Malformed)));
}

#[test]
fn sslv2_hello_feeds_normal_v3_state_machine() {
    let mut tls = Tls::new();

    let client_to_server = true;
    let server_to_client = false;

    let status = tls.parse_tcp_level(&hex(SSLV2_CLIENT_HELLO), client_to_server);
    assert_eq!(status, ParseResult::Continue(0));
    assert_eq!(tls.client_version(), 0x0301);
    assert!(!tls.is_invalid());

    let status = tls.parse_tcp_level(&hex(SERVER_HELLO_RECORD), server_to_client);
    assert_eq!(status, ParseResult::Continue(0));
    assert_eq!(tls.server_version(), 0x0301);
    assert!(!tls.is_invalid());
}
