//! The TLS heuristic.

use iris::datatypes::maybe_tls::{
    record_length, Direction, MaybeTls, CONTENT_APPLICATION_DATA, CONTENT_TYPES,
    MAYBE_TLS_MIN_CHAINED, MAYBE_TLS_SCAN_LIMIT, MAYBE_TLS_WINDOW, RECORD_HEADER_LEN, TLS_PORTS,
};
use iris::protocols::SessionProto;
use iris::subscription::FilterResult;

fn new_for_test() -> MaybeTls {
    MaybeTls { seen: 0, orig: Direction::default(), resp: Direction::default() }
}

/// One application-data record: header plus `len` bytes of ciphertext.
fn record(len: u16) -> Vec<u8> {
    let mut out = vec![CONTENT_APPLICATION_DATA, 0x03, 0x03];
    out.extend_from_slice(&len.to_be_bytes());
    out.extend(std::iter::repeat_n(0xab, len as usize));
    out
}

/// Splits a byte stream into `mss`-sized segments, as TCP would.
fn segments(stream: &[u8], mss: usize) -> Vec<Vec<u8>> {
    stream.chunks(mss).map(|c| c.to_vec()).collect()
}

#[test]
fn header_validation_rejects_each_malformed_field() {
    assert_eq!(record_length(&[0x17, 0x03, 0x03, 0x00, 0x20]), Some(37));
    // Unknown content type.
    assert_eq!(record_length(&[0x99, 0x03, 0x03, 0x00, 0x20]), None);
    // Version outside 0x0301..=0x0303.
    assert_eq!(record_length(&[0x17, 0x03, 0x04, 0x00, 0x20]), None);
    assert_eq!(record_length(&[0x17, 0x02, 0x03, 0x00, 0x20]), None);
    // Zero length would leave a chain standing still.
    assert_eq!(record_length(&[0x17, 0x03, 0x03, 0x00, 0x00]), None);
    // Over the RFC 8446 ciphertext cap.
    assert_eq!(record_length(&[0x17, 0x03, 0x03, 0xff, 0xff]), None);
    // Truncated.
    assert_eq!(record_length(&[0x17, 0x03, 0x03, 0x00]), None);
}

#[test]
fn every_content_type_links_a_chain() {
    for ty in CONTENT_TYPES {
        assert!(
            record_length(&[ty, 0x03, 0x03, 0x00, 0x10]).is_some(),
            "content type {ty:#04x} should be accepted"
        );
    }
}

#[test]
fn bulk_download_locks_on_despite_unaligned_records() {
    // The case the filter exists for: 16KB records packed back-to-back and
    // segmented at 1460 bytes, so almost no segment starts on a boundary.
    let mut stream = Vec::new();
    for _ in 0..6 {
        stream.extend(record(16_384));
    }
    let mut f = new_for_test();
    let mut result = FilterResult::Continue;
    for seg in segments(&stream, 1460) {
        f.record(false, &seg);
        result = f.decide();
        if matches!(result, FilterResult::Accept) {
            break;
        }
    }
    assert!(matches!(result, FilterResult::Accept));
    assert!(f.best_chain() >= MAYBE_TLS_MIN_CHAINED);
}

#[test]
fn several_small_records_in_one_segment_all_chain() {
    let mut stream = Vec::new();
    for _ in 0..8 {
        stream.extend(record(64));
    }
    let mut f = new_for_test();
    f.record(true, &stream);
    // One anchor plus seven confirmations, all inside a single segment.
    assert_eq!(f.orig.best, 7);
    assert!(matches!(f.decide(), FilterResult::Accept));
}

#[test]
fn one_anchor_alone_is_not_enough() {
    // A single plausible header proves nothing; only confirmations count.
    let mut f = new_for_test();
    f.record(true, &record(64)[..40]);
    assert_eq!(f.orig.best, 0);
    assert!(matches!(f.decide(), FilterResult::Continue));
}

#[test]
fn directions_are_tracked_independently() {
    // Interleaving the two halves of a connection must not desynchronize
    // either chain -- each counts only its own payload bytes.
    let mut stream = Vec::new();
    for _ in 0..6 {
        stream.extend(record(200));
    }
    let mut f = new_for_test();
    for seg in segments(&stream, 300) {
        f.record(false, &seg);
        f.record(true, b"\x00\x01\x02 not tls at all, just filler bytes");
    }
    assert!(f.resp.best >= MAYBE_TLS_MIN_CHAINED);
    assert_eq!(f.orig.best, 0);
    assert!(matches!(f.decide(), FilterResult::Accept));
}

#[test]
fn a_retransmission_breaks_the_chain_but_the_filter_re_locks() {
    let mut stream = Vec::new();
    for _ in 0..10 {
        stream.extend(record(500));
    }
    let segs = segments(&stream, 400);
    let mut f = new_for_test();
    for (i, seg) in segs.iter().enumerate() {
        f.record(false, seg);
        // Duplicate an early segment, desynchronizing the byte count.
        if i == 1 {
            f.record(false, seg);
        }
    }
    assert!(matches!(f.decide(), FilterResult::Accept));
}

#[test]
fn plain_http_is_rejected() {
    // Cleartext on 443 happens (misconfiguration, redirects, scanners).
    let body: Vec<u8> = std::iter::repeat_n(b'x', 1400).collect();
    let mut f = new_for_test();
    let mut result = FilterResult::Continue;
    for _ in 0..MAYBE_TLS_WINDOW {
        let mut seg = b"HTTP/1.1 200 OK\r\nContent-Length: 1400\r\n\r\n".to_vec();
        seg.extend_from_slice(&body);
        f.record(false, &seg);
        result = f.decide();
    }
    assert_eq!(f.best_chain(), 0);
    assert!(matches!(result, FilterResult::Drop));
    assert!(matches!(f.terminated(), FilterResult::Drop));
}

#[test]
fn incompressible_binary_traffic_is_rejected() {
    // A pseudorandom stream on 443 -- an encrypted non-TLS tunnel, say.
    // Isolated headers will appear by chance; chaining is what rejects it.
    let mut state = 0x2545_f491_4f6c_dd1du64;
    let mut seg = [0u8; 1400];
    let mut f = new_for_test();
    let mut result = FilterResult::Continue;
    for _ in 0..MAYBE_TLS_WINDOW {
        for byte in seg.iter_mut() {
            state ^= state << 13;
            state ^= state >> 7;
            state ^= state << 17;
            *byte = state as u8;
        }
        f.record(false, &seg);
        result = f.decide();
    }
    assert!(f.best_chain() < MAYBE_TLS_MIN_CHAINED);
    assert!(matches!(result, FilterResult::Drop));
}

#[test]
fn the_window_eventually_gives_up() {
    let mut f = new_for_test();
    for _ in 0..MAYBE_TLS_WINDOW - 1 {
        f.record(true, b"nothing resembling a record header here at all");
    }
    assert!(matches!(f.decide(), FilterResult::Continue));
    f.record(true, b"nothing resembling a record header here at all");
    assert!(matches!(f.decide(), FilterResult::Drop));
}

#[test]
fn maybe_tls_a_parser_identifying_the_connection_vetoes_the_heuristic() {
    let f = new_for_test();
    for proto in [
        SessionProto::Tls,
        SessionProto::Http,
        SessionProto::Dns,
        SessionProto::Quic,
        SessionProto::Ssh,
        SessionProto::Wireguard,
        SessionProto::Ike,
        SessionProto::Capwap,
    ] {
        assert!(
            matches!(f.unclaimed(&proto), FilterResult::Drop),
            "{proto:?} should veto"
        );
    }
    for proto in [SessionProto::Probing, SessionProto::Null] {
        assert!(
            matches!(f.unclaimed(&proto), FilterResult::Continue),
            "{proto:?} should not veto"
        );
    }
}

#[test]
fn tls_ports_cover_https_and_the_common_starttls_replacements() {
    assert!(TLS_PORTS.contains(&443));
    assert!(TLS_PORTS.contains(&853));
    assert!(TLS_PORTS.contains(&993));
    assert!(TLS_PORTS.contains(&8443));
    assert!(!TLS_PORTS.contains(&80));
}

#[test]
fn the_anchor_scan_is_bounded() {
    // A record boundary past the scan limit is not found in this segment;
    // the filter waits for one that falls inside the prefix it inspects.
    let mut seg = vec![0u8; MAYBE_TLS_SCAN_LIMIT + 64];
    let hdr = record(32);
    let at = MAYBE_TLS_SCAN_LIMIT + 8;
    seg[at..at + RECORD_HEADER_LEN].copy_from_slice(&hdr[..RECORD_HEADER_LEN]);
    let mut dir = Direction::default();
    dir.consume(&seg);
    assert_eq!(dir.next, None);
}
