//! QUIC parser.

use iris::protocols::quic::{
    is_quic_version, unprotect_initial, InitialCrypto, InitialSecret, LongHeaderPacketType,
    NoCrypto, QuicConn, QuicError, QuicFrame, QuicPacket, QuicVersion, SealedInitial,
};
use iris::protocols::ParseResult;

fn knows(conn: &QuicConn, cid: &str) -> bool {
    conn.cids.iter().any(|c| c == cid)
}

/// A long header packet, assembled from its RFC 8999 invariant fields plus
/// whatever version-specific bytes follow.
fn long_header(first_byte: u8, version: u32, dcid: &[u8], scid: &[u8], rest: &[u8]) -> Vec<u8> {
    let mut out = vec![first_byte];
    out.extend_from_slice(&version.to_be_bytes());
    out.push(dcid.len() as u8);
    out.extend_from_slice(dcid);
    out.push(scid.len() as u8);
    out.extend_from_slice(scid);
    out.extend_from_slice(rest);
    out
}

#[test]
fn drafts_30_through_34_are_recognized() {
    assert_eq!(QuicVersion::from_u32(0xff00001e), QuicVersion::Draft30);
    assert_eq!(QuicVersion::from_u32(0xff000022), QuicVersion::Draft34);
    // draft-35 was never published.
    assert_eq!(QuicVersion::from_u32(0xff000023), QuicVersion::Unknown);
}

#[test]
fn greased_versions_match_the_reserved_pattern() {
    // RFC 9368 Section 3 reserves every version of the form `0x?a?a?a?a`.
    for v in [0x0a0a0a0au32, 0xdada1a1a, 0x1a2a3a4a, 0xfafafafa] {
        assert_eq!(QuicVersion::from_u32(v), QuicVersion::Greased, "{:#x}", v);
        assert!(is_quic_version(v));
    }
    for v in [0x0a0a0a0bu32, 0x12345678, 0xff000023] {
        assert_eq!(QuicVersion::from_u32(v), QuicVersion::Unknown, "{:#x}", v);
        assert!(!is_quic_version(v));
    }
}

#[test]
fn only_version_negotiation_and_greased_stop_at_the_invariants() {
    assert!(QuicVersion::from_u32(0x00000000).is_invariants_only());
    assert!(QuicVersion::from_u32(0x0a0a0a0a).is_invariants_only());
    assert!(!QuicVersion::from_u32(0x00000001).is_invariants_only());
    assert!(!QuicVersion::from_u32(0xff00001e).is_invariants_only());
}

#[test]
fn version_negotiation_yields_the_offered_versions() {
    let mut supported = Vec::new();
    supported.extend_from_slice(&0x00000001u32.to_be_bytes());
    supported.extend_from_slice(&0x6b3343cfu32.to_be_bytes());
    // Bits 4-7 of the first byte are arbitrary in a Version Negotiation
    // packet; 0xab exercises that they are not read as a packet type.
    let data = long_header(0xab, 0x00000000, &[1, 2, 3, 4], &[5, 6, 7, 8], &supported);

    let mut conn = QuicConn::new();
    let (packet, consumed) = QuicPacket::parse_from(&mut conn, &NoCrypto, &data, 0, true).unwrap();
    assert_eq!(consumed, data.len());

    let hdr = packet.long_header.as_ref().unwrap();
    assert!(hdr.packet_type.is_none());
    assert_eq!(hdr.version, 0);
    assert_eq!(
        hdr.supported_versions.as_deref(),
        Some(&[0x00000001u32, 0x6b3343cf][..])
    );
    assert!(packet.packet_type().is_err());
    // The invariant fields are still harvested.
    assert!(knows(&conn, "01020304"));
    assert!(knows(&conn, "05060708"));
}

#[test]
fn greased_version_parses_its_invariants_instead_of_erroring() {
    let data = long_header(0xc3, 0x0a0a0a0a, &[0xaa; 8], &[], &[0xff; 10]);

    let mut conn = QuicConn::new();
    let (packet, consumed) = QuicPacket::parse_from(&mut conn, &NoCrypto, &data, 0, true).unwrap();
    assert_eq!(consumed, data.len());

    let hdr = packet.long_header.as_ref().unwrap();
    assert!(hdr.packet_type.is_none());
    assert_eq!(hdr.version, 0x0a0a0a0a);
    // Not a Version Negotiation packet, so there is no version list to read.
    assert!(hdr.supported_versions.is_none());
    assert_eq!(packet.payload_bytes_count(), 10);
    assert!(knows(&conn, "aaaaaaaaaaaaaaaa"));
}

#[test]
fn a_long_header_with_the_fixed_bit_greased_away_still_parses() {
    // Handshake packet (type bits 0b10), fixed bit clear per RFC 9287, with
    // a one-byte varint payload length of 5.
    let data = long_header(0xa0, 0x00000001, &[], &[], &[0x05, 1, 2, 3, 4, 5]);

    let mut conn = QuicConn::new();
    let (packet, consumed) = QuicPacket::parse_from(&mut conn, &NoCrypto, &data, 0, true).unwrap();
    assert_eq!(consumed, data.len());
    assert!(matches!(
        packet.long_header.as_ref().unwrap().packet_type,
        Some(LongHeaderPacketType::Handshake)
    ));
}

#[test]
fn a_short_header_still_requires_the_fixed_bit() {
    // The fixed bit is the only thing distinguishing a 1-RTT packet from
    // trailing PADDING, so it stays mandatory on the short-header path.
    let data = [0x00u8; 25];
    let mut conn = QuicConn::new();
    assert!(matches!(
        QuicPacket::parse_from(&mut conn, &NoCrypto, &data, 0, true),
        Err(QuicError::FixedBitNotSet)
    ));
}

#[test]
fn an_unknown_version_is_still_rejected() {
    let data = long_header(0xc3, 0x51303530, &[0xaa; 8], &[], &[0xff; 10]);
    let mut conn = QuicConn::new();
    assert!(matches!(
        QuicPacket::parse_from(&mut conn, &NoCrypto, &data, 0, true),
        Err(QuicError::UnknownVersion)
    ));
}

#[test]
fn variable_length_numbers_are_read() {
    assert_eq!(QuicPacket::slice_to_u64(&[0x25]), Ok(37));
    assert_eq!(QuicPacket::slice_to_u64(&[0x7b, 0xbd]), Ok(15293));
    assert_eq!(QuicPacket::slice_to_u64(&[0x9d, 0x7f, 0x3e, 0x7d]), Ok(494878333));
    assert_eq!(QuicPacket::slice_to_u64(&[0; 9]), Err(QuicError::UnsupportedVarLen));
    for (a, n) in [(0x3f, 1), (0x40, 2), (0x80, 4), (0xc0, 8)] {
        assert_eq!(QuicPacket::get_var_len(a), Ok(n));
    }
    let data = [1, 2, 3];
    assert_eq!(QuicPacket::access_data(&data, 1, 3), Ok(&data[1..]));
    assert_eq!(QuicPacket::access_data(&data, 1, 4), Err(QuicError::PacketTooShort));
    assert_eq!(QuicPacket::access_data(&data, 2, 1), Err(QuicError::InvalidDataIndices));
    assert_eq!(QuicPacket::vec_u8_to_hex_string(&[0xa0, 1]), "a001");
}

#[test]
fn short_headers_report_known_connection_ids() {
    let mut conn = QuicConn::new();
    let long = long_header(0xa0, 1, &[0xaa, 0xbb], &[], &[0x01, 9]);
    QuicPacket::parse_from(&mut conn, &NoCrypto, &long, 0, true).unwrap();
    let mut short = vec![0x41, 0xaa, 0xbb];
    short.extend_from_slice(&[7; 30]);
    let (packet, next) = QuicPacket::parse_from(&mut conn, &NoCrypto, &short, 0, true).unwrap();
    assert_eq!(next, short.len());
    assert_eq!(packet.dcid(), "aabb");
    assert_eq!(packet.payload_bytes_count(), 30);
    assert_eq!((packet.header_type(), packet.version(), packet.scid()), ("short", 0, ""));
    assert_eq!(packet.packet_type(), Err(QuicError::NoLongHeader));
    // An unknown one is not reported.
    short[1] = 0xab;
    let (packet, _) = QuicPacket::parse_from(&mut conn, &NoCrypto, &short, 0, true).unwrap();
    assert_eq!(packet.dcid(), "");
    assert_eq!(packet.payload_bytes_count(), 12);
    assert!(matches!(
        QuicPacket::parse_from(&mut conn, &NoCrypto, &[], 0, true),
        Err(QuicError::PacketTooShort)
    ));
}

#[test]
fn a_retry_packet_ends_in_its_tag() {
    let mut rest = vec![1, 2, 3];
    rest.extend_from_slice(&[0xee; 16]);
    let data = long_header(0xf0, 1, &[1], &[2], &rest);
    let mut conn = QuicConn::new();
    let (packet, next) = QuicPacket::parse_from(&mut conn, &NoCrypto, &data, 0, false).unwrap();
    assert_eq!(next, data.len());
    assert_eq!(packet.packet_type(), Ok(LongHeaderPacketType::Retry));
    let hdr = packet.long_header.as_ref().unwrap();
    assert_eq!(hdr.token.as_deref(), Some("010203"));
    assert_eq!(hdr.token_len, Some(3));
    assert_eq!(hdr.retry_tag.as_deref(), Some("ee".repeat(16).as_str()));
    assert_eq!(packet.payload_bytes_count(), 0);
    // A token is required.
    let data = long_header(0xf0, 1, &[1], &[2], &[0xee; 16]);
    assert!(matches!(
        QuicPacket::parse_from(&mut conn, &NoCrypto, &data, 0, false),
        Err(QuicError::PacketTooShort)
    ));
}

#[test]
fn datagrams_hold_several_packets() {
    let mut conn = QuicConn::new();
    let mut data = long_header(0xa0, 1, &[0xaa], &[], &[0x02, 1, 2]);
    data.extend(long_header(0xd0, 1, &[0xaa], &[], &[0x01, 1]));
    assert_eq!(conn.parse_packet(&NoCrypto, &data, true), ParseResult::Continue(0));
    assert_eq!(conn.packets.len(), 2);
    assert_eq!(conn.cids, vec!["aa".to_string()]);
    assert_eq!(conn.packets[1].packet_type(), Ok(LongHeaderPacketType::ZeroRTT));
    data.extend_from_slice(&[0x40; 25]);
    assert_eq!(conn.parse_packet(&NoCrypto, &data, true), ParseResult::HeadersDone(0));
    assert_eq!(conn.packets.len(), 5);
    assert_eq!(conn.parse_packet(&NoCrypto, &[0x80], true), ParseResult::Skipped);
}

#[test]
fn initial_packets_need_keys() {
    let mut rest = vec![0x02, 0xde, 0xad, 0x40, 0x20];
    rest.extend_from_slice(&[0; 32]);
    let data = long_header(0xc0, 1, &[1], &[2], &rest);
    let mut conn = QuicConn::new();
    assert!(matches!(
        QuicPacket::parse_from(&mut conn, &NoCrypto, &data, 0, true),
        Err(QuicError::CryptoFail)
    ));
    assert!(knows(&conn, "01") && knows(&conn, "02"));
    // The token runs past the datagram.
    let data = long_header(0xc0, 1, &[1], &[2], &[0x05, 1]);
    assert!(matches!(
        QuicPacket::parse_from(&mut conn, &NoCrypto, &data, 0, true),
        Err(QuicError::PacketTooShort)
    ));
}

#[test]
fn header_protection_is_taken_off() {
    // First byte, four bytes of header, a packet number of two bytes, six sealed bytes.
    let data = [0xc1, 1, 2, 3, 4, 0xff, 0x0f, 10, 11, 12, 13, 14, 15];
    let mask = [0xf0, 0x80, 0x0f, 0, 0];
    let s = unprotect_initial(&data, 0, 5, 8, &mask, 2).unwrap();
    assert_eq!(s.counter, 0x7f00);
    assert_eq!(s.ad, vec![0xc1, 1, 2, 3, 4, 0x7f, 0x00]);
    assert_eq!(s.ciphertext, vec![10, 11, 12, 13]);
    assert_eq!(s.tag, vec![14, 15]);
    assert_eq!(s.next, 13);
    // A packet number of four bytes with its first bit set is extended.
    let s = unprotect_initial(&data, 0, 5, 8, &[0x02, 0, 0, 0, 0], 2).unwrap();
    assert_eq!(s.counter, 0xffff_ffff_ff0f_0a0b);
    // Reserved bits must be zero.
    assert!(matches!(
        unprotect_initial(&data, 0, 5, 8, &[0x04, 0, 0, 0, 0], 2),
        Err(QuicError::FailedHeaderProtection)
    ));
    assert!(matches!(
        unprotect_initial(&data, 0, 5, 9, &mask, 2),
        Err(QuicError::PacketTooShort)
    ));
}

/// Seals nothing: the cipher text is the plain text, all of it handshake bytes.
struct ClearText {
    derives: bool,
}

impl InitialCrypto for ClearText {
    fn derive(&self, dcid: &[u8], version: u32) -> Result<(), QuicError> {
        assert_eq!((dcid, version), (&[1u8][..], 1));
        if self.derives { Ok(()) } else { Err(QuicError::CryptoFail) }
    }
    fn sample_len(&self) -> usize {
        2
    }
    fn new_mask(&self, secret: &InitialSecret, dir: bool, sample: &[u8]) -> Result<[u8; 5], QuicError> {
        assert_eq!((secret.dcid.as_slice(), secret.version), (&[1u8][..], 1));
        assert!(dir);
        assert_eq!(sample.len(), 2);
        Ok([0; 5])
    }
    fn tag_len(&self) -> usize {
        2
    }
    fn open(&self, _: &InitialSecret, _: bool, sealed: &SealedInitial) -> Result<Vec<u8>, QuicError> {
        assert_eq!(sealed.tag, vec![0xee, 0xee]);
        Ok(sealed.ciphertext.clone())
    }
    fn parse_frames(&self, payload: &[u8], start: usize) -> Result<(Vec<QuicFrame>, Vec<u8>), QuicError> {
        let frame = QuicFrame { frame_type: 6, data: vec![start as u8] };
        Ok((vec![frame], payload.to_vec()))
    }
}

/// An Initial packet with a packet number of one byte and this payload, and a tag of two.
fn initial(payload: &[u8]) -> Vec<u8> {
    let mut rest = vec![0x00, payload.len() as u8 + 3, 7];
    rest.extend_from_slice(payload);
    rest.extend_from_slice(&[0xee, 0xee]);
    long_header(0xc0, 1, &[1], &[2], &rest)
}

#[test]
fn initial_packets_are_opened() {
    // A ServerHelloDone message, which has no body.
    let data = initial(&[14, 0, 0, 0]);
    let mut conn = QuicConn::new();
    let crypto = ClearText { derives: true };
    let (packet, next) = QuicPacket::parse_from(&mut conn, &crypto, &data, 0, true).unwrap();
    assert_eq!(next, data.len());
    assert_eq!(packet.packet_type(), Ok(LongHeaderPacketType::Initial));
    assert_eq!(packet.payload_bytes_count(), 7);
    assert_eq!(packet.frames.unwrap()[0].data, vec![0]);
    assert!(conn.initial_secret.is_some());
    assert!(conn.client_buffer.is_empty());
}

#[test]
fn handshake_bytes_wait_for_the_rest_of_their_message() {
    let mut conn = QuicConn::new();
    let crypto = ClearText { derives: true };
    let first = initial(&[14, 0, 0]);
    assert_eq!(conn.parse_packet(&crypto, &first, true), ParseResult::Skipped);
    assert_eq!(conn.client_buffer, vec![14, 0, 0]);
    assert!(conn.server_buffer.is_empty());
    let second = initial(&[0, 0, 0]);
    assert_eq!(conn.parse_packet(&crypto, &second, true), ParseResult::Continue(0));
    assert!(conn.client_buffer.is_empty());
    assert_eq!(conn.packets.len(), 1);
    // The frames continue the stream where the buffer ended.
    assert_eq!(conn.packets[0].frames.as_ref().unwrap()[0].data, vec![3]);
}

#[test]
fn an_initial_packet_fails_where_its_keys_do() {
    let mut conn = QuicConn::new();
    let data = initial(&[14, 0, 0, 0]);
    assert!(matches!(
        QuicPacket::parse_from(&mut conn, &ClearText { derives: false }, &data, 0, true),
        Err(QuicError::CryptoFail)
    ));
    assert!(conn.initial_secret.is_none());
    // Too short for a sample.
    let crypto = ClearText { derives: true };
    assert!(matches!(
        QuicPacket::parse_from(&mut conn, &crypto, &initial(&[14]), 0, true),
        Err(QuicError::PacketTooShort)
    ));
    assert!(conn.initial_secret.is_some());
}
