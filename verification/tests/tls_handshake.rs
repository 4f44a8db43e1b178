//! TLS handshakes, message by message.

use iris::conntrack::pdu::{IpAddr, L4Context, L4Pdu, Mbuf, SocketAddr};
use iris::conntrack::tcp::{ACK, TCP_PROTOCOL};
use iris::protocols::tls::{
    read_client_kx, read_server_kx, ClientKeyExchange, ServerKeyExchange, Tls, TlsParser, TlsState,
    KX_DHE, KX_ECDHE, KX_RSA,
};
use iris::protocols::tls_wire::{client_extension_list, server_extension_list};
use iris::protocols::{ParseResult, ParsingState, ProbeResult, SessionData};
use iris::time::Instant;

fn record(kind: u8, body: &[u8]) -> Vec<u8> {
    let mut out = vec![kind, 3, 3];
    out.extend_from_slice(&(body.len() as u16).to_be_bytes());
    out.extend_from_slice(body);
    out
}

fn message(kind: u8, body: &[u8]) -> Vec<u8> {
    let mut out = vec![kind, 0];
    out.extend_from_slice(&(body.len() as u16).to_be_bytes());
    out.extend_from_slice(body);
    out
}

fn extension(kind: u16, body: &[u8]) -> Vec<u8> {
    let mut out = kind.to_be_bytes().to_vec();
    out.extend_from_slice(&(body.len() as u16).to_be_bytes());
    out.extend_from_slice(body);
    out
}

fn client_extensions() -> Vec<u8> {
    let mut ext = vec![];
    // Server name: one host name.
    ext.extend(extension(0, b"\x00\x0e\x00\x00\x0bexample.com"));
    // Supported groups: x25519, secp256r1.
    ext.extend(extension(10, &[0, 4, 0, 0x1d, 0, 0x17]));
    // Point formats: uncompressed.
    ext.extend(extension(11, &[1, 0]));
    // Signature algorithms.
    ext.extend(extension(13, &[0, 4, 4, 3, 8, 4]));
    // Protocols: h2, http/1.1.
    ext.extend(extension(16, b"\x00\x0c\x02h2\x08http/1.1"));
    // Supported versions: 1.3, 1.2.
    ext.extend(extension(43, &[4, 3, 4, 3, 3]));
    // Key share: x25519, four bytes.
    ext.extend(extension(51, &[0, 8, 0, 0x1d, 0, 4, 1, 2, 3, 4]));
    ext
}

fn client_hello() -> Vec<u8> {
    let mut body = vec![3, 3];
    body.extend_from_slice(&[7; 32]);
    body.extend_from_slice(&[2, 9, 9]);
    body.extend_from_slice(&[0, 4, 0xc0, 0x2f, 0x00, 0x9c]);
    body.extend_from_slice(&[1, 0]);
    let ext = client_extensions();
    body.extend_from_slice(&(ext.len() as u16).to_be_bytes());
    body.extend_from_slice(&ext);
    message(1, &body)
}

fn server_hello(cipher: u16) -> Vec<u8> {
    let mut body = vec![3, 3];
    body.extend_from_slice(&[8; 32]);
    body.push(0);
    body.extend_from_slice(&cipher.to_be_bytes());
    body.push(0);
    let mut ext = vec![];
    ext.extend(extension(11, &[1, 0]));
    ext.extend(extension(16, b"\x00\x03\x02h2"));
    body.extend_from_slice(&(ext.len() as u16).to_be_bytes());
    body.extend_from_slice(&ext);
    message(2, &body)
}

#[test]
fn client_hello_fields_are_read() {
    let mut tls = Tls::new();
    assert_eq!(tls.state, TlsState::Start);
    let status = tls.parse_tcp_level(&record(0x16, &client_hello()), true);
    assert_eq!(status, ParseResult::Continue(0));
    assert_eq!(tls.sni(), "example.com");
    assert_eq!(tls.client_version(), 0x0303);
    let hello = tls.client_hello.as_ref().unwrap();
    assert_eq!(hello.random, vec![7; 32]);
    assert_eq!(hello.session_id, vec![9, 9]);
    assert_eq!(hello.cipher_suites, vec![0xc02f, 0x009c]);
    assert_eq!(hello.compression_algs, vec![0]);
    assert_eq!(hello.extension_list, vec![0, 10, 11, 13, 16, 43, 51]);
    assert_eq!(hello.supported_groups, vec![0x1d, 0x17]);
    assert_eq!(hello.ec_point_formats, vec![0]);
    assert_eq!(hello.signature_algs, vec![0x0403, 0x0804]);
    assert_eq!(hello.alpn_protocols, vec!["h2".to_string(), "http/1.1".to_string()]);
    assert_eq!(hello.supported_versions, vec![0x0304, 0x0303]);
    assert_eq!(hello.key_shares.len(), 1);
    assert_eq!(hello.key_shares[0].group, 0x1d);
    assert_eq!(hello.key_shares[0].kx_data, vec![1, 2, 3, 4]);
}

#[test]
fn a_handshake_is_followed_to_its_end() {
    let mut tls = Tls::new();
    tls.parse_tcp_level(&record(0x16, &client_hello()), true);
    tls.parse_tcp_level(&record(0x16, &server_hello(0xc02f)), false);
    assert_eq!(tls.server_version(), 0x0303);
    let hello = tls.server_hello.as_ref().unwrap();
    assert_eq!(hello.cipher_suite, 0xc02f);
    assert_eq!(hello.alpn_protocol.as_deref(), Some("h2"));
    // One certificate of three bytes.
    let cert = message(11, &[0, 0, 6, 0, 0, 3, 0xaa, 0xbb, 0xcc]);
    tls.parse_tcp_level(&record(0x16, &cert), false);
    assert_eq!(tls.server_certificates, vec![vec![0xaa, 0xbb, 0xcc]]);
    assert!(tls.client_certificates.is_empty());
    // Named curve secp256r1, a point of three bytes.
    let ske = message(12, &[3, 0, 0x17, 3, 4, 5, 6]);
    tls.parse_tcp_level(&record(0x16, &ske), false);
    assert!(matches!(
        &tls.server_key_exchange,
        Some(ServerKeyExchange::Ecdh { curve: 0x17, kx_data }) if kx_data == &vec![4, 5, 6]
    ));
    tls.parse_tcp_level(&record(0x16, &message(14, &[])), false);
    assert_eq!(tls.state, TlsState::ServerHelloDone);
    let cke = message(16, &[3, 7, 8, 9]);
    tls.parse_tcp_level(&record(0x16, &cke), true);
    assert!(matches!(
        &tls.client_key_exchange,
        Some(ClientKeyExchange::Ecdh { kx_data }) if kx_data == &vec![7, 8, 9]
    ));
    assert_eq!(tls.state, TlsState::ClientKeyExchange);
    let status = tls.parse_tcp_level(&record(0x14, &[1]), true);
    assert_eq!(status, ParseResult::Continue(0));
    assert_eq!(tls.state, TlsState::ClientChangeCipherSpec);
    // What follows is encrypted.
    let done = tls.parse_tcp_level(&record(0x16, &[1, 2, 3, 4]), true);
    assert_eq!(done, ParseResult::HeadersDone(0));
    assert!(!tls.is_invalid());
}

#[test]
fn records_may_come_in_pieces() {
    let mut tls = Tls::new();
    let data = record(0x16, &client_hello());
    assert_eq!(tls.parse_tcp_level(&data[..20], true), ParseResult::Continue(0));
    assert_eq!(tls.sni(), "");
    assert_eq!(tls.parse_tcp_level(&data[20..], true), ParseResult::Continue(0));
    assert_eq!(tls.sni(), "example.com");
}

#[test]
fn messages_out_of_turn_are_invalid() {
    let mut tls = Tls::new();
    tls.parse_tcp_level(&record(0x16, &server_hello(0xc02f)), false);
    assert!(tls.is_invalid());
}

#[test]
fn key_exchange_parameters_depend_on_the_method() {
    let (rsa, dhe, ecdhe) = (KX_RSA, KX_DHE, KX_ECDHE);
    assert!(matches!(
        read_server_kx(dhe, &[0, 1, 5, 0, 1, 6, 0, 2, 7, 8]),
        Some(ServerKeyExchange::Dh { prime, generator, kx_data })
            if prime == vec![5] && generator == vec![6] && kx_data == vec![7, 8]
    ));
    assert!(matches!(
        read_server_kx(rsa, &[0, 1, 5, 0, 2, 6, 7]),
        Some(ServerKeyExchange::Rsa { modulus, exponent })
            if modulus == vec![5] && exponent == vec![6, 7]
    ));
    assert!(read_server_kx(rsa, &[0, 9, 5]).is_none());
    assert!(read_server_kx(ecdhe, &[3, 0]).is_none());
    assert!(matches!(
        read_client_kx(rsa, &[0, 2, 1, 2, 9]),
        Some(ClientKeyExchange::Rsa { encrypted_pms }) if encrypted_pms == vec![1, 2]
    ));
    assert!(matches!(
        read_client_kx(dhe, &[0, 1, 4]),
        Some(ClientKeyExchange::Dh { kx_data }) if kx_data == vec![4]
    ));
    assert!(matches!(
        read_client_kx(200, &[1, 2]),
        Some(ClientKeyExchange::Unknown(all)) if all == vec![1, 2]
    ));
}

#[test]
fn extensions_are_listed_in_order() {
    let client = client_extension_list(&client_extensions()).unwrap();
    assert_eq!(client.len(), 7);
    assert_eq!(client[0].kind, 0);
    // What is not an extension ends the list.
    assert_eq!(client_extension_list(&[0, 0, 0]).unwrap().len(), 0);
    let server = server_extension_list(&extension(16, b"\x00\x03\x02h2")).unwrap();
    assert_eq!(server.len(), 1);
    assert_eq!(server[0].kind, 16);
}

#[test]
fn states_have_numbers() {
    for n in 0..25u8 {
        assert_eq!(TlsState::from_code(n).to_code(), n);
    }
}

fn pdu(data: &[u8], dir: bool) -> L4Pdu {
    let addr = SocketAddr { ip: IpAddr::V4(1), port: 443 };
    let ctxt = L4Context {
        src: addr,
        dst: addr,
        proto: TCP_PROTOCOL,
        offset: 0,
        length: data.len(),
        seq_no: 0,
        ack_no: 0,
        flags: ACK,
        reassembled: true,
        app_offset: None,
        gap_before: 0,
        stream_start_unknown: false,
    };
    L4Pdu::new(Mbuf::from_bytes(data.to_vec()), ctxt, dir, Instant::from_nanos(0))
}

#[test]
fn the_parser_hands_its_handshake_out_once() {
    let mut parser = TlsParser::default();
    let data = record(0x16, &client_hello());
    assert_eq!(parser.probe(&pdu(&data, true)), ProbeResult::Certain);
    assert_eq!(parser.parse(&pdu(&data, true)), ParseResult::Continue(0));
    let session = parser.remove_session(0).unwrap();
    assert!(matches!(session.data, SessionData::Tls(tls) if tls.sni() == "example.com"));
    assert!(parser.remove_session(0).is_none());
    assert!(parser.drain_sessions().is_empty());
    assert_eq!(parser.session_parsed_state(), ParsingState::Stop);
}

#[test]
fn a_hello_spread_over_three_records_is_put_together() {
    let hello = client_hello();
    let mut tls = Tls::new();
    for part in [&hello[..20], &hello[20..60], &hello[60..]] {
        let status = tls.parse_tcp_level(&record(0x16, part), true);
        assert_eq!(status, ParseResult::Continue(0));
    }
    assert_eq!(tls.sni(), "example.com");
    assert!(tls.record_buffer.is_empty());
}
