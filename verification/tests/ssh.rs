//! SSH parser.

use iris::conntrack::pdu::{IpAddr, L4Context, L4Pdu, Mbuf, SocketAddr};
use iris::conntrack::tcp::TCP_PROTOCOL;
use iris::protocols::ssh::{Ssh, SshParser};
use iris::protocols::{ParseResult, ParsingState, ProbeResult, SessionData};
use iris::time::Instant;

/// Builds one SSH binary packet (RFC 4253 §6) wrapping `payload`:
/// `uint32 packet_length | byte padding_length | payload | padding`,
/// where `packet_length` covers everything after itself.
fn ssh_packet(payload: &[u8]) -> Vec<u8> {
    let padding_len: u8 = 8;
    let packet_len = 1 + payload.len() + padding_len as usize;
    let mut out = Vec::new();
    out.extend_from_slice(&(packet_len as u32).to_be_bytes());
    out.push(padding_len);
    out.extend_from_slice(payload);
    out.extend(std::iter::repeat_n(0u8, padding_len as usize));
    out
}

/// SSH_MSG_NEWKEYS (21) -- the message that ends the cleartext handshake.
fn newkeys() -> Vec<u8> {
    ssh_packet(&[21])
}

/// SSH_MSG_IGNORE (2) with an empty string payload -- stands in for any
/// handshake packet that a server may send immediately before NEWKEYS.
fn ignore_msg() -> Vec<u8> {
    ssh_packet(&[2, 0, 0, 0, 0])
}

#[test]
fn newkeys_alone_in_each_segment_ends_the_handshake() {
    let mut ssh = Ssh::new();
    assert_eq!(ssh.process(&newkeys(), true), ParseResult::Continue(0));
    assert!(ssh.client_new_keys.is_some());
    assert_eq!(ssh.process(&newkeys(), false), ParseResult::HeadersDone(0));
    assert!(ssh.server_new_keys.is_some());
}

#[test]
fn version_string_coalesced_with_binary_packets_does_not_hide_them() {
    let mut ssh = Ssh::new();
    assert_eq!(ssh.process(&newkeys(), true), ParseResult::Continue(0));

    // Server sends its identification line and immediately follows it with binary
    // key-exchange traffic in the same segment.
    let mut segment = b"SSH-2.0-OpenSSH_8.9\r\n".to_vec();
    segment.extend_from_slice(&newkeys());

    assert_eq!(ssh.process(&segment, false), ParseResult::HeadersDone(0));
    assert!(ssh.server_version_exchange.is_some());
    assert!(
        ssh.server_new_keys.is_some(),
        "binary packet coalesced behind the identification string was missed"
    );
}

#[test]
fn trailing_payload_after_newkeys_sets_body_offset() {
    let mut ssh = Ssh::new();
    assert_eq!(ssh.process(&newkeys(), true), ParseResult::Continue(0));

    let mut segment = newkeys();
    let body_start = segment.len();
    segment.extend_from_slice(&[0xAA; 32]); // encrypted payload riding along

    assert_eq!(ssh.process(&segment, false), ParseResult::HeadersDone(0));
    assert_eq!(ssh.last_body_offset, Some(body_start));
}

#[test]
fn non_ssh_data_is_skipped() {
    let mut ssh = Ssh::new();
    assert_eq!(ssh.process(&[0xFF; 24], true), ParseResult::Skipped);
}

#[test]
fn newkeys_coalesced_behind_another_packet_still_ends_the_handshake() {
    let mut ssh = Ssh::new();
    assert_eq!(ssh.process(&newkeys(), true), ParseResult::Continue(0));

    // A real server commonly writes its final key-exchange packet and NEWKEYS
    // back-to-back, so TCP delivers them in one segment.
    let mut segment = ignore_msg();
    segment.extend_from_slice(&newkeys());

    assert_eq!(ssh.process(&segment, false), ParseResult::HeadersDone(0));
    assert!(
        ssh.server_new_keys.is_some(),
        "NEWKEYS coalesced behind another packet in the same segment was missed"
    );
}

fn string(out: &mut Vec<u8>, s: &[u8]) {
    out.extend_from_slice(&(s.len() as u32).to_be_bytes());
    out.extend_from_slice(s);
}

/// A key exchange message: a cookie, ten lists of names, and what follows.
fn key_exchange(first: &[u8]) -> Vec<u8> {
    let mut payload = vec![20];
    payload.extend_from_slice(&[5; 16]);
    string(&mut payload, first);
    for k in 1..10u8 {
        string(&mut payload, &[b'a' + k]);
    }
    payload.extend_from_slice(&[1, 0, 0, 0, 0]);
    ssh_packet(&payload)
}

#[test]
fn key_exchange_lists_are_split_at_commas() {
    let mut ssh = Ssh::new();
    let data = key_exchange(b"curve25519-sha256,,ext-info-c");
    assert!(ssh.is_readable(&data, true));
    assert_eq!(ssh.process(&data, true), ParseResult::Continue(0));
    let kex = ssh.key_exchange.unwrap();
    assert_eq!(kex.cookie, vec![5; 16]);
    assert_eq!(kex.kex_algs, vec!["curve25519-sha256", "", "ext-info-c"]);
    assert_eq!(kex.server_host_key_algs, vec!["b"]);
    assert_eq!(kex.languages_server_to_client, vec!["j"]);
    assert!(kex.first_kex_packet_follows);
}

#[test]
fn diffie_hellman_messages_are_read() {
    let mut ssh = Ssh::new();
    let mut init = vec![30];
    string(&mut init, &[1, 2, 3]);
    assert_eq!(ssh.process(&ssh_packet(&init), true), ParseResult::Continue(0));
    assert_eq!(ssh.client_dh_key_exchange.as_ref().unwrap().e, vec![1, 2, 3]);
    let mut reply = vec![31];
    for s in [[4u8, 4], [5, 5], [6, 6]] {
        string(&mut reply, &s);
    }
    assert_eq!(ssh.process(&ssh_packet(&reply), false), ParseResult::Continue(0));
    let dh = ssh.server_dh_key_exchange.as_ref().unwrap();
    assert_eq!(dh.pubkey_and_certs, vec![4, 4]);
    assert_eq!(dh.f, vec![5, 5]);
    assert_eq!(dh.signature, vec![6, 6]);
}

#[test]
fn identification_lines_are_taken_apart() {
    let mut ssh = Ssh::new();
    let line = b"SSH-2.0-OpenSSH_8.9 Ubuntu\r\n";
    assert_eq!(ssh.process(line, true), ParseResult::Continue(0));
    let v = ssh.client_version_exchange.as_ref().unwrap();
    assert_eq!(v.protoversion.as_deref(), Some("2.0"));
    assert_eq!(v.softwareversion.as_deref(), Some("OpenSSH_8.9"));
    assert_eq!(v.comments.as_deref(), Some("Ubuntu"));
    assert!(ssh.server_version_exchange.is_none());
    // A line that is not complete yet.
    assert_eq!(ssh.process(b"SSH-2.0-Open", false), ParseResult::Continue(0));
    assert!(ssh.server_version_exchange.is_none());
}

#[test]
fn texts_that_are_not_utf8_are_not_read() {
    let mut parser = SshParser::default();
    let pdu = |data: &[u8]| {
        let addr = SocketAddr { ip: IpAddr::V4(1), port: 22 };
        let ctxt = L4Context {
            src: addr,
            dst: addr,
            proto: TCP_PROTOCOL,
            offset: 0,
            length: data.len(),
            seq_no: 0,
            ack_no: 0,
            flags: 0,
            reassembled: true,
            app_offset: None,
            gap_before: 0,
            stream_start_unknown: false,
        };
        L4Pdu::new(Mbuf::from_bytes(data.to_vec()), ctxt, true, Instant::from_nanos(0))
    };
    assert!(!Ssh::new().is_readable(&key_exchange(&[0xff]), true));
    assert_eq!(parser.parse(&pdu(&key_exchange(&[0xff]))), ParseResult::Skipped);
    assert_eq!(parser.parse(&pdu(&key_exchange(b"a"))), ParseResult::Continue(0));
    assert_eq!(parser.probe(&pdu(b"SSH-2.0-x")), ProbeResult::Certain);
    assert_eq!(parser.probe(&pdu(b"SSX-2.0-x")), ProbeResult::NotForUs);
    assert_eq!(parser.probe(&pdu(b"SSH")), ProbeResult::Unsure);
    assert!(matches!(
        parser.remove_session(0).unwrap().data,
        SessionData::Ssh(ssh) if ssh.key_exchange.is_some()
    ));
    assert_eq!(parser.body_offset(), None);
    assert_eq!(parser.session_parsed_state(), ParsingState::Stop);
}
