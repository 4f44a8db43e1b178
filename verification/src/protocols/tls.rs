//! TLS handshake parser.
//!
//! Parses the handshake phase of a TLS connection. It maintains TLS state, stores selected
//! parameters, and handles defragmentation.

use crate::conntrack::pdu::L4Pdu;
use crate::protocols::tls_wire::{
    byte_lists, cipher_kx, client_extension_list, client_extensions, dh_params, extension_models,
    frame_len, frames_end, handshake_message, named_curve_params, next_state, read_certificates,
    read_cipher_kx, read_client_hello, read_dh_params, read_ecdh_params, read_messages,
    read_record, read_server_hello, record_parse, record_read, server_extension_list,
    server_extensions, state_transition, string16, ClientHelloContents, ClientHelloFields,
    Extension, ExtensionModel, HandshakeModel, RecordParse, RecordRead, ServerHelloContents,
    ServerHelloFields, ALERT, CHANGE_CIPHER_SPEC, HANDSHAKE, NUM_TLS_STATES, RECORD_HEADER_LEN,
};
use crate::protocols::{ParseResult, ParsingState, ProbeResult, Session, SessionData};
use crate::text::{text_or_hex, to_text_or_hex};
use crate::wire::{be16, copy_range, opt_bytes, read_be16};
use vstd::prelude::*;

verus! {

/// Bytes needed to tell an SSLv2-format ClientHello apart from other traffic whose first
/// byte happens to have the high bit set.
pub const SSLV2_PROBE_LEN: usize = 5;

/// Size of the fixed part of an SSLv2-format ClientHello.
pub const SSLV2_FIXED_LEN: usize = 9;

/// No handshake message is longer than this.
pub const MAX_BUFFERED: usize = 16_777_216;

/// What a probe of `data` concludes: a TLS or SSLv3 record, or an SSLv2-format ClientHello
/// (a 2-byte length with the high bit set, then message type 1 and a 3.x client version).
pub open spec fn probe_result(data: Seq<u8>) -> ProbeResult {
    if data.len() >= 3 && 0x14 <= data[0] <= 0x17 && data[1] == 3 && data[2] <= 3 {
        ProbeResult::Certain
    } else if data.len() >= SSLV2_PROBE_LEN && data[0] & 0x80 != 0 && data[2] == 1 && data[3] == 3
        && data[4] <= 3 {
        ProbeResult::Certain
    } else if data.len() < 3 || (data[0] & 0x80 != 0 && data.len() < SSLV2_PROBE_LEN) {
        ProbeResult::Unsure
    } else {
        ProbeResult::NotForUs
    }
}

/// Classifies the first bytes of a TCP segment as TLS, an SSLv2-format ClientHello, or
/// neither.
pub fn classify_probe(data: &[u8]) -> (r: ProbeResult)
    ensures
        r == probe_result(data@),
{
    let len: usize = data.len();
    if len >= 3 && 0x14 <= data[0] && data[0] <= 0x17 && data[1] == 3 && data[2] <= 3 {
        return ProbeResult::Certain;
    }
    if len >= SSLV2_PROBE_LEN && data[0] & 0x80 != 0 && data[2] == 1 && data[3] == 3 && data[4]
        <= 3 {
        return ProbeResult::Certain;
    }
    if len < 3 {
        return ProbeResult::Unsure;
    }
    if data[0] & 0x80 != 0 && len < SSLV2_PROBE_LEN {
        return ProbeResult::Unsure;
    }
    ProbeResult::NotForUs
}

/// A probe that is certain stays certain as more of the segment is seen.
pub proof fn law_certainty_is_stable(data: Seq<u8>, more: Seq<u8>)
    requires
        probe_result(data) == ProbeResult::Certain,
    ensures
        probe_result(data + more) == ProbeResult::Certain,
{
}

/// A probe that rejects keeps rejecting as more of the segment is seen.
pub proof fn law_rejection_is_stable(data: Seq<u8>, more: Seq<u8>)
    requires
        probe_result(data) == ProbeResult::NotForUs,
    ensures
        probe_result(data + more) == ProbeResult::NotForUs,
{
    let all = data + more;
    assert(all[0] == data[0] && all[1] == data[1] && all[2] == data[2]);
    if data.len() >= 5 {
        assert(all[3] == data[3] && all[4] == data[4]);
    }
}

/// Why no SSLv2-format ClientHello could be read.
#[derive(Debug, Clone, Copy, PartialEq, Eq, Structural)]
pub enum SslV2Error {
    /// Not enough bytes yet to parse the full message.
    Incomplete,
    /// Bytes were present but did not form a valid SSLv2 ClientHello.
    Malformed,
}

/// A parsed SSLv2-format ClientHello (RFC 5246, appendix E.2).
#[derive(Debug, PartialEq, Eq)]
pub struct SslV2ClientHello {
    pub version: u16,
    /// Each cipher spec is 3 bytes; v3-compatible specs have a leading byte of 0.
    pub cipher_specs: Vec<u32>,
    pub session_id: Vec<u8>,
    pub challenge: Vec<u8>,
}

/// An SSLv2-format ClientHello, as sequences.
pub struct SslV2Hello {
    pub version: u16,
    pub cipher_specs: Seq<u32>,
    pub session_id: Seq<u8>,
    pub challenge: Seq<u8>,
}

impl View for SslV2ClientHello {
    type V = SslV2Hello;

    open spec fn view(&self) -> SslV2Hello {
        SslV2Hello {
            version: self.version,
            cipher_specs: self.cipher_specs@,
            session_id: self.session_id@,
            challenge: self.challenge@,
        }
    }
}

/// The 3-byte numbers that `s` consists of.
pub open spec fn triples(s: Seq<u8>) -> Seq<u32> {
    Seq::new(
        (s.len() / 3) as nat,
        |i: int| (s[3 * i] * 0x1_0000 + be16(s, 3 * i + 1)) as u32,
    )
}

/// The SSLv2-format ClientHello that `data` starts with, and the number of bytes that it
/// takes up.
pub open spec fn sslv2_hello(data: Seq<u8>) -> Result<(int, SslV2Hello), SslV2Error> {
    let total = 2 + be16(data, 0) % 0x8000;
    let body = data.subrange(2, total);
    let specs = be16(body, 3);
    let id = be16(body, 5);
    let challenge = be16(body, 7);
    if data.len() < 2 {
        Err(SslV2Error::Incomplete)
    } else if be16(data, 0) < 0x8000 {
        Err(SslV2Error::Malformed)
    } else if data.len() < total {
        Err(SslV2Error::Incomplete)
    } else if body.len() < SSLV2_FIXED_LEN || body[0] != 1 || SSLV2_FIXED_LEN + specs + id
        + challenge != body.len() || specs % 3 != 0 {
        Err(SslV2Error::Malformed)
    } else {
        Ok(
            (
                total,
                SslV2Hello {
                    version: be16(body, 1) as u16,
                    cipher_specs: triples(body.subrange(9, 9 + specs)),
                    session_id: body.subrange(9 + specs, 9 + specs + id),
                    challenge: body.subrange(9 + specs + id, 9 + specs + id + challenge),
                },
            ),
        )
    }
}

/// Parses an SSLv2-format ClientHello at the start of `data`. On success, returns the
/// number of bytes consumed along with the parsed hello.
pub fn parse_sslv2_client_hello(data: &[u8]) -> (r: Result<(usize, SslV2ClientHello), SslV2Error>)
    ensures
        match r {
            Ok((n, hello)) => sslv2_hello(data@) == Ok::<(int, SslV2Hello), SslV2Error>(
                (n as int, hello@),
            ) && n <= data@.len(),
            Err(e) => sslv2_hello(data@) == Err::<(int, SslV2Hello), SslV2Error>(e),
        },
{
    if data.len() < 2 {
        return Err(SslV2Error::Incomplete);
    }
    let hdr: u16 = read_be16(data, 0);
    if hdr < 0x8000 {
        return Err(SslV2Error::Malformed);
    }
    let msg_len: usize = (hdr % 0x8000) as usize;
    let total_len: usize = 2 + msg_len;
    if data.len() < total_len {
        return Err(SslV2Error::Incomplete);
    }
    let body = vstd::slice::slice_subrange(data, 2, total_len);
    if body.len() < SSLV2_FIXED_LEN || body[0] != 0x01 {
        return Err(SslV2Error::Malformed);
    }
    let version: u16 = read_be16(body, 1);
    let cipher_spec_len: usize = read_be16(body, 3) as usize;
    let session_id_len: usize = read_be16(body, 5) as usize;
    let challenge_len: usize = read_be16(body, 7) as usize;
    if SSLV2_FIXED_LEN + cipher_spec_len + session_id_len + challenge_len != body.len() {
        return Err(SslV2Error::Malformed);
    }
    if cipher_spec_len % 3 != 0 {
        return Err(SslV2Error::Malformed);
    }
    let specs_end: usize = SSLV2_FIXED_LEN + cipher_spec_len;
    let id_end: usize = specs_end + session_id_len;
    let specs = vstd::slice::slice_subrange(body, SSLV2_FIXED_LEN, specs_end);
    let mut cipher_specs: Vec<u32> = Vec::new();
    let mut i: usize = 0;
    while i < specs.len()
        invariant
            i <= specs@.len(),
            specs@.len() <= 0xFFFF,
            specs@.len() % 3 == 0,
            i % 3 == 0,
            cipher_specs@ == triples(specs@).take(i as int / 3),
        decreases specs@.len() - i,
    {
        cipher_specs.push(specs[i] as u32 * 0x1_0000 + read_be16(specs, i + 1) as u32);
        i = i + 3;
        assert(cipher_specs@ =~= triples(specs@).take(i as int / 3));
    }
    assert(cipher_specs@ =~= triples(specs@));
    Ok(
        (
            total_len,
            SslV2ClientHello {
                version,
                cipher_specs,
                session_id: copy_range(body, specs_end, id_end),
                challenge: copy_range(body, id_end, body.len()),
            },
        ),
    )
}

/// States of the handshake.
#[derive(Debug, Clone, Copy, PartialEq, Eq, Structural)]
pub enum TlsState {
    Start,
    ClientHello,
    AskResumeSession,
    ResumeSession,
    ServerHello,
    Certificate,
    CertificateSt,
    ServerKeyExchange,
    ServerHelloDone,
    ClientKeyExchange,
    ClientChangeCipherSpec,
    CRCertRequest,
    CRHelloDone,
    CRCert,
    CRClientKeyExchange,
    CRCertVerify,
    NoCertSKE,
    NoCertHelloDone,
    NoCertCKE,
    PskHelloDone,
    PskCKE,
    SessionEncrypted,
    Alert,
    Finished,
    Invalid,
}

impl TlsState {
    /// Number of the state.
    pub open spec fn code(self) -> u8 {
        match self {
            TlsState::Start => 0,
            TlsState::ClientHello => 1,
            TlsState::AskResumeSession => 2,
            TlsState::ResumeSession => 3,
            TlsState::ServerHello => 4,
            TlsState::Certificate => 5,
            TlsState::CertificateSt => 6,
            TlsState::ServerKeyExchange => 7,
            TlsState::ServerHelloDone => 8,
            TlsState::ClientKeyExchange => 9,
            TlsState::ClientChangeCipherSpec => 10,
            TlsState::CRCertRequest => 11,
            TlsState::CRHelloDone => 12,
            TlsState::CRCert => 13,
            TlsState::CRClientKeyExchange => 14,
            TlsState::CRCertVerify => 15,
            TlsState::NoCertSKE => 16,
            TlsState::NoCertHelloDone => 17,
            TlsState::NoCertCKE => 18,
            TlsState::PskHelloDone => 19,
            TlsState::PskCKE => 20,
            TlsState::SessionEncrypted => 21,
            TlsState::Alert => 22,
            TlsState::Finished => 23,
            TlsState::Invalid => 24,
        }
    }

    /// Number of the state.
    pub fn to_code(&self) -> (n: u8)
        ensures
            n == self.code(),
            n < NUM_TLS_STATES,
    {
        match self {
            TlsState::Start => 0,
            TlsState::ClientHello => 1,
            TlsState::AskResumeSession => 2,
            TlsState::ResumeSession => 3,
            TlsState::ServerHello => 4,
            TlsState::Certificate => 5,
            TlsState::CertificateSt => 6,
            TlsState::ServerKeyExchange => 7,
            TlsState::ServerHelloDone => 8,
            TlsState::ClientKeyExchange => 9,
            TlsState::ClientChangeCipherSpec => 10,
            TlsState::CRCertRequest => 11,
            TlsState::CRHelloDone => 12,
            TlsState::CRCert => 13,
            TlsState::CRClientKeyExchange => 14,
            TlsState::CRCertVerify => 15,
            TlsState::NoCertSKE => 16,
            TlsState::NoCertHelloDone => 17,
            TlsState::NoCertCKE => 18,
            TlsState::PskHelloDone => 19,
            TlsState::PskCKE => 20,
            TlsState::SessionEncrypted => 21,
            TlsState::Alert => 22,
            TlsState::Finished => 23,
            TlsState::Invalid => 24,
        }
    }

    /// The state with a number.
    pub fn from_code(n: u8) -> (s: TlsState)
        requires
            n < NUM_TLS_STATES,
        ensures
            s.code() == n,
    {
        match n {
            0 => TlsState::Start,
            1 => TlsState::ClientHello,
            2 => TlsState::AskResumeSession,
            3 => TlsState::ResumeSession,
            4 => TlsState::ServerHello,
            5 => TlsState::Certificate,
            6 => TlsState::CertificateSt,
            7 => TlsState::ServerKeyExchange,
            8 => TlsState::ServerHelloDone,
            9 => TlsState::ClientKeyExchange,
            10 => TlsState::ClientChangeCipherSpec,
            11 => TlsState::CRCertRequest,
            12 => TlsState::CRHelloDone,
            13 => TlsState::CRCert,
            14 => TlsState::CRClientKeyExchange,
            15 => TlsState::CRCertVerify,
            16 => TlsState::NoCertSKE,
            17 => TlsState::NoCertHelloDone,
            18 => TlsState::NoCertCKE,
            19 => TlsState::PskHelloDone,
            20 => TlsState::PskCKE,
            21 => TlsState::SessionEncrypted,
            22 => TlsState::Alert,
            23 => TlsState::Finished,
            _ => TlsState::Invalid,
        }
    }
}

/// Two states with the same number are the same.
pub proof fn law_states_are_numbered(a: TlsState, b: TlsState)
    ensures
        a.code() < NUM_TLS_STATES,
        a.code() == b.code() ==> a == b,
{
}

/// A key share: a group and the key exchange data for it.
#[derive(Debug, Clone)]
pub struct KeyShareEntry {
    pub group: u16,
    pub kx_data: Vec<u8>,
}

/// The contents of a ClientHello message.
#[derive(Debug)]
pub struct ClientHello {
    pub version: u16,
    pub random: Vec<u8>,
    pub session_id: Vec<u8>,
    pub cipher_suites: Vec<u16>,
    pub compression_algs: Vec<u8>,
    pub extension_list: Vec<u16>,
    pub server_name: Option<String>,
    pub supported_groups: Vec<u16>,
    pub ec_point_formats: Vec<u8>,
    pub signature_algs: Vec<u16>,
    pub alpn_protocols: Vec<String>,
    pub key_shares: Vec<KeyShareEntry>,
    pub supported_versions: Vec<u16>,
}

/// The contents of a ServerHello message.
#[derive(Debug)]
pub struct ServerHello {
    pub version: u16,
    pub random: Vec<u8>,
    pub session_id: Vec<u8>,
    pub cipher_suite: u16,
    pub compression_alg: u8,
    pub extension_list: Vec<u16>,
    pub ec_point_formats: Vec<u8>,
    pub alpn_protocol: Option<String>,
    pub key_share: Option<KeyShareEntry>,
    pub selected_version: Option<u16>,
}

/// The contents of a ClientHello message, as sequences.
pub struct ClientHelloModel {
    pub version: u16,
    pub random: Seq<u8>,
    pub session_id: Seq<u8>,
    pub cipher_suites: Seq<u16>,
    pub compression_algs: Seq<u8>,
    pub extension_list: Seq<u16>,
    pub server_name: Option<Seq<char>>,
    pub supported_groups: Seq<u16>,
    pub ec_point_formats: Seq<u8>,
    pub signature_algs: Seq<u16>,
    pub alpn_protocols: Seq<Seq<char>>,
    pub key_shares: Seq<(u16, Seq<u8>)>,
    pub supported_versions: Seq<u16>,
}

/// The contents of a ServerHello message, as sequences.
pub struct ServerHelloModel {
    pub version: u16,
    pub random: Seq<u8>,
    pub session_id: Seq<u8>,
    pub cipher_suite: u16,
    pub compression_alg: u8,
    pub extension_list: Seq<u16>,
    pub ec_point_formats: Seq<u8>,
    pub alpn_protocol: Option<Seq<char>>,
    pub key_share: Option<(u16, Seq<u8>)>,
    pub selected_version: Option<u16>,
}

pub open spec fn text_view(s: Option<String>) -> Option<Seq<char>> {
    match s {
        Some(t) => Some(t@),
        None => None,
    }
}

pub open spec fn share_view(k: KeyShareEntry) -> (u16, Seq<u8>) {
    (k.group, k.kx_data@)
}

pub open spec fn opt_share_view(k: Option<KeyShareEntry>) -> Option<(u16, Seq<u8>)> {
    match k {
        Some(k) => Some(share_view(k)),
        None => None,
    }
}

pub open spec fn shares_view(v: Seq<KeyShareEntry>) -> Seq<(u16, Seq<u8>)> {
    Seq::new(v.len(), |i: int| share_view(v[i]))
}

pub open spec fn texts_view(v: Seq<String>) -> Seq<Seq<char>> {
    Seq::new(v.len(), |i: int| v[i]@)
}

impl View for ClientHello {
    type V = ClientHelloModel;

    open spec fn view(&self) -> ClientHelloModel {
        ClientHelloModel {
            version: self.version,
            random: self.random@,
            session_id: self.session_id@,
            cipher_suites: self.cipher_suites@,
            compression_algs: self.compression_algs@,
            extension_list: self.extension_list@,
            server_name: text_view(self.server_name),
            supported_groups: self.supported_groups@,
            ec_point_formats: self.ec_point_formats@,
            signature_algs: self.signature_algs@,
            alpn_protocols: texts_view(self.alpn_protocols@),
            key_shares: shares_view(self.key_shares@),
            supported_versions: self.supported_versions@,
        }
    }
}

impl View for ServerHello {
    type V = ServerHelloModel;

    open spec fn view(&self) -> ServerHelloModel {
        ServerHelloModel {
            version: self.version,
            random: self.random@,
            session_id: self.session_id@,
            cipher_suite: self.cipher_suite,
            compression_alg: self.compression_alg,
            extension_list: self.extension_list@,
            ec_point_formats: self.ec_point_formats@,
            alpn_protocol: text_view(self.alpn_protocol),
            key_share: opt_share_view(self.key_share),
            selected_version: self.selected_version,
        }
    }
}

/// Types of the extensions whose contents are stored.
pub const EXT_SERVER_NAME: u16 = 0;

pub const EXT_SUPPORTED_GROUPS: u16 = 10;

pub const EXT_EC_POINT_FORMATS: u16 = 11;

pub const EXT_SIGNATURE_ALGORITHMS: u16 = 13;

pub const EXT_ALPN: u16 = 16;

pub const EXT_SUPPORTED_VERSIONS: u16 = 43;

pub const EXT_KEY_SHARE: u16 = 51;

/// The key shares that stand one after the other: a group, a length and so many bytes.
pub open spec fn key_shares(s: Seq<u8>) -> Seq<(u16, Seq<u8>)>
    decreases s.len(),
{
    if s.len() >= 4 && s.len() >= 4 + be16(s, 2) {
        let end = 4 + be16(s, 2);
        seq![(be16(s, 0) as u16, s.subrange(4, end))] + key_shares(s.skip(end))
    } else {
        Seq::empty()
    }
}

/// The key shares of a client: a list after its 16-bit length.
pub open spec fn client_key_shares(raw: Seq<u8>) -> Seq<(u16, Seq<u8>)> {
    if raw.len() >= 2 {
        key_shares(raw.skip(2))
    } else {
        Seq::empty()
    }
}

/// The first of a list of byte strings, or the empty one.
pub open spec fn first_or_empty(v: Seq<Seq<u8>>) -> Seq<u8> {
    if v.len() > 0 {
        v[0]
    } else {
        Seq::empty()
    }
}

/// A ClientHello with one more extension applied: its type is listed, and, where its
/// contents are stored, they replace what was stored before. Application protocols are
/// added to those before.
pub open spec fn with_client_extension(h: ClientHelloModel, e: ExtensionModel) -> ClientHelloModel {
    let h = ClientHelloModel { extension_list: h.extension_list.push(e.kind), ..h };
    if e.kind == EXT_SERVER_NAME && e.bytes.len() > 0 {
        ClientHelloModel { server_name: Some(text_or_hex(e.bytes[0])), ..h }
    } else if e.kind == EXT_SUPPORTED_GROUPS {
        ClientHelloModel { supported_groups: e.words, ..h }
    } else if e.kind == EXT_EC_POINT_FORMATS {
        ClientHelloModel { ec_point_formats: first_or_empty(e.bytes), ..h }
    } else if e.kind == EXT_SIGNATURE_ALGORITHMS {
        ClientHelloModel { signature_algs: e.words, ..h }
    } else if e.kind == EXT_ALPN {
        ClientHelloModel {
            alpn_protocols: h.alpn_protocols + e.bytes.map_values(|b: Seq<u8>| text_or_hex(b)),
            ..h
        }
    } else if e.kind == EXT_KEY_SHARE {
        ClientHelloModel { key_shares: client_key_shares(first_or_empty(e.bytes)), ..h }
    } else if e.kind == EXT_SUPPORTED_VERSIONS {
        ClientHelloModel { supported_versions: e.words, ..h }
    } else {
        h
    }
}

/// A ClientHello with extensions applied in order.
pub open spec fn with_client_extensions(
    h: ClientHelloModel,
    list: Seq<ExtensionModel>,
) -> ClientHelloModel
    decreases list.len(),
{
    if list.len() == 0 {
        h
    } else {
        with_client_extension(with_client_extensions(h, list.drop_last()), list.last())
    }
}

/// A ServerHello with one more extension applied.
pub open spec fn with_server_extension(h: ServerHelloModel, e: ExtensionModel) -> ServerHelloModel {
    let h = ServerHelloModel { extension_list: h.extension_list.push(e.kind), ..h };
    if e.kind == EXT_EC_POINT_FORMATS {
        ServerHelloModel { ec_point_formats: first_or_empty(e.bytes), ..h }
    } else if e.kind == EXT_ALPN && e.bytes.len() > 0 {
        ServerHelloModel { alpn_protocol: Some(text_or_hex(e.bytes[0])), ..h }
    } else if e.kind == EXT_KEY_SHARE && key_shares(first_or_empty(e.bytes)).len() > 0 {
        ServerHelloModel { key_share: Some(key_shares(first_or_empty(e.bytes))[0]), ..h }
    } else if e.kind == EXT_SUPPORTED_VERSIONS && e.words.len() > 0 {
        ServerHelloModel { selected_version: Some(e.words[0]), ..h }
    } else {
        h
    }
}

/// A ServerHello with extensions applied in order.
pub open spec fn with_server_extensions(
    h: ServerHelloModel,
    list: Seq<ExtensionModel>,
) -> ServerHelloModel
    decreases list.len(),
{
    if list.len() == 0 {
        h
    } else {
        with_server_extension(with_server_extensions(h, list.drop_last()), list.last())
    }
}

/// A byte string that may be absent, or the empty one.
pub open spec fn or_empty(v: Option<Seq<u8>>) -> Seq<u8> {
    match v {
        Some(s) => s,
        None => Seq::empty(),
    }
}

/// A ClientHello before its extensions are applied.
pub open spec fn bare_client_hello(c: ClientHelloFields) -> ClientHelloModel {
    ClientHelloModel {
        version: c.version,
        random: c.random,
        session_id: or_empty(c.session_id),
        cipher_suites: c.ciphers,
        compression_algs: c.comp,
        extension_list: Seq::empty(),
        server_name: None,
        supported_groups: Seq::empty(),
        ec_point_formats: Seq::empty(),
        signature_algs: Seq::empty(),
        alpn_protocols: Seq::empty(),
        key_shares: Seq::empty(),
        supported_versions: Seq::empty(),
    }
}

/// A ServerHello before its extensions are applied.
pub open spec fn bare_server_hello(c: ServerHelloFields) -> ServerHelloModel {
    ServerHelloModel {
        version: c.version,
        random: c.random,
        session_id: or_empty(c.session_id),
        cipher_suite: c.cipher,
        compression_alg: c.compression,
        extension_list: Seq::empty(),
        ec_point_formats: Seq::empty(),
        alpn_protocol: None,
        key_share: None,
        selected_version: None,
    }
}

/// The stored form of a ClientHello: its fields, and the extensions that can be read.
pub open spec fn client_hello_of(c: ClientHelloFields) -> ClientHelloModel {
    match client_extensions(or_empty(c.ext)) {
        Some(list) => with_client_extensions(bare_client_hello(c), list),
        None => bare_client_hello(c),
    }
}

/// The stored form of a ServerHello.
pub open spec fn server_hello_of(c: ServerHelloFields) -> ServerHelloModel {
    match server_extensions(or_empty(c.ext)) {
        Some(list) => with_server_extensions(bare_server_hello(c), list),
        None => bare_server_hello(c),
    }
}

fn bytes_or_empty(v: &Option<Vec<u8>>) -> (r: Vec<u8>)
    ensures
        r@ == or_empty(opt_bytes(*v)),
{
    match v {
        Some(b) => copy_range(b.as_slice(), 0, b.len()),
        None => Vec::new(),
    }
}

fn first_bytes(v: &Vec<Vec<u8>>) -> (r: Vec<u8>)
    ensures
        r@ == first_or_empty(byte_lists(v@)),
{
    if v.len() > 0 {
        copy_range(v[0].as_slice(), 0, v[0].len())
    } else {
        Vec::new()
    }
}

fn copy_words(v: &Vec<u16>) -> (r: Vec<u16>)
    ensures
        r@ == v@,
{
    vstd::slice::slice_to_vec(v.as_slice())
}

proof fn lemma_key_shares_step(s: Seq<u8>, done: Seq<(u16, Seq<u8>)>, total: Seq<(u16, Seq<u8>)>)
    requires
        done + key_shares(s) == total,
        s.len() >= 4,
        s.len() >= 4 + be16(s, 2),
    ensures
        done.push((be16(s, 0) as u16, s.subrange(4, 4 + be16(s, 2)))) + key_shares(
            s.skip(4 + be16(s, 2)),
        ) == total,
{
    let head = (be16(s, 0) as u16, s.subrange(4, 4 + be16(s, 2)));
    assert(done.push(head) + key_shares(s.skip(4 + be16(s, 2))) =~= done + (seq![head]
        + key_shares(s.skip(4 + be16(s, 2)))));
}

/// Reads the key shares that stand one after the other.
fn read_key_shares(data: &[u8]) -> (r: Vec<KeyShareEntry>)
    ensures
        shares_view(r@) == key_shares(data@),
{
    let mut out: Vec<KeyShareEntry> = Vec::new();
    let mut pos: usize = 0;
    assert(data@.skip(0) =~= data@);
    assert(shares_view(out@) + key_shares(data@) =~= key_shares(data@));
    while data.len() - pos >= 4
        invariant_except_break
            pos <= data@.len(),
            shares_view(out@) + key_shares(data@.skip(pos as int)) == key_shares(data@),
        ensures
            shares_view(out@) == key_shares(data@),
        decreases data@.len() - pos,
    {
        let rest = vstd::slice::slice_subrange(data, pos, data.len());
        assert(rest@ =~= data@.skip(pos as int));
        let group: u16 = read_be16(rest, 0);
        let len: usize = read_be16(rest, 2) as usize;
        if rest.len() - 4 < len {
            assert(shares_view(out@) + key_shares(rest@) =~= shares_view(out@));
            break;
        }
        let ghost before = shares_view(out@);
        let kx_data = copy_range(rest, 4, 4 + len);
        out.push(KeyShareEntry { group, kx_data });
        proof {
            lemma_key_shares_step(rest@, before, key_shares(data@));
            assert(shares_view(out@) =~= before.push((group, rest@.subrange(4, 4 + len))));
            assert(rest@.skip(4 + len) =~= data@.skip(pos + 4 + len));
        }
        pos = pos + 4 + len;
        if data.len() - pos < 4 {
            assert(shares_view(out@) + key_shares(data@.skip(pos as int)) =~= shares_view(out@));
        }
    }
    out
}

/// Reads a client's key shares.
fn read_client_key_shares(raw: &[u8]) -> (r: Vec<KeyShareEntry>)
    ensures
        shares_view(r@) == client_key_shares(raw@),
{
    if raw.len() >= 2 {
        let list = vstd::slice::slice_subrange(raw, 2, raw.len());
        assert(list@ =~= raw@.skip(2));
        read_key_shares(list)
    } else {
        let out: Vec<KeyShareEntry> = Vec::new();
        assert(shares_view(out@) =~= client_key_shares(raw@));
        out
    }
}

impl ClientHello {
    /// Applies one extension.
    fn apply_extension(&mut self, e: &Extension)
        ensures
            final(self)@ == with_client_extension(old(self)@, e@),
    {
        self.extension_list.push(e.kind);
        if e.kind == EXT_SERVER_NAME {
            if e.bytes.len() > 0 {
                self.server_name = Some(to_text_or_hex(e.bytes[0].as_slice()));
            }
        } else if e.kind == EXT_SUPPORTED_GROUPS {
            self.supported_groups = copy_words(&e.words);
        } else if e.kind == EXT_EC_POINT_FORMATS {
            self.ec_point_formats = first_bytes(&e.bytes);
        } else if e.kind == EXT_SIGNATURE_ALGORITHMS {
            self.signature_algs = copy_words(&e.words);
        } else if e.kind == EXT_ALPN {
            let ghost before = texts_view(self.alpn_protocols@);
            let ghost added = e@.bytes.map_values(|b: Seq<u8>| text_or_hex(b));
            let mut i: usize = 0;
            while i < e.bytes.len()
                invariant
                    i <= e.bytes@.len(),
                    added == e@.bytes.map_values(|b: Seq<u8>| text_or_hex(b)),
                    texts_view(self.alpn_protocols@) == before + added.take(i as int),
                    self@ == (ClientHelloModel {
                        alpn_protocols: self@.alpn_protocols,
                        extension_list: old(self)@.extension_list.push(e.kind),
                        ..old(self)@
                    }),
                decreases e.bytes@.len() - i,
            {
                let ghost so_far = texts_view(self.alpn_protocols@);
                let text = to_text_or_hex(e.bytes[i].as_slice());
                self.alpn_protocols.push(text);
                assert(texts_view(self.alpn_protocols@) =~= so_far.push(text@));
                i = i + 1;
                assert(before + added.take(i as int) =~= so_far.push(added[i - 1]));
            }
            assert(added.take(i as int) =~= added);
        } else if e.kind == EXT_KEY_SHARE {
            let raw = first_bytes(&e.bytes);
            self.key_shares = read_client_key_shares(raw.as_slice());
        } else if e.kind == EXT_SUPPORTED_VERSIONS {
            self.supported_versions = copy_words(&e.words);
        }
    }

    /// Puts a ClientHello together out of its fields and its extensions.
    pub fn from_parts(content: &ClientHelloContents, extensions: &Vec<Extension>) -> (h:
        ClientHello)
        ensures
            h@ == with_client_extensions(
                bare_client_hello(content@),
                extension_models(extensions@),
            ),
    {
        let mut h = ClientHello {
            version: content.version,
            random: copy_range(content.random.as_slice(), 0, content.random.len()),
            session_id: bytes_or_empty(&content.session_id),
            cipher_suites: copy_words(&content.ciphers),
            compression_algs: copy_range(content.comp.as_slice(), 0, content.comp.len()),
            extension_list: Vec::new(),
            server_name: None,
            supported_groups: Vec::new(),
            ec_point_formats: Vec::new(),
            signature_algs: Vec::new(),
            alpn_protocols: Vec::new(),
            key_shares: Vec::new(),
            supported_versions: Vec::new(),
        };
        let ghost models = extension_models(extensions@);
        proof {
            assert(h@.random =~= content@.random);
            assert(h@.compression_algs =~= content@.comp);
            assert(h@.alpn_protocols =~= Seq::empty());
            assert(h@.key_shares =~= Seq::empty());
            assert(models.take(0) =~= Seq::empty());
        }
        let mut i: usize = 0;
        while i < extensions.len()
            invariant
                i <= extensions@.len(),
                models == extension_models(extensions@),
                h@ == with_client_extensions(bare_client_hello(content@), models.take(i as int)),
            decreases extensions@.len() - i,
        {
            h.apply_extension(&extensions[i]);
            i = i + 1;
            assert(models.take(i as int).drop_last() =~= models.take(i - 1));
            assert(models.take(i as int).last() == extensions@[i - 1]@);
        }
        assert(models.take(i as int) =~= models);
        h
    }
}

impl ServerHello {
    /// Applies one extension.
    fn apply_extension(&mut self, e: &Extension)
        ensures
            final(self)@ == with_server_extension(old(self)@, e@),
    {
        self.extension_list.push(e.kind);
        if e.kind == EXT_EC_POINT_FORMATS {
            self.ec_point_formats = first_bytes(&e.bytes);
        } else if e.kind == EXT_ALPN {
            if e.bytes.len() > 0 {
                self.alpn_protocol = Some(to_text_or_hex(e.bytes[0].as_slice()));
            }
        } else if e.kind == EXT_KEY_SHARE {
            let raw = first_bytes(&e.bytes);
            let mut shares = read_key_shares(raw.as_slice());
            if shares.len() > 0 {
                assert(shares_view(shares@)[0] == share_view(shares@[0]));
                self.key_share = Some(shares.remove(0));
            }
        } else if e.kind == EXT_SUPPORTED_VERSIONS {
            if e.words.len() > 0 {
                self.selected_version = Some(e.words[0]);
            }
        }
    }

    /// Puts a ServerHello together out of its fields and its extensions.
    pub fn from_parts(content: &ServerHelloContents, extensions: &Vec<Extension>) -> (h:
        ServerHello)
        ensures
            h@ == with_server_extensions(
                bare_server_hello(content@),
                extension_models(extensions@),
            ),
    {
        let mut h = ServerHello {
            version: content.version,
            random: copy_range(content.random.as_slice(), 0, content.random.len()),
            session_id: bytes_or_empty(&content.session_id),
            cipher_suite: content.cipher,
            compression_alg: content.compression,
            extension_list: Vec::new(),
            ec_point_formats: Vec::new(),
            alpn_protocol: None,
            key_share: None,
            selected_version: None,
        };
        let ghost models = extension_models(extensions@);
        proof {
            assert(h@.random =~= content@.random);
            assert(models.take(0) =~= Seq::empty());
        }
        let mut i: usize = 0;
        while i < extensions.len()
            invariant
                i <= extensions@.len(),
                models == extension_models(extensions@),
                h@ == with_server_extensions(bare_server_hello(content@), models.take(i as int)),
            decreases extensions@.len() - i,
        {
            h.apply_extension(&extensions[i]);
            i = i + 1;
            assert(models.take(i as int).drop_last() =~= models.take(i - 1));
            assert(models.take(i as int).last() == extensions@[i - 1]@);
        }
        assert(models.take(i as int) =~= models);
        h
    }
}

/// Key exchange methods whose parameters are stored, by their numbers.
pub const KX_RSA: u8 = 4;

pub const KX_DH: u8 = 5;

pub const KX_DHE: u8 = 6;

pub const KX_ECDH: u8 = 7;

pub const KX_ECDHE: u8 = 8;

/// Handshake types of the key exchange messages.
pub const SERVER_KEY_EXCHANGE: u8 = 0x0c;

pub const CLIENT_KEY_EXCHANGE: u8 = 0x10;

/// Severity of a fatal alert.
pub const FATAL: u8 = 2;

/// Parameters of a ServerKeyExchange message.
#[derive(Debug)]
pub enum ServerKeyExchange {
    Ecdh { curve: u16, kx_data: Vec<u8> },
    Dh { prime: Vec<u8>, generator: Vec<u8>, kx_data: Vec<u8> },
    Rsa { modulus: Vec<u8>, exponent: Vec<u8> },
    Unknown(Vec<u8>),
}

/// Parameters of a ClientKeyExchange message.
#[derive(Debug)]
pub enum ClientKeyExchange {
    Ecdh { kx_data: Vec<u8> },
    Dh { kx_data: Vec<u8> },
    Rsa { encrypted_pms: Vec<u8> },
    Unknown(Vec<u8>),
}

/// Parameters of a ServerKeyExchange message, as sequences.
pub enum ServerKxModel {
    Ecdh { curve: u16, kx_data: Seq<u8> },
    Dh { prime: Seq<u8>, generator: Seq<u8>, kx_data: Seq<u8> },
    Rsa { modulus: Seq<u8>, exponent: Seq<u8> },
    Unknown(Seq<u8>),
}

/// Parameters of a ClientKeyExchange message, as sequences.
pub enum ClientKxModel {
    Ecdh { kx_data: Seq<u8> },
    Dh { kx_data: Seq<u8> },
    Rsa { encrypted_pms: Seq<u8> },
    Unknown(Seq<u8>),
}

impl View for ServerKeyExchange {
    type V = ServerKxModel;

    open spec fn view(&self) -> ServerKxModel {
        match self {
            ServerKeyExchange::Ecdh { curve, kx_data } => ServerKxModel::Ecdh {
                curve: *curve,
                kx_data: kx_data@,
            },
            ServerKeyExchange::Dh { prime, generator, kx_data } => ServerKxModel::Dh {
                prime: prime@,
                generator: generator@,
                kx_data: kx_data@,
            },
            ServerKeyExchange::Rsa { modulus, exponent } => ServerKxModel::Rsa {
                modulus: modulus@,
                exponent: exponent@,
            },
            ServerKeyExchange::Unknown(p) => ServerKxModel::Unknown(p@),
        }
    }
}

impl View for ClientKeyExchange {
    type V = ClientKxModel;

    open spec fn view(&self) -> ClientKxModel {
        match self {
            ClientKeyExchange::Ecdh { kx_data } => ClientKxModel::Ecdh { kx_data: kx_data@ },
            ClientKeyExchange::Dh { kx_data } => ClientKxModel::Dh { kx_data: kx_data@ },
            ClientKeyExchange::Rsa { encrypted_pms } => ClientKxModel::Rsa {
                encrypted_pms: encrypted_pms@,
            },
            ClientKeyExchange::Unknown(p) => ClientKxModel::Unknown(p@),
        }
    }
}

/// The byte string at the start whose length the byte before it states.
pub open spec fn string8(data: Seq<u8>) -> Option<Seq<u8>> {
    if data.len() >= 1 && data.len() >= 1 + data[0] {
        Some(data.subrange(1, 1 + data[0]))
    } else {
        None
    }
}

/// What the parameters of a ServerKeyExchange say under a key exchange method, if they can
/// be read.
pub open spec fn server_kx(kx: u8, params: Seq<u8>) -> Option<ServerKxModel> {
    if kx == KX_ECDHE || kx == KX_ECDH {
        match named_curve_params(params) {
            Some((curve, kx_data)) => Some(ServerKxModel::Ecdh { curve, kx_data }),
            None => None,
        }
    } else if kx == KX_DHE || kx == KX_DH {
        match dh_params(params) {
            Some((prime, generator, kx_data)) => Some(
                ServerKxModel::Dh { prime, generator, kx_data },
            ),
            None => None,
        }
    } else if kx == KX_RSA {
        match string16(params, 0) {
            Some(modulus) => match string16(params, 2 + modulus.len() as int) {
                Some(exponent) => Some(ServerKxModel::Rsa { modulus, exponent }),
                None => None,
            },
            None => None,
        }
    } else {
        Some(ServerKxModel::Unknown(params))
    }
}

/// What the parameters of a ClientKeyExchange say under a key exchange method, if they can
/// be read.
pub open spec fn client_kx(kx: u8, params: Seq<u8>) -> Option<ClientKxModel> {
    if kx == KX_ECDHE || kx == KX_ECDH {
        match string8(params) {
            Some(kx_data) => Some(ClientKxModel::Ecdh { kx_data }),
            None => None,
        }
    } else if kx == KX_DHE || kx == KX_DH {
        match string16(params, 0) {
            Some(kx_data) => Some(ClientKxModel::Dh { kx_data }),
            None => None,
        }
    } else if kx == KX_RSA {
        match string16(params, 0) {
            Some(encrypted_pms) => Some(ClientKxModel::Rsa { encrypted_pms }),
            None => None,
        }
    } else {
        Some(ClientKxModel::Unknown(params))
    }
}

fn read_string8(data: &[u8]) -> (r: Option<Vec<u8>>)
    ensures
        match r {
            Some(s) => string8(data@) == Some(s@),
            None => string8(data@) is None,
        },
{
    if data.len() >= 1 && data.len() - 1 >= data[0] as usize {
        Some(copy_range(data, 1, 1 + data[0] as usize))
    } else {
        None
    }
}

fn read_string16(data: &[u8], pos: usize) -> (r: Option<Vec<u8>>)
    requires
        pos <= data@.len(),
    ensures
        match r {
            Some(s) => string16(data@, pos as int) == Some(s@) && pos + 2 + s@.len()
                <= data@.len(),
            None => string16(data@, pos as int) is None,
        },
{
    if data.len() - pos < 2 {
        return None;
    }
    let len: usize = read_be16(data, pos) as usize;
    if data.len() - pos - 2 < len {
        return None;
    }
    Some(copy_range(data, pos + 2, pos + 2 + len))
}

/// Reads the parameters of a ServerKeyExchange under a key exchange method.
pub fn read_server_kx(kx: u8, params: &[u8]) -> (r: Option<ServerKeyExchange>)
    ensures
        match r {
            Some(k) => server_kx(kx, params@) == Some(k@),
            None => server_kx(kx, params@) is None,
        },
{
    if kx == KX_ECDHE || kx == KX_ECDH {
        match read_ecdh_params(params) {
            Some((curve, kx_data)) => Some(ServerKeyExchange::Ecdh { curve, kx_data }),
            None => None,
        }
    } else if kx == KX_DHE || kx == KX_DH {
        match read_dh_params(params) {
            Some((prime, generator, kx_data)) => Some(
                ServerKeyExchange::Dh { prime, generator, kx_data },
            ),
            None => None,
        }
    } else if kx == KX_RSA {
        match read_string16(params, 0) {
            Some(modulus) => {
                let pos: usize = 2 + modulus.len();
                match read_string16(params, pos) {
                    Some(exponent) => Some(ServerKeyExchange::Rsa { modulus, exponent }),
                    None => None,
                }
            },
            None => None,
        }
    } else {
        let all = copy_range(params, 0, params.len());
        assert(all@ =~= params@);
        Some(ServerKeyExchange::Unknown(all))
    }
}

/// Reads the parameters of a ClientKeyExchange under a key exchange method.
pub fn read_client_kx(kx: u8, params: &[u8]) -> (r: Option<ClientKeyExchange>)
    ensures
        match r {
            Some(k) => client_kx(kx, params@) == Some(k@),
            None => client_kx(kx, params@) is None,
        },
{
    if kx == KX_ECDHE || kx == KX_ECDH {
        match read_string8(params) {
            Some(kx_data) => Some(ClientKeyExchange::Ecdh { kx_data }),
            None => None,
        }
    } else if kx == KX_DHE || kx == KX_DH {
        match read_string16(params, 0) {
            Some(kx_data) => Some(ClientKeyExchange::Dh { kx_data }),
            None => None,
        }
    } else if kx == KX_RSA {
        match read_string16(params, 0) {
            Some(encrypted_pms) => Some(ClientKeyExchange::Rsa { encrypted_pms }),
            None => None,
        }
    } else {
        let all = copy_range(params, 0, params.len());
        assert(all@ =~= params@);
        Some(ClientKeyExchange::Unknown(all))
    }
}

/// A TLS handshake.
#[derive(Debug)]
pub struct Tls {
    pub client_hello: Option<ClientHello>,
    pub server_hello: Option<ServerHello>,
    pub server_certificates: Vec<Vec<u8>>,
    pub client_certificates: Vec<Vec<u8>>,
    pub server_key_exchange: Option<ServerKeyExchange>,
    pub client_key_exchange: Option<ClientKeyExchange>,
    pub state: TlsState,
    pub tcp_buffer: Vec<u8>,
    pub record_buffer: Vec<u8>,
    pub last_body_offset: Option<usize>,
}

/// A TLS handshake, as sequences.
pub struct TlsModel {
    pub client_hello: Option<ClientHelloModel>,
    pub server_hello: Option<ServerHelloModel>,
    pub server_certificates: Seq<Seq<u8>>,
    pub client_certificates: Seq<Seq<u8>>,
    pub server_key_exchange: Option<ServerKxModel>,
    pub client_key_exchange: Option<ClientKxModel>,
    pub state: TlsState,
    pub tcp_buffer: Seq<u8>,
    pub record_buffer: Seq<u8>,
    pub last_body_offset: Option<usize>,
}

pub open spec fn opt_client_hello(h: Option<ClientHello>) -> Option<ClientHelloModel> {
    match h {
        Some(h) => Some(h@),
        None => None,
    }
}

pub open spec fn opt_server_hello(h: Option<ServerHello>) -> Option<ServerHelloModel> {
    match h {
        Some(h) => Some(h@),
        None => None,
    }
}

pub open spec fn opt_server_kx(k: Option<ServerKeyExchange>) -> Option<ServerKxModel> {
    match k {
        Some(k) => Some(k@),
        None => None,
    }
}

pub open spec fn opt_client_kx(k: Option<ClientKeyExchange>) -> Option<ClientKxModel> {
    match k {
        Some(k) => Some(k@),
        None => None,
    }
}

impl View for Tls {
    type V = TlsModel;

    open spec fn view(&self) -> TlsModel {
        TlsModel {
            client_hello: opt_client_hello(self.client_hello),
            server_hello: opt_server_hello(self.server_hello),
            server_certificates: byte_lists(self.server_certificates@),
            client_certificates: byte_lists(self.client_certificates@),
            server_key_exchange: opt_server_kx(self.server_key_exchange),
            client_key_exchange: opt_client_kx(self.client_key_exchange),
            state: self.state,
            tcp_buffer: self.tcp_buffer@,
            record_buffer: self.record_buffer@,
            last_body_offset: self.last_body_offset,
        }
    }
}

/// A handshake of which nothing has been seen.
pub open spec fn no_handshake() -> TlsModel {
    TlsModel {
        client_hello: None,
        server_hello: None,
        server_certificates: Seq::empty(),
        client_certificates: Seq::empty(),
        server_key_exchange: None,
        client_key_exchange: None,
        state: TlsState::Start,
        tcp_buffer: Seq::empty(),
        record_buffer: Seq::empty(),
        last_body_offset: None,
    }
}

/// The key exchange method of the cipher suite that the server chose.
pub open spec fn chosen_kx(m: TlsModel) -> Option<u8> {
    match m.server_hello {
        Some(h) => cipher_kx(h.cipher_suite),
        None => None,
    }
}

/// The handshake with a ServerKeyExchange applied: stored if the key exchange method is
/// known and its parameters can be read.
pub open spec fn with_server_kx(m: TlsModel, params: Seq<u8>) -> TlsModel {
    match chosen_kx(m) {
        Some(kx) => match server_kx(kx, params) {
            Some(k) => TlsModel { server_key_exchange: Some(k), ..m },
            None => m,
        },
        None => m,
    }
}

/// The handshake with a ClientKeyExchange applied.
pub open spec fn with_client_kx(m: TlsModel, params: Seq<u8>) -> TlsModel {
    match chosen_kx(m) {
        Some(kx) => match client_kx(kx, params) {
            Some(k) => TlsModel { client_key_exchange: Some(k), ..m },
            None => m,
        },
        None => m,
    }
}

/// The handshake with certificates added on the side that sent them.
pub open spec fn with_certificates(m: TlsModel, certs: Seq<Seq<u8>>, direction: bool) -> TlsModel {
    if direction {
        TlsModel { client_certificates: m.client_certificates + certs, ..m }
    } else {
        TlsModel { server_certificates: m.server_certificates + certs, ..m }
    }
}

/// The handshake with what a handshake message says applied.
pub open spec fn with_handshake_message(m: TlsModel, message: Seq<u8>, direction: bool) -> TlsModel {
    match handshake_message(message) {
        HandshakeModel::ClientHello(c) => TlsModel { client_hello: Some(client_hello_of(c)), ..m },
        HandshakeModel::ServerHello(c) => TlsModel { server_hello: Some(server_hello_of(c)), ..m },
        HandshakeModel::Certificate(certs) => with_certificates(m, certs, direction),
        HandshakeModel::Other => if message.len() >= 4 && message[0] == SERVER_KEY_EXCHANGE {
            with_server_kx(m, message.skip(4))
        } else if message.len() >= 4 && message[0] == CLIENT_KEY_EXCHANGE {
            with_client_kx(m, message.skip(4))
        } else {
            m
        },
    }
}

/// The state after a message. A change of cipher spec right after the ServerHello ends the
/// handshake, as middlebox compatibility has it (RFC 8446); other transitions are the state
/// machine's, and one that it does not allow is invalid.
pub open spec fn state_after(state: TlsState, record_type: u8, message: Seq<u8>, direction: bool) -> TlsState {
    if state == TlsState::ServerHello && record_type == CHANGE_CIPHER_SPEC {
        TlsState::ClientChangeCipherSpec
    } else {
        match state_transition(state.code(), record_type, message, direction) {
            Some(code) => choose|s: TlsState| s.code() == code,
            None => TlsState::Invalid,
        }
    }
}

/// What one message does to the handshake, and what it concludes. The session is over once
/// it is encrypted, and on a fatal alert.
pub open spec fn message_step(
    m: TlsModel,
    record_type: u8,
    message: Seq<u8>,
    direction: bool,
) -> (TlsModel, ParseResult) {
    if m.state == TlsState::ClientChangeCipherSpec {
        (m, ParseResult::HeadersDone(0))
    } else {
        let moved = TlsModel { state: state_after(m.state, record_type, message, direction), ..m };
        if record_type == HANDSHAKE {
            (with_handshake_message(moved, message, direction), ParseResult::Continue(0))
        } else if record_type == ALERT && message.len() > 0 && message[0] == FATAL {
            (moved, ParseResult::HeadersDone(0))
        } else {
            (moved, ParseResult::Continue(0))
        }
    }
}

/// The message with number `i` in the contents of a record.
pub open spec fn message_at(data: Seq<u8>, record_type: u8, i: nat) -> Seq<u8> {
    data.subrange(frames_end(data, record_type, i), frames_end(data, record_type, i + 1))
}

/// Works off the messages of a record from number `i` on, until one concludes something.
/// If the handshake is over and bytes of the segment remain, the offset of what follows is
/// noted.
pub open spec fn messages_step(
    m: TlsModel,
    record_type: u8,
    data: Seq<u8>,
    i: nat,
    count: nat,
    rest: usize,
    direction: bool,
    pdu_len: usize,
) -> (TlsModel, ParseResult)
    decreases count - i,
{
    if i >= count {
        (m, ParseResult::Continue(0))
    } else {
        let (next, status) = message_step(m, record_type, message_at(data, record_type, i), direction);
        if status == ParseResult::Continue(0) {
            messages_step(next, record_type, data, i + 1, count, rest, direction, pdu_len)
        } else if status is HeadersDone && 0 < rest < pdu_len {
            (
                TlsModel { last_body_offset: Some((pdu_len - rest - 1) as usize), ..next },
                status,
            )
        } else {
            (next, status)
        }
    }
}

/// The first handshake message is not all there: more records have to come.
pub open spec fn needs_more(record_type: u8, data: Seq<u8>) -> bool {
    record_type == HANDSHAKE && (data.len() < 4 || frame_len(data, record_type, 0) > data.len())
}

/// What is found in the contents of a record: nothing yet, if its first message is not all
/// there.
pub open spec fn record_contents(
    data: Seq<u8>,
    record_type: u8,
    version: u16,
    len: u16,
) -> RecordParse {
    if needs_more(record_type, data) {
        RecordParse::Incomplete
    } else {
        record_parse(data, record_type, version, len)
    }
}

/// What one record does to the handshake. Only records of a handshake count; the contents
/// of one that needs more data are kept and put before those of the next.
pub open spec fn record_step(
    m: TlsModel,
    record_type: u8,
    version: u16,
    len: u16,
    data: Seq<u8>,
    direction: bool,
    pdu_len: usize,
) -> (TlsModel, ParseResult) {
    if m.state == TlsState::ClientChangeCipherSpec {
        (m, ParseResult::HeadersDone(0))
    } else if record_type != CHANGE_CIPHER_SPEC && record_type != HANDSHAKE && record_type
        != ALERT {
        (m, ParseResult::Continue(0))
    } else if m.record_buffer.len() > 0 && m.record_buffer.len() + data.len() > MAX_BUFFERED {
        (m, ParseResult::Skipped)
    } else {
        let all = m.record_buffer + data;
        let cleared = TlsModel { record_buffer: Seq::empty(), ..m };
        match record_contents(all, record_type, version, len) {
            RecordParse::Messages { count, rest } => messages_step(
                cleared,
                record_type,
                all,
                0,
                count as nat,
                rest,
                direction,
                pdu_len,
            ),
            RecordParse::Incomplete => (
                TlsModel { record_buffer: all, ..m },
                ParseResult::Continue(0),
            ),
            RecordParse::Invalid => (cleared, ParseResult::Skipped),
        }
    }
}

/// A message that is spread over any number of records is put together: as long as it is
/// incomplete, the contents of each record are added to those of the records before it.
pub proof fn law_record_fragments_add_up(
    m: TlsModel,
    record_type: u8,
    version: u16,
    len: u16,
    data: Seq<u8>,
    direction: bool,
    pdu_len: usize,
)
    requires
        m.state != TlsState::ClientChangeCipherSpec,
        record_type == HANDSHAKE,
        m.record_buffer.len() + data.len() <= MAX_BUFFERED,
        needs_more(record_type, m.record_buffer + data),
    ensures
        record_step(m, record_type, version, len, data, direction, pdu_len) == (
            TlsModel { record_buffer: m.record_buffer + data, ..m },
            ParseResult::Continue(0),
        ),
{
}

/// Works off the records in `data`, until one concludes something. What is left of a record
/// that is not all there is kept for the next segment.
pub open spec fn records_step(m: TlsModel, data: Seq<u8>, direction: bool, pdu_len: usize) -> (
    TlsModel,
    ParseResult,
)
    decreases data.len(),
{
    if data.len() == 0 {
        (m, ParseResult::Continue(0))
    } else {
        match record_read(data) {
            RecordRead::Record { record_type, version, len } => {
                let end = RECORD_HEADER_LEN + len;
                let (next, status) = record_step(
                    m,
                    record_type,
                    version,
                    len,
                    data.subrange(RECORD_HEADER_LEN as int, end),
                    direction,
                    pdu_len,
                );
                if status == ParseResult::Continue(0) {
                    records_step(next, data.skip(end), direction, pdu_len)
                } else {
                    (next, status)
                }
            },
            RecordRead::Incomplete => (
                TlsModel { tcp_buffer: m.tcp_buffer + data, ..m },
                ParseResult::Continue(0),
            ),
            RecordRead::Invalid => (m, ParseResult::Continue(0)),
        }
    }
}

/// The v3-compatible cipher suites of an SSLv2-format ClientHello: those with a leading
/// byte of 0.
pub open spec fn v3_suites(specs: Seq<u32>) -> Seq<u16>
    decreases specs.len(),
{
    if specs.len() == 0 {
        Seq::empty()
    } else if specs.last() < 0x1_0000 {
        v3_suites(specs.drop_last()).push(specs.last() as u16)
    } else {
        v3_suites(specs.drop_last())
    }
}

/// An SSLv2-format ClientHello as a ClientHello. Extensions, compression methods and the
/// server name are not part of the format.
pub open spec fn hello_of_sslv2(h: SslV2Hello) -> ClientHelloModel {
    ClientHelloModel {
        version: h.version,
        random: h.challenge,
        session_id: h.session_id,
        cipher_suites: v3_suites(h.cipher_specs),
        compression_algs: Seq::empty(),
        extension_list: Seq::empty(),
        server_name: None,
        supported_groups: Seq::empty(),
        ec_point_formats: Seq::empty(),
        signature_algs: Seq::empty(),
        alpn_protocols: Seq::empty(),
        key_shares: Seq::empty(),
        supported_versions: Seq::empty(),
    }
}

/// The handshake with an SSLv2-format ClientHello applied.
pub open spec fn with_sslv2_hello(m: TlsModel, h: SslV2Hello) -> TlsModel {
    TlsModel { client_hello: Some(hello_of_sslv2(h)), state: TlsState::ClientHello, ..m }
}

/// What one TCP segment does to the handshake. What earlier segments left over is put
/// before it. The very first message may be an SSLv2-format ClientHello.
pub open spec fn segment_step(m: TlsModel, data: Seq<u8>, direction: bool) -> (
    TlsModel,
    ParseResult,
) {
    let pdu_len = data.len() as usize;
    if m.state == TlsState::ClientChangeCipherSpec {
        (m, ParseResult::HeadersDone(0))
    } else if m.tcp_buffer.len() > 0 && m.tcp_buffer.len() + data.len() > MAX_BUFFERED {
        (m, ParseResult::Skipped)
    } else {
        let all = m.tcp_buffer + data;
        let cleared = TlsModel { tcp_buffer: Seq::empty(), ..m };
        if m.state == TlsState::Start {
            match sslv2_hello(all) {
                Ok((n, hello)) => records_step(
                    with_sslv2_hello(cleared, hello),
                    all.skip(n),
                    direction,
                    pdu_len,
                ),
                Err(SslV2Error::Incomplete) => (
                    TlsModel { tcp_buffer: all, ..m },
                    ParseResult::Continue(0),
                ),
                Err(SslV2Error::Malformed) => records_step(cleared, all, direction, pdu_len),
            }
        } else {
            records_step(cleared, all, direction, pdu_len)
        }
    }
}

proof fn lemma_frames_grow(data: Seq<u8>, record_type: u8, i: nat, n: nat)
    requires
        i <= n,
    ensures
        0 <= frames_end(data, record_type, i) <= frames_end(data, record_type, n),
    decreases n,
{
    if i < n {
        lemma_frames_grow(data, record_type, i, (n - 1) as nat);
    } else if n > 0 {
        lemma_frames_grow(data, record_type, (n - 1) as nat, (n - 1) as nat);
    }
}

/// Length of the message at `pos`.
fn read_frame_len(data: &[u8], record_type: u8, pos: usize) -> (n: usize)
    requires
        record_type == HANDSHAKE ==> pos + 4 <= data@.len(),
        record_type == CHANGE_CIPHER_SPEC || record_type == ALERT || record_type == HANDSHAKE,
    ensures
        n == frame_len(data@, record_type, pos as int),
{
    if record_type == CHANGE_CIPHER_SPEC {
        1
    } else if record_type == ALERT {
        2
    } else {
        assert(data@.len() == data.len());
        4 + (data[pos + 1] as usize * 0x1_0000 + read_be16(data, pos + 2) as usize)
    }
}

fn push_all(to: &mut Vec<Vec<u8>>, from: Vec<Vec<u8>>)
    ensures
        byte_lists(final(to)@) == byte_lists(old(to)@) + byte_lists(from@),
{
    let mut from = from;
    let ghost all = from@;
    let ghost before = to@;
    while from.len() > 0
        invariant
            before.len() <= to@.len(),
            to@.len() - before.len() + from@.len() == all.len(),
            from@ == all.skip(to@.len() - before.len()),
            to@ == before + all.take(to@.len() - before.len()),
        decreases from@.len(),
    {
        let ghost n = to@.len() - before.len();
        let item = from.remove(0);
        assert(item == all[n]);
        to.push(item);
        assert(from@ =~= all.skip(n + 1));
        assert(to@ =~= before + all.take(n + 1));
    }
    assert(all.take(all.len() as int) =~= all);
    assert(byte_lists(to@) =~= byte_lists(before) + byte_lists(all));
}

impl Tls {
    /// Allocates a new handshake instance.
    pub fn new() -> (t: Tls)
        ensures
            t@ == no_handshake(),
    {
        let t = Tls {
            client_hello: None,
            server_hello: None,
            server_certificates: Vec::new(),
            client_certificates: Vec::new(),
            server_key_exchange: None,
            client_key_exchange: None,
            state: TlsState::Start,
            tcp_buffer: Vec::new(),
            record_buffer: Vec::new(),
            last_body_offset: None,
        };
        assert(t@.server_certificates =~= Seq::empty());
        assert(t@.client_certificates =~= Seq::empty());
        t
    }

    /// Applies a parsed SSLv2-format ClientHello as this connection's ClientHello and
    /// advances the state machine as if a v3 ClientHello had just been parsed, so that the
    /// rest of the handshake proceeds through the normal state machine.
    pub fn parse_sslv2_handshake(&mut self, hello: SslV2ClientHello)
        ensures
            final(self)@ == with_sslv2_hello(old(self)@, hello@),
    {
        let mut cipher_suites: Vec<u16> = Vec::new();
        let mut i: usize = 0;
        let ghost specs = hello.cipher_specs@;
        assert(specs.take(0) =~= Seq::empty());
        while i < hello.cipher_specs.len()
            invariant
                i <= specs.len(),
                specs == hello.cipher_specs@,
                cipher_suites@ == v3_suites(specs.take(i as int)),
            decreases specs.len() - i,
        {
            let spec_id: u32 = hello.cipher_specs[i];
            assert(specs.take(i + 1).drop_last() =~= specs.take(i as int));
            if spec_id < 0x1_0000 {
                cipher_suites.push(spec_id as u16);
            }
            i = i + 1;
        }
        assert(specs.take(i as int) =~= specs);
        let h = ClientHello {
            version: hello.version,
            random: hello.challenge,
            session_id: hello.session_id,
            cipher_suites,
            compression_algs: Vec::new(),
            extension_list: Vec::new(),
            server_name: None,
            supported_groups: Vec::new(),
            ec_point_formats: Vec::new(),
            signature_algs: Vec::new(),
            alpn_protocols: Vec::new(),
            key_shares: Vec::new(),
            supported_versions: Vec::new(),
        };
        assert(h@.alpn_protocols =~= Seq::empty());
        assert(h@.key_shares =~= Seq::empty());
        self.client_hello = Some(h);
        self.state = TlsState::ClientHello;
    }

    /// Stores a ClientHello message and the extensions that can be read from it.
    pub fn parse_handshake_clienthello(&mut self, content: &ClientHelloContents)
        ensures
            final(self)@ == (TlsModel {
                client_hello: Some(client_hello_of(content@)),
                ..old(self)@
            }),
    {
        let ext = bytes_or_empty(&content.ext);
        let list = match client_extension_list(ext.as_slice()) {
            Some(list) => list,
            None => Vec::new(),
        };
        assert(client_extensions(ext@) is None ==> extension_models(list@) =~= Seq::empty());
        self.client_hello = Some(ClientHello::from_parts(content, &list));
    }

    /// Stores a ServerHello message and the extensions that can be read from it.
    pub fn parse_handshake_serverhello(&mut self, content: &ServerHelloContents)
        ensures
            final(self)@ == (TlsModel {
                server_hello: Some(server_hello_of(content@)),
                ..old(self)@
            }),
    {
        let ext = bytes_or_empty(&content.ext);
        let list = match server_extension_list(ext.as_slice()) {
            Some(list) => list,
            None => Vec::new(),
        };
        assert(server_extensions(ext@) is None ==> extension_models(list@) =~= Seq::empty());
        self.server_hello = Some(ServerHello::from_parts(content, &list));
    }

    /// Stores the certificates of a Certificate message, on the side that sent them.
    pub fn parse_handshake_certificate(&mut self, certs: Vec<Vec<u8>>, direction: bool)
        ensures
            final(self)@ == with_certificates(old(self)@, byte_lists(certs@), direction),
    {
        if direction {
            push_all(&mut self.client_certificates, certs);
        } else {
            push_all(&mut self.server_certificates, certs);
        }
    }

    /// Key exchange method of the cipher suite that the server chose, by its number.
    fn key_exchange_method(&self) -> (r: Option<u8>)
        ensures
            r == chosen_kx(self@),
    {
        match &self.server_hello {
            Some(h) => read_cipher_kx(h.cipher_suite),
            None => None,
        }
    }

    /// Stores the parameters of a ServerKeyExchange message.
    pub fn parse_handshake_serverkeyexchange(&mut self, parameters: &[u8])
        ensures
            final(self)@ == with_server_kx(old(self)@, parameters@),
    {
        match self.key_exchange_method() {
            Some(kx) => match read_server_kx(kx, parameters) {
                Some(k) => {
                    self.server_key_exchange = Some(k);
                },
                None => {},
            },
            None => {},
        }
    }

    /// Stores the parameters of a ClientKeyExchange message.
    pub fn parse_handshake_clientkeyexchange(&mut self, parameters: &[u8])
        ensures
            final(self)@ == with_client_kx(old(self)@, parameters@),
    {
        match self.key_exchange_method() {
            Some(kx) => match read_client_kx(kx, parameters) {
                Some(k) => {
                    self.client_key_exchange = Some(k);
                },
                None => {},
            },
            None => {},
        }
    }

    /// Moves the state machine on.
    fn advance(&mut self, record_type: u8, message: &[u8], direction: bool)
        ensures
            final(self)@ == (TlsModel {
                state: state_after(old(self)@.state, record_type, message@, direction),
                ..old(self)@
            }),
    {
        if self.state == TlsState::ServerHello && record_type == CHANGE_CIPHER_SPEC {
            self.state = TlsState::ClientChangeCipherSpec;
        } else {
            match next_state(self.state.to_code(), record_type, message, direction) {
                Some(code) => {
                    let next = TlsState::from_code(code);
                    proof {
                        let s = choose|s: TlsState| s.code() == code;
                        law_states_are_numbered(s, next);
                    }
                    self.state = next;
                },
                None => {
                    self.state = TlsState::Invalid;
                },
            }
        }
    }

    /// Applies what a handshake message says.
    fn apply_handshake_message(&mut self, message: &[u8], direction: bool)
        ensures
            final(self)@ == with_handshake_message(old(self)@, message@, direction),
    {
        match read_client_hello(message) {
            Some(content) => {
                self.parse_handshake_clienthello(&content);
                return;
            },
            None => {},
        }
        match read_server_hello(message) {
            Some(content) => {
                self.parse_handshake_serverhello(&content);
                return;
            },
            None => {},
        }
        match read_certificates(message) {
            Some(certs) => {
                self.parse_handshake_certificate(certs, direction);
                return;
            },
            None => {},
        }
        if message.len() >= 4 {
            let parameters = vstd::slice::slice_subrange(message, 4, message.len());
            assert(parameters@ =~= message@.skip(4));
            if message[0] == SERVER_KEY_EXCHANGE {
                self.parse_handshake_serverkeyexchange(parameters);
            } else if message[0] == CLIENT_KEY_EXCHANGE {
                self.parse_handshake_clientkeyexchange(parameters);
            }
        }
    }

    /// Parses one TLS message, of a record of the given type.
    pub fn parse_message_level(&mut self, record_type: u8, message: &[u8], direction: bool) -> (r:
        ParseResult)
        ensures
            (final(self)@, r) == message_step(old(self)@, record_type, message@, direction),
    {
        // Do not parse if the session is encrypted.
        if self.state == TlsState::ClientChangeCipherSpec {
            return ParseResult::HeadersDone(0);
        }
        self.advance(record_type, message, direction);
        if record_type == HANDSHAKE {
            self.apply_handshake_message(message, direction);
        } else if record_type == ALERT && message.len() > 0 && message[0] == FATAL {
            return ParseResult::HeadersDone(0);
        }
        ParseResult::Continue(0)
    }

    /// Parses the messages of a record one by one.
    fn parse_messages(
        &mut self,
        record_type: u8,
        data: &[u8],
        count: usize,
        rest: usize,
        direction: bool,
        pdu_len: usize,
    ) -> (r: ParseResult)
        requires
            record_type == CHANGE_CIPHER_SPEC || record_type == ALERT || record_type == HANDSHAKE,
            frames_end(data@, record_type, count as nat) + rest == data@.len(),
        ensures
            (final(self)@, r) == messages_step(
                old(self)@,
                record_type,
                data@,
                0,
                count as nat,
                rest,
                direction,
                pdu_len,
            ),
    {
        let ghost goal = messages_step(
            self@,
            record_type,
            data@,
            0,
            count as nat,
            rest,
            direction,
            pdu_len,
        );
        let mut i: usize = 0;
        let mut pos: usize = 0;
        while i < count
            invariant
                i <= count,
                record_type == CHANGE_CIPHER_SPEC || record_type == ALERT || record_type
                    == HANDSHAKE,
                frames_end(data@, record_type, count as nat) + rest == data@.len(),
                pos == frames_end(data@, record_type, i as nat),
                goal == messages_step(
                    old(self)@,
                    record_type,
                    data@,
                    0,
                    count as nat,
                    rest,
                    direction,
                    pdu_len,
                ),
                goal == messages_step(
                    self@,
                    record_type,
                    data@,
                    i as nat,
                    count as nat,
                    rest,
                    direction,
                    pdu_len,
                ),
            decreases count - i,
        {
            proof {
                lemma_frames_grow(data@, record_type, (i + 1) as nat, count as nat);
                lemma_frames_grow(data@, record_type, i as nat, (i + 1) as nat);
            }
            let len: usize = read_frame_len(data, record_type, pos);
            assert(data@.len() == data.len());
            let message = vstd::slice::slice_subrange(data, pos, pos + len);
            assert(message@ == message_at(data@, record_type, i as nat));
            let status = self.parse_message_level(record_type, message, direction);
            if status != ParseResult::Continue(0) {
                // Handshake done, but data remaining.
                if matches!(status, ParseResult::HeadersDone(_)) && rest > 0 && rest < pdu_len {
                    self.last_body_offset = Some(pdu_len - rest - 1);
                }
                return status;
            }
            pos = pos + len;
            i = i + 1;
        }
        ParseResult::Continue(0)
    }

    /// Parses one TLS record, given its header and its contents. `pdu_len` is the length of
    /// the segment that completed it.
    pub fn parse_record_level(
        &mut self,
        record_type: u8,
        version: u16,
        len: u16,
        data: &[u8],
        direction: bool,
        pdu_len: usize,
    ) -> (r: ParseResult)
        ensures
            (final(self)@, r) == record_step(
                old(self)@,
                record_type,
                version,
                len,
                data@,
                direction,
                pdu_len,
            ),
    {
        if self.state == TlsState::ClientChangeCipherSpec {
            return ParseResult::HeadersDone(0);
        }
        if record_type != CHANGE_CIPHER_SPEC && record_type != HANDSHAKE && record_type != ALERT {
            return ParseResult::Continue(0);
        }
        let buffered: usize = self.record_buffer.len();
        if buffered > 0 && (buffered > MAX_BUFFERED || data.len() > MAX_BUFFERED - buffered) {
            return ParseResult::Skipped;
        }
        let mut all: Vec<u8> = Vec::new();
        core::mem::swap(&mut self.record_buffer, &mut all);
        let ghost m = old(self)@;
        all.extend_from_slice(data);
        assert(all@ == m.record_buffer + data@);
        assert(self@.record_buffer =~= Seq::empty());
        if record_type == HANDSHAKE && (all.len() < 4 || read_frame_len(
            all.as_slice(),
            record_type,
            0,
        ) > all.len()) {
            self.record_buffer = all;
            return ParseResult::Continue(0);
        }
        match read_messages(all.as_slice(), record_type, version, len) {
            RecordParse::Messages { count, rest } => self.parse_messages(
                record_type,
                all.as_slice(),
                count,
                rest,
                direction,
                pdu_len,
            ),
            RecordParse::Incomplete => {
                self.record_buffer = all;
                ParseResult::Continue(0)
            },
            RecordParse::Invalid => ParseResult::Skipped,
        }
    }

    /// Parses the records in `data` one by one.
    fn parse_records(&mut self, data: &[u8], direction: bool, pdu_len: usize) -> (r: ParseResult)
        ensures
            (final(self)@, r) == records_step(old(self)@, data@, direction, pdu_len),
    {
        let ghost goal = records_step(self@, data@, direction, pdu_len);
        let mut pos: usize = 0;
        assert(data@.skip(0) =~= data@);
        while pos < data.len()
            invariant
                pos <= data@.len(),
                goal == records_step(old(self)@, data@, direction, pdu_len),
                goal == records_step(self@, data@.skip(pos as int), direction, pdu_len),
            decreases data@.len() - pos,
        {
            let cur = vstd::slice::slice_subrange(data, pos, data.len());
            assert(cur@ =~= data@.skip(pos as int));
            match read_record(cur) {
                RecordRead::Record { record_type, version, len } => {
                    let end: usize = RECORD_HEADER_LEN + len as usize;
                    let body = vstd::slice::slice_subrange(cur, RECORD_HEADER_LEN, end);
                    let status = self.parse_record_level(
                        record_type,
                        version,
                        len,
                        body,
                        direction,
                        pdu_len,
                    );
                    if status != ParseResult::Continue(0) {
                        return status;
                    }
                    pos = pos + end;
                    assert(cur@.skip(end as int) =~= data@.skip(pos as int));
                },
                RecordRead::Incomplete => {
                    let ghost before = self@;
                    self.tcp_buffer.extend_from_slice(cur);
                    assert(self@.tcp_buffer =~= before.tcp_buffer + cur@);
                    return ParseResult::Continue(0);
                },
                RecordRead::Invalid => {
                    return ParseResult::Continue(0);
                },
            }
        }
        ParseResult::Continue(0)
    }

    /// Parses a TCP segment, handling fragmentation.
    pub fn parse_tcp_level(&mut self, data: &[u8], direction: bool) -> (r: ParseResult)
        ensures
            (final(self)@, r) == segment_step(old(self)@, data@, direction),
    {
        let pdu_len: usize = data.len();
        if self.state == TlsState::ClientChangeCipherSpec {
            return ParseResult::HeadersDone(0);
        }
        let buffered: usize = self.tcp_buffer.len();
        if buffered > 0 && (buffered > MAX_BUFFERED || data.len() > MAX_BUFFERED - buffered) {
            return ParseResult::Skipped;
        }
        let mut all: Vec<u8> = Vec::new();
        core::mem::swap(&mut self.tcp_buffer, &mut all);
        let ghost m = old(self)@;
        all.extend_from_slice(data);
        assert(all@ == m.tcp_buffer + data@);
        assert(self@.tcp_buffer =~= Seq::empty());
        // Only the very first message of a connection can be an SSLv2-format ClientHello.
        if self.state == TlsState::Start {
            match parse_sslv2_client_hello(all.as_slice()) {
                Ok((consumed, hello)) => {
                    self.parse_sslv2_handshake(hello);
                    let rest = vstd::slice::slice_subrange(all.as_slice(), consumed, all.len());
                    assert(rest@ =~= all@.skip(consumed as int));
                    self.parse_records(rest, direction, pdu_len)
                },
                Err(SslV2Error::Incomplete) => {
                    self.tcp_buffer = all;
                    ParseResult::Continue(0)
                },
                Err(SslV2Error::Malformed) => self.parse_records(
                    all.as_slice(),
                    direction,
                    pdu_len,
                ),
            }
        } else {
            self.parse_records(all.as_slice(), direction, pdu_len)
        }
    }

    /// Version that the client offers, or 0 if no ClientHello was seen.
    pub fn client_version(&self) -> (n: u16)
        ensures
            n == (match self@.client_hello {
                Some(h) => h.version,
                None => 0,
            }),
    {
        match &self.client_hello {
            Some(h) => h.version,
            None => 0,
        }
    }

    /// Version that the server answers with, or 0 if no ServerHello was seen.
    pub fn server_version(&self) -> (n: u16)
        ensures
            n == (match self@.server_hello {
                Some(h) => h.version,
                None => 0,
            }),
    {
        match &self.server_hello {
            Some(h) => h.version,
            None => 0,
        }
    }

    /// Returns `true` if the messages seen do not form a handshake.
    pub fn is_invalid(&self) -> (b: bool)
        ensures
            b == (self@.state == TlsState::Invalid),
    {
        self.state == TlsState::Invalid
    }

    /// Name of the server that the client asks for, or the empty string if it names none.
    pub fn sni(&self) -> (s: &str)
        ensures
            s@ == (match self@.client_hello {
                Some(ClientHelloModel { server_name: Some(name), .. }) => name,
                _ => Seq::empty(),
            }),
    {
        match &self.client_hello {
            Some(h) => match &h.server_name {
                Some(name) => name.as_str(),
                None => empty_str(),
            },
            None => empty_str(),
        }
    }
}

fn empty_str() -> (s: &'static str)
    ensures
        s@ == Seq::<char>::empty(),
{
    proof {
        reveal_strlit("");
    }
    assert(""@ =~= Seq::<char>::empty());
    ""
}

/// Once a session is encrypted, nothing that follows changes what was stored: every segment
/// is answered with the end of the headers.
pub proof fn law_encrypted_sessions_are_left_alone(m: TlsModel, data: Seq<u8>, direction: bool)
    requires
        m.state == TlsState::ClientChangeCipherSpec,
    ensures
        segment_step(m, data, direction) == (m, ParseResult::HeadersDone(0)),
{
}

/// However a first SSLv2-format ClientHello is cut into two segments, it is parsed as if it
/// had come in one.
pub proof fn law_split_sslv2_hello_is_reassembled(first: Seq<u8>, second: Seq<u8>, direction: bool)
    requires
        first.len() > 0,
        sslv2_hello(first) == Err::<(int, SslV2Hello), SslV2Error>(SslV2Error::Incomplete),
        sslv2_hello(first + second) matches Ok((n, _)) && n == first.len() + second.len(),
        first.len() + second.len() <= MAX_BUFFERED,
    ensures
        ({
            let (m1, s1) = segment_step(no_handshake(), first, direction);
            let (m2, s2) = segment_step(m1, second, direction);
            &&& s1 == ParseResult::Continue(0)
            &&& s2 == ParseResult::Continue(0)
            &&& (m2, s2) == segment_step(no_handshake(), first + second, direction)
        }),
{
    let (m1, s1) = segment_step(no_handshake(), first, direction);
    assert(no_handshake().tcp_buffer + first =~= first);
    assert(m1.tcp_buffer =~= first);
    assert(no_handshake().tcp_buffer + (first + second) =~= first + second);
    let all = first + second;
    assert(all.skip(all.len() as int) =~= Seq::empty());
}

/// Parses a single TLS handshake per connection.
#[derive(Debug)]
pub struct TlsParser {
    sessions: Vec<Tls>,
}

impl View for TlsParser {
    type V = Seq<Tls>;

    closed spec fn view(&self) -> Seq<Tls> {
        self.sessions@
    }
}

impl Default for TlsParser {
    fn default() -> (p: TlsParser)
        ensures
            p@.len() == 1,
            p@[0]@ == no_handshake(),
    {
        let mut sessions: Vec<Tls> = Vec::new();
        sessions.push(Tls::new());
        TlsParser { sessions }
    }
}

impl TlsParser {
    /// Folds the segment's payload into the handshake. A segment without payload, or whose
    /// payload cannot be read, is skipped.
    pub fn parse(&mut self, pdu: &L4Pdu) -> (r: ParseResult)
        requires
            old(self)@.len() > 0,
        ensures
            final(self)@.len() == old(self)@.len(),
            forall|i: int| 1 <= i < old(self)@.len() ==> final(self)@[i] == old(self)@[i],
            match pdu.payload() {
                Some(data) if data.len() > 0 => (final(self)@[0]@, r) == segment_step(
                    old(self)@[0]@,
                    data,
                    pdu.dir,
                ),
                _ => r == ParseResult::Skipped && final(self)@ == old(self)@,
            },
    {
        let offset: usize = pdu.offset();
        let length: usize = pdu.length();
        if length == 0 {
            return ParseResult::Skipped;
        }
        match pdu.mbuf_ref().get_data_slice(offset, length) {
            Ok(data) => self.sessions[0].parse_tcp_level(data, pdu.dir),
            Err(_) => ParseResult::Skipped,
        }
    }

    /// Probes the segment's payload.
    pub fn probe(&self, pdu: &L4Pdu) -> (r: ProbeResult)
        ensures
            r == (match pdu.payload() {
                Some(data) => probe_result(data),
                None => ProbeResult::Error,
            }),
    {
        match pdu.mbuf_ref().get_data_slice(pdu.offset(), pdu.length()) {
            Ok(data) => classify_probe(data),
            Err(_) => ProbeResult::Error,
        }
    }

    /// Hands out the most recent summary.
    pub fn remove_session(&mut self, _session_id: usize) -> (r: Option<Session>)
        ensures
            match r {
                Some(s) => {
                    &&& old(self)@.len() > 0
                    &&& s.id == 0
                    &&& s.data == SessionData::Tls(Box::new(old(self)@.last()))
                    &&& final(self)@ == old(self)@.drop_last()
                },
                None => old(self)@.len() == 0 && final(self)@ == old(self)@,
            },
    {
        match self.sessions.pop() {
            Some(tls) => Some(Session { data: SessionData::Tls(Box::new(tls)), id: 0 }),
            None => None,
        }
    }

    /// Hands out every summary, in order.
    pub fn drain_sessions(&mut self) -> (r: Vec<Session>)
        ensures
            final(self)@.len() == 0,
            r@.len() == old(self)@.len(),
            forall|i: int|
                0 <= i < r@.len() ==> (#[trigger] r@[i]).id == 0 && r@[i].data
                    == SessionData::Tls(Box::new(old(self)@[i])),
    {
        let mut out: Vec<Session> = Vec::new();
        let ghost all = self.sessions@;
        while self.sessions.len() > 0
            invariant
                out@.len() + self.sessions@.len() == all.len(),
                self.sessions@ == all.skip(out@.len() as int),
                forall|i: int|
                    0 <= i < out@.len() ==> (#[trigger] out@[i]).id == 0 && out@[i].data
                        == SessionData::Tls(Box::new(all[i])),
            decreases self.sessions@.len(),
        {
            let tls = self.sessions.remove(0);
            out.push(Session { data: SessionData::Tls(Box::new(tls)), id: 0 });
            assert(self.sessions@ =~= all.skip(out@.len() as int));
        }
        out
    }

    /// One handshake is expected per connection.
    pub fn session_parsed_state(&self) -> (s: ParsingState)
        ensures
            s == ParsingState::Stop,
    {
        ParsingState::Stop
    }

    /// Takes the body offset of the most recent handshake.
    pub fn body_offset(&mut self) -> (r: Option<usize>)
        ensures
            if old(self)@.len() > 0 {
                &&& r == old(self)@.last()@.last_body_offset
                &&& final(self)@.len() == old(self)@.len()
                &&& final(self)@.drop_last() == old(self)@.drop_last()
                &&& final(self)@.last()@ == (TlsModel {
                    last_body_offset: None,
                    ..old(self)@.last()@
                })
            } else {
                r is None && final(self)@ == old(self)@
            },
    {
        let n: usize = self.sessions.len();
        if n > 0 {
            let offset = self.sessions[n - 1].last_body_offset;
            self.sessions[n - 1].last_body_offset = None;
            offset
        } else {
            None
        }
    }
}

} // verus!
