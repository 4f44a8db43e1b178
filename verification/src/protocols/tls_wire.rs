//! What the `tls-parser` crate reads out of TLS records and handshake messages.

use crate::wire::be16;
use tls_parser::TlsExtension as E;
use tls_parser::TlsMessageHandshake as H;
use tls_parser::TlsState as S;
use tls_parser::{
    parse_dh_params, parse_ecdh_params, parse_tls_client_hello_extensions,
    parse_tls_message_handshake, parse_tls_raw_record, parse_tls_record_with_header,
    parse_tls_server_hello_extensions, tls_state_transition, ECParametersContent, TlsCipherSuite,
    TlsExtensionType, TlsMessage, TlsRecordHeader, TlsRecordType, TlsVersion,
};
use vstd::prelude::*;

verus! {

/// Content types of TLS records.
pub const CHANGE_CIPHER_SPEC: u8 = 0x14;

pub const ALERT: u8 = 0x15;

pub const HANDSHAKE: u8 = 0x16;

/// Size of a record header: content type, version and length.
pub const RECORD_HEADER_LEN: usize = 5;

/// The longest record that is accepted.
pub const MAX_RECORD_LEN: u16 = 0x4100;

/// Number of states of the handshake state machine.
pub const NUM_TLS_STATES: u8 = 25;

/// The record at the start of some data.
#[derive(Debug, Clone, Copy, PartialEq, Eq, Structural)]
pub enum RecordRead {
    /// A whole record with this header.
    Record { record_type: u8, version: u16, len: u16 },
    /// More data is needed.
    Incomplete,
    /// There is no valid record.
    Invalid,
}

/// The record at the start of `data`.
pub open spec fn record_read(data: Seq<u8>) -> RecordRead {
    if data.len() < RECORD_HEADER_LEN {
        RecordRead::Incomplete
    } else if be16(data, 3) > MAX_RECORD_LEN {
        RecordRead::Invalid
    } else if data.len() < RECORD_HEADER_LEN + be16(data, 3) {
        RecordRead::Incomplete
    } else {
        RecordRead::Record {
            record_type: data[0],
            version: be16(data, 1) as u16,
            len: be16(data, 3) as u16,
        }
    }
}

/// Calls `tls_parser::parse_tls_raw_record`, which reads a record header, rejects a length
/// above the maximum, and asks for more data where the header or the contents are not all
/// there.
#[verifier::external_body]
pub(crate) fn read_record(data: &[u8]) -> (r: RecordRead)
    ensures
        r == record_read(data@),
{
    match parse_tls_raw_record(data) {
        Ok((_, r)) => RecordRead::Record {
            record_type: r.hdr.record_type.0,
            version: r.hdr.version.0,
            len: r.hdr.len,
        },
        Err(e) => if e.is_incomplete() {
            RecordRead::Incomplete
        } else {
            RecordRead::Invalid
        },
    }
}

/// The messages that the contents of a record hold.
#[derive(Debug, Clone, Copy, PartialEq, Eq, Structural)]
pub enum RecordParse {
    /// So many messages, one after the other, and then so many bytes that hold none.
    Messages { count: usize, rest: usize },
    /// More data is needed.
    Incomplete,
    /// There is no valid message.
    Invalid,
}

/// The 24-bit big-endian number at `i`.
pub open spec fn be24(s: Seq<u8>, i: int) -> int {
    s[i] * 0x1_0000 + be16(s, i + 1)
}

/// Length of the message at `pos`: a change of cipher spec has one byte, an alert two, and
/// a handshake message states its own.
pub open spec fn frame_len(data: Seq<u8>, record_type: u8, pos: int) -> int {
    if record_type == CHANGE_CIPHER_SPEC {
        1
    } else if record_type == ALERT {
        2
    } else {
        4 + be24(data, pos + 1)
    }
}

/// Where the first `n` messages end.
pub open spec fn frames_end(data: Seq<u8>, record_type: u8, n: nat) -> int
    decreases n,
{
    if n == 0 {
        0
    } else {
        let start = frames_end(data, record_type, (n - 1) as nat);
        start + frame_len(data, record_type, start)
    }
}

/// What `tls_parser::parse_tls_record_with_header` finds in the contents of a record with
/// this header.
pub uninterp spec fn record_parse(
    data: Seq<u8>,
    record_type: u8,
    version: u16,
    len: u16,
) -> RecordParse;

/// Calls `tls_parser::parse_tls_record_with_header`. Its result is named. Beyond that, the
/// messages of the three content types of a handshake follow each other, at least one of
/// them, and end where the rest begins.
#[verifier::external_body]
pub(crate) fn read_messages(data: &[u8], record_type: u8, version: u16, len: u16) -> (r: RecordParse)
    ensures
        r == record_parse(data@, record_type, version, len),
        (record_type == CHANGE_CIPHER_SPEC || record_type == ALERT || record_type == HANDSHAKE) ==> (
        r matches RecordParse::Messages { count, rest } ==> count > 0 && frames_end(
            data@,
            record_type,
            count as nat,
        ) + rest == data@.len()),
{
    let record_type = TlsRecordType(record_type);
    let version = TlsVersion(version);
    match parse_tls_record_with_header(data, &TlsRecordHeader { record_type, version, len }) {
        Ok((rest, m)) => RecordParse::Messages { count: m.len(), rest: rest.len() },
        Err(e) => if e.is_incomplete() {
            RecordParse::Incomplete
        } else {
            RecordParse::Invalid
        },
    }
}

/// The state that `tls_parser::tls_state_transition` goes to from a state, by its number,
/// on the message that stands in `message`; there may be none.
pub uninterp spec fn state_transition(
    state: u8,
    record_type: u8,
    message: Seq<u8>,
    to_server: bool,
) -> Option<u8>;

/// Calls `tls_parser::tls_state_transition` on the message that the bytes hold. Its result
/// is named; it is one of the machine's states.
#[verifier::external_body]
pub(crate) fn next_state(state: u8, record_type: u8, message: &[u8], to_server: bool) -> (r: Option<
    u8,
>)
    requires
        state < NUM_TLS_STATES,
    ensures
        r == state_transition(state, record_type, message@, to_server),
        r matches Some(s) ==> s < NUM_TLS_STATES,
{
    let all = [
        S::None, S::ClientHello, S::AskResumeSession, S::ResumeSession, S::ServerHello,
        S::Certificate, S::CertificateSt, S::ServerKeyExchange, S::ServerHelloDone,
        S::ClientKeyExchange, S::ClientChangeCipherSpec, S::CRCertRequest, S::CRHelloDone,
        S::CRCert, S::CRClientKeyExchange, S::CRCertVerify, S::NoCertSKE, S::NoCertHelloDone,
        S::NoCertCKE, S::PskHelloDone, S::PskCKE, S::SessionEncrypted, S::Alert, S::Finished,
        S::Invalid,
    ];
    let (record_type, version) = (TlsRecordType(record_type), TlsVersion(0));
    let hdr = TlsRecordHeader { record_type, version, len: 0 };
    let messages = parse_tls_record_with_header(message, &hdr).ok()?.1;
    tls_state_transition(all[state as usize], messages.first()?, to_server).ok().map(|s| s as u8)
}

/// The fields of a ClientHello, as plain values.
#[derive(Debug, Clone)]
pub struct ClientHelloContents {
    pub version: u16,
    pub random: Vec<u8>,
    pub session_id: Option<Vec<u8>>,
    pub ciphers: Vec<u16>,
    pub comp: Vec<u8>,
    pub ext: Option<Vec<u8>>,
}

/// The fields of a ServerHello, as plain values.
#[derive(Debug, Clone)]
pub struct ServerHelloContents {
    pub version: u16,
    pub random: Vec<u8>,
    pub session_id: Option<Vec<u8>>,
    pub cipher: u16,
    pub compression: u8,
    pub ext: Option<Vec<u8>>,
}

/// The fields of a ClientHello, as sequences.
pub struct ClientHelloFields {
    pub version: u16,
    pub random: Seq<u8>,
    pub session_id: Option<Seq<u8>>,
    pub ciphers: Seq<u16>,
    pub comp: Seq<u8>,
    pub ext: Option<Seq<u8>>,
}

/// The fields of a ServerHello, as sequences.
pub struct ServerHelloFields {
    pub version: u16,
    pub random: Seq<u8>,
    pub session_id: Option<Seq<u8>>,
    pub cipher: u16,
    pub compression: u8,
    pub ext: Option<Seq<u8>>,
}

impl View for ClientHelloContents {
    type V = ClientHelloFields;

    open spec fn view(&self) -> ClientHelloFields {
        ClientHelloFields {
            version: self.version,
            random: self.random@,
            session_id: crate::wire::opt_bytes(self.session_id),
            ciphers: self.ciphers@,
            comp: self.comp@,
            ext: crate::wire::opt_bytes(self.ext),
        }
    }
}

impl View for ServerHelloContents {
    type V = ServerHelloFields;

    open spec fn view(&self) -> ServerHelloFields {
        ServerHelloFields {
            version: self.version,
            random: self.random@,
            session_id: crate::wire::opt_bytes(self.session_id),
            cipher: self.cipher,
            compression: self.compression,
            ext: crate::wire::opt_bytes(self.ext),
        }
    }
}

/// A list of byte strings.
pub open spec fn byte_lists(v: Seq<Vec<u8>>) -> Seq<Seq<u8>> {
    Seq::new(v.len(), |i: int| v[i]@)
}

/// What a handshake message is.
pub enum HandshakeModel {
    ClientHello(ClientHelloFields),
    ServerHello(ServerHelloFields),
    Certificate(Seq<Seq<u8>>),
    /// Some other message, or none.
    Other,
}

/// What `tls_parser::parse_tls_message_handshake` makes of a handshake message.
pub uninterp spec fn handshake_message(message: Seq<u8>) -> HandshakeModel;

/// Calls `tls_parser::parse_tls_message_handshake` and hands out a ClientHello, if the
/// message is one. The function's result is named.
#[verifier::external_body]
pub(crate) fn read_client_hello(message: &[u8]) -> (r: Option<ClientHelloContents>)
    ensures
        match r {
            Some(c) => handshake_message(message@) == HandshakeModel::ClientHello(c@),
            None => !(handshake_message(message@) is ClientHello),
        },
{
    match parse_tls_message_handshake(message) {
        Ok((_, TlsMessage::Handshake(H::ClientHello(c)))) => Some(ClientHelloContents {
            version: c.version.0,
            random: c.random.to_vec(),
            session_id: c.session_id.map(|x| x.to_vec()),
            ciphers: c.ciphers.iter().map(|x| x.0).collect(),
            comp: c.comp.iter().map(|x| x.0).collect(),
            ext: c.ext.map(|x| x.to_vec()),
        }),
        _ => None,
    }
}

/// Calls `tls_parser::parse_tls_message_handshake` and hands out a ServerHello, if the
/// message is one. The function's result is named.
#[verifier::external_body]
pub(crate) fn read_server_hello(message: &[u8]) -> (r: Option<ServerHelloContents>)
    ensures
        match r {
            Some(c) => handshake_message(message@) == HandshakeModel::ServerHello(c@),
            None => !(handshake_message(message@) is ServerHello),
        },
{
    match parse_tls_message_handshake(message) {
        Ok((_, TlsMessage::Handshake(H::ServerHello(c)))) => Some(ServerHelloContents {
            version: c.version.0,
            random: c.random.to_vec(),
            session_id: c.session_id.map(|x| x.to_vec()),
            cipher: c.cipher.0,
            compression: c.compression.0,
            ext: c.ext.map(|x| x.to_vec()),
        }),
        _ => None,
    }
}

/// Calls `tls_parser::parse_tls_message_handshake` and hands out the certificates of a
/// Certificate message, if the message is one. The function's result is named.
#[verifier::external_body]
pub(crate) fn read_certificates(message: &[u8]) -> (r: Option<Vec<Vec<u8>>>)
    ensures
        match r {
            Some(c) => handshake_message(message@) == HandshakeModel::Certificate(byte_lists(c@)),
            None => !(handshake_message(message@) is Certificate),
        },
{
    match parse_tls_message_handshake(message) {
        Ok((_, TlsMessage::Handshake(H::Certificate(c)))) => {
            Some(c.cert_chain.iter().map(|x| x.data.to_vec()).collect())
        },
        _ => None,
    }
}

/// A hello extension: its type, the byte strings that it lists, and the 16-bit numbers that
/// it lists.
pub struct ExtensionModel {
    pub kind: u16,
    pub bytes: Seq<Seq<u8>>,
    pub words: Seq<u16>,
}

/// The extensions that `tls_parser::parse_tls_client_hello_extensions` finds. Of server
/// names, application protocols, point formats and key shares it gives the byte strings,
/// of groups, versions and signature algorithms the numbers, and of others neither.
pub uninterp spec fn client_extensions(ext: Seq<u8>) -> Option<Seq<ExtensionModel>>;

/// The extensions that `tls_parser::parse_tls_server_hello_extensions` finds. Of
/// application protocols, point formats and key shares it gives the byte strings, of
/// versions the numbers, and of others neither.
pub uninterp spec fn server_extensions(ext: Seq<u8>) -> Option<Seq<ExtensionModel>>;

/// The types and byte strings of a list of extensions.
pub open spec fn has_bytes(v: Seq<(u16, Vec<Vec<u8>>)>, m: Seq<ExtensionModel>) -> bool {
    &&& v.len() == m.len()
    &&& forall|i: int|
        0 <= i < v.len() ==> (#[trigger] v[i]).0 == m[i].kind && byte_lists(v[i].1@) == m[i].bytes
}

/// The numbers of a list of extensions.
pub open spec fn has_words(v: Seq<Vec<u16>>, m: Seq<ExtensionModel>) -> bool {
    &&& v.len() == m.len()
    &&& forall|i: int| 0 <= i < v.len() ==> (#[trigger] v[i])@ == m[i].words
}

/// Calls `tls_parser::parse_tls_client_hello_extensions` for the types and byte strings.
/// The function's result is named.
#[verifier::external_body]
fn client_extension_bytes(ext: &[u8]) -> (r: Option<Vec<(u16, Vec<Vec<u8>>)>>)
    ensures
        match r {
            Some(v) => client_extensions(ext@) is Some && has_bytes(v@, client_extensions(ext@)->0),
            None => client_extensions(ext@) is None,
        },
{
    let list = parse_tls_client_hello_extensions(ext).ok()?.1;
    Some(list.iter().map(|e| (TlsExtensionType::from(e).0, match e {
        E::SNI(v) => v.iter().map(|x| x.1.to_vec()).collect(),
        E::ALPN(v) => v.iter().map(|x| x.to_vec()).collect(),
        E::EcPointFormats(v) | E::KeyShare(v) => vec![v.to_vec()],
        _ => vec![],
    })).collect())
}

/// Calls `tls_parser::parse_tls_client_hello_extensions` for the numbers. The function's
/// result is named.
#[verifier::external_body]
fn client_extension_words(ext: &[u8]) -> (r: Option<Vec<Vec<u16>>>)
    ensures
        match r {
            Some(v) => client_extensions(ext@) is Some && has_words(v@, client_extensions(ext@)->0),
            None => client_extensions(ext@) is None,
        },
{
    let list = parse_tls_client_hello_extensions(ext).ok()?.1;
    Some(list.iter().map(|e| match e {
        E::EllipticCurves(v) => v.iter().map(|x| x.0).collect(),
        E::SupportedVersions(v) => v.iter().map(|x| x.0).collect(),
        E::SignatureAlgorithms(v) => v.clone(),
        _ => vec![],
    }).collect())
}

/// Calls `tls_parser::parse_tls_server_hello_extensions` for the types and byte strings.
/// The function's result is named.
#[verifier::external_body]
fn server_extension_bytes(ext: &[u8]) -> (r: Option<Vec<(u16, Vec<Vec<u8>>)>>)
    ensures
        match r {
            Some(v) => server_extensions(ext@) is Some && has_bytes(v@, server_extensions(ext@)->0),
            None => server_extensions(ext@) is None,
        },
{
    let list = parse_tls_server_hello_extensions(ext).ok()?.1;
    Some(list.iter().map(|e| (TlsExtensionType::from(e).0, match e {
        E::ALPN(v) => v.iter().map(|x| x.to_vec()).collect(),
        E::EcPointFormats(v) | E::KeyShare(v) => vec![v.to_vec()],
        _ => vec![],
    })).collect())
}

/// Calls `tls_parser::parse_tls_server_hello_extensions` for the numbers. The function's
/// result is named.
#[verifier::external_body]
fn server_extension_words(ext: &[u8]) -> (r: Option<Vec<Vec<u16>>>)
    ensures
        match r {
            Some(v) => server_extensions(ext@) is Some && has_words(v@, server_extensions(ext@)->0),
            None => server_extensions(ext@) is None,
        },
{
    let list = parse_tls_server_hello_extensions(ext).ok()?.1;
    Some(list.iter().map(|e| match e {
        E::SupportedVersions(v) => v.iter().map(|x| x.0).collect(),
        _ => vec![],
    }).collect())
}

/// A hello extension.
#[derive(Debug)]
pub struct Extension {
    pub kind: u16,
    pub bytes: Vec<Vec<u8>>,
    pub words: Vec<u16>,
}

impl View for Extension {
    type V = ExtensionModel;

    open spec fn view(&self) -> ExtensionModel {
        ExtensionModel { kind: self.kind, bytes: byte_lists(self.bytes@), words: self.words@ }
    }
}

/// A list of extensions, as their models.
pub open spec fn extension_models(v: Seq<Extension>) -> Seq<ExtensionModel> {
    Seq::new(v.len(), |i: int| v[i]@)
}

/// Puts the two halves of a list of extensions together.
fn zip_extensions(bytes: Vec<(u16, Vec<Vec<u8>>)>, words: Vec<Vec<u16>>, Ghost(m): Ghost<
    Seq<ExtensionModel>,
>) -> (r: Vec<Extension>)
    requires
        has_bytes(bytes@, m),
        has_words(words@, m),
    ensures
        extension_models(r@) == m,
{
    let mut bytes = bytes;
    let mut words = words;
    let mut out: Vec<Extension> = Vec::new();
    let ghost b = bytes@;
    let ghost w = words@;
    while bytes.len() > 0
        invariant
            has_bytes(b, m),
            has_words(w, m),
            bytes@.len() == words@.len(),
            out@.len() + bytes@.len() == m.len(),
            bytes@ == b.skip(out@.len() as int),
            words@ == w.skip(out@.len() as int),
            forall|i: int| 0 <= i < out@.len() ==> (#[trigger] out@[i])@ == m[i],
        decreases bytes@.len(),
    {
        let ghost n = out@.len() as int;
        let (kind, list) = bytes.remove(0);
        let numbers = words.remove(0);
        assert(b[n].0 == kind && b[n].1 == list);
        assert(w[n] == numbers);
        out.push(Extension { kind, bytes: list, words: numbers });
        assert(out@[n]@ == m[n]);
        assert(bytes@ =~= b.skip(n + 1));
        assert(words@ =~= w.skip(n + 1));
    }
    assert(extension_models(out@) =~= m);
    out
}

/// The extensions of a ClientHello.
pub fn client_extension_list(ext: &[u8]) -> (r: Option<Vec<Extension>>)
    ensures
        match r {
            Some(v) => client_extensions(ext@) == Some(extension_models(v@)),
            None => client_extensions(ext@) is None,
        },
{
    match (client_extension_bytes(ext), client_extension_words(ext)) {
        (Some(bytes), Some(words)) => Some(
            zip_extensions(bytes, words, Ghost(client_extensions(ext@)->0)),
        ),
        _ => None,
    }
}

/// The extensions of a ServerHello.
pub fn server_extension_list(ext: &[u8]) -> (r: Option<Vec<Extension>>)
    ensures
        match r {
            Some(v) => server_extensions(ext@) == Some(extension_models(v@)),
            None => server_extensions(ext@) is None,
        },
{
    match (server_extension_bytes(ext), server_extension_words(ext)) {
        (Some(bytes), Some(words)) => Some(
            zip_extensions(bytes, words, Ghost(server_extensions(ext@)->0)),
        ),
        _ => None,
    }
}

/// The key exchange method, by its number, that `tls_parser::TlsCipherSuite::from_id` gives
/// for a cipher suite.
pub uninterp spec fn cipher_kx(id: u16) -> Option<u8>;

/// Calls `tls_parser::TlsCipherSuite::from_id`. The key exchange method that it gives is
/// named.
#[verifier::external_body]
pub(crate) fn read_cipher_kx(id: u16) -> (r: Option<u8>)
    ensures
        r == cipher_kx(id),
{
    TlsCipherSuite::from_id(id).map(|c| c.kx as u8)
}

/// The byte string at `pos` whose length the 16-bit number before it states.
pub open spec fn string16(data: Seq<u8>, pos: int) -> Option<Seq<u8>> {
    if pos + 2 <= data.len() && pos + 2 + be16(data, pos) <= data.len() {
        Some(data.subrange(pos + 2, pos + 2 + be16(data, pos)))
    } else {
        None
    }
}

/// Diffie-Hellman parameters: prime, generator and public value, one after the other.
pub open spec fn dh_params(data: Seq<u8>) -> Option<(Seq<u8>, Seq<u8>, Seq<u8>)> {
    match string16(data, 0) {
        Some(p) => match string16(data, 2 + p.len() as int) {
            Some(g) => match string16(data, 4 + p.len() + g.len() as int) {
                Some(y) => Some((p, g, y)),
                None => None,
            },
            None => None,
        },
        None => None,
    }
}

/// Calls `tls_parser::parse_dh_params`, which reads three byte strings, each after its
/// 16-bit length.
#[verifier::external_body]
pub(crate) fn read_dh_params(data: &[u8]) -> (r: Option<(Vec<u8>, Vec<u8>, Vec<u8>)>)
    ensures
        match r {
            Some((p, g, y)) => dh_params(data@) == Some((p@, g@, y@)),
            None => dh_params(data@) is None,
        },
{
    match parse_dh_params(data) {
        Ok((_, p)) => Some((p.dh_p.to_vec(), p.dh_g.to_vec(), p.dh_ys.to_vec())),
        Err(_) => None,
    }
}

/// Elliptic-curve parameters with a named curve: the curve and the public point.
pub open spec fn named_curve_params(data: Seq<u8>) -> Option<(u16, Seq<u8>)> {
    if data.len() >= 4 && data[0] == 3 && data.len() >= 4 + data[3] {
        Some((be16(data, 1) as u16, data.subrange(4, 4 + data[3])))
    } else {
        None
    }
}

/// Calls `tls_parser::parse_ecdh_params`, which, where the curve type is that of a named
/// curve, reads the curve and then a point after its 8-bit length. Other curve types are
/// left aside.
#[verifier::external_body]
pub(crate) fn read_ecdh_params(data: &[u8]) -> (r: Option<(u16, Vec<u8>)>)
    ensures
        match r {
            Some((curve, point)) => named_curve_params(data@) == Some((curve, point@)),
            None => named_curve_params(data@) is None,
        },
{
    match parse_ecdh_params(data) {
        Ok((_, p)) => match p.curve_params.params_content {
            ECParametersContent::NamedGroup(curve) => Some((curve.0, p.public.point.to_vec())),
            _ => None,
        },
        Err(_) => None,
    }
}

} // verus!
