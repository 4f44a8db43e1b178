//! SSH handshake parser: identification lines and the cleartext key exchange.

use crate::conntrack::pdu::L4Pdu;
use crate::protocols::{ParseResult, ParsingState, ProbeResult, Session, SessionData};
use crate::text::utf8_text;
use crate::wire::{be32, copy_range};
use ssh_parser::SshPacket;
use vstd::prelude::*;
use vstd::utf8::{decode_utf8, valid_utf8};

verus! {

/// The fields of an identification line.
#[derive(Debug)]
pub struct SshVersionExchange {
    pub protoversion: Option<String>,
    pub softwareversion: Option<String>,
    pub comments: Option<String>,
}

/// Algorithms that are offered in a key exchange.
#[derive(Debug)]
pub struct SshKeyExchange {
    pub cookie: Vec<u8>,
    pub kex_algs: Vec<String>,
    pub server_host_key_algs: Vec<String>,
    pub encryption_algs_client_to_server: Vec<String>,
    pub encryption_algs_server_to_client: Vec<String>,
    pub mac_algs_client_to_server: Vec<String>,
    pub mac_algs_server_to_client: Vec<String>,
    pub compression_algs_client_to_server: Vec<String>,
    pub compression_algs_server_to_client: Vec<String>,
    pub languages_client_to_server: Vec<String>,
    pub languages_server_to_client: Vec<String>,
    pub first_kex_packet_follows: bool,
}

/// Key exchange message of the client.
#[derive(Debug)]
pub struct SshDhInit {
    pub e: Vec<u8>,
}

/// Key exchange message of the server.
#[derive(Debug)]
pub struct SshDhResponse {
    pub pubkey_and_certs: Vec<u8>,
    pub f: Vec<u8>,
    pub signature: Vec<u8>,
}

/// The message that ends one side of the key exchange.
#[derive(Debug, Clone, Copy, PartialEq, Eq, Structural)]
pub struct SshNewKeys;

/// A parsed SSH handshake.
#[derive(Debug)]
pub struct Ssh {
    pub client_version_exchange: Option<SshVersionExchange>,
    pub server_version_exchange: Option<SshVersionExchange>,
    pub key_exchange: Option<SshKeyExchange>,
    pub client_dh_key_exchange: Option<SshDhInit>,
    pub server_dh_key_exchange: Option<SshDhResponse>,
    pub client_new_keys: Option<SshNewKeys>,
    pub server_new_keys: Option<SshNewKeys>,
    /// Where encrypted payload begins in the segment that ended the handshake.
    pub last_body_offset: Option<usize>,
}

/// The texts of an identification line.
pub struct VersionModel {
    pub protoversion: Option<Seq<char>>,
    pub softwareversion: Option<Seq<char>>,
    pub comments: Option<Seq<char>>,
}

/// What a key exchange offers: the ten lists of names, in the order of the message.
pub struct KeyExchangeModel {
    pub cookie: Seq<u8>,
    pub lists: Seq<Seq<Seq<char>>>,
    pub first_kex_packet_follows: bool,
}

/// A handshake, as sequences.
pub struct SshModel {
    pub client_version_exchange: Option<VersionModel>,
    pub server_version_exchange: Option<VersionModel>,
    pub key_exchange: Option<KeyExchangeModel>,
    pub client_dh_key_exchange: Option<Seq<u8>>,
    pub server_dh_key_exchange: Option<(Seq<u8>, Seq<u8>, Seq<u8>)>,
    pub client_new_keys: Option<SshNewKeys>,
    pub server_new_keys: Option<SshNewKeys>,
    pub last_body_offset: Option<int>,
}

pub open spec fn opt_text(s: Option<String>) -> Option<Seq<char>> {
    match s {
        Some(t) => Some(t@),
        None => None,
    }
}

/// A list of texts.
pub open spec fn texts(v: Seq<String>) -> Seq<Seq<char>> {
    Seq::new(v.len(), |i: int| v[i]@)
}

impl View for SshVersionExchange {
    type V = VersionModel;

    open spec fn view(&self) -> VersionModel {
        VersionModel {
            protoversion: opt_text(self.protoversion),
            softwareversion: opt_text(self.softwareversion),
            comments: opt_text(self.comments),
        }
    }
}

impl View for SshKeyExchange {
    type V = KeyExchangeModel;

    open spec fn view(&self) -> KeyExchangeModel {
        KeyExchangeModel {
            cookie: self.cookie@,
            lists: seq![
                texts(self.kex_algs@),
                texts(self.server_host_key_algs@),
                texts(self.encryption_algs_client_to_server@),
                texts(self.encryption_algs_server_to_client@),
                texts(self.mac_algs_client_to_server@),
                texts(self.mac_algs_server_to_client@),
                texts(self.compression_algs_client_to_server@),
                texts(self.compression_algs_server_to_client@),
                texts(self.languages_client_to_server@),
                texts(self.languages_server_to_client@),
            ],
            first_kex_packet_follows: self.first_kex_packet_follows,
        }
    }
}

impl View for Ssh {
    type V = SshModel;

    open spec fn view(&self) -> SshModel {
        SshModel {
            client_version_exchange: match self.client_version_exchange {
                Some(v) => Some(v@),
                None => None,
            },
            server_version_exchange: match self.server_version_exchange {
                Some(v) => Some(v@),
                None => None,
            },
            key_exchange: match self.key_exchange {
                Some(k) => Some(k@),
                None => None,
            },
            client_dh_key_exchange: match self.client_dh_key_exchange {
                Some(d) => Some(d.e@),
                None => None,
            },
            server_dh_key_exchange: match self.server_dh_key_exchange {
                Some(d) => Some((d.pubkey_and_certs@, d.f@, d.signature@)),
                None => None,
            },
            client_new_keys: self.client_new_keys,
            server_new_keys: self.server_new_keys,
            last_body_offset: match self.last_body_offset {
                Some(n) => Some(n as int),
                None => None,
            },
        }
    }
}

/// The identification line that was found in some bytes, and how many bytes follow it.
#[derive(Debug)]
pub enum Identification {
    Missing,
    Found { proto: Vec<u8>, software: Vec<u8>, comments: Option<Vec<u8>>, rest: usize },
}

/// An identification line, as sequences.
pub enum IdentificationModel {
    Missing,
    Found { proto: Seq<u8>, software: Seq<u8>, comments: Option<Seq<u8>>, rest: int },
}

impl View for Identification {
    type V = IdentificationModel;

    open spec fn view(&self) -> IdentificationModel {
        match self {
            Identification::Missing => IdentificationModel::Missing,
            Identification::Found { proto, software, comments, rest } => {
                IdentificationModel::Found {
                    proto: proto@,
                    software: software@,
                    comments: match comments {
                        Some(c) => Some(c@),
                        None => None,
                    },
                    rest: *rest as int,
                }
            },
        }
    }
}

/// What `ssh_parser::parse_ssh_identification` makes of some bytes.
pub uninterp spec fn ssh_identification(data: Seq<u8>) -> IdentificationModel;

/// Calls `ssh_parser::parse_ssh_identification`, which skips lines up to one that starts
/// with `SSH-`, takes that line apart at its first `-` and its first space, and returns what
/// follows it. Fails where there is no such line, or where it is not complete. A line takes
/// at least its prefix.
#[verifier::external_body]
fn read_identification(data: &[u8]) -> (r: Identification)
    ensures
        r@ == ssh_identification(data@),
        r matches Identification::Found { rest, .. } ==> rest + 4 < data@.len(),
{
    match ssh_parser::parse_ssh_identification(data) {
        Ok((rest, (_, id))) => Identification::Found {
            proto: id.proto.to_vec(),
            software: id.software.to_vec(),
            comments: id.comments.map(|c| c.to_vec()),
            rest: rest.len(),
        },
        Err(_) => Identification::Missing,
    }
}

/// A binary packet. Packets that do not take part in the key exchange are not told apart.
#[derive(Debug)]
pub enum Packet<'a> {
    Malformed,
    KeyExchange { cookie: &'a [u8], lists: Vec<&'a [u8]>, follows: bool },
    DhInit { e: &'a [u8] },
    DhReply { pubkey_and_cert: &'a [u8], f: &'a [u8], signature: &'a [u8] },
    NewKeys,
    Other,
}

/// A binary packet, as sequences.
pub enum PacketModel {
    Malformed,
    KeyExchange { cookie: Seq<u8>, lists: Seq<Seq<u8>>, follows: bool },
    DhInit { e: Seq<u8> },
    DhReply { pubkey_and_cert: Seq<u8>, f: Seq<u8>, signature: Seq<u8> },
    NewKeys,
    Other,
}

/// A list of byte strings.
pub open spec fn byte_lists(v: Seq<&[u8]>) -> Seq<Seq<u8>> {
    Seq::new(v.len(), |i: int| v[i]@)
}

impl<'a> View for Packet<'a> {
    type V = PacketModel;

    open spec fn view(&self) -> PacketModel {
        match self {
            Packet::Malformed => PacketModel::Malformed,
            Packet::KeyExchange { cookie, lists, follows } => PacketModel::KeyExchange {
                cookie: cookie@,
                lists: byte_lists(lists@),
                follows: *follows,
            },
            Packet::DhInit { e } => PacketModel::DhInit { e: e@ },
            Packet::DhReply { pubkey_and_cert, f, signature } => PacketModel::DhReply {
                pubkey_and_cert: pubkey_and_cert@,
                f: f@,
                signature: signature@,
            },
            Packet::NewKeys => PacketModel::NewKeys,
            Packet::Other => PacketModel::Other,
        }
    }
}

/// Length of the packet that some bytes begin with, if it is all there: its length field,
/// and what that covers, which is the length of the padding, at least one byte of payload,
/// and the padding (RFC 4253, section 6).
pub open spec fn packet_len(data: Seq<u8>) -> Option<int> {
    if data.len() >= 5 && be32(data, 0) >= data[4] + 2 && 4 + be32(data, 0) <= data.len() {
        Some(4 + be32(data, 0))
    } else {
        None
    }
}

/// The payload of the packet that some bytes begin with.
pub open spec fn packet_payload(data: Seq<u8>) -> Seq<u8> {
    data.subrange(5, 4 + be32(data, 0) - data[4])
}

/// Layout of the message with a number: how many bytes come first, how many strings follow,
/// and how many bytes come last. `None` for a message that is not part of the handshake.
pub open spec fn message_layout(msg: u8) -> Option<(int, nat, int)> {
    if msg == 1 {
        Some((4, 2, 0))
    } else if msg == 2 || msg == 5 || msg == 6 || msg == 30 {
        Some((0, 1, 0))
    } else if msg == 3 {
        Some((4, 0, 0))
    } else if msg == 4 {
        Some((1, 2, 0))
    } else if msg == 20 {
        Some((16, 10, 5))
    } else if msg == 21 {
        Some((0, 0, 0))
    } else if msg == 31 {
        Some((0, 3, 0))
    } else {
        None
    }
}

/// The `n` strings at `pos`, each after its length, and where they end.
pub open spec fn strings_at(data: Seq<u8>, pos: int, n: nat) -> Option<(Seq<Seq<u8>>, int)>
    decreases n,
{
    if n == 0 {
        Some((Seq::empty(), pos))
    } else {
        match strings_at(data, pos, (n - 1) as nat) {
            None => None,
            Some((before, at)) => {
                let end = at + 4 + be32(data, at);
                if at + 4 > data.len() || end > data.len() {
                    None
                } else {
                    Some((before.push(data.subrange(at + 4, end)), end))
                }
            },
        }
    }
}

/// The packet that a payload holds.
pub open spec fn payload_packet(d: Seq<u8>) -> PacketModel {
    match message_layout(d[0]) {
        None => PacketModel::Malformed,
        Some((first, n, last)) => if 1 + first > d.len() {
            PacketModel::Malformed
        } else {
            match strings_at(d, 1 + first, n) {
                None => PacketModel::Malformed,
                Some((strings, end)) => if end + last > d.len() {
                    PacketModel::Malformed
                } else if d[0] == 20 {
                    PacketModel::KeyExchange {
                        cookie: d.subrange(1, 17),
                        lists: strings,
                        follows: d[end] > 0,
                    }
                } else if d[0] == 21 {
                    PacketModel::NewKeys
                } else if d[0] == 30 {
                    PacketModel::DhInit { e: strings[0] }
                } else if d[0] == 31 {
                    PacketModel::DhReply {
                        pubkey_and_cert: strings[0],
                        f: strings[1],
                        signature: strings[2],
                    }
                } else {
                    PacketModel::Other
                },
            }
        },
    }
}

/// The packet that some bytes begin with.
pub open spec fn packet_of(data: Seq<u8>) -> PacketModel {
    match packet_len(data) {
        None => PacketModel::Malformed,
        Some(_) => payload_packet(packet_payload(data)),
    }
}

/// Calls `ssh_parser::parse_ssh_packet`, which reads the packet that the bytes begin with:
/// its frame, the type of its message, and the fields of that message. Fails where the
/// packet is not complete, or where its message is not one of the handshake. Returns the
/// packet and how many bytes follow it.
#[verifier::external_body]
fn read_packet(data: &[u8]) -> (r: (Packet<'_>, usize))
    ensures
        r.0@ == packet_of(data@),
        packet_of(data@) is Malformed ==> r.1 == 0,
        !(packet_of(data@) is Malformed) ==> r.1 == data@.len() - packet_len(data@)->0,
{
    let Ok((rest, (packet, _))) = ssh_parser::parse_ssh_packet(data) else { return (Packet::Malformed, 0) };
    (match packet {
        SshPacket::KeyExchange(p) => Packet::KeyExchange {
            cookie: p.cookie, follows: p.first_kex_packet_follows,
            lists: vec![p.kex_algs, p.server_host_key_algs, p.encr_algs_client_to_server,
                p.encr_algs_server_to_client, p.mac_algs_client_to_server, p.mac_algs_server_to_client,
                p.comp_algs_client_to_server, p.comp_algs_server_to_client,
                p.langs_client_to_server, p.langs_server_to_client] },
        SshPacket::NewKeys => Packet::NewKeys,
        SshPacket::DiffieHellmanInit(p) => Packet::DhInit { e: p.e },
        SshPacket::DiffieHellmanReply(p) => Packet::DhReply {
            pubkey_and_cert: p.pubkey_and_cert, f: p.f, signature: p.signature },
        _ => Packet::Other,
    }, rest.len())
}

/// Pieces of `bytes` between commas; there is at least one.
pub open spec fn split_commas(bytes: Seq<u8>) -> Seq<Seq<u8>>
    decreases bytes.len(),
{
    if bytes.len() == 0 {
        seq![Seq::empty()]
    } else {
        let before = split_commas(bytes.drop_last());
        if bytes.last() == 0x2c {
            before.push(Seq::empty())
        } else {
            before.drop_last().push(before.last().push(bytes.last()))
        }
    }
}

proof fn lemma_split_commas_nonempty(bytes: Seq<u8>)
    ensures
        split_commas(bytes).len() > 0,
    decreases bytes.len(),
{
    if bytes.len() > 0 {
        lemma_split_commas_nonempty(bytes.drop_last());
    }
}

/// All the names in a list are UTF-8.
pub open spec fn names_readable(bytes: Seq<u8>) -> bool {
    forall|i: int|
        0 <= i < split_commas(bytes).len() ==> valid_utf8(#[trigger] split_commas(bytes)[i])
}

/// The names in a list.
pub open spec fn names(bytes: Seq<u8>) -> Seq<Seq<char>> {
    Seq::new(split_commas(bytes).len(), |i: int| decode_utf8(split_commas(bytes)[i]))
}

/// Where the first `SSH-` at or after `pos` is.
pub open spec fn identifier_from(data: Seq<u8>, pos: int) -> Option<int>
    decreases data.len() - pos,
{
    if pos + 4 > data.len() {
        None
    } else if starts_with_identifier(data.skip(pos)) {
        Some(pos)
    } else {
        identifier_from(data, pos + 1)
    }
}

/// The bytes begin with `SSH-`.
pub open spec fn starts_with_identifier(data: Seq<u8>) -> bool {
    data.len() >= 4 && data[0] == 0x53 && data[1] == 0x53 && data[2] == 0x48 && data[3] == 0x2d
}

/// The fields of an identification line are UTF-8.
pub open spec fn identification_readable(id: IdentificationModel) -> bool {
    match id {
        IdentificationModel::Missing => true,
        IdentificationModel::Found { proto, software, comments, rest: _ } => {
            &&& valid_utf8(proto)
            &&& valid_utf8(software)
            &&& comments matches Some(c) ==> valid_utf8(c)
        },
    }
}

/// The names in a packet are UTF-8.
pub open spec fn packet_readable(p: PacketModel) -> bool {
    match p {
        PacketModel::KeyExchange { cookie: _, lists, follows: _ } => forall|i: int|
            0 <= i < lists.len() ==> names_readable(#[trigger] lists[i]),
        _ => true,
    }
}

/// The texts of an identification line.
pub open spec fn version_of(id: IdentificationModel) -> VersionModel {
    match id {
        IdentificationModel::Missing => VersionModel {
            protoversion: None,
            softwareversion: None,
            comments: None,
        },
        IdentificationModel::Found { proto, software, comments, rest: _ } => VersionModel {
            protoversion: Some(decode_utf8(proto)),
            softwareversion: Some(decode_utf8(software)),
            comments: match comments {
                Some(c) => Some(decode_utf8(c)),
                None => None,
            },
        },
    }
}

/// A handshake with an identification line of one side noted, if there is one.
pub open spec fn with_version(m: SshModel, id: IdentificationModel, dir: bool) -> SshModel {
    if id is Missing {
        m
    } else if dir {
        SshModel { client_version_exchange: Some(version_of(id)), ..m }
    } else {
        SshModel { server_version_exchange: Some(version_of(id)), ..m }
    }
}

/// A handshake with a packet noted.
pub open spec fn with_packet(m: SshModel, p: PacketModel, dir: bool) -> SshModel {
    match p {
        PacketModel::KeyExchange { cookie, lists, follows } => SshModel {
            key_exchange: Some(
                KeyExchangeModel {
                    cookie,
                    lists: Seq::new(lists.len(), |i: int| names(lists[i])),
                    first_kex_packet_follows: follows,
                },
            ),
            ..m
        },
        PacketModel::DhInit { e } => SshModel { client_dh_key_exchange: Some(e), ..m },
        PacketModel::DhReply { pubkey_and_cert, f, signature } => SshModel {
            server_dh_key_exchange: Some((pubkey_and_cert, f, signature)),
            ..m
        },
        PacketModel::NewKeys => if dir {
            SshModel { client_new_keys: Some(SshNewKeys), ..m }
        } else {
            SshModel { server_new_keys: Some(SshNewKeys), ..m }
        },
        _ => m,
    }
}

/// Both sides have ended the key exchange.
pub open spec fn handshake_over(m: SshModel) -> bool {
    m.client_new_keys is Some && m.server_new_keys is Some
}

/// What the packets of a segment from `pos` on add to a handshake, and what they conclude.
/// The segment is drained: several packets may follow one another in it. The handshake is
/// over once both sides have ended the key exchange; what follows in the segment is payload.
pub open spec fn packets_step(m: SshModel, data: Seq<u8>, pos: int, dir: bool, any: bool) -> (
    SshModel,
    ParseResult,
)
    decreases data.len() - pos,
{
    let p = packet_of(data.skip(pos));
    let next = pos + packet_len(data.skip(pos))->0;
    let after = with_packet(m, p, dir);
    if pos >= data.len() || p is Malformed || !(pos < next <= data.len()) {
        (
            m,
            if any {
                ParseResult::Continue(0)
            } else {
                ParseResult::Skipped
            },
        )
    } else if p is NewKeys && handshake_over(after) {
        (
            if next < data.len() {
                SshModel { last_body_offset: Some(next), ..after }
            } else {
                after
            },
            ParseResult::HeadersDone(0),
        )
    } else {
        packets_step(after, data, next, dir, true)
    }
}

/// What a segment adds to a handshake, and what it concludes. An identification line may
/// come before the packets; if it is not complete, nothing that follows is read.
pub open spec fn segment_step(m: SshModel, data: Seq<u8>, dir: bool) -> (SshModel, ParseResult) {
    match identifier_from(data, 0) {
        None => packets_step(m, data, 0, dir, false),
        Some(pos) => match ssh_identification(data.skip(pos)) {
            IdentificationModel::Missing => (m, ParseResult::Continue(0)),
            IdentificationModel::Found { proto, software, comments, rest } => packets_step(
                with_version(
                    m,
                    IdentificationModel::Found { proto, software, comments, rest },
                    dir,
                ),
                data,
                data.len() - rest,
                dir,
                true,
            ),
        },
    }
}

/// The packets of a segment that are read from `pos` on hold UTF-8 names only.
pub open spec fn packets_readable(m: SshModel, data: Seq<u8>, pos: int, dir: bool) -> bool
    decreases data.len() - pos,
{
    let p = packet_of(data.skip(pos));
    let next = pos + packet_len(data.skip(pos))->0;
    let after = with_packet(m, p, dir);
    if pos >= data.len() || p is Malformed || !(pos < next <= data.len()) {
        true
    } else {
        &&& packet_readable(p)
        &&& (p is NewKeys && handshake_over(after)) || packets_readable(after, data, next, dir)
    }
}

/// A segment whose texts are all UTF-8, as far as they are read.
pub open spec fn segment_readable(m: SshModel, data: Seq<u8>, dir: bool) -> bool {
    match identifier_from(data, 0) {
        None => packets_readable(m, data, 0, dir),
        Some(pos) => {
            let id = ssh_identification(data.skip(pos));
            &&& identification_readable(id)
            &&& id matches IdentificationModel::Found { rest, .. } ==> packets_readable(
                m,
                data,
                data.len() - rest,
                dir,
            )
        },
    }
}

/// A packet is longer than its length field.
proof fn lemma_packet_len(data: Seq<u8>)
    ensures
        packet_len(data) matches Some(n) ==> 6 <= n <= data.len(),
{
}

/// Reading packets never takes back what a side has sent to end its key exchange.
proof fn lemma_packets_keep_new_keys(m: SshModel, data: Seq<u8>, pos: int, dir: bool, any: bool)
    ensures
        m.client_new_keys is Some ==> packets_step(m, data, pos, dir, any).0.client_new_keys
            is Some,
        m.server_new_keys is Some ==> packets_step(m, data, pos, dir, any).0.server_new_keys
            is Some,
    decreases data.len() - pos,
{
    let p = packet_of(data.skip(pos));
    let next = pos + packet_len(data.skip(pos))->0;
    let after = with_packet(m, p, dir);
    if !(pos >= data.len() || p is Malformed || !(pos < next <= data.len())) && !(p is NewKeys
        && handshake_over(after)) {
        lemma_packets_keep_new_keys(after, data, next, dir, true);
    }
}

/// A segment concludes that the handshake is over only if both sides have ended the key
/// exchange, and what a side has sent to end it is never taken back.
pub proof fn law_handshake_ends_with_both_new_keys(m: SshModel, data: Seq<u8>, dir: bool)
    ensures
        segment_step(m, data, dir).1 is HeadersDone ==> handshake_over(
            segment_step(m, data, dir).0,
        ),
        m.client_new_keys is Some ==> segment_step(m, data, dir).0.client_new_keys is Some,
        m.server_new_keys is Some ==> segment_step(m, data, dir).0.server_new_keys is Some,
{
    match identifier_from(data, 0) {
        None => {
            lemma_packets_keep_new_keys(m, data, 0, dir, false);
            lemma_packets_end(m, data, 0, dir, false);
        },
        Some(pos) => {
            let id = ssh_identification(data.skip(pos));
            if let IdentificationModel::Found { proto, software, comments, rest } = id {
                let v = with_version(m, id, dir);
                lemma_packets_keep_new_keys(v, data, data.len() - rest, dir, true);
                lemma_packets_end(v, data, data.len() - rest, dir, true);
            }
        },
    }
}

proof fn lemma_packets_end(m: SshModel, data: Seq<u8>, pos: int, dir: bool, any: bool)
    ensures
        packets_step(m, data, pos, dir, any).1 is HeadersDone ==> handshake_over(
            packets_step(m, data, pos, dir, any).0,
        ),
    decreases data.len() - pos,
{
    let p = packet_of(data.skip(pos));
    let next = pos + packet_len(data.skip(pos))->0;
    let after = with_packet(m, p, dir);
    if !(pos >= data.len() || p is Malformed || !(pos < next <= data.len())) && !(p is NewKeys
        && handshake_over(after)) {
        lemma_packets_end(after, data, next, dir, true);
    }
}

/// Other packets in front of the one that ends the key exchange do not hide it: a segment
/// that begins with some other packet is read as the rest of it would be.
pub proof fn law_packets_are_drained(m: SshModel, data: Seq<u8>, pos: int, dir: bool, any: bool)
    requires
        0 <= pos < data.len(),
        !(packet_of(data.skip(pos)) is Malformed),
        !(packet_of(data.skip(pos)) is NewKeys),
    ensures
        packets_step(m, data, pos, dir, any) == packets_step(
            with_packet(m, packet_of(data.skip(pos)), dir),
            data,
            pos + packet_len(data.skip(pos))->0,
            dir,
            true,
        ),
{
    lemma_packet_len(data.skip(pos));
}

/// No handshake yet.
pub open spec fn no_handshake() -> SshModel {
    SshModel {
        client_version_exchange: None,
        server_version_exchange: None,
        key_exchange: None,
        client_dh_key_exchange: None,
        server_dh_key_exchange: None,
        client_new_keys: None,
        server_new_keys: None,
        last_body_offset: None,
    }
}

impl Ssh {
    /// Allocates a new SSH handshake.
    pub fn new() -> (s: Ssh)
        ensures
            s@ == no_handshake(),
    {
        Ssh {
            client_version_exchange: None,
            server_version_exchange: None,
            key_exchange: None,
            client_dh_key_exchange: None,
            server_dh_key_exchange: None,
            client_new_keys: None,
            server_new_keys: None,
            last_body_offset: None,
        }
    }

    /// The text that some bytes encode.
    pub fn byte_to_string(b: &[u8]) -> (s: String)
        requires
            valid_utf8(b@),
        ensures
            s@ == decode_utf8(b@),
    {
        match utf8_text(b) {
            Some(s) => s,
            None => String::new(),
        }
    }

    /// The names in a list.
    pub fn bytes_to_string_vec(data: &[u8]) -> (r: Vec<String>)
        requires
            names_readable(data@),
        ensures
            texts(r@) == names(data@),
    {
        let pieces = Ssh::comma_pieces(data);
        let mut out: Vec<String> = Vec::new();
        let mut i: usize = 0;
        while i < pieces.len()
            invariant
                i <= pieces@.len(),
                names_readable(data@),
                split_commas(data@) == Seq::new(pieces@.len(), |j: int| pieces@[j]@),
                texts(out@) == names(data@).take(i as int),
            decreases pieces@.len() - i,
        {
            assert(split_commas(data@)[i as int] == pieces@[i as int]@);
            let name = Ssh::byte_to_string(pieces[i].as_slice());
            let ghost before = out@;
            out.push(name);
            assert(texts(out@) =~= texts(before).push(name@));
            assert(names(data@).take(i + 1) =~= names(data@).take(i as int).push(name@));
            i = i + 1;
        }
        assert(names(data@).take(i as int) =~= names(data@));
        out
    }

    /// Pieces of `data` between commas.
    fn comma_pieces(data: &[u8]) -> (r: Vec<Vec<u8>>)
        ensures
            split_commas(data@) == Seq::new(r@.len(), |j: int| r@[j]@),
    {
        let mut done: Vec<Vec<u8>> = Vec::new();
        let mut piece: Vec<u8> = Vec::new();
        let mut i: usize = 0;
        assert(split_commas(data@.take(0)) =~= seq![Seq::empty()]);
        assert(piece@ =~= Seq::empty());
        assert(Seq::new(done@.len(), |j: int| done@[j]@).push(piece@) =~= seq![piece@]);
        while i < data.len()
            invariant
                i <= data@.len(),
                split_commas(data@.take(i as int)) == Seq::new(
                    done@.len(),
                    |j: int| done@[j]@,
                ).push(piece@),
            decreases data@.len() - i,
        {
            let ghost so_far = Seq::new(done@.len(), |j: int| done@[j]@);
            let ghost piece_before = piece@;
            assert(data@.len() == data.len());
            assert(data@.take(i + 1).drop_last() =~= data@.take(i as int));
            assert(so_far.push(piece@).drop_last() =~= so_far);
            if data[i] == 0x2c {
                let mut full: Vec<u8> = Vec::new();
                core::mem::swap(&mut piece, &mut full);
                done.push(full);
                assert(piece@ =~= Seq::empty());
                assert(Seq::new(done@.len(), |j: int| done@[j]@) =~= so_far.push(piece_before));
            } else {
                piece.push(data[i]);
            }
            i = i + 1;
        }
        assert(data@.take(i as int) =~= data@);
        let ghost so_far = Seq::new(done@.len(), |j: int| done@[j]@);
        let ghost last = piece@;
        done.push(piece);
        assert(Seq::new(done@.len(), |j: int| done@[j]@) =~= so_far.push(last));
        done
    }

    /// Returns `true` if all the names in a list are UTF-8.
    fn are_names_readable(data: &[u8]) -> (b: bool)
        ensures
            b == names_readable(data@),
    {
        let pieces = Ssh::comma_pieces(data);
        let mut i: usize = 0;
        while i < pieces.len()
            invariant
                i <= pieces@.len(),
                split_commas(data@) == Seq::new(pieces@.len(), |j: int| pieces@[j]@),
                forall|j: int| 0 <= j < i ==> valid_utf8(#[trigger] split_commas(data@)[j]),
            decreases pieces@.len() - i,
        {
            assert(split_commas(data@)[i as int] == pieces@[i as int]@);
            if utf8_text(pieces[i].as_slice()).is_none() {
                return false;
            }
            i = i + 1;
        }
        true
    }

    /// Where the first `SSH-` is.
    fn find_identifier(data: &[u8]) -> (r: Option<usize>)
        ensures
            match r {
                Some(pos) => identifier_from(data@, 0) == Some(pos as int) && pos + 4
                    <= data@.len() && starts_with_identifier(data@.skip(pos as int)),
                None => identifier_from(data@, 0) is None,
            },
    {
        let mut pos: usize = 0;
        while data.len() - pos >= 4
            invariant
                pos <= data@.len(),
                identifier_from(data@, 0) == identifier_from(data@, pos as int),
            decreases data@.len() - pos,
        {
            assert(data@.len() == data.len());
            if data[pos] == 0x53 && data[pos + 1] == 0x53 && data[pos + 2] == 0x48 && data[pos
                + 3] == 0x2d {
                return Some(pos);
            }
            pos = pos + 1;
        }
        None
    }

    /// Notes an identification line.
    fn note_version(&mut self, id: Identification, dir: bool)
        requires
            identification_readable(id@),
        ensures
            final(self)@ == with_version(old(self)@, id@, dir),
    {
        match id {
            Identification::Found { proto, software, comments, rest: _ } => {
                let comments = match comments {
                    Some(c) => Some(Ssh::byte_to_string(c.as_slice())),
                    None => None,
                };
                let version_exchange = SshVersionExchange {
                    protoversion: Some(Ssh::byte_to_string(proto.as_slice())),
                    softwareversion: Some(Ssh::byte_to_string(software.as_slice())),
                    comments,
                };
                if dir {
                    self.client_version_exchange = Some(version_exchange);
                } else {
                    self.server_version_exchange = Some(version_exchange);
                }
            },
            Identification::Missing => {},
        }
    }

    /// Parses an identification line, which may come after other bytes.
    pub fn parse_version_exchange(&mut self, data: &[u8], dir: bool)
        requires
            identifier_from(data@, 0) matches Some(pos) ==> identification_readable(
                ssh_identification(data@.skip(pos)),
            ),
        ensures
            final(self)@ == (match identifier_from(data@, 0) {
                Some(pos) => with_version(
                    old(self)@,
                    ssh_identification(data@.skip(pos)),
                    dir,
                ),
                None => old(self)@,
            }),
    {
        match Ssh::find_identifier(data) {
            Some(pos) => {
                let line = vstd::slice::slice_subrange(data, pos, data.len());
                assert(line@ =~= data@.skip(pos as int));
                let id = read_identification(line);
                self.note_version(id, dir);
            },
            None => {},
        }
    }

    /// Parses a key exchange packet.
    pub fn parse_key_exchange(&mut self, data: &[u8])
        requires
            packet_readable(packet_of(data@)),
        ensures
            final(self)@ == (if packet_of(data@) is KeyExchange {
                with_packet(old(self)@, packet_of(data@), true)
            } else {
                old(self)@
            }),
    {
        let (packet, _) = read_packet(data);
        let ghost model = packet@;
        match packet {
            Packet::KeyExchange { cookie, lists, follows } => {
                let ghost raw = byte_lists(lists@);
                proof {
                    lemma_key_exchange_has_ten_lists(data@);
                    assert(model == PacketModel::KeyExchange {
                        cookie: cookie@,
                        lists: raw,
                        follows,
                    });
                    assert forall|i: int| 0 <= i < 10 implies names_readable(
                        #[trigger] lists@[i]@,
                    ) by {
                        assert(raw[i] == lists@[i]@);
                    }
                }
                let key_exchange = SshKeyExchange {
                    cookie: copy_range(cookie, 0, cookie.len()),
                    kex_algs: Ssh::bytes_to_string_vec(lists[0]),
                    server_host_key_algs: Ssh::bytes_to_string_vec(lists[1]),
                    encryption_algs_client_to_server: Ssh::bytes_to_string_vec(lists[2]),
                    encryption_algs_server_to_client: Ssh::bytes_to_string_vec(lists[3]),
                    mac_algs_client_to_server: Ssh::bytes_to_string_vec(lists[4]),
                    mac_algs_server_to_client: Ssh::bytes_to_string_vec(lists[5]),
                    compression_algs_client_to_server: Ssh::bytes_to_string_vec(lists[6]),
                    compression_algs_server_to_client: Ssh::bytes_to_string_vec(lists[7]),
                    languages_client_to_server: Ssh::bytes_to_string_vec(lists[8]),
                    languages_server_to_client: Ssh::bytes_to_string_vec(lists[9]),
                    first_kex_packet_follows: follows,
                };
                assert(key_exchange.cookie@ =~= cookie@);
                assert(key_exchange@.lists =~= Seq::new(raw.len(), |i: int| names(raw[i])));
                self.key_exchange = Some(key_exchange);
            },
            _ => {},
        }
    }

    /// Parses the client's key exchange message.
    pub fn parse_dh_client_init(&mut self, data: &[u8])
        ensures
            final(self)@ == (if packet_of(data@) is DhInit {
                with_packet(old(self)@, packet_of(data@), true)
            } else {
                old(self)@
            }),
    {
        let (packet, _) = read_packet(data);
        match packet {
            Packet::DhInit { e } => {
                let copy = copy_range(e, 0, e.len());
                assert(copy@ =~= e@);
                self.client_dh_key_exchange = Some(SshDhInit { e: copy });
            },
            _ => {},
        }
    }

    /// Parses the server's key exchange message.
    pub fn parse_dh_server_response(&mut self, data: &[u8])
        ensures
            final(self)@ == (if packet_of(data@) is DhReply {
                with_packet(old(self)@, packet_of(data@), true)
            } else {
                old(self)@
            }),
    {
        let (packet, _) = read_packet(data);
        match packet {
            Packet::DhReply { pubkey_and_cert, f, signature } => {
                let dh_response = SshDhResponse {
                    pubkey_and_certs: copy_range(pubkey_and_cert, 0, pubkey_and_cert.len()),
                    f: copy_range(f, 0, f.len()),
                    signature: copy_range(signature, 0, signature.len()),
                };
                assert(dh_response.pubkey_and_certs@ =~= pubkey_and_cert@);
                assert(dh_response.f@ =~= f@);
                assert(dh_response.signature@ =~= signature@);
                self.server_dh_key_exchange = Some(dh_response);
            },
            _ => {},
        }
    }

    /// Parses the packet that ends one side of the key exchange. Returns the length of the
    /// remaining data.
    pub fn parse_new_keys(&mut self, data: &[u8], dir: bool) -> (remaining: usize)
        ensures
            final(self)@ == (if packet_of(data@) is NewKeys {
                with_packet(old(self)@, packet_of(data@), dir)
            } else {
                old(self)@
            }),
            remaining == (if packet_of(data@) is NewKeys {
                data@.len() - packet_len(data@)->0
            } else {
                0
            }),
    {
        let (packet, rest) = read_packet(data);
        match packet {
            Packet::NewKeys => {
                if dir {
                    self.client_new_keys = Some(SshNewKeys);
                } else {
                    self.server_new_keys = Some(SshNewKeys);
                }
                rest
            },
            _ => 0,
        }
    }

    /// Returns `true` if the texts in a segment are all UTF-8, as far as they are read.
    pub fn is_readable(&self, data: &[u8], dir: bool) -> (b: bool)
        ensures
            b == segment_readable(self@, data@, dir),
    {
        let mut pos: usize = 0;
        match Ssh::find_identifier(data) {
            Some(at) => {
                let line = vstd::slice::slice_subrange(data, at, data.len());
                assert(line@ =~= data@.skip(at as int));
                match read_identification(line) {
                    Identification::Found { proto, software, comments, rest } => {
                        let comments_readable = match comments {
                            Some(c) => utf8_text(c.as_slice()).is_some(),
                            None => true,
                        };
                        if utf8_text(proto.as_slice()).is_none() || utf8_text(
                            software.as_slice(),
                        ).is_none() || !comments_readable {
                            return false;
                        }
                        pos = data.len() - rest;
                    },
                    Identification::Missing => {
                        return true;
                    },
                }
            },
            None => {},
        }
        let mut client: bool = self.client_new_keys.is_some();
        let mut server: bool = self.server_new_keys.is_some();
        let ghost mut m = self@;
        while pos < data.len()
            invariant
                pos <= data@.len(),
                client == m.client_new_keys is Some,
                server == m.server_new_keys is Some,
                segment_readable(self@, data@, dir) == packets_readable(
                    m,
                    data@,
                    pos as int,
                    dir,
                ),
            decreases data@.len() - pos,
        {
            let rest = vstd::slice::slice_subrange(data, pos, data.len());
            assert(rest@ =~= data@.skip(pos as int));
            proof {
                lemma_packet_len(rest@);
            }
            let (packet, remaining) = read_packet(rest);
            let ghost model = packet@;
            match packet {
                Packet::Malformed => {
                    return true;
                },
                Packet::KeyExchange { cookie: _, lists, follows: _ } => {
                    let ghost raw = byte_lists(lists@);
                    let mut i: usize = 0;
                    while i < lists.len()
                        invariant
                            i <= lists@.len(),
                            raw == byte_lists(lists@),
                            model is KeyExchange,
                            model->lists == raw,
                            forall|j: int| 0 <= j < i ==> names_readable(#[trigger] raw[j]),
                            !packet_readable(model) ==> !segment_readable(self@, data@, dir),
                        decreases lists@.len() - i,
                    {
                        assert(raw[i as int] == lists@[i as int]@);
                        if !Ssh::are_names_readable(lists[i]) {
                            assert(!names_readable(raw[i as int]));
                            return false;
                        }
                        i = i + 1;
                    }
                    assert(packet_readable(model));
                },
                Packet::NewKeys => {
                    if dir {
                        client = true;
                    } else {
                        server = true;
                    }
                    if client && server {
                        return true;
                    }
                },
                _ => {},
            }
            proof {
                m = with_packet(m, model, dir);
            }
            pos = data.len() - remaining;
        }
        true
    }

    /// Folds a segment into the handshake.
    pub fn process(&mut self, data: &[u8], dir: bool) -> (r: ParseResult)
        requires
            segment_readable(old(self)@, data@, dir),
        ensures
            (final(self)@, r) == segment_step(old(self)@, data@, dir),
    {
        let ghost before = self@;
        let mut parsed_any: bool = false;
        let mut pos: usize = 0;
        // The identification line opens the connection, and is routinely sent together with
        // the packets that follow. It is taken off the front.
        match Ssh::find_identifier(data) {
            Some(at) => {
                let line = vstd::slice::slice_subrange(data, at, data.len());
                assert(line@ =~= data@.skip(at as int));
                let id = read_identification(line);
                match &id {
                    Identification::Found { proto: _, software: _, comments: _, rest } => {
                        parsed_any = true;
                        pos = data.len() - *rest;
                    },
                    // The line is not complete; nothing reliable follows it.
                    Identification::Missing => {
                        return ParseResult::Continue(0);
                    },
                }
                assert(line@.skip(0) =~= line@);
                self.parse_version_exchange(line, dir);
                proof {
                    lemma_readable_with_version(before, id@, data@, pos as int, dir);
                }
            },
            None => {},
        }
        // A segment routinely carries several packets back to back: drain it.
        while pos < data.len()
            invariant
                pos <= data@.len(),
                before == old(self)@,
                packets_readable(self@, data@, pos as int, dir),
                segment_step(before, data@, dir) == packets_step(
                    self@,
                    data@,
                    pos as int,
                    dir,
                    parsed_any,
                ),
            decreases data@.len() - pos,
        {
            let rest = vstd::slice::slice_subrange(data, pos, data.len());
            assert(rest@ =~= data@.skip(pos as int));
            proof {
                lemma_packet_len(rest@);
            }
            let (packet, remaining) = read_packet(rest);
            let ghost model = packet@;
            match packet {
                Packet::Malformed => {
                    return if parsed_any {
                        ParseResult::Continue(0)
                    } else {
                        ParseResult::Skipped
                    };
                },
                Packet::KeyExchange { cookie: _, lists: _, follows: _ } => {
                    self.parse_key_exchange(rest);
                },
                Packet::DhInit { e: _ } => {
                    self.parse_dh_client_init(rest);
                },
                Packet::DhReply { pubkey_and_cert: _, f: _, signature: _ } => {
                    self.parse_dh_server_response(rest);
                },
                Packet::NewKeys => {
                    let _ = self.parse_new_keys(rest, dir);
                    // The handshake is over once both sides have ended the key exchange.
                    if self.client_new_keys.is_some() && self.server_new_keys.is_some() {
                        // What follows in this segment is encrypted payload.
                        if remaining > 0 {
                            self.last_body_offset = Some(data.len() - remaining);
                        }
                        return ParseResult::HeadersDone(0);
                    }
                },
                Packet::Other => {},
            }
            parsed_any = true;
            pos = data.len() - remaining;
        }
        if parsed_any {
            ParseResult::Continue(0)
        } else {
            ParseResult::Skipped
        }
    }
}

proof fn lemma_strings_count(data: Seq<u8>, pos: int, n: nat)
    ensures
        strings_at(data, pos, n) matches Some((strings, _)) ==> strings.len() == n,
    decreases n,
{
    if n > 0 {
        lemma_strings_count(data, pos, (n - 1) as nat);
    }
}

proof fn lemma_key_exchange_has_ten_lists(data: Seq<u8>)
    ensures
        packet_of(data) matches PacketModel::KeyExchange { lists, .. } ==> lists.len() == 10,
{
    lemma_strings_count(packet_payload(data), 17, 10);
}

/// An identification line does not decide which packets are read.
proof fn lemma_readable_with_version(
    m: SshModel,
    id: IdentificationModel,
    data: Seq<u8>,
    pos: int,
    dir: bool,
)
    ensures
        packets_readable(with_version(m, id, dir), data, pos, dir) == packets_readable(
            m,
            data,
            pos,
            dir,
        ),
{
    lemma_readable_by_new_keys(with_version(m, id, dir), m, data, pos, dir);
}

proof fn lemma_readable_by_new_keys(a: SshModel, b: SshModel, data: Seq<u8>, pos: int, dir: bool)
    requires
        a.client_new_keys is Some == b.client_new_keys is Some,
        a.server_new_keys is Some == b.server_new_keys is Some,
    ensures
        packets_readable(a, data, pos, dir) == packets_readable(b, data, pos, dir),
    decreases data.len() - pos,
{
    let p = packet_of(data.skip(pos));
    let next = pos + packet_len(data.skip(pos))->0;
    if !(pos >= data.len() || p is Malformed || !(pos < next <= data.len())) {
        lemma_readable_by_new_keys(
            with_packet(a, p, dir),
            with_packet(b, p, dir),
            data,
            next,
            dir,
        );
    }
}

/// Parser state of one connection: at most one handshake, handed out once.
#[derive(Debug)]
pub struct SshParser {
    sessions: Vec<Ssh>,
}

impl View for SshParser {
    type V = Seq<Ssh>;

    closed spec fn view(&self) -> Seq<Ssh> {
        self.sessions@
    }
}

impl Default for SshParser {
    fn default() -> (p: SshParser)
        ensures
            p@.len() == 1,
            p@[0]@ == no_handshake(),
    {
        let mut sessions: Vec<Ssh> = Vec::new();
        sessions.push(Ssh::new());
        SshParser { sessions }
    }
}

impl SshParser {
    /// Folds the segment into the handshake. A segment without payload, whose payload cannot
    /// be read or whose texts are not UTF-8, is skipped, and so is one that comes after the
    /// handshake was handed out.
    pub fn parse(&mut self, pdu: &L4Pdu) -> (r: ParseResult)
        ensures
            final(self)@.len() == old(self)@.len(),
            forall|i: int| 1 <= i < old(self)@.len() ==> final(self)@[i] == old(self)@[i],
            match pdu.payload() {
                Some(data) if data.len() > 0 && old(self)@.len() > 0 && segment_readable(
                    old(self)@[0]@,
                    data,
                    pdu.dir,
                ) => (final(self)@[0]@, r) == segment_step(old(self)@[0]@, data, pdu.dir),
                _ => r == ParseResult::Skipped && final(self)@ == old(self)@,
            },
    {
        let offset: usize = pdu.offset();
        let length: usize = pdu.length();
        if length == 0 {
            return ParseResult::Skipped;
        }
        match pdu.mbuf_ref().get_data_slice(offset, length) {
            Ok(data) => {
                if self.sessions.len() > 0 && self.sessions[0].is_readable(data, pdu.dir) {
                    return self.sessions[0].process(data, pdu.dir);
                }
                ParseResult::Skipped
            },
            Err(_) => ParseResult::Skipped,
        }
    }

    /// Probes the segment's payload: the first four bytes must be `SSH-`.
    pub fn probe(&self, pdu: &L4Pdu) -> (r: ProbeResult)
        ensures
            r == (if pdu.ctxt.length < 4 {
                ProbeResult::Unsure
            } else {
                match pdu.payload() {
                    Some(data) => if starts_with_identifier(data) {
                        ProbeResult::Certain
                    } else {
                        ProbeResult::NotForUs
                    },
                    None => ProbeResult::Error,
                }
            }),
    {
        if pdu.length() < 4 {
            return ProbeResult::Unsure;
        }
        match pdu.mbuf.get_data_slice(pdu.offset(), pdu.length()) {
            Ok(data) => {
                if data[0] == 0x53 && data[1] == 0x53 && data[2] == 0x48 && data[3] == 0x2d {
                    ProbeResult::Certain
                } else {
                    ProbeResult::NotForUs
                }
            },
            Err(_) => ProbeResult::Error,
        }
    }

    /// Hands out the most recent summary.
    pub fn remove_session(&mut self, _session_id: usize) -> (r: Option<Session>)
        ensures
            match r {
                Some(s) => {
                    &&& old(self)@.len() > 0
                    &&& s.id == 0
                    &&& s.data == SessionData::Ssh(Box::new(old(self)@.last()))
                    &&& final(self)@ == old(self)@.drop_last()
                },
                None => old(self)@.len() == 0 && final(self)@ == old(self)@,
            },
    {
        match self.sessions.pop() {
            Some(ssh) => Some(Session { data: SessionData::Ssh(Box::new(ssh)), id: 0 }),
            None => None,
        }
    }

    /// Hands out every summary, in order.
    pub fn drain_sessions(&mut self) -> (r: Vec<Session>)
        ensures
            final(self)@.len() == 0,
            r@.len() == old(self)@.len(),
            forall|i: int|
                0 <= i < r@.len() ==> (#[trigger] r@[i]).id == 0 && r@[i].data
                    == SessionData::Ssh(Box::new(old(self)@[i])),
    {
        let mut out: Vec<Session> = Vec::new();
        let ghost all = self.sessions@;
        while self.sessions.len() > 0
            invariant
                out@.len() + self.sessions@.len() == all.len(),
                self.sessions@ == all.skip(out@.len() as int),
                forall|i: int|
                    0 <= i < out@.len() ==> (#[trigger] out@[i]).id == 0 && out@[i].data
                        == SessionData::Ssh(Box::new(all[i])),
            decreases self.sessions@.len(),
        {
            let ssh = self.sessions.remove(0);
            out.push(Session { data: SessionData::Ssh(Box::new(ssh)), id: 0 });
            assert(self.sessions@ =~= all.skip(out@.len() as int));
        }
        out
    }

    pub fn session_parsed_state(&self) -> (s: ParsingState)
        ensures
            s == ParsingState::Stop,
    {
        ParsingState::Stop
    }

    /// Takes the offset at which encrypted payload begins in the segment that ended the
    /// handshake.
    pub fn body_offset(&mut self) -> (r: Option<usize>)
        ensures
            final(self)@.len() == old(self)@.len(),
            old(self)@.len() == 0 ==> r is None,
            old(self)@.len() > 0 ==> {
                &&& r == old(self)@.last().last_body_offset
                &&& final(self)@ == old(self)@.drop_last().push(
                    (Ssh { last_body_offset: None, ..old(self)@.last() }),
                )
            },
    {
        match self.sessions.pop() {
            Some(mut session) => {
                let ghost before = session;
                let offset = session.last_body_offset;
                session.last_body_offset = None;
                self.sessions.push(session);
                assert(session == (Ssh { last_body_offset: None, ..before }));
                offset
            },
            None => None,
        }
    }
}

} // verus!
