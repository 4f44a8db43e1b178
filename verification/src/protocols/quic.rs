//! QUIC header parser.
//!
//! Parses long and short headers (RFC 8999, RFC 9000), opens Initial packets where their
//! keys can be derived, and feeds the handshake messages in them to the TLS parser.
//!
//! The destination connection ID of a short header is at most 20 bytes long, and is only
//! reported if it belongs to a connection that was identified before. The payload byte
//! count is a lazy one, which does not exclude what encryption adds.

use crate::conntrack::pdu::L4Pdu;
use crate::protocols::tls::{message_step, no_handshake, Tls, TlsModel};
use crate::protocols::tls_wire::{
    frame_len, frames_end, read_messages, record_parse, RecordParse, HANDSHAKE,
};
use crate::protocols::{ParseResult, ParsingState, ProbeResult, Session, SessionData};
use crate::text::{hex_of, lemma_hex_len, to_hex};
use crate::wire::{be32, copy_range, read_be32};
use byteorder::{BigEndian, ByteOrder};
use vstd::prelude::*;
use vstd::string::*;

verus! {

/// Errors in QUIC parsing. They are used to skip packets.
#[derive(Debug, Clone, Copy, PartialEq, Eq, Structural)]
pub enum QuicError {
    FixedBitNotSet,
    PacketTooShort,
    UnknownVersion,
    ShortHeader,
    UnknowLongHeaderPacketType,
    NoLongHeader,
    UnsupportedVarLen,
    InvalidDataIndices,
    CryptoFail,
    FailedHeaderProtection,
    UnknownFrameType,
    TlsParseFail,
}

/// Supported QUIC versions.
#[derive(Debug, Clone, Copy, PartialEq, Eq, Hash, Structural)]
pub enum QuicVersion {
    ReservedNegotiation,
    Rfc9000,
    Rfc9369,
    Draft27,
    Draft28,
    Draft29,
    Draft30,
    Draft31,
    Draft32,
    Draft33,
    Draft34,
    Mvfst27,
    /// A version of the form `0x?a?a?a?a`, which RFC 9368 reserves for greasing. It is
    /// QUIC, but its wire format is unknown, so only the invariant fields are parsed.
    Greased,
    Unknown,
}

/// Mask and value that identify the greased versions.
pub const GREASED_VERSION_MASK: u32 = 0x0f0f0f0f;

pub const GREASED_VERSION_VALUE: u32 = 0x0a0a0a0a;

/// The version field matches the pattern for greasing.
pub open spec fn greased(version: u32) -> bool {
    version & GREASED_VERSION_MASK == GREASED_VERSION_VALUE
}

impl QuicVersion {
    /// The version that a version field names.
    pub open spec fn of(version: u32) -> QuicVersion {
        if version == 0x00000000 {
            QuicVersion::ReservedNegotiation
        } else if version == 0x00000001 {
            QuicVersion::Rfc9000
        } else if version == 0x6b3343cf {
            QuicVersion::Rfc9369
        } else if version == 0xff00001b {
            QuicVersion::Draft27
        } else if version == 0xff00001c {
            QuicVersion::Draft28
        } else if version == 0xff00001d {
            QuicVersion::Draft29
        } else if version == 0xff00001e {
            QuicVersion::Draft30
        } else if version == 0xff00001f {
            QuicVersion::Draft31
        } else if version == 0xff000020 {
            QuicVersion::Draft32
        } else if version == 0xff000021 {
            QuicVersion::Draft33
        } else if version == 0xff000022 {
            QuicVersion::Draft34
        } else if version == 0xfaceb002 {
            QuicVersion::Mvfst27
        } else if greased(version) {
            QuicVersion::Greased
        } else {
            QuicVersion::Unknown
        }
    }

    /// The version leaves the long header's type bits undefined.
    pub open spec fn invariants_only(self) -> bool {
        self == QuicVersion::ReservedNegotiation || self == QuicVersion::Greased
    }

    /// True if the version leaves the long header's type bits undefined, so that nothing
    /// past the connection IDs can be interpreted.
    pub fn is_invariants_only(&self) -> (b: bool)
        ensures
            b == self.invariants_only(),
    {
        matches!(self, QuicVersion::ReservedNegotiation | QuicVersion::Greased)
    }

    pub fn from_u32(version: u32) -> (v: QuicVersion)
        ensures
            v == QuicVersion::of(version),
    {
        match version {
            0x00000000 => QuicVersion::ReservedNegotiation,
            0x00000001 => QuicVersion::Rfc9000,
            0x6b3343cf => QuicVersion::Rfc9369,
            0xff00001b => QuicVersion::Draft27,
            0xff00001c => QuicVersion::Draft28,
            0xff00001d => QuicVersion::Draft29,
            0xff00001e => QuicVersion::Draft30,
            0xff00001f => QuicVersion::Draft31,
            0xff000020 => QuicVersion::Draft32,
            0xff000021 => QuicVersion::Draft33,
            0xff000022 => QuicVersion::Draft34,
            0xfaceb002 => QuicVersion::Mvfst27,
            _ => if version & GREASED_VERSION_MASK == GREASED_VERSION_VALUE {
                QuicVersion::Greased
            } else {
                QuicVersion::Unknown
            },
        }
    }
}

/// True if `version` is a QUIC version number that is recognized. This is broader than that
/// its packets can be parsed: a greased version or a Version Negotiation packet is
/// recognized even though only the invariant fields can be read from it.
pub fn is_quic_version(version: u32) -> (b: bool)
    ensures
        b == (QuicVersion::of(version) != QuicVersion::Unknown),
{
    QuicVersion::from_u32(version) != QuicVersion::Unknown
}

/// Long header packet types (RFC 9000, table 5).
#[derive(Debug, Clone, Copy, PartialEq, Eq, Structural)]
pub enum LongHeaderPacketType {
    Initial,
    ZeroRTT,
    Handshake,
    Retry,
}

impl LongHeaderPacketType {
    /// The packet type with a number.
    pub open spec fn of(value: int) -> Option<LongHeaderPacketType> {
        if value == 0 {
            Some(LongHeaderPacketType::Initial)
        } else if value == 1 {
            Some(LongHeaderPacketType::ZeroRTT)
        } else if value == 2 {
            Some(LongHeaderPacketType::Handshake)
        } else if value == 3 {
            Some(LongHeaderPacketType::Retry)
        } else {
            None
        }
    }

    pub fn from_u8(value: u8) -> (r: Result<LongHeaderPacketType, QuicError>)
        ensures
            match r {
                Ok(t) => LongHeaderPacketType::of(value as int) == Some(t),
                Err(e) => LongHeaderPacketType::of(value as int) is None && e
                    == QuicError::UnknowLongHeaderPacketType,
            },
    {
        match value {
            0x00 => Ok(LongHeaderPacketType::Initial),
            0x01 => Ok(LongHeaderPacketType::ZeroRTT),
            0x02 => Ok(LongHeaderPacketType::Handshake),
            0x03 => Ok(LongHeaderPacketType::Retry),
            _ => Err(QuicError::UnknowLongHeaderPacketType),
        }
    }
}

/// Length of a variable-length number, by its first byte (RFC 9000, section 16).
pub open spec fn var_len(a: u8) -> int {
    if a < 64 {
        1
    } else if a < 128 {
        2
    } else if a < 192 {
        4
    } else {
        8
    }
}

/// The value of a variable-length number: its bytes as a big-endian number, without the two
/// bits that give its length.
pub open spec fn varint(s: Seq<u8>) -> int
    decreases s.len(),
{
    if s.len() <= 1 {
        s[0] as int % 64
    } else {
        varint(s.drop_last()) * 256 + s.last()
    }
}

/// 256 to the power of `n`.
pub open spec fn pow256(n: nat) -> int
    decreases n,
{
    if n == 0 {
        1
    } else {
        256 * pow256((n - 1) as nat)
    }
}

proof fn lemma_varint_bound(s: Seq<u8>)
    requires
        1 <= s.len() <= 8,
    ensures
        0 <= varint(s) < 64 * pow256((s.len() - 1) as nat) <= 0x4000_0000_0000_0000,
    decreases s.len(),
{
    reveal_with_fuel(pow256, 9);
    if s.len() > 1 {
        lemma_varint_bound(s.drop_last());
    }
}

/// The variable-length number at `pos`, and its length.
pub open spec fn varint_at(data: Seq<u8>, pos: int) -> Option<(int, int)> {
    if pos < data.len() && pos + var_len(data[pos]) <= data.len() {
        Some((varint(data.subrange(pos, pos + var_len(data[pos]))), var_len(data[pos])))
    } else {
        None
    }
}

/// The fields of a long header that every version has.
pub struct Invariants {
    pub type_specific: u8,
    pub version: u32,
    pub dcid: Seq<u8>,
    pub scid: Seq<u8>,
    /// Where the version-specific part begins.
    pub next: int,
}

/// A long header starts at `off` and is of a known version.
pub open spec fn version_at(data: Seq<u8>, off: int) -> Result<u32, QuicError> {
    if off + 5 > data.len() {
        Err(QuicError::PacketTooShort)
    } else if QuicVersion::of(be32(data, off + 1) as u32) == QuicVersion::Unknown {
        Err(QuicError::UnknownVersion)
    } else {
        Ok(be32(data, off + 1) as u32)
    }
}

/// The connection ID at `pos`, after its length.
pub open spec fn cid_at(data: Seq<u8>, pos: int) -> Option<Seq<u8>> {
    if pos < data.len() && pos + 1 + data[pos] <= data.len() {
        Some(data.subrange(pos + 1, pos + 1 + data[pos]))
    } else {
        None
    }
}

/// The invariant fields of the long header at `off`.
pub open spec fn invariants_at(data: Seq<u8>, off: int) -> Result<Invariants, QuicError> {
    match version_at(data, off) {
        Err(e) => Err(e),
        Ok(version) => match cid_at(data, off + 5) {
            None => Err(QuicError::PacketTooShort),
            Some(dcid) => match cid_at(data, off + 6 + dcid.len()) {
                None => Err(QuicError::PacketTooShort),
                Some(scid) => Ok(
                    Invariants {
                        type_specific: data[off] % 16,
                        version,
                        dcid,
                        scid,
                        next: off + 7 + dcid.len() + scid.len(),
                    },
                ),
            },
        },
    }
}

/// The known connection IDs with one more, unless it is empty or already known.
pub open spec fn with_cid(cids: Seq<Seq<char>>, id: Seq<u8>) -> Seq<Seq<char>> {
    if id.len() == 0 || cids.contains(hex_of(id)) {
        cids
    } else {
        cids.push(hex_of(id))
    }
}

/// The connection IDs known after the packet at `off`: those of a long header are added as
/// far as they can be read.
pub open spec fn cids_after(cids: Seq<Seq<char>>, data: Seq<u8>, off: int) -> Seq<Seq<char>> {
    if off >= data.len() || data[off] < 0x80 || version_at(data, off) is Err {
        cids
    } else {
        match cid_at(data, off + 5) {
            None => cids,
            Some(dcid) => match cid_at(data, off + 6 + dcid.len()) {
                None => with_cid(cids, dcid),
                Some(scid) => with_cid(with_cid(cids, dcid), scid),
            },
        }
    }
}

/// The versions that a Version Negotiation packet lists from `pos` on.
pub open spec fn listed_versions(data: Seq<u8>, pos: int) -> Seq<u32> {
    Seq::new(((data.len() - pos) / 4) as nat, |i: int| be32(data, pos + 4 * i) as u32)
}

/// A QUIC long header.
#[derive(Debug, Clone)]
pub struct QuicLongHeader {
    /// `None` when the version does not define the type bits: a Version Negotiation packet,
    /// or a greased version.
    pub packet_type: Option<LongHeaderPacketType>,
    pub type_specific: u8,
    pub version: u32,
    /// Length of the destination connection ID in bytes.
    pub dcid_len: u8,
    /// Destination connection ID, in hexadecimal.
    pub dcid: String,
    /// Length of the source connection ID in bytes.
    pub scid_len: u8,
    /// Source connection ID, in hexadecimal.
    pub scid: String,
    /// Length of the token in bytes, if the packet is an Initial or Retry packet.
    pub token_len: Option<u64>,
    /// Token, in hexadecimal.
    pub token: Option<String>,
    /// Integrity tag of a Retry packet, in hexadecimal.
    pub retry_tag: Option<String>,
    /// Versions offered by the server, if this is a Version Negotiation packet.
    pub supported_versions: Option<Vec<u32>>,
}

/// A QUIC short header.
#[derive(Debug, Clone)]
pub struct QuicShortHeader {
    /// The destination connection ID, if it is a known one.
    pub dcid: Option<String>,
}

/// A frame of an Initial packet.
#[derive(Debug, Clone)]
pub struct QuicFrame {
    pub frame_type: u64,
    pub data: Vec<u8>,
}

/// Parsed contents of a QUIC packet.
#[derive(Debug)]
pub struct QuicPacket {
    pub short_header: Option<QuicShortHeader>,
    pub long_header: Option<QuicLongHeader>,
    /// Number of bytes in the estimated payload.
    pub payload_bytes_count: Option<u64>,
    pub frames: Option<Vec<QuicFrame>>,
}

/// A long header, with its strings and lists as sequences.
pub struct LongModel {
    pub packet_type: Option<LongHeaderPacketType>,
    pub type_specific: u8,
    pub version: u32,
    pub dcid_len: u8,
    pub dcid: Seq<char>,
    pub scid_len: u8,
    pub scid: Seq<char>,
    pub token_len: Option<u64>,
    pub token: Option<Seq<char>>,
    pub retry_tag: Option<Seq<char>>,
    pub supported_versions: Option<Seq<u32>>,
}

/// The headers of a packet and its payload byte count.
pub struct PacketModel {
    pub short_header: Option<Option<Seq<char>>>,
    pub long_header: Option<LongModel>,
    pub payload_bytes_count: Option<u64>,
}

pub open spec fn opt_text(s: Option<String>) -> Option<Seq<char>> {
    match s {
        Some(t) => Some(t@),
        None => None,
    }
}

pub open spec fn opt_list(v: Option<Vec<u32>>) -> Option<Seq<u32>> {
    match v {
        Some(l) => Some(l@),
        None => None,
    }
}

impl View for QuicLongHeader {
    type V = LongModel;

    open spec fn view(&self) -> LongModel {
        LongModel {
            packet_type: self.packet_type,
            type_specific: self.type_specific,
            version: self.version,
            dcid_len: self.dcid_len,
            dcid: self.dcid@,
            scid_len: self.scid_len,
            scid: self.scid@,
            token_len: self.token_len,
            token: opt_text(self.token),
            retry_tag: opt_text(self.retry_tag),
            supported_versions: opt_list(self.supported_versions),
        }
    }
}

impl View for QuicPacket {
    type V = PacketModel;

    open spec fn view(&self) -> PacketModel {
        PacketModel {
            short_header: match self.short_header {
                Some(h) => Some(opt_text(h.dcid)),
                None => None,
            },
            long_header: match self.long_header {
                Some(h) => Some(h@),
                None => None,
            },
            payload_bytes_count: self.payload_bytes_count,
        }
    }
}

/// A long header with the invariant fields and nothing else.
pub open spec fn bare_long_header(inv: Invariants) -> LongModel {
    LongModel {
        packet_type: None,
        type_specific: inv.type_specific,
        version: inv.version,
        dcid_len: inv.dcid.len() as u8,
        dcid: hex_of(inv.dcid),
        scid_len: inv.scid.len() as u8,
        scid: hex_of(inv.scid),
        token_len: None,
        token: None,
        retry_tag: None,
        supported_versions: None,
    }
}

/// The packet of a version that leaves everything past the connection IDs undefined. A
/// Version Negotiation packet lists versions there; other bytes are payload.
pub open spec fn invariants_packet(inv: Invariants, data: Seq<u8>) -> PacketModel {
    let negotiation = QuicVersion::of(inv.version) == QuicVersion::ReservedNegotiation;
    PacketModel {
        short_header: None,
        long_header: Some(
            LongModel {
                supported_versions: if negotiation {
                    Some(listed_versions(data, inv.next))
                } else {
                    None
                },
                ..bare_long_header(inv)
            },
        ),
        payload_bytes_count: Some(
            if negotiation {
                ((data.len() - inv.next) % 4) as u64
            } else {
                (data.len() - inv.next) as u64
            },
        ),
    }
}

/// Smaller of a number and the largest offset.
pub open spec fn capped(n: int) -> int {
    if n > usize::MAX {
        usize::MAX as int
    } else {
        n
    }
}

/// The packet, and where the next one begins, of a 0-RTT or Handshake packet: a payload
/// after its length.
pub open spec fn sealed_packet(
    inv: Invariants,
    t: LongHeaderPacketType,
    data: Seq<u8>,
) -> Result<(PacketModel, int), QuicError> {
    match varint_at(data, inv.next) {
        None => Err(QuicError::PacketTooShort),
        Some((len, size)) => Ok(
            (
                PacketModel {
                    short_header: None,
                    long_header: Some(LongModel { packet_type: Some(t), ..bare_long_header(inv) }),
                    payload_bytes_count: Some(len as u64),
                },
                capped(inv.next + size + len),
            ),
        ),
    }
}

/// Length of the integrity tag of a Retry packet.
pub const RETRY_TAG_LEN: usize = 16;

/// A Retry packet: a token, which is not empty, and the tag that ends the datagram.
pub open spec fn retry_packet(inv: Invariants, data: Seq<u8>) -> Result<(PacketModel, int), QuicError> {
    let end = data.len() - RETRY_TAG_LEN;
    if end <= inv.next {
        Err(QuicError::PacketTooShort)
    } else {
        Ok(
            (
                PacketModel {
                    short_header: None,
                    long_header: Some(
                        LongModel {
                            packet_type: Some(LongHeaderPacketType::Retry),
                            token_len: Some((end - inv.next) as u64),
                            token: Some(hex_of(data.subrange(inv.next, end))),
                            retry_tag: Some(hex_of(data.subrange(end, data.len() as int))),
                            ..bare_long_header(inv)
                        },
                    ),
                    payload_bytes_count: None,
                },
                data.len() as int,
            ),
        )
    }
}

/// The token of an Initial packet, the length of what follows, and where that begins.
pub struct InitialFields {
    pub token: Seq<u8>,
    pub packet_len: int,
    pub payload: int,
}

/// The fields of an Initial packet after the invariants, up to the protected part.
pub open spec fn initial_fields(data: Seq<u8>, pos: int) -> Option<InitialFields> {
    match varint_at(data, pos) {
        None => None,
        Some((token_len, size)) => {
            let token_end = pos + size + token_len;
            if token_end > data.len() {
                None
            } else {
                match varint_at(data, token_end) {
                    None => None,
                    Some((packet_len, len_size)) => Some(
                        InitialFields {
                            token: data.subrange(pos + size, token_end),
                            packet_len,
                            payload: token_end + len_size,
                        },
                    ),
                }
            }
        },
    }
}

/// An Initial packet with these fields.
pub open spec fn initial_packet(inv: Invariants, f: InitialFields) -> PacketModel {
    PacketModel {
        short_header: None,
        long_header: Some(
            LongModel {
                packet_type: Some(LongHeaderPacketType::Initial),
                token_len: Some(f.token.len() as u64),
                token: Some(hex_of(f.token)),
                ..bare_long_header(inv)
            },
        ),
        payload_bytes_count: Some(f.packet_len as u64),
    }
}

/// `cid` is a prefix of `s`.
pub open spec fn starts_with(s: Seq<char>, cid: Seq<char>) -> bool {
    cid.len() <= s.len() && s.take(cid.len() as int) == cid
}

/// The known connection ID that `s` starts with; of several, the one that became known
/// last.
pub open spec fn matching_cid(cids: Seq<Seq<char>>, s: Seq<char>) -> Option<Seq<char>>
    decreases cids.len(),
{
    if cids.len() == 0 {
        None
    } else if starts_with(s, cids.last()) {
        Some(cids.last())
    } else {
        matching_cid(cids.drop_last(), s)
    }
}

/// The longest connection ID that a short header is taken to have.
pub const MAX_SHORT_DCID_LEN: usize = 20;

/// Bytes after the first byte of a short header that may be its connection ID.
pub open spec fn short_dcid_len(data: Seq<u8>) -> int {
    if data.len() < 1 + MAX_SHORT_DCID_LEN {
        data.len() - 1
    } else {
        MAX_SHORT_DCID_LEN as int
    }
}

/// The short-header packet at `off`. All bytes of the datagram after its connection ID are
/// its payload.
pub open spec fn short_packet(cids: Seq<Seq<char>>, data: Seq<u8>, off: int) -> Result<
    (PacketModel, int),
    QuicError,
> {
    let n = short_dcid_len(data);
    if data[off] < 0x40 {
        Err(QuicError::FixedBitNotSet)
    } else if off + 1 + n > data.len() {
        Err(QuicError::PacketTooShort)
    } else {
        let dcid = matching_cid(cids, hex_of(data.subrange(off + 1, off + 1 + n)));
        let len = match dcid {
            Some(id) => id.len() as int / 2,
            None => n,
        };
        Ok(
            (
                PacketModel {
                    short_header: Some(dcid),
                    long_header: None,
                    payload_bytes_count: Some((data.len() - off - 1 - len) as u64),
                },
                data.len() as int,
            ),
        )
    }
}

/// The packet with these invariant fields and type bits, and where the next one begins, or
/// why there is none. What becomes of an Initial packet whose fields are all there depends
/// on its keys: then there is no answer here.
pub open spec fn long_packet(inv: Invariants, type_bits: int, data: Seq<u8>) -> Option<
    Result<(PacketModel, int), QuicError>,
> {
    if QuicVersion::of(inv.version).invariants_only() {
        Some(Ok((invariants_packet(inv, data), data.len() as int)))
    } else {
        match LongHeaderPacketType::of(type_bits) {
            Some(LongHeaderPacketType::Retry) => Some(retry_packet(inv, data)),
            Some(LongHeaderPacketType::Initial) => match initial_fields(data, inv.next) {
                Some(_) => None,
                None => Some(Err(QuicError::PacketTooShort)),
            },
            Some(t) => Some(sealed_packet(inv, t, data)),
            None => Some(Err(QuicError::UnknowLongHeaderPacketType)),
        }
    }
}

/// The packet at `off`; see `long_packet` and `short_packet`.
pub open spec fn packet_at(cids: Seq<Seq<char>>, data: Seq<u8>, off: int) -> Option<
    Result<(PacketModel, int), QuicError>,
> {
    if off >= data.len() {
        Some(Err(QuicError::PacketTooShort))
    } else if data[off] < 0x80 {
        Some(short_packet(cids, data, off))
    } else {
        match invariants_at(data, off) {
            Err(e) => Some(Err(e)),
            Ok(inv) => long_packet(inv, data[off] as int / 16 % 4, data),
        }
    }
}

/// The part of an Initial packet that its keys open.
#[derive(Debug)]
pub struct SealedInitial {
    /// Packet number, as the counter of the nonce.
    pub counter: u64,
    /// Authenticated data: the header without its protection.
    pub ad: Vec<u8>,
    pub ciphertext: Vec<u8>,
    pub tag: Vec<u8>,
    /// Where the next packet begins.
    pub next: usize,
}

/// The sealed part of an Initial packet, as sequences.
pub struct SealedModel {
    pub counter: u64,
    pub ad: Seq<u8>,
    pub ciphertext: Seq<u8>,
    pub tag: Seq<u8>,
    pub next: int,
}

impl View for SealedInitial {
    type V = SealedModel;

    open spec fn view(&self) -> SealedModel {
        SealedModel {
            counter: self.counter,
            ad: self.ad@,
            ciphertext: self.ciphertext@,
            tag: self.tag@,
            next: self.next as int,
        }
    }
}

/// First header byte without its protection: the mask covers its low four bits.
pub open spec fn unprotected(first: u8, mask: Seq<u8>) -> u8 {
    first ^ (mask[0] % 16)
}

/// Packet number bytes without their protection.
pub open spec fn packet_number(data: Seq<u8>, payload: int, mask: Seq<u8>, n: int) -> Seq<u8> {
    Seq::new(n as nat, |i: int| data[payload + i] ^ mask[i + 1])
}

/// `n` zero bytes.
pub open spec fn zeros(n: int) -> Seq<u8> {
    Seq::new(n as nat, |i: int| 0u8)
}

/// A packet number as a counter: a signed 32-bit number, extended to 64 bits.
pub open spec fn counter_of(number: Seq<u8>) -> int {
    let n = be32(zeros(4 - number.len()) + number, 0);
    if n < 0x8000_0000 {
        n
    } else {
        n + 0xFFFF_FFFF_0000_0000
    }
}

/// The sealed part of the Initial packet at `off`, given where its protected
/// part begins and how long that is, the header protection mask and the length of an
/// authentication tag. The reserved bits of the header must be
/// zero, and the packet must be all there.
pub open spec fn sealed_part(
    data: Seq<u8>,
    off: int,
    payload: int,
    packet_len: int,
    mask: Seq<u8>,
    tag_len: int,
) -> Result<SealedModel, QuicError> {
    let first = unprotected(data[off], mask);
    let n = first % 4 + 1;
    let start = payload + n;
    let end = payload + packet_len - tag_len;
    if first / 4 % 4 != 0 {
        Err(QuicError::FailedHeaderProtection)
    } else if start > data.len() || packet_len < tag_len + n || end + tag_len > data.len() {
        Err(QuicError::PacketTooShort)
    } else {
        let number = packet_number(data, payload, mask, n);
        Ok(
            SealedModel {
                counter: counter_of(number) as u64,
                ad: seq![first] + data.subrange(off + 1, payload) + number,
                ciphertext: data.subrange(start, end),
                tag: data.subrange(end, end + tag_len),
                next: end + tag_len,
            },
        )
    }
}

/// Calls `byteorder::BigEndian::read_i32`, which reads a signed big-endian number from the
/// first four bytes.
#[verifier::external_body]
fn read_i32(data: &[u8]) -> (n: i32)
    requires
        data@.len() >= 4,
    ensures
        n == (if be32(data@, 0) < 0x8000_0000 {
            be32(data@, 0)
        } else {
            be32(data@, 0) - 0x1_0000_0000
        }),
{
    BigEndian::read_i32(data)
}

proof fn lemma_sign_extension(n: i32)
    ensures
        n >= 0 ==> n as u64 == n,
        n < 0 ==> n as u64 == n + 0x1_0000_0000_0000_0000,
{
    assert(n >= 0 ==> n as u64 == n) by (bit_vector);
    assert(n < 0 ==> n as u64 == n + 0x1_0000_0000_0000_0000) by (bit_vector);
}

/// Takes header protection off an Initial packet and marks out its sealed part.
pub fn unprotect_initial(
    data: &[u8],
    off: usize,
    payload: usize,
    packet_len: u64,
    mask: &[u8; 5],
    tag_len: usize,
) -> (r: Result<SealedInitial, QuicError>)
    requires
        off < payload <= data@.len(),
    ensures
        match r {
            Ok(s) => sealed_part(
                data@,
                off as int,
                payload as int,
                packet_len as int,
                mask@,
                tag_len as int,
            ) == Ok::<
                SealedModel,
                QuicError,
            >(s@) && payload < s.next <= data@.len(),
            Err(e) => sealed_part(
                data@,
                off as int,
                payload as int,
                packet_len as int,
                mask@,
                tag_len as int,
            ) == Err::<
                SealedModel,
                QuicError,
            >(e),
        },
{
    let first: u8 = data[off] ^ (mask[0] % 16);
    if first / 4 % 4 != 0 {
        return Err(QuicError::FailedHeaderProtection);
    }
    let n: usize = (first % 4) as usize + 1;
    if data.len() - payload < n {
        return Err(QuicError::PacketTooShort);
    }
    if packet_len < n as u64 || packet_len - n as u64 > usize::MAX as u64 {
        proof {
            assert(data@.len() == data.len());
        }
        return Err(QuicError::PacketTooShort);
    }
    let sealed: usize = (packet_len - n as u64) as usize;
    if sealed < tag_len || sealed > data.len() - payload - n {
        return Err(QuicError::PacketTooShort);
    }
    let start: usize = payload + n;
    let end: usize = start + (sealed - tag_len);
    let mut number: Vec<u8> = Vec::new();
    let mut padded: Vec<u8> = Vec::new();
    while padded.len() < 4 - n
        invariant
            1 <= n <= 4,
            padded@.len() <= 4 - n,
            padded@ == zeros(padded@.len() as int),
        decreases 4 - n - padded@.len(),
    {
        padded.push(0);
        assert(padded@ =~= zeros(padded@.len() as int));
    }
    let ghost goal = packet_number(data@, payload as int, mask@, n as int);
    let mut i: usize = 0;
    while i < n
        invariant
            i <= n <= 4,
            payload + n <= data@.len(),
            mask@.len() == 5,
            goal == packet_number(data@, payload as int, mask@, n as int),
            number@ == goal.take(i as int),
            padded@ == zeros(4 - n) + goal.take(i as int),
        decreases n - i,
    {
        assert(data@.len() == data.len());
        let b: u8 = data[payload + i] ^ mask[i + 1];
        number.push(b);
        padded.push(b);
        i = i + 1;
        assert(number@ =~= goal.take(i as int));
        assert(padded@ =~= zeros(4 - n) + goal.take(i as int));
    }
    assert(goal.take(i as int) =~= goal);
    let signed: i32 = read_i32(padded.as_slice());
    proof {
        lemma_sign_extension(signed);
    }
    let counter: u64 = signed as u64;
    let mut ad: Vec<u8> = Vec::new();
    ad.push(first);
    ad.extend_from_slice(vstd::slice::slice_subrange(data, off + 1, payload));
    ad.extend_from_slice(number.as_slice());
    assert(ad@ =~= seq![first] + data@.subrange(off + 1, payload as int) + goal);
    Ok(
        SealedInitial {
            counter,
            ad,
            ciphertext: copy_range(data, start, end),
            tag: copy_range(data, end, end + tag_len),
            next: end + tag_len,
        },
    )
}

/// What the keys of Initial packets are derived from: the connection ID that the client
/// chose first, and the version.
#[derive(Debug)]
pub struct InitialSecret {
    pub dcid: Vec<u8>,
    pub version: u32,
}

/// A provider of the cryptography that opens Initial packets, and of the frames in them.
pub trait InitialCrypto {
    /// Checks that keys can be derived.
    fn derive(&self, dcid: &[u8], version: u32) -> Result<(), QuicError>;

    /// Number of bytes that a header protection mask is computed from.
    fn sample_len(&self) -> usize;

    /// The header protection mask for a sample, in one direction.
    fn new_mask(&self, secret: &InitialSecret, dir: bool, sample: &[u8]) -> Result<
        [u8; 5],
        QuicError,
    >;

    /// Length of an authentication tag.
    fn tag_len(&self) -> usize;

    /// Opens the sealed part of a packet.
    fn open(&self, secret: &InitialSecret, dir: bool, sealed: &SealedInitial) -> Result<
        Vec<u8>,
        QuicError,
    >;

    /// The frames in a payload, and the handshake bytes that continue the stream at `start`.
    fn parse_frames(&self, payload: &[u8], start: usize) -> Result<
        (Vec<QuicFrame>, Vec<u8>),
        QuicError,
    >;
}

/// Stands in where no cryptography is at hand: Initial packets cannot be opened.
#[derive(Debug, Clone, Copy)]
pub struct NoCrypto;

impl InitialCrypto for NoCrypto {
    fn derive(&self, _dcid: &[u8], _version: u32) -> (r: Result<(), QuicError>)
        ensures
            r == Err::<(), QuicError>(QuicError::CryptoFail),
    {
        Err(QuicError::CryptoFail)
    }

    fn sample_len(&self) -> (n: usize)
        ensures
            n == 16,
    {
        16
    }

    fn new_mask(&self, _secret: &InitialSecret, _dir: bool, _sample: &[u8]) -> (r: Result<
        [u8; 5],
        QuicError,
    >)
        ensures
            r is Err,
    {
        Err(QuicError::CryptoFail)
    }

    fn tag_len(&self) -> (n: usize)
        ensures
            n == 16,
    {
        16
    }

    fn open(&self, _secret: &InitialSecret, _dir: bool, _sealed: &SealedInitial) -> (r: Result<
        Vec<u8>,
        QuicError,
    >)
        ensures
            r is Err,
    {
        Err(QuicError::CryptoFail)
    }

    fn parse_frames(&self, _payload: &[u8], _start: usize) -> (r: Result<
        (Vec<QuicFrame>, Vec<u8>),
        QuicError,
    >)
        ensures
            r is Err,
    {
        Err(QuicError::UnknownFrameType)
    }
}

/// A parsed QUIC connection.
#[derive(Debug)]
pub struct QuicConn {
    /// All packets of the connection.
    pub packets: Vec<QuicPacket>,
    /// All connection IDs, source and destination, seen in long headers, in hexadecimal,
    /// each once, in the order in which they were first seen.
    pub cids: Vec<String>,
    /// Parsed TLS messages.
    pub tls: Tls,
    /// What the keys of Initial packets are derived from, once it is known.
    pub initial_secret: Option<InitialSecret>,
    /// Handshake bytes from the client that no message has been made of yet.
    pub client_buffer: Vec<u8>,
    /// Handshake bytes from the server that no message has been made of yet.
    pub server_buffer: Vec<u8>,
}

/// Handshake bytes from one side that no message has been made of yet.
pub open spec fn handshake_bytes(c: QuicConn, dir: bool) -> Seq<u8> {
    if dir {
        c.client_buffer@
    } else {
        c.server_buffer@
    }
}

/// The known connection IDs.
pub open spec fn cids_view(v: Seq<String>) -> Seq<Seq<char>> {
    Seq::new(v.len(), |i: int| v[i]@)
}

/// The packets, as their models.
pub open spec fn packets_view(v: Seq<QuicPacket>) -> Seq<PacketModel> {
    Seq::new(v.len(), |i: int| v[i]@)
}

/// No connection ID is listed twice.
pub open spec fn distinct(cids: Seq<Seq<char>>) -> bool {
    forall|i: int, j: int| 0 <= i < j < cids.len() ==> #[trigger] cids[i] != #[trigger] cids[j]
}

/// Known connection IDs are never forgotten, and none is listed twice.
pub proof fn law_known_cids_grow_without_duplicates(
    cids: Seq<Seq<char>>,
    data: Seq<u8>,
    off: int,
)
    requires
        distinct(cids),
    ensures
        distinct(cids_after(cids, data, off)),
        cids.is_prefix_of(cids_after(cids, data, off)),
{
}

/// Handshake bytes that were received, with more appended: if a message can be made of
/// them, it is handed to the TLS parser and the bytes are used up; otherwise they stay.
pub open spec fn crypto_step(tls: TlsModel, buffer: Seq<u8>, more: Seq<u8>, dir: bool) -> (
    TlsModel,
    Seq<u8>,
    bool,
) {
    if more.len() == 0 {
        (tls, buffer, true)
    } else {
        let all = buffer + more;
        match record_parse(all, HANDSHAKE, 0, 0) {
            RecordParse::Messages { count: _, rest: _ } => (
                message_step(tls, HANDSHAKE, all.take(frame_len(all, HANDSHAKE, 0)), dir).0,
                Seq::empty(),
                true,
            ),
            _ => (tls, all, false),
        }
    }
}

/// Feeds handshake bytes to the TLS parser; see `crypto_step`.
pub fn feed_crypto(tls: &mut Tls, buffer: &mut Vec<u8>, more: &[u8], dir: bool) -> (r: Result<
    (),
    QuicError,
>)
    ensures
        (final(tls)@, final(buffer)@, r is Ok) == crypto_step(
            old(tls)@,
            old(buffer)@,
            more@,
            dir,
        ),
        r matches Err(e) ==> e == QuicError::TlsParseFail,
{
    if more.len() == 0 {
        return Ok(());
    }
    let ghost before = buffer@;
    buffer.extend_from_slice(more);
    assert(buffer@ =~= before + more@);
    match read_messages(buffer.as_slice(), HANDSHAKE, 0, 0) {
        RecordParse::Messages { count, rest: _ } => {
            let ghost all = buffer@;
            proof {
                lemma_first_frame(all, count as nat);
            }
            let len: usize = 4 + (buffer[1] as usize * 0x1_0000 + (buffer[2] as usize * 0x100
                + buffer[3] as usize));
            let message = vstd::slice::slice_subrange(buffer.as_slice(), 0, len);
            assert(message@ =~= all.take(frame_len(all, HANDSHAKE, 0)));
            let _ = tls.parse_message_level(HANDSHAKE, message, dir);
            buffer.clear();
            assert(buffer@ =~= Seq::empty());
            Ok(())
        },
        _ => Err(QuicError::TlsParseFail),
    }
}

/// What the cryptography is handed, and what it answers, in opening one Initial packet. The
/// answers that come after a failure are of no consequence.
pub struct InitialAnswers {
    pub derived: Result<(), QuicError>,
    pub secret: InitialSecret,
    pub sample_len: usize,
    pub mask: Result<[u8; 5], QuicError>,
    pub tag_len: usize,
    pub sealed: SealedInitial,
    pub plain: Result<Vec<u8>, QuicError>,
    pub frames: Result<(Vec<QuicFrame>, Vec<u8>), QuicError>,
}

/// Where an Initial packet begins, what it says of its keys, and where its protected part
/// lies.
pub struct InitialPlace {
    pub off: int,
    pub dcid: Seq<u8>,
    pub version: u32,
    pub payload: int,
    pub packet_len: int,
}

/// The sample that the header protection mask is computed from is all there.
pub open spec fn sample_fits(data: Seq<u8>, at: InitialPlace, sample_len: usize) -> bool {
    at.payload + 4 + sample_len <= data.len()
}

/// The sealed part of the packet, once its mask is known.
pub open spec fn sealed_at(data: Seq<u8>, at: InitialPlace, a: InitialAnswers) -> Result<
    SealedModel,
    QuicError,
> {
    sealed_part(data, at.off, at.payload, at.packet_len, a.mask->Ok_0@, a.tag_len as int)
}

/// The keys' secret is at hand: it is the known one, or keys can be derived.
pub open spec fn asked_for_secret<C: InitialCrypto>(
    crypto: &C,
    known: Option<InitialSecret>,
    at: InitialPlace,
    a: InitialAnswers,
) -> bool {
    match known {
        Some(secret) => a.derived is Ok && a.secret == secret,
        None => {
            &&& a.secret.dcid@ == at.dcid
            &&& a.secret.version == at.version
            &&& exists|dcid: &[u8]|
                dcid@ == at.dcid && #[trigger] call_ensures(
                    C::derive,
                    (crypto, dcid, at.version),
                    a.derived,
                )
        },
    }
}

/// The cryptography can give these answers, asked one after the other: for the mask of the
/// sample, for the plain text of the sealed part, and for the frames in it, which continue
/// a stream of `start` bytes.
#[verifier::opaque]
pub open spec fn asked<C: InitialCrypto>(
    crypto: &C,
    data: Seq<u8>,
    at: InitialPlace,
    dir: bool,
    start: int,
    a: InitialAnswers,
) -> bool {
    &&& call_ensures(C::sample_len, (crypto,), a.sample_len)
    &&& sample_fits(data, at, a.sample_len) ==> {
        &&& exists|sample: &[u8]|
            sample@ == data.subrange(at.payload + 4, at.payload + 4 + a.sample_len)
                && #[trigger] call_ensures(
                C::new_mask,
                (crypto, &a.secret, dir, sample),
                a.mask,
            )
        &&& a.mask is Ok ==> {
            &&& call_ensures(C::tag_len, (crypto,), a.tag_len)
            &&& sealed_at(data, at, a) is Ok ==> {
                &&& sealed_at(data, at, a) == Ok::<SealedModel, QuicError>(a.sealed@)
                &&& call_ensures(C::open, (crypto, &a.secret, dir, &a.sealed), a.plain)
                &&& a.plain is Ok ==> exists|plain: &[u8]|
                    plain@ == a.plain->Ok_0@ && #[trigger] call_ensures(
                        C::parse_frames,
                        (crypto, plain, start as usize),
                        a.frames,
                    )
            }
        }
    }
}

/// The frames of an Initial packet, the handshake bytes in it and where the next packet
/// begins, given the answers; or the first failure.
#[verifier::opaque]
pub open spec fn unsealed(data: Seq<u8>, at: InitialPlace, a: InitialAnswers) -> Result<
    (Vec<QuicFrame>, Vec<u8>, int),
    QuicError,
> {
    if !sample_fits(data, at, a.sample_len) {
        Err(QuicError::PacketTooShort)
    } else {
        match a.mask {
            Err(e) => Err(e),
            Ok(_) => match sealed_at(data, at, a) {
                Err(e) => Err(e),
                Ok(sealed) => match (a.plain, a.frames) {
                    (Err(e), _) => Err(e),
                    (_, Err(e)) => Err(e),
                    (Ok(_), Ok((frames, more))) => Ok((frames, more, sealed.next)),
                },
            },
        }
    }
}

/// What becomes of an Initial packet, given the answers: its frames and where the next
/// packet begins, with the handshake bytes in it fed to the TLS parser; or the first
/// failure.
pub open spec fn initial_result(
    data: Seq<u8>,
    at: InitialPlace,
    a: InitialAnswers,
    tls: TlsModel,
    buffer: Seq<u8>,
    dir: bool,
) -> (TlsModel, Seq<u8>, Result<(Vec<QuicFrame>, int), QuicError>) {
    match a.derived {
        Err(e) => (tls, buffer, Err(e)),
        Ok(_) => match unsealed(data, at, a) {
            Err(e) => (tls, buffer, Err(e)),
            Ok((frames, more, next)) => {
                let (after, left, fed) = crypto_step(tls, buffer, more@, dir);
                (
                    after,
                    left,
                    if fed {
                        Ok((frames, next))
                    } else {
                        Err(QuicError::TlsParseFail)
                    },
                )
            },
        },
    }
}

/// The connection after an Initial packet was opened, or could not be, and what came of it.
/// The secret is kept from the first packet that keys can be derived for.
pub open spec fn opened<C: InitialCrypto>(
    crypto: &C,
    before: QuicConn,
    data: Seq<u8>,
    at: InitialPlace,
    dir: bool,
    a: InitialAnswers,
    after: QuicConn,
    r: Result<(Vec<QuicFrame>, usize), QuicError>,
) -> bool {
    let buffer = handshake_bytes(before, dir);
    let (tls, left, result) = initial_result(data, at, a, before.tls@, buffer, dir);
    &&& asked_for_secret(crypto, before.initial_secret, at, a)
    &&& a.derived is Ok ==> asked(crypto, data, at, dir, buffer.len() as int, a)
    &&& after.tls@ == tls
    &&& handshake_bytes(after, dir) == left
    &&& handshake_bytes(after, !dir) == handshake_bytes(before, !dir)
    &&& after.initial_secret == (if a.derived is Ok {
        Some(a.secret)
    } else {
        None
    })
    &&& match r {
        Ok((frames, next)) => result == Ok::<(Vec<QuicFrame>, int), QuicError>(
            (frames, next as int),
        ),
        Err(e) => result == Err::<(Vec<QuicFrame>, int), QuicError>(e),
    }
}

/// The connection after the packet at `off` was parsed, or could not be, and what came of
/// it. Only an Initial packet changes more than the known connection IDs.
pub open spec fn packet_parsed<C: InitialCrypto>(
    crypto: &C,
    before: QuicConn,
    data: Seq<u8>,
    off: usize,
    dir: bool,
    after: QuicConn,
    r: Result<(QuicPacket, usize), QuicError>,
) -> bool {
    let cids = cids_view(before.cids@);
    &&& after.packets == before.packets
    &&& cids_view(after.cids@) == cids_after(cids, data, off as int)
    &&& match packet_at(cids, data, off as int) {
        Some(parsed) => {
            &&& after.tls == before.tls
            &&& after.initial_secret == before.initial_secret
            &&& after.client_buffer == before.client_buffer
            &&& after.server_buffer == before.server_buffer
            &&& match parsed {
                Ok((p, next)) => r matches Ok((packet, n)) && packet@ == p && n == next
                    && packet.frames is None,
                Err(e) => r == Err::<(QuicPacket, usize), QuicError>(e),
            }
        },
        None => {
            let inv = invariants_at(data, off as int)->Ok_0;
            let f = initial_fields(data, inv.next)->0;
            let at = initial_place(off as int, inv, f);
            exists|a: InitialAnswers, o: Result<(Vec<QuicFrame>, usize), QuicError>|
                {
                    &&& #[trigger] opened(crypto, before, data, at, dir, a, after, o)
                    &&& match o {
                        Ok((frames, next)) => r matches Ok((packet, n)) && packet@
                            == initial_packet(inv, f) && packet.frames == Some(frames) && n
                            == next,
                        Err(e) => r == Err::<(QuicPacket, usize), QuicError>(e),
                    }
                }
        },
    }
}

/// The place of the Initial packet at `off`.
pub open spec fn initial_place(off: int, inv: Invariants, f: InitialFields) -> InitialPlace {
    InitialPlace {
        off,
        dcid: inv.dcid,
        version: inv.version,
        payload: f.payload,
        packet_len: f.packet_len,
    }
}

proof fn lemma_first_frame(data: Seq<u8>, count: nat)
    requires
        count > 0,
        frames_end(data, HANDSHAKE, count) <= data.len(),
    ensures
        frame_len(data, HANDSHAKE, 0) <= data.len(),
        data.len() >= 4,
    decreases count,
{
    reveal_with_fuel(frames_end, 2);
    if count > 1 {
        lemma_frames_end_positive(data, (count - 1) as nat);
        lemma_first_frame(data, (count - 1) as nat);
    }
}

proof fn lemma_frames_end_positive(data: Seq<u8>, n: nat)
    ensures
        frames_end(data, HANDSHAKE, n) >= 0,
    decreases n,
{
    if n > 0 {
        lemma_frames_end_positive(data, (n - 1) as nat);
    }
}

/// The invariant fields of a long header, as they were read.
struct LongFields {
    version: u32,
    dcid_start: usize,
    dcid_end: usize,
    scid_start: usize,
    scid_end: usize,
}

/// Reads the connection ID at `pos`: where it starts and ends.
fn read_cid(data: &[u8], pos: usize) -> (r: Option<(usize, usize)>)
    requires
        pos <= data@.len(),
    ensures
        match r {
            Some((start, end)) => start == pos + 1 && start <= end <= data@.len() && end - start
                <= 255 && cid_at(data@, pos as int) == Some(
                data@.subrange(start as int, end as int),
            ),
            None => cid_at(data@, pos as int) is None,
        },
{
    if data.len() - pos < 1 {
        return None;
    }
    let n: usize = data[pos] as usize;
    if data.len() - pos - 1 < n {
        return None;
    }
    Some((pos + 1, pos + 1 + n))
}

/// Reads the variable-length number at `pos`, and its length.
fn read_varint(data: &[u8], pos: usize) -> (r: Result<(u64, usize), QuicError>)
    requires
        pos <= data@.len(),
    ensures
        match r {
            Ok((value, size)) => varint_at(data@, pos as int) == Some((value as int, size as int))
                && 1 <= size <= 8 && pos + size <= data@.len() && value < 0x4000_0000_0000_0000,
            Err(e) => varint_at(data@, pos as int) is None && e == QuicError::PacketTooShort,
        },
{
    if data.len() - pos < 1 {
        return Err(QuicError::PacketTooShort);
    }
    let size: usize = match QuicPacket::get_var_len(data[pos]) {
        Ok(n) => n,
        Err(e) => {
            return Err(e);
        },
    };
    if data.len() - pos < size {
        return Err(QuicError::PacketTooShort);
    }
    let bytes = vstd::slice::slice_subrange(data, pos, pos + size);
    proof {
        lemma_varint_bound(bytes@);
    }
    match QuicPacket::slice_to_u64(bytes) {
        Ok(value) => Ok((value, size)),
        Err(e) => Err(e),
    }
}

/// Remembers a connection ID.
fn remember_cid(cids: &mut Vec<String>, id: &[u8]) -> (hex: String)
    ensures
        hex@ == hex_of(id@),
        cids_view(final(cids)@) == with_cid(cids_view(old(cids)@), id@),
{
    let hex = to_hex(id);
    if id.len() == 0 {
        return hex;
    }
    let ghost known = cids_view(cids@);
    let mut found = false;
    let mut i: usize = 0;
    while i < cids.len()
        invariant
            i <= cids@.len(),
            known == cids_view(cids@),
            cids@ == old(cids)@,
            found <==> exists|j: int| 0 <= j < i && known[j] == hex@,
        decreases cids@.len() - i,
    {
        assert(known[i as int] == cids@[i as int]@);
        if cids[i] == hex {
            found = true;
        }
        i = i + 1;
    }
    if !found {
        cids.push(hex.clone());
        assert(cids_view(cids@) =~= known.push(hex@));
    }
    hex
}

/// Returns `true` if `prefix` is a prefix of `s`.
fn str_starts_with(s: &String, prefix: &String) -> (b: bool)
    ensures
        b == starts_with(s@, prefix@),
{
    let n: usize = prefix.as_str().unicode_len();
    if s.as_str().unicode_len() < n {
        return false;
    }
    let mut i: usize = 0;
    while i < n
        invariant
            i <= n,
            n == prefix@.len(),
            n <= s@.len(),
            forall|j: int| 0 <= j < i ==> s@[j] == prefix@[j],
        decreases n - i,
    {
        if s.as_str().get_char(i) != prefix.as_str().get_char(i) {
            assert(s@.take(n as int)[i as int] != prefix@[i as int]);
            return false;
        }
        i = i + 1;
    }
    assert(s@.take(n as int) =~= prefix@);
    true
}

/// The known connection ID that `s` starts with; of several, the one that became known
/// last.
fn find_cid(cids: &Vec<String>, s: &String) -> (r: Option<String>)
    ensures
        opt_text(r) == matching_cid(cids_view(cids@), s@),
{
    let ghost known = cids_view(cids@);
    let mut found: Option<String> = None;
    let mut i: usize = 0;
    assert(known.take(0) =~= Seq::empty());
    while i < cids.len()
        invariant
            i <= cids@.len(),
            known == cids_view(cids@),
            opt_text(found) == matching_cid(known.take(i as int), s@),
        decreases cids@.len() - i,
    {
        assert(known.take(i + 1).drop_last() =~= known.take(i as int));
        assert(known.take(i + 1).last() == cids@[i as int]@);
        if str_starts_with(s, &cids[i]) {
            found = Some(cids[i].clone());
        }
        i = i + 1;
    }
    assert(known.take(i as int) =~= known);
    found
}

proof fn lemma_matching_cid_is_prefix(cids: Seq<Seq<char>>, s: Seq<char>)
    ensures
        matching_cid(cids, s) matches Some(id) ==> starts_with(s, id) && cids.contains(id),
        matching_cid(cids, s) is None ==> forall|i: int|
            0 <= i < cids.len() ==> !starts_with(s, #[trigger] cids[i]),
    decreases cids.len(),
{
    if cids.len() > 0 {
        lemma_matching_cid_is_prefix(cids.drop_last(), s);
        assert(cids[cids.len() - 1] == cids.last());
        if !starts_with(s, cids.last()) {
            if let Some(id) = matching_cid(cids.drop_last(), s) {
                let k = choose|k: int|
                    0 <= k < cids.drop_last().len() && cids.drop_last()[k] == id;
                assert(cids[k] == id);
            } else {
                assert forall|i: int| 0 <= i < cids.len() implies !starts_with(
                    s,
                    #[trigger] cids[i],
                ) by {
                    if i < cids.len() - 1 {
                        assert(cids.drop_last()[i] == cids[i]);
                    }
                }
            }
        }
    }
}

/// A short header reports a connection ID exactly if it starts with a known one, and then
/// it reports one of those.
pub proof fn law_short_header_reports_known_cids_only(
    cids: Seq<Seq<char>>,
    data: Seq<u8>,
    off: int,
)
    requires
        0 <= off < data.len(),
        short_packet(cids, data, off) is Ok,
    ensures
        ({
            let dcid = (short_packet(cids, data, off)->Ok_0).0.short_header->0;
            let shown = hex_of(data.subrange(off + 1, off + 1 + short_dcid_len(data)));
            match dcid {
                Some(id) => cids.contains(id) && starts_with(shown, id),
                None => forall|i: int|
                    0 <= i < cids.len() ==> !starts_with(shown, #[trigger] cids[i]),
            }
        }),
{
    lemma_matching_cid_is_prefix(
        cids,
        hex_of(data.subrange(off + 1, off + 1 + short_dcid_len(data))),
    );
}

proof fn lemma_fixed_bit_keeps_invariants(data: Seq<u8>, off: int, first: u8)
    requires
        0 <= off < data.len(),
        first % 64 == data[off] % 64,
    ensures
        version_at(data.update(off, first), off) == version_at(data, off),
        cid_at(data.update(off, first), off + 5) == cid_at(data, off + 5),
        cid_at(data, off + 5) matches Some(dcid) ==> cid_at(
            data.update(off, first),
            off + 6 + dcid.len(),
        ) == cid_at(data, off + 6 + dcid.len()),
        invariants_at(data.update(off, first), off) == invariants_at(data, off),
{
    let d = data.update(off, first);
    if off + 5 <= data.len() {
        assert(be32(d, off + 1) == be32(data, off + 1));
    }
    lemma_tail_update_cid(data, off, first, off + 5);
    if let Some(dcid) = cid_at(data, off + 5) {
        lemma_tail_update_cid(data, off, first, off + 6 + dcid.len());
    }
    lemma_fixed_bit_keeps_type(first, data[off]);
}

proof fn lemma_fixed_bit_keeps_rest(
    data: Seq<u8>,
    off: int,
    first: u8,
    inv: Invariants,
    type_bits: int,
)
    requires
        0 <= off < data.len(),
        off < inv.next <= data.len(),
    ensures
        long_packet(inv, type_bits, data.update(off, first)) == long_packet(inv, type_bits, data),
{
    let d = data.update(off, first);
    let end = data.len() - RETRY_TAG_LEN;
    assert(listed_versions(d, inv.next) =~= listed_versions(data, inv.next));
    if end > inv.next {
        assert(d.subrange(inv.next, end) =~= data.subrange(inv.next, end));
        assert(d.subrange(end, d.len() as int) =~= data.subrange(end, data.len() as int));
    }
    lemma_tail_update_varint(data, off, first, inv.next);
    if let Some((n, size)) = varint_at(data, inv.next) {
        lemma_varint_at_bounds(data, inv.next);
        lemma_tail_update_varint(data, off, first, inv.next + size + n);
    }
}

proof fn lemma_fixed_bit_keeps_type(a: u8, b: u8)
    requires
        a % 64 == b % 64,
    ensures
        a as int / 16 % 4 == b as int / 16 % 4,
        a % 16 == b % 16,
{
}

/// Only the version tells a long header: whether the fixed bit is set makes no difference
/// to what is read.
pub proof fn law_long_header_ignores_fixed_bit(
    cids: Seq<Seq<char>>,
    data: Seq<u8>,
    off: int,
    first: u8,
)
    requires
        0 <= off < data.len(),
        data[off] >= 0x80,
        first >= 0x80,
        first % 64 == data[off] % 64,
    ensures
        packet_at(cids, data.update(off, first), off) == packet_at(cids, data, off),
        cids_after(cids, data.update(off, first), off) == cids_after(cids, data, off),
{
    lemma_fixed_bit_keeps_invariants(data, off, first);
    lemma_fixed_bit_keeps_type(first, data[off]);
    if let Ok(inv) = invariants_at(data, off) {
        lemma_fixed_bit_keeps_rest(data, off, first, inv, data[off] as int / 16 % 4);
    }
}

proof fn lemma_varint_at_bounds(data: Seq<u8>, pos: int)
    requires
        0 <= pos,
        varint_at(data, pos) is Some,
    ensures
        (varint_at(data, pos)->0).0 >= 0,
        (varint_at(data, pos)->0).1 >= 1,
{
    lemma_varint_bound(data.subrange(pos, pos + var_len(data[pos])));
}

proof fn lemma_tail_update_cid(data: Seq<u8>, off: int, first: u8, pos: int)
    requires
        0 <= off < pos,
        off < data.len(),
    ensures
        cid_at(data.update(off, first), pos) == cid_at(data, pos),
{
    let d = data.update(off, first);
    if pos < data.len() && pos + 1 + data[pos] <= data.len() {
        assert(d.subrange(pos + 1, pos + 1 + d[pos]) =~= data.subrange(
            pos + 1,
            pos + 1 + data[pos],
        ));
    }
}

proof fn lemma_tail_update_varint(data: Seq<u8>, off: int, first: u8, pos: int)
    requires
        0 <= off < pos,
        off < data.len(),
    ensures
        varint_at(data.update(off, first), pos) == varint_at(data, pos),
{
    let d = data.update(off, first);
    if pos < data.len() && pos + var_len(data[pos]) <= data.len() {
        assert(d.subrange(pos, pos + var_len(d[pos])) =~= data.subrange(
            pos,
            pos + var_len(data[pos]),
        ));
    }
}

impl QuicPacket {
    /// Writes the bytes of a connection ID in hexadecimal.
    pub fn vec_u8_to_hex_string(vec: &[u8]) -> (s: String)
        ensures
            s@ == hex_of(vec@),
    {
        to_hex(vec)
    }

    /// Length of a variable-length number, by its first byte.
    pub fn get_var_len(a: u8) -> (r: Result<usize, QuicError>)
        ensures
            r matches Ok(n) && n == var_len(a),
    {
        match a / 64 {
            0 => Ok(1),
            1 => Ok(2),
            2 => Ok(4),
            _ => Ok(8),
        }
    }

    /// Value of a variable-length number: masks the bits that give its length.
    pub fn slice_to_u64(data: &[u8]) -> (r: Result<u64, QuicError>)
        requires
            data@.len() > 0,
        ensures
            match r {
                Ok(n) => data@.len() <= 8 && n == varint(data@),
                Err(e) => data@.len() > 8 && e == QuicError::UnsupportedVarLen,
            },
    {
        if data.len() > 8 {
            return Err(QuicError::UnsupportedVarLen);
        }
        let mut result: u64 = (data[0] % 64) as u64;
        let mut i: usize = 1;
        while i < data.len()
            invariant
                1 <= i <= data@.len() <= 8,
                result == varint(data@.take(i as int)),
            decreases data@.len() - i,
        {
            proof {
                lemma_varint_bound(data@.take(i + 1));
                assert(data@.take(i + 1).drop_last() =~= data@.take(i as int));
            }
            result = result * 256 + data[i] as u64;
            i = i + 1;
        }
        assert(data@.take(i as int) =~= data@);
        Ok(result)
    }

    /// The bytes from `start` up to `end`.
    pub fn access_data(data: &[u8], start: usize, end: usize) -> (r: Result<&[u8], QuicError>)
        ensures
            match r {
                Ok(s) => start <= end <= data@.len() && s@ == data@.subrange(
                    start as int,
                    end as int,
                ),
                Err(e) => e == (if end < start {
                    QuicError::InvalidDataIndices
                } else {
                    QuicError::PacketTooShort
                }) && (end < start || data@.len() < end),
            },
    {
        if end < start {
            return Err(QuicError::InvalidDataIndices);
        }
        if data.len() < end {
            return Err(QuicError::PacketTooShort);
        }
        Ok(vstd::slice::slice_subrange(data, start, end))
    }

    /// Reads the invariant fields of the long header at `off`, and remembers its connection
    /// IDs.
    fn read_invariants(cids: &mut Vec<String>, data: &[u8], off: usize) -> (r: Result<
        (LongFields, String, String),
        QuicError,
    >)
        requires
            off < data@.len(),
            data@[off as int] >= 0x80,
        ensures
            cids_view(final(cids)@) == cids_after(cids_view(old(cids)@), data@, off as int),
            match r {
                Ok((f, dcid, scid)) => {
                    &&& off + 6 == f.dcid_start <= f.dcid_end < f.scid_start <= f.scid_end
                        <= data@.len()
                    &&& f.dcid_end - f.dcid_start <= 255
                    &&& f.scid_end - f.scid_start <= 255
                    &&& invariants_at(data@, off as int) == Ok::<Invariants, QuicError>(
                        Invariants {
                            type_specific: data@[off as int] % 16,
                            version: f.version,
                            dcid: data@.subrange(f.dcid_start as int, f.dcid_end as int),
                            scid: data@.subrange(f.scid_start as int, f.scid_end as int),
                            next: f.scid_end as int,
                        },
                    )
                    &&& dcid@ == hex_of(data@.subrange(f.dcid_start as int, f.dcid_end as int))
                    &&& scid@ == hex_of(data@.subrange(f.scid_start as int, f.scid_end as int))
                },
                Err(e) => invariants_at(data@, off as int) == Err::<Invariants, QuicError>(e),
            },
    {
        if data.len() - off < 5 {
            return Err(QuicError::PacketTooShort);
        }
        let version: u32 = read_be32(data, off + 1);
        if QuicVersion::from_u32(version) == QuicVersion::Unknown {
            return Err(QuicError::UnknownVersion);
        }
        let (dcid_start, dcid_end) = match read_cid(data, off + 5) {
            Some(range) => range,
            None => {
                return Err(QuicError::PacketTooShort);
            },
        };
        let dcid = remember_cid(cids, vstd::slice::slice_subrange(data, dcid_start, dcid_end));
        let (scid_start, scid_end) = match read_cid(data, dcid_end) {
            Some(range) => range,
            None => {
                return Err(QuicError::PacketTooShort);
            },
        };
        let scid = remember_cid(cids, vstd::slice::slice_subrange(data, scid_start, scid_end));
        Ok((LongFields { version, dcid_start, dcid_end, scid_start, scid_end }, dcid, scid))
    }

    /// The versions that a Version Negotiation packet lists from `pos` on.
    fn read_versions(data: &[u8], pos: usize) -> (r: Vec<u32>)
        requires
            pos <= data@.len(),
        ensures
            r@ == listed_versions(data@, pos as int),
    {
        let mut out: Vec<u32> = Vec::new();
        let mut at: usize = pos;
        while data.len() - at >= 4
            invariant
                pos <= at <= data@.len(),
                (at - pos) % 4 == 0,
                out@.len() == (at - pos) / 4,
                out@ == listed_versions(data@, pos as int).take((at - pos) / 4),
            decreases data@.len() - at,
        {
            assert(data@.len() == data.len());
            out.push(read_be32(data, at));
            at = at + 4;
            assert(out@ =~= listed_versions(data@, pos as int).take((at - pos) / 4));
        }
        assert(out@ =~= listed_versions(data@, pos as int));
        out
    }

    /// Parses the short-header packet at `offset`. Without a version field to corroborate
    /// the packet, the fixed bit is a hard requirement: it is the only thing that separates
    /// a packet from the padding that may follow a coalesced one.
    fn parse_short(cids: &Vec<String>, data: &[u8], offset: usize) -> (r: Result<
        (QuicPacket, usize),
        QuicError,
    >)
        requires
            offset < data@.len(),
            data@[offset as int] < 0x80,
        ensures
            match r {
                Ok((p, next)) => short_packet(cids_view(cids@), data@, offset as int) == Ok::<
                    (PacketModel, int),
                    QuicError,
                >((p@, next as int)) && p.frames is None,
                Err(e) => short_packet(cids_view(cids@), data@, offset as int) == Err::<
                    (PacketModel, int),
                    QuicError,
                >(e),
            },
    {
        if data[offset] < 0x40 {
            return Err(QuicError::FixedBitNotSet);
        }
        let mut dcid_len: usize = MAX_SHORT_DCID_LEN;
        if data.len() < 1 + MAX_SHORT_DCID_LEN {
            dcid_len = data.len() - 1;
        }
        if data.len() - offset - 1 < dcid_len {
            return Err(QuicError::PacketTooShort);
        }
        let shown = to_hex(
            vstd::slice::slice_subrange(data, offset + 1, offset + 1 + dcid_len),
        );
        let dcid = find_cid(cids, &shown);
        proof {
            lemma_matching_cid_is_prefix(cids_view(cids@), shown@);
            lemma_hex_len(data@.subrange(offset + 1, offset + 1 + dcid_len));
        }
        match &dcid {
            Some(id) => {
                dcid_len = id.as_str().unicode_len() / 2;
            },
            None => {},
        }
        let payload_bytes_count: u64 = (data.len() - offset - 1 - dcid_len) as u64;
        Ok(
            (
                QuicPacket {
                    short_header: Some(QuicShortHeader { dcid }),
                    long_header: None,
                    payload_bytes_count: Some(payload_bytes_count),
                    frames: None,
                },
                data.len(),
            ),
        )
    }

    /// Asks for the frames of the Initial packet at `offset` and the handshake bytes in it,
    /// and tells where the next packet begins.
    fn unseal_initial<C: InitialCrypto>(
        crypto: &C,
        secret: &InitialSecret,
        data: &[u8],
        offset: usize,
        payload: usize,
        packet_len: u64,
        dir: bool,
        start: usize,
        Ghost(at): Ghost<InitialPlace>,
        Ghost(derived): Ghost<Result<(), QuicError>>,
    ) -> (r: Result<(Vec<QuicFrame>, Vec<u8>, usize), QuicError>)
        requires
            offset < payload <= data@.len(),
            at.off == offset,
            at.payload == payload,
            at.packet_len == packet_len,
        ensures
            r matches Ok((_, _, next)) ==> payload < next <= data@.len(),
            exists|a: InitialAnswers|
                {
                    &&& a.derived == derived
                    &&& a.secret == *secret
                    &&& #[trigger] asked(crypto, data@, at, dir, start as int, a)
                    &&& match r {
                        Ok((frames, more, next)) => unsealed(data@, at, a) == Ok::<
                            (Vec<QuicFrame>, Vec<u8>, int),
                            QuicError,
                        >((frames, more, next as int)),
                        Err(e) => unsealed(data@, at, a) == Err::<
                            (Vec<QuicFrame>, Vec<u8>, int),
                            QuicError,
                        >(e),
                    }
                },
    {
        proof {
            reveal(asked);
            reveal(unsealed);
        }
        let sample_len: usize = crypto.sample_len();
        let ghost a = InitialAnswers { derived, secret: *secret, sample_len, ..arbitrary() };
        if data.len() - payload < 4 || data.len() - payload - 4 < sample_len {
            assert(asked(crypto, data@, at, dir, start as int, a));
            return Err(QuicError::PacketTooShort);
        }
        let sample = vstd::slice::slice_subrange(data, payload + 4, payload + 4 + sample_len);
        let masked = crypto.new_mask(secret, dir, sample);
        let ghost a = InitialAnswers { mask: masked, ..a };
        let mask = match masked {
            Ok(m) => m,
            Err(e) => {
                assert(asked(crypto, data@, at, dir, start as int, a));
                return Err(e);
            },
        };
        let tag_len: usize = crypto.tag_len();
        let ghost a = InitialAnswers { tag_len, ..a };
        let sealed = match unprotect_initial(data, offset, payload, packet_len, &mask, tag_len) {
            Ok(s) => s,
            Err(e) => {
                assert(asked(crypto, data@, at, dir, start as int, a));
                return Err(e);
            },
        };
        let opened = crypto.open(secret, dir, &sealed);
        let ghost a = InitialAnswers { sealed, plain: opened, ..a };
        let plain = match opened {
            Ok(p) => p,
            Err(e) => {
                assert(asked(crypto, data@, at, dir, start as int, a));
                return Err(e);
            },
        };
        let found = crypto.parse_frames(plain.as_slice(), start);
        let ghost a = InitialAnswers { frames: found, ..a };
        assert(asked(crypto, data@, at, dir, start as int, a));
        match found {
            Ok((frames, more)) => Ok((frames, more, sealed.next)),
            Err(e) => Err(e),
        }
    }

    /// Opens the Initial packet at `offset` and feeds the handshake bytes in it to the TLS
    /// parser. Returns its frames and where the next packet begins.
    fn open_initial<C: InitialCrypto>(
        conn: &mut QuicConn,
        crypto: &C,
        data: &[u8],
        offset: usize,
        dcid: &[u8],
        version: u32,
        payload: usize,
        packet_len: u64,
        dir: bool,
    ) -> (r: Result<(Vec<QuicFrame>, usize), QuicError>)
        requires
            offset < payload <= data@.len(),
        ensures
            final(conn).cids == old(conn).cids,
            final(conn).packets == old(conn).packets,
            r matches Ok((_, next)) ==> payload < next <= data@.len(),
            exists|a: InitialAnswers| #[trigger]
                opened(
                    crypto,
                    *old(conn),
                    data@,
                    InitialPlace {
                        off: offset as int,
                        dcid: dcid@,
                        version,
                        payload: payload as int,
                        packet_len: packet_len as int,
                    },
                    dir,
                    a,
                    *final(conn),
                    r,
                ),
    {
        let ghost before = *conn;
        let ghost at = InitialPlace {
            off: offset as int,
            dcid: dcid@,
            version,
            payload: payload as int,
            packet_len: packet_len as int,
        };
        let ghost mut derived: Result<(), QuicError> = Ok(());
        if conn.initial_secret.is_none() {
            let copy = copy_range(dcid, 0, dcid.len());
            assert(copy@ =~= dcid@);
            let secret = InitialSecret { dcid: copy, version };
            let keys = crypto.derive(dcid, version);
            match keys {
                Ok(()) => {},
                Err(e) => {
                    let ghost a = InitialAnswers { derived: keys, secret, ..arbitrary() };
                    assert(opened(crypto, before, data@, at, dir, a, *conn, Err(e)));
                    return Err(e);
                },
            }
            conn.initial_secret = Some(secret);
            proof {
                derived = keys;
            }
        }
        let start: usize = if dir {
            conn.client_buffer.len()
        } else {
            conn.server_buffer.len()
        };
        let secret = match &conn.initial_secret {
            Some(s) => s,
            None => {
                return Err(QuicError::CryptoFail);
            },
        };
        let found = QuicPacket::unseal_initial(
            crypto,
            secret,
            data,
            offset,
            payload,
            packet_len,
            dir,
            start,
            Ghost(at),
            Ghost(derived),
        );
        let ghost a = choose|a: InitialAnswers|
            {
                &&& a.derived == derived
                &&& a.secret == *secret
                &&& #[trigger] asked(crypto, data@, at, dir, start as int, a)
                &&& match found {
                    Ok((frames, more, next)) => unsealed(data@, at, a) == Ok::<
                        (Vec<QuicFrame>, Vec<u8>, int),
                        QuicError,
                    >((frames, more, next as int)),
                    Err(e) => unsealed(data@, at, a) == Err::<
                        (Vec<QuicFrame>, Vec<u8>, int),
                        QuicError,
                    >(e),
                }
            };
        assert(asked_for_secret(crypto, before.initial_secret, at, a));
        let (frames, more, next) = match found {
            Ok(f) => f,
            Err(e) => {
                assert(opened(crypto, before, data@, at, dir, a, *conn, Err(e)));
                return Err(e);
            },
        };
        let fed = if dir {
            feed_crypto(&mut conn.tls, &mut conn.client_buffer, more.as_slice(), dir)
        } else {
            feed_crypto(&mut conn.tls, &mut conn.server_buffer, more.as_slice(), dir)
        };
        assert(crypto_step(before.tls@, handshake_bytes(before, dir), more@, dir) == (
            conn.tls@,
            handshake_bytes(*conn, dir),
            fed is Ok,
        ));
        let r = match fed {
            Ok(()) => Ok((frames, next)),
            Err(e) => Err(e),
        };
        assert(opened(crypto, before, data@, at, dir, a, *conn, r));
        r
    }

    /// Parses the QUIC packet at `offset` of a datagram. `crypto` is asked for what opens an
    /// Initial packet. Returns the packet and where the next one begins.
    pub fn parse_from<C: InitialCrypto>(
        conn: &mut QuicConn,
        crypto: &C,
        data: &[u8],
        offset: usize,
        dir: bool,
    ) -> (r: Result<(QuicPacket, usize), QuicError>)
        ensures
            r matches Ok((_, next)) ==> offset < next,
            packet_parsed(crypto, *old(conn), data@, offset, dir, *final(conn), r),
    {
        if offset >= data.len() {
            return Err(QuicError::PacketTooShort);
        }
        let first: u8 = data[offset];
        if first < 0x80 {
            return QuicPacket::parse_short(&conn.cids, data, offset);
        }
        // The fixed bit of a long header is not checked: it may be greased, and the version
        // field is a far stronger check.
        let (fields, dcid, scid) = match QuicPacket::read_invariants(
            &mut conn.cids,
            data,
            offset,
        ) {
            Ok(found) => found,
            Err(e) => {
                return Err(e);
            },
        };
        let pos: usize = fields.scid_end;
        let version = QuicVersion::from_u32(fields.version);
        let mut header = QuicLongHeader {
            packet_type: None,
            type_specific: first % 16,
            version: fields.version,
            dcid_len: (fields.dcid_end - fields.dcid_start) as u8,
            dcid,
            scid_len: (fields.scid_end - fields.scid_start) as u8,
            scid,
            token_len: None,
            token: None,
            retry_tag: None,
            supported_versions: None,
        };
        let ghost inv = invariants_at(data@, offset as int)->Ok_0;
        assert(header@ == bare_long_header(inv));
        // Everything past the connection IDs is version-specific.
        if version.is_invariants_only() {
            let mut payload_bytes_count: u64 = (data.len() - pos) as u64;
            if version == QuicVersion::ReservedNegotiation {
                payload_bytes_count = payload_bytes_count % 4;
                header.supported_versions = Some(QuicPacket::read_versions(data, pos));
            }
            return Ok(
                (
                    QuicPacket {
                        short_header: None,
                        long_header: Some(header),
                        payload_bytes_count: Some(payload_bytes_count),
                        frames: None,
                    },
                    data.len(),
                ),
            );
        }
        let packet_type = match LongHeaderPacketType::from_u8(first / 16 % 4) {
            Ok(t) => t,
            Err(e) => {
                return Err(e);
            },
        };
        header.packet_type = Some(packet_type);
        match packet_type {
            LongHeaderPacketType::Initial => {
                let (token_len, size) = match read_varint(data, pos) {
                    Ok(found) => found,
                    Err(e) => {
                        return Err(e);
                    },
                };
                let token_start: usize = pos + size;
                if token_len > (data.len() - token_start) as u64 {
                    return Err(QuicError::PacketTooShort);
                }
                let token_end: usize = token_start + token_len as usize;
                let (packet_len, len_size) = match read_varint(data, token_end) {
                    Ok(found) => found,
                    Err(e) => {
                        return Err(e);
                    },
                };
                let payload: usize = token_end + len_size;
                header.token_len = Some(token_len);
                header.token = Some(
                    to_hex(vstd::slice::slice_subrange(data, token_start, token_end)),
                );
                let dcid_bytes = vstd::slice::slice_subrange(
                    data,
                    fields.dcid_start,
                    fields.dcid_end,
                );
                let ghost read = *conn;
                assert(handshake_bytes(read, dir) == handshake_bytes(*old(conn), dir));
                assert(dcid_bytes@ == inv.dcid);
                let ghost f = initial_fields(data@, inv.next)->0;
                let ghost at = initial_place(offset as int, inv, f);
                let found = QuicPacket::open_initial(
                    conn,
                    crypto,
                    data,
                    offset,
                    dcid_bytes,
                    fields.version,
                    payload,
                    packet_len,
                    dir,
                );
                proof {
                    let a = choose|a: InitialAnswers| #[trigger]
                        opened(crypto, read, data@, at, dir, a, *conn, found);
                    assert(opened(crypto, *old(conn), data@, at, dir, a, *conn, found));
                }
                match found {
                    Ok((frames, next)) => Ok(
                        (
                            QuicPacket {
                                short_header: None,
                                long_header: Some(header),
                                payload_bytes_count: Some(packet_len),
                                frames: Some(frames),
                            },
                            next,
                        ),
                    ),
                    Err(e) => Err(e),
                }
            },
            LongHeaderPacketType::ZeroRTT | LongHeaderPacketType::Handshake => {
                let (packet_len, size) = match read_varint(data, pos) {
                    Ok(found) => found,
                    Err(e) => {
                        return Err(e);
                    },
                };
                let next: usize = add_capped(pos + size, packet_len);
                Ok(
                    (
                        QuicPacket {
                            short_header: None,
                            long_header: Some(header),
                            payload_bytes_count: Some(packet_len),
                            frames: None,
                        },
                        next,
                    ),
                )
            },
            LongHeaderPacketType::Retry => {
                if data.len() - pos <= RETRY_TAG_LEN {
                    return Err(QuicError::PacketTooShort);
                }
                let tag_start: usize = data.len() - RETRY_TAG_LEN;
                header.token_len = Some((tag_start - pos) as u64);
                header.token = Some(to_hex(vstd::slice::slice_subrange(data, pos, tag_start)));
                header.retry_tag = Some(
                    to_hex(vstd::slice::slice_subrange(data, tag_start, data.len())),
                );
                Ok(
                    (
                        QuicPacket {
                            short_header: None,
                            long_header: Some(header),
                            payload_bytes_count: None,
                            frames: None,
                        },
                        data.len(),
                    ),
                )
            },
        }
    }

    /// Returns the header type of the packet: "long" or "short", or "" if it has neither.
    pub fn header_type(&self) -> (s: &'static str)
        ensures
            s@ == (if self@.long_header is Some {
                "long"@
            } else if self@.short_header is Some {
                "short"@
            } else {
                ""@
            }),
    {
        match &self.long_header {
            Some(_) => "long",
            None => match &self.short_header {
                Some(_) => "short",
                None => "",
            },
        }
    }

    /// Returns the packet type. Fails for a short-header packet, and for a long header whose
    /// version leaves the type bits undefined.
    pub fn packet_type(&self) -> (r: Result<LongHeaderPacketType, QuicError>)
        ensures
            r == (match self@.long_header {
                Some(h) => match h.packet_type {
                    Some(t) => Ok(t),
                    None => Err(QuicError::UnknowLongHeaderPacketType),
                },
                None => Err(QuicError::NoLongHeader),
            }),
    {
        match &self.long_header {
            Some(long_header) => match long_header.packet_type {
                Some(t) => Ok(t),
                None => Err(QuicError::UnknowLongHeaderPacketType),
            },
            None => Err(QuicError::NoLongHeader),
        }
    }

    /// Returns the version, or 0 for a short-header packet.
    pub fn version(&self) -> (n: u32)
        ensures
            n == (match self@.long_header {
                Some(h) => h.version,
                None => 0,
            }),
    {
        match &self.long_header {
            Some(long_header) => long_header.version,
            None => 0,
        }
    }

    /// Returns the destination connection ID, or an empty string if there is none.
    pub fn dcid(&self) -> (s: &str)
        ensures
            s@ == (match self@.long_header {
                Some(h) => if h.dcid_len > 0 {
                    h.dcid
                } else {
                    ""@
                },
                None => match self@.short_header {
                    Some(Some(id)) => id,
                    _ => ""@,
                },
            }),
    {
        match &self.long_header {
            Some(long_header) => {
                if long_header.dcid_len > 0 {
                    long_header.dcid.as_str()
                } else {
                    ""
                }
            },
            None => match &self.short_header {
                Some(short_header) => match &short_header.dcid {
                    Some(id) => id.as_str(),
                    None => "",
                },
                None => "",
            },
        }
    }

    /// Returns the source connection ID, or an empty string if there is none.
    pub fn scid(&self) -> (s: &str)
        ensures
            s@ == (match self@.long_header {
                Some(h) => if h.scid_len > 0 {
                    h.scid
                } else {
                    ""@
                },
                None => ""@,
            }),
    {
        match &self.long_header {
            Some(long_header) => {
                if long_header.scid_len > 0 {
                    long_header.scid.as_str()
                } else {
                    ""
                }
            },
            None => "",
        }
    }

    /// Returns the number of bytes in the payload.
    pub fn payload_bytes_count(&self) -> (n: u64)
        ensures
            n == (match self@.payload_bytes_count {
                Some(n) => n,
                None => 0,
            }),
    {
        match self.payload_bytes_count {
            Some(n) => n,
            None => 0,
        }
    }
}

/// The offset `n` after `pos`, or the largest there is.
fn add_capped(pos: usize, n: u64) -> (r: usize)
    ensures
        r == capped(pos + n),
{
    if n > (usize::MAX - pos) as u64 {
        usize::MAX
    } else {
        pos + n as usize
    }
}

/// What a datagram adds to a connection from `off` on, and what it concludes, if no Initial
/// packet in it has to be opened: as many packets as can be parsed. A datagram with a packet
/// that cannot be parsed is skipped from there on; otherwise, the headers are done once the
/// last packet is a short-header one.
pub open spec fn datagram_step(
    cids: Seq<Seq<char>>,
    packets: Seq<PacketModel>,
    data: Seq<u8>,
    off: int,
) -> Option<(Seq<Seq<char>>, Seq<PacketModel>, ParseResult)>
    decreases
            if off < data.len() {
                data.len() - off
            } else {
                0
            },
{
    if off >= data.len() {
        Some(
            (
                cids,
                packets,
                if packets.len() > 0 && packets.last().short_header is Some {
                    ParseResult::HeadersDone(0)
                } else {
                    ParseResult::Continue(0)
                },
            ),
        )
    } else {
        match packet_at(cids, data, off) {
            None => None,
            Some(Err(_)) => Some((cids_after(cids, data, off), packets, ParseResult::Skipped)),
            Some(Ok((p, next))) => if next > off {
                datagram_step(cids_after(cids, data, off), packets.push(p), data, next)
            } else {
                None
            },
        }
    }
}

/// What a datagram concludes once all of it has been parsed: the headers are done if the
/// last packet is a short-header one.
pub open spec fn datagram_result(packets: Seq<QuicPacket>) -> ParseResult {
    if packets.len() > 0 && packets.last()@.short_header is Some {
        ParseResult::HeadersDone(0)
    } else {
        ParseResult::Continue(0)
    }
}

/// The same connection, with a packet added.
pub open spec fn packet_added(before: QuicConn, packet: QuicPacket, after: QuicConn) -> bool {
    &&& after.packets@ == before.packets@.push(packet)
    &&& after == (QuicConn { packets: after.packets, ..before })
}

/// The connection after a datagram was parsed from `off` on, packet by packet up to its end
/// or to one that cannot be parsed, and what it concludes.
pub open spec fn datagram_parsed<C: InitialCrypto>(
    crypto: &C,
    before: QuicConn,
    data: Seq<u8>,
    off: usize,
    dir: bool,
    after: QuicConn,
    r: ParseResult,
) -> bool
    decreases
            if off < data.len() {
                data.len() - off
            } else {
                0
            },
{
    if off >= data.len() {
        after == before && r == datagram_result(before.packets@)
    } else {
        exists|mid: QuicConn, found: Result<(QuicPacket, usize), QuicError>|
            {
                &&& #[trigger] packet_parsed(crypto, before, data, off, dir, mid, found)
                &&& match found {
                    Err(_) => after == mid && r == ParseResult::Skipped,
                    Ok((packet, next)) => next > off && exists|conn: QuicConn|
                        {
                            &&& #[trigger] packet_added(mid, packet, conn)
                            &&& datagram_parsed(crypto, conn, data, next, dir, after, r)
                        },
                }
            }
    }
}

/// An empty connection.
pub open spec fn no_packets(c: QuicConn) -> bool {
    &&& c.packets@.len() == 0
    &&& c.cids@.len() == 0
    &&& c.tls@ == no_handshake()
    &&& c.initial_secret is None
    &&& c.client_buffer@.len() == 0
    &&& c.server_buffer@.len() == 0
}

impl QuicConn {
    pub fn new() -> (c: QuicConn)
        ensures
            no_packets(c),
    {
        QuicConn {
            packets: Vec::new(),
            cids: Vec::new(),
            tls: Tls::new(),
            initial_secret: None,
            client_buffer: Vec::new(),
            server_buffer: Vec::new(),
        }
    }

    /// Parses as many packets of a datagram as possible.
    pub fn parse_packet<C: InitialCrypto>(&mut self, crypto: &C, data: &[u8], direction: bool) -> (r:
        ParseResult)
        ensures
            packets_view(old(self).packets@).is_prefix_of(packets_view(final(self).packets@)),
            datagram_step(
                cids_view(old(self).cids@),
                packets_view(old(self).packets@),
                data@,
                0,
            ) matches Some((cids, packets, result)) ==> {
                &&& cids_view(final(self).cids@) == cids
                &&& packets_view(final(self).packets@) == packets
                &&& r == result
                &&& final(self).tls == old(self).tls
                &&& final(self).initial_secret == old(self).initial_secret
                &&& final(self).client_buffer == old(self).client_buffer
                &&& final(self).server_buffer == old(self).server_buffer
            },
            datagram_parsed(crypto, *old(self), data@, 0, direction, *final(self), r),
    {
        let ghost goal = datagram_step(
            cids_view(self.cids@),
            packets_view(self.packets@),
            data@,
            0,
        );
        let mut offset: usize = 0;
        while data.len() > offset
            invariant
                packets_view(old(self).packets@).is_prefix_of(packets_view(self.packets@)),
                goal == datagram_step(
                    cids_view(old(self).cids@),
                    packets_view(old(self).packets@),
                    data@,
                    0,
                ),
                goal is Some ==> {
                    &&& goal == datagram_step(
                        cids_view(self.cids@),
                        packets_view(self.packets@),
                        data@,
                        offset as int,
                    )
                    &&& self.tls == old(self).tls
                    &&& self.initial_secret == old(self).initial_secret
                    &&& self.client_buffer == old(self).client_buffer
                    &&& self.server_buffer == old(self).server_buffer
                },
                forall|after: QuicConn, r: ParseResult| #[trigger]
                    datagram_parsed(crypto, *self, data@, offset, direction, after, r)
                        ==> datagram_parsed(crypto, *old(self), data@, 0, direction, after, r),
            decreases usize::MAX - offset,
        {
            let ghost before = packets_view(self.packets@);
            let ghost start = *self;
            let ghost at = offset;
            let found = QuicPacket::parse_from(self, crypto, data, offset, direction);
            let ghost mid = *self;
            assert(packet_parsed(crypto, start, data@, at, direction, mid, found));
            match found {
                Ok((quic, next)) => {
                    self.packets.push(quic);
                    offset = next;
                    assert(packets_view(self.packets@) =~= before.push(quic@));
                    assert(packet_added(mid, quic, *self));
                    assert forall|after: QuicConn, r: ParseResult| #[trigger]
                        datagram_parsed(crypto, *self, data@, offset, direction, after, r)
                        implies datagram_parsed(crypto, start, data@, at, direction, after, r) by {
                    }
                },
                Err(_) => {
                    assert(datagram_parsed(
                        crypto,
                        start,
                        data@,
                        at,
                        direction,
                        mid,
                        ParseResult::Skipped,
                    ));
                    return ParseResult::Skipped;
                },
            }
        }
        let n: usize = self.packets.len();
        assert(n > 0 ==> packets_view(self.packets@).last() == self.packets@.last()@);
        assert(datagram_parsed(
            crypto,
            *self,
            data@,
            offset,
            direction,
            *self,
            datagram_result(self.packets@),
        ));
        if n > 0 && self.packets[n - 1].short_header.is_some() {
            ParseResult::HeadersDone(0)
        } else {
            ParseResult::Continue(0)
        }
    }
}

/// Parser state of one connection: at most one summary, handed out once.
#[derive(Debug)]
pub struct QuicParser {
    sessions: Vec<QuicConn>,
}

impl View for QuicParser {
    type V = Seq<QuicConn>;

    closed spec fn view(&self) -> Seq<QuicConn> {
        self.sessions@
    }
}

impl Default for QuicParser {
    fn default() -> (p: QuicParser)
        ensures
            p@.len() == 1,
            no_packets(p@[0]),
    {
        let mut sessions: Vec<QuicConn> = Vec::new();
        sessions.push(QuicConn::new());
        QuicParser { sessions }
    }
}

/// What a probe of `data` concludes. A long header is told by its version, whatever its
/// fixed bit; a short header with the fixed bit set might be QUIC.
pub open spec fn probe_result(data: Seq<u8>) -> ProbeResult {
    if data[0] >= 0x80 {
        if QuicVersion::of(be32(data, 1) as u32) == QuicVersion::Unknown {
            ProbeResult::NotForUs
        } else {
            ProbeResult::Certain
        }
    } else if data[0] >= 0x40 {
        ProbeResult::Unsure
    } else {
        ProbeResult::NotForUs
    }
}

impl QuicParser {
    /// Folds the datagram into the connection. A datagram without payload, or whose payload
    /// cannot be read, is skipped, and so is one that comes after the connection was handed
    /// out.
    pub fn parse<C: InitialCrypto>(&mut self, crypto: &C, pdu: &L4Pdu) -> (r: ParseResult)
        ensures
            final(self)@.len() == old(self)@.len(),
            forall|i: int| 1 <= i < old(self)@.len() ==> final(self)@[i] == old(self)@[i],
            match pdu.payload() {
                Some(data) if data.len() > 0 && old(self)@.len() > 0 => {
                    let before = old(self)@[0];
                    let after = final(self)@[0];
                    &&& datagram_parsed(crypto, before, data, 0, pdu.dir, after, r)
                    &&& datagram_step(
                        cids_view(before.cids@),
                        packets_view(before.packets@),
                        data,
                        0,
                    ) matches Some((cids, packets, result)) ==> {
                        &&& cids_view(after.cids@) == cids
                        &&& packets_view(after.packets@) == packets
                        &&& after.tls == before.tls
                        &&& r == result
                    }
                },
                _ => r == ParseResult::Skipped && final(self)@ == old(self)@,
            },
    {
        let offset: usize = pdu.offset();
        let length: usize = pdu.length();
        if length == 0 {
            return ParseResult::Skipped;
        }
        match pdu.mbuf_ref().get_data_slice(offset, length) {
            Ok(data) => {
                if self.sessions.len() > 0 {
                    return self.sessions[0].parse_packet(crypto, data, pdu.dir);
                }
                ParseResult::Skipped
            },
            Err(_) => ParseResult::Skipped,
        }
    }

    /// Probes the datagram's payload.
    pub fn probe(&self, pdu: &L4Pdu) -> (r: ProbeResult)
        ensures
            r == (if pdu.ctxt.length < 5 {
                ProbeResult::Unsure
            } else {
                match pdu.payload() {
                    Some(data) => probe_result(data),
                    None => ProbeResult::Error,
                }
            }),
    {
        if pdu.length() < 5 {
            return ProbeResult::Unsure;
        }
        match pdu.mbuf.get_data_slice(pdu.offset(), pdu.length()) {
            Ok(data) => {
                if data[0] >= 0x80 {
                    match QuicVersion::from_u32(read_be32(data, 1)) {
                        QuicVersion::Unknown => ProbeResult::NotForUs,
                        _ => ProbeResult::Certain,
                    }
                } else if data[0] >= 0x40 {
                    ProbeResult::Unsure
                } else {
                    ProbeResult::NotForUs
                }
            },
            Err(_) => ProbeResult::Error,
        }
    }

    /// Hands out the most recent summary.
    pub fn remove_session(&mut self, session_id: usize) -> (r: Option<Session>)
        ensures
            match r {
                Some(s) => {
                    &&& old(self)@.len() > 0
                    &&& s.id == session_id
                    &&& s.data == SessionData::Quic(Box::new(old(self)@.last()))
                    &&& final(self)@ == old(self)@.drop_last()
                },
                None => old(self)@.len() == 0 && final(self)@ == old(self)@,
            },
    {
        match self.sessions.pop() {
            Some(quic) => Some(
                Session { data: SessionData::Quic(Box::new(quic)), id: session_id },
            ),
            None => None,
        }
    }

    /// Hands out every summary, in order.
    pub fn drain_sessions(&mut self) -> (r: Vec<Session>)
        ensures
            final(self)@.len() == 0,
            r@.len() == old(self)@.len(),
            forall|i: int|
                0 <= i < r@.len() ==> (#[trigger] r@[i]).id == 0 && r@[i].data
                    == SessionData::Quic(Box::new(old(self)@[i])),
    {
        let mut out: Vec<Session> = Vec::new();
        let ghost all = self.sessions@;
        while self.sessions.len() > 0
            invariant
                out@.len() + self.sessions@.len() == all.len(),
                self.sessions@ == all.skip(out@.len() as int),
                forall|i: int|
                    0 <= i < out@.len() ==> (#[trigger] out@[i]).id == 0 && out@[i].data
                        == SessionData::Quic(Box::new(all[i])),
            decreases self.sessions@.len(),
        {
            let quic = self.sessions.remove(0);
            out.push(Session { data: SessionData::Quic(Box::new(quic)), id: 0 });
            assert(self.sessions@ =~= all.skip(out@.len() as int));
        }
        out
    }

    pub fn session_parsed_state(&self) -> (s: ParsingState)
        ensures
            s == ParsingState::Parsing,
    {
        ParsingState::Parsing
    }

    /// There is no application-layer body to offset into.
    pub fn body_offset(&mut self) -> (r: Option<usize>)
        ensures
            r is None,
            final(self)@ == old(self)@,
    {
        None
    }
}

} // verus!
