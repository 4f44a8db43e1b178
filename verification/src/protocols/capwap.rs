//! CAPWAP (Control And Provisioning of Wireless Access Points) header parsing.
//!
//! Parses the fixed transport header (RFC 5415, section 4.3), shared by the control
//! channel (UDP port 5246) and the data channel (UDP port 5247), and the control header
//! (section 4.5.1) when the message is a control message. Payloads are out of scope.
//!
//! CAPWAP optionally tunnels its payload inside DTLS (preamble type 1). The transport
//! header is sent in the clear even then, so it is always parsed; the DTLS record that
//! follows it is detected but not decrypted, and no control header is extracted from it.
//!
//! The plaintext preamble byte is `0x00`, far too common in arbitrary UDP payloads for a
//! structural match alone to be certain. So `classify_probe` treats a valid transport
//! header plus a plausible base-spec control header as certain whatever the port, and
//! otherwise uses the port as a tiebreaker.
//!
//! Discovery Request and Response are always sent in the clear and precede DTLS setup, so
//! they do not finalize a session by themselves.

use crate::conntrack::pdu::L4Pdu;
use crate::protocols::{ParseResult, ParsingState, ProbeResult, Session, SessionData};
use crate::wire::{
    as_opt_slice, be16, be32, copy_range, opt_bytes, read_be16, read_be32,
};
use vstd::prelude::*;

verus! {

/// The two standard CAPWAP ports.
pub const CAPWAP_CONTROL_PORT: u16 = 5246;

pub const CAPWAP_DATA_PORT: u16 = 5247;

/// Size of the fixed part of the transport header.
pub const MIN_TRANSPORT_HEADER_LEN: usize = 8;

/// Minimum valid HLEN, in 4-byte words: the header covers at least its fixed part.
pub const MIN_HLEN: u8 = 2;

/// Size of the control header.
pub const CONTROL_HEADER_LEN: usize = 8;

/// The last base-spec control message type; the first is 1.
pub const LAST_BASE_SPEC_MSG_TYPE: u32 = 26;

/// Base-spec control message types (RFC 5415, section 5).
#[derive(Debug, Clone, Copy, PartialEq, Eq, Structural)]
pub enum MsgType {
    DiscoveryRequest,
    DiscoveryResponse,
    JoinRequest,
    JoinResponse,
    ConfigurationStatusRequest,
    ConfigurationStatusResponse,
    ConfigurationUpdateRequest,
    ConfigurationUpdateResponse,
    WtpEventRequest,
    WtpEventResponse,
    ChangeStateEventRequest,
    ChangeStateEventResponse,
    EchoRequest,
    EchoResponse,
    ImageDataRequest,
    ImageDataResponse,
    ResetRequest,
    ResetResponse,
    PrimaryDiscoveryRequest,
    PrimaryDiscoveryResponse,
    DataTransferRequest,
    DataTransferResponse,
    ClearConfigurationRequest,
    ClearConfigurationResponse,
    StationConfigurationRequest,
    StationConfigurationResponse,
    /// A message type outside the base-spec range 1..=26, or one qualified by a nonzero
    /// enterprise number. Carries the raw low-order message-type byte.
    Other(u8),
    /// No control header was parsed for this message.
    Absent,
}

impl Default for MsgType {
    fn default() -> (t: MsgType)
        ensures
            t == MsgType::Absent,
    {
        MsgType::Absent
    }
}

impl MsgType {
    /// The number that the base spec assigns to a named message type.
    pub open spec fn number(self) -> int {
        match self {
            MsgType::DiscoveryRequest => 1,
            MsgType::DiscoveryResponse => 2,
            MsgType::JoinRequest => 3,
            MsgType::JoinResponse => 4,
            MsgType::ConfigurationStatusRequest => 5,
            MsgType::ConfigurationStatusResponse => 6,
            MsgType::ConfigurationUpdateRequest => 7,
            MsgType::ConfigurationUpdateResponse => 8,
            MsgType::WtpEventRequest => 9,
            MsgType::WtpEventResponse => 10,
            MsgType::ChangeStateEventRequest => 11,
            MsgType::ChangeStateEventResponse => 12,
            MsgType::EchoRequest => 13,
            MsgType::EchoResponse => 14,
            MsgType::ImageDataRequest => 15,
            MsgType::ImageDataResponse => 16,
            MsgType::ResetRequest => 17,
            MsgType::ResetResponse => 18,
            MsgType::PrimaryDiscoveryRequest => 19,
            MsgType::PrimaryDiscoveryResponse => 20,
            MsgType::DataTransferRequest => 21,
            MsgType::DataTransferResponse => 22,
            MsgType::ClearConfigurationRequest => 23,
            MsgType::ClearConfigurationResponse => 24,
            MsgType::StationConfigurationRequest => 25,
            MsgType::StationConfigurationResponse => 26,
            MsgType::Other(b) => b as int,
            MsgType::Absent => 0,
        }
    }

    /// `self` is one of the message types that the base spec names.
    pub open spec fn named(self) -> bool {
        !(self is Other) && !(self is Absent)
    }

    /// `self` is how the low-order message-type byte `b` is reported: by name inside
    /// 1..=26, and as `Other` outside.
    pub open spec fn names_byte(self, b: int) -> bool {
        &&& self.number() == b
        &&& if 1 <= b <= LAST_BASE_SPEC_MSG_TYPE {
            self.named()
        } else {
            self is Other
        }
    }

    /// Maps a base-spec message-type byte to its named variant, or `Other` if it falls
    /// outside the assigned range.
    pub fn from_byte(b: u8) -> (t: MsgType)
        ensures
            t.names_byte(b as int),
    {
        match b {
            1 => MsgType::DiscoveryRequest,
            2 => MsgType::DiscoveryResponse,
            3 => MsgType::JoinRequest,
            4 => MsgType::JoinResponse,
            5 => MsgType::ConfigurationStatusRequest,
            6 => MsgType::ConfigurationStatusResponse,
            7 => MsgType::ConfigurationUpdateRequest,
            8 => MsgType::ConfigurationUpdateResponse,
            9 => MsgType::WtpEventRequest,
            10 => MsgType::WtpEventResponse,
            11 => MsgType::ChangeStateEventRequest,
            12 => MsgType::ChangeStateEventResponse,
            13 => MsgType::EchoRequest,
            14 => MsgType::EchoResponse,
            15 => MsgType::ImageDataRequest,
            16 => MsgType::ImageDataResponse,
            17 => MsgType::ResetRequest,
            18 => MsgType::ResetResponse,
            19 => MsgType::PrimaryDiscoveryRequest,
            20 => MsgType::PrimaryDiscoveryResponse,
            21 => MsgType::DataTransferRequest,
            22 => MsgType::DataTransferResponse,
            23 => MsgType::ClearConfigurationRequest,
            24 => MsgType::ClearConfigurationResponse,
            25 => MsgType::StationConfigurationRequest,
            26 => MsgType::StationConfigurationResponse,
            other => MsgType::Other(other),
        }
    }
}

/// Which CAPWAP channel a message was observed on.
///
/// Decided primarily by UDP port. For traffic on neither standard port, a valid base-spec
/// control header after the transport header means `Control`, its absence means `Data`.
/// `Unknown` is the value before any message has been parsed.
#[derive(Debug, Clone, Copy, PartialEq, Eq, Structural)]
pub enum Channel {
    Control,
    Data,
    Unknown,
}

impl Default for Channel {
    fn default() -> (c: Channel)
        ensures
            c == Channel::Unknown,
    {
        Channel::Unknown
    }
}

/// Fields decoded from a transport header.
#[derive(Debug, Clone, PartialEq, Eq)]
pub struct TransportHeaderFields {
    pub version: u8,
    pub preamble_type: u8,
    pub hlen: u8,
    pub header_len: usize,
    pub rid: u8,
    pub wbid: u8,
    pub payload_type: u8,
    pub is_fragment: bool,
    pub last_fragment: bool,
    pub keep_alive: bool,
    pub fragment_id: u16,
    pub fragment_offset: u16,
    pub radio_mac: Option<Vec<u8>>,
    pub wireless_info: Option<Vec<u8>>,
}

/// A transport header, with its optional fields as sequences.
pub struct TransportHeader {
    pub version: u8,
    pub preamble_type: u8,
    pub hlen: u8,
    pub header_len: usize,
    pub rid: u8,
    pub wbid: u8,
    pub payload_type: u8,
    pub is_fragment: bool,
    pub last_fragment: bool,
    pub keep_alive: bool,
    pub fragment_id: u16,
    pub fragment_offset: u16,
    pub radio_mac: Option<Seq<u8>>,
    pub wireless_info: Option<Seq<u8>>,
}

impl View for TransportHeaderFields {
    type V = TransportHeader;

    open spec fn view(&self) -> TransportHeader {
        TransportHeader {
            version: self.version,
            preamble_type: self.preamble_type,
            hlen: self.hlen,
            header_len: self.header_len,
            rid: self.rid,
            wbid: self.wbid,
            payload_type: self.payload_type,
            is_fragment: self.is_fragment,
            last_fragment: self.last_fragment,
            keep_alive: self.keep_alive,
            fragment_id: self.fragment_id,
            fragment_offset: self.fragment_offset,
            radio_mac: opt_bytes(self.radio_mac),
            wireless_info: opt_bytes(self.wireless_info),
        }
    }
}

/// The header of a summary that has seen no message.
pub open spec fn no_transport_header() -> TransportHeader {
    TransportHeader {
        version: 0,
        preamble_type: 0,
        hlen: 0,
        header_len: 0,
        rid: 0,
        wbid: 0,
        payload_type: 0,
        is_fragment: false,
        last_fragment: false,
        keep_alive: false,
        fragment_id: 0,
        fragment_offset: 0,
        radio_mac: None,
        wireless_info: None,
    }
}

/// Fields decoded from a control header.
#[derive(Debug, Clone, Copy, PartialEq, Eq, Structural)]
pub struct ControlHeaderFields {
    /// Enterprise number: the high 24 bits of the message type field.
    pub vendor_id: u32,
    /// The whole message type field.
    pub msg_type_value: u32,
    /// The low 8 bits of the message type field.
    pub msg_type_id: u32,
    pub seq_num: u8,
    pub msg_element_length: u16,
    pub flags: u8,
}

/// The length-prefixed, 4-byte-padded field that starts at `pos`: its value and the
/// offset of what follows. There is none if its length byte, value or padding would run
/// past the header or the data.
pub open spec fn optional_field(data: Seq<u8>, pos: int, header_len: int) -> Option<
    (Seq<u8>, int),
> {
    let end = pos + 1 + data[pos];
    let next = pos + (1 + data[pos] + 3) / 4 * 4;
    if pos < header_len && pos < data.len() && end <= header_len && end <= data.len() && next
        <= header_len {
        Some((data.subrange(pos + 1, end), next))
    } else {
        None
    }
}

/// The Radio MAC field is the first optional field, present if the M flag is set.
pub open spec fn has_radio_mac(data: Seq<u8>) -> bool {
    data[3] & 0x10 != 0
}

/// The Wireless Specific Information field follows it, present if the W flag is set.
pub open spec fn has_wireless_info(data: Seq<u8>) -> bool {
    data[3] & 0x20 != 0
}

/// Length of the transport header in bytes, as its HLEN states it.
pub open spec fn stated_header_len(data: Seq<u8>) -> int {
    (data[1] >> 3) * 4
}

pub open spec fn radio_mac_field(data: Seq<u8>) -> Option<(Seq<u8>, int)> {
    optional_field(data, MIN_TRANSPORT_HEADER_LEN as int, stated_header_len(data))
}

pub open spec fn wireless_info_field(data: Seq<u8>) -> Option<(Seq<u8>, int)> {
    let pos = if has_radio_mac(data) {
        (radio_mac_field(data)->0).1
    } else {
        MIN_TRANSPORT_HEADER_LEN as int
    };
    optional_field(data, pos, stated_header_len(data))
}

/// `data` starts with a well-formed transport header: version 0, plaintext or DTLS, a
/// plausible length, no reserved bit set, and optional fields that fit.
pub open spec fn transport_header_valid(data: Seq<u8>) -> bool {
    &&& data.len() >= MIN_TRANSPORT_HEADER_LEN
    &&& data[0] >> 4 == 0
    &&& data[0] & 0x0F <= 1
    &&& data[1] >> 3 >= MIN_HLEN
    &&& stated_header_len(data) <= data.len()
    &&& data[3] & 0x07 == 0
    &&& be16(data, 6) as u16 & 0x07 == 0
    &&& has_radio_mac(data) ==> radio_mac_field(data) is Some
    &&& has_wireless_info(data) ==> wireless_info_field(data) is Some
}

/// The transport header that `data` starts with.
pub open spec fn transport_header(data: Seq<u8>) -> Option<TransportHeader> {
    if transport_header_valid(data) {
        Some(
            TransportHeader {
                version: 0,
                preamble_type: data[0] & 0x0F,
                hlen: data[1] >> 3,
                header_len: stated_header_len(data) as usize,
                rid: ((data[1] & 0x07) << 2) | (data[2] >> 6),
                wbid: (data[2] >> 1) & 0x1F,
                payload_type: data[2] & 0x01,
                is_fragment: data[3] & 0x80 != 0,
                last_fragment: data[3] & 0x40 != 0,
                keep_alive: data[3] & 0x08 != 0,
                fragment_id: be16(data, 4) as u16,
                fragment_offset: be16(data, 6) as u16 >> 3,
                radio_mac: if has_radio_mac(data) {
                    Some((radio_mac_field(data)->0).0)
                } else {
                    None
                },
                wireless_info: if has_wireless_info(data) {
                    Some((wireless_info_field(data)->0).0)
                } else {
                    None
                },
            },
        )
    } else {
        None
    }
}

/// The control header that `data` starts with, whatever it holds.
pub open spec fn control_header(data: Seq<u8>) -> Option<ControlHeaderFields> {
    if data.len() >= CONTROL_HEADER_LEN {
        Some(
            ControlHeaderFields {
                vendor_id: (be32(data, 0) / 0x100) as u32,
                msg_type_value: be32(data, 0) as u32,
                msg_type_id: data[3] as u32,
                seq_num: data[4],
                msg_element_length: be16(data, 5) as u16,
                flags: data[7],
            },
        )
    } else {
        None
    }
}

/// The control header that `data` starts with, if it is an unambiguous base-spec one:
/// enterprise number 0, a message type in the base-spec range, and a message element
/// length that the remaining bytes can hold.
pub open spec fn base_spec_control_header(data: Seq<u8>) -> Option<ControlHeaderFields> {
    match control_header(data) {
        Some(c) => if c.vendor_id == 0 && 1 <= c.msg_type_id <= LAST_BASE_SPEC_MSG_TYPE
            && c.msg_element_length <= data.len() - CONTROL_HEADER_LEN {
            Some(c)
        } else {
            None
        },
        None => None,
    }
}

/// `data` starts with a DTLS record header: a content type in 20..=25, then version
/// 1.2 or 1.0.
pub open spec fn dtls_record(data: Seq<u8>) -> bool {
    data.len() >= 3 && 20 <= data[0] <= 25 && data[1] == 0xFE && (data[2] == 0xFD || data[2]
        == 0xFF)
}

/// What follows the transport header `t` in `data`.
pub open spec fn after_header(data: Seq<u8>, t: TransportHeader) -> Seq<u8> {
    data.subrange(t.header_len as int, data.len() as int)
}

/// What a probe of `data` concludes.
pub open spec fn probe_result(data: Seq<u8>, on_known_port: bool) -> ProbeResult {
    match transport_header(data) {
        None => ProbeResult::NotForUs,
        Some(t) => {
            let rest = after_header(data, t);
            if t.preamble_type == 1 && !dtls_record(rest) {
                ProbeResult::NotForUs
            } else if on_known_port || (t.preamble_type != 1 && base_spec_control_header(
                rest,
            ) is Some) {
                ProbeResult::Certain
            } else {
                ProbeResult::Unsure
            }
        },
    }
}

/// Reads an optional field; see `optional_field`.
fn read_optional_field(data: &[u8], pos: usize, header_len: usize) -> (r: Option<(Vec<u8>, usize)>)
    requires
        header_len <= 0x1000,
    ensures
        match r {
            Some((value, next)) => optional_field(data@, pos as int, header_len as int) == Some(
                (value@, next as int),
            ) && next <= header_len,
            None => optional_field(data@, pos as int, header_len as int) is None,
        },
{
    if pos >= header_len || pos >= data.len() {
        return None;
    }
    let len: usize = data[pos] as usize;
    let value_start: usize = pos + 1;
    let value_end: usize = value_start + len;
    if value_end > header_len || value_end > data.len() {
        return None;
    }
    let padded: usize = (1 + len + 3) / 4 * 4;
    let next: usize = pos + padded;
    if next > header_len {
        return None;
    }
    Some((copy_range(data, value_start, value_end), next))
}

/// Parses `data` as a transport header. Returns `None` if `data` is too short, the
/// version is not 0, the preamble type is neither plaintext nor DTLS, `HLEN` is less than
/// the minimum, the header extends past `data`, any reserved bit is set, or an optional
/// field is malformed or runs past the header.
pub fn parse_transport_header(data: &[u8]) -> (r: Option<TransportHeaderFields>)
    ensures
        match r {
            Some(f) => transport_header(data@) == Some(f@),
            None => transport_header(data@) is None,
        },
{
    if data.len() < MIN_TRANSPORT_HEADER_LEN {
        return None;
    }
    let version: u8 = data[0] >> 4;
    if version != 0 {
        return None;
    }
    let preamble_type: u8 = data[0] & 0x0F;
    if preamble_type > 1 {
        return None;
    }
    let hlen: u8 = data[1] >> 3;
    if hlen < MIN_HLEN {
        return None;
    }
    let header_len: usize = hlen as usize * 4;
    if header_len > data.len() {
        return None;
    }
    let rid: u8 = ((data[1] & 0x07) << 2) | (data[2] >> 6);
    let wbid: u8 = (data[2] >> 1) & 0x1F;
    let payload_type: u8 = data[2] & 0x01;

    let flags: u8 = data[3];
    if flags & 0x07 != 0 {
        return None;
    }
    let is_fragment = flags & 0x80 != 0;
    let last_fragment = flags & 0x40 != 0;
    let wireless_info_flag = flags & 0x20 != 0;
    let radio_mac_flag = flags & 0x10 != 0;
    let keep_alive = flags & 0x08 != 0;

    let fragment_id: u16 = read_be16(data, 4);
    let frag_raw: u16 = read_be16(data, 6);
    if frag_raw & 0x07 != 0 {
        return None;
    }
    let fragment_offset: u16 = frag_raw >> 3;

    let mut pos: usize = MIN_TRANSPORT_HEADER_LEN;
    let mut radio_mac = None;
    if radio_mac_flag {
        match read_optional_field(data, pos, header_len) {
            Some((value, next)) => {
                radio_mac = Some(value);
                pos = next;
            },
            None => {
                return None;
            },
        }
    }
    let mut wireless_info = None;
    if wireless_info_flag {
        match read_optional_field(data, pos, header_len) {
            Some((value, _)) => {
                wireless_info = Some(value);
            },
            None => {
                return None;
            },
        }
    }
    Some(
        TransportHeaderFields {
            version,
            preamble_type,
            hlen,
            header_len,
            rid,
            wbid,
            payload_type,
            is_fragment,
            last_fragment,
            keep_alive,
            fragment_id,
            fragment_offset,
            radio_mac,
            wireless_info,
        },
    )
}

/// Parses `data` as a control header. Checks only that enough bytes are present; whether
/// the contents are plausible is for `parse_base_spec_control_header`.
pub fn parse_control_header(data: &[u8]) -> (r: Option<ControlHeaderFields>)
    ensures
        r == control_header(data@),
{
    if data.len() < CONTROL_HEADER_LEN {
        return None;
    }
    let msg_type_value: u32 = read_be32(data, 0);
    Some(
        ControlHeaderFields {
            vendor_id: msg_type_value / 0x100,
            msg_type_value,
            msg_type_id: data[3] as u32,
            seq_num: data[4],
            msg_element_length: read_be16(data, 5),
            flags: data[7],
        },
    )
}

/// Parses `data` (everything after the transport header) as a control header and returns
/// it only if it is an unambiguous base-spec control message.
pub fn parse_base_spec_control_header(data: &[u8]) -> (r: Option<ControlHeaderFields>)
    ensures
        r == base_spec_control_header(data@),
{
    match parse_control_header(data) {
        Some(fields) => {
            let remaining: usize = data.len() - CONTROL_HEADER_LEN;
            if fields.vendor_id == 0 && 1 <= fields.msg_type_id && fields.msg_type_id
                <= LAST_BASE_SPEC_MSG_TYPE && fields.msg_element_length as usize <= remaining {
                Some(fields)
            } else {
                None
            }
        },
        None => None,
    }
}

/// Returns `true` if `data` starts with a plausible DTLS record header.
pub fn looks_like_dtls_record(data: &[u8]) -> (b: bool)
    ensures
        b == dtls_record(data@),
{
    data.len() >= 3 && 20 <= data[0] && data[0] <= 25 && data[1] == 0xFE && (data[2] == 0xFD
        || data[2] == 0xFF)
}

/// Decides the probe result for `data`, given whether it was observed on the control port
/// or the data port. Structural validity is checked regardless of port; the port only
/// resolves otherwise ambiguous headers.
pub fn classify_probe(data: &[u8], on_control_port: bool, on_data_port: bool) -> (r: ProbeResult)
    ensures
        r == probe_result(data@, on_control_port || on_data_port),
{
    let on_known_port = on_control_port || on_data_port;
    match parse_transport_header(data) {
        None => ProbeResult::NotForUs,
        Some(fields) => {
            let rest = vstd::slice::slice_subrange(data, fields.header_len, data.len());
            if fields.preamble_type == 1 {
                if looks_like_dtls_record(rest) {
                    if on_known_port {
                        ProbeResult::Certain
                    } else {
                        ProbeResult::Unsure
                    }
                } else {
                    ProbeResult::NotForUs
                }
            } else if parse_base_spec_control_header(rest).is_some() {
                ProbeResult::Certain
            } else if on_known_port {
                ProbeResult::Certain
            } else {
                ProbeResult::Unsure
            }
        },
    }
}

/// A Discovery Request has message type 1, a Discovery Response 2: the only two control
/// messages that are never DTLS-protected.
pub open spec fn discovery(msg_type_id: u32) -> bool {
    msg_type_id == 1 || msg_type_id == 2
}

/// Returns `true` if `msg_type_id` is a Discovery Request or Discovery Response.
pub fn is_discovery(msg_type_id: u32) -> (b: bool)
    ensures
        b == discovery(msg_type_id),
{
    msg_type_id == 1 || msg_type_id == 2
}

/// Parsed CAPWAP connection summary.
///
/// Every field describes the message that finalized parsing on the connection, or, if the
/// connection ends first, the last Discovery message observed.
#[derive(Debug)]
pub struct Capwap {
    transport: TransportHeaderFields,
    control: Option<ControlHeaderFields>,
    channel: Channel,
}

/// What a summary says: the headers of the message it describes, and its channel.
pub struct CapwapSummary {
    pub transport: TransportHeader,
    pub control: Option<ControlHeaderFields>,
    pub channel: Channel,
}

impl View for Capwap {
    type V = CapwapSummary;

    closed spec fn view(&self) -> CapwapSummary {
        CapwapSummary {
            transport: self.transport@,
            control: self.control,
            channel: self.channel,
        }
    }
}

impl CapwapSummary {
    /// How the summary names its message type.
    pub open spec fn msg_type_is(self, t: MsgType) -> bool {
        match self.control {
            None => t == MsgType::Absent,
            Some(c) => if c.vendor_id != 0 {
                t == MsgType::Other(c.msg_type_id as u8)
            } else {
                t.names_byte(c.msg_type_id as u8 as int)
            },
        }
    }
}

/// The summary of a connection on which no message was parsed.
pub open spec fn no_message() -> CapwapSummary {
    CapwapSummary {
        transport: no_transport_header(),
        control: None,
        channel: Channel::Unknown,
    }
}

/// The control header that a message is taken to have. On the control channel, whatever
/// follows the transport header; off both ports, only an unambiguous one; never on the
/// data channel, nor inside DTLS.
pub open spec fn message_control_header(
    data: Seq<u8>,
    t: TransportHeader,
    hint: Channel,
) -> Option<ControlHeaderFields> {
    if t.preamble_type == 1 {
        None
    } else {
        match hint {
            Channel::Data => None,
            Channel::Control => control_header(after_header(data, t)),
            Channel::Unknown => base_spec_control_header(after_header(data, t)),
        }
    }
}

/// The channel that a message is taken to be on. Off both ports, a plaintext message is
/// on the control channel exactly if it has a control header.
pub open spec fn message_channel(data: Seq<u8>, t: TransportHeader, hint: Channel) -> Channel {
    if t.preamble_type == 1 || hint != Channel::Unknown {
        hint
    } else if message_control_header(data, t, hint) is Some {
        Channel::Control
    } else {
        Channel::Data
    }
}

/// The summary of a message with transport header `t`.
pub open spec fn message_summary(data: Seq<u8>, t: TransportHeader, hint: Channel) -> CapwapSummary {
    CapwapSummary {
        transport: t,
        control: message_control_header(data, t, hint),
        channel: message_channel(data, t, hint),
    }
}

/// The summary after a message: the message's own, if it is a CAPWAP message.
pub open spec fn summary_after(before: CapwapSummary, data: Seq<u8>, hint: Channel) -> CapwapSummary {
    match transport_header(data) {
        None => before,
        Some(t) => message_summary(data, t, hint),
    }
}

/// What parsing a message concludes: a Discovery message leaves the session open, any
/// other CAPWAP message finalizes it. A vendor's message is none, whatever its type.
pub open spec fn update_result(data: Seq<u8>, hint: Channel) -> ParseResult {
    match transport_header(data) {
        None => ParseResult::Skipped,
        Some(t) => match message_control_header(data, t, hint) {
            Some(c) if c.vendor_id == 0 && discovery(c.msg_type_id) => ParseResult::Continue(0),
            _ => ParseResult::HeadersDone(0),
        },
    }
}

/// A port never turns a rejected header into an accepted one, nor a certain one into a
/// doubtful one: all it does is settle a doubtful header.
pub proof fn law_port_only_breaks_ties(data: Seq<u8>)
    ensures
        probe_result(data, true) == (match probe_result(data, false) {
            ProbeResult::Unsure => ProbeResult::Certain,
            r => r,
        }),
{
}

/// A plaintext message with an unambiguous base-spec control header is recognized on
/// every port.
pub proof fn law_control_message_recognized_on_any_port(
    data: Seq<u8>,
    t: TransportHeader,
    on_known_port: bool,
)
    requires
        transport_header(data) == Some(t),
        t.preamble_type == 0,
        base_spec_control_header(after_header(data, t)) is Some,
    ensures
        probe_result(data, on_known_port) == ProbeResult::Certain,
{
}

/// What the probe recognizes, the session parses: a message that is skipped was rejected
/// by the probe.
pub proof fn law_skipped_messages_are_rejected_by_probe(
    data: Seq<u8>,
    hint: Channel,
    on_known_port: bool,
)
    requires
        update_result(data, hint) == ParseResult::Skipped,
    ensures
        probe_result(data, on_known_port) == ProbeResult::NotForUs,
{
}

/// A CAPWAP message replaces everything that earlier messages left in the summary.
pub proof fn law_last_message_wins(
    before: CapwapSummary,
    data: Seq<u8>,
    hint: Channel,
)
    requires
        transport_header(data) is Some,
    ensures
        summary_after(before, data, hint) == summary_after(no_message(), data, hint),
{
}

/// A session that is left open describes a plaintext Discovery message on the control
/// channel.
pub proof fn law_only_plaintext_discovery_defers(
    before: CapwapSummary,
    data: Seq<u8>,
    hint: Channel,
)
    requires
        update_result(data, hint) is Continue,
    ensures
        ({
            let s = summary_after(before, data, hint);
            &&& s.transport.preamble_type != 1
            &&& s.channel == Channel::Control
            &&& s.control is Some
            &&& s.control->0.vendor_id == 0
            &&& discovery(s.control->0.msg_type_id)
        }),
{
}

/// A message inside DTLS always finalizes the session, and reports no control header.
pub proof fn law_dtls_finalizes_without_control_header(
    before: CapwapSummary,
    data: Seq<u8>,
    hint: Channel,
)
    requires
        transport_header(data) is Some,
        transport_header(data)->0.preamble_type == 1,
    ensures
        update_result(data, hint) == ParseResult::HeadersDone(0),
        summary_after(before, data, hint).control is None,
        summary_after(before, data, hint).msg_type_is(MsgType::Absent),
{
}

impl Capwap {
    pub fn new() -> (c: Capwap)
        ensures
            c@ == no_message(),
    {
        Capwap {
            transport: TransportHeaderFields {
                version: 0,
                preamble_type: 0,
                hlen: 0,
                header_len: 0,
                rid: 0,
                wbid: 0,
                payload_type: 0,
                is_fragment: false,
                last_fragment: false,
                keep_alive: false,
                fragment_id: 0,
                fragment_offset: 0,
                radio_mac: None,
                wireless_info: None,
            },
            control: None,
            channel: Channel::Unknown,
        }
    }

    /// Parses `data` as a CAPWAP message and folds it into the summary. `channel_hint` is
    /// the channel implied by the UDP ports, or `Unknown` if neither matched.
    ///
    /// Returns `HeadersDone` for most messages. A plaintext Discovery Request or Response
    /// on the control channel returns `Continue` instead: DTLS setup typically follows, so
    /// finalizing there would report an about-to-be-encrypted connection as unencrypted.
    pub fn update(&mut self, data: &[u8], channel_hint: Channel) -> (r: ParseResult)
        ensures
            r == update_result(data@, channel_hint),
            final(self)@ == summary_after(old(self)@, data@, channel_hint),
    {
        match parse_transport_header(data) {
            None => ParseResult::Skipped,
            Some(fields) => {
                let rest = vstd::slice::slice_subrange(data, fields.header_len, data.len());
                let is_dtls = fields.preamble_type == 1;
                self.transport = fields;
                if is_dtls {
                    self.channel = channel_hint;
                    self.control = None;
                    return ParseResult::HeadersDone(0);
                }
                match channel_hint {
                    Channel::Data => {
                        self.channel = Channel::Data;
                        self.control = None;
                        ParseResult::HeadersDone(0)
                    },
                    Channel::Control => match parse_control_header(rest) {
                        Some(c) => self.apply_control_header_and_decide(c),
                        None => {
                            self.channel = Channel::Control;
                            self.control = None;
                            ParseResult::HeadersDone(0)
                        },
                    },
                    Channel::Unknown => match parse_base_spec_control_header(rest) {
                        Some(c) => self.apply_control_header_and_decide(c),
                        None => {
                            self.channel = Channel::Data;
                            self.control = None;
                            ParseResult::HeadersDone(0)
                        },
                    },
                }
            },
        }
    }

    /// Applies a parsed control header to the session and decides whether it finalizes
    /// parsing: a Discovery message defers so that a later, more decisive message can
    /// supersede it; everything else finalizes immediately.
    fn apply_control_header_and_decide(&mut self, fields: ControlHeaderFields) -> (r: ParseResult)
        ensures
            r == (if fields.vendor_id == 0 && discovery(fields.msg_type_id) {
                ParseResult::Continue(0)
            } else {
                ParseResult::HeadersDone(0)
            }),
            final(self)@ == (CapwapSummary {
                control: Some(fields),
                channel: Channel::Control,
                ..old(self)@
            }),
    {
        self.apply_control_header(fields);
        if fields.vendor_id == 0 && is_discovery(fields.msg_type_id) {
            ParseResult::Continue(0)
        } else {
            ParseResult::HeadersDone(0)
        }
    }

    fn apply_control_header(&mut self, fields: ControlHeaderFields)
        ensures
            final(self)@ == (CapwapSummary {
                control: Some(fields),
                channel: Channel::Control,
                ..old(self)@
            }),
    {
        self.control = Some(fields);
        self.channel = Channel::Control;
    }

    /// Returns the protocol version. Always 0 for RFC 5415 traffic.
    pub fn version(&self) -> (n: u8)
        ensures
            n == self@.transport.version,
    {
        self.transport.version
    }

    /// Returns the preamble type: 0 for plaintext, 1 for DTLS-encapsulated.
    pub fn preamble_type(&self) -> (n: u8)
        ensures
            n == self@.transport.preamble_type,
    {
        self.transport.preamble_type
    }

    /// Returns `true` if the preamble type indicates DTLS encapsulation.
    pub fn is_dtls(&self) -> (b: bool)
        ensures
            b == (self@.transport.preamble_type == 1),
    {
        self.transport.preamble_type == 1
    }

    /// Returns HLEN: the transport header length in 4-byte words.
    pub fn hlen(&self) -> (n: u8)
        ensures
            n == self@.transport.hlen,
    {
        self.transport.hlen
    }

    /// Returns the Radio ID.
    pub fn rid(&self) -> (n: u8)
        ensures
            n == self@.transport.rid,
    {
        self.transport.rid
    }

    /// Returns the Wireless Binding ID.
    pub fn wbid(&self) -> (n: u8)
        ensures
            n == self@.transport.wbid,
    {
        self.transport.wbid
    }

    /// Returns the raw T (payload type) flag.
    pub fn payload_type(&self) -> (n: u8)
        ensures
            n == self@.transport.payload_type,
    {
        self.transport.payload_type
    }

    /// Returns `true` if the payload is a fragment of a larger packet.
    pub fn is_fragment(&self) -> (b: bool)
        ensures
            b == self@.transport.is_fragment,
    {
        self.transport.is_fragment
    }

    /// Returns `true` if the Last Fragment flag is set.
    pub fn last_fragment(&self) -> (b: bool)
        ensures
            b == self@.transport.last_fragment,
    {
        self.transport.last_fragment
    }

    /// Returns `true` if the Keep-Alive flag is set.
    pub fn keep_alive(&self) -> (b: bool)
        ensures
            b == self@.transport.keep_alive,
    {
        self.transport.keep_alive
    }

    /// Returns the Fragment ID.
    pub fn fragment_id(&self) -> (n: u16)
        ensures
            n == self@.transport.fragment_id,
    {
        self.transport.fragment_id
    }

    /// Returns the Fragment Offset, in 8-byte units.
    pub fn fragment_offset(&self) -> (n: u16)
        ensures
            n == self@.transport.fragment_offset,
    {
        self.transport.fragment_offset
    }

    /// Returns the Radio MAC Address field, if the M flag was set.
    pub fn radio_mac(&self) -> (r: Option<&[u8]>)
        ensures
            match r {
                Some(s) => self@.transport.radio_mac == Some(s@),
                None => self@.transport.radio_mac is None,
            },
    {
        as_opt_slice(&self.transport.radio_mac)
    }

    /// Returns the Wireless Specific Information field, if the W flag was set.
    pub fn wireless_info(&self) -> (r: Option<&[u8]>)
        ensures
            match r {
                Some(s) => self@.transport.wireless_info == Some(s@),
                None => self@.transport.wireless_info is None,
            },
    {
        as_opt_slice(&self.transport.wireless_info)
    }

    /// Returns the enterprise (vendor) number, or 0 if no control header was parsed.
    pub fn vendor_id(&self) -> (n: u32)
        ensures
            n == (match self@.control {
                Some(c) => c.vendor_id,
                None => 0,
            }),
    {
        match &self.control {
            Some(c) => c.vendor_id,
            None => 0,
        }
    }

    /// Returns the raw 32-bit Message Type field, or 0 if no control header was parsed.
    pub fn msg_type_value(&self) -> (n: u32)
        ensures
            n == (match self@.control {
                Some(c) => c.msg_type_value,
                None => 0,
            }),
    {
        match &self.control {
            Some(c) => c.msg_type_value,
            None => 0,
        }
    }

    /// Returns the low-order message-type byte, or 0 if no control header was parsed.
    pub fn msg_type_id(&self) -> (n: u32)
        ensures
            n == (match self@.control {
                Some(c) => c.msg_type_id,
                None => 0,
            }),
    {
        match &self.control {
            Some(c) => c.msg_type_id,
            None => 0,
        }
    }

    /// Returns the named message type, or `Absent` if no control header was parsed for
    /// this message. A message type of another enterprise is `Other`.
    pub fn msg_type(&self) -> (t: MsgType)
        ensures
            self@.msg_type_is(t),
    {
        match &self.control {
            None => MsgType::Absent,
            Some(c) => if c.vendor_id != 0 {
                MsgType::Other(c.msg_type_id as u8)
            } else {
                MsgType::from_byte(c.msg_type_id as u8)
            },
        }
    }

    /// Returns the Sequence Number, or 0 if no control header was parsed.
    pub fn seq_num(&self) -> (n: u8)
        ensures
            n == (match self@.control {
                Some(c) => c.seq_num,
                None => 0,
            }),
    {
        match &self.control {
            Some(c) => c.seq_num,
            None => 0,
        }
    }

    /// Returns the Message Element Length, or 0 if no control header was parsed.
    pub fn msg_element_length(&self) -> (n: u16)
        ensures
            n == (match self@.control {
                Some(c) => c.msg_element_length,
                None => 0,
            }),
    {
        match &self.control {
            Some(c) => c.msg_element_length,
            None => 0,
        }
    }

    /// Returns the channel this message was observed on.
    pub fn channel(&self) -> (c: Channel)
        ensures
            c == self@.channel,
    {
        self.channel
    }
}

/// The channel that a pair of ports implies; the control port decides before the data
/// port.
pub open spec fn port_channel(dst_port: u16, src_port: u16) -> Channel {
    if dst_port == CAPWAP_CONTROL_PORT || src_port == CAPWAP_CONTROL_PORT {
        Channel::Control
    } else if dst_port == CAPWAP_DATA_PORT || src_port == CAPWAP_DATA_PORT {
        Channel::Data
    } else {
        Channel::Unknown
    }
}

/// Returns the channel implied by the UDP ports a message was observed on, or `Unknown`
/// if neither is the standard control or data port.
pub fn channel_from_ports(dst_port: u16, src_port: u16) -> (c: Channel)
    ensures
        c == port_channel(dst_port, src_port),
{
    if dst_port == CAPWAP_CONTROL_PORT || src_port == CAPWAP_CONTROL_PORT {
        Channel::Control
    } else if dst_port == CAPWAP_DATA_PORT || src_port == CAPWAP_DATA_PORT {
        Channel::Data
    } else {
        Channel::Unknown
    }
}

/// Parser state of one connection: at most one summary, handed out once.
#[derive(Debug)]
pub struct CapwapParser {
    sessions: Vec<Capwap>,
}

impl View for CapwapParser {
    type V = Seq<Capwap>;

    closed spec fn view(&self) -> Seq<Capwap> {
        self.sessions@
    }
}

impl Default for CapwapParser {
    fn default() -> (p: CapwapParser)
        ensures
            p@.len() == 1,
            p@[0]@ == no_message(),
    {
        let mut sessions: Vec<Capwap> = Vec::new();
        sessions.push(Capwap::new());
        CapwapParser { sessions }
    }
}

impl CapwapParser {
    /// Folds the segment's payload into the summary. A segment without payload, or whose
    /// payload cannot be read, is skipped, and so is one that comes after the summary was
    /// handed out.
    pub fn parse(&mut self, pdu: &L4Pdu) -> (r: ParseResult)
        ensures
            final(self)@.len() == old(self)@.len(),
            forall|i: int| 1 <= i < old(self)@.len() ==> final(self)@[i] == old(self)@[i],
            match pdu.payload() {
                Some(data) if data.len() > 0 && old(self)@.len() > 0 => {
                    let hint = port_channel(pdu.ctxt.dst.port, pdu.ctxt.src.port);
                    &&& r == update_result(data, hint)
                    &&& final(self)@[0]@ == summary_after(old(self)@[0]@, data, hint)
                },
                _ => r == ParseResult::Skipped && final(self)@ == old(self)@,
            },
    {
        let offset: usize = pdu.offset();
        let length: usize = pdu.length();
        if length == 0 {
            return ParseResult::Skipped;
        }
        let channel = channel_from_ports(pdu.ctxt.dst.port, pdu.ctxt.src.port);
        match pdu.mbuf_ref().get_data_slice(offset, length) {
            Ok(data) => {
                if self.sessions.len() > 0 {
                    return self.sessions[0].update(data, channel);
                }
                ParseResult::Skipped
            },
            Err(_) => ParseResult::Skipped,
        }
    }

    /// Probes the segment's payload.
    pub fn probe(&self, pdu: &L4Pdu) -> (r: ProbeResult)
        ensures
            r == (if pdu.ctxt.length < MIN_TRANSPORT_HEADER_LEN {
                ProbeResult::Unsure
            } else {
                match pdu.payload() {
                    Some(data) => probe_result(
                        data,
                        port_channel(pdu.ctxt.dst.port, pdu.ctxt.src.port) != Channel::Unknown,
                    ),
                    None => ProbeResult::Error,
                }
            }),
    {
        let offset: usize = pdu.offset();
        let length: usize = pdu.length();
        if length < MIN_TRANSPORT_HEADER_LEN {
            return ProbeResult::Unsure;
        }
        let dst_port: u16 = pdu.ctxt.dst.port;
        let src_port: u16 = pdu.ctxt.src.port;
        let on_control_port = dst_port == CAPWAP_CONTROL_PORT || src_port == CAPWAP_CONTROL_PORT;
        let on_data_port = dst_port == CAPWAP_DATA_PORT || src_port == CAPWAP_DATA_PORT;
        match pdu.mbuf.get_data_slice(offset, length) {
            Ok(data) => classify_probe(data, on_control_port, on_data_port),
            Err(_) => ProbeResult::Error,
        }
    }

    /// Hands out the most recent summary.
    pub fn remove_session(&mut self, _session_id: usize) -> (r: Option<Session>)
        ensures
            match r {
                Some(s) => {
                    &&& old(self)@.len() > 0
                    &&& s.id == 0
                    &&& s.data == SessionData::Capwap(Box::new(old(self)@.last()))
                    &&& final(self)@ == old(self)@.drop_last()
                },
                None => old(self)@.len() == 0 && final(self)@ == old(self)@,
            },
    {
        match self.sessions.pop() {
            Some(capwap) => Some(Session { data: SessionData::Capwap(Box::new(capwap)), id: 0 }),
            None => None,
        }
    }

    /// Hands out every summary, in order.
    pub fn drain_sessions(&mut self) -> (r: Vec<Session>)
        ensures
            final(self)@.len() == 0,
            r@.len() == old(self)@.len(),
            forall|i: int|
                0 <= i < r@.len() ==> (#[trigger] r@[i]).id == 0 && r@[i].data
                    == SessionData::Capwap(Box::new(old(self)@[i])),
    {
        let mut out: Vec<Session> = Vec::new();
        let ghost all = self.sessions@;
        while self.sessions.len() > 0
            invariant
                out@.len() + self.sessions@.len() == all.len(),
                self.sessions@ == all.skip(out@.len() as int),
                forall|i: int|
                    0 <= i < out@.len() ==> (#[trigger] out@[i]).id == 0 && out@[i].data
                        == SessionData::Capwap(Box::new(all[i])),
            decreases self.sessions@.len(),
        {
            let capwap = self.sessions.remove(0);
            out.push(Session { data: SessionData::Capwap(Box::new(capwap)), id: 0 });
            assert(self.sessions@ =~= all.skip(out@.len() as int));
        }
        out
    }

    /// Exactly one summary is produced per connection, so no further sessions are
    /// expected.
    pub fn session_parsed_state(&self) -> (s: ParsingState)
        ensures
            s == ParsingState::Stop,
    {
        ParsingState::Stop
    }

    /// There is no application-layer body to offset into.
    pub fn body_offset(&mut self) -> (r: Option<usize>)
        ensures
            r is None,
            final(self)@ == old(self)@,
    {
        None
    }
}

} // verus!
