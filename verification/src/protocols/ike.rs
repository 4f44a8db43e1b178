//! IKE (Internet Key Exchange) header parsing.
//!
//! Parses the fixed 28-byte ISAKMP/IKE header, byte-for-byte identical between IKEv1 (RFC
//! 2408, section 3.1) and IKEv2 (RFC 7296, section 3.1). Payload contents are out of scope.
//!
//! IKE has no fixed magic bytes, and while it conventionally runs on UDP ports 500 and
//! 4500, it is not guaranteed to. So `classify_probe` validates the header's structure
//! first and falls back to the port only as a tiebreaker for ambiguous headers.

use crate::conntrack::pdu::L4Pdu;
use crate::protocols::{ParseResult, ParsingState, ProbeResult, Session, SessionData};
use crate::wire::{be32, read_be32};
use vstd::prelude::*;

verus! {

/// Size of the fixed ISAKMP/IKE header.
pub const IKE_HEADER_LEN: usize = 28;

/// The two standard IKE ports. UDP 4500 additionally carries a 4-byte "non-ESP marker"
/// before the ISAKMP header, used to distinguish IKE from ESP-in-UDP.
pub const IKE_PORT: u16 = 500;

pub const IKE_NAT_T_PORT: u16 = 4500;

pub const FLAG_INITIATOR: u8 = 0x08;

pub const FLAG_RESPONSE: u8 = 0x20;

pub const EXCHANGE_TYPE_MIN: u8 = 34;

pub const EXCHANGE_TYPE_MAX: u8 = 37;

/// IKEv2 exchange types. IKEv1 exchange-type byte values differ and are reported as
/// `Other`.
#[derive(Debug, Clone, Copy, PartialEq, Eq, Structural)]
pub enum IkeExchangeType {
    IkeSaInit,
    IkeAuth,
    CreateChildSa,
    Informational,
    Other(u8),
}

impl IkeExchangeType {
    /// How the exchange-type byte `b` is reported.
    pub open spec fn of_byte(b: u8) -> IkeExchangeType {
        if b == 34 {
            IkeExchangeType::IkeSaInit
        } else if b == 35 {
            IkeExchangeType::IkeAuth
        } else if b == 36 {
            IkeExchangeType::CreateChildSa
        } else if b == 37 {
            IkeExchangeType::Informational
        } else {
            IkeExchangeType::Other(b)
        }
    }

    pub fn from_byte(b: u8) -> (t: IkeExchangeType)
        ensures
            t == IkeExchangeType::of_byte(b),
    {
        match b {
            34 => IkeExchangeType::IkeSaInit,
            35 => IkeExchangeType::IkeAuth,
            36 => IkeExchangeType::CreateChildSa,
            37 => IkeExchangeType::Informational,
            other => IkeExchangeType::Other(other),
        }
    }
}

/// Fields decoded from a fixed ISAKMP/IKE header.
#[derive(Debug, Clone, Copy, PartialEq, Eq)]
pub struct IkeHeaderFields {
    pub initiator_spi: [u8; 8],
    pub responder_spi: [u8; 8],
    pub version_major: u8,
    pub version_minor: u8,
    pub exchange_type: u8,
    pub is_initiator: bool,
    pub is_response: bool,
    pub message_id: u32,
    pub length: u32,
}

/// An ISAKMP/IKE header, with its SPIs as sequences.
pub struct IkeHeaderModel {
    pub initiator_spi: Seq<u8>,
    pub responder_spi: Seq<u8>,
    pub version_major: u8,
    pub version_minor: u8,
    pub exchange_type: u8,
    pub is_initiator: bool,
    pub is_response: bool,
    pub message_id: u32,
    pub length: u32,
}

impl View for IkeHeaderFields {
    type V = IkeHeaderModel;

    open spec fn view(&self) -> IkeHeaderModel {
        IkeHeaderModel {
            initiator_spi: self.initiator_spi@,
            responder_spi: self.responder_spi@,
            version_major: self.version_major,
            version_minor: self.version_minor,
            exchange_type: self.exchange_type,
            is_initiator: self.is_initiator,
            is_response: self.is_response,
            message_id: self.message_id,
            length: self.length,
        }
    }
}

/// `data` without the marker that NAT traversal puts before an IKE message.
pub open spec fn without_marker(data: Seq<u8>, on_nat_t_port: bool) -> Seq<u8> {
    if on_nat_t_port && data.len() >= 4 && data[0] == 0 && data[1] == 0 && data[2] == 0 && data[3]
        == 0 {
        data.skip(4)
    } else {
        data
    }
}

/// `data` starts with an IKE header of version 1 or 2 whose length field covers the
/// header and is not wildly larger than the data at hand. The message may extend beyond
/// one datagram, so a larger length is plausible up to four times the data and 4096.
pub open spec fn ike_header_valid(data: Seq<u8>) -> bool {
    &&& data.len() >= IKE_HEADER_LEN
    &&& 1 <= data[17] >> 4 <= 2
    &&& IKE_HEADER_LEN <= be32(data, 24) <= data.len() * 4 + 4096
}

/// The IKE header that `data` starts with.
pub open spec fn ike_header(data: Seq<u8>) -> Option<IkeHeaderModel> {
    if ike_header_valid(data) {
        Some(
            IkeHeaderModel {
                initiator_spi: data.subrange(0, 8),
                responder_spi: data.subrange(8, 16),
                version_major: data[17] >> 4,
                version_minor: data[17] & 0x0F,
                exchange_type: data[18],
                is_initiator: data[19] & FLAG_INITIATOR != 0,
                is_response: data[19] & FLAG_RESPONSE != 0,
                message_id: be32(data, 20) as u32,
                length: be32(data, 24) as u32,
            },
        )
    } else {
        None
    }
}

/// The header matches on its own: a known IKEv2 exchange type and a length field that is
/// exactly the data at hand.
pub open spec fn unambiguous(h: IkeHeaderModel, data_len: int) -> bool {
    EXCHANGE_TYPE_MIN <= h.exchange_type <= EXCHANGE_TYPE_MAX && h.length == data_len
}

/// What a probe of `data` concludes.
pub open spec fn probe_result(
    data: Seq<u8>,
    on_known_port: bool,
    on_nat_t_port: bool,
) -> ProbeResult {
    let stripped = without_marker(data, on_nat_t_port);
    match ike_header(stripped) {
        Some(h) => if unambiguous(h, stripped.len() as int) || on_known_port {
            ProbeResult::Certain
        } else {
            ProbeResult::Unsure
        },
        None => ProbeResult::NotForUs,
    }
}

/// Strips the 4-byte "non-ESP marker" from `data`, if `on_nat_t_port` and it is present.
pub fn strip_non_esp_marker(data: &[u8], on_nat_t_port: bool) -> (r: &[u8])
    ensures
        r@ == without_marker(data@, on_nat_t_port),
{
    if on_nat_t_port && data.len() >= 4 && data[0] == 0 && data[1] == 0 && data[2] == 0 && data[3]
        == 0 {
        vstd::slice::slice_subrange(data, 4, data.len())
    } else {
        data
    }
}

/// The eight bytes of `data` at `i`.
fn read_spi(data: &[u8], i: usize) -> (spi: [u8; 8])
    requires
        i + 8 <= data@.len(),
        i <= 8,
    ensures
        spi@ == data@.subrange(i as int, i + 8),
{
    let spi: [u8; 8] = [
        data[i],
        data[i + 1],
        data[i + 2],
        data[i + 3],
        data[i + 4],
        data[i + 5],
        data[i + 6],
        data[i + 7],
    ];
    assert(spi@ =~= data@.subrange(i as int, i + 8));
    spi
}

/// Parses `data` as a fixed ISAKMP/IKE header. Returns `None` if `data` is too short, the
/// version's major nibble is not 1 or 2, or the length field is wildly inconsistent with
/// the amount of data available.
pub fn parse_ike_header(data: &[u8]) -> (r: Option<IkeHeaderFields>)
    ensures
        match r {
            Some(f) => ike_header(data@) == Some(f@),
            None => ike_header(data@) is None,
        },
{
    if data.len() < IKE_HEADER_LEN {
        return None;
    }
    let version_major: u8 = data[17] >> 4;
    let version_minor: u8 = data[17] & 0x0F;
    if version_major < 1 || version_major > 2 {
        return None;
    }
    let length: u32 = read_be32(data, 24);
    if (length as usize) < IKE_HEADER_LEN || (data.len() < 0x4000_0000 && length as u64
        > data.len() as u64 * 4 + 4096) {
        return None;
    }
    let flags: u8 = data[19];
    Some(
        IkeHeaderFields {
            initiator_spi: read_spi(data, 0),
            responder_spi: read_spi(data, 8),
            version_major,
            version_minor,
            exchange_type: data[18],
            is_initiator: flags & FLAG_INITIATOR != 0,
            is_response: flags & FLAG_RESPONSE != 0,
            message_id: read_be32(data, 20),
            length,
        },
    )
}

/// Returns `true` if `fields` is an unambiguous match on its own, versus a borderline one
/// that should rely on the port as a tiebreaker.
pub fn is_unambiguous(fields: &IkeHeaderFields, data_len: usize) -> (b: bool)
    ensures
        b == unambiguous(fields@, data_len as int),
{
    EXCHANGE_TYPE_MIN <= fields.exchange_type && fields.exchange_type <= EXCHANGE_TYPE_MAX
        && fields.length as usize == data_len
}

/// Decides the probe result for `data`, given whether it was observed on a known IKE port
/// and whether on the NAT-T port specifically. Structural validity is checked regardless
/// of port; the port is used only to resolve otherwise ambiguous headers.
pub fn classify_probe(data: &[u8], on_known_port: bool, on_nat_t_port: bool) -> (r: ProbeResult)
    ensures
        r == probe_result(data@, on_known_port, on_nat_t_port),
{
    let stripped = strip_non_esp_marker(data, on_nat_t_port);
    match parse_ike_header(stripped) {
        Some(fields) => if is_unambiguous(&fields, stripped.len()) || on_known_port {
            ProbeResult::Certain
        } else {
            ProbeResult::Unsure
        },
        None => ProbeResult::NotForUs,
    }
}

/// Parsed IKE connection summary: it describes the first IKE message observed on the
/// connection.
#[derive(Debug)]
pub struct Ike {
    pub initiator_spi: [u8; 8],
    pub responder_spi: [u8; 8],
    pub version_major: u8,
    pub version_minor: u8,
    pub exchange_type: Option<IkeExchangeType>,
    pub is_initiator: bool,
    pub is_response: bool,
    pub message_id: u32,
}

/// What a summary says, with the SPIs as sequences.
pub struct IkeSummary {
    pub initiator_spi: Seq<u8>,
    pub responder_spi: Seq<u8>,
    pub version_major: u8,
    pub version_minor: u8,
    pub exchange_type: Option<IkeExchangeType>,
    pub is_initiator: bool,
    pub is_response: bool,
    pub message_id: u32,
}

impl View for Ike {
    type V = IkeSummary;

    open spec fn view(&self) -> IkeSummary {
        IkeSummary {
            initiator_spi: self.initiator_spi@,
            responder_spi: self.responder_spi@,
            version_major: self.version_major,
            version_minor: self.version_minor,
            exchange_type: self.exchange_type,
            is_initiator: self.is_initiator,
            is_response: self.is_response,
            message_id: self.message_id,
        }
    }
}

/// The summary of a connection on which no message was parsed.
pub open spec fn no_message() -> IkeSummary {
    IkeSummary {
        initiator_spi: seq![0u8, 0, 0, 0, 0, 0, 0, 0],
        responder_spi: seq![0u8, 0, 0, 0, 0, 0, 0, 0],
        version_major: 0,
        version_minor: 0,
        exchange_type: None,
        is_initiator: false,
        is_response: false,
        message_id: 0,
    }
}

/// The summary after a message: what the message's header says, if it has one.
pub open spec fn summary_after(
    before: IkeSummary,
    data: Seq<u8>,
    on_nat_t_port: bool,
) -> IkeSummary {
    match ike_header(without_marker(data, on_nat_t_port)) {
        Some(h) => IkeSummary {
            initiator_spi: h.initiator_spi,
            responder_spi: h.responder_spi,
            version_major: h.version_major,
            version_minor: h.version_minor,
            exchange_type: Some(IkeExchangeType::of_byte(h.exchange_type)),
            is_initiator: h.is_initiator,
            is_response: h.is_response,
            message_id: h.message_id,
        },
        None => before,
    }
}

/// What parsing a message concludes: a header finalizes the session.
pub open spec fn update_result(data: Seq<u8>, on_nat_t_port: bool) -> ParseResult {
    if ike_header(without_marker(data, on_nat_t_port)) is Some {
        ParseResult::HeadersDone(0)
    } else {
        ParseResult::Skipped
    }
}

/// A known port never turns a rejected header into an accepted one, nor a certain one
/// into a doubtful one: all it does is settle a doubtful header.
pub proof fn law_port_only_breaks_ties(data: Seq<u8>, on_nat_t_port: bool)
    ensures
        probe_result(data, true, on_nat_t_port) == (match probe_result(
            data,
            false,
            on_nat_t_port,
        ) {
            ProbeResult::Unsure => ProbeResult::Certain,
            r => r,
        }),
{
}

/// The session parses exactly what the probe does not reject.
pub proof fn law_parsed_exactly_if_probed(data: Seq<u8>, on_known_port: bool, on_nat_t_port: bool)
    ensures
        update_result(data, on_nat_t_port) == ParseResult::Skipped <==> probe_result(
            data,
            on_known_port,
            on_nat_t_port,
        ) == ProbeResult::NotForUs,
{
}

/// A header finalizes the session, so the one message that the summary describes is the
/// first that has one: before it, the summary is empty.
pub proof fn law_summary_is_empty_until_finalized(data: Seq<u8>, on_nat_t_port: bool)
    ensures
        update_result(data, on_nat_t_port) == ParseResult::Skipped ==> summary_after(
            no_message(),
            data,
            on_nat_t_port,
        ) == no_message(),
        update_result(data, on_nat_t_port) != ParseResult::Skipped ==> update_result(
            data,
            on_nat_t_port,
        ) == ParseResult::HeadersDone(0) && summary_after(
            no_message(),
            data,
            on_nat_t_port,
        ).exchange_type is Some,
{
}

impl Ike {
    pub fn new() -> (i: Ike)
        ensures
            i@ == no_message(),
    {
        let i = Ike {
            initiator_spi: [0, 0, 0, 0, 0, 0, 0, 0],
            responder_spi: [0, 0, 0, 0, 0, 0, 0, 0],
            version_major: 0,
            version_minor: 0,
            exchange_type: None,
            is_initiator: false,
            is_response: false,
            message_id: 0,
        };
        assert(i@.initiator_spi =~= no_message().initiator_spi);
        assert(i@.responder_spi =~= no_message().responder_spi);
        i
    }

    /// Parses `data` as an IKE header and populates the summary. Returns `HeadersDone` on
    /// a successful parse, after which it is not called again on this connection.
    pub fn update(&mut self, data: &[u8], on_nat_t_port: bool) -> (r: ParseResult)
        ensures
            r == update_result(data@, on_nat_t_port),
            final(self)@ == summary_after(old(self)@, data@, on_nat_t_port),
    {
        let stripped = strip_non_esp_marker(data, on_nat_t_port);
        match parse_ike_header(stripped) {
            None => ParseResult::Skipped,
            Some(fields) => {
                self.initiator_spi = fields.initiator_spi;
                self.responder_spi = fields.responder_spi;
                self.version_major = fields.version_major;
                self.version_minor = fields.version_minor;
                self.exchange_type = Some(IkeExchangeType::from_byte(fields.exchange_type));
                self.is_initiator = fields.is_initiator;
                self.is_response = fields.is_response;
                self.message_id = fields.message_id;
                ParseResult::HeadersDone(0)
            },
        }
    }

    /// Returns the initiator SPI (Security Parameter Index) from the first message.
    pub fn initiator_spi(&self) -> (r: [u8; 8])
        ensures
            r@ == self@.initiator_spi,
    {
        self.initiator_spi
    }

    /// Returns the responder SPI from the first message.
    pub fn responder_spi(&self) -> (r: [u8; 8])
        ensures
            r@ == self@.responder_spi,
    {
        self.responder_spi
    }

    /// Returns the (major, minor) protocol version from the first message.
    pub fn version(&self) -> (r: (u8, u8))
        ensures
            r == (self@.version_major, self@.version_minor),
    {
        (self.version_major, self.version_minor)
    }

    /// Returns the exchange type of the first message observed, if any.
    pub fn exchange_type(&self) -> (r: Option<IkeExchangeType>)
        ensures
            r == self@.exchange_type,
    {
        self.exchange_type
    }

    /// Returns `true` if the first message had the Initiator flag set.
    pub fn is_initiator(&self) -> (b: bool)
        ensures
            b == self@.is_initiator,
    {
        self.is_initiator
    }

    /// Returns `true` if the first message had the Response flag set.
    pub fn is_response(&self) -> (b: bool)
        ensures
            b == self@.is_response,
    {
        self.is_response
    }

    /// Returns the message ID of the first message observed.
    pub fn message_id(&self) -> (n: u32)
        ensures
            n == self@.message_id,
    {
        self.message_id
    }
}

/// One of the ports is the NAT-T port.
pub open spec fn nat_t_port(dst_port: u16, src_port: u16) -> bool {
    dst_port == IKE_NAT_T_PORT || src_port == IKE_NAT_T_PORT
}

/// One of the ports is a standard IKE port.
pub open spec fn known_port(dst_port: u16, src_port: u16) -> bool {
    nat_t_port(dst_port, src_port) || dst_port == IKE_PORT || src_port == IKE_PORT
}

/// Parser state of one connection: at most one summary, handed out once.
#[derive(Debug)]
pub struct IkeParser {
    sessions: Vec<Ike>,
}

impl View for IkeParser {
    type V = Seq<Ike>;

    closed spec fn view(&self) -> Seq<Ike> {
        self.sessions@
    }
}

impl Default for IkeParser {
    fn default() -> (p: IkeParser)
        ensures
            p@.len() == 1,
            p@[0]@ == no_message(),
    {
        let mut sessions: Vec<Ike> = Vec::new();
        sessions.push(Ike::new());
        IkeParser { sessions }
    }
}

impl IkeParser {
    /// Folds the segment's payload into the summary. A segment without payload, or whose
    /// payload cannot be read, is skipped, and so is one that comes after the summary was
    /// handed out.
    pub fn parse(&mut self, pdu: &L4Pdu) -> (r: ParseResult)
        ensures
            final(self)@.len() == old(self)@.len(),
            forall|i: int| 1 <= i < old(self)@.len() ==> final(self)@[i] == old(self)@[i],
            match pdu.payload() {
                Some(data) if data.len() > 0 && old(self)@.len() > 0 => {
                    let nat_t = nat_t_port(pdu.ctxt.dst.port, pdu.ctxt.src.port);
                    &&& r == update_result(data, nat_t)
                    &&& final(self)@[0]@ == summary_after(old(self)@[0]@, data, nat_t)
                },
                _ => r == ParseResult::Skipped && final(self)@ == old(self)@,
            },
    {
        let offset: usize = pdu.offset();
        let length: usize = pdu.length();
        if length == 0 {
            return ParseResult::Skipped;
        }
        let on_nat_t_port = pdu.ctxt.dst.port == IKE_NAT_T_PORT || pdu.ctxt.src.port
            == IKE_NAT_T_PORT;
        match pdu.mbuf_ref().get_data_slice(offset, length) {
            Ok(data) => {
                if self.sessions.len() > 0 {
                    return self.sessions[0].update(data, on_nat_t_port);
                }
                ParseResult::Skipped
            },
            Err(_) => ParseResult::Skipped,
        }
    }

    /// Probes the segment's payload.
    pub fn probe(&self, pdu: &L4Pdu) -> (r: ProbeResult)
        ensures
            r == (if pdu.ctxt.length < IKE_HEADER_LEN {
                ProbeResult::Unsure
            } else {
                match pdu.payload() {
                    Some(data) => probe_result(
                        data,
                        known_port(pdu.ctxt.dst.port, pdu.ctxt.src.port),
                        nat_t_port(pdu.ctxt.dst.port, pdu.ctxt.src.port),
                    ),
                    None => ProbeResult::Error,
                }
            }),
    {
        let offset: usize = pdu.offset();
        let length: usize = pdu.length();
        if length < IKE_HEADER_LEN {
            return ProbeResult::Unsure;
        }
        let dst_port: u16 = pdu.ctxt.dst.port;
        let src_port: u16 = pdu.ctxt.src.port;
        let on_nat_t_port = dst_port == IKE_NAT_T_PORT || src_port == IKE_NAT_T_PORT;
        let on_known_port = on_nat_t_port || dst_port == IKE_PORT || src_port == IKE_PORT;
        match pdu.mbuf.get_data_slice(offset, length) {
            Ok(data) => classify_probe(data, on_known_port, on_nat_t_port),
            Err(_) => ProbeResult::Error,
        }
    }

    /// Hands out the most recent summary.
    pub fn remove_session(&mut self, _session_id: usize) -> (r: Option<Session>)
        ensures
            match r {
                Some(s) => {
                    &&& old(self)@.len() > 0
                    &&& s.id == 0
                    &&& s.data == SessionData::Ike(Box::new(old(self)@.last()))
                    &&& final(self)@ == old(self)@.drop_last()
                },
                None => old(self)@.len() == 0 && final(self)@ == old(self)@,
            },
    {
        match self.sessions.pop() {
            Some(ike) => Some(Session { data: SessionData::Ike(Box::new(ike)), id: 0 }),
            None => None,
        }
    }

    /// Hands out every summary, in order.
    pub fn drain_sessions(&mut self) -> (r: Vec<Session>)
        ensures
            final(self)@.len() == 0,
            r@.len() == old(self)@.len(),
            forall|i: int|
                0 <= i < r@.len() ==> (#[trigger] r@[i]).id == 0 && r@[i].data
                    == SessionData::Ike(Box::new(old(self)@[i])),
    {
        let mut out: Vec<Session> = Vec::new();
        let ghost all = self.sessions@;
        while self.sessions.len() > 0
            invariant
                out@.len() + self.sessions@.len() == all.len(),
                self.sessions@ == all.skip(out@.len() as int),
                forall|i: int|
                    0 <= i < out@.len() ==> (#[trigger] out@[i]).id == 0 && out@[i].data
                        == SessionData::Ike(Box::new(all[i])),
            decreases self.sessions@.len(),
        {
            let ike = self.sessions.remove(0);
            out.push(Session { data: SessionData::Ike(Box::new(ike)), id: 0 });
            assert(self.sessions@ =~= all.skip(out@.len() as int));
        }
        out
    }

    /// Exactly one summary is produced per connection, so no further sessions are
    /// expected.
    pub fn session_parsed_state(&self) -> (s: ParsingState)
        ensures
            s == ParsingState::Stop,
    {
        ParsingState::Stop
    }

    /// There is no application-layer body to offset into.
    pub fn body_offset(&mut self) -> (r: Option<usize>)
        ensures
            r is None,
            final(self)@ == old(self)@,
    {
        None
    }
}

} // verus!
