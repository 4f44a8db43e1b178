//! WireGuard message-type parsing.
//!
//! WireGuard message payloads are encrypted, so only the message type of each packet is
//! identified: its message-type byte, its reserved bytes and its overall length.

use crate::conntrack::pdu::L4Pdu;
use crate::protocols::{ParseResult, ParsingState, ProbeResult, Session, SessionData};
use vstd::prelude::*;

verus! {

pub const MSG_TYPE_HANDSHAKE_INITIATION: u8 = 1;

pub const MSG_TYPE_HANDSHAKE_RESPONSE: u8 = 2;

pub const MSG_TYPE_COOKIE_REPLY: u8 = 3;

pub const MSG_TYPE_TRANSPORT_DATA: u8 = 4;

pub const HANDSHAKE_INITIATION_LEN: usize = 148;

pub const HANDSHAKE_RESPONSE_LEN: usize = 92;

pub const COOKIE_REPLY_LEN: usize = 64;

/// A 4-byte header, a 4-byte receiver index, an 8-byte counter and a 16-byte tag.
pub const TRANSPORT_DATA_MIN_LEN: usize = 32;

/// The four WireGuard message types.
#[derive(Debug, Clone, Copy, PartialEq, Eq, Structural)]
pub enum WireGuardMessageType {
    HandshakeInitiation,
    HandshakeResponse,
    CookieReply,
    TransportData,
}

/// `data` is a message of type `t`: it has that type's number, zeroed reserved bytes, and
/// that type's exact length, or, for transport data, at least its minimum length.
pub open spec fn is_message(data: Seq<u8>, t: WireGuardMessageType) -> bool {
    &&& data.len() >= 4
    &&& data[1] == 0 && data[2] == 0 && data[3] == 0
    &&& match t {
        WireGuardMessageType::HandshakeInitiation => data[0] == MSG_TYPE_HANDSHAKE_INITIATION
            && data.len() == HANDSHAKE_INITIATION_LEN,
        WireGuardMessageType::HandshakeResponse => data[0] == MSG_TYPE_HANDSHAKE_RESPONSE
            && data.len() == HANDSHAKE_RESPONSE_LEN,
        WireGuardMessageType::CookieReply => data[0] == MSG_TYPE_COOKIE_REPLY && data.len()
            == COOKIE_REPLY_LEN,
        WireGuardMessageType::TransportData => data[0] == MSG_TYPE_TRANSPORT_DATA && data.len()
            >= TRANSPORT_DATA_MIN_LEN,
    }
}

/// The type of the message that `data` is, if it is one.
pub open spec fn message_of(data: Seq<u8>) -> Option<WireGuardMessageType> {
    if is_message(data, WireGuardMessageType::HandshakeInitiation) {
        Some(WireGuardMessageType::HandshakeInitiation)
    } else if is_message(data, WireGuardMessageType::HandshakeResponse) {
        Some(WireGuardMessageType::HandshakeResponse)
    } else if is_message(data, WireGuardMessageType::CookieReply) {
        Some(WireGuardMessageType::CookieReply)
    } else if is_message(data, WireGuardMessageType::TransportData) {
        Some(WireGuardMessageType::TransportData)
    } else {
        None
    }
}

/// A packet is a message of at most one type, and it is classified as that type.
pub proof fn law_message_type_is_unique(data: Seq<u8>, t: WireGuardMessageType)
    ensures
        is_message(data, t) <==> message_of(data) == Some(t),
{
}

/// Classifies `data` as a WireGuard message type. Returns `None` if `data` does not
/// structurally match any WireGuard message.
pub fn classify_message(data: &[u8]) -> (r: Option<WireGuardMessageType>)
    ensures
        r == message_of(data@),
{
    if data.len() < 4 || data[1] != 0 || data[2] != 0 || data[3] != 0 {
        return None;
    }
    let kind: u8 = data[0];
    if kind == MSG_TYPE_HANDSHAKE_INITIATION && data.len() == HANDSHAKE_INITIATION_LEN {
        Some(WireGuardMessageType::HandshakeInitiation)
    } else if kind == MSG_TYPE_HANDSHAKE_RESPONSE && data.len() == HANDSHAKE_RESPONSE_LEN {
        Some(WireGuardMessageType::HandshakeResponse)
    } else if kind == MSG_TYPE_COOKIE_REPLY && data.len() == COOKIE_REPLY_LEN {
        Some(WireGuardMessageType::CookieReply)
    } else if kind == MSG_TYPE_TRANSPORT_DATA && data.len() >= TRANSPORT_DATA_MIN_LEN {
        Some(WireGuardMessageType::TransportData)
    } else {
        None
    }
}

/// Parsed WireGuard connection summary. It describes the opening of a tunnel: the session
/// is delivered on the handshake response, or on the first transport data of a tunnel
/// picked up mid-stream.
#[derive(Debug, Clone, Copy, PartialEq, Eq, Structural)]
pub struct WireGuard {
    /// `true` if a Handshake Initiation message was observed.
    pub handshake_initiation_seen: bool,
    /// `true` if a Handshake Response message was observed.
    pub handshake_response_seen: bool,
    /// `true` if a Cookie Reply message was observed.
    pub cookie_reply_seen: bool,
    /// `true` if a Transport Data message was observed.
    pub transport_data_seen: bool,
    /// Number of Transport Data messages observed.
    pub transport_data_count: u64,
    /// Message type of the most recent message, which is the one that completed header
    /// parsing when the session is delivered.
    pub message_type: Option<WireGuardMessageType>,
    /// Offset of the most recent message's body, until it is taken.
    pub last_body_offset: Option<usize>,
}

/// The summary of a connection on which no message was parsed.
pub open spec fn no_message() -> WireGuard {
    WireGuard {
        handshake_initiation_seen: false,
        handshake_response_seen: false,
        cookie_reply_seen: false,
        transport_data_seen: false,
        transport_data_count: 0,
        message_type: None,
        last_body_offset: None,
    }
}

/// The summary after a message of type `t`.
pub open spec fn summary_with(before: WireGuard, t: WireGuardMessageType) -> WireGuard {
    let after = WireGuard { message_type: Some(t), ..before };
    match t {
        WireGuardMessageType::HandshakeInitiation => WireGuard {
            handshake_initiation_seen: true,
            ..after
        },
        WireGuardMessageType::HandshakeResponse => WireGuard {
            handshake_response_seen: true,
            ..after
        },
        WireGuardMessageType::CookieReply => WireGuard { cookie_reply_seen: true, ..after },
        WireGuardMessageType::TransportData => WireGuard {
            transport_data_seen: true,
            transport_data_count: (before.transport_data_count + 1) as u64,
            ..after
        },
    }
}

/// The summary after a packet.
pub open spec fn summary_after(before: WireGuard, data: Seq<u8>) -> WireGuard {
    match message_of(data) {
        Some(t) => summary_with(before, t),
        None => before,
    }
}

/// The message completes header parsing: it is the first handshake response, or the first
/// transport data where no response was seen.
pub open spec fn completes_headers(before: WireGuard, t: WireGuardMessageType) -> bool {
    !before.handshake_response_seen && (t == WireGuardMessageType::HandshakeResponse || (t
        == WireGuardMessageType::TransportData && !before.transport_data_seen))
}

/// What parsing a packet concludes.
pub open spec fn update_result(before: WireGuard, data: Seq<u8>) -> ParseResult {
    match message_of(data) {
        None => ParseResult::Skipped,
        Some(t) => if completes_headers(before, t) {
            ParseResult::HeadersDone(0)
        } else {
            ParseResult::Continue(0)
        },
    }
}

/// Once a handshake response has been seen, header parsing never completes again.
pub proof fn law_headers_complete_once(before: WireGuard, first: Seq<u8>, second: Seq<u8>)
    requires
        message_of(first) == Some(WireGuardMessageType::HandshakeResponse),
    ensures
        !(update_result(summary_after(before, first), second) is HeadersDone),
{
}

/// What a summary has seen, it has seen for good.
pub proof fn law_observations_are_permanent(before: WireGuard, data: Seq<u8>)
    ensures
        ({
            let after = summary_after(before, data);
            &&& before.handshake_initiation_seen ==> after.handshake_initiation_seen
            &&& before.handshake_response_seen ==> after.handshake_response_seen
            &&& before.cookie_reply_seen ==> after.cookie_reply_seen
            &&& before.transport_data_seen ==> after.transport_data_seen
        }),
{
}

impl WireGuard {
    pub fn new() -> (w: WireGuard)
        ensures
            w == no_message(),
    {
        WireGuard {
            handshake_initiation_seen: false,
            handshake_response_seen: false,
            cookie_reply_seen: false,
            transport_data_seen: false,
            transport_data_count: 0,
            message_type: None,
            last_body_offset: None,
        }
    }

    /// Classifies `data` and updates the summary. Returns `HeadersDone` the first time the
    /// handshake completes (or, absent an observed handshake, on the first Transport Data
    /// message), and `Continue` otherwise.
    pub fn update(&mut self, data: &[u8]) -> (r: ParseResult)
        requires
            old(self).transport_data_count < u64::MAX,
        ensures
            r == update_result(*old(self), data@),
            *final(self) == summary_after(*old(self), data@),
    {
        match classify_message(data) {
            None => ParseResult::Skipped,
            Some(msg_type) => {
                let response_seen = self.handshake_response_seen;
                let data_seen = self.transport_data_seen;
                match msg_type {
                    WireGuardMessageType::HandshakeInitiation => {
                        self.handshake_initiation_seen = true;
                    },
                    WireGuardMessageType::HandshakeResponse => {
                        self.handshake_response_seen = true;
                    },
                    WireGuardMessageType::CookieReply => {
                        self.cookie_reply_seen = true;
                    },
                    WireGuardMessageType::TransportData => {
                        self.transport_data_seen = true;
                        self.transport_data_count = self.transport_data_count + 1;
                    },
                }
                self.message_type = Some(msg_type);
                if !response_seen && (self.handshake_response_seen || (msg_type
                    == WireGuardMessageType::TransportData && !data_seen)) {
                    ParseResult::HeadersDone(0)
                } else {
                    ParseResult::Continue(0)
                }
            },
        }
    }

    /// Returns the message type of the packet that completed header parsing, if any.
    pub fn message_type(&self) -> (r: Option<WireGuardMessageType>)
        ensures
            r == self.message_type,
    {
        self.message_type
    }

    /// Returns `true` if both a Handshake Initiation and a Handshake Response were
    /// observed on this connection.
    pub fn handshake_complete(&self) -> (b: bool)
        ensures
            b == (self.handshake_initiation_seen && self.handshake_response_seen),
    {
        self.handshake_initiation_seen && self.handshake_response_seen
    }

    /// Returns `true` if a Transport Data message was observed.
    pub fn transport_data_seen(&self) -> (b: bool)
        ensures
            b == self.transport_data_seen,
    {
        self.transport_data_seen
    }
}

/// Parser state of one connection: at most one summary, handed out once.
#[derive(Debug)]
pub struct WireGuardParser {
    sessions: Vec<WireGuard>,
}

impl View for WireGuardParser {
    type V = Seq<WireGuard>;

    closed spec fn view(&self) -> Seq<WireGuard> {
        self.sessions@
    }
}

impl Default for WireGuardParser {
    fn default() -> (p: WireGuardParser)
        ensures
            p@ == seq![no_message()],
    {
        let mut sessions: Vec<WireGuard> = Vec::new();
        sessions.push(WireGuard::new());
        WireGuardParser { sessions }
    }
}

impl WireGuardParser {
    /// Folds the segment's payload into the summary. A segment without payload, or whose
    /// payload cannot be read, is skipped, and so is one that comes after the summary was
    /// handed out.
    pub fn parse(&mut self, pdu: &L4Pdu) -> (r: ParseResult)
        requires
            forall|i: int|
                0 <= i < old(self)@.len() ==> (#[trigger] old(self)@[i]).transport_data_count
                    < u64::MAX,
        ensures
            match pdu.payload() {
                Some(data) if data.len() > 0 && old(self)@.len() > 0 => {
                    &&& r == update_result(old(self)@[0], data)
                    &&& final(self)@ == old(self)@.update(0, summary_after(old(self)@[0], data))
                },
                _ => r == ParseResult::Skipped && final(self)@ == old(self)@,
            },
    {
        let offset: usize = pdu.offset();
        let length: usize = pdu.length();
        if length == 0 {
            return ParseResult::Skipped;
        }
        match pdu.mbuf_ref().get_data_slice(offset, length) {
            Ok(data) => {
                if self.sessions.len() > 0 {
                    assert(old(self)@[0].transport_data_count < u64::MAX);
                    return self.sessions[0].update(data);
                }
                ParseResult::Skipped
            },
            Err(_) => ParseResult::Skipped,
        }
    }

    /// Probes the segment's payload.
    pub fn probe(&self, pdu: &L4Pdu) -> (r: ProbeResult)
        ensures
            r == (if pdu.ctxt.length < 4 {
                ProbeResult::Unsure
            } else {
                match pdu.payload() {
                    Some(data) => if message_of(data) is Some {
                        ProbeResult::Certain
                    } else {
                        ProbeResult::NotForUs
                    },
                    None => ProbeResult::Error,
                }
            }),
    {
        let offset: usize = pdu.offset();
        let length: usize = pdu.length();
        if length < 4 {
            return ProbeResult::Unsure;
        }
        match pdu.mbuf.get_data_slice(offset, length) {
            Ok(data) => match classify_message(data) {
                Some(_) => ProbeResult::Certain,
                None => ProbeResult::NotForUs,
            },
            Err(_) => ProbeResult::Error,
        }
    }

    /// Hands out the most recent summary.
    pub fn remove_session(&mut self, _session_id: usize) -> (r: Option<Session>)
        ensures
            match r {
                Some(s) => {
                    &&& old(self)@.len() > 0
                    &&& s.id == 0
                    &&& s.data == SessionData::Wireguard(Box::new(old(self)@.last()))
                    &&& final(self)@ == old(self)@.drop_last()
                },
                None => old(self)@.len() == 0 && final(self)@ == old(self)@,
            },
    {
        match self.sessions.pop() {
            Some(wg) => Some(Session { data: SessionData::Wireguard(Box::new(wg)), id: 0 }),
            None => None,
        }
    }

    /// Hands out every summary, in order.
    pub fn drain_sessions(&mut self) -> (r: Vec<Session>)
        ensures
            final(self)@.len() == 0,
            r@.len() == old(self)@.len(),
            forall|i: int|
                0 <= i < r@.len() ==> (#[trigger] r@[i]).id == 0 && r@[i].data
                    == SessionData::Wireguard(Box::new(old(self)@[i])),
    {
        let mut out: Vec<Session> = Vec::new();
        let ghost all = self.sessions@;
        while self.sessions.len() > 0
            invariant
                out@.len() + self.sessions@.len() == all.len(),
                self.sessions@ == all.skip(out@.len() as int),
                forall|i: int|
                    0 <= i < out@.len() ==> (#[trigger] out@[i]).id == 0 && out@[i].data
                        == SessionData::Wireguard(Box::new(all[i])),
            decreases self.sessions@.len(),
        {
            let wg = self.sessions.remove(0);
            out.push(Session { data: SessionData::Wireguard(Box::new(wg)), id: 0 });
            assert(self.sessions@ =~= all.skip(out@.len() as int));
        }
        out
    }

    /// Connections keep emitting transport data for the life of the tunnel, so parsing
    /// continues rather than stopping after the handshake.
    pub fn session_parsed_state(&self) -> (s: ParsingState)
        ensures
            s == ParsingState::Parsing,
    {
        ParsingState::Parsing
    }

    /// Takes the body offset of the most recent session.
    pub fn body_offset(&mut self) -> (r: Option<usize>)
        ensures
            if old(self)@.len() > 0 {
                &&& r == old(self)@.last().last_body_offset
                &&& final(self)@ == old(self)@.update(
                    old(self)@.len() - 1,
                    WireGuard { last_body_offset: None, ..old(self)@.last() },
                )
            } else {
                r is None && final(self)@ == old(self)@
            },
    {
        let n: usize = self.sessions.len();
        if n > 0 {
            let offset = self.sessions[n - 1].last_body_offset;
            self.sessions[n - 1].last_body_offset = None;
            offset
        } else {
            None
        }
    }
}

} // verus!
