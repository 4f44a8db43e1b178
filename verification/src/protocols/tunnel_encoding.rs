//! What is read of IKE and WireGuard messages, in terms of how they are written.

use crate::conntrack::pdu::L4Pdu;
use crate::protocols::capwap::CapwapParser;
use crate::protocols::ike::{
    classify_probe, ike_header, known_port, nat_t_port, parse_ike_header, summary_after,
    update_result, without_marker, Ike, IkeExchangeType, IkeHeaderFields, IkeHeaderModel,
    IkeParser,
};
use crate::protocols::wireguard::{
    classify_message, WireGuard, WireGuardMessageType, WireGuardParser,
};
use crate::protocols::{wireguard, ParseResult, ProbeResult};
use crate::wire::{be32, be32_bytes};
use vstd::prelude::*;

verus! {

/// What a sender puts into an IKE header (RFC 7296, section 3.1).
pub struct IkeMessage {
    pub initiator_spi: Seq<u8>,
    pub responder_spi: Seq<u8>,
    pub next_payload: u8,
    pub major: u8,
    pub minor: u8,
    pub exchange: u8,
    /// The sender is the original initiator.
    pub initiator: bool,
    /// The sender can speak a higher version.
    pub higher_version: bool,
    /// The message answers one with the same message ID.
    pub response: bool,
    pub message_id: u32,
    pub payloads: Seq<u8>,
}

impl IkeMessage {
    pub open spec fn wf(self) -> bool {
        &&& self.initiator_spi.len() == 8
        &&& self.responder_spi.len() == 8
        &&& 1 <= self.major <= 2
        &&& self.minor < 16
        &&& self.payloads.len() + 28 < 0x1_0000_0000
    }

    pub open spec fn flags(self) -> int {
        (if self.response {
            0x20int
        } else {
            0
        }) + (if self.higher_version {
            0x10int
        } else {
            0
        }) + (if self.initiator {
            0x08int
        } else {
            0
        })
    }

    #[verifier::opaque]
    pub open spec fn bytes(self) -> Seq<u8> {
        self.initiator_spi + self.responder_spi + seq![
            self.next_payload,
            (self.major * 16 + self.minor) as u8,
            self.exchange,
            self.flags() as u8,
        ] + be32_bytes(self.message_id as int) + be32_bytes(28int + self.payloads.len())
            + self.payloads
    }
}

#[verifier::opaque]
spec fn ike_layout(m: IkeMessage, data: Seq<u8>) -> bool {
    &&& data.len() == 28 + m.payloads.len()
    &&& data.subrange(0, 8) == m.initiator_spi
    &&& data.subrange(8, 16) == m.responder_spi
    &&& data[17] == m.major * 16 + m.minor
    &&& data[18] == m.exchange
    &&& data[19] == m.flags()
    &&& be32(data, 20) == m.message_id
    &&& be32(data, 24) == data.len()
}

proof fn lemma_ike_layout(m: IkeMessage)
    requires
        m.wf(),
    ensures
        ike_layout(m, m.bytes()),
{
    reveal(ike_layout);
    reveal(IkeMessage::bytes);
    let b = m.bytes();
    let i = be32_bytes(m.message_id as int);
    let l = be32_bytes(28int + m.payloads.len());
    assert(b[17] == m.major * 16 + m.minor);
    assert(b[18] == m.exchange);
    assert(b[19] == m.flags());
    assert(b[20] == i[0] && b[21] == i[1] && b[22] == i[2] && b[23] == i[3]);
    assert(b[24] == l[0] && b[25] == l[1] && b[26] == l[2] && b[27] == l[3]);
    assert(b.subrange(0, 8) =~= m.initiator_spi);
    assert(b.subrange(8, 16) =~= m.responder_spi);
}

proof fn lemma_version_byte(b: u8, major: u8, minor: u8)
    requires
        major <= 2,
        minor < 16,
        b == major * 16 + minor,
    ensures
        b >> 4 == major,
        b & 0x0F == minor,
{
    assert(b >> 4 == major && b & 0x0F == minor) by (bit_vector)
        requires
            major <= 2,
            minor < 16,
            b == major * 16 + minor,
    ;
}

proof fn lemma_flag_byte(b: u8)
    ensures
        b == 0 ==> b & 0x08 == 0 && b & 0x20 == 0,
        b == 0x08 ==> b & 0x08 != 0 && b & 0x20 == 0,
        b == 0x10 ==> b & 0x08 == 0 && b & 0x20 == 0,
        b == 0x18 ==> b & 0x08 != 0 && b & 0x20 == 0,
        b == 0x20 ==> b & 0x08 == 0 && b & 0x20 != 0,
        b == 0x28 ==> b & 0x08 != 0 && b & 0x20 != 0,
        b == 0x30 ==> b & 0x08 == 0 && b & 0x20 != 0,
        b == 0x38 ==> b & 0x08 != 0 && b & 0x20 != 0,
{
    assert((b == 0 ==> b & 0x08 == 0 && b & 0x20 == 0) && (b == 0x08 ==> b & 0x08 != 0 && b & 0x20
        == 0) && (b == 0x10 ==> b & 0x08 == 0 && b & 0x20 == 0) && (b == 0x18 ==> b & 0x08 != 0
        && b & 0x20 == 0) && (b == 0x20 ==> b & 0x08 == 0 && b & 0x20 != 0) && (b == 0x28 ==> b
        & 0x08 != 0 && b & 0x20 != 0) && (b == 0x30 ==> b & 0x08 == 0 && b & 0x20 != 0) && (b
        == 0x38 ==> b & 0x08 != 0 && b & 0x20 != 0)) by (bit_vector);
}

proof fn lemma_ike_header(m: IkeMessage, data: Seq<u8>)
    requires
        m.wf(),
        ike_layout(m, data),
    ensures
        ike_header(data) == Some(
            IkeHeaderModel {
                initiator_spi: m.initiator_spi,
                responder_spi: m.responder_spi,
                version_major: m.major,
                version_minor: m.minor,
                exchange_type: m.exchange,
                is_initiator: m.initiator,
                is_response: m.response,
                message_id: m.message_id,
                length: data.len() as u32,
            },
        ),
        data.len() == 28 + m.payloads.len(),
{
    reveal(ike_layout);
    lemma_version_byte(data[17], m.major, m.minor);
    lemma_flag_byte(data[19]);
}

/// An IKE header is read back as it was written.
pub proof fn law_ike_header_is_read_back(
    m: IkeMessage,
    data: &[u8],
    r: Option<IkeHeaderFields>,
)
    requires
        m.wf(),
        data@ == m.bytes(),
        call_ensures(parse_ike_header, (data,), r),
    ensures
        r matches Some(f) && {
            &&& f.initiator_spi@ == m.initiator_spi
            &&& f.responder_spi@ == m.responder_spi
            &&& f.version_major == m.major
            &&& f.version_minor == m.minor
            &&& f.exchange_type == m.exchange
            &&& f.is_initiator == m.initiator
            &&& f.is_response == m.response
            &&& f.message_id == m.message_id
            &&& f.length == data@.len()
        },
{
    lemma_ike_layout(m);
    lemma_ike_header(m, data@);
}

/// The bytes in front of an IKE message: the marker, where NAT is traversed.
pub open spec fn marker(nat_t: bool) -> Seq<u8> {
    if nat_t {
        seq![0u8, 0, 0, 0]
    } else {
        Seq::empty()
    }
}

/// An IKE message is summarized by its header, with or without the marker in front of it, and
/// ends the session's headers.
pub proof fn law_ike_message_is_summarized(
    before: Ike,
    m: IkeMessage,
    nat_t: bool,
    after: Ike,
)
    requires
        m.wf(),
        after@ == summary_after(before@, marker(nat_t) + m.bytes(), nat_t),
    ensures
        after.initiator_spi@ == m.initiator_spi,
        after.responder_spi@ == m.responder_spi,
        after.version_major == m.major,
        after.version_minor == m.minor,
        after.is_initiator == m.initiator,
        after.is_response == m.response,
        after.message_id == m.message_id,
        after.exchange_type == Some(
            if m.exchange == 34 {
                IkeExchangeType::IkeSaInit
            } else if m.exchange == 35 {
                IkeExchangeType::IkeAuth
            } else if m.exchange == 36 {
                IkeExchangeType::CreateChildSa
            } else if m.exchange == 37 {
                IkeExchangeType::Informational
            } else {
                IkeExchangeType::Other(m.exchange)
            },
        ),
        forall|r: [u8; 8]|
            call_ensures(Ike::initiator_spi, (&after,), r) ==> r@ == m.initiator_spi,
        forall|r: [u8; 8]|
            call_ensures(Ike::responder_spi, (&after,), r) ==> r@ == m.responder_spi,
        forall|r: (u8, u8)|
            call_ensures(Ike::version, (&after,), r) ==> r == (m.major, m.minor),
        forall|b: bool| call_ensures(Ike::is_initiator, (&after,), b) ==> b == m.initiator,
        forall|b: bool| call_ensures(Ike::is_response, (&after,), b) ==> b == m.response,
        update_result(marker(nat_t) + m.bytes(), nat_t) == ParseResult::HeadersDone(0),
{
    lemma_ike_layout(m);
    lemma_ike_header(m, m.bytes());
    lemma_without_marker(m, nat_t);
}

proof fn lemma_without_marker(m: IkeMessage, nat_t: bool)
    requires
        m.wf(),
    ensures
        without_marker(marker(nat_t) + m.bytes(), nat_t) == m.bytes(),
{
    let data = marker(nat_t) + m.bytes();
    if nat_t {
        assert(data[0] == 0 && data[1] == 0 && data[2] == 0 && data[3] == 0);
        assert(data.skip(4) =~= m.bytes());
    } else {
        assert(data =~= m.bytes());
    }
}

/// A whole IKEv2 message is recognized on every port, and any IKE message on a known one.
pub proof fn law_ike_messages_are_recognized(
    m: IkeMessage,
    nat_t: bool,
    known: bool,
    data: &[u8],
    r: ProbeResult,
)
    requires
        m.wf(),
        data@ == marker(nat_t) + m.bytes(),
        call_ensures(classify_probe, (data, known, nat_t), r),
    ensures
        r == (if known || 34 <= m.exchange <= 37 {
            ProbeResult::Certain
        } else {
            ProbeResult::Unsure
        }),
{
    lemma_ike_layout(m);
    lemma_ike_header(m, m.bytes());
    lemma_without_marker(m, nat_t);
}

/// A WireGuard message: its type, three zero bytes, and what its type says.
pub open spec fn wireguard_bytes(kind: u8, rest: Seq<u8>) -> Seq<u8> {
    seq![kind, 0u8, 0u8, 0u8] + rest
}

/// WireGuard messages are told by their first byte, each with the length of its fields: a
/// handshake initiation has a sender, an ephemeral, a static and a timestamp, and two MACs; a
/// response has a sender, a receiver, an ephemeral, an empty box, and two MACs; a cookie reply
/// has a receiver, a nonce and a cookie; transport data has a receiver, a counter and a box
/// with its tag.
pub proof fn law_wireguard_messages_are_recognized(
    kind: u8,
    rest: Seq<u8>,
    data: &[u8],
    r: Option<WireGuardMessageType>,
)
    requires
        data@ == wireguard_bytes(kind, rest),
        call_ensures(classify_message, (data,), r),
    ensures
        r == Some(WireGuardMessageType::HandshakeInitiation) <==> kind == 1 && rest.len() == 4 + 32
            + (32 + 16) + (12 + 16) + 16 + 16,
        r == Some(WireGuardMessageType::HandshakeResponse) <==> kind == 2 && rest.len() == 4 + 4
            + 32 + 16 + 16 + 16,
        r == Some(WireGuardMessageType::CookieReply) <==> kind == 3 && rest.len() == 4 + 24 + (16
            + 16),
        r == Some(WireGuardMessageType::TransportData) <==> kind == 4 && rest.len() >= 4 + 8 + 16,
{
}

/// A packet whose reserved bytes are not zero is no WireGuard message.
pub proof fn law_reserved_bytes_are_zero(data: &[u8], r: Option<WireGuardMessageType>)
    requires
        call_ensures(classify_message, (data,), r),
        r is Some,
    ensures
        data@ == wireguard_bytes(data@[0], data@.skip(4)),
{
    assert(data@ =~= wireguard_bytes(data@[0], data@.skip(4)));
}

/// An initiation and a response, in this order, complete the handshake, and the response ends
/// the headers; transport data that follows is counted.
pub proof fn law_wireguard_handshake_completes(
    initiation: Seq<u8>,
    response: Seq<u8>,
    transport: Seq<u8>,
    w: WireGuard,
)
    requires
        initiation.len() == 144,
        response.len() == 88,
        transport.len() >= 28,
        ({
            let a = wireguard::summary_after(
                wireguard::no_message(),
                wireguard_bytes(1, initiation),
            );
            let b = wireguard::summary_after(a, wireguard_bytes(2, response));
            w == wireguard::summary_after(b, wireguard_bytes(4, transport))
        }),
    ensures
        forall|b: bool| call_ensures(WireGuard::handshake_complete, (&w,), b) ==> b,
        forall|b: bool| call_ensures(WireGuard::transport_data_seen, (&w,), b) ==> b,
        w.transport_data_count == 1,
        !w.cookie_reply_seen,
        w.message_type == Some(WireGuardMessageType::TransportData),
        ({
            let a = wireguard::summary_after(
                wireguard::no_message(),
                wireguard_bytes(1, initiation),
            );
            let b = wireguard::summary_after(a, wireguard_bytes(2, response));
            &&& wireguard::update_result(
                wireguard::no_message(),
                wireguard_bytes(1, initiation),
            ) == ParseResult::Continue(0)
            &&& wireguard::update_result(a, wireguard_bytes(2, response))
                == ParseResult::HeadersDone(0)
            &&& wireguard::update_result(b, wireguard_bytes(4, transport))
                == ParseResult::Continue(0)
        }),
{
}

/// A tunnel that is picked up mid-stream ends its headers on the first transport data, and on
/// no later one; a handshake that was begun but not answered is not complete.
pub proof fn law_wireguard_is_picked_up_mid_stream(
    before: WireGuard,
    first: Seq<u8>,
    second: Seq<u8>,
)
    requires
        !before.handshake_response_seen,
        !before.transport_data_seen,
        before.transport_data_count == 0,
        first.len() >= 28,
        second.len() >= 28,
    ensures
        ({
            let a = wireguard::summary_after(before, wireguard_bytes(4, first));
            let b = wireguard::summary_after(a, wireguard_bytes(4, second));
            &&& wireguard::update_result(before, wireguard_bytes(4, first))
                == ParseResult::HeadersDone(0)
            &&& wireguard::update_result(a, wireguard_bytes(4, second)) == ParseResult::Continue(0)
            &&& b.transport_data_count == 2
            &&& b.handshake_initiation_seen == before.handshake_initiation_seen
            &&& !b.handshake_response_seen
        }),
{
}

/// IKE is expected on two ports, on whichever side; the marker stands in front of messages on
/// one of them.
pub proof fn law_ike_ports(dst: u16, src: u16)
    ensures
        nat_t_port(dst, src) <==> dst == 4500 || src == 4500,
        known_port(dst, src) <==> dst == 4500 || src == 4500 || dst == 500 || src == 500,
{
}

/// What a probe concludes does not depend on which side a port is on.
pub proof fn law_probes_ignore_the_direction(
    capwap: CapwapParser,
    ike: IkeParser,
    a: L4Pdu,
    b: L4Pdu,
    r: ProbeResult,
    s: ProbeResult,
    t: ProbeResult,
    u: ProbeResult,
)
    requires
        b.mbuf == a.mbuf,
        b.ctxt.offset == a.ctxt.offset,
        b.ctxt.length == a.ctxt.length,
        b.ctxt.src == a.ctxt.dst,
        b.ctxt.dst == a.ctxt.src,
        call_ensures(CapwapParser::probe, (&capwap, &a), r),
        call_ensures(CapwapParser::probe, (&capwap, &b), s),
        call_ensures(IkeParser::probe, (&ike, &a), t),
        call_ensures(IkeParser::probe, (&ike, &b), u),
    ensures
        r == s,
        t == u,
{
}

/// A WireGuard message is recognized exactly if it is one of the four, on any port.
pub proof fn law_wireguard_probe_goes_by_the_message(
    p: WireGuardParser,
    pdu: L4Pdu,
    data: &[u8],
    t: Option<WireGuardMessageType>,
    r: ProbeResult,
)
    requires
        pdu.payload() == Some(data@),
        pdu.ctxt.length == data@.len(),
        data@.len() >= 4,
        call_ensures(classify_message, (data,), t),
        call_ensures(WireGuardParser::probe, (&p, &pdu), r),
    ensures
        r == ProbeResult::Certain <==> t is Some,
        r == ProbeResult::NotForUs <==> t is None,
{
}

} // verus!
