//! What is read of CAPWAP messages, in terms of how they are written.

use crate::protocols::capwap::{
    after_header, channel_from_ports, classify_probe, control_header, optional_field,
    parse_control_header, parse_transport_header, radio_mac_field, stated_header_len,
    summary_after, transport_header, update_result, wireless_info_field, Capwap, Channel,
    ControlHeaderFields, MsgType, TransportHeader, TransportHeaderFields,
};
use crate::protocols::{ParseResult, ProbeResult};
use crate::wire::{be16, be16_bytes, be32_bytes};
use vstd::prelude::*;

verus! {

/// What a sender puts into a transport header (RFC 5415, section 4.3).
pub struct Header {
    /// The payload is protected by DTLS.
    pub dtls: bool,
    pub rid: u8,
    pub wbid: u8,
    pub payload_type: u8,
    pub is_fragment: bool,
    pub last_fragment: bool,
    pub keep_alive: bool,
    pub fragment_id: u16,
    pub fragment_offset: u16,
    pub radio_mac: Option<Seq<u8>>,
    pub wireless_info: Option<Seq<u8>>,
}

pub open spec fn bit(b: bool) -> int {
    if b {
        1
    } else {
        0
    }
}

/// A field after its length, padded to a multiple of four bytes.
pub open spec fn padded_field(v: Seq<u8>) -> Seq<u8> {
    seq![v.len() as u8] + v + Seq::new(((4 - (1 + v.len()) % 4) % 4) as nat, |i: int| 0u8)
}

pub open spec fn optional_bytes(v: Option<Seq<u8>>) -> Seq<u8> {
    match v {
        Some(v) => padded_field(v),
        None => Seq::empty(),
    }
}

impl Header {
    pub open spec fn fields(self) -> Seq<u8> {
        optional_bytes(self.radio_mac) + optional_bytes(self.wireless_info)
    }

    /// The length in words of four bytes.
    pub open spec fn words(self) -> int {
        2int + self.fields().len() / 4
    }

    pub open spec fn wf(self) -> bool {
        &&& self.rid < 32
        &&& self.wbid < 32
        &&& self.payload_type < 2
        &&& self.fragment_offset < 0x2000
        &&& self.words() < 32
        &&& self.radio_mac matches Some(v) ==> v.len() < 0x100
        &&& self.wireless_info matches Some(v) ==> v.len() < 0x100
    }

    pub open spec fn fixed(self) -> Seq<u8> {
        seq![
            bit(self.dtls) as u8,
            (self.words() * 8 + self.rid / 4) as u8,
            (self.rid % 4 * 64 + self.wbid * 2 + self.payload_type) as u8,
            (bit(self.is_fragment) * 128 + bit(self.last_fragment) * 64 + bit(
                self.wireless_info is Some,
            ) * 32 + bit(self.radio_mac is Some) * 16 + bit(self.keep_alive) * 8) as u8,
        ] + be16_bytes(self.fragment_id as int) + be16_bytes(self.fragment_offset * 8)
    }

    #[verifier::opaque]
    pub open spec fn bytes(self) -> Seq<u8> {
        self.fixed() + self.fields()
    }
}

proof fn lemma_padded(v: Seq<u8>)
    ensures
        padded_field(v).len() == (1int + v.len() + 3) / 4 * 4,
        padded_field(v).len() % 4 == 0,
        padded_field(v).len() > v.len(),
{
}

/// The length of a field stands before it, and its padding after it.
proof fn lemma_field(data: Seq<u8>, pos: int, header_len: int, v: Seq<u8>)
    requires
        0 <= pos,
        v.len() < 0x100,
        pos + padded_field(v).len() <= header_len <= data.len(),
        data.subrange(pos, pos + padded_field(v).len()) == padded_field(v),
    ensures
        optional_field(data, pos, header_len) == Some((v, pos + padded_field(v).len())),
{
    lemma_padded(v);
    let p = padded_field(v);
    let part = data.subrange(pos, pos + p.len());
    assert(part[0] == v.len() as u8);
    assert(data[pos] == part[0]);
    assert(data.subrange(pos + 1, pos + 1 + v.len()) =~= v) by {
        assert forall|k: int| 0 <= k < v.len() implies data[pos + 1 + k] == v[k] by {
            assert(part[1 + k] == p[1 + k]);
        }
    }
}

/// What the first four bytes of a header hold.
proof fn lemma_bits(b1: u8, b2: u8, hlen: u8, rid: u8, wbid: u8, kind: u8)
    requires
        hlen < 32,
        rid < 32,
        wbid < 32,
        kind < 2,
        b1 == hlen * 8 + rid / 4,
        b2 == rid % 4 * 64 + wbid * 2 + kind,
    ensures
        b1 >> 3 == hlen,
        ((b1 & 0x07) << 2) | (b2 >> 6) == rid,
        (b2 >> 1) & 0x1F == wbid,
        b2 & 0x01 == kind,
{
    assert(b1 >> 3 == hlen && ((b1 & 0x07) << 2) | (b2 >> 6) == rid && (b2 >> 1) & 0x1F == wbid
        && b2 & 0x01 == kind) by (bit_vector)
        requires
            hlen < 32,
            rid < 32,
            wbid < 32,
            kind < 2,
            b1 == hlen * 8 + rid / 4,
            b2 == rid % 4 * 64 + wbid * 2 + kind,
    ;
}

proof fn lemma_flags(b: u8, f: u8, l: u8, w: u8, m: u8, k: u8)
    requires
        f < 2 && l < 2 && w < 2 && m < 2 && k < 2,
        b == f * 128 + l * 64 + w * 32 + m * 16 + k * 8,
    ensures
        (b & 0x80 != 0) == (f == 1),
        (b & 0x40 != 0) == (l == 1),
        (b & 0x20 != 0) == (w == 1),
        (b & 0x10 != 0) == (m == 1),
        (b & 0x08 != 0) == (k == 1),
        b & 0x07 == 0,
{
    assert((b & 0x80 != 0) == (f == 1) && (b & 0x40 != 0) == (l == 1) && (b & 0x20 != 0) == (w
        == 1) && (b & 0x10 != 0) == (m == 1) && (b & 0x08 != 0) == (k == 1) && b & 0x07 == 0)
        by (bit_vector)
        requires
            f < 2 && l < 2 && w < 2 && m < 2 && k < 2,
            b == f * 128 + l * 64 + w * 32 + m * 16 + k * 8,
    ;
}

proof fn lemma_offset(n: u16, v: u16)
    requires
        n < 0x2000,
        v == n * 8,
    ensures
        v & 0x07 == 0,
        v >> 3 == n,
{
    assert(v & 0x07 == 0 && v >> 3 == n) by (bit_vector)
        requires
            n < 0x2000,
            v == n * 8,
    ;
}

proof fn lemma_first(b: u8)
    requires
        b < 2,
    ensures
        b >> 4 == 0,
        b & 0x0F == b,
{
    assert(b >> 4 == 0 && b & 0x0F == b) by (bit_vector)
        requires
            b < 2,
    ;
}

/// What stands where in the bytes of a header.
#[verifier::opaque]
spec fn layout(h: Header, data: Seq<u8>) -> bool {
    let mac = optional_bytes(h.radio_mac);
    let info = optional_bytes(h.wireless_info);
    let at = 8int + mac.len();
    &&& data.len() >= at + info.len()
    &&& data[0] == bit(h.dtls)
    &&& data[1] == h.words() * 8 + h.rid / 4
    &&& data[2] == h.rid % 4 * 64 + h.wbid * 2 + h.payload_type
    &&& data[3] == bit(h.is_fragment) * 128 + bit(h.last_fragment) * 64 + bit(
        h.wireless_info is Some,
    ) * 32 + bit(h.radio_mac is Some) * 16 + bit(h.keep_alive) * 8
    &&& be16(data, 4) == h.fragment_id
    &&& be16(data, 6) == h.fragment_offset * 8
    &&& data.subrange(8, at) == mac
    &&& data.subrange(at, at + info.len()) == info
}

proof fn lemma_layout(h: Header, data: Seq<u8>, rest: Seq<u8>)
    requires
        h.wf(),
        data == h.bytes() + rest,
    ensures
        layout(h, data),
        h.bytes().len() == h.words() * 4,
{
    reveal(layout);
    reveal(Header::bytes);
    let b = h.fixed();
    let mac = optional_bytes(h.radio_mac);
    let info = optional_bytes(h.wireless_info);
    if let Some(v) = h.radio_mac {
        lemma_padded(v);
    }
    if let Some(v) = h.wireless_info {
        lemma_padded(v);
    }
    let i = be16_bytes(h.fragment_id as int);
    let o = be16_bytes(h.fragment_offset * 8);
    assert(b.len() == 8);
    assert(forall|k: int| 0 <= k < 8 ==> data[k] == b[k]);
    assert(b[4] == i[0] && b[5] == i[1] && b[6] == o[0] && b[7] == o[1]);
    let at = 8int + mac.len();
    assert(data.subrange(8, at) =~= mac);
    assert(data.subrange(at, at + info.len()) =~= info);
}

proof fn lemma_header(h: Header, data: Seq<u8>)
    requires
        h.wf(),
        layout(h, data),
        data.len() >= h.words() * 4,
    ensures
        transport_header(data) == Some(
            TransportHeader {
                version: 0,
                preamble_type: bit(h.dtls) as u8,
                hlen: h.words() as u8,
                header_len: (h.words() * 4) as usize,
                rid: h.rid,
                wbid: h.wbid,
                payload_type: h.payload_type,
                is_fragment: h.is_fragment,
                last_fragment: h.last_fragment,
                keep_alive: h.keep_alive,
                fragment_id: h.fragment_id,
                fragment_offset: h.fragment_offset,
                radio_mac: h.radio_mac,
                wireless_info: h.wireless_info,
            },
        ),
{
    reveal(layout);
    let mac = optional_bytes(h.radio_mac);
    let info = optional_bytes(h.wireless_info);
    lemma_first(data[0]);
    lemma_bits(data[1], data[2], h.words() as u8, h.rid, h.wbid, h.payload_type);
    lemma_flags(
        data[3],
        bit(h.is_fragment) as u8,
        bit(h.last_fragment) as u8,
        bit(h.wireless_info is Some) as u8,
        bit(h.radio_mac is Some) as u8,
        bit(h.keep_alive) as u8,
    );
    lemma_offset(h.fragment_offset, be16(data, 6) as u16);
    if let Some(v) = h.radio_mac {
        lemma_padded(v);
    }
    if let Some(v) = h.wireless_info {
        lemma_padded(v);
    }
    let len = h.words() * 4;
    assert(len == 8 + mac.len() + info.len());
    assert(stated_header_len(data) == len);
    if let Some(v) = h.radio_mac {
        lemma_field(data, 8, len, v);
        assert(radio_mac_field(data) == Some((v, 8int + mac.len())));
    }
    if let Some(v) = h.wireless_info {
        lemma_field(data, 8int + mac.len(), len, v);
        assert(wireless_info_field(data) == Some((v, len)));
    }
}

/// A transport header is read back as it was written, whatever follows it.
pub proof fn law_transport_header_is_read_back(
    h: Header,
    rest: Seq<u8>,
    data: &[u8],
    r: Option<TransportHeaderFields>,
)
    requires
        h.wf(),
        data@ == h.bytes() + rest,
        call_ensures(parse_transport_header, (data,), r),
    ensures
        r matches Some(f) && {
            &&& f.version == 0
            &&& f.preamble_type == bit(h.dtls)
            &&& f.hlen * 4 == h.bytes().len()
            &&& f.header_len == h.bytes().len()
            &&& f.rid == h.rid
            &&& f.wbid == h.wbid
            &&& f.payload_type == h.payload_type
            &&& f.is_fragment == h.is_fragment
            &&& f.last_fragment == h.last_fragment
            &&& f.keep_alive == h.keep_alive
            &&& f.fragment_id == h.fragment_id
            &&& f.fragment_offset == h.fragment_offset
            &&& match f.radio_mac {
                Some(v) => h.radio_mac == Some(v@),
                None => h.radio_mac is None,
            }
            &&& match f.wireless_info {
                Some(v) => h.wireless_info == Some(v@),
                None => h.wireless_info is None,
            }
        },
{
    lemma_layout(h, data@, rest);
    lemma_header(h, data@);
}

/// A control header (RFC 5415, section 4.5.1).
#[verifier::opaque]
pub open spec fn control_bytes(
    vendor_id: u32,
    msg_type: u8,
    seq_num: u8,
    elements: u16,
    flags: u8,
) -> Seq<u8> {
    be32_bytes(vendor_id * 0x100 + msg_type) + seq![seq_num] + be16_bytes(elements as int) + seq![
        flags,
    ]
}

proof fn lemma_control(
    vendor_id: u32,
    msg_type: u8,
    seq_num: u8,
    elements: u16,
    flags: u8,
    data: Seq<u8>,
    rest: Seq<u8>,
)
    requires
        vendor_id < 0x100_0000,
        data == control_bytes(vendor_id, msg_type, seq_num, elements, flags) + rest,
    ensures
        data.len() == 8 + rest.len(),
        control_header(data) == Some(
            ControlHeaderFields {
                vendor_id,
                msg_type_value: (vendor_id * 0x100 + msg_type) as u32,
                msg_type_id: msg_type as u32,
                seq_num,
                msg_element_length: elements,
                flags,
            },
        ),
{
    reveal(control_bytes);
    let c = control_bytes(vendor_id, msg_type, seq_num, elements, flags);
    let t = be32_bytes(vendor_id * 0x100 + msg_type);
    let e = be16_bytes(elements as int);
    assert(c.len() == 8);
    assert(forall|k: int| 0 <= k < 8 ==> data[k] == c[k]);
    assert(c[0] == t[0] && c[1] == t[1] && c[2] == t[2] && c[3] == t[3]);
    assert(c[4] == seq_num && c[5] == e[0] && c[6] == e[1] && c[7] == flags);
}

/// A control header is read back as it was written.
pub proof fn law_control_header_is_read_back(
    vendor_id: u32,
    msg_type: u8,
    seq_num: u8,
    elements: u16,
    flags: u8,
    rest: Seq<u8>,
    data: &[u8],
    r: Option<ControlHeaderFields>,
)
    requires
        vendor_id < 0x100_0000,
        data@ == control_bytes(vendor_id, msg_type, seq_num, elements, flags) + rest,
        call_ensures(parse_control_header, (data,), r),
    ensures
        r matches Some(c) && {
            &&& c.vendor_id == vendor_id
            &&& c.msg_type_value == vendor_id * 0x100 + msg_type
            &&& c.msg_type_id == msg_type
            &&& c.seq_num == seq_num
            &&& c.msg_element_length == elements
            &&& c.flags == flags
        },
{
    lemma_control(vendor_id, msg_type, seq_num, elements, flags, data@, rest);
}

/// A message in the clear on the control channel is summarized by its own headers; a
/// Discovery message leaves the session open, any other one, and any one of a vendor,
/// ends it.
pub proof fn law_control_message_is_summarized(
    before: Capwap,
    h: Header,
    vendor_id: u32,
    msg_type: u8,
    seq_num: u8,
    elements: u16,
    flags: u8,
    rest: Seq<u8>,
    after: Capwap,
)
    requires
        h.wf(),
        !h.dtls,
        vendor_id < 0x100_0000,
        ({
            let message = h.bytes() + control_bytes(vendor_id, msg_type, seq_num, elements, flags)
                + rest;
            after@ == summary_after(before@, message, Channel::Control)
        }),
    ensures
        forall|n: u8| call_ensures(Capwap::rid, (&after,), n) ==> n == h.rid,
        forall|n: u8| call_ensures(Capwap::wbid, (&after,), n) ==> n == h.wbid,
        forall|n: u8| call_ensures(Capwap::payload_type, (&after,), n) ==> n == h.payload_type,
        forall|b: bool| call_ensures(Capwap::is_dtls, (&after,), b) ==> !b,
        forall|b: bool| call_ensures(Capwap::is_fragment, (&after,), b) ==> b == h.is_fragment,
        forall|b: bool| call_ensures(Capwap::last_fragment, (&after,), b) ==> b == h.last_fragment,
        forall|b: bool| call_ensures(Capwap::keep_alive, (&after,), b) ==> b == h.keep_alive,
        forall|n: u16| call_ensures(Capwap::fragment_id, (&after,), n) ==> n == h.fragment_id,
        forall|n: u16|
            call_ensures(Capwap::fragment_offset, (&after,), n) ==> n == h.fragment_offset,
        forall|n: u32| call_ensures(Capwap::vendor_id, (&after,), n) ==> n == vendor_id,
        forall|n: u32| call_ensures(Capwap::msg_type_id, (&after,), n) ==> n == msg_type,
        forall|n: u8| call_ensures(Capwap::seq_num, (&after,), n) ==> n == seq_num,
        forall|n: u16| call_ensures(Capwap::msg_element_length, (&after,), n) ==> n == elements,
        forall|c: Channel| call_ensures(Capwap::channel, (&after,), c) ==> c == Channel::Control,
        ({
            let message = h.bytes() + control_bytes(vendor_id, msg_type, seq_num, elements, flags)
                + rest;
            update_result(message, Channel::Control) == (if vendor_id == 0 && (msg_type == 1
                || msg_type == 2) {
                ParseResult::Continue(0)
            } else {
                ParseResult::HeadersDone(0)
            })
        }),
{
    let control = control_bytes(vendor_id, msg_type, seq_num, elements, flags);
    let message = h.bytes() + control + rest;
    assert(message =~= h.bytes() + (control + rest));
    lemma_layout(h, message, control + rest);
    lemma_header(h, message);
    lemma_control(vendor_id, msg_type, seq_num, elements, flags, control + rest, rest);
    let t = transport_header(message)->0;
    assert(after_header(message, t) =~= control + rest);
}

/// A message in the clear with a control header of the base specification is taken for
/// CAPWAP on every port, whatever the header says otherwise, as long as its elements fit.
pub proof fn law_control_messages_are_recognized(
    h: Header,
    msg_type: u8,
    seq_num: u8,
    elements: u16,
    flags: u8,
    rest: Seq<u8>,
    data: &[u8],
    on_control_port: bool,
    on_data_port: bool,
    r: ProbeResult,
)
    requires
        h.wf(),
        !h.dtls,
        data@ == h.bytes() + control_bytes(0, msg_type, seq_num, elements, flags) + rest,
        call_ensures(classify_probe, (data, on_control_port, on_data_port), r),
    ensures
        r == (if on_control_port || on_data_port || (1 <= msg_type <= 26 && elements
            <= rest.len()) {
            ProbeResult::Certain
        } else {
            ProbeResult::Unsure
        }),
{
    let control = control_bytes(0, msg_type, seq_num, elements, flags);
    assert(data@ =~= h.bytes() + (control + rest));
    lemma_layout(h, data@, control + rest);
    lemma_header(h, data@);
    lemma_control(0, msg_type, seq_num, elements, flags, control + rest, rest);
    let t = transport_header(data@)->0;
    assert(after_header(data@, t) =~= control + rest);
}

/// A message that says that it is protected by DTLS must hold a DTLS record, of version 1.0
/// or 1.2, and is then recognized by its port alone.
pub proof fn law_dtls_messages_are_recognized(
    h: Header,
    kind: u8,
    version: u16,
    rest: Seq<u8>,
    data: &[u8],
    on_control_port: bool,
    on_data_port: bool,
    r: ProbeResult,
)
    requires
        h.wf(),
        h.dtls,
        data@ == h.bytes() + seq![kind] + be16_bytes(version as int) + rest,
        call_ensures(classify_probe, (data, on_control_port, on_data_port), r),
    ensures
        r == (if !(20 <= kind <= 25 && (version == 0xFEFF || version == 0xFEFD)) {
            ProbeResult::NotForUs
        } else if on_control_port || on_data_port {
            ProbeResult::Certain
        } else {
            ProbeResult::Unsure
        }),
{
    let v = be16_bytes(version as int);
    let record = seq![kind] + v + rest;
    assert(data@ =~= h.bytes() + record);
    lemma_layout(h, data@, record);
    lemma_header(h, data@);
    let t = transport_header(data@)->0;
    assert(after_header(data@, t) =~= record);
    assert(record[0] == kind && record[1] == v[0] && record[2] == v[1]);
}

/// The channel does not depend on which side a port is on, and the control port decides
/// before the data port.
pub proof fn law_channels_go_by_port(a: u16, b: u16, c: Channel, d: Channel)
    requires
        call_ensures(channel_from_ports, (a, b), c),
        call_ensures(channel_from_ports, (b, a), d),
    ensures
        c == d,
        c == Channel::Control <==> a == 5246 || b == 5246,
        c == Channel::Data <==> (a == 5247 || b == 5247) && a != 5246 && b != 5246,
{
}

/// Requests have odd numbers and responses the even number after them, and every number of
/// the base specification has a name of its own.
pub proof fn law_message_types_are_told_by_their_numbers(a: u8, b: u8, s: MsgType, t: MsgType)
    requires
        call_ensures(MsgType::from_byte, (a,), s),
        call_ensures(MsgType::from_byte, (b,), t),
    ensures
        s == t <==> a == b,
        a == 1 <==> s == MsgType::DiscoveryRequest,
        a == 2 <==> s == MsgType::DiscoveryResponse,
        a == 3 <==> s == MsgType::JoinRequest,
        a == 4 <==> s == MsgType::JoinResponse,
        a == 5 <==> s == MsgType::ConfigurationStatusRequest,
        a == 6 <==> s == MsgType::ConfigurationStatusResponse,
        a == 7 <==> s == MsgType::ConfigurationUpdateRequest,
        a == 8 <==> s == MsgType::ConfigurationUpdateResponse,
        a == 9 <==> s == MsgType::WtpEventRequest,
        a == 10 <==> s == MsgType::WtpEventResponse,
        a == 11 <==> s == MsgType::ChangeStateEventRequest,
        a == 12 <==> s == MsgType::ChangeStateEventResponse,
        a == 13 <==> s == MsgType::EchoRequest,
        a == 14 <==> s == MsgType::EchoResponse,
        a == 15 <==> s == MsgType::ImageDataRequest,
        a == 16 <==> s == MsgType::ImageDataResponse,
        a == 17 <==> s == MsgType::ResetRequest,
        a == 18 <==> s == MsgType::ResetResponse,
        a == 19 <==> s == MsgType::PrimaryDiscoveryRequest,
        a == 20 <==> s == MsgType::PrimaryDiscoveryResponse,
        a == 21 <==> s == MsgType::DataTransferRequest,
        a == 22 <==> s == MsgType::DataTransferResponse,
        a == 23 <==> s == MsgType::ClearConfigurationRequest,
        a == 24 <==> s == MsgType::ClearConfigurationResponse,
        a == 25 <==> s == MsgType::StationConfigurationRequest,
        a == 26 <==> s == MsgType::StationConfigurationResponse,
{
}

/// Off both ports, a message in the clear is on the control channel exactly if a control
/// header of the base specification follows its transport header; on the data channel, and
/// inside DTLS, no control header is read.
pub proof fn law_channels_go_by_the_message(
    before: Capwap,
    h: Header,
    vendor_id: u32,
    msg_type: u8,
    seq_num: u8,
    elements: u16,
    flags: u8,
    rest: Seq<u8>,
    unknown: Capwap,
    data_channel: Capwap,
)
    requires
        h.wf(),
        vendor_id < 0x100_0000,
        ({
            let message = h.bytes() + control_bytes(vendor_id, msg_type, seq_num, elements, flags)
                + rest;
            &&& unknown@ == summary_after(before@, message, Channel::Unknown)
            &&& data_channel@ == summary_after(before@, message, Channel::Data)
        }),
    ensures
        ({
            let base = vendor_id == 0 && 1 <= msg_type <= 26 && elements <= rest.len();
            &&& !h.dtls ==> unknown@.channel == (if base {
                Channel::Control
            } else {
                Channel::Data
            })
            &&& unknown@.control is Some <==> !h.dtls && base
            &&& h.dtls ==> unknown@.channel == Channel::Unknown
            &&& data_channel@.channel == Channel::Data
            &&& data_channel@.control is None
            &&& data_channel@.transport.rid == h.rid
        }),
{
    let control = control_bytes(vendor_id, msg_type, seq_num, elements, flags);
    let message = h.bytes() + control + rest;
    assert(message =~= h.bytes() + (control + rest));
    lemma_layout(h, message, control + rest);
    lemma_header(h, message);
    lemma_control(vendor_id, msg_type, seq_num, elements, flags, control + rest, rest);
    let t = transport_header(message)->0;
    assert(after_header(message, t) =~= control + rest);
}

/// The type of a message is named by its number; a vendor's message never has one of the
/// names, and a message without a control header has none.
pub proof fn law_message_types_are_named(c: Capwap, t: MsgType)
    requires
        call_ensures(Capwap::msg_type, (&c,), t),
    ensures
        c@.control is None <==> t == MsgType::Absent,
        c@.control matches Some(h) ==> {
            &&& h.vendor_id != 0 ==> t is Other
            &&& h.vendor_id == 0 && h.msg_type_id == 1 ==> t == MsgType::DiscoveryRequest
            &&& h.vendor_id == 0 && h.msg_type_id == 3 ==> t == MsgType::JoinRequest
            &&& h.vendor_id == 0 && 27 <= h.msg_type_id <= 255 ==> t == MsgType::Other(
                h.msg_type_id as u8,
            )
        },
{
}

} // verus!
