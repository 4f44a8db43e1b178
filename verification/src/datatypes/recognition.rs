//! What the heuristics recognize, in terms of how packets are written.

use crate::conntrack::pdu::L4Pdu;
use crate::datatypes::maybe_iperf3::MaybeIperf3;
use crate::datatypes::maybe_quic::{classify, is_quic_port, MaybeQuic, Shape, QUIC_PORTS};
use crate::datatypes::maybe_tls::{record_at, records_from};
use crate::datatypes::maybe_zoom::{is_zoom_payload, MaybeZoom, ZOOM_FIRST_BYTES};
use crate::protocols::quic::QuicVersion;
use crate::protocols::quic_encoding::{long_first, version_number};
use crate::protocols::tls_encoding::record_header;
use crate::subscription::FilterResult;
use crate::wire::{be16, be16_bytes, be32_bytes, law_be32_is_read_back};
use vstd::prelude::*;

verus! {

/// A long header counts as evidence of QUIC exactly if its version is a known one or greased,
/// and not that of a negotiation; a short header if its fixed bit is set; without it, if the
/// datagram is long enough to hold a protected packet.
pub proof fn law_quic_shapes_are_told_by_the_header(
    fixed: bool,
    type_bits: int,
    low: int,
    version: u32,
    rest: Seq<u8>,
    long: &[u8],
    s: Shape,
    short: &[u8],
    t: Shape,
)
    requires
        0 <= type_bits < 4,
        0 <= low < 16,
        long@ == seq![long_first(fixed, type_bits, low)] + be32_bytes(version as int) + rest,
        call_ensures(classify, (long,), s),
        short@.len() > 0,
        short@[0] < 0x80,
        call_ensures(classify, (short,), t),
    ensures
        s == (if version != 0 && (version_number(QuicVersion::of(version)) is Some
            || QuicVersion::of(version) == QuicVersion::Greased) {
            Shape::LongHeader
        } else {
            Shape::Other
        }),
        t == (if short@[0] >= 0x40 {
            Shape::ShortHeader
        } else if short@.len() >= 1 + 4 + 16 {
            Shape::GreasedShortHeader
        } else {
            Shape::Other
        }),
{
    let first = long_first(fixed, type_bits, low);
    law_be32_is_read_back(seq![first], version as int, rest);
    assert(long@[0] == first);
}

/// QUIC is expected on four ports.
pub proof fn law_quic_ports(port: u16, b: bool)
    requires
        call_ensures(is_quic_port, (port,), b),
    ensures
        b <==> port == 443 || port == 853 || port == 4433 || port == 8443,
{
    assert(QUIC_PORTS@ =~= seq![443u16, 853, 4433, 8443]);
    let s = seq![443u16, 853, 4433, 8443];
    assert(s[0] == 443 && s[1] == 853 && s[2] == 4433 && s[3] == 8443);
}

/// At the end of its window a vote is won exactly if at least nine in ten packets matched, with
/// a packet among them that is unambiguous, and with enough in their headers that differs.
pub proof fn law_quic_vote_goes_by_the_fraction(f: MaybeQuic, r: FilterResult, ok: bool)
    requires
        f.wf(),
        f.seen == 12,
        call_ensures(MaybeQuic::decide, (&f,), r),
        call_ensures(MaybeQuic::header_entropy_ok, (&f,), ok),
    ensures
        r == FilterResult::Accept <==> ok && f.quic_like > 0 && (f.quic_like + f.greased) * 10
            >= f.seen * 9,
        r != FilterResult::Continue,
{
}

/// A Zoom payload is told by its first byte.
pub proof fn law_zoom_payloads_are_told_by_the_first_byte(payload: &[u8], b: bool)
    requires
        call_ensures(is_zoom_payload, (payload,), b),
    ensures
        b <==> payload@.len() > 0 && (payload@[0] == 3 || payload@[0] == 4 || payload@[0] == 5
            || payload@[0] == 7),
{
    assert(ZOOM_FIRST_BYTES@ =~= seq![3u8, 4, 5, 7]);
    let s = seq![3u8, 4, 5, 7];
    assert(s[0] == 3 && s[1] == 4 && s[2] == 5 && s[3] == 7);
}

/// At the end of its window a vote is won exactly if at least nineteen in twenty packets
/// matched; the end of the connection decides by the same fraction.
pub proof fn law_zoom_vote_goes_by_the_fraction(f: MaybeZoom, r: FilterResult, end: FilterResult)
    requires
        f.wf(),
        call_ensures(MaybeZoom::decide, (&f,), r),
        call_ensures(MaybeZoom::terminated, (&f,), end),
    ensures
        f.seen == 30 ==> (r == FilterResult::Accept <==> f.matched * 20 >= f.seen * 19),
        f.seen >= 30 ==> r != FilterResult::Continue,
        end == FilterResult::Accept <==> f.seen >= 30 && f.matched * 20 >= f.seen * 19,
        end != FilterResult::Continue,
{
}

/// Off Zoom's ports nothing is counted, and the connection is given up; on them, whichever
/// side they are on, every packet with payload is counted, and those with the mark match.
pub proof fn law_zoom_counts_packets_on_its_ports(pdu: L4Pdu, data: Seq<u8>)
    requires
        pdu.ctxt.length > 0,
        pdu.payload() == Some(data),
    ensures
        forall|f: &mut MaybeZoom, r: FilterResult| #[trigger]
            call_ensures(MaybeZoom::update, (f, &pdu), r) && (*f).seen < 1000 && (*f).matched
                <= (*f).seen ==> {
                let on_port = pdu.ctxt.proto == 17 && (8801 <= pdu.ctxt.src.port <= 8810 || 8801
                    <= pdu.ctxt.dst.port <= 8810);
                &&& !on_port ==> r == FilterResult::Drop && (*final(f)) == (*f)
                &&& on_port ==> (*final(f)).seen == (*f).seen + 1
            },
{
}

/// The header of an iperf3 datagram: seconds, microseconds and a counter.
pub open spec fn iperf3_header(sec: u32, usec: u32, counter: u32) -> Seq<u8> {
    be32_bytes(sec as int) + be32_bytes(usec as int) + be32_bytes(counter as int)
}

/// A datagram matches exactly if its microseconds are below one million, whatever its seconds
/// are; its counter is then compared with that of the last one that matched.
pub proof fn law_iperf3_headers_are_recognized(
    f: MaybeIperf3,
    sec: u32,
    usec: u32,
    counter: u32,
    rest: Seq<u8>,
)
    requires
        f.matched <= f.seen < 1000,
    ensures
        ({
            let after = f.recorded_udp(iperf3_header(sec, usec, counter) + rest);
            &&& after.seen == f.seen + 1
            &&& usec < 1_000_000 ==> after.matched == f.matched + 1 && after.last_seq == Some(
                counter,
            ) && after.increasing_seen == (f.increasing_seen || (f.last_seq is Some && counter
                > f.last_seq->0))
            &&& usec >= 1_000_000 ==> after == (MaybeIperf3 { seen: after.seen, ..f })
        }),
{
    let data = iperf3_header(sec, usec, counter) + rest;
    let a = be32_bytes(sec as int);
    let b = be32_bytes(usec as int);
    let c = be32_bytes(counter as int);
    law_be32_is_read_back(a, usec as int, c + rest);
    assert(data =~= a + b + (c + rest));
    law_be32_is_read_back(a + b, counter as int, rest);
    assert(data =~= (a + b) + c + rest);
}

/// At the end of its window a vote over datagrams is won exactly if four in five matched and
/// the counter was seen to increase; one over segments exactly if nine in ten were large.
pub proof fn law_iperf3_votes_go_by_the_fraction(f: MaybeIperf3)
    requires
        f.wf(),
    ensures
        f.seen == 10 ==> (f.verdict_udp() == FilterResult::Accept <==> f.increasing_seen
            && f.matched * 5 >= f.seen * 4),
        f.seen == 20 ==> (f.verdict_tcp() == FilterResult::Accept <==> f.matched * 10 >= f.seen
            * 9),
        f.final_verdict_udp() == FilterResult::Accept <==> f.seen >= 5 && f.increasing_seen
            && f.matched * 5 >= f.seen * 4,
        f.final_verdict_tcp() == FilterResult::Accept <==> f.seen >= 10 && f.matched * 10
            >= f.seen * 9,
{
}

/// The header of a TLS record is found wherever it stands, and tells where the next one does:
/// its length, its own five bytes included, further on. A header with another content type,
/// another version, or a length that no record has is not taken for one.
pub proof fn law_records_are_found(
    before: Seq<u8>,
    kind: u8,
    version: u16,
    len: u16,
    rest: Seq<u8>,
)
    ensures
        record_at(before + record_header(kind, version, len) + rest, before.len() as int) == (
        if 20 <= kind <= 23 && 0x0301 <= version <= 0x0303 && 0 < len <= 16640 {
            Some(5int + len)
        } else {
            None
        }),
{
    let h = record_header(kind, version, len);
    let data = before + h + rest;
    let at = before.len() as int;
    let v = be16_bytes(version as int);
    let l = be16_bytes(len as int);
    assert(h[0] == kind && h[1] == v[0] && h[2] == v[1] && h[3] == l[0] && h[4] == l[1]);
    assert(data[at] == h[0] && data[at + 1] == h[1] && data[at + 2] == h[2]);
    assert(data[at + 3] == h[3] && data[at + 4] == h[4]);
    assert(be16(data, at + 1) == version);
    assert(be16(data, at + 3) == len);
}

/// Records that were written one after the other are found one after the other.
pub proof fn law_record_chains_are_found(
    before: Seq<u8>,
    kind: u8,
    version: u16,
    contents: Seq<u8>,
    rest: Seq<u8>,
    n: nat,
)
    requires
        20 <= kind <= 23,
        0x0301 <= version <= 0x0303,
        0 < contents.len() <= 16640,
        records_from(
            before + record_header(kind, version, contents.len() as u16) + contents + rest,
            5int + before.len() + contents.len(),
            n,
        ),
    ensures
        records_from(
            before + record_header(kind, version, contents.len() as u16) + contents + rest,
            before.len() as int,
            n + 1,
        ),
{
    let h = record_header(kind, version, contents.len() as u16);
    law_records_are_found(before, kind, version, contents.len() as u16, contents + rest);
    assert(before + h + contents + rest =~= before + h + (contents + rest));
}

} // verus!
