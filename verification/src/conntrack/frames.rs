//! What is read of a frame, in terms of how it is written.

use crate::conntrack::pdu::{
    ethertype, ipv4_header, ipv6_header, l4_context, link_header_len, network_header,
    read_tcp_window, tcp_window, FiveTuple, IpAddr, L4Context, Mbuf, NetworkHeader,
    PacketParseError, SocketAddr,
};
use crate::wire::{
    be128, be128_bytes, be16, be16_bytes, be32, be32_bytes, law_be128_is_read_back,
};
use vstd::prelude::*;

verus! {

/// The link-layer header of a frame: the two hardware addresses, and the VLAN tags that
/// stand between them and the network protocol's number.
pub enum LinkHeader {
    Plain { addresses: Seq<u8> },
    Tagged { addresses: Seq<u8>, tag: u16 },
    DoublyTagged { addresses: Seq<u8>, outer: u16, inner: u16 },
}

impl LinkHeader {
    pub open spec fn addresses(self) -> Seq<u8> {
        match self {
            LinkHeader::Plain { addresses } => addresses,
            LinkHeader::Tagged { addresses, .. } => addresses,
            LinkHeader::DoublyTagged { addresses, .. } => addresses,
        }
    }

    pub open spec fn wf(self) -> bool {
        self.addresses().len() == 12
    }

    #[verifier::opaque]
    pub open spec fn bytes(self, kind: int) -> Seq<u8> {
        match self {
            LinkHeader::Plain { addresses } => addresses + be16_bytes(kind),
            LinkHeader::Tagged { addresses, tag } => addresses + be16_bytes(0x8100) + be16_bytes(
                tag as int,
            ) + be16_bytes(kind),
            LinkHeader::DoublyTagged { addresses, outer, inner } => addresses + be16_bytes(0x88A8)
                + be16_bytes(outer as int) + be16_bytes(0x8100) + be16_bytes(inner as int)
                + be16_bytes(kind),
        }
    }
}

/// A network-layer header.
pub enum IpHeader {
    /// RFC 791, section 3.1, of a packet that is not a later fragment.
    V4 {
        tos: u8,
        id: u16,
        flags: u8,
        ttl: u8,
        checksum: u16,
        src: u32,
        dst: u32,
        options: Seq<u8>,
    },
    /// RFC 8200, section 3; `start` is the version, traffic class and flow label.
    V6 { start: Seq<u8>, hops: u8, src6: u128, dst6: u128 },
}

impl IpHeader {
    pub open spec fn wf(self) -> bool {
        match self {
            IpHeader::V4 { flags, options, .. } => flags < 8 && options.len() <= 40
                && options.len() % 4 == 0,
            IpHeader::V6 { start, .. } => start.len() == 4,
        }
    }

    pub open spec fn kind(self) -> int {
        match self {
            IpHeader::V4 { .. } => 0x0800,
            IpHeader::V6 { .. } => 0x86DD,
        }
    }

    pub open spec fn src(self) -> IpAddr {
        match self {
            IpHeader::V4 { src, .. } => IpAddr::V4(src),
            IpHeader::V6 { src6, .. } => IpAddr::V6(src6),
        }
    }

    pub open spec fn dst(self) -> IpAddr {
        match self {
            IpHeader::V4 { dst, .. } => IpAddr::V4(dst),
            IpHeader::V6 { dst6, .. } => IpAddr::V6(dst6),
        }
    }

    pub open spec fn len(self) -> int {
        match self {
            IpHeader::V4 { options, .. } => 20int + options.len(),
            IpHeader::V6 { .. } => 40,
        }
    }

    /// The header, for `len` bytes of the transport protocol `proto`.
    #[verifier::opaque]
    pub open spec fn bytes(self, proto: u8, len: int) -> Seq<u8> {
        match self {
            IpHeader::V4 { tos, id, flags, ttl, checksum, src, dst, options } => seq![
                (0x45 + options.len() / 4) as u8,
                tos,
            ] + be16_bytes(20int + options.len() + len) + be16_bytes(id as int) + be16_bytes(
                flags * 0x2000,
            ) + seq![ttl, proto] + be16_bytes(checksum as int) + be32_bytes(src as int)
                + be32_bytes(dst as int) + options,
            IpHeader::V6 { start, hops, src6, dst6 } => start + be16_bytes(len) + seq![proto, hops]
                + be128_bytes(src6 as int) + be128_bytes(dst6 as int),
        }
    }
}

/// A TCP header (RFC 9293, section 3.1).
pub struct TcpHeader {
    pub src_port: u16,
    pub dst_port: u16,
    pub seq_no: u32,
    pub ack_no: u32,
    pub reserved: u8,
    pub flags: u8,
    pub window: u16,
    pub checksum: u16,
    pub urgent: u16,
    pub options: Seq<u8>,
}

impl TcpHeader {
    pub open spec fn wf(self) -> bool {
        self.reserved < 16 && self.options.len() <= 40 && self.options.len() % 4 == 0
    }

    #[verifier::opaque]
    pub open spec fn bytes(self) -> Seq<u8> {
        be16_bytes(self.src_port as int) + be16_bytes(self.dst_port as int) + be32_bytes(
            self.seq_no as int,
        ) + be32_bytes(self.ack_no as int) + seq![
            ((5 + self.options.len() / 4) * 16 + self.reserved) as u8,
            self.flags,
        ] + be16_bytes(self.window as int) + be16_bytes(self.checksum as int) + be16_bytes(
            self.urgent as int,
        ) + self.options
    }
}

/// A UDP header (RFC 768), for `len` bytes of payload.
#[verifier::opaque]
pub open spec fn udp_header(src_port: u16, dst_port: u16, len: int, checksum: u16) -> Seq<u8> {
    be16_bytes(src_port as int) + be16_bytes(dst_port as int) + be16_bytes(8 + len) + be16_bytes(
        checksum as int,
    )
}

/// `part` stands at `at` in `data`.
spec fn stands_at(data: Seq<u8>, at: int, part: Seq<u8>) -> bool {
    &&& 0 <= at
    &&& at + part.len() <= data.len()
    &&& forall|k: int| 0 <= k < part.len() ==> data[at + k] == #[trigger] part[k]
}

proof fn lemma_link(link: LinkHeader, kind: int, data: Seq<u8>, rest: Seq<u8>)
    requires
        link.wf(),
        kind == 0x0800 || kind == 0x86DD,
        data == link.bytes(kind) + rest,
    ensures
        data.len() >= 14,
        link_header_len(data) == link.bytes(kind).len(),
        ethertype(data) == kind,
        14 <= link.bytes(kind).len() <= 22,
{
    reveal(LinkHeader::bytes);
    let l = link.bytes(kind);
    let k = be16_bytes(kind);
    let n = l.len() as int;
    assert(l[n - 2] == k[0] && l[n - 1] == k[1]);
    assert(data[n - 2] == l[n - 2] && data[n - 1] == l[n - 1]);
    assert(data[12] == l[12] && data[13] == l[13]);
    match link {
        LinkHeader::Plain { addresses } => {
            assert(l[12] == k[0] && l[13] == k[1]);
        },
        LinkHeader::Tagged { addresses, tag } => {
            let t = be16_bytes(0x8100);
            assert(l[12] == t[0] && l[13] == t[1]);
        },
        LinkHeader::DoublyTagged { addresses, outer, inner } => {
            let t = be16_bytes(0x88A8);
            assert(l[12] == t[0] && l[13] == t[1]);
        },
    }
}

proof fn lemma_ipv4(h: IpHeader, proto: u8, len: int, data: Seq<u8>, at: int)
    requires
        h.wf(),
        h is V4,
        0 <= len,
        len + h.len() < 0x1_0000,
        stands_at(data, at, h.bytes(proto, len)),
    ensures
        ipv4_header(data, at) == Some(
            NetworkHeader {
                src: h.src(),
                dst: h.dst(),
                proto: proto as int,
                next: at + h.len(),
                payload_len: len,
            },
        ),
        h.bytes(proto, len).len() == h.len(),
{
    if let IpHeader::V4 { tos, id, flags, ttl, checksum, src, dst, options } = h {
        reveal(IpHeader::bytes);
        let b = h.bytes(proto, len);
        let l = be16_bytes(20int + options.len() + len);
        let f = be16_bytes(flags * 0x2000);
        let s = be32_bytes(src as int);
        let d = be32_bytes(dst as int);
        assert(b.len() == h.len());
        assert(b[0] == 0x45 + options.len() / 4);
        assert(b[2] == l[0] && b[3] == l[1]);
        assert(b[6] == f[0] && b[7] == f[1]);
        assert(b[9] == proto);
        assert(b[12] == s[0] && b[13] == s[1] && b[14] == s[2] && b[15] == s[3]);
        assert(b[16] == d[0] && b[17] == d[1] && b[18] == d[2] && b[19] == d[3]);
        assert(be16(data, at + 6) == flags * 0x2000);
        assert(data[at + 0] == b[0]);
        assert(data[at] % 16 * 4 == h.len());
        assert(be16(data, at + 2) == h.len() + len);
        assert(be32(data, at + 12) == src);
        assert(be32(data, at + 16) == dst);
        assert(data[at + 9] == b[9]);
    }
}

proof fn lemma_ipv6(h: IpHeader, proto: u8, len: int, data: Seq<u8>, at: int)
    requires
        h.wf(),
        h is V6,
        0 <= len < 0x1_0000,
        stands_at(data, at, h.bytes(proto, len)),
    ensures
        ipv6_header(data, at) == Some(
            NetworkHeader {
                src: h.src(),
                dst: h.dst(),
                proto: proto as int,
                next: at + h.len(),
                payload_len: len,
            },
        ),
        h.bytes(proto, len).len() == h.len(),
{
    if let IpHeader::V6 { start, hops, src6, dst6 } = h {
        reveal(IpHeader::bytes);
        let b = h.bytes(proto, len);
        let l = be16_bytes(len);
        let s = be128_bytes(src6 as int);
        let d = be128_bytes(dst6 as int);
        assert(b.len() == 40);
        assert(b[4] == l[0] && b[5] == l[1]);
        assert(b[6] == proto);
        let x = data.subrange(at + 8, at + 24);
        let y = data.subrange(at + 24, at + 40);
        assert(x =~= s) by {
            assert forall|k: int| 0 <= k < 16 implies x[k] == s[k] by {
                assert(b[8 + k] == s[k]);
            }
        }
        assert(y =~= d) by {
            assert forall|k: int| 0 <= k < 16 implies y[k] == d[k] by {
                assert(b[24 + k] == d[k]);
            }
        }
        lemma_be128_at(data, at + 8, src6);
        lemma_be128_at(data, at + 24, dst6);
        assert(data[at + 6] == b[6]);
        assert(be16(data, at + 4) == len) by {
            assert(data[at + 4] == b[4] && data[at + 5] == b[5]);
        }
    }
}

proof fn lemma_be128_split(before: Seq<u8>, part: Seq<u8>, after: Seq<u8>, n: u128)
    requires
        part == be128_bytes(n as int),
    ensures
        be128(before + part + after, before.len() as int) == n,
{
    law_be128_is_read_back(before, n as int, after);
}

proof fn lemma_be128_at(data: Seq<u8>, at: int, n: u128)
    requires
        0 <= at,
        at + 16 <= data.len(),
        data.subrange(at, at + 16) == be128_bytes(n as int),
    ensures
        be128(data, at) == n,
{
    let before = data.take(at);
    let part = data.subrange(at, at + 16);
    let after = data.skip(at + 16);
    assert(data =~= before + part + after);
    assert(before.len() == at);
    lemma_be128_split(before, part, after, n);
}

proof fn lemma_network(
    link: LinkHeader,
    ip: IpHeader,
    proto: u8,
    len: int,
    data: Seq<u8>,
    rest: Seq<u8>,
)
    requires
        link.wf(),
        ip.wf(),
        0 <= len,
        len + ip.len() < 0x1_0000,
        data == link.bytes(ip.kind()) + ip.bytes(proto, len) + rest,
    ensures
        network_header(data) == Some(
            NetworkHeader {
                src: ip.src(),
                dst: ip.dst(),
                proto: proto as int,
                next: link.bytes(ip.kind()).len() + ip.len(),
                payload_len: len,
            },
        ),
        ip.bytes(proto, len).len() == ip.len(),
        link.bytes(ip.kind()).len() <= 22,
{
    let l = link.bytes(ip.kind());
    let h = ip.bytes(proto, len);
    assert(data =~= l + (h + rest));
    lemma_link(link, ip.kind(), data, h + rest);
    lemma_stands(l, h, rest, data);
    match ip {
        IpHeader::V4 { .. } => lemma_ipv4(ip, proto, len, data, l.len() as int),
        IpHeader::V6 { .. } => lemma_ipv6(ip, proto, len, data, l.len() as int),
    }
}

proof fn lemma_stands(before: Seq<u8>, part: Seq<u8>, after: Seq<u8>, data: Seq<u8>)
    requires
        data == before + part + after,
    ensures
        stands_at(data, before.len() as int, part),
{
}

/// The transport-layer fields at `at`.
#[verifier::opaque]
spec fn tcp_layout(h: TcpHeader, data: Seq<u8>, at: int) -> bool {
    &&& at + 20 <= data.len()
    &&& be16(data, at) == h.src_port
    &&& be16(data, at + 2) == h.dst_port
    &&& be32(data, at + 4) == h.seq_no
    &&& be32(data, at + 8) == h.ack_no
    &&& data[at + 12] / 16 * 4 == 20 + h.options.len()
    &&& data[at + 13] == h.flags
    &&& be16(data, at + 14) == h.window
}

proof fn lemma_tcp(h: TcpHeader, data: Seq<u8>, at: int)
    requires
        h.wf(),
        stands_at(data, at, h.bytes()),
    ensures
        tcp_layout(h, data, at),
        h.bytes().len() == 20 + h.options.len(),
{
    reveal(tcp_layout);
    reveal(TcpHeader::bytes);
    let b = h.bytes();
    let sp = be16_bytes(h.src_port as int);
    let dp = be16_bytes(h.dst_port as int);
    let s = be32_bytes(h.seq_no as int);
    let a = be32_bytes(h.ack_no as int);
    let w = be16_bytes(h.window as int);
    assert(b[0] == sp[0] && b[1] == sp[1] && b[2] == dp[0] && b[3] == dp[1]);
    assert(b[4] == s[0] && b[5] == s[1] && b[6] == s[2] && b[7] == s[3]);
    assert(b[8] == a[0] && b[9] == a[1] && b[10] == a[2] && b[11] == a[3]);
    assert(b[12] == (5 + h.options.len() / 4) * 16 + h.reserved);
    assert(b[13] == h.flags && b[14] == w[0] && b[15] == w[1]);
    assert(data[at + 0] == b[0]);
    assert(data[at + 12] == b[12]);
}

proof fn lemma_tcp_context(
    net: NetworkHeader,
    h: TcpHeader,
    data: Seq<u8>,
)
    requires
        network_header(data) == Some(net),
        net.proto == 6,
        tcp_layout(h, data, net.next),
        0 <= net.next < 1000,
        20 + h.options.len() <= net.payload_len < 0x1_0000,
    ensures
        l4_context(data) == Ok::<L4Context, PacketParseError>(
            L4Context {
                src: SocketAddr { ip: net.src, port: h.src_port },
                dst: SocketAddr { ip: net.dst, port: h.dst_port },
                proto: 6,
                offset: (net.next + 20 + h.options.len()) as usize,
                length: (net.payload_len - 20 - h.options.len()) as usize,
                seq_no: h.seq_no,
                ack_no: h.ack_no,
                flags: h.flags,
                reassembled: false,
                app_offset: None,
                gap_before: 0,
                stream_start_unknown: false,
            },
        ),
        tcp_window(data) == Some(h.window),
{
    reveal(tcp_layout);
}

/// A frame that holds a TCP segment is read back as it was written, however many VLAN tags
/// and options it has, and whatever pads it: the addresses and ports of both sides, the
/// numbers and flags, the window, and where in the frame the payload stands.
pub proof fn law_tcp_frame_is_read_back(
    link: LinkHeader,
    ip: IpHeader,
    h: TcpHeader,
    payload: Seq<u8>,
    padding: Seq<u8>,
    mbuf: &Mbuf,
    r: Result<L4Context, PacketParseError>,
    window: Option<u16>,
)
    requires
        link.wf(),
        ip.wf(),
        h.wf(),
        ip.len() + h.bytes().len() + payload.len() < 0x1_0000,
        mbuf@ == link.bytes(ip.kind()) + ip.bytes(6, (h.bytes().len() + payload.len()) as int)
            + h.bytes() + payload + padding,
        call_ensures(L4Context::new, (mbuf,), r),
        call_ensures(read_tcp_window, (mbuf,), window),
    ensures
        r matches Ok(c) && {
            &&& c.src.ip == ip.src() && c.src.port == h.src_port
            &&& c.dst.ip == ip.dst() && c.dst.port == h.dst_port
            &&& c.proto == 6
            &&& c.seq_no == h.seq_no
            &&& c.ack_no == h.ack_no
            &&& c.flags == h.flags
            &&& c.offset + c.length <= mbuf@.len()
            &&& mbuf@.subrange(c.offset as int, c.offset + c.length) == payload
            &&& !c.reassembled && c.gap_before == 0 && !c.stream_start_unknown
            &&& c.app_offset is None
        },
        window == Some(h.window),
{
    let data = mbuf@;
    let len = (h.bytes().len() + payload.len()) as int;
    let l = link.bytes(ip.kind());
    let n = ip.bytes(6, len);
    let t = h.bytes();
    assert(data =~= l + n + (t + payload + padding));
    lemma_network(link, ip, 6, len, data, t + payload + padding);
    assert(data =~= (l + n) + t + (payload + padding));
    lemma_stands(l + n, t, payload + padding, data);
    let at = (l + n).len() as int;
    lemma_tcp(h, data, at);
    let net = network_header(data)->0;
    assert(net.next == at);
    lemma_tcp_context(net, h, data);
    let start = at + t.len();
    assert(data.subrange(start, start + payload.len()) =~= payload);
}

proof fn lemma_udp(
    src_port: u16,
    dst_port: u16,
    len: int,
    checksum: u16,
    data: Seq<u8>,
    at: int,
)
    requires
        stands_at(data, at, udp_header(src_port, dst_port, len, checksum)),
    ensures
        udp_header(src_port, dst_port, len, checksum).len() == 8,
        be16(data, at) == src_port,
        be16(data, at + 2) == dst_port,
{
    reveal(udp_header);
    let t = udp_header(src_port, dst_port, len, checksum);
    let sp = be16_bytes(src_port as int);
    let dp = be16_bytes(dst_port as int);
    assert(t[0] == sp[0] && t[1] == sp[1] && t[2] == dp[0] && t[3] == dp[1]);
    assert(data[at + 0] == t[0]);
}

proof fn lemma_udp_context(
    net: NetworkHeader,
    src_port: u16,
    dst_port: u16,
    data: Seq<u8>,
)
    requires
        network_header(data) == Some(net),
        net.proto == 17,
        0 <= net.next < 1000,
        net.next + 8 <= data.len(),
        be16(data, net.next) == src_port,
        be16(data, net.next + 2) == dst_port,
        8 <= net.payload_len < 0x1_0000,
    ensures
        l4_context(data) == Ok::<L4Context, PacketParseError>(
            L4Context {
                src: SocketAddr { ip: net.src, port: src_port },
                dst: SocketAddr { ip: net.dst, port: dst_port },
                proto: 17,
                offset: (net.next + 8) as usize,
                length: (net.payload_len - 8) as usize,
                seq_no: 0,
                ack_no: 0,
                flags: 0,
                reassembled: false,
                app_offset: None,
                gap_before: 0,
                stream_start_unknown: false,
            },
        ),
        tcp_window(data) is None,
{
}

/// A frame that holds a UDP datagram is read back as it was written.
pub proof fn law_udp_frame_is_read_back(
    link: LinkHeader,
    ip: IpHeader,
    src_port: u16,
    dst_port: u16,
    checksum: u16,
    payload: Seq<u8>,
    padding: Seq<u8>,
    mbuf: &Mbuf,
    r: Result<L4Context, PacketParseError>,
    window: Option<u16>,
)
    requires
        link.wf(),
        ip.wf(),
        ip.len() + 8 + payload.len() < 0x1_0000,
        mbuf@ == link.bytes(ip.kind()) + ip.bytes(17, 8int + payload.len()) + udp_header(
            src_port,
            dst_port,
            payload.len() as int,
            checksum,
        ) + payload + padding,
        call_ensures(L4Context::new, (mbuf,), r),
        call_ensures(read_tcp_window, (mbuf,), window),
    ensures
        r matches Ok(c) && {
            &&& c.src.ip == ip.src() && c.src.port == src_port
            &&& c.dst.ip == ip.dst() && c.dst.port == dst_port
            &&& c.proto == 17
            &&& c.seq_no == 0 && c.ack_no == 0 && c.flags == 0
            &&& c.offset + c.length <= mbuf@.len()
            &&& mbuf@.subrange(c.offset as int, c.offset + c.length) == payload
            &&& !c.reassembled && c.gap_before == 0 && !c.stream_start_unknown
            &&& c.app_offset is None
        },
        window is None,
{
    let data = mbuf@;
    let len = 8int + payload.len();
    let l = link.bytes(ip.kind());
    let n = ip.bytes(17, len);
    let t = udp_header(src_port, dst_port, payload.len() as int, checksum);
    assert(data =~= l + n + (t + payload + padding));
    lemma_network(link, ip, 17, len, data, t + payload + padding);
    assert(data =~= (l + n) + t + (payload + padding));
    let at = (l + n).len() as int;
    lemma_stands(l + n, t, payload + padding, data);
    lemma_udp(src_port, dst_port, payload.len() as int, checksum, data, at);
    let net = network_header(data)->0;
    assert(net.next == at);
    lemma_udp_context(net, src_port, dst_port, data);
    let start = at + 8;
    assert(data.subrange(start, start + payload.len()) =~= payload);
}

/// A later fragment of an IPv4 packet holds no transport-layer header.
pub proof fn law_later_fragments_are_refused(
    link: LinkHeader,
    packet: Seq<u8>,
    fragment: u16,
    mbuf: &Mbuf,
    r: Result<L4Context, PacketParseError>,
)
    requires
        link.wf(),
        packet.len() >= 20,
        0 < fragment < 0x2000,
        packet.subrange(6, 8) == be16_bytes(fragment as int),
        mbuf@ == link.bytes(0x0800) + packet,
        call_ensures(L4Context::new, (mbuf,), r),
    ensures
        r == Err::<L4Context, PacketParseError>(PacketParseError::InvalidProtocol),
{
    let data = mbuf@;
    lemma_link(link, 0x0800, data, packet);
    let at = link.bytes(0x0800).len() as int;
    let f = be16_bytes(fragment as int);
    assert(packet.subrange(6, 8)[0] == f[0] && packet.subrange(6, 8)[1] == f[1]);
    assert(data[at + 6] == f[0] && data[at + 7] == f[1]);
    assert(be16(data, at + 6) == fragment);
}

/// A connection has the same five-tuple whichever of its packets it is taken from: the
/// originator is the source of a packet to the responder, and the destination of one back.
pub proof fn law_five_tuple_is_that_of_the_connection(
    there: L4Context,
    back: L4Context,
    a: FiveTuple,
    b: FiveTuple,
)
    requires
        back.src == there.dst,
        back.dst == there.src,
        back.proto == there.proto,
        call_ensures(FiveTuple::from_ctxt, (&there, true), a),
        call_ensures(FiveTuple::from_ctxt, (&back, false), b),
    ensures
        a == b,
        a.orig == there.src,
        a.resp == there.dst,
        a.proto == there.proto,
{
}

} // verus!
