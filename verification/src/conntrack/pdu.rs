//! Transport-layer protocol data units.

use crate::conntrack::tcp::TCP_PROTOCOL;
use crate::time::Instant;
use crate::wire::{be128, be16, be32, read_be128, read_be16, read_be32};
use vstd::prelude::*;

verus! {

/// A network address, as a number in host byte order.
#[derive(Debug, Clone, Copy, PartialEq, Eq, Structural)]
pub enum IpAddr {
    V4(u32),
    V6(u128),
}

/// A network address and a port.
#[derive(Debug, Clone, Copy, PartialEq, Eq, Structural)]
pub struct SocketAddr {
    pub ip: IpAddr,
    pub port: u16,
}

/// Why a frame or a part of it could not be read.
#[derive(Debug, Clone, Copy, PartialEq, Eq, Structural)]
pub enum PacketParseError {
    InvalidProtocol,
    InvalidRead,
}

/// A captured frame, link-layer header included.
#[derive(Debug, Clone)]
pub struct Mbuf {
    pub data: Vec<u8>,
}

/// The `count` bytes of `data` that start at `offset`, where they lie inside it.
pub open spec fn slice_at(data: Seq<u8>, offset: int, count: int) -> Option<Seq<u8>> {
    if 0 <= offset < data.len() && offset + count <= data.len() {
        Some(data.subrange(offset, offset + count))
    } else {
        None
    }
}

impl View for Mbuf {
    type V = Seq<u8>;

    open spec fn view(&self) -> Seq<u8> {
        self.data@
    }
}

impl Mbuf {
    pub fn from_bytes(data: Vec<u8>) -> (m: Mbuf)
        ensures
            m@ == data@,
    {
        Mbuf { data }
    }

    /// Length of the frame in bytes.
    pub fn data_len(&self) -> (n: usize)
        ensures
            n == self@.len(),
    {
        self.data.len()
    }

    /// Reads `count` bytes at `offset`. Fails if `offset` is not inside the frame or
    /// the bytes run past its end.
    pub fn get_data_slice(&self, offset: usize, count: usize) -> (r: Result<&[u8], PacketParseError>)
        ensures
            match r {
                Ok(s) => slice_at(self@, offset as int, count as int) == Some(s@),
                Err(e) => slice_at(self@, offset as int, count as int) is None && e
                    == PacketParseError::InvalidRead,
            },
    {
        let len: usize = self.data.len();
        if offset < len && count <= len - offset {
            Ok(vstd::slice::slice_subrange(self.data.as_slice(), offset, offset + count))
        } else {
            Err(PacketParseError::InvalidRead)
        }
    }
}

/// Parsed transport-layer context of a packet.
#[derive(Debug, Clone, Copy, PartialEq, Eq, Structural)]
pub struct L4Context {
    /// Source socket address.
    pub src: SocketAddr,
    /// Destination socket address.
    pub dst: SocketAddr,
    /// Transport protocol number.
    pub proto: usize,
    /// Offset into the frame where the payload begins. For a reassembled segment, where
    /// its *new* payload begins.
    pub offset: usize,
    /// Length of the payload in bytes.
    pub length: usize,
    /// Raw sequence number of the segment.
    pub seq_no: u32,
    /// Raw acknowledgment number of the segment.
    pub ack_no: u32,
    /// TCP flags.
    pub flags: u8,
    /// True if the packet has been reassembled, with corresponding possible updates to
    /// `offset`.
    pub reassembled: bool,
    /// Offset of the application-layer body into the payload, if the segment has one.
    pub app_offset: Option<usize>,
    /// Number of stream bytes permanently lost immediately before this segment's payload.
    pub gap_before: u32,
    /// This is the first segment observed in its direction, and the start of that
    /// direction's stream was never seen.
    pub stream_start_unknown: bool,
}

/// The endpoints of a connection, named by who opened it, and its transport protocol.
#[derive(Debug, Clone, Copy, PartialEq, Eq, Structural)]
pub struct FiveTuple {
    /// Originator.
    pub orig: SocketAddr,
    /// Responder.
    pub resp: SocketAddr,
    /// Transport protocol number.
    pub proto: usize,
}

impl FiveTuple {
    /// The five-tuple of a connection with a packet that travels from originator to
    /// responder, or, if `dir` is false, the other way.
    pub open spec fn of(ctxt: L4Context, dir: bool) -> FiveTuple {
        if dir {
            FiveTuple { orig: ctxt.src, resp: ctxt.dst, proto: ctxt.proto }
        } else {
            FiveTuple { orig: ctxt.dst, resp: ctxt.src, proto: ctxt.proto }
        }
    }

    pub fn from_ctxt(ctxt: &L4Context, dir: bool) -> (t: FiveTuple)
        ensures
            t == FiveTuple::of(*ctxt, dir),
    {
        if dir {
            FiveTuple { orig: ctxt.src, resp: ctxt.dst, proto: ctxt.proto }
        } else {
            FiveTuple { orig: ctxt.dst, resp: ctxt.src, proto: ctxt.proto }
        }
    }
}

pub const ETHERTYPE_IPV4: u16 = 0x0800;

pub const ETHERTYPE_IPV6: u16 = 0x86DD;

pub const ETHERTYPE_VLAN: u16 = 0x8100;

pub const ETHERTYPE_QINQ: u16 = 0x88A8;

pub const ETHERNET_HEADER_LEN: usize = 14;

pub const IPV4_MIN_HEADER_LEN: usize = 20;

pub const IPV6_HEADER_LEN: usize = 40;

pub const TCP_MIN_HEADER_LEN: usize = 20;

pub const UDP_HEADER_LEN: usize = 8;

/// Transport protocol number of UDP.
pub const UDP_PROTOCOL: usize = 17;

/// Length of the link-layer header, VLAN tags included.
pub open spec fn link_header_len(data: Seq<u8>) -> int {
    if be16(data, 12) == ETHERTYPE_VLAN {
        18
    } else if be16(data, 12) == ETHERTYPE_QINQ {
        22
    } else {
        ETHERNET_HEADER_LEN as int
    }
}

/// The network protocol of a frame: the link-layer header's last two bytes.
pub open spec fn ethertype(data: Seq<u8>) -> int {
    be16(data, link_header_len(data) - 2)
}

/// What the network-layer header says about the packet in it.
pub struct NetworkHeader {
    pub src: IpAddr,
    pub dst: IpAddr,
    /// Transport protocol number.
    pub proto: int,
    /// Offset of the transport-layer header.
    pub next: int,
    /// Bytes that the header says follow it.
    pub payload_len: int,
}

/// The IPv4 header at `off`. A fragment other than the first holds no transport header.
pub open spec fn ipv4_header(data: Seq<u8>, off: int) -> Option<NetworkHeader> {
    if off + IPV4_MIN_HEADER_LEN <= data.len() && be16(data, off + 6) % 0x2000 == 0 {
        let header_len = data[off] % 16 * 4;
        Some(
            NetworkHeader {
                src: IpAddr::V4(be32(data, off + 12) as u32),
                dst: IpAddr::V4(be32(data, off + 16) as u32),
                proto: data[off + 9] as int,
                next: off + header_len,
                payload_len: be16(data, off + 2) - header_len,
            },
        )
    } else {
        None
    }
}

/// The IPv6 header at `off`.
pub open spec fn ipv6_header(data: Seq<u8>, off: int) -> Option<NetworkHeader> {
    if off + IPV6_HEADER_LEN <= data.len() {
        Some(
            NetworkHeader {
                src: IpAddr::V6(be128(data, off + 8) as u128),
                dst: IpAddr::V6(be128(data, off + 24) as u128),
                proto: data[off + 6] as int,
                next: off + IPV6_HEADER_LEN,
                payload_len: be16(data, off + 4),
            },
        )
    } else {
        None
    }
}

/// The network-layer header of a frame.
pub open spec fn network_header(data: Seq<u8>) -> Option<NetworkHeader> {
    if data.len() < ETHERNET_HEADER_LEN || data.len() < link_header_len(data) {
        None
    } else if ethertype(data) == ETHERTYPE_IPV4 {
        ipv4_header(data, link_header_len(data))
    } else if ethertype(data) == ETHERTYPE_IPV6 {
        ipv6_header(data, link_header_len(data))
    } else {
        None
    }
}

/// The context of a transport-layer packet, with nothing reassembled yet.
pub open spec fn fresh_context(
    net: NetworkHeader,
    src_port: int,
    dst_port: int,
    header_len: int,
    seq_no: int,
    ack_no: int,
    flags: u8,
) -> Result<L4Context, PacketParseError> {
    if net.payload_len < header_len {
        Err(PacketParseError::InvalidRead)
    } else {
        Ok(
            L4Context {
                src: SocketAddr { ip: net.src, port: src_port as u16 },
                dst: SocketAddr { ip: net.dst, port: dst_port as u16 },
                proto: net.proto as usize,
                offset: (net.next + header_len) as usize,
                length: (net.payload_len - header_len) as usize,
                seq_no: seq_no as u32,
                ack_no: ack_no as u32,
                flags,
                reassembled: false,
                app_offset: None,
                gap_before: 0,
                stream_start_unknown: false,
            },
        )
    }
}

/// The transport-layer context of a frame. Its payload length is what the network-layer
/// header leaves after the transport-layer header.
pub open spec fn l4_context(data: Seq<u8>) -> Result<L4Context, PacketParseError> {
    match network_header(data) {
        None => Err(PacketParseError::InvalidProtocol),
        Some(net) => {
            let t = net.next;
            if net.proto == TCP_PROTOCOL && t + TCP_MIN_HEADER_LEN <= data.len() {
                fresh_context(
                    net,
                    be16(data, t),
                    be16(data, t + 2),
                    data[t + 12] / 16 * 4,
                    be32(data, t + 4),
                    be32(data, t + 8),
                    data[t + 13],
                )
            } else if net.proto == UDP_PROTOCOL && t + UDP_HEADER_LEN <= data.len() {
                fresh_context(
                    net,
                    be16(data, t),
                    be16(data, t + 2),
                    UDP_HEADER_LEN as int,
                    0,
                    0,
                    0,
                )
            } else {
                Err(PacketParseError::InvalidProtocol)
            }
        },
    }
}

/// A network-layer header that was read: addresses, protocol, offset of what follows, and
/// the packet's length with and without the header.
struct NetworkFields {
    src: IpAddr,
    dst: IpAddr,
    proto: usize,
    next: usize,
    total_len: usize,
    header_len: usize,
}

/// Reads the network-layer header of a frame.
fn read_network_header(data: &[u8]) -> (r: Option<NetworkFields>)
    ensures
        match r {
            Some(f) => {
                &&& network_header(data@) == Some(
                    NetworkHeader {
                        src: f.src,
                        dst: f.dst,
                        proto: f.proto as int,
                        next: f.next as int,
                        payload_len: f.total_len - f.header_len,
                    },
                )
                &&& f.total_len <= 0xFFFF
                &&& f.header_len <= 60
                &&& f.next <= 82
            },
            None => network_header(data@) is None,
        },
{
    let len: usize = data.len();
    if len < ETHERNET_HEADER_LEN {
        return None;
    }
    let outer: u16 = read_be16(data, 12);
    let off: usize = if outer == ETHERTYPE_VLAN {
        18
    } else if outer == ETHERTYPE_QINQ {
        22
    } else {
        ETHERNET_HEADER_LEN
    };
    if len < off {
        return None;
    }
    let kind: u16 = read_be16(data, off - 2);
    if kind == ETHERTYPE_IPV4 {
        if len - off < IPV4_MIN_HEADER_LEN || read_be16(data, off + 6) % 0x2000 != 0 {
            return None;
        }
        let header_len: usize = data[off] as usize % 16 * 4;
        Some(
            NetworkFields {
                src: IpAddr::V4(read_be32(data, off + 12)),
                dst: IpAddr::V4(read_be32(data, off + 16)),
                proto: data[off + 9] as usize,
                next: off + header_len,
                total_len: read_be16(data, off + 2) as usize,
                header_len,
            },
        )
    } else if kind == ETHERTYPE_IPV6 {
        if len - off < IPV6_HEADER_LEN {
            return None;
        }
        Some(
            NetworkFields {
                src: IpAddr::V6(read_be128(data, off + 8)),
                dst: IpAddr::V6(read_be128(data, off + 24)),
                proto: data[off + 6] as usize,
                next: off + IPV6_HEADER_LEN,
                total_len: read_be16(data, off + 4) as usize,
                header_len: 0,
            },
        )
    } else {
        None
    }
}

impl L4Context {
    /// Reads the transport-layer context of a frame. Fails with `InvalidProtocol` if no TCP
    /// or UDP header can be found in it, and with `InvalidRead` if its lengths contradict
    /// each other.
    pub fn new(mbuf: &Mbuf) -> (r: Result<L4Context, PacketParseError>)
        ensures
            r == l4_context(mbuf@),
    {
        let data = mbuf.data.as_slice();
        let len: usize = data.len();
        let net = match read_network_header(data) {
            Some(net) => net,
            None => {
                return Err(PacketParseError::InvalidProtocol);
            },
        };
        let t: usize = net.next;
        let is_tcp = net.proto == TCP_PROTOCOL && len >= t + TCP_MIN_HEADER_LEN;
        let is_udp = net.proto == UDP_PROTOCOL && len >= t + UDP_HEADER_LEN;
        if !is_tcp && !is_udp {
            return Err(PacketParseError::InvalidProtocol);
        }
        let header_len: usize = if is_tcp {
            data[t + 12] as usize / 16 * 4
        } else {
            UDP_HEADER_LEN
        };
        match net.total_len.checked_sub(net.header_len + header_len) {
            None => Err(PacketParseError::InvalidRead),
            Some(payload_size) => Ok(
                L4Context {
                    src: SocketAddr { ip: net.src, port: read_be16(data, t) },
                    dst: SocketAddr { ip: net.dst, port: read_be16(data, t + 2) },
                    proto: net.proto,
                    offset: t + header_len,
                    length: payload_size,
                    seq_no: if is_tcp {
                        read_be32(data, t + 4)
                    } else {
                        0
                    },
                    ack_no: if is_tcp {
                        read_be32(data, t + 8)
                    } else {
                        0
                    },
                    flags: if is_tcp {
                        data[t + 13]
                    } else {
                        0
                    },
                    reassembled: false,
                    app_offset: None,
                    gap_before: 0,
                    stream_start_unknown: false,
                },
            ),
        }
    }
}

/// The receive window that a frame advertises, if it holds a TCP header.
pub open spec fn tcp_window(data: Seq<u8>) -> Option<u16> {
    match network_header(data) {
        Some(net) if net.proto == TCP_PROTOCOL && net.next + TCP_MIN_HEADER_LEN <= data.len() =>
            Some(be16(data, net.next + 14) as u16),
        _ => None,
    }
}

/// Reads the receive window that a frame advertises.
pub fn read_tcp_window(mbuf: &Mbuf) -> (r: Option<u16>)
    ensures
        r == tcp_window(mbuf@),
{
    let data = mbuf.data.as_slice();
    match read_network_header(data) {
        Some(net) => {
            if net.proto == TCP_PROTOCOL && data.len() >= net.next + TCP_MIN_HEADER_LEN {
                Some(read_be16(data, net.next + 14))
            } else {
                None
            }
        },
        None => None,
    }
}

/// The payload that a context describes follows the headers, and the context of a TCP or
/// UDP packet can always be handed to reassembly.
pub proof fn law_context_lengths_are_small(data: Seq<u8>)
    ensures
        l4_context(data) matches Ok(c) ==> {
            &&& c.length <= 0xFFFF
            &&& c.offset <= 0xFF
            &&& c.proto == TCP_PROTOCOL || c.proto == UDP_PROTOCOL
            &&& !c.reassembled && c.gap_before == 0 && !c.stream_start_unknown
        },
{
}

/// Transport-layer protocol data unit for stream reassembly and application-layer
/// protocol parsing.
#[derive(Debug, Clone)]
pub struct L4Pdu {
    /// The frame.
    pub mbuf: Mbuf,
    /// Transport-layer context.
    pub ctxt: L4Context,
    /// `true` if the segment travels from originator to responder.
    pub dir: bool,
    /// Time at which the segment was observed.
    pub ts: Instant,
}

impl L4Pdu {
    /// The payload bytes, where the context places them inside the frame.
    pub open spec fn payload(&self) -> Option<Seq<u8>> {
        slice_at(self.mbuf@, self.ctxt.offset as int, self.ctxt.length as int)
    }

    pub fn new(mbuf: Mbuf, ctxt: L4Context, dir: bool, ts: Instant) -> (pdu: L4Pdu)
        ensures
            pdu == (L4Pdu { mbuf, ctxt, dir, ts }),
    {
        L4Pdu { mbuf, ctxt, dir, ts }
    }

    pub fn mbuf_own(self) -> (m: Mbuf)
        ensures
            m == self.mbuf,
    {
        self.mbuf
    }

    pub fn mbuf_ref(&self) -> (m: &Mbuf)
        ensures
            m == self.mbuf,
    {
        &self.mbuf
    }

    pub fn offset(&self) -> (n: usize)
        ensures
            n == self.ctxt.offset,
    {
        self.ctxt.offset
    }

    pub fn app_body_offset(&self) -> (n: Option<usize>)
        ensures
            n == self.ctxt.app_offset,
    {
        self.ctxt.app_offset
    }

    /// Leaves the segment with nothing to deliver: its payload is empty and lies at the
    /// end of the frame.
    pub fn mark_no_payload(&mut self)
        ensures
            final(self).mbuf == old(self).mbuf,
            final(self).dir == old(self).dir,
            final(self).ts == old(self).ts,
            final(self).ctxt == (L4Context {
                offset: old(self).mbuf@.len() as usize,
                length: 0,
                ..old(self).ctxt
            }),
    {
        self.ctxt.offset = self.mbuf.data_len();
        self.ctxt.length = 0;
    }

    pub fn length(&self) -> (n: usize)
        ensures
            n == self.ctxt.length,
    {
        self.ctxt.length
    }

    /// Number of stream bytes that were permanently lost immediately before this
    /// segment's payload. `0` for a segment that is contiguous with the previous one.
    pub fn gap_before(&self) -> (n: u32)
        ensures
            n == self.ctxt.gap_before,
    {
        self.ctxt.gap_before
    }

    /// Whether this is the first segment seen in its direction on a stream whose
    /// beginning was never observed, so an unknown number of bytes precede it.
    pub fn stream_start_unknown(&self) -> (b: bool)
        ensures
            b == self.ctxt.stream_start_unknown,
    {
        self.ctxt.stream_start_unknown
    }

    pub fn seq_no(&self) -> (n: u32)
        ensures
            n == self.ctxt.seq_no,
    {
        self.ctxt.seq_no
    }

    pub fn ack_no(&self) -> (n: u32)
        ensures
            n == self.ctxt.ack_no,
    {
        self.ctxt.ack_no
    }

    pub fn flags(&self) -> (n: u8)
        ensures
            n == self.ctxt.flags,
    {
        self.ctxt.flags
    }
}

} // verus!
