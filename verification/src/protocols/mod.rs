//! Application-layer protocol parsers.

pub mod capwap;
pub mod capwap_encoding;
pub mod ike;
pub mod quic;
pub mod quic_encoding;
pub mod ssh;
pub mod ssh_encoding;
pub mod tls;
pub mod tls_encoding;
pub mod tls_wire;
pub mod tunnel_encoding;
pub mod wireguard;

use crate::protocols::capwap::Capwap;
use crate::protocols::ike::Ike;
use crate::protocols::quic::QuicConn;
use crate::protocols::ssh::Ssh;
use crate::protocols::tls::Tls;
use crate::protocols::wireguard::WireGuard;
use vstd::prelude::*;

verus! {

/// What a parser makes of the first bytes of a connection.
#[derive(Debug, Clone, Copy, PartialEq, Eq, Structural)]
pub enum ProbeResult {
    /// The connection speaks this protocol.
    Certain,
    /// It may speak this protocol.
    Unsure,
    /// It does not speak this protocol.
    NotForUs,
    /// The packet could not be read.
    Error,
}

/// What became of a packet that was handed to a parser.
#[derive(Debug, Clone, Copy, PartialEq, Eq, Structural)]
pub enum ParseResult {
    /// The headers of the session with this identifier are complete.
    HeadersDone(usize),
    /// The packet was consumed; the session with this identifier goes on.
    Continue(usize),
    /// Nothing was done with the packet.
    Skipped,
}

/// What a parser expects next, once a session has been delivered.
#[derive(Debug, Clone, Copy, PartialEq, Eq, Structural)]
pub enum ParsingState {
    /// Unknown protocol: go on probing.
    Probing,
    /// More sessions are expected.
    Parsing,
    /// No more sessions are expected.
    Stop,
}

/// The protocol of a connection. Those below the application layer are named in filters, and
/// no parser ever finds them.
#[derive(Debug, Clone, Copy, PartialEq, Eq, Structural)]
pub enum SessionProto {
    Ipv4,
    Ipv6,
    Tcp,
    Udp,
    Tls,
    Dns,
    Http,
    Quic,
    Ssh,
    Ike,
    Capwap,
    Wireguard,
    /// Not identified yet.
    Probing,
    /// None of the known ones.
    Null,
}

impl SessionProto {
    /// A parser has identified the connection.
    pub open spec fn claimed(self) -> bool {
        match self {
            SessionProto::Ipv4
            | SessionProto::Ipv6
            | SessionProto::Tcp
            | SessionProto::Udp
            | SessionProto::Probing
            | SessionProto::Null => false,
            _ => true,
        }
    }

    /// Returns `true` if a parser has identified the connection.
    pub fn is_claimed(&self) -> (b: bool)
        ensures
            b == self.claimed(),
    {
        match self {
            SessionProto::Tls
            | SessionProto::Dns
            | SessionProto::Http
            | SessionProto::Quic
            | SessionProto::Ssh
            | SessionProto::Wireguard
            | SessionProto::Ike
            | SessionProto::Capwap => true,
            SessionProto::Null | SessionProto::Probing => false,
            SessionProto::Ipv4
            | SessionProto::Ipv6
            | SessionProto::Tcp
            | SessionProto::Udp => false,
        }
    }
}

impl SessionProto {
    /// The name by which filters refer to the protocol.
    pub open spec fn name_of(self) -> Seq<char> {
        match self {
            SessionProto::Ipv4 => "ipv4"@,
            SessionProto::Ipv6 => "ipv6"@,
            SessionProto::Tcp => "tcp"@,
            SessionProto::Udp => "udp"@,
            SessionProto::Tls => "tls"@,
            SessionProto::Dns => "dns"@,
            SessionProto::Http => "http"@,
            SessionProto::Quic => "quic"@,
            SessionProto::Ssh => "ssh"@,
            SessionProto::Ike => "ike"@,
            SessionProto::Capwap => "capwap"@,
            SessionProto::Wireguard => "wireguard"@,
            SessionProto::Probing => "probing"@,
            SessionProto::Null => "null"@,
        }
    }

    pub fn name(&self) -> (s: &'static str)
        ensures
            s@ == self.name_of(),
    {
        match self {
            SessionProto::Ipv4 => "ipv4",
            SessionProto::Ipv6 => "ipv6",
            SessionProto::Tcp => "tcp",
            SessionProto::Udp => "udp",
            SessionProto::Tls => "tls",
            SessionProto::Dns => "dns",
            SessionProto::Http => "http",
            SessionProto::Quic => "quic",
            SessionProto::Ssh => "ssh",
            SessionProto::Ike => "ike",
            SessionProto::Capwap => "capwap",
            SessionProto::Wireguard => "wireguard",
            SessionProto::Probing => "probing",
            SessionProto::Null => "null",
        }
    }
}

/// A parsed session and its identifier on the connection.
#[derive(Debug)]
pub struct Session {
    pub data: SessionData,
    pub id: usize,
}

/// What a parser made of a session.
#[derive(Debug)]
pub enum SessionData {
    Capwap(Box<Capwap>),
    Ike(Box<Ike>),
    Quic(Box<QuicConn>),
    Ssh(Box<Ssh>),
    Tls(Box<Tls>),
    Wireguard(Box<WireGuard>),
    /// No session.
    Null,
}

} // verus!
