//! Sessions as datatypes that can be subscribed to.

use crate::conntrack::pdu::{FiveTuple, L4Pdu};
use crate::datatypes::{FromSession, StaticData};
use crate::protocols::capwap::Capwap;
use crate::protocols::ike::Ike;
use crate::protocols::quic::QuicConn;
use crate::protocols::ssh::Ssh;
use crate::protocols::tls::Tls;
use crate::protocols::wireguard::WireGuard;
use crate::protocols::{Session, SessionData};
use vstd::prelude::*;

verus! {

/// A CAPWAP header.
pub type CapwapHeader = Box<Capwap>;

impl FromSession for CapwapHeader {
    fn from_session(session: &Session) -> (r: Option<&CapwapHeader>)
        ensures
            match session.data {
                SessionData::Capwap(data) => r == Some(&data),
                _ => r is None,
            },
    {
        match &session.data {
            SessionData::Capwap(data) => Some(data),
            _ => None,
        }
    }
}

/// An IKE header.
pub type IkeHeader = Box<Ike>;

impl FromSession for IkeHeader {
    fn from_session(session: &Session) -> (r: Option<&IkeHeader>)
        ensures
            match session.data {
                SessionData::Ike(data) => r == Some(&data),
                _ => r is None,
            },
    {
        match &session.data {
            SessionData::Ike(data) => Some(data),
            _ => None,
        }
    }
}

/// A QUIC connection.
pub type QuicStream = Box<QuicConn>;

impl FromSession for QuicStream {
    fn from_session(session: &Session) -> (r: Option<&QuicStream>)
        ensures
            match session.data {
                SessionData::Quic(data) => r == Some(&data),
                _ => r is None,
            },
    {
        match &session.data {
            SessionData::Quic(data) => Some(data),
            _ => None,
        }
    }
}

/// An SSH handshake.
pub type SshHandshake = Box<Ssh>;

impl FromSession for SshHandshake {
    fn from_session(session: &Session) -> (r: Option<&SshHandshake>)
        ensures
            match session.data {
                SessionData::Ssh(data) => r == Some(&data),
                _ => r is None,
            },
    {
        match &session.data {
            SessionData::Ssh(data) => Some(data),
            _ => None,
        }
    }
}

/// A TLS handshake.
pub type TlsHandshake = Box<Tls>;

impl FromSession for TlsHandshake {
    fn from_session(session: &Session) -> (r: Option<&TlsHandshake>)
        ensures
            match session.data {
                SessionData::Tls(data) => r == Some(&data),
                _ => r is None,
            },
    {
        match &session.data {
            SessionData::Tls(data) => Some(data),
            _ => None,
        }
    }
}

/// A WireGuard connection summary.
pub type WireGuardMessage = Box<WireGuard>;

impl FromSession for WireGuardMessage {
    fn from_session(session: &Session) -> (r: Option<&WireGuardMessage>)
        ensures
            match session.data {
                SessionData::Wireguard(data) => r == Some(&data),
                _ => r is None,
            },
    {
        match &session.data {
            SessionData::Wireguard(data) => Some(data),
            _ => None,
        }
    }
}

impl StaticData for FiveTuple {
    fn new(first_pkt: &L4Pdu) -> (t: FiveTuple)
        ensures
            t == FiveTuple::of(first_pkt.ctxt, first_pkt.dir),
    {
        FiveTuple::from_ctxt(&first_pkt.ctxt, first_pkt.dir)
    }
}

} // verus!
