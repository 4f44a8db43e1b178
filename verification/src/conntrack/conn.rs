//! Per-connection state management.
//!
//! Tracks a TCP or UDP connection, performs stream reassembly, and manages what
//! subscriptions keep on it throughout its duration.

use crate::conntrack::conn_info::{
    ended, initial_state, packet_seen, stream_consumed, ConnInfo, Trackable,
};
use crate::conntrack::conn_state::LayerState;
use crate::conntrack::pdu::{FiveTuple, L4Context, L4Pdu};
use crate::conntrack::reassembly::{bumped, segment_ok, FlowModel, StreamConsumer, TcpFlow};
use crate::conntrack::tcp::{is_synack, ACK, FIN, RST, SYN};
use crate::conntrack::tcp_conn::{reassembled, recovered, TcpConn};
use crate::time::Instant;
use vstd::prelude::*;

verus! {

/// Either a TCP or a UDP connection.
pub enum L4Conn {
    Tcp(TcpConn),
    Udp,
}

/// Which TCP connections are adopted when the first packet seen is not a bare SYN, that
/// is, when the connection was already in progress.
///
/// All default to `false`: adopting a connection mid-stream means probing for the
/// application-layer protocol from an arbitrary offset, which is error-prone.
#[derive(Debug, Clone, Copy, PartialEq, Eq, Structural)]
pub struct InitPolicy {
    pub synack: bool,
    pub fin: bool,
    pub rst: bool,
    pub data: bool,
}

impl Default for InitPolicy {
    fn default() -> (p: InitPolicy)
        ensures
            p == (InitPolicy { synack: false, fin: false, rst: false, data: false }),
    {
        InitPolicy { synack: false, fin: false, rst: false, data: false }
    }
}

impl InitPolicy {
    /// A first packet is adopted if the policy adopts its kind. A FIN or RST that also
    /// carries data is a teardown, not a data packet; a bare ACK without payload carries no
    /// stream position worth adopting.
    pub open spec fn adopted(self, flags: u8, length: usize) -> bool {
        if flags & RST != 0 {
            self.rst
        } else if flags & FIN != 0 {
            self.fin
        } else if is_synack(flags) {
            self.synack
        } else {
            self.data && length > 0
        }
    }

    /// Whether a first packet with these `flags` and payload `length` should be adopted as
    /// an in-progress connection.
    pub fn adopts(&self, flags: u8, length: usize) -> (b: bool)
        ensures
            b == self.adopted(flags, length),
    {
        if flags & RST != 0 {
            return self.rst;
        }
        if flags & FIN != 0 {
            return self.fin;
        }
        if flags & SYN != 0 && flags & ACK != 0 {
            return self.synack;
        }
        self.data && length > 0
    }
}

/// A policy that adopts nothing opens connections on bare SYNs only.
pub proof fn law_default_policy_adopts_nothing(flags: u8, length: usize)
    ensures
        !(InitPolicy { synack: false, fin: false, rst: false, data: false }).adopted(flags, length),
{
}

/// A teardown is adopted as a teardown, whatever data it carries.
pub proof fn law_teardown_with_data_is_a_teardown(p: InitPolicy, flags: u8, a: usize, b: usize)
    requires
        flags & RST != 0 || flags & FIN != 0,
    ensures
        p.adopted(flags, a) == p.adopted(flags, b),
{
}

/// The packet opens a connection.
pub open spec fn bare_syn(flags: u8) -> bool {
    flags & SYN != 0 && flags & ACK == 0 && flags & RST == 0
}

/// Why no connection is opened for a packet.
#[derive(Debug, Clone, Copy, PartialEq, Eq, Structural)]
pub enum ConnError {
    /// The connection was already in progress, and is not adopted.
    NotSyn,
}

/// What became of packets of connections that were already in progress. Counters wrap
/// around.
#[derive(Debug, Clone, Copy, PartialEq, Eq, Structural)]
pub struct AdmissionCounts {
    /// Packets that no connection was opened for.
    pub dropped_pkts: u64,
    /// Bytes of those packets.
    pub dropped_bytes: u64,
    /// Connections that were adopted.
    pub adopted: u64,
}

impl Default for AdmissionCounts {
    fn default() -> (c: AdmissionCounts)
        ensures
            c == (AdmissionCounts { dropped_pkts: 0, dropped_bytes: 0, adopted: 0 }),
    {
        AdmissionCounts { dropped_pkts: 0, dropped_bytes: 0, adopted: 0 }
    }
}

impl AdmissionCounts {
    /// The counts after a packet that is, or is not, a bare SYN, and that a connection was, or
    /// was not, opened for.
    pub open spec fn after(self, pdu: L4Pdu, opened: bool) -> AdmissionCounts {
        if !opened {
            AdmissionCounts {
                dropped_pkts: bumped(self.dropped_pkts, 1),
                dropped_bytes: bumped(self.dropped_bytes, pdu.mbuf@.len() as int),
                ..self
            }
        } else if !bare_syn(pdu.ctxt.flags) {
            AdmissionCounts { adopted: bumped(self.adopted, 1), ..self }
        } else {
            self
        }
    }
}

/// A connection.
pub struct Conn<T: Trackable> {
    /// Timestamp of the last observed packet in the connection.
    pub last_seen_ts: Instant,
    /// Time in milliseconds before the connection should be expired for inactivity.
    pub inactivity_window: u64,
    /// When the connection's live timer entry is due to fire, in milliseconds since the
    /// wheel's epoch; `u64::MAX` before the first insert.
    ///
    /// It doubles as the wheel's liveness token: an entry whose stored deadline no longer
    /// matches this field has been superseded and is discarded on sweep.
    pub scheduled_expiry: u64,
    /// Transport-layer connection tracking.
    pub l4conn: L4Conn,
    /// Connection tracking for filtering and parsing.
    pub info: ConnInfo<T>,
}

/// The packet as the connection it opens sees it. The sender of a SYN/ACK is the responder;
/// a packet from the middle of a stream has an unknown number of bytes before it.
pub open spec fn opening_pdu(pdu: L4Pdu) -> L4Pdu {
    if bare_syn(pdu.ctxt.flags) {
        pdu
    } else {
        L4Pdu {
            dir: pdu.dir && !is_synack(pdu.ctxt.flags),
            ctxt: L4Context {
                stream_start_unknown: pdu.ctxt.stream_start_unknown || pdu.ctxt.flags & SYN == 0,
                ..pdu.ctxt
            },
            ..pdu
        }
    }
}

/// The same flow, with its out-of-order buffer discarded.
pub open spec fn buffer_discarded(before: TcpFlow, after: TcpFlow) -> bool {
    &&& after@ == (FlowModel { buf: Seq::empty(), ..before@ })
    &&& after.ooo_buf.cap() == before.ooo_buf.cap()
}

/// The transport layer of a connection after a packet, given what the application keeps
/// once it has seen the packet as it arrived: where nothing asks for the stream, TCP takes
/// note of the flags only; else the packet goes through reassembly, and if nothing asks for
/// the stream any more after that, both out-of-order buffers are discarded. A UDP packet is
/// passed on as it comes.
pub open spec fn stream_advanced<T: Trackable>(
    before: L4Conn,
    info: ConnInfo<T>,
    pdu: L4Pdu,
    after: L4Conn,
    last: ConnInfo<T>,
) -> bool {
    ||| {
        &&& info.asked_for_stream(false)
        &&& last == info
        &&& after == (match before {
            L4Conn::Tcp(c) => L4Conn::Tcp(c.with_flags(pdu.ctxt.flags, pdu.dir)),
            L4Conn::Udp => L4Conn::Udp,
        })
    }
    ||| {
        &&& info.asked_for_stream(true)
        &&& match (before, after) {
            (L4Conn::Tcp(b), L4Conn::Tcp(a)) => exists|c: TcpConn|
                {
                    &&& #[trigger] reassembled(b, info, pdu, c, last)
                    &&& {
                        ||| last.asked_for_stream(true) && a == c
                        ||| last.asked_for_stream(false) && a.handshake_done == c.handshake_done
                            && buffer_discarded(c.ctos, a.ctos) && buffer_discarded(c.stoc, a.stoc)
                    }
                },
            (L4Conn::Udp, L4Conn::Udp) => stream_consumed(info, as_reassembled(pdu), last),
            _ => false,
        }
    }
}

/// The packet, marked as having gone through reassembly.
pub open spec fn as_reassembled(pdu: L4Pdu) -> L4Pdu {
    L4Pdu { ctxt: L4Context { reassembled: true, ..pdu.ctxt }, ..pdu }
}

/// The connection after a packet: those who ask for packets as they arrive see it first,
/// then those who ask for the stream do.
pub open spec fn updated<T: Trackable>(before: Conn<T>, pdu: L4Pdu, after: Conn<T>) -> bool {
    &&& after == (Conn { l4conn: after.l4conn, info: after.info, ..before })
    &&& exists|seen: ConnInfo<T>|
        {
            &&& {
                ||| call_ensures(T::needs_update, (&before.info.app,), true) && packet_seen(
                    before.info,
                    pdu,
                    seen,
                )
                ||| call_ensures(T::needs_update, (&before.info.app,), false) && seen
                    == before.info
            }
            &&& #[trigger] stream_advanced(before.l4conn, seen, pdu, after.l4conn, after.info)
        }
}

/// The connection after its gaps were given up.
pub open spec fn gaps_given_up<T: Trackable>(before: Conn<T>, after: Conn<T>) -> bool {
    match (before.l4conn, after.l4conn) {
        (L4Conn::Tcp(b), L4Conn::Tcp(a)) => {
            &&& after == (Conn { l4conn: after.l4conn, info: after.info, ..before })
            &&& recovered(b, before.info, a, after.info)
        },
        _ => after == before,
    }
}

/// The connection after its end: its gaps were given up first.
pub open spec fn terminated_as<T: Trackable>(
    before: Conn<T>,
    delivered: bool,
    after: Conn<T>,
) -> bool {
    exists|mid: Conn<T>|
        {
            &&& #[trigger] gaps_given_up(before, mid)
            &&& after == (Conn { info: after.info, ..mid })
            &&& ended(mid.info, delivered, after.info)
        }
}

impl<T: Trackable> Conn<T> {
    pub open spec fn wf(&self) -> bool {
        match self.l4conn {
            L4Conn::Tcp(c) => c.wf(),
            L4Conn::Udp => true,
        }
    }

    /// More packets can be counted.
    pub open spec fn can_count(&self) -> bool {
        match self.l4conn {
            L4Conn::Tcp(c) => c.ctos.observed < usize::MAX && c.stoc.observed < usize::MAX,
            L4Conn::Udp => true,
        }
    }

    /// Some direction is stalled behind a gap.
    pub open spec fn gap_pending(&self) -> bool {
        match self.l4conn {
            L4Conn::Tcp(c) => c.ctos@.buf.len() > 0 || c.stoc@.buf.len() > 0,
            L4Conn::Udp => false,
        }
    }

    /// Creates a new TCP connection with an initial inactivity window of `initial_timeout`
    /// and a per-direction out-of-order buffer of `max_ooo` segments.
    ///
    /// A bare SYN starts a connection from its beginning. Anything else means the
    /// connection was already in progress, and whether it is adopted is governed by `init`.
    pub fn new_tcp(
        initial_timeout: u64,
        max_ooo: usize,
        init: InitPolicy,
        pdu: &mut L4Pdu,
        core_id: u32,
        counts: &mut AdmissionCounts,
    ) -> (r: Result<Conn<T>, ConnError>)
        ensures
            *final(counts) == old(counts).after(*old(pdu), r is Ok),
            r is Err <==> !bare_syn(old(pdu).ctxt.flags) && !init.adopted(
                old(pdu).ctxt.flags,
                old(pdu).ctxt.length,
            ),
            r is Err ==> *final(pdu) == *old(pdu),
            r matches Ok(c) ==> {
                let flags = old(pdu).ctxt.flags;
                &&& *final(pdu) == opening_pdu(*old(pdu))
                &&& c.wf()
                &&& c.last_seen_ts == old(pdu).ts
                &&& c.inactivity_window == initial_timeout
                &&& c.scheduled_expiry == u64::MAX
                &&& c.info.five_tuple == FiveTuple::of(final(pdu).ctxt, final(pdu).dir)
                &&& c.info.state == (if bare_syn(flags) {
                    initial_state(old(pdu).ctxt.proto)
                } else {
                    LayerState::Payload
                })
                &&& call_ensures(T::new, (final(pdu), core_id), c.info.app)
                &&& c.l4conn matches L4Conn::Tcp(t) && if bare_syn(flags) {
                    call_ensures(TcpConn::new_on_syn, (old(pdu).ctxt, max_ooo), t)
                } else {
                    call_ensures(
                        TcpConn::new_midstream,
                        (old(pdu).ctxt, final(pdu).dir, max_ooo),
                        t,
                    )
                }
            },
    {
        let flags: u8 = pdu.ctxt.flags;
        let is_bare_syn = flags & SYN != 0 && flags & ACK == 0 && flags & RST == 0;
        if !is_bare_syn && !init.adopts(flags, pdu.length()) {
            counts.dropped_pkts = counts.dropped_pkts.wrapping_add(1);
            counts.dropped_bytes = counts.dropped_bytes.wrapping_add(pdu.mbuf.data_len() as u64);
            return Err(ConnError::NotSyn);
        }
        let tcp_conn = if is_bare_syn {
            TcpConn::new_on_syn(pdu.ctxt, max_ooo)
        } else {
            // The sender of a SYN/ACK is the responder.
            if flags & SYN != 0 && flags & ACK != 0 {
                pdu.dir = false;
            }
            counts.adopted = counts.adopted.wrapping_add(1);
            let tcp_conn = TcpConn::new_midstream(pdu.ctxt, pdu.dir, max_ooo);
            // A SYN/ACK carries the responder's initial sequence number, so that
            // direction's origin is exact.
            if flags & SYN == 0 {
                pdu.ctxt.stream_start_unknown = true;
            }
            tcp_conn
        };
        let mut info = ConnInfo::new(pdu, core_id);
        if !is_bare_syn {
            info.adopt_midstream();
        }
        Ok(
            Conn {
                last_seen_ts: pdu.ts,
                inactivity_window: initial_timeout,
                scheduled_expiry: u64::MAX,
                l4conn: L4Conn::Tcp(tcp_conn),
                info,
            },
        )
    }

    /// Creates a new UDP connection with an initial inactivity window of `initial_timeout`.
    pub fn new_udp(initial_timeout: u64, pdu: &L4Pdu, core_id: u32) -> (r: Result<
        Conn<T>,
        ConnError,
    >)
        ensures
            r matches Ok(c) && {
                &&& c.wf()
                &&& c.last_seen_ts == pdu.ts
                &&& c.inactivity_window == initial_timeout
                &&& c.scheduled_expiry == u64::MAX
                &&& c.l4conn is Udp
                &&& c.info.five_tuple == FiveTuple::of(pdu.ctxt, pdu.dir)
                &&& c.info.state == initial_state(pdu.ctxt.proto)
                &&& call_ensures(T::new, (pdu, core_id), c.info.app)
            },
    {
        Ok(
            Conn {
                last_seen_ts: pdu.ts,
                inactivity_window: initial_timeout,
                scheduled_expiry: u64::MAX,
                l4conn: L4Conn::Udp,
                info: ConnInfo::new(pdu, core_id),
            },
        )
    }

    /// Number of packets observed in one direction of a TCP connection.
    pub fn flow_len(&self, dir: bool) -> (r: Option<usize>)
        ensures
            r == (match self.l4conn {
                L4Conn::Tcp(c) => Some(
                    if dir {
                        c.ctos.observed
                    } else {
                        c.stoc.observed
                    },
                ),
                L4Conn::Udp => None,
            }),
    {
        match &self.l4conn {
            L4Conn::Tcp(tcp_conn) => Some(tcp_conn.flow_len(dir)),
            L4Conn::Udp => None,
        }
    }

    /// Number of packets observed in both directions of a TCP connection.
    pub fn total_len(&self) -> (r: Option<usize>)
        requires
            self.l4conn matches L4Conn::Tcp(c) ==> c.ctos.observed + c.stoc.observed <= usize::MAX,
        ensures
            match self.l4conn {
                L4Conn::Tcp(c) => r == Some((c.ctos.observed + c.stoc.observed) as usize),
                L4Conn::Udp => r is None,
            },
    {
        match &self.l4conn {
            L4Conn::Tcp(tcp_conn) => Some(tcp_conn.total_len()),
            L4Conn::Udp => None,
        }
    }

    /// Updates a connection on the arrival of a new packet: hands it to those who ask for
    /// packets as they arrive, then to reassembly, or, where nothing asks for the stream,
    /// just takes note of its flags.
    pub fn update(&mut self, pdu: L4Pdu)
        requires
            old(self).wf(),
            old(self).can_count(),
            segment_ok(pdu),
        ensures
            final(self).wf(),
            final(self).info.five_tuple == old(self).info.five_tuple,
            updated(*old(self), pdu, *final(self)),
    {
        let ghost old_pdu = pdu;
        let mut pdu = pdu;
        if self.info.needs_update() {
            self.info.new_packet(&pdu);
        }
        let ghost seen = self.info;
        let ghost before = self.l4conn;
        if !self.info.needs_reassembly() {
            self.update_tcp_flags(pdu.flags(), pdu.dir);
            assert(stream_advanced(before, seen, pdu, self.l4conn, self.info));
            return;
        }
        match &mut self.l4conn {
            L4Conn::Tcp(tcp_conn) => {
                tcp_conn.reassemble(pdu, &mut self.info);
                assert(reassembled(before->Tcp_0, seen, pdu, *tcp_conn, self.info));
                if !self.info.needs_reassembly() {
                    tcp_conn.ctos.ooo_buf.clear();
                    tcp_conn.stoc.ooo_buf.clear();
                }
            },
            L4Conn::Udp => {
                // Mark the pass after parsing, so that it is told from the one above.
                pdu.ctxt.reassembled = true;
                self.info.consume_stream(&mut pdu);
            },
        }
        assert(stream_advanced(before, seen, old_pdu, self.l4conn, self.info));
    }

    /// Takes note of TCP flags without reassembly.
    pub fn update_tcp_flags(&mut self, flags: u8, dir: bool)
        ensures
            *final(self) == (Conn {
                l4conn: match old(self).l4conn {
                    L4Conn::Tcp(c) => L4Conn::Tcp(c.with_flags(flags, dir)),
                    L4Conn::Udp => L4Conn::Udp,
                },
                ..*old(self)
            }),
    {
        match &mut self.l4conn {
            L4Conn::Tcp(tcp_conn) => {
                tcp_conn.update_flags(flags, dir);
            },
            L4Conn::Udp => {},
        }
    }

    /// No subscription wants the connection any more, and its packets cannot open it anew.
    pub open spec fn unwanted(&self) -> bool {
        self.l4conn is Tcp && self.info.state == LayerState::Dropped
    }

    /// The connection has been naturally terminated.
    pub open spec fn over(&self) -> bool {
        match self.l4conn {
            L4Conn::Tcp(c) => c.terminated(),
            L4Conn::Udp => false,
        }
    }

    /// Returns `true` if the connection should be removed from the table. UDP connections
    /// in a drop state are kept for a while, so that their packets do not open a new
    /// connection.
    pub fn remove_from_table(&self) -> (b: bool)
        ensures
            b == self.unwanted(),
    {
        match &self.l4conn {
            L4Conn::Udp => false,
            _ => self.info.drop(),
        }
    }

    /// Returns `true` if PDUs for this connection should be dropped.
    pub fn drop_pdu(&self) -> (b: bool)
        ensures
            b == (self.info.state == LayerState::Dropped),
    {
        self.info.drop()
    }

    /// Returns `true` if the connection has been naturally terminated.
    pub fn terminated(&self) -> (b: bool)
        ensures
            b == self.over(),
    {
        match &self.l4conn {
            L4Conn::Tcp(tcp_conn) => tcp_conn.is_terminated(),
            L4Conn::Udp => false,
        }
    }

    /// Returns `true` if the packet travels from originator to responder.
    pub fn packet_dir(&self, ctxt: &L4Context) -> (b: bool)
        ensures
            b == (self.info.five_tuple.orig == ctxt.src),
    {
        self.info.five_tuple.orig == ctxt.src
    }

    /// Returns `true` if this is a TCP connection stalled behind an unfilled sequence gap.
    pub fn has_pending_gap(&self) -> (b: bool)
        ensures
            b == self.gap_pending(),
    {
        match &self.l4conn {
            L4Conn::Tcp(tcp_conn) => tcp_conn.has_pending_gap(),
            L4Conn::Udp => false,
        }
    }

    /// Permanently gives up on any outstanding sequence gaps, delivering the buffered
    /// out-of-order data that sits beyond them.
    pub fn recover_gaps(&mut self)
        requires
            old(self).wf(),
        ensures
            final(self).wf(),
            final(self).info.five_tuple == old(self).info.five_tuple,
            gaps_given_up(*old(self), *final(self)),
    {
        match &mut self.l4conn {
            L4Conn::Tcp(tcp_conn) => {
                tcp_conn.recover_gaps(&mut self.info);
            },
            L4Conn::Udp => {},
        }
    }

    /// Invokes connection termination tasks, when the connection naturally terminates,
    /// expires due to inactivity, or is drained at the end of the run. Data still buffered
    /// behind an unfilled gap is recovered first, so that it reaches subscriptions instead
    /// of being freed with the connection. Returns whether the end of the connection was
    /// delivered.
    pub fn terminate(&mut self) -> (delivered: bool)
        requires
            old(self).wf(),
        ensures
            final(self).wf(),
            final(self).info.five_tuple == old(self).info.five_tuple,
            terminated_as(*old(self), delivered, *final(self)),
    {
        self.recover_gaps();
        assert(gaps_given_up(*old(self), *self));
        self.info.handle_terminate()
    }
}

} // verus!
