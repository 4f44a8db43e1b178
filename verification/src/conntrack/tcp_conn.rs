//! TCP connections: two flows and the handshake between them.

use crate::conntrack::pdu::{L4Context, L4Pdu};
use crate::conntrack::reassembly::{
    continues_stream, gaps_recovered, handed, handed_on_arrival, inserted, limit_of, segment_ok,
    seq_add, FlowModel, ReassemblyCounts, StreamConsumer, TcpFlow,
};
use crate::conntrack::tcp::{is_synack, ACK, FIN, RST, SYN};
use vstd::prelude::*;

verus! {

/// A TCP connection.
pub struct TcpConn {
    /// Originator to responder.
    pub ctos: TcpFlow,
    /// Responder to originator.
    pub stoc: TcpFlow,
    /// The end of the handshake has been reported.
    pub handshake_done: bool,
}

/// The segment was inserted into the flow, and the consumer took what that delivered.
pub open spec fn segment_inserted<C: StreamConsumer>(
    before: TcpFlow,
    info: C,
    segment: L4Pdu,
    after: TcpFlow,
    fed_info: C,
) -> bool {
    &&& after.ooo_buf.cap() == before.ooo_buf.cap()
    &&& after@ == inserted(
        before@,
        before.ooo_buf.cap(),
        segment,
        limit_of(fed_info.dropped(), before@, after@),
    )
    &&& handed_on_arrival(
        info,
        before@.delivered,
        fed_info,
        after@.delivered,
        continues_stream(before@, segment),
    )
}

/// The flow's gaps were given up, and the consumer took what that delivered: all of it, or
/// what came before it dropped the connection.
pub open spec fn flow_recovered<C: StreamConsumer>(
    before: TcpFlow,
    info: C,
    after: TcpFlow,
    fed_info: C,
) -> bool {
    &&& after.ooo_buf.cap() == before.ooo_buf.cap()
    &&& after@ == gaps_recovered(
        before@,
        if info.dropped() {
            Some(0)
        } else {
            limit_of(fed_info.dropped(), before@, after@)
        },
    )
    &&& handed(info, before@.delivered, fed_info, after@.delivered)
}

/// The segment was inserted into its direction's flow, the other stayed as it was, and the
/// consumer was told of the end of the handshake if that was reached just now.
pub open spec fn reassembled<C: StreamConsumer>(
    before: TcpConn,
    info: C,
    segment: L4Pdu,
    after: TcpConn,
    told: C,
) -> bool {
    &&& after.handshake_done == (before.handshake_done || after.both_sides_synced())
    &&& after.flow(!segment.dir) == before.flow(!segment.dir)
    &&& exists|fed_info: C|
        {
            &&& #[trigger] segment_inserted(
                before.flow(segment.dir),
                info,
                segment,
                after.flow(segment.dir),
                fed_info,
            )
            &&& if !before.handshake_done && after.both_sides_synced() {
                C::told_of_handshake(fed_info, told)
            } else {
                told == fed_info
            }
        }
}

/// The gaps of both directions were given up, the originator's first.
pub open spec fn recovered<C: StreamConsumer>(
    before: TcpConn,
    info: C,
    after: TcpConn,
    fed_info: C,
) -> bool {
    &&& after.handshake_done == before.handshake_done
    &&& exists|mid: C|
        {
            &&& #[trigger] flow_recovered(before.ctos, info, after.ctos, mid)
            &&& flow_recovered(before.stoc, mid, after.stoc, fed_info)
        }
}

impl TcpConn {
    /// The flow in one direction.
    pub open spec fn flow(&self, dir: bool) -> TcpFlow {
        if dir {
            self.ctos
        } else {
            self.stoc
        }
    }

    pub open spec fn wf(&self) -> bool {
        self.ctos.wf() && self.stoc.wf()
    }

    /// Both sides have sent a SYN and an ACK.
    pub open spec fn both_sides_synced(&self) -> bool {
        is_synack(self.ctos.consumed_flags) && is_synack(self.stoc.consumed_flags)
    }

    /// A connection that is seen from its opening SYN on.
    pub fn new_on_syn(ctxt: L4Context, max_ooo: usize) -> (c: TcpConn)
        ensures
            c.wf(),
            !c.handshake_done,
            c.ctos.ooo_buf.cap() == max_ooo,
            c.stoc.ooo_buf.cap() == max_ooo,
            c.ctos@ == (FlowModel {
                next_seq: Some(seq_add(ctxt.seq_no, 1 + (ctxt.length as u32))),
                last_ack: Some(ctxt.ack_no),
                flags: ctxt.flags,
                buf: Seq::empty(),
                delivered: Seq::empty(),
                observed: 1,
                start_unknown: false,
                counts: ReassemblyCounts::zero(),
            }),
            c.stoc@ == (FlowModel {
                next_seq: None,
                last_ack: None,
                flags: 0,
                buf: Seq::empty(),
                delivered: Seq::empty(),
                observed: 0,
                start_unknown: false,
                counts: ReassemblyCounts::zero(),
            }),
    {
        let next_seq: u32 = ctxt.seq_no.wrapping_add(1).wrapping_add(ctxt.length as u32);
        TcpConn {
            ctos: TcpFlow::new(max_ooo, next_seq, ctxt.flags, ctxt.ack_no),
            stoc: TcpFlow::default(max_ooo),
            handshake_done: false,
        }
    }

    /// A connection that is adopted while in progress. The direction that the packet
    /// travels in resumes after it; a SYN and a FIN each take up one sequence number. Where
    /// that direction's stream began is unknown, unless the packet is a SYN. Nothing is
    /// known yet of the other direction.
    pub fn new_midstream(ctxt: L4Context, dir: bool, max_ooo: usize) -> (c: TcpConn)
        ensures
            c.wf(),
            !c.handshake_done,
            c.ctos.ooo_buf.cap() == max_ooo,
            c.stoc.ooo_buf.cap() == max_ooo,
            ({
                let (seen, other) = if dir {
                    (c.ctos, c.stoc)
                } else {
                    (c.stoc, c.ctos)
                };
                let control: int = if ctxt.flags & (SYN | FIN) != 0 {
                    1
                } else {
                    0
                };
                &&& seen@ == (FlowModel {
                    next_seq: Some(seq_add(ctxt.seq_no, control + (ctxt.length as u32))),
                    last_ack: Some(ctxt.ack_no),
                    flags: ctxt.flags,
                    buf: Seq::empty(),
                    delivered: Seq::empty(),
                    observed: 1,
                    start_unknown: ctxt.flags & SYN == 0,
                    counts: ReassemblyCounts::zero(),
                })
                &&& other@ == (FlowModel {
                    next_seq: None,
                    last_ack: None,
                    flags: 0,
                    buf: Seq::empty(),
                    delivered: Seq::empty(),
                    observed: 0,
                    start_unknown: false,
                    counts: ReassemblyCounts::zero(),
                })
            }),
    {
        let mut next_seq: u32 = ctxt.seq_no.wrapping_add(ctxt.length as u32);
        if ctxt.flags & (SYN | FIN) != 0 {
            next_seq = next_seq.wrapping_add(1);
        }
        let mut seen = TcpFlow::new(max_ooo, next_seq, ctxt.flags, ctxt.ack_no);
        seen.start_unknown = ctxt.flags & SYN == 0;
        let other = TcpFlow::default(max_ooo);
        if dir {
            TcpConn { ctos: seen, stoc: other, handshake_done: false }
        } else {
            TcpConn { ctos: other, stoc: seen, handshake_done: false }
        }
    }

    /// Inserts a TCP segment in order into its flow. The consumer is told once when the
    /// handshake completes.
    pub fn reassemble<C: StreamConsumer>(&mut self, segment: L4Pdu, info: &mut C)
        requires
            old(self).wf(),
            segment_ok(segment),
            old(self).ctos.observed < usize::MAX,
            old(self).stoc.observed < usize::MAX,
        ensures
            final(info).conn() == old(info).conn(),
            final(self).wf(),
            reassembled(*old(self), *old(info), segment, *final(self), *final(info)),
    {
        if segment.dir {
            self.ctos.insert_segment(segment, info);
        } else {
            self.stoc.insert_segment(segment, info);
        }
        assert(segment_inserted(
            old(self).flow(segment.dir),
            *old(info),
            segment,
            self.flow(segment.dir),
            *info,
        ));
        if self.handshake_done() {
            self.handshake_done = true;
            info.handshake_done();
        }
    }

    /// Permanently gives up on every outstanding sequence gap in both directions,
    /// delivering all buffered out-of-order data: first the originator's, then, unless the
    /// consumer has dropped the connection by then, the responder's.
    pub fn recover_gaps<C: StreamConsumer>(&mut self, info: &mut C)
        requires
            old(self).wf(),
        ensures
            final(info).conn() == old(info).conn(),
            final(self).wf(),
            recovered(*old(self), *old(info), *final(self), *final(info)),
    {
        self.ctos.recover_gaps(info);
        assert(flow_recovered(old(self).ctos, *old(info), self.ctos, *info));
        self.stoc.recover_gaps(info);
    }

    /// Returns `true` if either direction is stalled behind an unfilled sequence gap.
    pub fn has_pending_gap(&self) -> (b: bool)
        ensures
            b == (self.ctos@.buf.len() > 0 || self.stoc@.buf.len() > 0),
    {
        !self.ctos.ooo_buf.is_empty() || !self.stoc.ooo_buf.is_empty()
    }

    /// Returns true if the PDU currently being processed is the last packet in the TCP
    /// handshake. This is defined loosely: both sides must have sent SYNs and ACKs, but the
    /// sequence numbers of those are not checked.
    pub fn handshake_done(&self) -> (b: bool)
        ensures
            b == (!self.handshake_done && self.both_sides_synced()),
    {
        !self.handshake_done && self.ctos.consumed_flags & SYN != 0 && self.ctos.consumed_flags
            & ACK != 0 && self.stoc.consumed_flags & SYN != 0 && self.stoc.consumed_flags & ACK
            != 0
    }

    /// Number of packets observed in one direction.
    pub fn flow_len(&self, dir: bool) -> (n: usize)
        ensures
            n == self.flow(dir).observed,
    {
        if dir {
            self.ctos.observed
        } else {
            self.stoc.observed
        }
    }

    /// Number of packets observed in both directions.
    pub fn total_len(&self) -> (n: usize)
        requires
            self.ctos.observed + self.stoc.observed <= usize::MAX,
        ensures
            n == self.ctos.observed + self.stoc.observed,
    {
        self.ctos.observed + self.stoc.observed
    }

    /// Both sides have sent, reassembled and acknowledged FIN, or RST has been sent.
    pub open spec fn terminated(&self) -> bool {
        ||| self.ctos.consumed_flags & self.stoc.consumed_flags & FIN != 0 && self.ctos.last_ack
            == self.stoc.next_seq && self.stoc.last_ack == self.ctos.next_seq
        ||| (self.ctos.consumed_flags & RST) | (self.stoc.consumed_flags & RST) != 0
    }

    /// Returns `true` if the connection should be terminated.
    pub fn is_terminated(&self) -> (b: bool)
        ensures
            b == self.terminated(),
    {
        (self.ctos.consumed_flags & self.stoc.consumed_flags & FIN != 0 && self.ctos.last_ack
            == self.stoc.next_seq && self.stoc.last_ack == self.ctos.next_seq) || (
        self.ctos.consumed_flags & RST) | (self.stoc.consumed_flags & RST) != 0
    }

    /// Returns the correct inactivity timeout. While either direction is stalled behind a
    /// sequence gap, the shorter `reassembly_timeout` applies: it is the deadline for that
    /// gap to be filled, not a deadline for the connection.
    pub fn inactivity_timeout(
        &self,
        default_inactivity_timeout: usize,
        reassembly_timeout: usize,
    ) -> (n: usize)
        ensures
            n == (if self.ctos@.buf.len() > 0 || self.stoc@.buf.len() > 0 {
                reassembly_timeout
            } else {
                default_inactivity_timeout
            }),
    {
        if self.has_pending_gap() {
            reassembly_timeout
        } else {
            default_inactivity_timeout
        }
    }

    /// The connection after it has taken note of flags in one direction.
    pub open spec fn with_flags(self, flags: u8, dir: bool) -> TcpConn {
        let flow = self.flow(dir);
        let noted = TcpFlow { consumed_flags: flow.consumed_flags | flags, ..flow };
        if dir {
            TcpConn { ctos: noted, ..self }
        } else {
            TcpConn { stoc: noted, ..self }
        }
    }

    /// Updates connection termination flags. Useful to track TCP connections without
    /// reassembly.
    pub fn update_flags(&mut self, flags: u8, dir: bool)
        ensures
            *final(self) == old(self).with_flags(flags, dir),
    {
        if dir {
            self.ctos.consumed_flags = self.ctos.consumed_flags | flags;
        } else {
            self.stoc.consumed_flags = self.stoc.consumed_flags | flags;
        }
    }
}

} // verus!
