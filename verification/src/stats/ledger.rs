//! Per-core accounting of where every received frame ended up.
//!
//! Frames are dropped in several places between the network interface and a connection's
//! tracked data. `PacketLedger` partitions received frames across those outcomes, so that a
//! shortfall can be attributed: every received frame is counted in exactly one terminal
//! bucket, and `received` equals the sum of the rest.

use vstd::prelude::*;

verus! {

/// A packet count and the on-wire bytes those packets carried, link-layer header included.
#[derive(Debug, Clone, Copy, PartialEq, Eq, Structural)]
pub struct Tally {
    pub pkts: u64,
    pub bytes: u64,
}

impl Default for Tally {
    fn default() -> (t: Tally)
        ensures
            t == (Tally { pkts: 0, bytes: 0 }),
    {
        Tally { pkts: 0, bytes: 0 }
    }
}

impl Tally {
    /// The tally with one more frame.
    pub open spec fn plus_frame(self, bytes: u64) -> Tally {
        Tally { pkts: (self.pkts + 1) as u64, bytes: (self.bytes + bytes) as u64 }
    }

    /// The sum of two tallies.
    pub open spec fn plus(self, other: Tally) -> Tally {
        Tally {
            pkts: (self.pkts + other.pkts) as u64,
            bytes: (self.bytes + other.bytes) as u64,
        }
    }

    /// The sum of two tallies can be represented.
    pub open spec fn fits(self, other: Tally) -> bool {
        self.pkts + other.pkts <= u64::MAX && self.bytes + other.bytes <= u64::MAX
    }

    /// Counts one frame.
    pub fn add(&mut self, bytes: u64)
        requires
            old(self).pkts < u64::MAX,
            old(self).bytes + bytes <= u64::MAX,
        ensures
            *final(self) == old(self).plus_frame(bytes),
    {
        self.pkts = self.pkts + 1;
        self.bytes = self.bytes + bytes;
    }

    /// Adds another tally into this one.
    pub fn merge(&mut self, other: Tally)
        requires
            old(self).fits(other),
        ensures
            *final(self) == old(self).plus(other),
    {
        self.pkts = self.pkts + other.pkts;
        self.bytes = self.bytes + other.bytes;
    }
}

/// Where the frames that one core received ended up.
#[derive(Debug, Clone, Copy, PartialEq, Eq, Structural)]
pub struct PacketLedger {
    /// Every frame the core pulled off its queues.
    pub received: Tally,
    /// Rejected by the packet filter before connection tracking.
    pub ignored_by_packet_filter: Tally,
    /// No layer-4 context could be parsed. ARP and ICMP land here.
    pub not_transport: Tally,
    /// TCP frames belonging to a flow whose SYN was never observed.
    pub dropped_no_syn: Tally,
    /// Dropped because the connection table was full.
    pub dropped_table_full: Tally,
    /// Dropped because the connection is in a drop state.
    pub dropped_unmatched: Tally,
    /// Accepted into connection tracking, and so visible to subscriptions.
    pub tracked_tcp: Tally,
    /// Accepted into connection tracking, and so visible to subscriptions.
    pub tracked_udp: Tally,
    /// TCP connections opened.
    pub new_tcp_conns: u64,
    /// UDP connections opened.
    pub new_udp_conns: u64,
    /// Connections removed after delivering `L4Terminated`.
    pub conns_terminated: u64,
    /// Connections removed without delivering `L4Terminated`, because they entered a drop
    /// state first.
    pub conns_discarded: u64,
}

/// Which bucket a frame ended up in.
#[derive(Debug, Clone, Copy, PartialEq, Eq, Structural)]
pub enum Outcome {
    Received,
    IgnoredByPacketFilter,
    NotTransport,
    DroppedNoSyn,
    DroppedTableFull,
    DroppedUnmatched,
    TrackedTcp,
    TrackedUdp,
}

/// A ledger with nothing recorded.
pub open spec fn empty_ledger() -> PacketLedger {
    let zero = Tally { pkts: 0, bytes: 0 };
    PacketLedger {
        received: zero,
        ignored_by_packet_filter: zero,
        not_transport: zero,
        dropped_no_syn: zero,
        dropped_table_full: zero,
        dropped_unmatched: zero,
        tracked_tcp: zero,
        tracked_udp: zero,
        new_tcp_conns: 0,
        new_udp_conns: 0,
        conns_terminated: 0,
        conns_discarded: 0,
    }
}

impl Default for PacketLedger {
    fn default() -> (l: PacketLedger)
        ensures
            l == empty_ledger(),
    {
        let zero = Tally { pkts: 0, bytes: 0 };
        PacketLedger {
            received: zero,
            ignored_by_packet_filter: zero,
            not_transport: zero,
            dropped_no_syn: zero,
            dropped_table_full: zero,
            dropped_unmatched: zero,
            tracked_tcp: zero,
            tracked_udp: zero,
            new_tcp_conns: 0,
            new_udp_conns: 0,
            conns_terminated: 0,
            conns_discarded: 0,
        }
    }
}

impl PacketLedger {
    /// The bucket of an outcome.
    pub open spec fn bucket(self, outcome: Outcome) -> Tally {
        match outcome {
            Outcome::Received => self.received,
            Outcome::IgnoredByPacketFilter => self.ignored_by_packet_filter,
            Outcome::NotTransport => self.not_transport,
            Outcome::DroppedNoSyn => self.dropped_no_syn,
            Outcome::DroppedTableFull => self.dropped_table_full,
            Outcome::DroppedUnmatched => self.dropped_unmatched,
            Outcome::TrackedTcp => self.tracked_tcp,
            Outcome::TrackedUdp => self.tracked_udp,
        }
    }

    /// The ledger with one more frame in the bucket of `outcome`.
    pub open spec fn with_frame(self, outcome: Outcome, bytes: u64) -> PacketLedger {
        match outcome {
            Outcome::Received => PacketLedger {
                received: self.received.plus_frame(bytes),
                ..self
            },
            Outcome::IgnoredByPacketFilter => PacketLedger {
                ignored_by_packet_filter: self.ignored_by_packet_filter.plus_frame(bytes),
                ..self
            },
            Outcome::NotTransport => PacketLedger {
                not_transport: self.not_transport.plus_frame(bytes),
                ..self
            },
            Outcome::DroppedNoSyn => PacketLedger {
                dropped_no_syn: self.dropped_no_syn.plus_frame(bytes),
                ..self
            },
            Outcome::DroppedTableFull => PacketLedger {
                dropped_table_full: self.dropped_table_full.plus_frame(bytes),
                ..self
            },
            Outcome::DroppedUnmatched => PacketLedger {
                dropped_unmatched: self.dropped_unmatched.plus_frame(bytes),
                ..self
            },
            Outcome::TrackedTcp => PacketLedger {
                tracked_tcp: self.tracked_tcp.plus_frame(bytes),
                ..self
            },
            Outcome::TrackedUdp => PacketLedger {
                tracked_udp: self.tracked_udp.plus_frame(bytes),
                ..self
            },
        }
    }

    /// Frames received but never handed to a subscription.
    pub open spec fn dropped_pkts(self) -> int {
        self.ignored_by_packet_filter.pkts + self.not_transport.pkts + self.dropped_no_syn.pkts
            + self.dropped_table_full.pkts + self.dropped_unmatched.pkts
    }

    /// Bytes received but never handed to a subscription.
    pub open spec fn dropped_bytes(self) -> int {
        self.ignored_by_packet_filter.bytes + self.not_transport.bytes + self.dropped_no_syn.bytes
            + self.dropped_table_full.bytes + self.dropped_unmatched.bytes
    }

    /// Bytes accepted into connection tracking.
    pub open spec fn tracked_bytes(self) -> int {
        self.tracked_tcp.bytes + self.tracked_udp.bytes
    }

    /// Received bytes that are in no terminal bucket.
    pub open spec fn unaccounted_bytes(self) -> int {
        self.received.bytes - self.dropped_bytes() - self.tracked_bytes()
    }

    /// Received frames that are in no terminal bucket.
    pub open spec fn unaccounted_pkts(self) -> int {
        self.received.pkts - self.dropped_pkts() - self.tracked_tcp.pkts - self.tracked_udp.pkts
    }

    /// Frames accepted into connection tracking, TCP and UDP together.
    pub fn tracked_total(&self) -> (t: Tally)
        requires
            self.tracked_tcp.fits(self.tracked_udp),
        ensures
            t == self.tracked_tcp.plus(self.tracked_udp),
    {
        let mut tally = self.tracked_tcp;
        tally.merge(self.tracked_udp);
        tally
    }

    /// Frames received but never handed to a subscription, for any reason.
    pub fn dropped(&self) -> (t: Tally)
        requires
            self.dropped_pkts() <= u64::MAX,
            self.dropped_bytes() <= u64::MAX,
        ensures
            t.pkts == self.dropped_pkts(),
            t.bytes == self.dropped_bytes(),
    {
        let mut tally = self.ignored_by_packet_filter;
        tally.merge(self.not_transport);
        tally.merge(self.dropped_no_syn);
        tally.merge(self.dropped_table_full);
        tally.merge(self.dropped_unmatched);
        tally
    }

    /// The ledger of two cores together.
    pub open spec fn merged(self, other: PacketLedger) -> PacketLedger {
        PacketLedger {
            received: self.received.plus(other.received),
            ignored_by_packet_filter: self.ignored_by_packet_filter.plus(other.ignored_by_packet_filter),
            not_transport: self.not_transport.plus(other.not_transport),
            dropped_no_syn: self.dropped_no_syn.plus(other.dropped_no_syn),
            dropped_table_full: self.dropped_table_full.plus(other.dropped_table_full),
            dropped_unmatched: self.dropped_unmatched.plus(other.dropped_unmatched),
            tracked_tcp: self.tracked_tcp.plus(other.tracked_tcp),
            tracked_udp: self.tracked_udp.plus(other.tracked_udp),
            new_tcp_conns: (self.new_tcp_conns + other.new_tcp_conns) as u64,
            new_udp_conns: (self.new_udp_conns + other.new_udp_conns) as u64,
            conns_terminated: (self.conns_terminated + other.conns_terminated) as u64,
            conns_discarded: (self.conns_discarded + other.conns_discarded) as u64,
        }
    }

    /// The sums of every bucket and counter can be represented.
    pub open spec fn can_merge(self, other: PacketLedger) -> bool {
        &&& self.received.fits(other.received)
        &&& self.ignored_by_packet_filter.fits(other.ignored_by_packet_filter)
        &&& self.not_transport.fits(other.not_transport)
        &&& self.dropped_no_syn.fits(other.dropped_no_syn)
        &&& self.dropped_table_full.fits(other.dropped_table_full)
        &&& self.dropped_unmatched.fits(other.dropped_unmatched)
        &&& self.tracked_tcp.fits(other.tracked_tcp)
        &&& self.tracked_udp.fits(other.tracked_udp)
        &&& self.new_tcp_conns + other.new_tcp_conns <= u64::MAX
        &&& self.new_udp_conns + other.new_udp_conns <= u64::MAX
        &&& self.conns_terminated + other.conns_terminated <= u64::MAX
        &&& self.conns_discarded + other.conns_discarded <= u64::MAX
    }

    /// Adds another core's ledger into this one.
    pub fn merge(&mut self, other: PacketLedger)
        requires
            old(self).can_merge(other),
        ensures
            *final(self) == old(self).merged(other),
    {
        self.received.merge(other.received);
        self.ignored_by_packet_filter.merge(other.ignored_by_packet_filter);
        self.not_transport.merge(other.not_transport);
        self.dropped_no_syn.merge(other.dropped_no_syn);
        self.dropped_table_full.merge(other.dropped_table_full);
        self.dropped_unmatched.merge(other.dropped_unmatched);
        self.tracked_tcp.merge(other.tracked_tcp);
        self.tracked_udp.merge(other.tracked_udp);
        self.new_tcp_conns = self.new_tcp_conns + other.new_tcp_conns;
        self.new_udp_conns = self.new_udp_conns + other.new_udp_conns;
        self.conns_terminated = self.conns_terminated + other.conns_terminated;
        self.conns_discarded = self.conns_discarded + other.conns_discarded;
    }

    /// `received` minus every terminal bucket, in bytes. Zero unless a drop path is
    /// unaccounted for.
    pub fn unaccounted(&self) -> (n: i64)
        requires
            self.received.bytes <= i64::MAX,
            self.dropped_pkts() <= u64::MAX,
            self.tracked_tcp.fits(self.tracked_udp),
            self.dropped_bytes() + self.tracked_bytes() <= i64::MAX,
        ensures
            n == self.unaccounted_bytes(),
    {
        let counted: u64 = self.dropped().bytes + self.tracked_total().bytes;
        self.received.bytes as i64 - counted as i64
    }
}

/// Records one frame of `bytes` against `outcome`.
pub fn record(ledger: &mut PacketLedger, outcome: Outcome, bytes: u64)
    requires
        old(ledger).bucket(outcome).pkts < u64::MAX,
        old(ledger).bucket(outcome).bytes + bytes <= u64::MAX,
    ensures
        *final(ledger) == old(ledger).with_frame(outcome, bytes),
{
    match outcome {
        Outcome::Received => {
            ledger.received.add(bytes);
        },
        Outcome::IgnoredByPacketFilter => {
            ledger.ignored_by_packet_filter.add(bytes);
        },
        Outcome::NotTransport => {
            ledger.not_transport.add(bytes);
        },
        Outcome::DroppedNoSyn => {
            ledger.dropped_no_syn.add(bytes);
        },
        Outcome::DroppedTableFull => {
            ledger.dropped_table_full.add(bytes);
        },
        Outcome::DroppedUnmatched => {
            ledger.dropped_unmatched.add(bytes);
        },
        Outcome::TrackedTcp => {
            ledger.tracked_tcp.add(bytes);
        },
        Outcome::TrackedUdp => {
            ledger.tracked_udp.add(bytes);
        },
    }
}

/// Records a newly opened connection.
pub fn record_new_conn(ledger: &mut PacketLedger, is_tcp: bool)
    requires
        is_tcp ==> old(ledger).new_tcp_conns < u64::MAX,
        !is_tcp ==> old(ledger).new_udp_conns < u64::MAX,
    ensures
        is_tcp ==> *final(ledger) == (PacketLedger {
            new_tcp_conns: (old(ledger).new_tcp_conns + 1) as u64,
            ..*old(ledger)
        }),
        !is_tcp ==> *final(ledger) == (PacketLedger {
            new_udp_conns: (old(ledger).new_udp_conns + 1) as u64,
            ..*old(ledger)
        }),
{
    if is_tcp {
        ledger.new_tcp_conns = ledger.new_tcp_conns + 1;
    } else {
        ledger.new_udp_conns = ledger.new_udp_conns + 1;
    }
}

/// Records a connection leaving the table: `delivered` is whether it got to run its
/// `L4Terminated` state transition, and so whether subscriptions saw what it accumulated.
pub fn record_conn_closed(ledger: &mut PacketLedger, delivered: bool)
    requires
        delivered ==> old(ledger).conns_terminated < u64::MAX,
        !delivered ==> old(ledger).conns_discarded < u64::MAX,
    ensures
        delivered ==> *final(ledger) == (PacketLedger {
            conns_terminated: (old(ledger).conns_terminated + 1) as u64,
            ..*old(ledger)
        }),
        !delivered ==> *final(ledger) == (PacketLedger {
            conns_discarded: (old(ledger).conns_discarded + 1) as u64,
            ..*old(ledger)
        }),
{
    if delivered {
        ledger.conns_terminated = ledger.conns_terminated + 1;
    } else {
        ledger.conns_discarded = ledger.conns_discarded + 1;
    }
}

/// The ledger so far. Non-draining: it can be called as often as one likes.
pub fn packet_ledger(ledger: &PacketLedger) -> (l: PacketLedger)
    ensures
        l == *ledger,
{
    *ledger
}

/// A frame that is counted as received and then in one terminal bucket leaves nothing
/// unaccounted for that was accounted for before.
pub proof fn law_terminal_buckets_partition_received(
    ledger: PacketLedger,
    outcome: Outcome,
    bytes: u64,
)
    requires
        outcome != Outcome::Received,
        ledger.received.pkts < u64::MAX,
        ledger.received.bytes + bytes <= u64::MAX,
        ledger.bucket(outcome).pkts < u64::MAX,
        ledger.bucket(outcome).bytes + bytes <= u64::MAX,
    ensures
        ({
            let after = ledger.with_frame(Outcome::Received, bytes).with_frame(outcome, bytes);
            &&& after.unaccounted_bytes() == ledger.unaccounted_bytes()
            &&& after.unaccounted_pkts() == ledger.unaccounted_pkts()
        }),
{
}

/// Merging ledgers loses nothing and counts nothing twice: what is unaccounted for in two
/// ledgers together is what is in the one plus what is in the other.
pub proof fn law_merge_sums_what_is_unaccounted(a: PacketLedger, b: PacketLedger)
    requires
        a.can_merge(b),
    ensures
        a.merged(b).unaccounted_bytes() == a.unaccounted_bytes() + b.unaccounted_bytes(),
        a.merged(b).unaccounted_pkts() == a.unaccounted_pkts() + b.unaccounted_pkts(),
        a.merged(b).dropped_bytes() == a.dropped_bytes() + b.dropped_bytes(),
        a.merged(b).tracked_bytes() == a.tracked_bytes() + b.tracked_bytes(),
{
}

/// The order in which ledgers are merged does not matter, and an empty one adds nothing.
pub proof fn law_merge_is_commutative(a: PacketLedger, b: PacketLedger)
    ensures
        a.merged(b) == b.merged(a),
        a.merged(empty_ledger()) == a,
{
}

/// A frame is counted in the bucket of its outcome, and in no other; a ledger to which it is
/// added before or after another is merged in is the same.
pub proof fn law_frames_are_counted_once(
    a: PacketLedger,
    other: PacketLedger,
    outcome: Outcome,
    bytes: u64,
    o: Outcome,
)
    requires
        a.can_merge(other),
        a.bucket(outcome).pkts + other.bucket(outcome).pkts < u64::MAX,
        a.bucket(outcome).bytes + other.bucket(outcome).bytes + bytes <= u64::MAX,
    ensures
        ({
            let after = a.with_frame(outcome, bytes);
            &&& after.bucket(o).pkts == a.bucket(o).pkts + (if o == outcome {
                1int
            } else {
                0
            })
            &&& after.bucket(o).bytes == a.bucket(o).bytes + (if o == outcome {
                bytes as int
            } else {
                0
            })
            &&& after.merged(other) == a.merged(other).with_frame(outcome, bytes)
            &&& after.new_tcp_conns == a.new_tcp_conns && after.new_udp_conns == a.new_udp_conns
            &&& after.conns_terminated == a.conns_terminated && after.conns_discarded
                == a.conns_discarded
        }),
{
}

/// What two ledgers hold together is the sum of what each holds, bucket by bucket and counter
/// by counter.
pub proof fn law_merge_adds_each_bucket(a: PacketLedger, b: PacketLedger, o: Outcome)
    requires
        a.can_merge(b),
    ensures
        a.merged(b).bucket(o).pkts == a.bucket(o).pkts + b.bucket(o).pkts,
        a.merged(b).bucket(o).bytes == a.bucket(o).bytes + b.bucket(o).bytes,
        a.merged(b).new_tcp_conns == a.new_tcp_conns + b.new_tcp_conns,
        a.merged(b).new_udp_conns == a.new_udp_conns + b.new_udp_conns,
        a.merged(b).conns_terminated == a.conns_terminated + b.conns_terminated,
        a.merged(b).conns_discarded == a.conns_discarded + b.conns_discarded,
{
}

/// Every frame is either tracked or dropped: with nothing unaccounted for, the two totals
/// make up what was received.
pub proof fn law_totals_make_up_what_was_received(l: PacketLedger, out: Tally, kept: Tally)
    requires
        call_ensures(PacketLedger::dropped, (&l,), out),
        call_ensures(PacketLedger::tracked_total, (&l,), kept),
        l.tracked_tcp.fits(l.tracked_udp),
        l.unaccounted_pkts() == 0,
        l.unaccounted_bytes() == 0,
    ensures
        out.pkts + kept.pkts == l.received.pkts,
        out.bytes + kept.bytes == l.received.bytes,
{
}

/// Connections are counted as opened by their protocol, and as closed by whether their end
/// was delivered.
pub proof fn law_connections_are_counted_by_kind(a: bool)
    ensures
        forall|l: &mut PacketLedger| #[trigger]
            call_ensures(record_new_conn, (l, a), ()) && (*l).new_tcp_conns < u64::MAX
                && (*l).new_udp_conns < u64::MAX ==> {
                &&& (*final(l)).new_tcp_conns == (*l).new_tcp_conns + (if a {
                    1int
                } else {
                    0
                })
                &&& (*final(l)).new_udp_conns == (*l).new_udp_conns + (if a {
                    0int
                } else {
                    1
                })
                &&& (*final(l)).conns_terminated == (*l).conns_terminated
                &&& (*final(l)).conns_discarded == (*l).conns_discarded
                &&& (*final(l)).received == (*l).received
            },
        forall|l: &mut PacketLedger| #[trigger]
            call_ensures(record_conn_closed, (l, a), ()) && (*l).conns_terminated < u64::MAX
                && (*l).conns_discarded < u64::MAX ==> {
                &&& (*final(l)).conns_terminated == (*l).conns_terminated + (if a {
                    1int
                } else {
                    0
                })
                &&& (*final(l)).conns_discarded == (*l).conns_discarded + (if a {
                    0int
                } else {
                    1
                })
                &&& (*final(l)).new_tcp_conns == (*l).new_tcp_conns
                &&& (*final(l)).new_udp_conns == (*l).new_udp_conns
                &&& (*final(l)).received == (*l).received
            },
{
}

} // verus!
