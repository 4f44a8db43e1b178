//! Flow rules that drop a connection in hardware, in both of its directions.

use crate::conntrack::pdu::{FiveTuple, IpAddr, L4Context, SocketAddr, UDP_PROTOCOL};
use crate::conntrack::tcp::TCP_PROTOCOL;
use vstd::prelude::*;

verus! {

pub const BASE_GROUP: u32 = 2;

pub const LAST_GROUP: u32 = 14;

pub const NUM_GROUPS: u32 = 13;

/// Group and priority that drop rules are installed with.
pub const DROP_GROUP: u32 = 1;

pub const DROP_PRIORITY: u32 = 0;

/// The table of a connection: spread by the low four bits of the responder's port for TCP
/// and UDP, and the first one for anything else.
pub open spec fn table_of(tuple: FiveTuple) -> int {
    if tuple.proto == TCP_PROTOCOL || tuple.proto == UDP_PROTOCOL {
        BASE_GROUP + tuple.resp.port as int % 16 % NUM_GROUPS as int
    } else {
        BASE_GROUP as int
    }
}

/// Returns the table of a connection, which is one from [`BASE_GROUP`] to [`LAST_GROUP`].
pub fn find_table(tuple: &FiveTuple) -> (t: u32)
    ensures
        t == table_of(*tuple),
        BASE_GROUP <= t <= LAST_GROUP,
{
    let nibble: u32 = if tuple.proto == TCP_PROTOCOL || tuple.proto == UDP_PROTOCOL {
        tuple.resp.port as u32 % 16
    } else {
        0
    };
    BASE_GROUP + nibble % NUM_GROUPS
}

/// Why drop rules could not be installed or uninstalled.
#[derive(Debug)]
pub enum DropFlowError {
    MismatchedIpVersions,
    UnsupportedProtocol(usize),
    /// The device refused a rule on a port, and why.
    Install { port: u16, reason: String },
    MismatchedLengths { ports: usize, flows: usize },
    /// The device could not remove a rule on a port, and why.
    Uninstall { port: u16, reason: String },
}

/// What a drop rule matches: packets from `src` to `dst` with a transport protocol, all
/// compared in full.
#[derive(Debug, Clone, Copy, PartialEq, Eq, Structural)]
pub struct DropRule {
    pub src: SocketAddr,
    pub dst: SocketAddr,
    pub proto: usize,
}

/// Both endpoints have addresses of the same kind.
pub open spec fn same_version(tuple: FiveTuple) -> bool {
    tuple.orig.ip is V4 == tuple.resp.ip is V4
}

/// The rule for the originator's packets.
pub open spec fn forward_rule(tuple: FiveTuple) -> DropRule {
    DropRule { src: tuple.orig, dst: tuple.resp, proto: tuple.proto }
}

/// The rule for the other direction.
pub open spec fn reverse(r: DropRule) -> DropRule {
    DropRule { src: r.dst, dst: r.src, proto: r.proto }
}

/// The two rules drop opposite directions of one connection.
pub proof fn law_reverse_is_an_involution(tuple: FiveTuple)
    ensures
        reverse(reverse(forward_rule(tuple))) == forward_rule(tuple),
        reverse(forward_rule(tuple)) == forward_rule(
            FiveTuple { orig: tuple.resp, resp: tuple.orig, proto: tuple.proto },
        ),
{
}

/// Where the `k`-th rule goes: one for each port forward, then one for each port in reverse.
pub open spec fn port_of_step(ports: Seq<u16>, k: int) -> u16 {
    if k < ports.len() {
        ports[k]
    } else {
        ports[k - ports.len()]
    }
}

/// The `k`-th rule.
pub open spec fn rule_of_step(tuple: FiveTuple, ports: Seq<u16>, k: int) -> DropRule {
    if k < ports.len() {
        forward_rule(tuple)
    } else {
        reverse(forward_rule(tuple))
    }
}

/// Installation of the rules that drop a connection: which rule comes next, and the handles
/// of those that the device has created.
#[derive(Debug)]
pub struct DropInstall {
    pub ports: Vec<u16>,
    pub tuple: FiveTuple,
    pub flows: Vec<u64>,
}

impl DropInstall {
    pub open spec fn wf(&self) -> bool {
        &&& self.flows@.len() <= 2 * self.ports@.len() <= usize::MAX
        &&& same_version(self.tuple)
        &&& self.tuple.proto == TCP_PROTOCOL || self.tuple.proto == UDP_PROTOCOL
    }

    /// The rule that the device is to create next, and on which port, or `None` when all are
    /// created.
    pub fn next_rule(&self) -> (r: Option<(u16, DropRule)>)
        requires
            self.wf(),
        ensures
            match r {
                Some((port, rule)) => {
                    &&& self.flows@.len() < 2 * self.ports@.len()
                    &&& port == port_of_step(self.ports@, self.flows@.len() as int)
                    &&& rule == rule_of_step(self.tuple, self.ports@, self.flows@.len() as int)
                },
                None => self.flows@.len() == 2 * self.ports@.len(),
            },
    {
        let n: usize = self.ports.len();
        let k: usize = self.flows.len();
        if k < n {
            Some(
                (
                    self.ports[k],
                    DropRule {
                        src: self.tuple.orig,
                        dst: self.tuple.resp,
                        proto: self.tuple.proto,
                    },
                ),
            )
        } else if k - n < n {
            Some(
                (
                    self.ports[k - n],
                    DropRule {
                        src: self.tuple.resp,
                        dst: self.tuple.orig,
                        proto: self.tuple.proto,
                    },
                ),
            )
        } else {
            None
        }
    }

    /// Takes what the device made of the next rule: its handle, or why it was refused, which
    /// ends the installation.
    pub fn created(&mut self, reply: Result<u64, String>) -> (r: Result<(), DropFlowError>)
        requires
            old(self).wf(),
            old(self).flows@.len() < 2 * old(self).ports@.len(),
        ensures
            final(self).wf(),
            final(self).ports@ == old(self).ports@,
            final(self).tuple == old(self).tuple,
            match reply {
                Ok(flow) => r is Ok && final(self).flows@ == old(self).flows@.push(flow),
                Err(text) => {
                    &&& final(self).flows@ == old(self).flows@
                    &&& r matches Err(DropFlowError::Install { port, reason }) && port
                        == port_of_step(old(self).ports@, old(self).flows@.len() as int)
                        && reason@ == text@
                },
            },
    {
        match reply {
            Ok(flow) => {
                self.flows.push(flow);
                Ok(())
            },
            Err(reason) => {
                let n: usize = self.ports.len();
                let k: usize = self.flows.len();
                let port: u16 = if k < n {
                    self.ports[k]
                } else {
                    self.ports[k - n]
                };
                Err(DropFlowError::Install { port, reason })
            },
        }
    }
}

/// Starts to drop a connection on some ports. Fails if its addresses are of different
/// kinds, or if it is neither TCP nor UDP.
pub fn install_drop_flow(ports: Vec<u16>, tuple: &FiveTuple) -> (r: Result<DropInstall, DropFlowError>)
    requires
        2 * ports@.len() <= usize::MAX,
    ensures
        match r {
            Ok(d) => d.wf() && d.ports@ == ports@ && d.tuple == *tuple && d.flows@.len() == 0,
            Err(DropFlowError::MismatchedIpVersions) => !same_version(*tuple),
            Err(DropFlowError::UnsupportedProtocol(p)) => same_version(*tuple) && p
                == tuple.proto && p != TCP_PROTOCOL && p != UDP_PROTOCOL,
            Err(_) => false,
        },
{
    match (tuple.orig.ip, tuple.resp.ip) {
        (IpAddr::V4(_), IpAddr::V4(_)) => {},
        (IpAddr::V6(_), IpAddr::V6(_)) => {},
        _ => {
            return Err(DropFlowError::MismatchedIpVersions);
        },
    }
    if tuple.proto != TCP_PROTOCOL && tuple.proto != UDP_PROTOCOL {
        return Err(DropFlowError::UnsupportedProtocol(tuple.proto));
    }
    Ok(DropInstall { ports, tuple: *tuple, flows: Vec::new() })
}

/// Removal of rules that were installed before: which one comes next.
#[derive(Debug)]
pub struct DropUninstall {
    pub ports: Vec<u16>,
    pub flows: Vec<u64>,
    pub done: usize,
}

/// A handle that stands for no rule.
pub const NO_FLOW: u64 = 0;

/// The first rule at or after `k` that has to be removed.
pub open spec fn next_removal(flows: Seq<u64>, k: int) -> int
    decreases flows.len() - k,
{
    if k >= flows.len() || flows[k] != NO_FLOW {
        k
    } else {
        next_removal(flows, k + 1)
    }
}

impl DropUninstall {
    pub open spec fn wf(&self) -> bool {
        &&& self.flows@.len() == 2 * self.ports@.len()
        &&& self.done <= self.flows@.len()
    }

    /// The rule that the device is to remove next, and on which port, or `None` when all are
    /// removed. Handles that stand for no rule are passed over.
    pub fn next_flow(&mut self) -> (r: Option<(u16, u64)>)
        requires
            old(self).wf(),
        ensures
            final(self).wf(),
            final(self).ports@ == old(self).ports@,
            final(self).flows@ == old(self).flows@,
            final(self).done == next_removal(old(self).flows@, old(self).done as int),
            match r {
                Some((port, flow)) => {
                    &&& final(self).done < final(self).flows@.len()
                    &&& port == port_of_step(final(self).ports@, final(self).done as int)
                    &&& flow == final(self).flows@[final(self).done as int]
                },
                None => final(self).done == final(self).flows@.len(),
            },
    {
        while self.done < self.flows.len() && self.flows[self.done] == NO_FLOW
            invariant
                self.wf(),
                self.ports@ == old(self).ports@,
                self.flows@ == old(self).flows@,
                next_removal(old(self).flows@, old(self).done as int) == next_removal(
                    self.flows@,
                    self.done as int,
                ),
            decreases self.flows@.len() - self.done,
        {
            self.done = self.done + 1;
        }
        let n: usize = self.ports.len();
        let k: usize = self.done;
        if k == self.flows.len() {
            None
        } else if k < n {
            Some((self.ports[k], self.flows[k]))
        } else {
            Some((self.ports[k - n], self.flows[k]))
        }
    }

    /// Takes what the device made of the removal: a refusal, and why, ends it.
    pub fn removed(&mut self, reply: Result<(), String>) -> (r: Result<(), DropFlowError>)
        requires
            old(self).wf(),
            old(self).done < old(self).flows@.len(),
        ensures
            final(self).wf(),
            final(self).ports@ == old(self).ports@,
            final(self).flows@ == old(self).flows@,
            match reply {
                Ok(()) => r is Ok && final(self).done == old(self).done + 1,
                Err(text) => {
                    &&& final(self).done == old(self).done
                    &&& r matches Err(DropFlowError::Uninstall { port, reason }) && port
                        == port_of_step(old(self).ports@, old(self).done as int) && reason@
                        == text@
                },
            },
    {
        let total: usize = self.flows.len();
        match reply {
            Ok(()) => {
                assert(self.done < total);
                self.done = self.done + 1;
                Ok(())
            },
            Err(reason) => {
                let n: usize = self.ports.len();
                let port: u16 = if self.done < n {
                    self.ports[self.done]
                } else {
                    self.ports[self.done - n]
                };
                Err(DropFlowError::Uninstall { port, reason })
            },
        }
    }
}

/// Starts to remove rules. There must be two for each port, as they were installed.
pub fn uninstall_drop_flow(ports: Vec<u16>, flows: Vec<u64>) -> (r: Result<DropUninstall, DropFlowError>)
    ensures
        match r {
            Ok(d) => d.wf() && d.ports@ == ports@ && d.flows@ == flows@ && d.done == 0,
            Err(DropFlowError::MismatchedLengths { ports: p, flows: f }) => p == ports@.len()
                && f == flows@.len() && f != 2 * p,
            Err(_) => false,
        },
{
    let n: usize = ports.len();
    let m: usize = flows.len();
    if n > m || m - n != n {
        return Err(DropFlowError::MismatchedLengths { ports: n, flows: m });
    }
    Ok(DropUninstall { ports, flows, done: 0 })
}

/// A finished installation can be removed: the rules are as many as a removal asks for, and
/// each is removed on the port that it was created on.
pub proof fn law_installed_rules_can_be_removed(
    install: DropInstall,
    uninstall: DropUninstall,
    k: int,
)
    requires
        install.wf(),
        install.flows@.len() == 2 * install.ports@.len(),
        uninstall.ports@ == install.ports@,
        uninstall.flows@ == install.flows@,
        uninstall.done == 0,
        0 <= k < install.flows@.len(),
    ensures
        uninstall.wf(),
        port_of_step(uninstall.ports@, k) == port_of_step(install.ports@, k),
        0 <= next_removal(uninstall.flows@, k),
        k <= next_removal(uninstall.flows@, k) <= uninstall.flows@.len(),
        uninstall.flows@[k] != NO_FLOW ==> next_removal(uninstall.flows@, k) == k,
{
    lemma_next_removal(uninstall.flows@, k);
}

proof fn lemma_next_removal(flows: Seq<u64>, k: int)
    requires
        0 <= k <= flows.len(),
    ensures
        k <= next_removal(flows, k) <= flows.len(),
    decreases flows.len() - k,
{
    if k < flows.len() && flows[k] == NO_FLOW {
        lemma_next_removal(flows, k + 1);
    }
}

/// A rule matches a packet.
pub open spec fn drops(rule: DropRule, ctxt: L4Context) -> bool {
    rule.src == ctxt.src && rule.dst == ctxt.dst && rule.proto == ctxt.proto
}

/// The packet is one of the connection, in one direction or the other.
pub open spec fn is_packet_of(tuple: FiveTuple, ctxt: L4Context) -> bool {
    tuple.proto == ctxt.proto && ((tuple.orig == ctxt.src && tuple.resp == ctxt.dst) || (tuple.orig
        == ctxt.dst && tuple.resp == ctxt.src))
}

/// Once all rules are created, every packet of the connection is dropped on every port, in
/// both directions, and no packet of another connection is on any.
pub proof fn law_rules_drop_the_connection_alone(
    tuple: FiveTuple,
    ports: Seq<u16>,
    port: u16,
    ctxt: L4Context,
)
    requires
        ports.contains(port),
    ensures
        is_packet_of(tuple, ctxt) <==> exists|k: int|
            0 <= k < 2 * ports.len() && port_of_step(ports, k) == port && drops(
                #[trigger] rule_of_step(tuple, ports, k),
                ctxt,
            ),
{
    let j = choose|j: int| 0 <= j < ports.len() && ports[j] == port;
    if tuple.orig == ctxt.src && tuple.resp == ctxt.dst && tuple.proto == ctxt.proto {
        assert(drops(rule_of_step(tuple, ports, j), ctxt));
    }
    if tuple.orig == ctxt.dst && tuple.resp == ctxt.src && tuple.proto == ctxt.proto {
        assert(port_of_step(ports, j + ports.len()) == port);
        assert(drops(rule_of_step(tuple, ports, j + ports.len()), ctxt));
    }
}

/// Rules are removed in turn: those that are passed over stand for no rule, and the next one
/// does.
pub proof fn law_removal_passes_over_nothing_else(flows: Seq<u64>, k: int, i: int)
    requires
        0 <= k <= flows.len(),
    ensures
        k <= i < next_removal(flows, k) ==> flows[i] == 0,
        next_removal(flows, k) < flows.len() ==> flows[next_removal(flows, k)] != 0,
    decreases flows.len() - k,
{
    if k < flows.len() && flows[k] == NO_FLOW {
        law_removal_passes_over_nothing_else(flows, k + 1, i);
    }
}

/// Both directions of a TCP or UDP connection would be looked up in a table of the range, and
/// connections with the same responder's port share it.
pub proof fn law_tables_go_by_the_responder(a: FiveTuple, b: FiveTuple, s: u32, t: u32)
    requires
        call_ensures(find_table, (&a,), s),
        call_ensures(find_table, (&b,), t),
        a.resp.port == b.resp.port,
        a.proto == 6 || a.proto == 17,
        b.proto == 6 || b.proto == 17,
    ensures
        s == t,
        2 <= s <= 14,
        a.resp.port % 16 < 13 ==> s == 2 + a.resp.port % 16,
{
}

} // verus!
