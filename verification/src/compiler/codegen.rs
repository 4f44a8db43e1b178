//! Code for filters: from trees of predicates to the statements of the functions that walk
//! them.

use crate::compiler::decoder::SubscriptionDecoder;
use crate::compiler::levels::has_level;
use crate::compiler::names::{copy_names, texts};
use crate::compiler::subscriptions::{CallbackSpec, SubscriptionSpec, TxModel};
use crate::conntrack::conn_state::{LayerState, StateTransition, StateTxOrd};
use crate::protocols::SessionProto;
use vstd::prelude::*;

verus! {

/// A predicate of a tree. Conditions whose text is not needed here are given by a number.
#[derive(Debug, Clone, Copy, PartialEq, Eq, Structural)]
pub enum NodePred {
    /// The packet is of a protocol below the application layer.
    Packet { protocol: SessionProto },
    /// The connection is of an application-layer protocol.
    Service { protocol: SessionProto },
    /// A field of a packet, or of a session, compares with a value.
    Field { protocol: SessionProto, session: bool, condition: usize },
    /// A layer is in some state.
    LayerState { l7: bool, state: LayerState, condition: usize },
    /// A custom filter has matched, or may still match.
    Custom { filter: usize, matched: bool },
    /// A callback is active.
    Callback { subscription: usize },
}

/// A node of a tree.
#[derive(Debug)]
pub struct PNode {
    pub pred: NodePred,
    /// Numbers of the nodes below it.
    pub children: Vec<usize>,
    /// It is tested only if the one before it was not met.
    pub if_else: bool,
    /// There is something to do for the connection when it is met.
    pub has_actions: bool,
    /// Meeting it decides the packet filter.
    pub is_terminal: bool,
    /// Subscriptions that match here.
    pub matched: Vec<usize>,
    /// Subscriptions whose callbacks are invoked here.
    pub deliver: Vec<usize>,
    /// Expensive datatypes that stay wanted here.
    pub filtered_datatypes: Vec<usize>,
}

/// A tree: the root is the first node, and each node comes after the one above it.
#[derive(Debug)]
pub struct PTree {
    pub nodes: Vec<PNode>,
}

/// What a statement tests.
#[derive(Debug, Clone, Copy, PartialEq, Eq, Structural)]
pub enum Condition {
    /// A header of the protocol can be read.
    ParsesTo(SessionProto),
    /// The protocol that was identified on the connection.
    LastProtocol(SessionProto),
    /// A session of the protocol was parsed; binds it.
    LastSession(SessionProto),
    Field(usize),
    LayerState(usize),
    Custom { filter: usize, matched: bool },
    CallbackActive(usize),
}

/// A statement, or a part of one.
#[derive(Debug, Clone, Copy, PartialEq, Eq, Structural)]
pub enum Statement {
    If(Condition),
    ElseIf(Condition),
    /// Closes the last `If` or `ElseIf` that is open.
    End,
    /// Keeps up what is to be done for the connection at a node.
    Actions(usize),
    SetActive(usize),
    Deliver { node: usize, subscription: usize },
    FilteredData(usize),
    ReturnTrue,
}

/// The tree has a root, and nodes come after the ones above them.
pub open spec fn is_tree(nodes: Seq<PNode>) -> bool {
    &&& nodes.len() > 0
    &&& forall|i: int, k: int|
        0 <= i < nodes.len() && 0 <= k < nodes[i].children@.len() ==> i
            < #[trigger] nodes[i].children@[k] < nodes.len()
}

/// A callback's node delivers to that callback only, and ends its pattern: what is below it
/// only waits for a layer's state, with something to do meanwhile.
pub open spec fn callback_node_ok(nodes: Seq<PNode>, i: int) -> bool {
    nodes[i].pred matches NodePred::Callback { subscription } ==> {
        &&& forall|k: int|
            0 <= k < nodes[i].deliver@.len() ==> #[trigger] nodes[i].deliver@[k] == subscription
        &&& forall|k: int|
            0 <= k < nodes[i].children@.len() ==> {
                let c = #[trigger] nodes[i].children@[k] as int;
                nodes[c].pred is LayerState && nodes[c].children@.len() == 0
                    && nodes[c].has_actions
            }
    }
}

impl PTree {
    pub open spec fn wf(&self) -> bool {
        &&& is_tree(self.nodes@)
        &&& forall|i: int| 0 <= i < self.nodes@.len() ==> #[trigger] callback_node_ok(self.nodes@, i)
    }
}

/// Some node below `i`, among the first `n` children and what is below them, reads a field of
/// a session of the protocol.
pub open spec fn binds_session(nodes: Seq<PNode>, i: int, n: int, p: SessionProto) -> bool
    decreases nodes.len() - i, n,
{
    if n <= 0 || !(0 <= i < nodes.len()) || n > nodes[i].children@.len() {
        false
    } else {
        let c = nodes[i].children@[n - 1] as int;
        ||| binds_session(nodes, i, n - 1, p)
        ||| (i < c < nodes.len() && (reads_session(nodes[c].pred, p) || binds_session(
            nodes,
            c,
            nodes[c].children@.len() as int,
            p,
        )))
    }
}

/// The predicate reads a field of a session of the protocol.
pub open spec fn reads_session(pred: NodePred, p: SessionProto) -> bool {
    pred matches NodePred::Field { protocol, session, .. } && session && protocol == p
}

pub open spec fn set_active(s: Seq<usize>) -> Seq<Statement> {
    Seq::new(s.len(), |i: int| Statement::SetActive(s[i]))
}

pub open spec fn deliveries(node: usize, s: Seq<usize>) -> Seq<Statement> {
    Seq::new(s.len(), |i: int| Statement::Deliver { node, subscription: s[i] })
}

pub open spec fn filtered_data(s: Seq<usize>) -> Seq<Statement> {
    Seq::new(s.len(), |i: int| Statement::FilteredData(s[i]))
}

pub open spec fn actions(node: PNode, i: int) -> Seq<Statement> {
    if node.has_actions {
        seq![Statement::Actions(i as usize)]
    } else {
        Seq::empty()
    }
}

/// What is done when a node is met. A subscription is set active before anything is
/// delivered to it.
pub open spec fn node_body(node: PNode, i: int) -> Seq<Statement> {
    actions(node, i) + set_active(node.matched@) + deliveries(i as usize, node.deliver@)
        + filtered_data(node.filtered_datatypes@)
}

/// Opens a block.
pub open spec fn opened(chained: bool, c: Condition) -> Seq<Statement> {
    if chained {
        seq![Statement::ElseIf(c)]
    } else {
        seq![Statement::If(c)]
    }
}

/// Some child among the first `n` tests for a protocol below the application layer.
pub open spec fn packet_before(nodes: Seq<PNode>, i: int, n: int) -> bool {
    exists|k: int|
        0 <= k < n && nodes[#[trigger] nodes[i].children@[k] as int].pred is Packet
}

/// The test for an application-layer protocol. A session is bound only if something below
/// reads it: for a pattern that only names the protocol, no session may ever be parsed, so
/// the test is for the protocol that was identified.
pub open spec fn service_condition(
    nodes: Seq<PNode>,
    c: int,
    p: SessionProto,
    sessions: bool,
) -> Condition {
    if sessions && binds_session(nodes, c, nodes[c].children@.len() as int, p) {
        Condition::LastSession(p)
    } else {
        Condition::LastProtocol(p)
    }
}

/// Sessions may be bound below a node: its state implies that headers were parsed.
pub open spec fn sessions_below(pred: NodePred, sessions: bool) -> bool {
    sessions || (pred matches NodePred::LayerState { l7, state, .. } && l7 && state.rank()
        >= LayerState::Payload.rank())
}

/// The test of a node, and whether it is chained to the one before it.
pub open spec fn test_of(
    nodes: Seq<PNode>,
    i: int,
    n: int,
    sessions: bool,
) -> (bool, Condition) {
    let c = nodes[i].children@[n] as int;
    match nodes[c].pred {
        NodePred::Packet { protocol } => (
            packet_before(nodes, i, n),
            Condition::ParsesTo(protocol),
        ),
        NodePred::Service { protocol } => (
            nodes[c].if_else,
            service_condition(nodes, c, protocol, sessions),
        ),
        NodePred::Field { condition, .. } => (nodes[c].if_else, Condition::Field(condition)),
        NodePred::LayerState { condition, .. } => (
            nodes[c].if_else,
            Condition::LayerState(condition),
        ),
        NodePred::Custom { filter, matched } => (
            nodes[c].if_else,
            Condition::Custom { filter, matched },
        ),
        NodePred::Callback { subscription } => (false, Condition::CallbackActive(subscription)),
    }
}

/// The statements for a node, given its test and the statements for what is below it. A
/// callback that is ready is invoked, or set active, before its own test.
pub open spec fn child_code(
    node: PNode,
    c: int,
    chained: bool,
    test: Condition,
    below: Seq<Statement>,
) -> Seq<Statement> {
    if node.pred is Callback {
        deliveries(c as usize, node.deliver@) + opened(chained, test) + actions(node, c) + below
            + seq![Statement::End]
    } else {
        opened(chained, test) + node_body(node, c) + below + seq![Statement::End]
    }
}

/// The statements for the first `n` children of a node.
pub open spec fn state_code(nodes: Seq<PNode>, i: int, n: int, sessions: bool) -> Seq<Statement>
    decreases nodes.len() - i, n,
{
    if n <= 0 || !(0 <= i < nodes.len()) || n > nodes[i].children@.len() {
        Seq::empty()
    } else {
        let c = nodes[i].children@[n - 1] as int;
        let before = state_code(nodes, i, n - 1, sessions);
        if !(i < c < nodes.len()) {
            before
        } else {
            let (chained, test) = test_of(nodes, i, n - 1, sessions);
            let below = state_code(
                nodes,
                c,
                nodes[c].children@.len() as int,
                sessions_below(nodes[c].pred, sessions),
            );
            before + child_code(nodes[c], c, chained, test, below)
        }
    }
}

/// A pattern that only names an application-layer protocol is tested on the protocol that was
/// identified, never on a session that was parsed: if nothing below reads a session, none is
/// bound. And a session is bound wherever something below reads it and sessions are there.
pub proof fn law_protocol_only_patterns_test_the_protocol(
    nodes: Seq<PNode>,
    i: int,
    n: int,
    sessions: bool,
    p: SessionProto,
)
    requires
        is_tree(nodes),
        0 <= i < nodes.len(),
        0 <= n < nodes[i].children@.len(),
        nodes[nodes[i].children@[n] as int].pred == (NodePred::Service { protocol: p }),
    ensures
        ({
            let c = nodes[i].children@[n] as int;
            let read = binds_session(nodes, c, nodes[c].children@.len() as int, p);
            &&& test_of(nodes, i, n, sessions).1 == Condition::LastSession(p) <==> sessions
                && read
            &&& !read ==> test_of(nodes, i, n, sessions).1 == Condition::LastProtocol(p)
        }),
{
}

/// A session is bound only where some node below reads one of its fields.
pub proof fn law_bound_sessions_are_read(nodes: Seq<PNode>, i: int, n: int, p: SessionProto)
    requires
        is_tree(nodes),
        0 <= i < nodes.len(),
        binds_session(nodes, i, n, p),
    ensures
        exists|k: int| i < k < nodes.len() && reads_session((#[trigger] nodes[k]).pred, p),
    decreases nodes.len() - i, n,
{
    let c = nodes[i].children@[n - 1] as int;
    if binds_session(nodes, i, n - 1, p) {
        law_bound_sessions_are_read(nodes, i, n - 1, p);
    } else if reads_session(nodes[c].pred, p) {
        assert(reads_session(nodes[c].pred, p));
    } else {
        law_bound_sessions_are_read(nodes, c, nodes[c].children@.len() as int, p);
    }
}

/// The packet filter walks into the node.
pub open spec fn on_packet(pred: NodePred) -> bool {
    match pred {
        NodePred::Packet { .. } => true,
        NodePred::Field { session, .. } => !session,
        _ => false,
    }
}

pub open spec fn accepted(node: PNode) -> Seq<Statement> {
    if node.is_terminal {
        seq![Statement::ReturnTrue]
    } else {
        Seq::empty()
    }
}

/// The statements of the packet filter for the first `n` children of a node. The first match
/// decides.
pub open spec fn packet_code(nodes: Seq<PNode>, i: int, n: int) -> Seq<Statement>
    decreases nodes.len() - i, n,
{
    if n <= 0 || !(0 <= i < nodes.len()) || n > nodes[i].children@.len() {
        Seq::empty()
    } else {
        let c = nodes[i].children@[n - 1] as int;
        let before = packet_code(nodes, i, n - 1);
        if !(i < c < nodes.len()) || !on_packet(nodes[c].pred) {
            before
        } else {
            let below = packet_code(nodes, c, nodes[c].children@.len() as int);
            let (chained, test) = match nodes[c].pred {
                NodePred::Packet { protocol } => (
                    packet_before(nodes, i, n - 1),
                    Condition::ParsesTo(protocol),
                ),
                NodePred::Field { condition, .. } => (false, Condition::Field(condition)),
                _ => (false, Condition::Field(0)),
            };
            before + opened(chained, test) + below + accepted(nodes[c]) + seq![Statement::End]
        }
    }
}

/// Nothing is delivered at the nodes that the packet filter reaches below the first `n`
/// children of a node, nor at those children.
pub open spec fn delivers_nothing(nodes: Seq<PNode>, i: int, n: int) -> bool
    decreases nodes.len() - i, n,
{
    if n <= 0 || !(0 <= i < nodes.len()) || n > nodes[i].children@.len() {
        true
    } else {
        let c = nodes[i].children@[n - 1] as int;
        &&& delivers_nothing(nodes, i, n - 1)
        &&& (i < c < nodes.len()) && on_packet(nodes[c].pred) ==> nodes[c].deliver@.len() == 0
            && delivers_nothing(nodes, c, nodes[c].children@.len() as int)
    }
}

/// The tree is one for a packet filter: it has no subscriptions to single packets.
pub open spec fn is_packet_tree(nodes: Seq<PNode>) -> bool {
    &&& nodes[0].is_terminal ==> nodes[0].deliver@.len() == 0
    &&& delivers_nothing(nodes, 0, nodes[0].children@.len() as int)
}

/// The statements of the packet filter.
pub open spec fn packet_filter(nodes: Seq<PNode>) -> Seq<Statement> {
    accepted(nodes[0]) + packet_code(nodes, 0, nodes[0].children@.len() as int)
}

/// The statements of the function that handles a state transition: what is done for every
/// connection, and then the tree.
pub open spec fn state_filter(nodes: Seq<PNode>, tx: StateTransition) -> Seq<Statement> {
    let sessions = tx.order(StateTransition::L7EndHdrs) == StateTxOrd::Greater || tx.order(
        StateTransition::L7EndHdrs,
    ) == StateTxOrd::Equal;
    let root = if nodes[0].deliver@.len() > 0 || nodes[0].has_actions {
        node_body(nodes[0], 0)
    } else {
        Seq::empty()
    };
    root + state_code(nodes, 0, nodes[0].children@.len() as int, sessions)
}

impl PTree {
    /// Returns `true` if the tree is one that code can be generated for.
    pub fn is_well_formed(&self) -> (b: bool)
        ensures
            b == self.wf(),
    {
        if self.nodes.len() == 0 {
            return false;
        }
        let mut i: usize = 0;
        while i < self.nodes.len()
            invariant
                i <= self.nodes@.len(),
                self.nodes@.len() > 0,
                forall|j: int, k: int|
                    0 <= j < i && 0 <= k < self.nodes@[j].children@.len() ==> j
                        < #[trigger] self.nodes@[j].children@[k] < self.nodes@.len(),
                forall|j: int| 0 <= j < i ==> #[trigger] callback_node_ok(self.nodes@, j),
            decreases self.nodes@.len() - i,
        {
            if !self.are_children_ok(i) {
                return false;
            }
            if !self.is_callback_node_ok(i) {
                return false;
            }
            i = i + 1;
        }
        true
    }

    fn are_children_ok(&self, i: usize) -> (b: bool)
        requires
            i < self.nodes@.len(),
        ensures
            b == forall|k: int|
                0 <= k < self.nodes@[i as int].children@.len() ==> i
                    < #[trigger] self.nodes@[i as int].children@[k] < self.nodes@.len(),
    {
        let node = &self.nodes[i];
        let mut k: usize = 0;
        while k < node.children.len()
            invariant
                i < self.nodes@.len(),
                *node == self.nodes@[i as int],
                k <= node.children@.len(),
                forall|j: int|
                    0 <= j < k ==> i < #[trigger] self.nodes@[i as int].children@[j]
                        < self.nodes@.len(),
            decreases node.children@.len() - k,
        {
            if node.children[k] <= i || node.children[k] >= self.nodes.len() {
                assert(!(i < self.nodes@[i as int].children@[k as int] < self.nodes@.len()));
                return false;
            }
            k = k + 1;
        }
        true
    }

    fn is_callback_node_ok(&self, i: usize) -> (b: bool)
        requires
            i < self.nodes@.len(),
            forall|k: int|
                0 <= k < self.nodes@[i as int].children@.len() ==> i
                    < #[trigger] self.nodes@[i as int].children@[k] < self.nodes@.len(),
        ensures
            b == callback_node_ok(self.nodes@, i as int),
    {
        let node = &self.nodes[i];
        match node.pred {
            NodePred::Callback { subscription } => {
                let mut k: usize = 0;
                while k < node.deliver.len()
                    invariant
                        i < self.nodes@.len(),
                        *node == self.nodes@[i as int],
                        node.pred == (NodePred::Callback { subscription }),
                        k <= node.deliver@.len(),
                        forall|j: int|
                            0 <= j < k ==> #[trigger] self.nodes@[i as int].deliver@[j]
                                == subscription,
                    decreases node.deliver@.len() - k,
                {
                    if node.deliver[k] != subscription {
                        assert(self.nodes@[i as int].deliver@[k as int] != subscription);
                        return false;
                    }
                    k = k + 1;
                }
                let mut k: usize = 0;
                while k < node.children.len()
                    invariant
                        i < self.nodes@.len(),
                        *node == self.nodes@[i as int],
                        node.pred == (NodePred::Callback { subscription }),
                        k <= node.children@.len(),
                        forall|j: int|
                            0 <= j < self.nodes@[i as int].children@.len() ==> i
                                < #[trigger] self.nodes@[i as int].children@[j]
                                < self.nodes@.len(),
                        forall|j: int|
                            0 <= j < k ==> {
                                let c = #[trigger] self.nodes@[i as int].children@[j] as int;
                                self.nodes@[c].pred is LayerState
                                    && self.nodes@[c].children@.len() == 0
                                    && self.nodes@[c].has_actions
                            },
                    decreases node.children@.len() - k,
                {
                    assert(i < self.nodes@[i as int].children@[k as int] < self.nodes@.len());
                    let child = &self.nodes[node.children[k]];
                    if !matches!(child.pred, NodePred::LayerState { .. }) || child.children.len()
                        > 0 || !child.has_actions {
                        return false;
                    }
                    k = k + 1;
                }
                true
            },
            _ => true,
        }
    }

    /// Returns `true` if some node below reads a field of a session of the protocol, and so
    /// needs the session to be bound.
    pub fn binds_session(&self, i: usize, protocol: SessionProto) -> (b: bool)
        requires
            is_tree(self.nodes@),
            i < self.nodes@.len(),
        ensures
            b == binds_session(
                self.nodes@,
                i as int,
                self.nodes@[i as int].children@.len() as int,
                protocol,
            ),
        decreases self.nodes@.len() - i,
    {
        let node = &self.nodes[i];
        let mut found: bool = false;
        let mut k: usize = 0;
        while k < node.children.len()
            invariant
                is_tree(self.nodes@),
                i < self.nodes@.len(),
                *node == self.nodes@[i as int],
                k <= node.children@.len(),
                found == binds_session(self.nodes@, i as int, k as int, protocol),
            decreases node.children@.len() - k,
        {
            assert(i < self.nodes@[i as int].children@[k as int] < self.nodes@.len());
            let c: usize = node.children[k];
            let reads: bool = match self.nodes[c].pred {
                NodePred::Field { protocol: p, session, condition: _ } => session && p == protocol,
                _ => false,
            };
            let below: bool = self.binds_session(c, protocol);
            found = found || reads || below;
            k = k + 1;
        }
        found
    }

    fn add_body(&self, code: &mut Vec<Statement>, i: usize)
        requires
            i < self.nodes@.len(),
        ensures
            final(code)@ == old(code)@ + node_body(self.nodes@[i as int], i as int),
    {
        let node = &self.nodes[i];
        let ghost before = code@;
        if node.has_actions {
            code.push(Statement::Actions(i));
        }
        assert(code@ =~= before + actions(*node, i as int));
        let ghost first = code@;
        let mut k: usize = 0;
        assert(first + set_active(node.matched@).take(0) =~= first);
        while k < node.matched.len()
            invariant
                k <= node.matched@.len(),
                code@ == first + set_active(node.matched@).take(k as int),
            decreases node.matched@.len() - k,
        {
            code.push(Statement::SetActive(node.matched[k]));
            k = k + 1;
            assert(code@ =~= first + set_active(node.matched@).take(k as int));
        }
        assert(set_active(node.matched@).take(k as int) =~= set_active(node.matched@));
        self.add_deliveries(code, i);
        let ghost third = code@;
        let mut k: usize = 0;
        assert(third + filtered_data(node.filtered_datatypes@).take(0) =~= third);
        while k < node.filtered_datatypes.len()
            invariant
                k <= node.filtered_datatypes@.len(),
                code@ == third + filtered_data(node.filtered_datatypes@).take(k as int),
            decreases node.filtered_datatypes@.len() - k,
        {
            code.push(Statement::FilteredData(node.filtered_datatypes[k]));
            k = k + 1;
            assert(code@ =~= third + filtered_data(node.filtered_datatypes@).take(k as int));
        }
        assert(filtered_data(node.filtered_datatypes@).take(k as int) =~= filtered_data(
            node.filtered_datatypes@,
        ));
        assert(code@ =~= before + node_body(*node, i as int));
    }

    fn add_deliveries(&self, code: &mut Vec<Statement>, i: usize)
        requires
            i < self.nodes@.len(),
        ensures
            final(code)@ == old(code)@ + deliveries(i, self.nodes@[i as int].deliver@),
    {
        let node = &self.nodes[i];
        let ghost before = code@;
        let mut k: usize = 0;
        assert(before + deliveries(i, node.deliver@).take(0) =~= before);
        while k < node.deliver.len()
            invariant
                before == old(code)@,
                k <= node.deliver@.len(),
                code@ == before + deliveries(i, node.deliver@).take(k as int),
            decreases node.deliver@.len() - k,
        {
            code.push(Statement::Deliver { node: i, subscription: node.deliver[k] });
            k = k + 1;
            assert(code@ =~= before + deliveries(i, node.deliver@).take(k as int));
        }
        assert(deliveries(i, node.deliver@).take(k as int) =~= deliveries(i, node.deliver@));
    }

    /// The test of a node, and whether it is chained to the one before it.
    fn test_for(&self, i: usize, k: usize, packet_seen: bool, sessions: bool) -> (r: (
        bool,
        Condition,
    ))
        requires
            self.wf(),
            i < self.nodes@.len(),
            k < self.nodes@[i as int].children@.len(),
            packet_seen == packet_before(self.nodes@, i as int, k as int),
        ensures
            r == test_of(self.nodes@, i as int, k as int, sessions),
    {
        assert(i < self.nodes@[i as int].children@[k as int] < self.nodes@.len());
        let c: usize = self.nodes[i].children[k];
        let if_else: bool = self.nodes[c].if_else;
        match self.nodes[c].pred {
            NodePred::Packet { protocol } => (packet_seen, Condition::ParsesTo(protocol)),
            NodePred::Service { protocol } => {
                if sessions && self.binds_session(c, protocol) {
                    (if_else, Condition::LastSession(protocol))
                } else {
                    (if_else, Condition::LastProtocol(protocol))
                }
            },
            NodePred::Field { protocol: _, session: _, condition } => (
                if_else,
                Condition::Field(condition),
            ),
            NodePred::LayerState { l7: _, state: _, condition } => (
                if_else,
                Condition::LayerState(condition),
            ),
            NodePred::Custom { filter, matched } => (
                if_else,
                Condition::Custom { filter, matched },
            ),
            NodePred::Callback { subscription } => (false, Condition::CallbackActive(subscription)),
        }
    }

    /// Generates the statements for a node, given its test.
    fn add_child(
        &self,
        code: &mut Vec<Statement>,
        c: usize,
        chained: bool,
        test: Condition,
        sessions: bool,
    )
        requires
            self.wf(),
            c < self.nodes@.len(),
        ensures
            final(code)@ == old(code)@ + child_code(
                self.nodes@[c as int],
                c as int,
                chained,
                test,
                state_code(
                    self.nodes@,
                    c as int,
                    self.nodes@[c as int].children@.len() as int,
                    sessions_below(self.nodes@[c as int].pred, sessions),
                ),
            ),
        decreases self.nodes@.len() - c, 1int,
    {
        let ghost before = code@;
        let ghost node = self.nodes@[c as int];
        let pred = self.nodes[c].pred;
        let below: bool = sessions || match pred {
            NodePred::LayerState { l7, state, condition: _ } => l7 && state.at_least(
                &LayerState::Payload,
            ),
            _ => false,
        };
        let ghost rest = state_code(
            self.nodes@,
            c as int,
            node.children@.len() as int,
            sessions_below(node.pred, sessions),
        );
        let ghost start = opened(chained, test);
        if matches!(pred, NodePred::Callback { .. }) {
            self.add_deliveries(code, c);
            self.open_block(code, chained, test);
            let ghost open = code@;
            if self.nodes[c].has_actions {
                code.push(Statement::Actions(c));
            }
            assert(code@ =~= open + actions(node, c as int));
            self.gen_state_filter_util(code, c, below);
            let ghost done = code@;
            code.push(Statement::End);
            proof {
                assert(code@ =~= done + seq![Statement::End]);
                let first = deliveries(c, node.deliver@);
                lemma_concat(before, first, start, actions(node, c as int), rest);
            }
        } else {
            self.open_block(code, chained, test);
            self.add_body(code, c);
            self.gen_state_filter_util(code, c, below);
            let ghost done = code@;
            code.push(Statement::End);
            proof {
                assert(code@ =~= done + seq![Statement::End]);
                let body = node_body(node, c as int);
                lemma_concat(before, Seq::empty(), start, body, rest);
                assert(before + Seq::<Statement>::empty() =~= before);
                assert(Seq::<Statement>::empty() + start =~= start);
            }
        }
    }

    fn open_block(&self, code: &mut Vec<Statement>, chained: bool, test: Condition)
        ensures
            final(code)@ == old(code)@ + opened(chained, test),
    {
        let ghost before = code@;
        if chained {
            code.push(Statement::ElseIf(test));
        } else {
            code.push(Statement::If(test));
        }
        assert(code@ =~= before + opened(chained, test));
    }

    /// Generates the statements for the nodes below a node.
    pub fn gen_state_filter_util(&self, code: &mut Vec<Statement>, i: usize, sessions: bool)
        requires
            self.wf(),
            i < self.nodes@.len(),
        ensures
            final(code)@ == old(code)@ + state_code(
                self.nodes@,
                i as int,
                self.nodes@[i as int].children@.len() as int,
                sessions,
            ),
        decreases self.nodes@.len() - i, 0int,
    {
        let ghost first = code@;
        let mut packet_seen: bool = false;
        let mut k: usize = 0;
        assert(first + Seq::<Statement>::empty() =~= first);
        while k < self.nodes[i].children.len()
            invariant
                self.wf(),
                i < self.nodes@.len(),
                k <= self.nodes@[i as int].children@.len(),
                first == old(code)@,
                packet_seen == packet_before(self.nodes@, i as int, k as int),
                code@ == first + state_code(self.nodes@, i as int, k as int, sessions),
            decreases self.nodes@[i as int].children@.len() - k,
        {
            assert(i < self.nodes@[i as int].children@[k as int] < self.nodes@.len());
            let c: usize = self.nodes[i].children[k];
            let ghost before = code@;
            let (chained, test) = self.test_for(i, k, packet_seen, sessions);
            self.add_child(code, c, chained, test, sessions);
            proof {
                lemma_packet_before(self.nodes@, i as int, k as int);
                assert(code@ =~= first + state_code(self.nodes@, i as int, k + 1, sessions));
            }
            packet_seen = packet_seen || matches!(self.nodes[c].pred, NodePred::Packet { .. });
            k = k + 1;
        }
    }

    /// Generates the body of the function that handles a state transition.
    pub fn gen_state_filter(&self, tx: StateTransition) -> (code: Vec<Statement>)
        requires
            self.wf(),
        ensures
            code@ == state_filter(self.nodes@, tx),
    {
        let mut code: Vec<Statement> = Vec::new();
        let order = tx.compare(&StateTransition::L7EndHdrs);
        let sessions: bool = matches!(order, StateTxOrd::Greater | StateTxOrd::Equal);
        // What is delivered, or done, for every connection.
        if self.nodes[0].deliver.len() > 0 || self.nodes[0].has_actions {
            self.add_body(&mut code, 0);
        }
        self.gen_state_filter_util(&mut code, 0, sessions);
        assert(code@ =~= state_filter(self.nodes@, tx));
        code
    }

    fn gen_packet_filter_util(&self, code: &mut Vec<Statement>, i: usize)
        requires
            is_tree(self.nodes@),
            i < self.nodes@.len(),
        ensures
            final(code)@ == old(code)@ + packet_code(
                self.nodes@,
                i as int,
                self.nodes@[i as int].children@.len() as int,
            ),
        decreases self.nodes@.len() - i,
    {
        let node = &self.nodes[i];
        let ghost first = code@;
        let mut packet_seen: bool = false;
        let mut k: usize = 0;
        assert(first + Seq::<Statement>::empty() =~= first);
        while k < node.children.len()
            invariant
                is_tree(self.nodes@),
                i < self.nodes@.len(),
                *node == self.nodes@[i as int],
                k <= node.children@.len(),
                first == old(code)@,
                packet_seen == packet_before(self.nodes@, i as int, k as int),
                code@ == first + packet_code(self.nodes@, i as int, k as int),
            decreases node.children@.len() - k,
        {
            assert(i < self.nodes@[i as int].children@[k as int] < self.nodes@.len());
            let c: usize = node.children[k];
            let pred = self.nodes[c].pred;
            let ghost before = code@;
            let test = match pred {
                NodePred::Packet { protocol } => Some((packet_seen, Condition::ParsesTo(protocol))),
                NodePred::Field { protocol: _, session, condition } => if session {
                    None
                } else {
                    Some((false, Condition::Field(condition)))
                },
                _ => None,
            };
            match test {
                Some((chained, condition)) => {
                    if chained {
                        code.push(Statement::ElseIf(condition));
                    } else {
                        code.push(Statement::If(condition));
                    }
                    assert(code@ =~= before + opened(chained, condition));
                    self.gen_packet_filter_util(code, c);
                    let ghost below = code@;
                    if self.nodes[c].is_terminal {
                        code.push(Statement::ReturnTrue);
                    }
                    assert(code@ =~= below + accepted(self.nodes@[c as int]));
                    code.push(Statement::End);
                },
                None => {},
            }
            proof {
                lemma_packet_before(self.nodes@, i as int, k as int);
                assert(code@ =~= first + packet_code(self.nodes@, i as int, k + 1));
            }
            packet_seen = packet_seen || matches!(pred, NodePred::Packet { .. });
            k = k + 1;
        }
    }

    fn is_nothing_delivered(&self, i: usize) -> (b: bool)
        requires
            is_tree(self.nodes@),
            i < self.nodes@.len(),
        ensures
            b == delivers_nothing(
                self.nodes@,
                i as int,
                self.nodes@[i as int].children@.len() as int,
            ),
        decreases self.nodes@.len() - i,
    {
        let node = &self.nodes[i];
        let mut quiet: bool = true;
        let mut k: usize = 0;
        while k < node.children.len()
            invariant
                is_tree(self.nodes@),
                i < self.nodes@.len(),
                *node == self.nodes@[i as int],
                k <= node.children@.len(),
                quiet == delivers_nothing(self.nodes@, i as int, k as int),
            decreases node.children@.len() - k,
        {
            assert(i < self.nodes@[i as int].children@[k as int] < self.nodes@.len());
            let c: usize = node.children[k];
            let reached = match self.nodes[c].pred {
                NodePred::Packet { protocol: _ } => true,
                NodePred::Field { protocol: _, session, condition: _ } => !session,
                _ => false,
            };
            if reached {
                let below = self.is_nothing_delivered(c);
                quiet = quiet && self.nodes[c].deliver.len() == 0 && below;
            }
            k = k + 1;
        }
        quiet
    }

    /// Returns `true` if the tree is one for a packet filter: subscriptions to single packets
    /// are not supported.
    pub fn is_for_packets(&self) -> (b: bool)
        requires
            self.wf(),
        ensures
            b == is_packet_tree(self.nodes@),
    {
        let root_ok = !self.nodes[0].is_terminal || self.nodes[0].deliver.len() == 0;
        root_ok && self.is_nothing_delivered(0)
    }

    /// Generates the body of the filter that is applied to every packet. It returns true if a
    /// packet should go on to the connection tracker.
    pub fn gen_packet_filter(&self) -> (code: Vec<Statement>)
        requires
            self.wf(),
            is_packet_tree(self.nodes@),
        ensures
            code@ == packet_filter(self.nodes@),
    {
        let mut code: Vec<Statement> = Vec::new();
        if self.nodes[0].is_terminal {
            code.push(Statement::ReturnTrue);
        }
        assert(code@ =~= accepted(self.nodes@[0]));
        self.gen_packet_filter_util(&mut code, 0);
        code
    }
}

proof fn lemma_concat(
    a: Seq<Statement>,
    b: Seq<Statement>,
    c: Seq<Statement>,
    d: Seq<Statement>,
    e: Seq<Statement>,
)
    ensures
        a + b + c + d + e + seq![Statement::End] == a + (b + c + d + e + seq![Statement::End]),
{
    assert(a + b + c + d + e + seq![Statement::End] =~= a + (b + c + d + e + seq![
        Statement::End,
    ]));
}

proof fn lemma_packet_before(nodes: Seq<PNode>, i: int, n: int)
    requires
        0 <= n < nodes[i].children@.len(),
    ensures
        packet_before(nodes, i, n + 1) <==> packet_before(nodes, i, n)
            || nodes[nodes[i].children@[n] as int].pred is Packet,
{
    if packet_before(nodes, i, n) {
        let k = choose|k: int|
            0 <= k < n && nodes[#[trigger] nodes[i].children@[k] as int].pred is Packet;
        assert(nodes[nodes[i].children@[k] as int].pred is Packet);
    }
}

/// A function that handles a state transition.
#[derive(Debug)]
pub struct StateFn {
    pub tx: StateTransition,
    /// It is invoked with a packet.
    pub with_pdu: bool,
    /// The expensive datatypes for which it starts the transition before, and ends it after,
    /// everything else.
    pub filtered: Vec<String>,
    /// It makes updates before the tree is walked.
    pub with_updates: bool,
    pub body: Vec<Statement>,
}

/// A tree for each state transition that requires a filter.
#[derive(Debug)]
pub struct StateTree {
    pub tx: StateTransition,
    pub tree: PTree,
    /// The expensive datatypes that the transition may decide about.
    pub filtered: Vec<String>,
}

impl StateTree {
    /// Generates the function that handles the state transition. Only the first packet comes
    /// with one. Updates that do not recur are made before the tree is walked; those that
    /// recur are made elsewhere. Expensive data that nobody claims while the tree is walked
    /// is discarded at the end.
    pub fn gen_state_fn(&self) -> (f: StateFn)
        requires
            self.tree.wf(),
        ensures
            generated_from(f, *self),
    {
        StateFn {
            tx: self.tx,
            with_pdu: self.tx == StateTransition::L4FirstPacket,
            filtered: copy_names(&self.filtered),
            with_updates: !self.tx.is_streaming(),
            body: self.tree.gen_state_filter(self.tx),
        }
    }
}

/// Positions of the trees that are for a state transition of connections, among the first
/// `n`.
pub open spec fn handled(trees: Seq<StateTree>, n: int) -> Seq<int>
    decreases n,
{
    if n <= 0 {
        Seq::empty()
    } else if trees[n - 1].tx == StateTransition::Packet {
        handled(trees, n - 1)
    } else {
        handled(trees, n - 1).push(n - 1)
    }
}

/// The function is the one for the tree.
pub open spec fn generated_from(f: StateFn, t: StateTree) -> bool {
    &&& f.tx == t.tx
    &&& f.with_pdu == (t.tx == StateTransition::L4FirstPacket)
    &&& texts(f.filtered@) == texts(t.filtered@)
    &&& f.with_updates == !t.tx.streaming()
    &&& f.body@ == state_filter(t.tree.nodes@, t.tx)
}

/// Generates the functions that handle state transitions, one for each tree. Bare packets
/// have no connection, and no function.
pub fn gen_state_filters(trees: &Vec<StateTree>) -> (r: Vec<StateFn>)
    requires
        forall|k: int| 0 <= k < trees@.len() ==> (#[trigger] trees@[k]).tree.wf(),
    ensures
        r@.len() == handled(trees@, trees@.len() as int).len(),
        forall|i: int|
            0 <= i < r@.len() ==> generated_from(
                #[trigger] r@[i],
                trees@[handled(trees@, trees@.len() as int)[i]],
            ),
{
    let mut r: Vec<StateFn> = Vec::new();
    let mut k: usize = 0;
    while k < trees.len()
        invariant
            k <= trees@.len(),
            forall|j: int| 0 <= j < trees@.len() ==> (#[trigger] trees@[j]).tree.wf(),
            r@.len() == handled(trees@, k as int).len(),
            forall|i: int|
                0 <= i < r@.len() ==> generated_from(
                    #[trigger] r@[i],
                    trees@[handled(trees@, k as int)[i]],
                ),
        decreases trees@.len() - k,
    {
        let tx = trees[k].tx;
        if tx != StateTransition::Packet {
            assert(trees@[k as int].tree.wf());
            r.push(trees[k].gen_state_fn());
        }
        k = k + 1;
    }
    r
}

/// What is known of a pattern of a subscription at a state transition.
#[derive(Debug)]
pub struct PatternLevel {
    /// Nothing can change for it there.
    pub can_skip: bool,
    /// Delivery may be required there.
    pub can_deliver: bool,
    /// The level at which the callback is invoked.
    pub callback: Option<StateTransition>,
    /// Levels at which its predicates are decided.
    pub filter_preds: Vec<StateTransition>,
}

/// A pattern requires a filter at a state transition: delivery may be required, the callback
/// may unsubscribe, or a predicate may match.
pub open spec fn pattern_requires(p: PatternLevel, tx: StateTransition) -> bool {
    !p.can_skip && (p.can_deliver || (p.callback == Some(tx) && tx.streaming())
        || p.filter_preds@.contains(tx))
}

/// Some datatype changes at the state transition.
pub open spec fn datatypes_require(specs: Seq<TxModel>, tx: StateTransition) -> bool {
    exists|i: int| 0 <= i < specs.len() && (#[trigger] specs[i]).updates.contains(tx)
}

/// A callback requires a filter at a state transition: there may be new information to invoke
/// it, to change what is done for the connection, or to drop it.
pub open spec fn callback_requires(
    specs: Seq<TxModel>,
    patterns: Seq<PatternLevel>,
    tx: StateTransition,
) -> bool {
    ||| exists|i: int| 0 <= i < patterns.len() && pattern_requires(#[trigger] patterns[i], tx)
    ||| datatypes_require(specs, tx)
}

/// Returns `true` if a callback requires a filter at a state transition, given what is known
/// there of the patterns of its subscription.
pub fn callback_requires_filter(
    cb: &CallbackSpec,
    patterns: &Vec<PatternLevel>,
    tx: StateTransition,
) -> (b: bool)
    ensures
        b == callback_requires(cb@.datatypes, patterns@, tx),
{
    let mut i: usize = 0;
    while i < patterns.len()
        invariant
            i <= patterns@.len(),
            forall|j: int| 0 <= j < i ==> !pattern_requires(#[trigger] patterns@[j], tx),
        decreases patterns@.len() - i,
    {
        let p = &patterns[i];
        if !p.can_skip {
            // Delivery may be required, or no longer required.
            if p.can_deliver {
                assert(pattern_requires(patterns@[i as int], tx));
                return true;
            }
            // The callback might unsubscribe.
            let unsubscribes: bool = match p.callback {
                Some(level) => level.is_streaming() && level == tx,
                None => false,
            };
            // A predicate might match.
            if unsubscribes || has_level(&p.filter_preds, tx) {
                assert(pattern_requires(patterns@[i as int], tx));
                return true;
            }
        }
        i = i + 1;
    }
    let mut i: usize = 0;
    while i < cb.datatypes.len()
        invariant
            i <= cb.datatypes@.len(),
            forall|j: int|
                0 <= j < i ==> !(#[trigger] cb@.datatypes[j]).updates.contains(tx),
        decreases cb.datatypes@.len() - i,
    {
        assert(cb@.datatypes[i as int] == cb.datatypes@[i as int]@);
        if has_level(&cb.datatypes[i].updates, tx) {
            assert(datatypes_require(cb@.datatypes, tx));
            return true;
        }
        i = i + 1;
    }
    false
}

/// What is known, at a state transition, of the patterns of each callback of each
/// subscription.
#[derive(Debug)]
pub struct KnownLevels {
    pub tx: StateTransition,
    pub levels: Vec<Vec<Vec<PatternLevel>>>,
}

/// Something is known of each pattern of each callback of each subscription.
pub open spec fn levels_known(
    subs: Seq<SubscriptionSpec>,
    levels: Seq<Vec<Vec<PatternLevel>>>,
) -> bool {
    &&& levels.len() == subs.len()
    &&& forall|i: int|
        0 <= i < subs.len() ==> (#[trigger] levels[i])@.len() == subs[i].callbacks@.len() && (
        subs[i].patterns matches Some(patterns) && forall|c: int|
            0 <= c < levels[i]@.len() ==> (#[trigger] levels[i]@[c])@.len() == patterns@.len())
}

/// The `c`-th callback of the `i`-th subscription requires a filter at a state transition.
pub open spec fn requires_at(
    subs: Seq<SubscriptionSpec>,
    levels: Seq<Vec<Vec<PatternLevel>>>,
    tx: StateTransition,
    i: int,
    c: int,
) -> bool {
    callback_requires(subs[i].callbacks@[c]@.datatypes, levels[i]@[c]@, tx)
}

/// Some callback of some subscription requires a filter at a state transition.
pub open spec fn any_requires(
    subs: Seq<SubscriptionSpec>,
    levels: Seq<Vec<Vec<PatternLevel>>>,
    tx: StateTransition,
) -> bool {
    exists|i: int, c: int|
        0 <= i < subs.len() && 0 <= c < subs[i].callbacks@.len() && #[trigger] requires_at(
            subs,
            levels,
            tx,
            i,
            c,
        )
}

/// The state transitions of connections, among the first `n`, at which a filter is required.
pub open spec fn filtered_transitions(
    subs: Seq<SubscriptionSpec>,
    known: Seq<KnownLevels>,
    n: int,
) -> Seq<StateTransition>
    decreases n,
{
    if n <= 0 {
        Seq::empty()
    } else {
        let before = filtered_transitions(subs, known, n - 1);
        let k = known[n - 1];
        if k.tx != StateTransition::Packet && any_requires(subs, k.levels@, k.tx) {
            before.push(k.tx)
        } else {
            before
        }
    }
}

impl SubscriptionDecoder {
    /// Returns `true` if the application requires a filter at a state transition: it may have
    /// new information there to invoke a callback, to change what is done for a connection, or
    /// to drop it.
    pub fn requires_filter(&self, known: &KnownLevels) -> (b: bool)
        requires
            levels_known(self.subscriptions@, known.levels@),
        ensures
            b == any_requires(self.subscriptions@, known.levels@, known.tx),
    {
        let ghost subs = self.subscriptions@;
        let ghost levels = known.levels@;
        let mut i: usize = 0;
        while i < self.subscriptions.len()
            invariant
                i <= subs.len(),
                subs == self.subscriptions@,
                levels == known.levels@,
                levels_known(subs, levels),
                forall|j: int, c: int|
                    0 <= j < i && 0 <= c < subs[j].callbacks@.len() ==> !#[trigger] requires_at(
                        subs,
                        levels,
                        known.tx,
                        j,
                        c,
                    ),
            decreases subs.len() - i,
        {
            assert(levels[i as int]@.len() == subs[i as int].callbacks@.len());
            let mut c: usize = 0;
            while c < self.subscriptions[i].callbacks.len()
                invariant
                    i < subs.len(),
                    subs == self.subscriptions@,
                    levels == known.levels@,
                    levels.len() == subs.len(),
                    levels[i as int]@.len() == subs[i as int].callbacks@.len(),
                    c <= subs[i as int].callbacks@.len(),
                    forall|d: int|
                        0 <= d < c ==> !#[trigger] requires_at(
                            subs,
                            levels,
                            known.tx,
                            i as int,
                            d,
                        ),
                decreases subs[i as int].callbacks@.len() - c,
            {
                if callback_requires_filter(
                    &self.subscriptions[i].callbacks[c],
                    &known.levels[i][c],
                    known.tx,
                ) {
                    assert(requires_at(subs, levels, known.tx, i as int, c as int));
                    return true;
                }
                c = c + 1;
            }
            i = i + 1;
        }
        false
    }

    /// The state transitions at which a filter is required, of those that something is known
    /// of. Bare packets have no connection, and no filter of this kind.
    pub fn filter_levels(&self, known: &Vec<KnownLevels>) -> (r: Vec<StateTransition>)
        requires
            forall|k: int|
                0 <= k < known@.len() ==> levels_known(
                    self.subscriptions@,
                    (#[trigger] known@[k]).levels@,
                ),
        ensures
            r@ == filtered_transitions(self.subscriptions@, known@, known@.len() as int),
    {
        let mut r: Vec<StateTransition> = Vec::new();
        let mut k: usize = 0;
        while k < known.len()
            invariant
                k <= known@.len(),
                forall|j: int|
                    0 <= j < known@.len() ==> levels_known(
                        self.subscriptions@,
                        (#[trigger] known@[j]).levels@,
                    ),
                r@ == filtered_transitions(self.subscriptions@, known@, k as int),
            decreases known@.len() - k,
        {
            assert(levels_known(self.subscriptions@, known@[k as int].levels@));
            if known[k].tx != StateTransition::Packet && self.requires_filter(&known[k]) {
                r.push(known[k].tx);
            }
            k = k + 1;
        }
        r
    }
}

} // verus!
