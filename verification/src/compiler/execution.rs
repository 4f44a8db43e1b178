//! What the generated statements do when they are run.

use crate::compiler::codegen::{
    accepted, actions, binds_session, child_code, deliveries, filtered_data, is_packet_tree,
    is_tree, node_body, on_packet, opened, packet_before, packet_code, reads_session,
    sessions_below, set_active, state_code, test_of, Condition, NodePred, PNode, PTree, StateFn,
    StateTree, Statement,
};
use crate::conntrack::conn_state::{LayerState, StateTransition};
use crate::protocols::SessionProto;
use vstd::prelude::*;

verus! {

/// What is known of a connection, and of the packet at hand.
pub struct Facts {
    /// A header of the protocol can be read.
    pub header: spec_fn(SessionProto) -> bool,
    /// The protocol was identified on the connection.
    pub protocol: spec_fn(SessionProto) -> bool,
    /// A session of the protocol was parsed.
    pub session: spec_fn(SessionProto) -> bool,
    /// The comparison of a field with a value, by its number.
    pub field: spec_fn(usize) -> bool,
    /// The condition on a layer's state, by its number.
    pub state: spec_fn(usize) -> bool,
    /// A custom filter, by its number: that it has matched, and that it may still match.
    pub custom: spec_fn(usize, bool) -> bool,
    /// The callback of a subscription is active.
    pub active: spec_fn(usize) -> bool,
}

impl Facts {
    /// Sessions are parsed only of the protocol that was identified.
    pub open spec fn consistent(self) -> bool {
        forall|p: SessionProto| #[trigger] (self.session)(p) ==> (self.protocol)(p)
    }

    /// The condition of a statement is met.
    pub open spec fn holds(self, c: Condition) -> bool {
        match c {
            Condition::ParsesTo(p) => (self.header)(p),
            Condition::LastProtocol(p) => (self.protocol)(p),
            Condition::LastSession(p) => (self.session)(p),
            Condition::Field(k) => (self.field)(k),
            Condition::LayerState(k) => (self.state)(k),
            Condition::Custom { filter, matched } => (self.custom)(filter, matched),
            Condition::CallbackActive(k) => (self.active)(k),
        }
    }
}

/// A block that is open: whether it is being executed, and whether it or an earlier one of its
/// chain was.
pub struct Block {
    pub live: bool,
    pub taken: bool,
}

/// A run of statements.
pub struct Run {
    /// The blocks that are open, outermost first.
    pub blocks: Seq<Block>,
    /// The block that was closed just before, or an earlier one of its chain, was executed.
    pub taken: bool,
    /// The statements that were executed, tests apart.
    pub done: Seq<Statement>,
    /// The function has returned true.
    pub returned: bool,
}

impl Run {
    /// Statements are being executed, not skipped.
    pub open spec fn live(self) -> bool {
        !self.returned && (self.blocks.len() > 0 ==> self.blocks.last().live)
    }

    /// The run of a function that has just been called.
    pub open spec fn start() -> Run {
        Run { blocks: Seq::empty(), taken: false, done: Seq::empty(), returned: false }
    }

    /// Opens a block.
    pub open spec fn open(self, met: bool, taken: bool) -> Run {
        Run {
            blocks: self.blocks.push(Block { live: self.live() && met, taken: taken || met }),
            taken: false,
            ..self
        }
    }

    /// Goes on with one statement.
    pub open spec fn step(self, w: Facts, s: Statement) -> Run {
        match s {
            Statement::If(c) => self.open(w.holds(c), false),
            Statement::ElseIf(c) => self.open(!self.taken && w.holds(c), self.taken),
            Statement::End => Run {
                blocks: self.blocks.drop_last(),
                taken: self.blocks.last().taken,
                ..self
            },
            Statement::ReturnTrue => Run {
                returned: self.returned || self.live(),
                taken: false,
                ..self
            },
            _ => Run {
                done: if self.live() {
                    self.done.push(s)
                } else {
                    self.done
                },
                taken: false,
                ..self
            },
        }
    }

    /// Goes on with statements, one after the other.
    pub open spec fn run(self, w: Facts, code: Seq<Statement>) -> Run
        decreases code.len(),
    {
        if code.len() == 0 {
            self
        } else {
            self.run(w, code.drop_last()).step(w, code.last())
        }
    }
}

/// `c` stands directly below `p`.
pub open spec fn child_of(nodes: Seq<PNode>, p: int, c: int) -> bool {
    exists|k: int| 0 <= k < nodes[p].children@.len() && #[trigger] nodes[p].children@[k] == c
}

/// A way down the tree, from node to node.
pub open spec fn is_path(nodes: Seq<PNode>, path: Seq<int>) -> bool {
    &&& path.len() > 0
    &&& forall|j: int| 0 <= j < path.len() ==> 0 <= #[trigger] path[j] < nodes.len()
    &&& forall|j: int|
        0 < j < path.len() ==> child_of(nodes, path[j - 1], #[trigger] path[j])
}

/// Where the application layer has come to its payload, or was dropped, headers were parsed.
pub open spec fn after_headers(pred: NodePred) -> bool {
    pred matches NodePred::LayerState { l7, state, .. } && l7 && (state == LayerState::Payload
        || state == LayerState::Dropped)
}

/// Sessions are there at the `j`-th node of a path: they are from the start, or the state
/// that a node between tests for says so.
pub open spec fn sessions_at(nodes: Seq<PNode>, sessions: bool, path: Seq<int>, j: int) -> bool {
    sessions || exists|m: int| 0 < m < j && after_headers(nodes[#[trigger] path[m]].pred)
}

/// The predicate of a node is met. Where a session is read below the node, and sessions are
/// there, one must have been parsed.
pub open spec fn is_met(w: Facts, nodes: Seq<PNode>, c: int, sessions: bool) -> bool {
    match nodes[c].pred {
        NodePred::Packet { protocol } => (w.header)(protocol),
        NodePred::Service { protocol } => (w.protocol)(protocol) && (sessions && binds_session(
            nodes,
            c,
            nodes[c].children@.len() as int,
            protocol,
        ) ==> (w.session)(protocol)),
        NodePred::Field { condition, .. } => (w.field)(condition),
        NodePred::LayerState { condition, .. } => (w.state)(condition),
        NodePred::Custom { filter, matched } => (w.custom)(filter, matched),
        NodePred::Callback { subscription } => (w.active)(subscription),
    }
}

/// The predicates of the first `n` nodes of a path are met, that of the node where it starts
/// apart.
pub open spec fn met_along(
    w: Facts,
    nodes: Seq<PNode>,
    sessions: bool,
    path: Seq<int>,
    n: int,
) -> bool {
    forall|j: int|
        0 < j < n ==> is_met(w, nodes, #[trigger] path[j], sessions_at(nodes, sessions, path, j))
}

/// What is done at a node if its predicate is met. What a callback's node delivers does not
/// depend on whether the callback is active already.
pub open spec fn made_when_met(nodes: Seq<PNode>, c: int, s: Statement) -> bool {
    match s {
        Statement::Actions(k) => k == c && nodes[c].has_actions,
        Statement::SetActive(k) => !(nodes[c].pred is Callback) && nodes[c].matched@.contains(k),
        Statement::Deliver { node, subscription } => !(nodes[c].pred is Callback) && node == c
            && nodes[c].deliver@.contains(subscription),
        Statement::FilteredData(k) => !(nodes[c].pred is Callback)
            && nodes[c].filtered_datatypes@.contains(k),
        _ => false,
    }
}

/// What is done at a node as soon as those above it are met.
pub open spec fn made_at_once(nodes: Seq<PNode>, c: int, s: Statement) -> bool {
    s matches Statement::Deliver { node, subscription } && nodes[c].pred is Callback && node == c
        && nodes[c].deliver@.contains(subscription)
}

/// The statement belongs to the node where the path ends, and the predicates on the path say
/// that it is due.
pub open spec fn is_due(
    w: Facts,
    nodes: Seq<PNode>,
    sessions: bool,
    path: Seq<int>,
    s: Statement,
) -> bool {
    &&& is_path(nodes, path)
    &&& met_along(w, nodes, sessions, path, path.len() - 1)
    &&& made_at_once(nodes, path.last(), s) || (met_along(w, nodes, sessions, path, path.len() as int)
        && made_when_met(nodes, path.last(), s))
}

/// A child is tested only if the one before it was not met.
pub open spec fn is_chained(nodes: Seq<PNode>, i: int, k: int) -> bool {
    let c = nodes[i].children@[k] as int;
    match nodes[c].pred {
        NodePred::Packet { .. } => exists|j: int|
            0 <= j < k && nodes[#[trigger] nodes[i].children@[j] as int].pred is Packet,
        NodePred::Callback { .. } => false,
        _ => nodes[c].if_else,
    }
}

/// Of the children that are chained to each other, at most one is met.
pub open spec fn exclusive(w: Facts, nodes: Seq<PNode>) -> bool {
    forall|i: int, a: int, b: int, sessions: bool|
        0 <= i < nodes.len() && 0 <= a < b < nodes[i].children@.len() && (forall|k: int|
            a < k <= b ==> #[trigger] is_chained(nodes, i, k)) && #[trigger] is_met(
            w,
            nodes,
            nodes[i].children@[a] as int,
            sessions,
        ) ==> !#[trigger] is_met(w, nodes, nodes[i].children@[b] as int, sessions)
}

/// Of the first `n` children, one that the next would be chained to is met.
spec fn chain_met(w: Facts, nodes: Seq<PNode>, i: int, n: int, sessions: bool) -> bool
    decreases n,
{
    n > 0 && (is_met(w, nodes, nodes[i].children@[n - 1] as int, sessions) || (is_chained(
        nodes,
        i,
        n - 1,
    ) && chain_met(w, nodes, i, n - 1, sessions)))
}

/// The statement is due at one of the first `n` children of a node, or below.
spec fn made_below(
    w: Facts,
    nodes: Seq<PNode>,
    i: int,
    n: int,
    sessions: bool,
    s: Statement,
) -> bool
    decreases nodes.len() - i, n,
{
    if n <= 0 || !(0 <= i < nodes.len()) || n > nodes[i].children@.len() {
        false
    } else {
        let c = nodes[i].children@[n - 1] as int;
        ||| made_below(w, nodes, i, n - 1, sessions, s)
        ||| made_at_once(nodes, c, s)
        ||| is_met(w, nodes, c, sessions) && made_when_met(nodes, c, s)
        ||| i < c < nodes.len() && is_met(w, nodes, c, sessions) && made_below(
            w,
            nodes,
            c,
            nodes[c].children@.len() as int,
            sessions || after_headers(nodes[c].pred),
            s,
        )
    }
}

proof fn lemma_run_concat(m: Run, w: Facts, a: Seq<Statement>, b: Seq<Statement>)
    ensures
        m.run(w, a + b) == m.run(w, a).run(w, b),
    decreases b.len(),
{
    if b.len() == 0 {
        assert(a + b =~= a);
    } else {
        assert((a + b).drop_last() =~= a + b.drop_last());
        assert((a + b).last() == b.last());
        lemma_run_concat(m, w, a, b.drop_last());
    }
}

proof fn lemma_run_one(m: Run, w: Facts, s: Statement)
    ensures
        m.run(w, seq![s]) == m.step(w, s),
{
    reveal_with_fuel(Run::run, 2);
    assert(seq![s].drop_last() =~= Seq::empty());
}

/// The statement is neither a test nor the end of a block or of the function.
spec fn is_plain(s: Statement) -> bool {
    !(s is If) && !(s is ElseIf) && !(s is End) && !(s is ReturnTrue)
}

spec fn all_plain(code: Seq<Statement>) -> bool {
    forall|i: int| 0 <= i < code.len() ==> is_plain(#[trigger] code[i])
}

proof fn lemma_run_plain(m: Run, w: Facts, code: Seq<Statement>)
    requires
        all_plain(code),
    ensures
        m.run(w, code) == (Run {
            done: if m.live() {
                m.done + code
            } else {
                m.done
            },
            taken: m.taken && code.len() == 0,
            ..m
        }),
    decreases code.len(),
{
    if code.len() == 0 {
        assert(m.done + code =~= m.done);
    } else {
        let init = code.drop_last();
        assert forall|i: int| 0 <= i < init.len() implies is_plain(#[trigger] init[i]) by {
            assert(init[i] == code[i]);
        }
        lemma_run_plain(m, w, init);
        assert(is_plain(code[code.len() - 1]));
        assert((m.done + init).push(code.last()) =~= m.done + code);
    }
}

proof fn lemma_contains_both(a: Seq<Statement>, b: Seq<Statement>, s: Statement)
    ensures
        (a + b).contains(s) <==> a.contains(s) || b.contains(s),
{
    if a.contains(s) {
        let k = choose|k: int| 0 <= k < a.len() && a[k] == s;
        assert((a + b)[k] == s);
    }
    if b.contains(s) {
        let k = choose|k: int| 0 <= k < b.len() && b[k] == s;
        assert((a + b)[a.len() + k] == s);
    }
    if (a + b).contains(s) {
        let k = choose|k: int| 0 <= k < (a + b).len() && (a + b)[k] == s;
        if k < a.len() {
            assert(a[k] == s);
        } else {
            assert(b[k - a.len()] == s);
        }
    }
}

proof fn lemma_deliveries(nodes: Seq<PNode>, c: int, s: Statement)
    requires
        0 <= c <= usize::MAX,
    ensures
        ({
            let code = deliveries(c as usize, nodes[c].deliver@);
            &&& all_plain(code)
            &&& code.contains(s) <==> (s matches Statement::Deliver { node, subscription } && node
                == c && nodes[c].deliver@.contains(subscription))
        }),
{
    let list = nodes[c].deliver@;
    let code = deliveries(c as usize, list);
    if code.contains(s) {
        let k = choose|k: int| 0 <= k < code.len() && code[k] == s;
        assert(list[k] == s->Deliver_subscription);
    }
    if let Statement::Deliver { node, subscription } = s {
        if node == c && list.contains(subscription) {
            let k = choose|k: int| 0 <= k < list.len() && list[k] == subscription;
            assert(code[k] == s);
        }
    }
}

proof fn lemma_actions(nodes: Seq<PNode>, c: int, s: Statement)
    requires
        0 <= c <= usize::MAX,
    ensures
        ({
            let code = actions(nodes[c], c);
            &&& all_plain(code)
            &&& code.contains(s) <==> (s matches Statement::Actions(k) && k == c
                && nodes[c].has_actions)
        }),
{
    let code = actions(nodes[c], c);
    if nodes[c].has_actions {
        assert(code[0] == Statement::Actions(c as usize));
    }
}

proof fn lemma_body(nodes: Seq<PNode>, c: int, s: Statement)
    requires
        0 <= c <= usize::MAX,
        !(nodes[c].pred is Callback),
    ensures
        all_plain(node_body(nodes[c], c)),
        node_body(nodes[c], c).contains(s) <==> made_when_met(nodes, c, s),
{
    let a = actions(nodes[c], c);
    let b = set_active(nodes[c].matched@);
    let d = deliveries(c as usize, nodes[c].deliver@);
    let e = filtered_data(nodes[c].filtered_datatypes@);
    lemma_actions(nodes, c, s);
    lemma_deliveries(nodes, c, s);
    lemma_contains_both(a, b, s);
    lemma_contains_both(a + b, d, s);
    lemma_contains_both(a + b + d, e, s);
    assert(b.contains(s) <==> (s matches Statement::SetActive(k)
        && nodes[c].matched@.contains(k))) by {
        let list = nodes[c].matched@;
        if b.contains(s) {
            let k = choose|k: int| 0 <= k < b.len() && b[k] == s;
            assert(list[k] == s->SetActive_0);
        }
        if let Statement::SetActive(x) = s {
            if list.contains(x) {
                let k = choose|k: int| 0 <= k < list.len() && list[k] == x;
                assert(b[k] == s);
            }
        }
    }
    assert(e.contains(s) <==> (s matches Statement::FilteredData(k)
        && nodes[c].filtered_datatypes@.contains(k))) by {
        let list = nodes[c].filtered_datatypes@;
        if e.contains(s) {
            let k = choose|k: int| 0 <= k < e.len() && e[k] == s;
            assert(list[k] == s->FilteredData_0);
        }
        if let Statement::FilteredData(x) = s {
            if list.contains(x) {
                let k = choose|k: int| 0 <= k < list.len() && list[k] == x;
                assert(e[k] == s);
            }
        }
    }
}

proof fn lemma_chain(w: Facts, nodes: Seq<PNode>, i: int, n: int, b: int, sessions: bool)
    requires
        exclusive(w, nodes),
        0 <= i < nodes.len(),
        0 <= n <= b < nodes[i].children@.len(),
        forall|k: int| n <= k <= b ==> #[trigger] is_chained(nodes, i, k),
        chain_met(w, nodes, i, n, sessions),
    ensures
        !is_met(w, nodes, nodes[i].children@[b] as int, sessions),
    decreases n,
{
    if is_met(w, nodes, nodes[i].children@[n - 1] as int, sessions) {
        let a = n - 1;
        assert(is_met(w, nodes, nodes[i].children@[a] as int, sessions));
    } else {
        lemma_chain(w, nodes, i, n - 1, b, sessions);
    }
}

/// What running the statements for the first children of a node amounts to.
spec fn ran(
    w: Facts,
    m: Run,
    after: Run,
    nodes: Seq<PNode>,
    i: int,
    n: int,
    sessions: bool,
) -> bool {
    &&& after.blocks == m.blocks
    &&& after.returned == m.returned
    &&& m.live() ==> after.taken == chain_met(w, nodes, i, n, sessions)
    &&& forall|s: Statement| #[trigger]
        after.done.contains(s) <==> m.done.contains(s) || (m.live() && made_below(
            w,
            nodes,
            i,
            n,
            sessions,
            s,
        ))
}

proof fn lemma_test(w: Facts, nodes: Seq<PNode>, i: int, n: int, sessions: bool)
    requires
        is_tree(nodes),
        w.consistent(),
        0 <= i < nodes.len(),
        0 <= n < nodes[i].children@.len(),
    ensures
        test_of(nodes, i, n, sessions).0 == is_chained(nodes, i, n),
        w.holds(test_of(nodes, i, n, sessions).1) == is_met(
            w,
            nodes,
            nodes[i].children@[n] as int,
            sessions,
        ),
{
}

proof fn lemma_run_state(w: Facts, m: Run, nodes: Seq<PNode>, i: int, n: int, sessions: bool)
    requires
        is_tree(nodes),
        w.consistent(),
        exclusive(w, nodes),
        0 <= i < nodes.len(),
        0 <= n <= nodes[i].children@.len(),
        !m.taken,
    ensures
        ran(w, m, m.run(w, state_code(nodes, i, n, sessions)), nodes, i, n, sessions),
    decreases nodes.len() - i, n,
{
    if n > 0 {
        let c = nodes[i].children@[n - 1] as int;
        assert(i < nodes[i].children@[n - 1] < nodes.len());
        let before = state_code(nodes, i, n - 1, sessions);
        let (chained, test) = test_of(nodes, i, n - 1, sessions);
        let inner = sessions_below(nodes[c].pred, sessions);
        let below = state_code(nodes, c, nodes[c].children@.len() as int, inner);
        let code = child_code(nodes[c], c, chained, test, below);
        lemma_run_concat(m, w, before, code);
        lemma_run_state(w, m, nodes, i, n - 1, sessions);
        let m1 = m.run(w, before);
        let m2 = m1.run(w, code);
        let met = is_met(w, nodes, c, sessions);
        lemma_test(w, nodes, i, n - 1, sessions);
        assert(inner == (sessions || after_headers(nodes[c].pred)));
        if m.live() && chained && m1.taken && met {
            lemma_chain(w, nodes, i, n - 1, n - 1, sessions);
        }
        lemma_run_child(w, m1, nodes, c, chained, test, met, inner);
        assert forall|s: Statement| #[trigger]
            m2.done.contains(s) <==> m.done.contains(s) || (m.live() && made_below(
                w,
                nodes,
                i,
                n,
                sessions,
                s,
            )) by {
            assert(m1.done.contains(s) <==> m.done.contains(s) || (m.live() && made_below(
                w,
                nodes,
                i,
                n - 1,
                sessions,
                s,
            )));
        }
    }
}

proof fn lemma_run_child(
    w: Facts,
    m: Run,
    nodes: Seq<PNode>,
    c: int,
    chained: bool,
    test: Condition,
    met: bool,
    inner: bool,
)
    requires
        is_tree(nodes),
        w.consistent(),
        exclusive(w, nodes),
        0 <= c < nodes.len(),
        c <= usize::MAX,
        w.holds(test) == met,
        nodes[c].pred is Callback ==> !chained,
        m.live() && chained && m.taken ==> !met,
    ensures
        ({
            let all = nodes[c].children@.len() as int;
            let below = state_code(nodes, c, all, inner);
            let after = m.run(w, child_code(nodes[c], c, chained, test, below));
            &&& after.blocks == m.blocks
            &&& after.returned == m.returned
            &&& m.live() ==> after.taken == (met || (chained && m.taken))
            &&& forall|s: Statement| #[trigger]
                after.done.contains(s) <==> m.done.contains(s) || (m.live() && (made_at_once(
                    nodes,
                    c,
                    s,
                ) || (met && (made_when_met(nodes, c, s) || made_below(
                    w,
                    nodes,
                    c,
                    all,
                    inner,
                    s,
                )))))
        }),
    decreases nodes.len() - c, nodes[c].children@.len() + 1,
{
    let all = nodes[c].children@.len() as int;
    let below = state_code(nodes, c, all, inner);
    let open = opened(chained, test);
    let close = seq![Statement::End];
    let first = if nodes[c].pred is Callback {
        deliveries(c as usize, nodes[c].deliver@)
    } else {
        Seq::empty()
    };
    let body = if nodes[c].pred is Callback {
        actions(nodes[c], c)
    } else {
        node_body(nodes[c], c)
    };
    let code = child_code(nodes[c], c, chained, test, below);
    assert(code =~= first + open + body + below + close);
    lemma_run_concat(m, w, first, open);
    lemma_run_concat(m, w, first + open, body);
    lemma_run_concat(m, w, first + open + body, below);
    lemma_run_concat(m, w, first + open + body + below, close);
    let m1 = m.run(w, first);
    assert(all_plain(first)) by {
        lemma_deliveries(nodes, c, Statement::End);
    }
    lemma_run_plain(m, w, first);
    let s1 = if chained {
        Statement::ElseIf(test)
    } else {
        Statement::If(test)
    };
    lemma_run_one(m1, w, s1);
    let m2 = m1.run(w, open);
    assert(m2 == m1.step(w, s1));
    assert(m2.live() == (m.live() && met));
    assert(all_plain(body)) by {
        lemma_actions(nodes, c, Statement::End);
        if !(nodes[c].pred is Callback) {
            lemma_body(nodes, c, Statement::End);
        }
    }
    lemma_run_plain(m2, w, body);
    let m3 = m2.run(w, body);
    lemma_run_state(w, m3, nodes, c, all, inner);
    let m4 = m3.run(w, below);
    lemma_run_one(m4, w, Statement::End);
    let m5 = m4.step(w, Statement::End);
    assert(m5.blocks =~= m.blocks);
    assert forall|s: Statement| #[trigger]
        m5.done.contains(s) <==> m.done.contains(s) || (m.live() && (made_at_once(nodes, c, s) || (
        met && (made_when_met(nodes, c, s) || made_below(w, nodes, c, all, inner, s))))) by {
        assert(m4.done.contains(s) <==> m3.done.contains(s) || (m3.live() && made_below(
            w,
            nodes,
            c,
            all,
            inner,
            s,
        )));
        lemma_contains_both(m.done, first, s);
        lemma_contains_both(m2.done, body, s);
        lemma_deliveries(nodes, c, s);
        lemma_actions(nodes, c, s);
        if !(nodes[c].pred is Callback) {
            lemma_body(nodes, c, s);
        }
    }
}

proof fn lemma_sessions_shift(
    nodes: Seq<PNode>,
    sessions: bool,
    i: int,
    path: Seq<int>,
    j: int,
)
    requires
        path.len() > 0,
        0 <= j < path.len(),
    ensures
        sessions_at(
            nodes,
            sessions,
            seq![i] + path,
            j + 1,
        ) == (if j == 0 {
            sessions
        } else {
            sessions_at(nodes, sessions || after_headers(nodes[path[0]].pred), path, j)
        }),
{
    let longer = seq![i] + path;
    if sessions_at(nodes, sessions, longer, j + 1) && !sessions {
        let m = choose|m: int| 0 < m < j + 1 && after_headers(nodes[#[trigger] longer[m]].pred);
        assert(longer[m] == path[m - 1]);
        if m > 1 {
            assert(after_headers(nodes[path[m - 1]].pred));
        }
    }
    if j > 0 && sessions_at(nodes, sessions || after_headers(nodes[path[0]].pred), path, j)
        && !sessions {
        if after_headers(nodes[path[0]].pred) {
            assert(longer[1] == path[0]);
        } else {
            let m = choose|m: int| 0 < m < j && after_headers(nodes[#[trigger] path[m]].pred);
            assert(longer[m + 1] == path[m]);
        }
    }
}

proof fn lemma_met_shift(
    w: Facts,
    nodes: Seq<PNode>,
    sessions: bool,
    i: int,
    path: Seq<int>,
    n: int,
)
    requires
        1 <= n <= path.len(),
    ensures
        met_along(w, nodes, sessions, seq![i] + path, n + 1) <==> is_met(
            w,
            nodes,
            path[0],
            sessions,
        ) && met_along(w, nodes, sessions || after_headers(nodes[path[0]].pred), path, n),
{
    let longer = seq![i] + path;
    let inner = sessions || after_headers(nodes[path[0]].pred);
    if met_along(w, nodes, sessions, longer, n + 1) {
        lemma_sessions_shift(nodes, sessions, i, path, 0);
        assert(is_met(w, nodes, longer[1], sessions_at(nodes, sessions, longer, 1)));
        assert(longer[1] == path[0]);
        assert forall|j: int| 0 < j < n implies is_met(
            w,
            nodes,
            #[trigger] path[j],
            sessions_at(nodes, inner, path, j),
        ) by {
            lemma_sessions_shift(nodes, sessions, i, path, j);
            assert(longer[j + 1] == path[j]);
            assert(is_met(w, nodes, longer[j + 1], sessions_at(nodes, sessions, longer, j + 1)));
        }
    }
    if is_met(w, nodes, path[0], sessions) && met_along(w, nodes, inner, path, n) {
        assert forall|j: int| 0 < j < n + 1 implies is_met(
            w,
            nodes,
            #[trigger] longer[j],
            sessions_at(nodes, sessions, longer, j),
        ) by {
            lemma_sessions_shift(nodes, sessions, i, path, j - 1);
            assert(longer[j] == path[j - 1]);
        }
    }
}

proof fn lemma_path_shift(nodes: Seq<PNode>, i: int, path: Seq<int>)
    requires
        path.len() > 0,
    ensures
        is_path(nodes, seq![i] + path) <==> 0 <= i < nodes.len() && child_of(nodes, i, path[0])
            && is_path(nodes, path),
{
    let longer = seq![i] + path;
    if is_path(nodes, longer) {
        assert(longer[0] == i);
        assert(longer[1] == path[0]);
        assert(child_of(nodes, longer[1 - 1], longer[1]));
        assert forall|j: int| 0 <= j < path.len() implies 0 <= #[trigger] path[j] < nodes.len() by {
            assert(longer[j + 1] == path[j]);
        }
        assert forall|j: int| 0 < j < path.len() implies child_of(
            nodes,
            path[j - 1],
            #[trigger] path[j],
        ) by {
            assert(longer[j + 1] == path[j]);
            assert(longer[j] == path[j - 1]);
            assert(child_of(nodes, longer[j + 1 - 1], longer[j + 1]));
        }
    }
    if 0 <= i < nodes.len() && child_of(nodes, i, path[0]) && is_path(nodes, path) {
        assert forall|j: int| 0 <= j < longer.len() implies 0 <= #[trigger] longer[j]
            < nodes.len() by {
            if j > 0 {
                assert(longer[j] == path[j - 1]);
            }
        }
        assert forall|j: int| 0 < j < longer.len() implies child_of(
            nodes,
            longer[j - 1],
            #[trigger] longer[j],
        ) by {
            assert(longer[j] == path[j - 1]);
            if j > 1 {
                assert(longer[j - 1] == path[j - 2]);
                assert(child_of(nodes, path[j - 1 - 1], path[j - 1]));
            }
        }
    }
}

/// Sessions are there below a node.
spec fn sessions_under(nodes: Seq<PNode>, c: int, sessions: bool) -> bool {
    sessions || after_headers(nodes[c].pred)
}

/// A way down from a node, by at least one step, on which the statement is due.
spec fn due_from(
    w: Facts,
    nodes: Seq<PNode>,
    i: int,
    sessions: bool,
    path: Seq<int>,
    s: Statement,
) -> bool {
    path.len() > 1 && path[0] == i && is_due(w, nodes, sessions, path, s)
}

proof fn lemma_due_one(
    w: Facts,
    nodes: Seq<PNode>,
    i: int,
    c: int,
    sessions: bool,
    s: Statement,
)
    requires
        0 <= i < nodes.len(),
        0 <= c < nodes.len(),
        child_of(nodes, i, c),
        made_at_once(nodes, c, s) || (is_met(w, nodes, c, sessions) && made_when_met(
            nodes,
            c,
            s,
        )),
    ensures
        due_from(w, nodes, i, sessions, seq![i] + seq![c], s),
{
    let path = seq![i] + seq![c];
    lemma_path_shift(nodes, i, seq![c]);
    assert(is_path(nodes, seq![c]));
    lemma_met_shift(w, nodes, sessions, i, seq![c], 1);
    assert(path.last() == c);
}

proof fn lemma_due_more(
    w: Facts,
    nodes: Seq<PNode>,
    i: int,
    c: int,
    sessions: bool,
    path: Seq<int>,
    s: Statement,
)
    requires
        0 <= i < nodes.len(),
        path.len() > 1,
        path[0] == c,
    ensures
        due_from(w, nodes, i, sessions, seq![i] + path, s) <==> child_of(nodes, i, c) && is_met(
            w,
            nodes,
            c,
            sessions,
        ) && due_from(w, nodes, c, sessions_under(nodes, c, sessions), path, s),
{
    lemma_path_shift(nodes, i, path);
    lemma_met_shift(w, nodes, sessions, i, path, path.len() as int);
    lemma_met_shift(w, nodes, sessions, i, path, path.len() - 1);
    assert((seq![i] + path).last() == path.last());
}

proof fn lemma_made_has_path(
    w: Facts,
    nodes: Seq<PNode>,
    i: int,
    n: int,
    sessions: bool,
    s: Statement,
)
    requires
        is_tree(nodes),
        0 <= i < nodes.len(),
        0 <= n <= nodes[i].children@.len(),
        made_below(w, nodes, i, n, sessions, s),
    ensures
        exists|path: Seq<int>| #[trigger] due_from(w, nodes, i, sessions, path, s),
    decreases nodes.len() - i, n,
{
    let c = nodes[i].children@[n - 1] as int;
    assert(i < nodes[i].children@[n - 1] < nodes.len());
    assert(child_of(nodes, i, c));
    let inner = sessions_under(nodes, c, sessions);
    if made_below(w, nodes, i, n - 1, sessions, s) {
        lemma_made_has_path(w, nodes, i, n - 1, sessions, s);
    } else if made_at_once(nodes, c, s) || (is_met(w, nodes, c, sessions) && made_when_met(
        nodes,
        c,
        s,
    )) {
        lemma_due_one(w, nodes, i, c, sessions, s);
    } else {
        lemma_made_has_path(w, nodes, c, nodes[c].children@.len() as int, inner, s);
        let path = choose|path: Seq<int>| #[trigger] due_from(w, nodes, c, inner, path, s);
        lemma_due_more(w, nodes, i, c, sessions, path, s);
    }
}

proof fn lemma_made_at(
    w: Facts,
    nodes: Seq<PNode>,
    i: int,
    k: int,
    n: int,
    sessions: bool,
    s: Statement,
)
    requires
        is_tree(nodes),
        0 <= i < nodes.len(),
        0 <= k < n <= nodes[i].children@.len(),
        made_below(w, nodes, i, k + 1, sessions, s),
    ensures
        made_below(w, nodes, i, n, sessions, s),
    decreases n,
{
    if k + 1 < n {
        lemma_made_at(w, nodes, i, k, n - 1, sessions, s);
    }
}

proof fn lemma_path_is_made(
    w: Facts,
    nodes: Seq<PNode>,
    i: int,
    sessions: bool,
    path: Seq<int>,
    s: Statement,
)
    requires
        is_tree(nodes),
        0 <= i < nodes.len(),
        due_from(w, nodes, i, sessions, path, s),
    ensures
        made_below(w, nodes, i, nodes[i].children@.len() as int, sessions, s),
    decreases path.len(),
{
    let all = nodes[i].children@.len() as int;
    let rest = path.skip(1);
    let c = path[1];
    assert(path =~= seq![i] + rest);
    assert(rest[0] == c);
    lemma_path_shift(nodes, i, rest);
    let k = choose|k: int| 0 <= k < nodes[i].children@.len() && #[trigger] nodes[i].children@[k]
        == c;
    assert(i < nodes[i].children@[k] < nodes.len());
    if rest.len() == 1 {
        lemma_met_shift(w, nodes, sessions, i, rest, 1);
        assert(path.last() == c);
    } else {
        lemma_due_more(w, nodes, i, c, sessions, rest, s);
        lemma_path_is_made(
            w,
            nodes,
            c,
            sessions_under(nodes, c, sessions),
            rest,
            s,
        );
    }
    assert(made_below(w, nodes, i, k + 1, sessions, s));
    lemma_made_at(w, nodes, i, k, all, sessions, s);
}

/// When the headers of a session have ended, and at the end of the connection, sessions are
/// there.
pub open spec fn sessions_from_the_start(tx: StateTransition) -> bool {
    tx == StateTransition::L7EndHdrs || tx == StateTransition::L4Terminated
}

/// The function that handles a state transition does for a connection what the tree says,
/// and no more: a subscription is delivered to, set active, or kept up exactly at the nodes
/// all of whose predicates on the way down from the root are met. (What a callback's node
/// delivers does not wait for its own predicate.) The predicates are those of the nodes, as
/// they are written there. Children that are chained must exclude each other.
pub proof fn law_state_filter_follows_the_tree(
    tree: &PTree,
    tx: StateTransition,
    code: Vec<Statement>,
    w: Facts,
    s: Statement,
)
    requires
        tree.wf(),
        !(tree.nodes@[0].pred is Callback),
        tree.nodes@[0].deliver@.len() > 0 || tree.nodes@[0].has_actions
            || tree.nodes@[0].matched@.len() + tree.nodes@[0].filtered_datatypes@.len() == 0,
        w.consistent(),
        exclusive(w, tree.nodes@),
        call_ensures(PTree::gen_state_filter, (tree, tx), code),
    ensures
        ({
            let after = Run::start().run(w, code@);
            &&& after.done.contains(s) <==> exists|path: Seq<int>|
                path.len() > 0 && path[0] == 0 && #[trigger] is_due(
                    w,
                    tree.nodes@,
                    sessions_from_the_start(tx),
                    path,
                    s,
                )
            &&& after.blocks.len() == 0
            &&& !after.returned
        }),
{
    let nodes = tree.nodes@;
    let sessions = sessions_from_the_start(tx);
    let root = if nodes[0].deliver@.len() > 0 || nodes[0].has_actions {
        node_body(nodes[0], 0)
    } else {
        Seq::empty()
    };
    let all = nodes[0].children@.len() as int;
    let rest = state_code(nodes, 0, all, sessions);
    let m = Run::start();
    assert(code@ == root + rest);
    lemma_run_concat(m, w, root, rest);
    lemma_body(nodes, 0, s);
    lemma_run_plain(m, w, root);
    let m1 = m.run(w, root);
    lemma_run_state(w, m1, nodes, 0, all, sessions);
    let m2 = m1.run(w, rest);
    assert(m1.done =~= root);
    assert(m2.done.contains(s) <==> m1.done.contains(s) || made_below(
        w,
        nodes,
        0,
        all,
        sessions,
        s,
    ));
    assert(root.contains(s) <==> made_when_met(nodes, 0, s));
    if made_when_met(nodes, 0, s) {
        assert(is_due(w, nodes, sessions, seq![0int], s));
    }
    if made_below(w, nodes, 0, all, sessions, s) {
        lemma_made_has_path(w, nodes, 0, all, sessions, s);
        let path = choose|path: Seq<int>| #[trigger] due_from(w, nodes, 0, sessions, path, s);
        assert(path[0] == 0 && is_due(w, nodes, sessions, path, s));
    }
    if exists|path: Seq<int>| path.len() > 0 && path[0] == 0 && #[trigger] is_due(w, nodes, sessions, path, s) {
        let path = choose|path: Seq<int>|
            path.len() > 0 && path[0] == 0 && #[trigger] is_due(w, nodes, sessions, path, s);
        if path.len() == 1 {
            assert(path.last() == 0);
        } else {
            assert(due_from(w, nodes, 0, sessions, path, s));
            lemma_path_is_made(w, nodes, 0, sessions, path, s);
        }
    }
}

/// A child of a node is tested by the packet filter only if the one before it was not met.
pub open spec fn is_chained_on_packet(nodes: Seq<PNode>, i: int, k: int) -> bool {
    nodes[nodes[i].children@[k] as int].pred is Packet && exists|j: int|
        0 <= j < k && nodes[#[trigger] nodes[i].children@[j] as int].pred is Packet
}

/// The predicate can be evaluated on a bare packet.
pub open spec fn of_packet(pred: NodePred) -> bool {
    pred is Packet || (pred matches NodePred::Field { session, .. } && !session)
}

/// Of the children that the packet filter tests in a chain, at most one is met.
pub open spec fn exclusive_on_packet(w: Facts, nodes: Seq<PNode>) -> bool {
    forall|i: int, a: int, b: int|
        0 <= i < nodes.len() && 0 <= a < b < nodes[i].children@.len() && (forall|k: int|
            a < k <= b && of_packet(nodes[nodes[i].children@[k] as int].pred)
                ==> #[trigger] is_chained_on_packet(nodes, i, k)) && of_packet(
            nodes[nodes[i].children@[a] as int].pred,
        ) && of_packet(nodes[nodes[i].children@[b] as int].pred) && #[trigger] is_met(
            w,
            nodes,
            nodes[i].children@[a] as int,
            false,
        ) ==> !#[trigger] is_met(w, nodes, nodes[i].children@[b] as int, false)
}

/// A way down the tree on which a bare packet meets every predicate, to a node that decides.
pub open spec fn accepts(w: Facts, nodes: Seq<PNode>, path: Seq<int>) -> bool {
    &&& is_path(nodes, path)
    &&& forall|j: int|
        0 < j < path.len() ==> of_packet(nodes[#[trigger] path[j]].pred) && is_met(
            w,
            nodes,
            path[j],
            false,
        )
    &&& nodes[path.last()].is_terminal
}

spec fn packet_chain_met(w: Facts, nodes: Seq<PNode>, i: int, n: int) -> bool
    decreases n,
{
    n > 0 && {
        let c = nodes[i].children@[n - 1] as int;
        if !of_packet(nodes[c].pred) {
            packet_chain_met(w, nodes, i, n - 1)
        } else {
            is_met(w, nodes, c, false) || (is_chained_on_packet(nodes, i, n - 1)
                && packet_chain_met(w, nodes, i, n - 1))
        }
    }
}

spec fn accepts_below(w: Facts, nodes: Seq<PNode>, i: int, n: int) -> bool
    decreases nodes.len() - i, n,
{
    if n <= 0 || !(0 <= i < nodes.len()) || n > nodes[i].children@.len() {
        false
    } else {
        let c = nodes[i].children@[n - 1] as int;
        ||| accepts_below(w, nodes, i, n - 1)
        ||| i < c < nodes.len() && of_packet(nodes[c].pred) && is_met(w, nodes, c, false) && (
        nodes[c].is_terminal || accepts_below(w, nodes, c, nodes[c].children@.len() as int))
    }
}

proof fn lemma_packet_chain(w: Facts, nodes: Seq<PNode>, i: int, n: int, b: int)
    requires
        exclusive_on_packet(w, nodes),
        0 <= i < nodes.len(),
        0 <= n <= b < nodes[i].children@.len(),
        of_packet(nodes[nodes[i].children@[b] as int].pred),
        forall|k: int|
            n <= k <= b && of_packet(nodes[nodes[i].children@[k] as int].pred)
                ==> #[trigger] is_chained_on_packet(nodes, i, k),
        packet_chain_met(w, nodes, i, n),
    ensures
        !is_met(w, nodes, nodes[i].children@[b] as int, false),
    decreases n,
{
    let a = n - 1;
    let c = nodes[i].children@[a] as int;
    if of_packet(nodes[c].pred) && is_met(w, nodes, c, false) {
        assert(is_met(w, nodes, nodes[i].children@[a] as int, false));
    } else {
        lemma_packet_chain(w, nodes, i, n - 1, b);
    }
}

proof fn lemma_run_packet(w: Facts, m: Run, nodes: Seq<PNode>, i: int, n: int)
    requires
        is_tree(nodes),
        exclusive_on_packet(w, nodes),
        0 <= i < nodes.len(),
        0 <= n <= nodes[i].children@.len(),
        !m.taken,
    ensures
        ({
            let after = m.run(w, packet_code(nodes, i, n));
            &&& after.blocks == m.blocks
            &&& after.done == m.done
            &&& !m.live() ==> after.returned == m.returned
            &&& m.live() ==> after.returned == accepts_below(w, nodes, i, n)
            &&& m.live() && !after.returned ==> after.taken == packet_chain_met(w, nodes, i, n)
        }),
    decreases nodes.len() - i, n,
{
    if n > 0 {
        let c = nodes[i].children@[n - 1] as int;
        assert(i < nodes[i].children@[n - 1] < nodes.len());
        lemma_run_packet(w, m, nodes, i, n - 1);
        let before = packet_code(nodes, i, n - 1);
        let m1 = m.run(w, before);
        let pred = nodes[c].pred;
        if on_packet(pred) {
            let all = nodes[c].children@.len() as int;
            let below = packet_code(nodes, c, all);
            let chained = pred is Packet && packet_before(nodes, i, n - 1);
            let test = match pred {
                NodePred::Packet { protocol } => Condition::ParsesTo(protocol),
                NodePred::Field { condition, .. } => Condition::Field(condition),
                _ => Condition::Field(0),
            };
            let open = opened(chained, test);
            let last = accepted(nodes[c]);
            let close = seq![Statement::End];
            lemma_run_concat(m, w, before, open);
            lemma_run_concat(m, w, before + open, below);
            lemma_run_concat(m, w, before + open + below, last);
            lemma_run_concat(m, w, before + open + below + last, close);
            let met = is_met(w, nodes, c, false);
            assert(w.holds(test) == met);
            assert(chained == is_chained_on_packet(nodes, i, n - 1));
            if m1.live() && m.live() && chained && m1.taken && met {
                lemma_packet_chain(w, nodes, i, n - 1, n - 1);
            }
            let s1 = if chained {
                Statement::ElseIf(test)
            } else {
                Statement::If(test)
            };
            lemma_run_one(m1, w, s1);
            let m2 = m1.step(w, s1);
            lemma_run_packet(w, m2, nodes, c, all);
            let m3 = m2.run(w, below);
            if nodes[c].is_terminal {
                lemma_run_one(m3, w, Statement::ReturnTrue);
            }
            let m4 = m3.run(w, last);
            lemma_run_one(m4, w, Statement::End);
            let m5 = m4.step(w, Statement::End);
            assert(m5.blocks =~= m.blocks);
            assert(m.run(w, packet_code(nodes, i, n)) == m5);
        }
    }
}

/// A way down from a node, by at least one step, on which a bare packet is accepted.
spec fn accepts_from(w: Facts, nodes: Seq<PNode>, i: int, path: Seq<int>) -> bool {
    path.len() > 1 && path[0] == i && accepts(w, nodes, path)
}

proof fn lemma_accepts_shift(w: Facts, nodes: Seq<PNode>, i: int, path: Seq<int>)
    requires
        path.len() > 0,
        0 <= i < nodes.len(),
    ensures
        accepts(w, nodes, seq![i] + path) <==> child_of(nodes, i, path[0]) && of_packet(
            nodes[path[0]].pred,
        ) && is_met(w, nodes, path[0], false) && accepts(w, nodes, path),
{
    let longer = seq![i] + path;
    lemma_path_shift(nodes, i, path);
    assert(longer.last() == path.last());
    assert(longer[1] == path[0]);
    if accepts(w, nodes, longer) {
        assert forall|j: int| 0 < j < path.len() implies of_packet(
            nodes[#[trigger] path[j]].pred,
        ) && is_met(w, nodes, path[j], false) by {
            assert(longer[j + 1] == path[j]);
        }
        assert(of_packet(nodes[longer[1]].pred));
    }
    if child_of(nodes, i, path[0]) && of_packet(nodes[path[0]].pred) && is_met(
        w,
        nodes,
        path[0],
        false,
    ) && accepts(w, nodes, path) {
        assert forall|j: int| 0 < j < longer.len() implies of_packet(
            nodes[#[trigger] longer[j]].pred,
        ) && is_met(w, nodes, longer[j], false) by {
            assert(longer[j] == path[j - 1]);
        }
    }
}

proof fn lemma_accepted_has_path(w: Facts, nodes: Seq<PNode>, i: int, n: int)
    requires
        is_tree(nodes),
        0 <= i < nodes.len(),
        0 <= n <= nodes[i].children@.len(),
        accepts_below(w, nodes, i, n),
    ensures
        exists|path: Seq<int>| #[trigger] accepts_from(w, nodes, i, path),
    decreases nodes.len() - i, n,
{
    let c = nodes[i].children@[n - 1] as int;
    assert(i < nodes[i].children@[n - 1] < nodes.len());
    assert(child_of(nodes, i, c));
    if accepts_below(w, nodes, i, n - 1) {
        lemma_accepted_has_path(w, nodes, i, n - 1);
    } else if nodes[c].is_terminal {
        lemma_accepts_shift(w, nodes, i, seq![c]);
        assert(accepts(w, nodes, seq![c]));
        assert(accepts_from(w, nodes, i, seq![i] + seq![c]));
    } else {
        lemma_accepted_has_path(w, nodes, c, nodes[c].children@.len() as int);
        let path = choose|path: Seq<int>| #[trigger] accepts_from(w, nodes, c, path);
        lemma_accepts_shift(w, nodes, i, path);
        assert(accepts_from(w, nodes, i, seq![i] + path));
    }
}

proof fn lemma_accepts_at(w: Facts, nodes: Seq<PNode>, i: int, k: int, n: int)
    requires
        is_tree(nodes),
        0 <= i < nodes.len(),
        0 <= k < n <= nodes[i].children@.len(),
        accepts_below(w, nodes, i, k + 1),
    ensures
        accepts_below(w, nodes, i, n),
    decreases n,
{
    if k + 1 < n {
        lemma_accepts_at(w, nodes, i, k, n - 1);
    }
}

proof fn lemma_path_is_accepted(w: Facts, nodes: Seq<PNode>, i: int, path: Seq<int>)
    requires
        is_tree(nodes),
        0 <= i < nodes.len(),
        accepts_from(w, nodes, i, path),
    ensures
        accepts_below(w, nodes, i, nodes[i].children@.len() as int),
    decreases path.len(),
{
    let rest = path.skip(1);
    let c = path[1];
    assert(path =~= seq![i] + rest);
    assert(rest[0] == c);
    lemma_accepts_shift(w, nodes, i, rest);
    let k = choose|k: int| 0 <= k < nodes[i].children@.len() && #[trigger] nodes[i].children@[k]
        == c;
    assert(i < nodes[i].children@[k] < nodes.len());
    if rest.len() > 1 {
        lemma_path_is_accepted(w, nodes, c, rest);
    } else {
        assert(rest.last() == c);
    }
    assert(accepts_below(w, nodes, i, k + 1));
    lemma_accepts_at(w, nodes, i, k, nodes[i].children@.len() as int);
}

/// The packet filter accepts a packet exactly if the packet meets every predicate on some way
/// down from the root to a node that decides, where only predicates on packets count.
/// Children that are chained must exclude each other.
pub proof fn law_packet_filter_follows_the_tree(tree: &PTree, code: Vec<Statement>, w: Facts)
    requires
        tree.wf(),
        is_packet_tree(tree.nodes@),
        exclusive_on_packet(w, tree.nodes@),
        call_ensures(PTree::gen_packet_filter, (tree,), code),
    ensures
        ({
            let after = Run::start().run(w, code@);
            &&& after.returned <==> exists|path: Seq<int>|
                path.len() > 0 && path[0] == 0 && #[trigger] accepts(w, tree.nodes@, path)
            &&& after.blocks.len() == 0
            &&& after.done.len() == 0
        }),
{
    let nodes = tree.nodes@;
    let all = nodes[0].children@.len() as int;
    let first = accepted(nodes[0]);
    let rest = packet_code(nodes, 0, all);
    let m = Run::start();
    lemma_run_concat(m, w, first, rest);
    if nodes[0].is_terminal {
        lemma_run_one(m, w, Statement::ReturnTrue);
    }
    let m1 = m.run(w, first);
    lemma_run_packet(w, m1, nodes, 0, all);
    if nodes[0].is_terminal {
        assert(accepts(w, nodes, seq![0int]));
    } else if accepts_below(w, nodes, 0, all) {
        lemma_accepted_has_path(w, nodes, 0, all);
        let path = choose|path: Seq<int>| #[trigger] accepts_from(w, nodes, 0, path);
        assert(path[0] == 0 && accepts(w, nodes, path));
    }
    if exists|path: Seq<int>|
        path.len() > 0 && path[0] == 0 && #[trigger] accepts(w, nodes, path) {
        let path = choose|path: Seq<int>|
            path.len() > 0 && path[0] == 0 && #[trigger] accepts(w, nodes, path);
        if path.len() == 1 {
            assert(path.last() == 0);
        } else {
            assert(accepts_from(w, nodes, 0, path));
            lemma_path_is_accepted(w, nodes, 0, path);
        }
    }
}

/// A way down from a node, by at least one step, to one that reads a field of a session.
pub open spec fn leads_to_reader(
    nodes: Seq<PNode>,
    i: int,
    path: Seq<int>,
    p: SessionProto,
) -> bool {
    path.len() > 1 && path[0] == i && is_path(nodes, path) && reads_session(
        nodes[path.last()].pred,
        p,
    )
}

proof fn lemma_binding_has_path(nodes: Seq<PNode>, i: int, n: int, p: SessionProto)
    requires
        is_tree(nodes),
        0 <= i < nodes.len(),
        binds_session(nodes, i, n, p),
    ensures
        exists|path: Seq<int>| #[trigger] leads_to_reader(nodes, i, path, p),
    decreases nodes.len() - i, n,
{
    let c = nodes[i].children@[n - 1] as int;
    assert(i < nodes[i].children@[n - 1] < nodes.len());
    assert(child_of(nodes, i, c));
    if binds_session(nodes, i, n - 1, p) {
        lemma_binding_has_path(nodes, i, n - 1, p);
    } else if reads_session(nodes[c].pred, p) {
        lemma_path_shift(nodes, i, seq![c]);
        assert(is_path(nodes, seq![c]));
        assert((seq![i] + seq![c]).last() == c);
        assert(leads_to_reader(nodes, i, seq![i] + seq![c], p));
    } else {
        lemma_binding_has_path(nodes, c, nodes[c].children@.len() as int, p);
        let path = choose|path: Seq<int>| #[trigger] leads_to_reader(nodes, c, path, p);
        lemma_path_shift(nodes, i, path);
        assert((seq![i] + path).last() == path.last());
        assert(leads_to_reader(nodes, i, seq![i] + path, p));
    }
}

proof fn lemma_binds_at(nodes: Seq<PNode>, i: int, k: int, n: int, p: SessionProto)
    requires
        0 <= i < nodes.len(),
        0 <= k < n <= nodes[i].children@.len(),
        binds_session(nodes, i, k + 1, p),
    ensures
        binds_session(nodes, i, n, p),
    decreases n,
{
    if k + 1 < n {
        lemma_binds_at(nodes, i, k, n - 1, p);
    }
}

proof fn lemma_reader_binds(nodes: Seq<PNode>, i: int, path: Seq<int>, p: SessionProto)
    requires
        is_tree(nodes),
        0 <= i < nodes.len(),
        leads_to_reader(nodes, i, path, p),
    ensures
        binds_session(nodes, i, nodes[i].children@.len() as int, p),
    decreases path.len(),
{
    let rest = path.skip(1);
    let c = path[1];
    assert(path =~= seq![i] + rest);
    assert(rest[0] == c);
    lemma_path_shift(nodes, i, rest);
    let k = choose|k: int| 0 <= k < nodes[i].children@.len() && #[trigger] nodes[i].children@[k]
        == c;
    assert(i < nodes[i].children@[k] < nodes.len());
    assert(rest.last() == path.last());
    if rest.len() > 1 {
        lemma_reader_binds(nodes, c, rest, p);
    }
    assert(binds_session(nodes, i, k + 1, p));
    lemma_binds_at(nodes, i, k, nodes[i].children@.len() as int, p);
}

/// A session is bound at a node exactly if some node below it, at whatever depth, reads a
/// field of a session of the protocol.
pub proof fn law_sessions_are_bound_for_their_readers(
    tree: &PTree,
    i: usize,
    p: SessionProto,
    bound: bool,
)
    requires
        tree.wf(),
        i < tree.nodes@.len(),
        call_ensures(PTree::binds_session, (tree, i, p), bound),
    ensures
        bound <==> exists|path: Seq<int>| #[trigger]
            leads_to_reader(tree.nodes@, i as int, path, p),
{
    let nodes = tree.nodes@;
    let all = nodes[i as int].children@.len() as int;
    if bound {
        lemma_binding_has_path(nodes, i as int, all, p);
    }
    if exists|path: Seq<int>| #[trigger] leads_to_reader(nodes, i as int, path, p) {
        let path = choose|path: Seq<int>| #[trigger] leads_to_reader(nodes, i as int, path, p);
        lemma_reader_binds(nodes, i as int, path, p);
    }
}

/// At a node, subscriptions are set active before anything is delivered, and what is to be
/// done for the connection comes first.
pub proof fn law_subscriptions_are_active_before_delivery(node: PNode, i: int, a: int, b: int)
    requires
        0 <= a < node_body(node, i).len(),
        0 <= b < node_body(node, i).len(),
    ensures
        node_body(node, i)[a] is SetActive && node_body(node, i)[b] is Deliver ==> a < b,
        node_body(node, i)[a] is Actions ==> a == 0,
{
}

/// The function for a state transition is handed a packet on the first one alone, and makes
/// updates first unless the transition recurs.
pub proof fn law_state_functions_fit_their_transition(t: StateTree, f: StateFn)
    requires
        t.tree.wf(),
        call_ensures(StateTree::gen_state_fn, (&t,), f),
    ensures
        f.tx == t.tx,
        f.with_pdu <==> t.tx == StateTransition::L4FirstPacket,
        f.with_updates <==> t.tx != StateTransition::InL4Conn && t.tx
            != StateTransition::InL4Stream,
        forall|code: Vec<Statement>| #[trigger]
            call_ensures(PTree::gen_state_filter, (&t.tree, t.tx), code) ==> code@ == f.body@,
{
}

/// What is done at a node is done once: there are as many statements as there are
/// subscriptions that match or are delivered to, and datatypes that stay wanted, and one more
/// where there is something to do for the connection.
pub proof fn law_each_statement_is_made_once(
    node: PNode,
    c: int,
    chained: bool,
    test: Condition,
    below: Seq<Statement>,
)
    ensures
        ({
            let own: int = if node.has_actions {
                1
            } else {
                0
            };
            &&& node_body(node, c).len() == own + node.matched@.len() + node.deliver@.len()
                + node.filtered_datatypes@.len()
            &&& child_code(node, c, chained, test, below).len() == 2 + below.len() + (if
            node.pred is Callback {
                own + node.deliver@.len()
            } else {
                node_body(node, c).len() as int
            })
        }),
{
}

/// The block that is opened for a node tests what the node says: for a custom filter, that it
/// has matched, or that it may still match, as it is written there; for a field or a state,
/// the condition with its number; for a header, that it can be read.
pub proof fn law_blocks_test_what_their_nodes_say(
    nodes: Seq<PNode>,
    i: int,
    k: int,
    sessions: bool,
)
    requires
        is_tree(nodes),
        0 <= i < nodes.len(),
        0 <= k < nodes[i].children@.len(),
    ensures
        ({
            let pred = nodes[nodes[i].children@[k] as int].pred;
            let at = state_code(nodes, i, k, sessions).len() as int;
            let opening = state_code(nodes, i, k + 1, sessions)[at];
            let test = match opening {
                Statement::If(c) => Some(c),
                Statement::ElseIf(c) => Some(c),
                _ => None,
            };
            &&& state_code(nodes, i, k, sessions).is_prefix_of(
                state_code(nodes, i, k + 1, sessions),
            )
            &&& state_code(nodes, i, k + 1, sessions).last() is End
            &&& pred matches NodePred::Custom { filter, matched } ==> test == Some(
                Condition::Custom { filter, matched },
            )
            &&& pred matches NodePred::Field { condition, .. } ==> test == Some(
                Condition::Field(condition),
            )
            &&& pred matches NodePred::LayerState { condition, .. } ==> test == Some(
                Condition::LayerState(condition),
            )
            &&& pred matches NodePred::Packet { protocol } ==> test == Some(
                Condition::ParsesTo(protocol),
            )
            &&& pred matches NodePred::Service { protocol } ==> test == Some(
                Condition::LastProtocol(protocol),
            ) || test == Some(Condition::LastSession(protocol))
        }),
{
    let c = nodes[i].children@[k] as int;
    assert(i < nodes[i].children@[k] < nodes.len());
    let before = state_code(nodes, i, k, sessions);
    let (chained, test) = test_of(nodes, i, k, sessions);
    let below = state_code(
        nodes,
        c,
        nodes[c].children@.len() as int,
        sessions_below(nodes[c].pred, sessions),
    );
    let code = child_code(nodes[c], c, chained, test, below);
    let all = state_code(nodes, i, k + 1, sessions);
    assert(all == before + code);
    assert(code.last() is End);
    assert(all.last() == code.last());
    if !(nodes[c].pred is Callback) {
        assert(code[0] == opened(chained, test)[0]);
        assert(all[before.len() as int] == code[0]);
    }
}

} // verus!
