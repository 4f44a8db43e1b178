//! Predicates on packets, patterns of them, and when two patterns exclude each other.

use crate::protocols::SessionProto;
use crate::text::str_eq;
use vstd::prelude::*;
use vstd::string::*;

verus! {

/// Comparison operators.
#[derive(Debug, Clone, Copy, PartialEq, Eq, Structural)]
pub enum BinOp {
    Eq,
    Ne,
    Ge,
    Le,
    Gt,
    Lt,
    /// Inside a range.
    In,
    /// Matches a regular expression.
    Re,
}

/// A value that a field is compared with. Ranges hold both of their ends; an address block is
/// a range of addresses.
#[allow(inconsistent_fields)]
#[derive(Debug)]
pub enum Value {
    Int(u64),
    IntRange { from: u64, to: u64 },
    Ipv4 { from: u32, to: u32 },
    Ipv6 { from: u128, to: u128 },
    Text(String),
}

/// A condition on a packet.
#[derive(Debug)]
pub enum Predicate {
    /// The packet is of a protocol.
    Unary { protocol: SessionProto },
    /// A field of a protocol compares with a value.
    Binary { protocol: SessionProto, field: String, op: BinOp, value: Value },
    /// A filter function accepts the packet.
    Custom { name: String },
}

/// A conjunction of predicates. It matches everything if it is empty.
#[derive(Debug)]
pub struct FlatPattern {
    pub predicates: Vec<Predicate>,
    /// The text that the pattern was written as, if it was written.
    pub as_str: Option<String>,
}

/// A value, as numbers and sequences.
pub enum ValueModel {
    Numbers { from: int, to: int },
    Text(Seq<char>),
}

/// A predicate, as numbers and sequences.
pub enum PredicateModel {
    Unary { protocol: SessionProto },
    Binary { protocol: SessionProto, field: Seq<char>, op: BinOp, value: ValueModel },
    Custom { name: Seq<char> },
}

impl View for Value {
    type V = ValueModel;

    open spec fn view(&self) -> ValueModel {
        match self {
            Value::Int(n) => ValueModel::Numbers { from: *n as int, to: *n as int },
            Value::IntRange { from, to } => ValueModel::Numbers {
                from: *from as int,
                to: *to as int,
            },
            Value::Ipv4 { from, to } => ValueModel::Numbers { from: *from as int, to: *to as int },
            Value::Ipv6 { from, to } => ValueModel::Numbers { from: *from as int, to: *to as int },
            Value::Text(s) => ValueModel::Text(s@),
        }
    }
}

impl View for Predicate {
    type V = PredicateModel;

    open spec fn view(&self) -> PredicateModel {
        match self {
            Predicate::Unary { protocol } => PredicateModel::Unary { protocol: *protocol },
            Predicate::Binary { protocol, field, op, value } => PredicateModel::Binary {
                protocol: *protocol,
                field: field@,
                op: *op,
                value: value@,
            },
            Predicate::Custom { name } => PredicateModel::Custom { name: name@ },
        }
    }
}

impl View for FlatPattern {
    type V = Seq<PredicateModel>;

    open spec fn view(&self) -> Seq<PredicateModel> {
        Seq::new(self.predicates@.len(), |i: int| self.predicates@[i]@)
    }
}

/// A packet: its protocols, the numbers and texts in its fields, and which of the conditions
/// that are not decided here it meets.
pub struct PacketModel {
    pub protos: Set<SessionProto>,
    pub numbers: Map<(SessionProto, Seq<char>), int>,
    pub texts: Map<(SessionProto, Seq<char>), Seq<char>>,
    pub meets: Set<PredicateModel>,
}

/// The largest number that a field can hold.
pub open spec fn max_number() -> int {
    u128::MAX as int
}

/// The two protocols are never found in one packet: they are different ones of the same
/// layer.
pub open spec fn conflict(p: SessionProto, q: SessionProto) -> bool {
    &&& p != q
    &&& {
        ||| (p == SessionProto::Ipv4 && q == SessionProto::Ipv6)
        ||| (p == SessionProto::Ipv6 && q == SessionProto::Ipv4)
        ||| (p == SessionProto::Tcp && q == SessionProto::Udp)
        ||| (p == SessionProto::Udp && q == SessionProto::Tcp)
        ||| (p.claimed() && q.claimed())
    }
}

impl PacketModel {
    /// No protocols conflict, a transport protocol comes with a network protocol, and
    /// numbers are in range.
    pub open spec fn wf(&self) -> bool {
        &&& forall|p: SessionProto, q: SessionProto|
            self.protos.contains(p) && self.protos.contains(q) ==> !#[trigger] conflict(p, q)
        &&& self.protos.contains(SessionProto::Tcp) || self.protos.contains(SessionProto::Udp)
            ==> self.protos.contains(SessionProto::Ipv4) || self.protos.contains(
            SessionProto::Ipv6,
        )
        &&& forall|k: (SessionProto, Seq<char>)| #[trigger]
            self.numbers.contains_key(k) ==> 0 <= self.numbers[k] <= max_number()
    }
}

/// A number compares with the range `from` to `to`.
pub open spec fn number_holds(op: BinOp, from: int, to: int, n: int) -> bool {
    match op {
        BinOp::Eq => from <= n <= to,
        BinOp::In => from <= n <= to,
        BinOp::Ne => !(from <= n <= to),
        BinOp::Ge => n >= from,
        BinOp::Le => n <= to,
        BinOp::Gt => n > to,
        BinOp::Lt => n < from,
        BinOp::Re => false,
    }
}

/// The packet meets the predicate.
pub open spec fn meets(p: PredicateModel, pkt: PacketModel) -> bool {
    match p {
        PredicateModel::Unary { protocol } => pkt.protos.contains(protocol),
        PredicateModel::Binary { protocol, field, op, value } => pkt.protos.contains(protocol)
            && match value {
            ValueModel::Numbers { from, to } => pkt.numbers.contains_key((protocol, field))
                && number_holds(op, from, to, pkt.numbers[(protocol, field)]),
            ValueModel::Text(s) => match op {
                BinOp::Eq => pkt.texts.contains_key((protocol, field)) && pkt.texts[(
                    protocol,
                    field,
                )] == s,
                BinOp::Ne => pkt.texts.contains_key((protocol, field)) && pkt.texts[(
                    protocol,
                    field,
                )] != s,
                _ => pkt.meets.contains(p),
            },
        },
        PredicateModel::Custom { name: _ } => pkt.meets.contains(p),
    }
}

/// The packet matches the pattern.
pub open spec fn pattern_matches(pattern: Seq<PredicateModel>, pkt: PacketModel) -> bool {
    forall|i: int| 0 <= i < pattern.len() ==> meets(#[trigger] pattern[i], pkt)
}

/// The protocol that a predicate is on, if it names one.
pub open spec fn protocol_of(p: PredicateModel) -> Option<SessionProto> {
    match p {
        PredicateModel::Unary { protocol } => Some(protocol),
        PredicateModel::Binary { protocol, .. } => Some(protocol),
        PredicateModel::Custom { name: _ } => None,
    }
}

/// No number compares with both ranges.
pub open spec fn numbers_exclusive(
    a: BinOp,
    a_from: int,
    a_to: int,
    b: BinOp,
    b_from: int,
    b_to: int,
) -> bool {
    forall|n: int|
        0 <= n <= max_number() ==> !(#[trigger] number_holds(a, a_from, a_to, n) && number_holds(
            b,
            b_from,
            b_to,
            n,
        ))
}

/// No text compares with both texts.
pub open spec fn texts_exclusive(a: BinOp, s: Seq<char>, b: BinOp, t: Seq<char>) -> bool {
    match (a, b) {
        (BinOp::Eq, BinOp::Eq) => s != t,
        (BinOp::Eq, BinOp::Ne) => s == t,
        (BinOp::Ne, BinOp::Eq) => s == t,
        _ => false,
    }
}

/// The two predicates are on conflicting protocols, or on the same field with values that
/// rule each other out.
pub open spec fn exclusive(p: PredicateModel, q: PredicateModel) -> bool {
    ||| (protocol_of(p) is Some && protocol_of(q) is Some && conflict(
        protocol_of(p)->0,
        protocol_of(q)->0,
    ))
    ||| match (p, q) {
        (
            PredicateModel::Binary { protocol: p1, field: f1, op: o1, value: v1 },
            PredicateModel::Binary { protocol: p2, field: f2, op: o2, value: v2 },
        ) => p1 == p2 && f1 == f2 && match (v1, v2) {
            (
                ValueModel::Numbers { from: a, to: b },
                ValueModel::Numbers { from: c, to: d },
            ) => numbers_exclusive(o1, a, b, o2, c, d),
            (ValueModel::Text(s), ValueModel::Text(t)) => texts_exclusive(o1, s, o2, t),
            _ => false,
        },
        _ => false,
    }
}

/// Some predicate of one pattern excludes some predicate of the other.
pub open spec fn patterns_exclusive(p: Seq<PredicateModel>, q: Seq<PredicateModel>) -> bool {
    exists|i: int, j: int|
        0 <= i < p.len() && 0 <= j < q.len() && exclusive(#[trigger] p[i], #[trigger] q[j])
}

/// No packet meets two predicates that exclude each other.
pub proof fn law_exclusive_predicates_share_no_packet(
    p: PredicateModel,
    q: PredicateModel,
    pkt: PacketModel,
)
    requires
        pkt.wf(),
        exclusive(p, q),
    ensures
        !(meets(p, pkt) && meets(q, pkt)),
{
    if meets(p, pkt) && meets(q, pkt) {
        match (p, q) {
            (
                PredicateModel::Binary { protocol: p1, field: f1, op: o1, value: v1 },
                PredicateModel::Binary { protocol: p2, field: f2, op: o2, value: v2 },
            ) => {
                assert(pkt.protos.contains(p1) && pkt.protos.contains(p2));
                assert(!conflict(p1, p2));
                match (v1, v2) {
                    (
                        ValueModel::Numbers { from: a, to: b },
                        ValueModel::Numbers { from: c, to: d },
                    ) => {
                        let n = pkt.numbers[(p1, f1)];
                        assert(pkt.numbers.contains_key((p1, f1)));
                        assert(number_holds(o1, a, b, n));
                    },
                    _ => {},
                }
            },
            (PredicateModel::Custom { .. }, _) => {},
            (_, PredicateModel::Custom { .. }) => {},
            _ => {
                assert(pkt.protos.contains(protocol_of(p)->0));
                assert(pkt.protos.contains(protocol_of(q)->0));
                assert(!conflict(protocol_of(p)->0, protocol_of(q)->0));
            },
        }
    }
}

/// No packet matches two patterns that exclude each other.
pub proof fn law_exclusive_patterns_share_no_packet(
    p: Seq<PredicateModel>,
    q: Seq<PredicateModel>,
    pkt: PacketModel,
)
    requires
        pkt.wf(),
        patterns_exclusive(p, q),
    ensures
        !(pattern_matches(p, pkt) && pattern_matches(q, pkt)),
{
    let (i, j) = choose|i: int, j: int|
        0 <= i < p.len() && 0 <= j < q.len() && exclusive(#[trigger] p[i], #[trigger] q[j]);
    law_exclusive_predicates_share_no_packet(p[i], q[j], pkt);
}

fn protocols_conflict(p: SessionProto, q: SessionProto) -> (b: bool)
    ensures
        b == conflict(p, q),
{
    if p == q {
        return false;
    }
    let network = matches!(p, SessionProto::Ipv4 | SessionProto::Ipv6) && matches!(
        q,
        SessionProto::Ipv4 | SessionProto::Ipv6
    );
    let transport = matches!(p, SessionProto::Tcp | SessionProto::Udp) && matches!(
        q,
        SessionProto::Tcp | SessionProto::Udp
    );
    network || transport || (p.is_claimed() && q.is_claimed())
}

/// The numbers from `low` to `high` that compare with a range, as up to two ranges.
struct Allowed {
    first: Option<(u128, u128)>,
    second: Option<(u128, u128)>,
}

spec fn in_range(r: Option<(u128, u128)>, n: int) -> bool {
    match r {
        Some((a, b)) => a <= n <= b,
        None => false,
    }
}

fn range_up_to(n: u128) -> (r: Option<(u128, u128)>)
    ensures
        forall|k: int| in_range(r, k) <==> 0 <= k < n,
{
    if n > 0 {
        Some((0, n - 1))
    } else {
        None
    }
}

fn range_above(n: u128) -> (r: Option<(u128, u128)>)
    ensures
        forall|k: int| in_range(r, k) <==> n < k <= max_number(),
{
    if n < u128::MAX {
        Some((n + 1, u128::MAX))
    } else {
        None
    }
}

fn allowed(op: BinOp, from: u128, to: u128) -> (r: Allowed)
    ensures
        forall|n: int|
            0 <= n <= max_number() ==> (#[trigger] number_holds(op, from as int, to as int, n)
                <==> in_range(r.first, n) || in_range(r.second, n)),
        forall|n: int|
            in_range(r.first, n) || in_range(r.second, n) ==> 0 <= n <= max_number(),
{
    match op {
        BinOp::Eq | BinOp::In => Allowed { first: Some((from, to)), second: None },
        BinOp::Ne => {
            if from <= to {
                Allowed { first: range_up_to(from), second: range_above(to) }
            } else {
                Allowed { first: Some((0, u128::MAX)), second: None }
            }
        },
        BinOp::Ge => Allowed { first: Some((from, u128::MAX)), second: None },
        BinOp::Le => Allowed { first: Some((0, to)), second: None },
        BinOp::Gt => Allowed { first: range_above(to), second: None },
        BinOp::Lt => Allowed { first: range_up_to(from), second: None },
        BinOp::Re => Allowed { first: None, second: None },
    }
}

fn overlap(a: Option<(u128, u128)>, b: Option<(u128, u128)>) -> (r: bool)
    ensures
        r == exists|n: int| in_range(a, n) && in_range(b, n),
{
    match (a, b) {
        (Some((a_low, a_high)), Some((b_low, b_high))) => {
            let low: u128 = if a_low > b_low {
                a_low
            } else {
                b_low
            };
            let high: u128 = if a_high < b_high {
                a_high
            } else {
                b_high
            };
            if low <= high {
                assert(in_range(a, low as int) && in_range(b, low as int));
            }
            low <= high
        },
        _ => false,
    }
}

fn are_numbers_exclusive(
    a: BinOp,
    a_from: u128,
    a_to: u128,
    b: BinOp,
    b_from: u128,
    b_to: u128,
) -> (r: bool)
    ensures
        r == numbers_exclusive(
            a,
            a_from as int,
            a_to as int,
            b,
            b_from as int,
            b_to as int,
        ),
{
    let x = allowed(a, a_from, a_to);
    let y = allowed(b, b_from, b_to);
    let r = !(overlap(x.first, y.first) || overlap(x.first, y.second) || overlap(
        x.second,
        y.first,
    ) || overlap(x.second, y.second));
    proof {
        if !r {
            let n = choose|n: int|
                (in_range(x.first, n) || in_range(x.second, n)) && (in_range(y.first, n)
                    || in_range(y.second, n));
            assert(number_holds(a, a_from as int, a_to as int, n));
            assert(number_holds(b, b_from as int, b_to as int, n));
        } else {
            assert forall|n: int| 0 <= n <= max_number() implies !(#[trigger] number_holds(
                a,
                a_from as int,
                a_to as int,
                n,
            ) && number_holds(b, b_from as int, b_to as int, n)) by {
                if number_holds(a, a_from as int, a_to as int, n) && number_holds(
                    b,
                    b_from as int,
                    b_to as int,
                    n,
                ) {
                    assert(in_range(x.first, n) || in_range(x.second, n));
                    assert(in_range(y.first, n) || in_range(y.second, n));
                }
            }
        }
    }
    r
}

impl Value {
    /// The range of numbers that the value stands for, unless it is a text.
    fn numbers(&self) -> (r: Option<(u128, u128)>)
        ensures
            match r {
                Some((from, to)) => self@ == (ValueModel::Numbers {
                    from: from as int,
                    to: to as int,
                }),
                None => self@ is Text,
            },
    {
        match self {
            Value::Int(n) => Some((*n as u128, *n as u128)),
            Value::IntRange { from, to } => Some((*from as u128, *to as u128)),
            Value::Ipv4 { from, to } => Some((*from as u128, *to as u128)),
            Value::Ipv6 { from, to } => Some((*from, *to)),
            Value::Text(_) => None,
        }
    }

    /// A copy of the value.
    pub fn copy(&self) -> (r: Value)
        ensures
            r@ == self@,
    {
        match self {
            Value::Int(n) => Value::Int(*n),
            Value::IntRange { from, to } => Value::IntRange { from: *from, to: *to },
            Value::Ipv4 { from, to } => Value::Ipv4 { from: *from, to: *to },
            Value::Ipv6 { from, to } => Value::Ipv6 { from: *from, to: *to },
            Value::Text(s) => Value::Text(s.clone()),
        }
    }

    /// Returns `true` if the two values stand for the same.
    pub fn same(&self, other: &Value) -> (b: bool)
        ensures
            b == (self@ == other@),
    {
        match (self, other) {
            (Value::Text(s), Value::Text(t)) => str_eq(s.as_str(), t.as_str()),
            _ => match (self.numbers(), other.numbers()) {
                (Some((a, b)), Some((c, d))) => a == c && b == d,
                _ => false,
            },
        }
    }
}

impl Predicate {
    /// The protocol that the predicate is on, if it names one.
    pub fn get_protocol(&self) -> (r: Option<SessionProto>)
        ensures
            r == protocol_of(self@),
    {
        match self {
            Predicate::Unary { protocol } => Some(*protocol),
            Predicate::Binary { protocol, field: _, op: _, value: _ } => Some(*protocol),
            Predicate::Custom { name: _ } => None,
        }
    }

    /// A copy of the predicate.
    pub fn copy(&self) -> (r: Predicate)
        ensures
            r@ == self@,
    {
        match self {
            Predicate::Unary { protocol } => Predicate::Unary { protocol: *protocol },
            Predicate::Binary { protocol, field, op, value } => Predicate::Binary {
                protocol: *protocol,
                field: field.clone(),
                op: *op,
                value: value.copy(),
            },
            Predicate::Custom { name } => Predicate::Custom { name: name.clone() },
        }
    }

    /// Returns `true` if the two predicates are the same condition.
    pub fn same(&self, other: &Predicate) -> (b: bool)
        ensures
            b == (self@ == other@),
    {
        match (self, other) {
            (Predicate::Unary { protocol: p }, Predicate::Unary { protocol: q }) => *p == *q,
            (
                Predicate::Binary { protocol: p, field: f, op: o, value: v },
                Predicate::Binary { protocol: q, field: g, op: u, value: w },
            ) => *p == *q && str_eq(f.as_str(), g.as_str()) && *o == *u && v.same(w),
            (Predicate::Custom { name: a }, Predicate::Custom { name: b }) => str_eq(
                a.as_str(),
                b.as_str(),
            ),
            _ => false,
        }
    }

    /// Returns `true` if the two predicates exclude each other.
    pub fn is_excl(&self, other: &Predicate) -> (b: bool)
        ensures
            b == exclusive(self@, other@),
    {
        match (self.get_protocol(), other.get_protocol()) {
            (Some(p), Some(q)) => {
                if protocols_conflict(p, q) {
                    return true;
                }
            },
            _ => {},
        }
        match (self, other) {
            (
                Predicate::Binary { protocol: p, field: f, op: o, value: v },
                Predicate::Binary { protocol: q, field: g, op: u, value: w },
            ) => {
                if *p != *q || !str_eq(f.as_str(), g.as_str()) {
                    return false;
                }
                match (v, w) {
                    (Value::Text(s), Value::Text(t)) => {
                        let equal = str_eq(s.as_str(), t.as_str());
                        match (*o, *u) {
                            (BinOp::Eq, BinOp::Eq) => !equal,
                            (BinOp::Eq, BinOp::Ne) => equal,
                            (BinOp::Ne, BinOp::Eq) => equal,
                            _ => false,
                        }
                    },
                    _ => match (v.numbers(), w.numbers()) {
                        (Some((a, b)), Some((c, d))) => are_numbers_exclusive(*o, a, b, *u, c, d),
                        _ => false,
                    },
                }
            },
            _ => false,
        }
    }
}

impl FlatPattern {
    /// A copy of the pattern.
    pub fn copy(&self) -> (r: FlatPattern)
        ensures
            r@ == self@,
            match (r.as_str, self.as_str) {
                (Some(a), Some(b)) => a@ == b@,
                (None, None) => true,
                _ => false,
            },
    {
        let mut predicates: Vec<Predicate> = Vec::new();
        while predicates.len() < self.predicates.len()
            invariant
                predicates@.len() <= self.predicates@.len(),
                forall|j: int|
                    0 <= j < predicates@.len() ==> (#[trigger] predicates@[j])@
                        == self.predicates@[j]@,
            decreases self.predicates@.len() - predicates@.len(),
        {
            let i: usize = predicates.len();
            predicates.push(self.predicates[i].copy());
        }
        let as_str = match &self.as_str {
            Some(text) => Some(text.clone()),
            None => None,
        };
        let r = FlatPattern { predicates, as_str };
        assert(r@ =~= self@);
        r
    }

    /// Returns `true` if the two patterns exclude each other.
    pub fn is_excl(&self, other: &FlatPattern) -> (b: bool)
        ensures
            b == patterns_exclusive(self@, other@),
    {
        let mut i: usize = 0;
        while i < self.predicates.len()
            invariant
                i <= self.predicates@.len(),
                forall|k: int, j: int|
                    0 <= k < i && 0 <= j < other@.len() ==> !exclusive(
                        #[trigger] self@[k],
                        #[trigger] other@[j],
                    ),
            decreases self.predicates@.len() - i,
        {
            let mut j: usize = 0;
            while j < other.predicates.len()
                invariant
                    i < self.predicates@.len(),
                    j <= other.predicates@.len(),
                    forall|k: int|
                        0 <= k < j ==> !exclusive(self@[i as int], #[trigger] other@[k]),
                decreases other.predicates@.len() - j,
            {
                assert(self@[i as int] == self.predicates@[i as int]@);
                assert(other@[j as int] == other.predicates@[j as int]@);
                if self.predicates[i].is_excl(&other.predicates[j]) {
                    assert(exclusive(self@[i as int], other@[j as int]));
                    return true;
                }
                j = j + 1;
            }
            i = i + 1;
        }
        false
    }

    /// Returns `true` if the two patterns are the same predicates in the same order.
    pub fn same(&self, other: &FlatPattern) -> (b: bool)
        ensures
            b == (self@ == other@),
    {
        if self.predicates.len() != other.predicates.len() {
            assert(self@.len() != other@.len());
            return false;
        }
        let mut i: usize = 0;
        while i < self.predicates.len()
            invariant
                i <= self.predicates@.len(),
                self.predicates@.len() == other.predicates@.len(),
                forall|k: int| 0 <= k < i ==> #[trigger] self@[k] == other@[k],
            decreases self.predicates@.len() - i,
        {
            assert(self@[i as int] == self.predicates@[i as int]@);
            assert(other@[i as int] == other.predicates@[i as int]@);
            if !self.predicates[i].same(&other.predicates[i]) {
                return false;
            }
            i = i + 1;
        }
        assert(self@ =~= other@);
        true
    }

    /// Returns `true` if the pattern matches everything for want of predicates.
    pub fn is_empty(&self) -> (b: bool)
        ensures
            b == (self@.len() == 0),
    {
        self.predicates.len() == 0
    }
}

/// The layer of a protocol: network, transport, or application.
pub open spec fn layer(p: SessionProto) -> int {
    match p {
        SessionProto::Ipv4 | SessionProto::Ipv6 => 3,
        SessionProto::Tcp | SessionProto::Udp => 4,
        SessionProto::Probing | SessionProto::Null => 0,
        _ => 7,
    }
}

/// Two protocols exclude each other exactly if they are different ones of one layer.
pub proof fn law_protocols_of_a_layer_exclude_each_other(p: SessionProto, q: SessionProto)
    ensures
        exclusive(PredicateModel::Unary { protocol: p }, PredicateModel::Unary { protocol: q })
            <==> p != q && layer(p) == layer(q) && layer(p) != 0,
{
}

/// The text compares with another one.
pub open spec fn text_holds(op: BinOp, s: Seq<char>, x: Seq<char>) -> bool {
    if op == BinOp::Eq {
        x == s
    } else {
        x != s
    }
}

/// Comparisons of a text for equality, or the opposite, exclude each other exactly if no text
/// meets both.
pub proof fn law_text_comparisons_exclude_each_other(
    a: BinOp,
    s: Seq<char>,
    b: BinOp,
    t: Seq<char>,
)
    requires
        a == BinOp::Eq || a == BinOp::Ne,
        b == BinOp::Eq || b == BinOp::Ne,
    ensures
        texts_exclusive(a, s, b, t) <==> forall|x: Seq<char>|
            !(#[trigger] text_holds(a, s, x) && text_holds(b, t, x)),
{
    let longer = s + t + seq!['x'];
    assert(longer.len() > s.len() && longer.len() > t.len());
    if a == BinOp::Ne && b == BinOp::Ne {
        assert(text_holds(a, s, longer) && text_holds(b, t, longer));
    }
    if a == BinOp::Eq {
        assert(text_holds(a, s, s));
        assert(text_holds(b, t, s) == (if b == BinOp::Eq {
            s == t
        } else {
            s != t
        }));
    } else if b == BinOp::Eq {
        assert(text_holds(a, s, t) == (s != t));
        assert(text_holds(b, t, t));
    }
}

/// The comparisons of a number are those that their signs say.
pub proof fn law_numbers_compare(n: int, v: int)
    ensures
        number_holds(BinOp::Eq, v, v, n) <==> n == v,
        number_holds(BinOp::Ne, v, v, n) <==> n != v,
        number_holds(BinOp::Ge, v, v, n) <==> n >= v,
        number_holds(BinOp::Le, v, v, n) <==> n <= v,
        number_holds(BinOp::Gt, v, v, n) <==> n > v,
        number_holds(BinOp::Lt, v, v, n) <==> n < v,
{
}

} // verus!
