//! Hardware filters: the part of a filter that a network device can apply.
//!
//! A device matches exact values, and blocks of addresses. Predicates that it does not
//! support are left out of its patterns, which makes those broader. A `!=` cannot be matched
//! directly: it becomes a rule of its own, ahead of the others, that sends the excluded value
//! to the table in which packets are dropped.

use crate::filter::order::{
    in_order, is_key_less, key_less, key_of, law_patterns_stay_in_order,
    lemma_with_pattern_members, pattern_key, place, with_pattern,
};
use crate::filter::pattern::{
    law_exclusive_patterns_share_no_packet, meets, pattern_matches, patterns_exclusive,
    protocol_of, BinOp, FlatPattern, PacketModel, Predicate, PredicateModel, ValueModel,
};
use crate::protocols::SessionProto;
use vstd::prelude::*;

verus! {

/// Priorities of ingress rules; a lower number is checked first.
pub const EXCLUDE_PRIORITY: u32 = 0;

pub const HIGH_PRIORITY: u32 = 1;

pub const LOW_PRIORITY: u32 = 3;

/// The table that packets enter, and the one in which they are dropped.
pub const FIRST_GROUP: u32 = 0;

pub const DROP_GROUP: u32 = 1;

/// The device can match fields of the protocol.
pub open spec fn hardware_protocol(p: SessionProto) -> bool {
    p == SessionProto::Ipv4 || p == SessionProto::Ipv6 || p == SessionProto::Tcp || p
        == SessionProto::Udp
}

pub fn is_hardware_protocol(p: SessionProto) -> (b: bool)
    ensures
        b == hardware_protocol(p),
{
    matches!(
        p,
        SessionProto::Ipv4 | SessionProto::Ipv6 | SessionProto::Tcp | SessionProto::Udp
    )
}

/// The predicate is of a kind that devices support: a hardware protocol, and no comparison
/// but equality, or a block of addresses.
pub open spec fn hardware_kind(p: PredicateModel) -> bool {
    match p {
        PredicateModel::Unary { protocol } => hardware_protocol(protocol),
        PredicateModel::Binary { protocol, field: _, op, value: _ } => hardware_protocol(protocol)
            && (op == BinOp::Eq || (op == BinOp::In && (protocol == SessionProto::Ipv4
            || protocol == SessionProto::Ipv6))),
        PredicateModel::Custom { name: _ } => false,
    }
}

/// Returns `true` if the device supports a predicate, given whether it validated the rules
/// that stand for it: the only way to truly tell.
pub fn device_supported(pred: &Predicate, validated: bool) -> (b: bool)
    ensures
        b == (hardware_kind(pred@) && validated),
{
    let kind_supported = match pred {
        Predicate::Unary { protocol } => is_hardware_protocol(*protocol),
        Predicate::Binary { protocol, field: _, op, value: _ } => is_hardware_protocol(*protocol)
            && (matches!(op, BinOp::Eq) || (matches!(op, BinOp::In) && matches!(
            protocol,
            SessionProto::Ipv4 | SessionProto::Ipv6
        ))),
        Predicate::Custom { name: _ } => false,
    };
    kind_supported && validated
}

/// The predicate on the value that a `!=` on a hardware protocol excludes.
pub open spec fn excluded_value(p: PredicateModel) -> Option<PredicateModel> {
    match p {
        PredicateModel::Binary { protocol, field, op: BinOp::Ne, value } => if hardware_protocol(
            protocol,
        ) {
            Some(PredicateModel::Binary { protocol, field, op: BinOp::Eq, value })
        } else {
            None
        },
        _ => None,
    }
}

/// A device cannot match a `!=` directly. If the predicate is one on a hardware protocol, and
/// the device validated the rule on the excluded value, this returns the predicate on that
/// value.
pub fn hw_excludable(pred: &Predicate, validated: bool) -> (r: Option<Predicate>)
    ensures
        match r {
            Some(p) => validated && excluded_value(pred@) == Some(p@),
            None => !validated || excluded_value(pred@) is None,
        },
{
    match pred {
        Predicate::Binary { protocol, field, op, value } => {
            if matches!(op, BinOp::Ne) && is_hardware_protocol(*protocol) && validated {
                Some(
                    Predicate::Binary {
                        protocol: *protocol,
                        field: field.clone(),
                        op: BinOp::Eq,
                        value: value.copy(),
                    },
                )
            } else {
                None
            }
        },
        _ => None,
    }
}

/// The patterns, as sequences of predicates.
pub open spec fn models(patterns: Seq<FlatPattern>) -> Seq<Seq<PredicateModel>> {
    Seq::new(patterns.len(), |i: int| patterns[i]@)
}

/// No pattern of the filter would accept a packet that meets the predicate.
pub open spec fn excludable(p: PredicateModel, patterns: Seq<Seq<PredicateModel>>) -> bool {
    forall|i: int|
        0 <= i < patterns.len() ==> patterns_exclusive(#[trigger] patterns[i], seq![p])
}

/// True if no pattern of the filter would accept the value of `excl_pred`. Two patterns that
/// exclude different values do not collapse into each other: each still wants what the other
/// excludes, and dropping it in hardware would disagree with the software filter.
pub fn globally_excludable(excl_pred: &Predicate, all_patterns: &[FlatPattern]) -> (b: bool)
    ensures
        b == excludable(excl_pred@, models(all_patterns@)),
{
    let mut predicates: Vec<Predicate> = Vec::new();
    predicates.push(excl_pred.copy());
    let singleton = FlatPattern { predicates, as_str: None };
    assert(singleton@ =~= seq![excl_pred@]);
    let mut i: usize = 0;
    while i < all_patterns.len()
        invariant
            i <= all_patterns@.len(),
            singleton@ == seq![excl_pred@],
            forall|j: int|
                0 <= j < i ==> patterns_exclusive(
                    #[trigger] models(all_patterns@)[j],
                    seq![excl_pred@],
                ),
        decreases all_patterns@.len() - i,
    {
        assert(models(all_patterns@)[i as int] == all_patterns@[i as int]@);
        if !all_patterns[i].is_excl(&singleton) {
            return false;
        }
        i = i + 1;
    }
    true
}

/// The predicates of a pattern that the device supports, given which of them it validated.
pub open spec fn retained(pattern: Seq<PredicateModel>, validated: Seq<bool>) -> Seq<
    PredicateModel,
>
    decreases pattern.len(),
{
    if pattern.len() == 0 {
        Seq::empty()
    } else {
        let before = retained(pattern.drop_last(), validated);
        if hardware_kind(pattern.last()) && validated[pattern.len() - 1] {
            before.push(pattern.last())
        } else {
            before
        }
    }
}

/// Some predicate is on the protocol.
pub open spec fn names_protocol(pattern: Seq<PredicateModel>, p: SessionProto) -> bool {
    exists|i: int| 0 <= i < pattern.len() && protocol_of(#[trigger] pattern[i]) == Some(p)
}

/// A pattern with its network layer spelled out: once for each network protocol, unless it
/// names one itself. A pattern that matches everything stays as it is.
pub open spec fn fully_qualified(pattern: Seq<PredicateModel>) -> Seq<Seq<PredicateModel>> {
    if pattern.len() == 0 || names_protocol(pattern, SessionProto::Ipv4) || names_protocol(
        pattern,
        SessionProto::Ipv6,
    ) {
        seq![pattern]
    } else {
        seq![
            seq![PredicateModel::Unary { protocol: SessionProto::Ipv4 }] + pattern,
            seq![PredicateModel::Unary { protocol: SessionProto::Ipv6 }] + pattern,
        ]
    }
}

/// A list with more patterns, each of them once and in its place.
pub open spec fn with_patterns(
    list: Seq<Seq<PredicateModel>>,
    more: Seq<Seq<PredicateModel>>,
) -> Seq<Seq<PredicateModel>>
    decreases more.len(),
{
    if more.len() == 0 {
        list
    } else {
        with_pattern(with_patterns(list, more.drop_last()), more.last())
    }
}

/// What the device supports of each pattern of the filter, fully qualified.
pub open spec fn qualified_patterns(
    patterns: Seq<Seq<PredicateModel>>,
    validated: Seq<Seq<bool>>,
) -> Seq<Seq<PredicateModel>>
    decreases patterns.len(),
{
    if patterns.len() == 0 {
        Seq::empty()
    } else {
        with_patterns(
            qualified_patterns(patterns.drop_last(), validated),
            fully_qualified(retained(patterns.last(), validated[patterns.len() - 1])),
        )
    }
}

/// Every predicate of `a` is in `b`, so that whatever matches `b` matches `a`.
pub open spec fn covers(a: Seq<PredicateModel>, b: Seq<PredicateModel>) -> bool {
    forall|i: int| 0 <= i < a.len() ==> b.contains(#[trigger] a[i])
}

/// Another pattern of the list takes the `i`-th one's place: one that it has all predicates
/// of, and of two with the same predicates the earlier one.
pub open spec fn replaces(list: Seq<Seq<PredicateModel>>, j: int, i: int) -> bool {
    &&& 0 <= j < list.len()
    &&& j != i
    &&& covers(list[j], list[i])
    &&& !covers(list[i], list[j]) || j < i
}

/// The `i`-th pattern of the list is redundant.
pub open spec fn redundant(list: Seq<Seq<PredicateModel>>, i: int) -> bool {
    exists|j: int| #[trigger] replaces(list, j, i)
}

/// The first `n` patterns of a list without those that are redundant.
pub open spec fn pruned(list: Seq<Seq<PredicateModel>>, n: int) -> Seq<Seq<PredicateModel>>
    decreases n,
{
    if n <= 0 {
        Seq::empty()
    } else if redundant(list, n - 1) {
        pruned(list, n - 1)
    } else {
        pruned(list, n - 1).push(list[n - 1])
    }
}

/// The patterns that the device accepts packets by: what it supports of the filter, without
/// patterns that others make redundant.
pub open spec fn accept_patterns(
    patterns: Seq<Seq<PredicateModel>>,
    validated: Seq<Seq<bool>>,
) -> Seq<Seq<PredicateModel>> {
    let all = qualified_patterns(patterns, validated);
    pruned(all, all.len() as int)
}

proof fn lemma_pruned_members(list: Seq<Seq<PredicateModel>>, n: int, k: int)
    requires
        0 <= n <= list.len(),
        0 <= k < pruned(list, n).len(),
    ensures
        exists|i: int|
            0 <= i < n && !#[trigger] redundant(list, i) && list[i] == pruned(list, n)[k],
    decreases n,
{
    if k < pruned(list, n - 1).len() {
        lemma_pruned_members(list, n - 1, k);
        let i = choose|i: int|
            0 <= i < n - 1 && !#[trigger] redundant(list, i) && list[i] == pruned(list, n - 1)[k];
        assert(!redundant(list, i) && list[i] == pruned(list, n)[k]);
    } else {
        assert(!redundant(list, n - 1));
    }
}

proof fn lemma_pruned_keeps(list: Seq<Seq<PredicateModel>>, n: int, i: int)
    requires
        0 <= i < n <= list.len(),
        !redundant(list, i),
    ensures
        pruned(list, n).contains(list[i]),
    decreases n,
{
    if i < n - 1 {
        lemma_pruned_keeps(list, n - 1, i);
        let before = pruned(list, n - 1);
        let k = choose|k: int| 0 <= k < before.len() && before[k] == list[i];
        assert(pruned(list, n)[k] == list[i]);
    } else {
        assert(pruned(list, n).last() == list[i]);
    }
}

proof fn lemma_pruned_positions(list: Seq<Seq<PredicateModel>>, n: int, a: int, b: int) -> (r: (
    int,
    int,
))
    requires
        0 <= n <= list.len(),
        0 <= a < b < pruned(list, n).len(),
    ensures
        0 <= r.0 < r.1 < n,
        !redundant(list, r.0) && list[r.0] == pruned(list, n)[a],
        !redundant(list, r.1) && list[r.1] == pruned(list, n)[b],
    decreases n,
{
    if b < pruned(list, n - 1).len() {
        lemma_pruned_positions(list, n - 1, a, b)
    } else {
        lemma_pruned_members(list, n - 1, a);
        let i = choose|i: int|
            0 <= i < n - 1 && !#[trigger] redundant(list, i) && list[i] == pruned(list, n - 1)[a];
        (i, n - 1)
    }
}

/// No pattern that the device accepts packets by has all predicates of another.
pub proof fn law_accepted_patterns_are_not_redundant(
    filter: Seq<Seq<PredicateModel>>,
    validated: Seq<Seq<bool>>,
    a: int,
    b: int,
)
    requires
        0 <= a < accept_patterns(filter, validated).len(),
        0 <= b < accept_patterns(filter, validated).len(),
        a != b,
    ensures
        !covers(accept_patterns(filter, validated)[a], accept_patterns(filter, validated)[b]),
{
    let list = qualified_patterns(filter, validated);
    let n = list.len() as int;
    let (i, j) = if a < b {
        lemma_pruned_positions(list, n, a, b)
    } else {
        let (y, x) = lemma_pruned_positions(list, n, b, a);
        (x, y)
    };
    if covers(list[i], list[j]) {
        assert(!replaces(list, i, j));
        assert(!replaces(list, j, i));
    }
}

proof fn lemma_covering_set(a: Seq<PredicateModel>, b: Seq<PredicateModel>)
    requires
        covers(a, b),
    ensures
        a.to_set().subset_of(b.to_set()),
        a.to_set().finite(),
        b.to_set().finite(),
        a.to_set().len() <= b.to_set().len(),
        !covers(b, a) ==> a.to_set().len() < b.to_set().len(),
{
    vstd::seq_lib::seq_to_set_is_finite(a);
    vstd::seq_lib::seq_to_set_is_finite(b);
    let (x, y) = (a.to_set(), b.to_set());
    assert forall|p: PredicateModel| x.contains(p) implies y.contains(p) by {
        let i = choose|i: int| 0 <= i < a.len() && a[i] == p;
        assert(b.contains(a[i]));
    }
    vstd::set_lib::lemma_len_subset(x, y);
    if !covers(b, a) {
        let i = choose|i: int| 0 <= i < b.len() && !a.contains(#[trigger] b[i]);
        assert(b.contains(b[i]));
        assert(y.contains(b[i]) && !x.contains(b[i]));
        vstd::set_lib::lemma_len_subset(x, y.remove(b[i]));
    }
}

/// The pattern on an excluded value, under its protocol.
pub open spec fn exclusion(p: PredicateModel) -> Seq<PredicateModel> {
    seq![PredicateModel::Unary { protocol: protocol_of(p)->0 }, p]
}

/// A list with the patterns on the values that the first `n` predicates of a pattern exclude,
/// where no pattern of the filter would accept those values.
pub open spec fn with_exclusions(
    list: Seq<Seq<PredicateModel>>,
    pattern: Seq<PredicateModel>,
    validated: Seq<bool>,
    all: Seq<Seq<PredicateModel>>,
    n: int,
) -> Seq<Seq<PredicateModel>>
    decreases n,
{
    if n <= 0 {
        list
    } else {
        let before = with_exclusions(list, pattern, validated, all, n - 1);
        match excluded_value(pattern[n - 1]) {
            Some(p) if validated[n - 1] && excludable(p, all) => with_patterns(
                before,
                fully_qualified(exclusion(p)),
            ),
            _ => before,
        }
    }
}

/// The patterns by which the device drops packets ahead of the others, for the first `n`
/// patterns of the filter.
pub open spec fn exclude_patterns(
    all: Seq<Seq<PredicateModel>>,
    validated: Seq<Seq<bool>>,
    n: int,
) -> Seq<Seq<PredicateModel>>
    decreases n,
{
    if n <= 0 {
        Seq::empty()
    } else {
        with_exclusions(
            exclude_patterns(all, validated, n - 1),
            all[n - 1],
            validated[n - 1],
            all,
            all[n - 1].len() as int,
        )
    }
}

/// Answers of the device, as sequences.
pub open spec fn answers(v: Seq<Vec<bool>>) -> Seq<Seq<bool>> {
    Seq::new(v.len(), |i: int| v[i]@)
}

/// There is an answer for each predicate of each pattern.
pub open spec fn answered(patterns: Seq<FlatPattern>, v: Seq<Vec<bool>>) -> bool {
    &&& v.len() == patterns.len()
    &&& forall|i: int|
        0 <= i < patterns.len() ==> (#[trigger] v[i])@.len() == patterns[i].predicates@.len()
}

/// The part of a filter that a device applies.
#[derive(Debug)]
pub struct HardwareFilter {
    pub patterns: Vec<FlatPattern>,
    /// `!=` predicates as patterns on the excluded value.
    pub exclude_patterns: Vec<FlatPattern>,
}

/// What is done with a packet that a rule matches.
#[derive(Debug, Clone, Copy, PartialEq, Eq, Structural)]
pub enum FlowAction {
    /// It is delivered to the host.
    Rss,
    /// It goes on to another table.
    Jump(u32),
}

/// A rule of the device.
#[derive(Debug)]
pub struct FlowRule {
    pub group: u32,
    pub priority: u32,
    pub pattern: FlatPattern,
    pub action: FlowAction,
}

/// A rule, with its pattern as a sequence.
pub struct RuleModel {
    pub group: u32,
    pub priority: u32,
    pub pattern: Seq<PredicateModel>,
    pub action: FlowAction,
}

impl View for FlowRule {
    type V = RuleModel;

    open spec fn view(&self) -> RuleModel {
        RuleModel {
            group: self.group,
            priority: self.priority,
            pattern: self.pattern@,
            action: self.action,
        }
    }
}

/// The rules, as models.
pub open spec fn rule_models(rules: Seq<FlowRule>) -> Seq<RuleModel> {
    Seq::new(rules.len(), |i: int| rules[i]@)
}

pub open spec fn exclude_rule(p: Seq<PredicateModel>) -> RuleModel {
    RuleModel {
        group: FIRST_GROUP,
        priority: EXCLUDE_PRIORITY,
        pattern: p,
        action: FlowAction::Jump(DROP_GROUP),
    }
}

pub open spec fn accept_rule(p: Seq<PredicateModel>) -> RuleModel {
    RuleModel {
        group: FIRST_GROUP,
        priority: HIGH_PRIORITY,
        pattern: p,
        action: FlowAction::Rss,
    }
}

/// The rule for what no other rule matches.
pub open spec fn default_rule() -> RuleModel {
    RuleModel {
        group: FIRST_GROUP,
        priority: LOW_PRIORITY,
        pattern: Seq::empty(),
        action: FlowAction::Jump(DROP_GROUP),
    }
}

/// Every pattern matches everything.
pub open spec fn all_empty(patterns: Seq<Seq<PredicateModel>>) -> bool {
    forall|i: int| 0 <= i < patterns.len() ==> (#[trigger] patterns[i]).len() == 0
}

/// The rules of a filter: exclusions, then what is accepted, then the default. A filter that
/// matches everything has none.
pub open spec fn rules_of(
    accept: Seq<Seq<PredicateModel>>,
    exclude: Seq<Seq<PredicateModel>>,
) -> Seq<RuleModel> {
    if all_empty(accept) && all_empty(exclude) {
        Seq::empty()
    } else {
        exclude.map_values(|p: Seq<PredicateModel>| exclude_rule(p)) + accept.map_values(
            |p: Seq<PredicateModel>| accept_rule(p),
        ) + seq![default_rule()]
    }
}

/// The rule is one that the device applies to the packet: it matches, and no rule of the same
/// table that matches is checked before it.
pub open spec fn applies(rules: Seq<RuleModel>, r: RuleModel, pkt: PacketModel) -> bool {
    &&& rules.contains(r)
    &&& pattern_matches(r.pattern, pkt)
    &&& forall|i: int|
        0 <= i < rules.len() && (#[trigger] rules[i]).group == r.group && pattern_matches(
            rules[i].pattern,
            pkt,
        ) ==> r.priority <= rules[i].priority
}

/// The packet matches some pattern.
pub open spec fn any_matches(patterns: Seq<Seq<PredicateModel>>, pkt: PacketModel) -> bool {
    exists|i: int| 0 <= i < patterns.len() && pattern_matches(#[trigger] patterns[i], pkt)
}

fn is_named(pattern: &FlatPattern, p: SessionProto) -> (b: bool)
    ensures
        b == names_protocol(pattern@, p),
{
    let mut i: usize = 0;
    while i < pattern.predicates.len()
        invariant
            i <= pattern.predicates@.len(),
            forall|j: int| 0 <= j < i ==> protocol_of(#[trigger] pattern@[j]) != Some(p),
        decreases pattern.predicates@.len() - i,
    {
        assert(pattern@[i as int] == pattern.predicates@[i as int]@);
        match pattern.predicates[i].get_protocol() {
            Some(q) => {
                if q == p {
                    return true;
                }
            },
            None => {},
        }
        i = i + 1;
    }
    false
}

fn qualified_with(pattern: &FlatPattern, p: SessionProto) -> (r: FlatPattern)
    ensures
        r@ == seq![PredicateModel::Unary { protocol: p }] + pattern@,
{
    let mut predicates: Vec<Predicate> = Vec::new();
    predicates.push(Predicate::Unary { protocol: p });
    let ghost head = seq![PredicateModel::Unary { protocol: p }];
    let mut i: usize = 0;
    assert(predicates_view(predicates@) =~= head + pattern@.take(0));
    while i < pattern.predicates.len()
        invariant
            i <= pattern.predicates@.len(),
            predicates_view(predicates@) == head + pattern@.take(i as int),
        decreases pattern.predicates@.len() - i,
    {
        let ghost before = predicates_view(predicates@);
        let copy = pattern.predicates[i].copy();
        predicates.push(copy);
        assert(predicates_view(predicates@) =~= before.push(copy@));
        assert(pattern@.take(i + 1) =~= pattern@.take(i as int).push(copy@));
        i = i + 1;
        assert(predicates_view(predicates@) =~= head + pattern@.take(i as int));
    }
    assert(pattern@.take(i as int) =~= pattern@);
    let r = FlatPattern { predicates, as_str: None };
    assert(r@ =~= predicates_view(predicates@));
    r
}

/// The predicates, as models.
spec fn predicates_view(v: Seq<Predicate>) -> Seq<PredicateModel> {
    Seq::new(v.len(), |i: int| v[i]@)
}

impl FlatPattern {
    /// The pattern with its network layer spelled out.
    pub fn to_fully_qualified(self) -> (r: Vec<FlatPattern>)
        ensures
            models(r@) == fully_qualified(self@),
    {
        let mut out: Vec<FlatPattern> = Vec::new();
        if self.is_empty() || is_named(&self, SessionProto::Ipv4) || is_named(
            &self,
            SessionProto::Ipv6,
        ) {
            out.push(self);
        } else {
            out.push(qualified_with(&self, SessionProto::Ipv4));
            out.push(qualified_with(&self, SessionProto::Ipv6));
        }
        assert(models(out@) =~= fully_qualified(self@));
        out
    }

    /// The pattern without the predicates that the device does not support, given which of
    /// them it validated.
    pub fn retain_hardware_predicates(&self, validated: &Vec<bool>) -> (r: FlatPattern)
        requires
            validated@.len() == self.predicates@.len(),
        ensures
            r@ == retained(self@, validated@),
    {
        let mut predicates: Vec<Predicate> = Vec::new();
        let mut i: usize = 0;
        assert(predicates_view(predicates@) =~= retained(self@.take(0), validated@));
        while i < self.predicates.len()
            invariant
                i <= self.predicates@.len(),
                validated@.len() == self.predicates@.len(),
                predicates_view(predicates@) == retained(self@.take(i as int), validated@),
            decreases self.predicates@.len() - i,
        {
            let ghost before = predicates_view(predicates@);
            assert(self@.take(i + 1).drop_last() =~= self@.take(i as int));
            assert(self@.take(i + 1).last() == self.predicates@[i as int]@);
            if device_supported(&self.predicates[i], validated[i]) {
                let copy = self.predicates[i].copy();
                predicates.push(copy);
                assert(predicates_view(predicates@) =~= before.push(copy@));
            }
            i = i + 1;
        }
        assert(self@.take(i as int) =~= self@);
        let r = FlatPattern { predicates, as_str: None };
        assert(r@ =~= predicates_view(predicates@));
        r
    }
}

/// The patterns whose rules the device has to validate to tell whether it supports a
/// predicate.
pub fn probe_patterns(pred: &Predicate) -> (r: Vec<FlatPattern>)
    ensures
        models(r@) == fully_qualified(seq![pred@]),
{
    let mut predicates: Vec<Predicate> = Vec::new();
    predicates.push(pred.copy());
    let singleton = FlatPattern { predicates, as_str: None };
    assert(singleton@ =~= seq![pred@]);
    singleton.to_fully_qualified()
}

/// The device supports a predicate if it validated all of the rules that stand for it.
pub fn predicate_supported(replies: &Vec<bool>) -> (b: bool)
    ensures
        b == forall|i: int| 0 <= i < replies@.len() ==> #[trigger] replies@[i],
{
    let mut i: usize = 0;
    while i < replies.len()
        invariant
            i <= replies@.len(),
            forall|j: int| 0 <= j < i ==> #[trigger] replies@[j],
        decreases replies@.len() - i,
    {
        if !replies[i] {
            assert(!replies@[i as int]);
            return false;
        }
        i = i + 1;
    }
    true
}

/// Adds a pattern to a list in its place, unless it is there already.
fn add_pattern(list: &mut Vec<FlatPattern>, p: FlatPattern)
    ensures
        models(final(list)@) == with_pattern(models(old(list)@), p@),
{
    let ghost before = models(list@);
    let mut i: usize = 0;
    while i < list.len()
        invariant
            i <= list@.len(),
            list@ == old(list)@,
            before == models(list@),
            forall|j: int| 0 <= j < i ==> #[trigger] before[j] != p@,
        decreases list@.len() - i,
    {
        assert(before[i as int] == list@[i as int]@);
        if list[i].same(&p) {
            assert(before.contains(p@));
            return;
        }
        i = i + 1;
    }
    assert(!before.contains(p@));
    let key = key_of(&p);
    let mut at: usize = 0;
    assert(before.skip(0) =~= before);
    while at < list.len() && is_key_less(&key_of(&list[at]), &key)
        invariant
            at <= list@.len(),
            list@ == old(list)@,
            before == models(list@),
            key@ == pattern_key(p@),
            place(before, p@) == at + place(before.skip(at as int), p@),
        decreases list@.len() - at,
    {
        assert(before.skip(at as int)[0] == list@[at as int]@);
        assert(before.skip(at as int).skip(1) =~= before.skip(at + 1));
        at = at + 1;
    }
    assert(at < list@.len() ==> before.skip(at as int)[0] == list@[at as int]@);
    assert(place(before, p@) == at);
    list.insert(at, p);
    assert(models(list@) =~= before.insert(at as int, p@));
}

/// Adds patterns to a list, each of them once.
fn add_patterns(list: &mut Vec<FlatPattern>, more: Vec<FlatPattern>)
    ensures
        models(final(list)@) == with_patterns(models(old(list)@), models(more@)),
{
    let ghost all = models(more@);
    let mut rest = more;
    let mut front: Vec<FlatPattern> = Vec::new();
    // Take the patterns from the back, then add them from the front.
    while rest.len() > 0
        invariant
            list@ == old(list)@,
            rest@.len() + front@.len() == all.len(),
            forall|i: int| 0 <= i < rest@.len() ==> (#[trigger] rest@[i])@ == all[i],
            forall|i: int|
                0 <= i < front@.len() ==> (#[trigger] front@[i])@ == all[all.len() - 1 - i],
        decreases rest@.len(),
    {
        match rest.pop() {
            Some(p) => {
                front.push(p);
            },
            None => {},
        }
    }
    let ghost mut added: int = 0;
    assert(all.take(0) =~= Seq::empty());
    while front.len() > 0
        invariant
            0 <= added,
            added + front@.len() == all.len(),
            forall|i: int|
                0 <= i < front@.len() ==> (#[trigger] front@[i])@ == all[all.len() - 1 - i],
            models(list@) == with_patterns(models(old(list)@), all.take(added)),
        decreases front@.len(),
    {
        match front.pop() {
            Some(p) => {
                assert(p@ == all[added]);
                assert(all.take(added + 1).drop_last() =~= all.take(added));
                assert(all.take(added + 1).last() == p@);
                add_pattern(list, p);
                proof {
                    added = added + 1;
                }
            },
            None => {},
        }
    }
    assert(all.take(added) =~= all);
}

fn is_predicate_of(p: &Predicate, pattern: &FlatPattern) -> (b: bool)
    ensures
        b == pattern@.contains(p@),
{
    let mut i: usize = 0;
    while i < pattern.predicates.len()
        invariant
            i <= pattern.predicates@.len(),
            forall|j: int| 0 <= j < i ==> #[trigger] pattern@[j] != p@,
        decreases pattern.predicates@.len() - i,
    {
        assert(pattern@[i as int] == pattern.predicates@[i as int]@);
        if pattern.predicates[i].same(p) {
            return true;
        }
        i = i + 1;
    }
    false
}

fn is_covering(a: &FlatPattern, b: &FlatPattern) -> (r: bool)
    ensures
        r == covers(a@, b@),
{
    let mut i: usize = 0;
    while i < a.predicates.len()
        invariant
            i <= a.predicates@.len(),
            forall|j: int| 0 <= j < i ==> b@.contains(#[trigger] a@[j]),
        decreases a.predicates@.len() - i,
    {
        assert(a@[i as int] == a.predicates@[i as int]@);
        if !is_predicate_of(&a.predicates[i], b) {
            return false;
        }
        i = i + 1;
    }
    true
}

fn is_redundant(list: &Vec<FlatPattern>, i: usize) -> (b: bool)
    requires
        i < list@.len(),
    ensures
        b == redundant(models(list@), i as int),
{
    let ghost all = models(list@);
    let mut j: usize = 0;
    while j < list.len()
        invariant
            i < list@.len(),
            j <= list@.len(),
            all == models(list@),
            forall|k: int| 0 <= k < j ==> !#[trigger] replaces(all, k, i as int),
        decreases list@.len() - j,
    {
        assert(all[j as int] == list@[j as int]@);
        assert(all[i as int] == list@[i as int]@);
        if j != i && is_covering(&list[j], &list[i]) && (j < i || !is_covering(&list[i], &list[j])) {
            assert(replaces(all, j as int, i as int));
            return true;
        }
        j = j + 1;
    }
    false
}

/// The patterns of a list without those that are redundant.
fn prune_patterns(list: Vec<FlatPattern>) -> (r: Vec<FlatPattern>)
    ensures
        models(r@) == pruned(models(list@), list@.len() as int),
{
    let ghost all = models(list@);
    let n: usize = list.len();
    let mut flags: Vec<bool> = Vec::new();
    while flags.len() < list.len()
        invariant
            flags@.len() <= list@.len(),
            all == models(list@),
            forall|k: int| 0 <= k < flags@.len() ==> #[trigger] flags@[k] == redundant(all, k),
        decreases list@.len() - flags@.len(),
    {
        let i: usize = flags.len();
        let flag = is_redundant(&list, i);
        flags.push(flag);
    }
    let mut rest = list;
    let mut out: Vec<FlatPattern> = Vec::new();
    let mut i: usize = 0;
    assert(models(out@) =~= pruned(all, 0));
    while rest.len() > 0
        invariant
            i + rest@.len() == n,
            n == all.len(),
            flags@.len() == n,
            forall|k: int| 0 <= k < n ==> #[trigger] flags@[k] == redundant(all, k),
            forall|k: int| 0 <= k < rest@.len() ==> (#[trigger] rest@[k])@ == all[i + k],
            models(out@) == pruned(all, i as int),
        decreases rest@.len(),
    {
        let p = rest.remove(0);
        assert(p@ == all[i as int]);
        if !flags[i] {
            let ghost before = models(out@);
            out.push(p);
            assert(models(out@) =~= before.push(p@));
        }
        i = i + 1;
    }
    out
}

impl HardwareFilter {
    /// The part of a filter that a device applies, given which predicates it validated: as
    /// they are, for accepting, and on the values that they exclude, for excluding. Prunes
    /// all predicates that the device does not support, and redundant patterns; the patterns
    /// are sorted.
    pub fn new(
        filter: &Vec<FlatPattern>,
        validated: &Vec<Vec<bool>>,
        excl_validated: &Vec<Vec<bool>>,
    ) -> (r: HardwareFilter)
        requires
            answered(filter@, validated@),
            answered(filter@, excl_validated@),
        ensures
            models(r.patterns@) == accept_patterns(models(filter@), answers(validated@)),
            models(r.exclude_patterns@) == exclude_patterns(
                models(filter@),
                answers(excl_validated@),
                filter@.len() as int,
            ),
    {
        let ghost all = models(filter@);
        let mut patterns: Vec<FlatPattern> = Vec::new();
        let mut i: usize = 0;
        assert(models(patterns@) =~= qualified_patterns(all.take(0), answers(validated@)));
        while i < filter.len()
            invariant
                i <= filter@.len(),
                all == models(filter@),
                answered(filter@, validated@),
                models(patterns@) == qualified_patterns(all.take(i as int), answers(validated@)),
            decreases filter@.len() - i,
        {
            assert(all.take(i + 1).drop_last() =~= all.take(i as int));
            assert(all.take(i + 1).last() == filter@[i as int]@);
            assert(answers(validated@)[i as int] == validated@[i as int]@);
            let hw = filter[i].retain_hardware_predicates(&validated[i]);
            let layered = hw.to_fully_qualified();
            add_patterns(&mut patterns, layered);
            i = i + 1;
        }
        assert(all.take(i as int) =~= all);
        let patterns = prune_patterns(patterns);
        let mut exclude: Vec<FlatPattern> = Vec::new();
        let mut i: usize = 0;
        assert(models(exclude@) =~= exclude_patterns(all, answers(excl_validated@), 0));
        while i < filter.len()
            invariant
                i <= filter@.len(),
                all == models(filter@),
                answered(filter@, excl_validated@),
                models(exclude@) == exclude_patterns(all, answers(excl_validated@), i as int),
            decreases filter@.len() - i,
        {
            assert(all[i as int] == filter@[i as int]@);
            assert(answers(excl_validated@)[i as int] == excl_validated@[i as int]@);
            HardwareFilter::add_exclusions(&mut exclude, filter, i, &excl_validated[i]);
            i = i + 1;
        }
        HardwareFilter { patterns, exclude_patterns: exclude }
    }

    /// Adds the patterns on the values that a pattern of the filter excludes.
    fn add_exclusions(
        list: &mut Vec<FlatPattern>,
        filter: &Vec<FlatPattern>,
        at: usize,
        validated: &Vec<bool>,
    )
        requires
            at < filter@.len(),
            validated@.len() == filter@[at as int].predicates@.len(),
        ensures
            models(final(list)@) == with_exclusions(
                models(old(list)@),
                filter@[at as int]@,
                validated@,
                models(filter@),
                filter@[at as int]@.len() as int,
            ),
    {
        let mut j: usize = 0;
        while j < filter[at].predicates.len()
            invariant
                at < filter@.len(),
                validated@.len() == filter@[at as int].predicates@.len(),
                j <= filter@[at as int].predicates@.len(),
                models(list@) == with_exclusions(
                    models(old(list)@),
                    filter@[at as int]@,
                    validated@,
                    models(filter@),
                    j as int,
                ),
            decreases filter@[at as int].predicates@.len() - j,
        {
            assert(filter@[at as int]@[j as int] == filter@[at as int].predicates@[j as int]@);
            match hw_excludable(&filter[at].predicates[j], validated[j]) {
                Some(excl_pred) => {
                    // Only safe if no pattern of the filter would still accept this value.
                    if globally_excludable(&excl_pred, filter.as_slice()) {
                        let ghost p = excl_pred@;
                        let mut predicates: Vec<Predicate> = Vec::new();
                        match excl_pred.get_protocol() {
                            Some(protocol) => {
                                predicates.push(Predicate::Unary { protocol });
                            },
                            None => {},
                        }
                        predicates.push(excl_pred);
                        let pattern = FlatPattern { predicates, as_str: None };
                        assert(pattern@ =~= exclusion(p));
                        let layered = pattern.to_fully_qualified();
                        add_patterns(list, layered);
                    }
                },
                None => {},
            }
            j = j + 1;
        }
    }

    /// The rules that put the filter into the device, in the order in which they are
    /// installed.
    pub fn install(self) -> (r: Vec<FlowRule>)
        ensures
            rule_models(r@) == rules_of(models(self.patterns@), models(self.exclude_patterns@)),
    {
        let ghost accept = models(self.patterns@);
        let ghost exclude = models(self.exclude_patterns@);
        let mut out: Vec<FlowRule> = Vec::new();
        if are_all_empty(&self.patterns) && are_all_empty(&self.exclude_patterns) {
            assert(rule_models(out@) =~= rules_of(accept, exclude));
            return out;
        }
        let ghost first = exclude.map_values(|p: Seq<PredicateModel>| exclude_rule(p));
        let ghost second = accept.map_values(|p: Seq<PredicateModel>| accept_rule(p));
        let mut excl = self.exclude_patterns;
        let ghost mut i: int = 0;
        assert(rule_models(out@) =~= first.take(0));
        while excl.len() > 0
            invariant
                0 <= i,
                i + excl@.len() == exclude.len(),
                forall|k: int| 0 <= k < excl@.len() ==> (#[trigger] excl@[k])@ == exclude[i + k],
                first == exclude.map_values(|p: Seq<PredicateModel>| exclude_rule(p)),
                rule_models(out@) == first.take(i),
            decreases excl@.len(),
        {
            let ghost before = rule_models(out@);
            let pattern = excl.remove(0);
            assert(pattern@ == exclude[i]);
            let rule = install_redirect_pattern(
                pattern,
                FIRST_GROUP,
                EXCLUDE_PRIORITY,
                DROP_GROUP,
            );
            out.push(rule);
            assert(rule_models(out@) =~= before.push(rule@));
            proof {
                i = i + 1;
            }
            assert(rule_models(out@) =~= first.take(i));
        }
        assert(first.take(i) =~= first);
        let mut acc = self.patterns;
        let ghost mut j: int = 0;
        assert(rule_models(out@) =~= first + second.take(0));
        while acc.len() > 0
            invariant
                0 <= j,
                j + acc@.len() == accept.len(),
                forall|k: int| 0 <= k < acc@.len() ==> (#[trigger] acc@[k])@ == accept[j + k],
                second == accept.map_values(|p: Seq<PredicateModel>| accept_rule(p)),
                rule_models(out@) == first + second.take(j),
            decreases acc@.len(),
        {
            let ghost before = rule_models(out@);
            let pattern = acc.remove(0);
            assert(pattern@ == accept[j]);
            let rule = install_pattern(pattern, FIRST_GROUP, HIGH_PRIORITY);
            out.push(rule);
            assert(rule_models(out@) =~= before.push(rule@));
            proof {
                j = j + 1;
            }
            assert(rule_models(out@) =~= first + second.take(j));
        }
        assert(second.take(j) =~= second);
        let ghost before = rule_models(out@);
        // What no rule matches is dropped: to send it to another table is faster than to have
        // a rule drop it.
        let rule = add_redirect(FIRST_GROUP, DROP_GROUP, LOW_PRIORITY);
        out.push(rule);
        assert(rule_models(out@) =~= before.push(rule@));
        assert(rule_models(out@) =~= rules_of(accept, exclude));
        out
    }
}

/// The rule by which packets that match a pattern are delivered.
pub fn install_pattern(pattern: FlatPattern, group: u32, priority: u32) -> (r: FlowRule)
    ensures
        r@ == (RuleModel { group, priority, pattern: pattern@, action: FlowAction::Rss }),
{
    FlowRule { group, priority, pattern, action: FlowAction::Rss }
}

/// The rule by which packets that match a pattern go on to another table.
pub fn install_redirect_pattern(
    pattern: FlatPattern,
    group: u32,
    priority: u32,
    to_group: u32,
) -> (r: FlowRule)
    ensures
        r@ == (RuleModel {
            group,
            priority,
            pattern: pattern@,
            action: FlowAction::Jump(to_group),
        }),
{
    FlowRule { group, priority, pattern, action: FlowAction::Jump(to_group) }
}

/// The rule by which all packets go on to another table.
pub fn add_redirect(from_group: u32, to_group: u32, priority: u32) -> (r: FlowRule)
    ensures
        r@ == (RuleModel {
            group: from_group,
            priority,
            pattern: Seq::empty(),
            action: FlowAction::Jump(to_group),
        }),
{
    let pattern = FlatPattern { predicates: Vec::new(), as_str: None };
    assert(pattern@ =~= Seq::empty());
    install_redirect_pattern(pattern, from_group, priority, to_group)
}

fn are_all_empty(patterns: &Vec<FlatPattern>) -> (b: bool)
    ensures
        b == all_empty(models(patterns@)),
{
    let mut i: usize = 0;
    while i < patterns.len()
        invariant
            i <= patterns@.len(),
            forall|j: int| 0 <= j < i ==> (#[trigger] models(patterns@)[j]).len() == 0,
        decreases patterns@.len() - i,
    {
        assert(models(patterns@)[i as int] == patterns@[i as int]@);
        if !patterns[i].is_empty() {
            return false;
        }
        i = i + 1;
    }
    true
}

/// Why the device does not have a rule, with the rule's pattern.
#[derive(Debug)]
pub enum HardwareFilterError {
    /// The rule was refused when it was validated, and why.
    Validation { pattern: FlatPattern, reason: String },
    /// The rule was validated, but could not be created, and why.
    Creation { pattern: FlatPattern, reason: String },
    /// The pattern cannot be expressed as a rule.
    InvalidRule(FlatPattern),
}

/// Installation of rules, one after the other.
#[derive(Debug)]
pub struct Installation {
    pub rules: Vec<FlowRule>,
    pub done: usize,
}

/// What the device made of a rule.
#[derive(Debug)]
pub enum RuleReply {
    Created,
    /// The pattern cannot be expressed as a rule.
    NotExpressible,
    /// Validation failed, and why.
    NotValidated(String),
    /// Creation failed, and why.
    NotCreated(String),
}

impl Installation {
    pub fn new(rules: Vec<FlowRule>) -> (r: Installation)
        ensures
            r.rules@ == rules@ && r.done == 0,
    {
        Installation { rules, done: 0 }
    }

    /// The rule that the device is to create next, or `None` when all are created.
    pub fn next_rule(&self) -> (r: Option<&FlowRule>)
        ensures
            match r {
                Some(rule) => self.done < self.rules@.len() && *rule
                    == self.rules@[self.done as int],
                None => self.done >= self.rules@.len(),
            },
    {
        if self.done < self.rules.len() {
            Some(&self.rules[self.done])
        } else {
            None
        }
    }

    /// Takes what the device made of the next rule. A failure ends the installation.
    pub fn report(&mut self, reply: RuleReply) -> (r: Result<(), HardwareFilterError>)
        requires
            old(self).done < old(self).rules@.len(),
        ensures
            final(self).rules@ == old(self).rules@,
            final(self).done == (if reply is Created {
                old(self).done + 1
            } else {
                old(self).done as int
            }),
            ({
                let failed = old(self).rules@[old(self).done as int].pattern@;
                match reply {
                    RuleReply::Created => r is Ok,
                    RuleReply::NotExpressible => r matches Err(
                        HardwareFilterError::InvalidRule(pattern),
                    ) && pattern@ == failed,
                    RuleReply::NotValidated(text) => r matches Err(
                        HardwareFilterError::Validation { pattern, reason },
                    ) && pattern@ == failed && reason@ == text@,
                    RuleReply::NotCreated(text) => r matches Err(
                        HardwareFilterError::Creation { pattern, reason },
                    ) && pattern@ == failed && reason@ == text@,
                }
            }),
    {
        let n: usize = self.rules.len();
        match reply {
            RuleReply::Created => {
                assert(self.done < n);
                self.done = self.done + 1;
                Ok(())
            },
            RuleReply::NotExpressible => {
                let pattern = self.rules[self.done].pattern.copy();
                Err(HardwareFilterError::InvalidRule(pattern))
            },
            RuleReply::NotValidated(reason) => {
                let pattern = self.rules[self.done].pattern.copy();
                Err(HardwareFilterError::Validation { pattern, reason })
            },
            RuleReply::NotCreated(reason) => {
                let pattern = self.rules[self.done].pattern.copy();
                Err(HardwareFilterError::Creation { pattern, reason })
            },
        }
    }
}

proof fn lemma_retained_is_broader(
    pattern: Seq<PredicateModel>,
    validated: Seq<bool>,
    pkt: PacketModel,
)
    requires
        pattern_matches(pattern, pkt),
    ensures
        pattern_matches(retained(pattern, validated), pkt),
        forall|i: int|
            0 <= i < retained(pattern, validated).len() ==> hardware_kind(
                #[trigger] retained(pattern, validated)[i],
            ),
    decreases pattern.len(),
{
    if pattern.len() > 0 {
        assert(pattern_matches(pattern.drop_last(), pkt)) by {
            assert forall|i: int| 0 <= i < pattern.drop_last().len() implies meets(
                #[trigger] pattern.drop_last()[i],
                pkt,
            ) by {
                assert(pattern.drop_last()[i] == pattern[i]);
            }
        }
        assert(meets(pattern[pattern.len() - 1], pkt));
        lemma_retained_is_broader(pattern.drop_last(), validated, pkt);
    }
}

/// Spelling out the network layer loses no packet: a packet that matches a pattern of
/// hardware predicates matches one of its qualified forms.
proof fn lemma_qualified_loses_nothing(pattern: Seq<PredicateModel>, pkt: PacketModel)
    requires
        pkt.wf(),
        pattern_matches(pattern, pkt),
        forall|i: int| 0 <= i < pattern.len() ==> hardware_kind(#[trigger] pattern[i]),
    ensures
        any_matches(fully_qualified(pattern), pkt),
{
    let fq = fully_qualified(pattern);
    if pattern.len() == 0 || names_protocol(pattern, SessionProto::Ipv4) || names_protocol(
        pattern,
        SessionProto::Ipv6,
    ) {
        assert(fq[0] == pattern);
    } else {
        let p = pattern[0];
        assert(hardware_kind(p) && meets(p, pkt));
        assert(protocol_of(p) != Some(SessionProto::Ipv4));
        assert(protocol_of(p) != Some(SessionProto::Ipv6));
        assert(pkt.protos.contains(protocol_of(p)->0));
        if pkt.protos.contains(SessionProto::Ipv4) {
            assert(pattern_matches(fq[0], pkt));
        } else {
            assert(pkt.protos.contains(SessionProto::Ipv6));
            assert(pattern_matches(fq[1], pkt));
        }
    }
}

proof fn lemma_with_patterns(
    list: Seq<Seq<PredicateModel>>,
    more: Seq<Seq<PredicateModel>>,
    p: Seq<PredicateModel>,
)
    ensures
        with_patterns(list, more).contains(p) <==> list.contains(p) || more.contains(p),
    decreases more.len(),
{
    if more.len() > 0 {
        let before = with_patterns(list, more.drop_last());
        lemma_with_patterns(list, more.drop_last(), p);
        assert(more.contains(p) <==> more.drop_last().contains(p) || more.last() == p) by {
            if more.contains(p) {
                let k = choose|k: int| 0 <= k < more.len() && more[k] == p;
                if k < more.len() - 1 {
                    assert(more.drop_last()[k] == p);
                }
            }
            if more.drop_last().contains(p) {
                let k = choose|k: int| 0 <= k < more.len() - 1 && more.drop_last()[k] == p;
                assert(more[k] == p);
            }
            if more.last() == p {
                assert(more[more.len() - 1] == p);
            }
        }
        lemma_with_pattern_members(before, more.last(), p);
    }
}

proof fn lemma_with_patterns_in_order(
    list: Seq<Seq<PredicateModel>>,
    more: Seq<Seq<PredicateModel>>,
)
    requires
        in_order(list),
    ensures
        in_order(with_patterns(list, more)),
    decreases more.len(),
{
    if more.len() > 0 {
        lemma_with_patterns_in_order(list, more.drop_last());
        law_patterns_stay_in_order(with_patterns(list, more.drop_last()), more.last());
    }
}

proof fn lemma_qualified_in_order(
    patterns: Seq<Seq<PredicateModel>>,
    validated: Seq<Seq<bool>>,
)
    ensures
        in_order(qualified_patterns(patterns, validated)),
    decreases patterns.len(),
{
    if patterns.len() > 0 {
        lemma_qualified_in_order(patterns.drop_last(), validated);
        lemma_with_patterns_in_order(
            qualified_patterns(patterns.drop_last(), validated),
            fully_qualified(retained(patterns.last(), validated[patterns.len() - 1])),
        );
    }
}

proof fn lemma_exclusions_in_order(
    list: Seq<Seq<PredicateModel>>,
    pattern: Seq<PredicateModel>,
    validated: Seq<bool>,
    all: Seq<Seq<PredicateModel>>,
    n: int,
)
    requires
        in_order(list),
    ensures
        in_order(with_exclusions(list, pattern, validated, all, n)),
    decreases n,
{
    if n > 0 {
        lemma_exclusions_in_order(list, pattern, validated, all, n - 1);
        if let Some(p) = excluded_value(pattern[n - 1]) {
            lemma_with_patterns_in_order(
                with_exclusions(list, pattern, validated, all, n - 1),
                fully_qualified(exclusion(p)),
            );
        }
    }
}

proof fn lemma_excluded_in_order(
    all: Seq<Seq<PredicateModel>>,
    validated: Seq<Seq<bool>>,
    n: int,
)
    ensures
        in_order(exclude_patterns(all, validated, n)),
    decreases n,
{
    if n > 0 {
        lemma_excluded_in_order(all, validated, n - 1);
        lemma_exclusions_in_order(
            exclude_patterns(all, validated, n - 1),
            all[n - 1],
            validated[n - 1],
            all,
            all[n - 1].len() as int,
        );
    }
}

/// The patterns of a hardware filter are sorted, whatever the order in which the filter lists
/// its own.
pub proof fn law_hardware_patterns_are_in_order(
    filter: Seq<Seq<PredicateModel>>,
    validated: Seq<Seq<bool>>,
    excl_validated: Seq<Seq<bool>>,
)
    ensures
        in_order(accept_patterns(filter, validated)),
        in_order(exclude_patterns(filter, excl_validated, filter.len() as int)),
{
    let all = qualified_patterns(filter, validated);
    let accept = accept_patterns(filter, validated);
    lemma_qualified_in_order(filter, validated);
    assert forall|a: int, b: int| 0 <= a < b < accept.len() implies !key_less(
        pattern_key(#[trigger] accept[b]),
        pattern_key(#[trigger] accept[a]),
    ) by {
        let (i, j) = lemma_pruned_positions(all, all.len() as int, a, b);
        assert(all[i] == accept[a] && all[j] == accept[b]);
    }
    lemma_excluded_in_order(filter, excl_validated, filter.len() as int);
}

proof fn lemma_qualified_covers(
    patterns: Seq<Seq<PredicateModel>>,
    validated: Seq<Seq<bool>>,
    pkt: PacketModel,
)
    requires
        pkt.wf(),
        any_matches(patterns, pkt),
    ensures
        any_matches(qualified_patterns(patterns, validated), pkt),
    decreases patterns.len(),
{
    let k = choose|k: int| 0 <= k < patterns.len() && pattern_matches(#[trigger] patterns[k], pkt);
    let n = patterns.len() - 1;
    let before = qualified_patterns(patterns.drop_last(), validated);
    let hw = retained(patterns.last(), validated[n]);
    let more = fully_qualified(hw);
    let all = qualified_patterns(patterns, validated);
    let found = if k < n {
        assert(patterns.drop_last()[k] == patterns[k]);
        lemma_qualified_covers(patterns.drop_last(), validated, pkt);
        let i = choose|i: int| 0 <= i < before.len() && pattern_matches(#[trigger] before[i], pkt);
        assert(before.contains(before[i]));
        before[i]
    } else {
        lemma_retained_is_broader(patterns.last(), validated[n], pkt);
        lemma_qualified_loses_nothing(hw, pkt);
        let i = choose|i: int| 0 <= i < more.len() && pattern_matches(#[trigger] more[i], pkt);
        assert(more.contains(more[i]));
        more[i]
    };
    lemma_with_patterns(before, more, found);
    let j = choose|j: int| 0 <= j < all.len() && all[j] == found;
    assert(pattern_matches(all[j], pkt));
}

/// A packet that matches a pattern of a list matches one that is not redundant.
proof fn lemma_pruning_loses_nothing(list: Seq<Seq<PredicateModel>>, i: int, pkt: PacketModel)
    requires
        0 <= i < list.len(),
        pattern_matches(list[i], pkt),
    ensures
        any_matches(pruned(list, list.len() as int), pkt),
    decreases list[i].to_set().len(), i,
{
    let all = pruned(list, list.len() as int);
    if redundant(list, i) {
        let j = choose|j: int| #[trigger] replaces(list, j, i);
        lemma_covering_set(list[j], list[i]);
        assert forall|k: int| 0 <= k < list[j].len() implies meets(#[trigger] list[j][k], pkt) by {
            assert(list[i].contains(list[j][k]));
            let m = choose|m: int| 0 <= m < list[i].len() && list[i][m] == list[j][k];
            assert(meets(list[i][m], pkt));
        }
        if covers(list[i], list[j]) {
            lemma_covering_set(list[i], list[j]);
        }
        lemma_pruning_loses_nothing(list, j, pkt);
    } else {
        lemma_pruned_keeps(list, list.len() as int, i);
        let k = choose|k: int| 0 <= k < all.len() && all[k] == list[i];
        assert(pattern_matches(all[k], pkt));
    }
}

/// Every pattern on an excluded value is one that no packet of the filter matches.
spec fn harmless(
    list: Seq<Seq<PredicateModel>>,
    all: Seq<Seq<PredicateModel>>,
    pkt: PacketModel,
) -> bool {
    any_matches(all, pkt) ==> !any_matches(list, pkt)
}

proof fn lemma_exclusion_is_harmless(
    p: PredicateModel,
    all: Seq<Seq<PredicateModel>>,
    pkt: PacketModel,
)
    requires
        pkt.wf(),
        excludable(p, all),
    ensures
        harmless(fully_qualified(exclusion(p)), all, pkt),
{
    let fq = fully_qualified(exclusion(p));
    if any_matches(all, pkt) && any_matches(fq, pkt) {
        let i = choose|i: int| 0 <= i < all.len() && pattern_matches(#[trigger] all[i], pkt);
        let j = choose|j: int| 0 <= j < fq.len() && pattern_matches(#[trigger] fq[j], pkt);
        let q = fq[j];
        assert(q[q.len() - 1] == p);
        assert(meets(q[q.len() - 1], pkt));
        assert(pattern_matches(seq![p], pkt));
        law_exclusive_patterns_share_no_packet(all[i], seq![p], pkt);
    }
}

proof fn lemma_with_patterns_harmless(
    list: Seq<Seq<PredicateModel>>,
    more: Seq<Seq<PredicateModel>>,
    all: Seq<Seq<PredicateModel>>,
    pkt: PacketModel,
)
    requires
        harmless(list, all, pkt),
        harmless(more, all, pkt),
    ensures
        harmless(with_patterns(list, more), all, pkt),
{
    let both = with_patterns(list, more);
    if any_matches(all, pkt) && any_matches(both, pkt) {
        let i = choose|i: int| 0 <= i < both.len() && pattern_matches(#[trigger] both[i], pkt);
        assert(both.contains(both[i]));
        lemma_with_patterns(list, more, both[i]);
        if list.contains(both[i]) {
            let k = choose|k: int| 0 <= k < list.len() && list[k] == both[i];
            assert(pattern_matches(list[k], pkt));
        } else {
            let k = choose|k: int| 0 <= k < more.len() && more[k] == both[i];
            assert(pattern_matches(more[k], pkt));
        }
    }
}

proof fn lemma_with_exclusions_harmless(
    list: Seq<Seq<PredicateModel>>,
    pattern: Seq<PredicateModel>,
    validated: Seq<bool>,
    all: Seq<Seq<PredicateModel>>,
    n: int,
    pkt: PacketModel,
)
    requires
        pkt.wf(),
        harmless(list, all, pkt),
    ensures
        harmless(with_exclusions(list, pattern, validated, all, n), all, pkt),
    decreases n,
{
    if n > 0 {
        lemma_with_exclusions_harmless(list, pattern, validated, all, n - 1, pkt);
        let before = with_exclusions(list, pattern, validated, all, n - 1);
        if let Some(p) = excluded_value(pattern[n - 1]) {
            if validated[n - 1] && excludable(p, all) {
                lemma_exclusion_is_harmless(p, all, pkt);
                lemma_with_patterns_harmless(before, fully_qualified(exclusion(p)), all, pkt);
            }
        }
    }
}

proof fn lemma_exclude_patterns_harmless(
    all: Seq<Seq<PredicateModel>>,
    validated: Seq<Seq<bool>>,
    n: int,
    pkt: PacketModel,
)
    requires
        pkt.wf(),
    ensures
        harmless(exclude_patterns(all, validated, n), all, pkt),
    decreases n,
{
    if n > 0 {
        lemma_exclude_patterns_harmless(all, validated, n - 1, pkt);
        lemma_with_exclusions_harmless(
            exclude_patterns(all, validated, n - 1),
            all[n - 1],
            validated[n - 1],
            all,
            all[n - 1].len() as int,
            pkt,
        );
    }
}

/// A packet that the filter accepts is never lost in hardware: it matches one of the patterns
/// that the device accepts packets by, and none by which it drops them, whatever the device
/// validated.
pub proof fn law_hardware_loses_no_wanted_packet(
    filter: Seq<Seq<PredicateModel>>,
    validated: Seq<Seq<bool>>,
    excl_validated: Seq<Seq<bool>>,
    pkt: PacketModel,
)
    requires
        pkt.wf(),
        any_matches(filter, pkt),
    ensures
        any_matches(accept_patterns(filter, validated), pkt),
        !any_matches(exclude_patterns(filter, excl_validated, filter.len() as int), pkt),
{
    lemma_qualified_covers(filter, validated, pkt);
    let all = qualified_patterns(filter, validated);
    let i = choose|i: int| 0 <= i < all.len() && pattern_matches(#[trigger] all[i], pkt);
    lemma_pruning_loses_nothing(all, i, pkt);
    lemma_exclude_patterns_harmless(filter, excl_validated, filter.len() as int, pkt);
}

/// Whichever rule the device applies to a packet that the filter accepts, it delivers the
/// packet.
pub proof fn law_rules_deliver_wanted_packets(
    filter: Seq<Seq<PredicateModel>>,
    validated: Seq<Seq<bool>>,
    excl_validated: Seq<Seq<bool>>,
    pkt: PacketModel,
    r: RuleModel,
)
    requires
        pkt.wf(),
        any_matches(filter, pkt),
        applies(
            rules_of(
                accept_patterns(filter, validated),
                exclude_patterns(filter, excl_validated, filter.len() as int),
            ),
            r,
            pkt,
        ),
    ensures
        r.action == FlowAction::Rss,
{
    let accept = accept_patterns(filter, validated);
    let exclude = exclude_patterns(filter, excl_validated, filter.len() as int);
    let rules = rules_of(accept, exclude);
    law_hardware_loses_no_wanted_packet(filter, validated, excl_validated, pkt);
    let first = exclude.map_values(|p: Seq<PredicateModel>| exclude_rule(p));
    let second = accept.map_values(|p: Seq<PredicateModel>| accept_rule(p));
    let i = choose|i: int| 0 <= i < accept.len() && pattern_matches(#[trigger] accept[i], pkt);
    assert(rules[exclude.len() + i] == accept_rule(accept[i]));
    let k = choose|k: int| 0 <= k < rules.len() && rules[k] == r;
    if k < exclude.len() {
        assert(rules[k] == exclude_rule(exclude[k]));
        assert(pattern_matches(exclude[k], pkt));
    } else if k < exclude.len() + accept.len() {
        assert(rules[k] == accept_rule(accept[k - exclude.len()]));
    } else {
        assert(rules[k] == default_rule());
    }
}

/// A packet that none of the accepted patterns matches is not delivered, if there are rules
/// at all.
pub proof fn law_rules_drop_unmatched_packets(
    accept: Seq<Seq<PredicateModel>>,
    exclude: Seq<Seq<PredicateModel>>,
    pkt: PacketModel,
    r: RuleModel,
)
    requires
        !any_matches(accept, pkt),
        applies(rules_of(accept, exclude), r, pkt),
    ensures
        r.action == FlowAction::Jump(DROP_GROUP),
{
    let rules = rules_of(accept, exclude);
    let k = choose|k: int| 0 <= k < rules.len() && rules[k] == r;
    if k < exclude.len() {
        assert(rules[k] == exclude_rule(exclude[k]));
    } else if k < exclude.len() + accept.len() {
        assert(rules[k] == accept_rule(accept[k - exclude.len()]));
        assert(pattern_matches(accept[k - exclude.len()], pkt));
    } else {
        assert(rules[k] == default_rule());
    }
}

/// The device can match the predicate: it is on a header of the network or transport layer,
/// and compares for equality, or with a block of addresses.
pub open spec fn on_header(p: PredicateModel) -> bool {
    match p {
        PredicateModel::Unary { protocol } => protocol == SessionProto::Ipv4 || protocol
            == SessionProto::Ipv6 || protocol == SessionProto::Tcp || protocol
            == SessionProto::Udp,
        PredicateModel::Binary { protocol, op, .. } => {
            ||| op == BinOp::Eq && (protocol == SessionProto::Ipv4 || protocol
                == SessionProto::Ipv6 || protocol == SessionProto::Tcp || protocol
                == SessionProto::Udp)
            ||| op == BinOp::In && (protocol == SessionProto::Ipv4 || protocol
                == SessionProto::Ipv6)
        },
        PredicateModel::Custom { .. } => false,
    }
}

proof fn lemma_all_retained(pattern: Seq<PredicateModel>, validated: Seq<bool>)
    requires
        validated.len() == pattern.len(),
        forall|j: int| 0 <= j < pattern.len() ==> on_header(#[trigger] pattern[j]) && validated[j],
    ensures
        retained(pattern, validated) == pattern,
{
    lemma_retained_prefix(pattern, validated, pattern.len() as int);
    assert(pattern.take(pattern.len() as int) =~= pattern);
}

proof fn lemma_retained_prefix(pattern: Seq<PredicateModel>, validated: Seq<bool>, n: int)
    requires
        0 <= n <= pattern.len(),
        validated.len() == pattern.len(),
        forall|j: int| 0 <= j < pattern.len() ==> on_header(#[trigger] pattern[j]) && validated[j],
    ensures
        retained(pattern.take(n), validated) == pattern.take(n),
    decreases n,
{
    let part = pattern.take(n);
    if n > 0 {
        lemma_retained_prefix(pattern, validated, n - 1);
        assert(part.drop_last() =~= pattern.take(n - 1));
        assert(part.last() == pattern[n - 1]);
        assert(on_header(pattern[n - 1]));
        assert(part.drop_last().push(part.last()) =~= part);
    } else {
        assert(retained(part, validated) =~= part);
    }
}

proof fn lemma_qualified_is_narrower(
    pattern: Seq<PredicateModel>,
    q: Seq<PredicateModel>,
    pkt: PacketModel,
)
    requires
        fully_qualified(pattern).contains(q),
        pattern_matches(q, pkt),
    ensures
        pattern_matches(pattern, pkt),
{
    let fq = fully_qualified(pattern);
    let k = choose|k: int| 0 <= k < fq.len() && fq[k] == q;
    if q != pattern {
        assert forall|i: int| 0 <= i < pattern.len() implies meets(#[trigger] pattern[i], pkt) by {
            assert(q[i + 1] == pattern[i]);
        }
    }
}

proof fn lemma_qualified_exact(
    patterns: Seq<Seq<PredicateModel>>,
    validated: Seq<Seq<bool>>,
    q: Seq<PredicateModel>,
    pkt: PacketModel,
)
    requires
        validated.len() >= patterns.len(),
        forall|i: int, j: int|
            0 <= i < patterns.len() && 0 <= j < patterns[i].len() ==> on_header(
                #[trigger] patterns[i][j],
            ) && validated[i][j],
        forall|i: int|
            0 <= i < patterns.len() ==> (#[trigger] validated[i]).len() == patterns[i].len(),
        qualified_patterns(patterns, validated).contains(q),
        pattern_matches(q, pkt),
    ensures
        any_matches(patterns, pkt),
    decreases patterns.len(),
{
    if patterns.len() > 0 {
        let n = patterns.len() - 1;
        let init = patterns.drop_last();
        let before = qualified_patterns(init, validated);
        let last = patterns.last();
        assert(last == patterns[n]);
        let more = fully_qualified(retained(last, validated[n]));
        lemma_with_patterns(before, more, q);
        if before.contains(q) {
            assert forall|i: int, j: int| 0 <= i < init.len() && 0 <= j < init[i].len() implies
                on_header(#[trigger] init[i][j]) && validated[i][j] by {
                assert(init[i][j] == patterns[i][j]);
            }
            lemma_qualified_exact(init, validated, q, pkt);
            let k = choose|k: int| 0 <= k < init.len() && pattern_matches(#[trigger] init[k], pkt);
            assert(pattern_matches(patterns[k], pkt));
        } else {
            assert forall|j: int| 0 <= j < last.len() implies on_header(#[trigger] last[j])
                && validated[n][j] by {
                assert(patterns[n][j] == last[j]);
            }
            lemma_all_retained(last, validated[n]);
            lemma_qualified_is_narrower(last, q, pkt);
            assert(pattern_matches(patterns[n], pkt));
        }
    }
}

/// A filter that the device supports in full is applied in full: a packet that the device
/// accepts matches the filter.
pub proof fn law_supported_filters_are_exact(
    filter: Seq<Seq<PredicateModel>>,
    validated: Seq<Seq<bool>>,
    pkt: PacketModel,
)
    requires
        pkt.wf(),
        validated.len() >= filter.len(),
        forall|i: int, j: int|
            0 <= i < filter.len() && 0 <= j < filter[i].len() ==> on_header(
                #[trigger] filter[i][j],
            ) && validated[i][j],
        forall|i: int|
            0 <= i < filter.len() ==> (#[trigger] validated[i]).len() == filter[i].len(),
    ensures
        any_matches(accept_patterns(filter, validated), pkt) <==> any_matches(filter, pkt),
{
    let all = qualified_patterns(filter, validated);
    let accept = accept_patterns(filter, validated);
    if any_matches(accept, pkt) {
        let k = choose|k: int| 0 <= k < accept.len() && pattern_matches(#[trigger] accept[k], pkt);
        lemma_pruned_members(all, all.len() as int, k);
        let i = choose|i: int|
            0 <= i < all.len() && !#[trigger] redundant(all, i) && all[i] == pruned(
                all,
                all.len() as int,
            )[k];
        assert(all.contains(all[i]));
        lemma_qualified_exact(filter, validated, all[i], pkt);
    }
    if any_matches(filter, pkt) {
        lemma_qualified_covers(filter, validated, pkt);
        let i = choose|i: int| 0 <= i < all.len() && pattern_matches(#[trigger] all[i], pkt);
        lemma_pruning_loses_nothing(all, i, pkt);
    }
}

proof fn lemma_exclusions_added(
    list: Seq<Seq<PredicateModel>>,
    pattern: Seq<PredicateModel>,
    validated: Seq<bool>,
    all: Seq<Seq<PredicateModel>>,
    n: int,
    pkt: PacketModel,
)
    requires
        0 <= n <= pattern.len(),
        any_matches(list, pkt),
    ensures
        any_matches(with_exclusions(list, pattern, validated, all, n), pkt),
    decreases n,
{
    if n > 0 {
        lemma_exclusions_added(list, pattern, validated, all, n - 1, pkt);
        let before = with_exclusions(list, pattern, validated, all, n - 1);
        if let Some(p) = excluded_value(pattern[n - 1]) {
            lemma_more_match(before, fully_qualified(exclusion(p)), pkt);
        }
    }
}

proof fn lemma_more_match(
    list: Seq<Seq<PredicateModel>>,
    more: Seq<Seq<PredicateModel>>,
    pkt: PacketModel,
)
    requires
        any_matches(list, pkt) || any_matches(more, pkt),
    ensures
        any_matches(with_patterns(list, more), pkt),
{
    let after = with_patterns(list, more);
    let found = if any_matches(list, pkt) {
        let k = choose|k: int| 0 <= k < list.len() && pattern_matches(#[trigger] list[k], pkt);
        assert(list.contains(list[k]));
        list[k]
    } else {
        let k = choose|k: int| 0 <= k < more.len() && pattern_matches(#[trigger] more[k], pkt);
        assert(more.contains(more[k]));
        more[k]
    };
    lemma_with_patterns(list, more, found);
    let j = choose|j: int| 0 <= j < after.len() && after[j] == found;
    assert(pattern_matches(after[j], pkt));
}

/// A value that a pattern excludes by `!=`, where the device can match it and no pattern of
/// the filter would accept it, is dropped by the device.
pub proof fn law_excluded_values_are_dropped(
    filter: Seq<Seq<PredicateModel>>,
    excl_validated: Seq<Seq<bool>>,
    i: int,
    j: int,
    protocol: SessionProto,
    field: Seq<char>,
    value: ValueModel,
    pkt: PacketModel,
    n: int,
)
    requires
        pkt.wf(),
        0 <= i < n <= filter.len(),
        0 <= j < filter[i].len(),
        filter[i][j] == (PredicateModel::Binary { protocol, field, op: BinOp::Ne, value }),
        protocol == SessionProto::Ipv4 || protocol == SessionProto::Ipv6 || protocol
            == SessionProto::Tcp || protocol == SessionProto::Udp,
        excl_validated[i][j],
        forall|k: int|
            0 <= k < filter.len() ==> patterns_exclusive(
                #[trigger] filter[k],
                seq![PredicateModel::Binary { protocol, field, op: BinOp::Eq, value }],
            ),
        meets(PredicateModel::Binary { protocol, field, op: BinOp::Eq, value }, pkt),
    ensures
        any_matches(exclude_patterns(filter, excl_validated, n), pkt),
    decreases n,
{
    let before = exclude_patterns(filter, excl_validated, n - 1);
    let pattern = filter[n - 1];
    if i < n - 1 {
        law_excluded_values_are_dropped(
            filter,
            excl_validated,
            i,
            j,
            protocol,
            field,
            value,
            pkt,
            n - 1,
        );
        lemma_exclusions_added(
            before,
            pattern,
            excl_validated[n - 1],
            filter,
            pattern.len() as int,
            pkt,
        );
    } else {
        let p = PredicateModel::Binary { protocol, field, op: BinOp::Eq, value };
        lemma_exclusion_matches(p, protocol, pkt);
        lemma_exclusion_made(
            before,
            pattern,
            excl_validated[n - 1],
            filter,
            j,
            pattern.len() as int,
            p,
            pkt,
        );
    }
}

proof fn lemma_exclusion_matches(p: PredicateModel, protocol: SessionProto, pkt: PacketModel)
    requires
        pkt.wf(),
        p is Binary,
        hardware_kind(p),
        protocol_of(p) == Some(protocol),
        meets(p, pkt),
    ensures
        any_matches(fully_qualified(exclusion(p)), pkt),
{
    let e = exclusion(p);
    assert(e[0] == PredicateModel::Unary { protocol } && e[1] == p);
    assert(pattern_matches(e, pkt));
    lemma_qualified_loses_nothing(e, pkt);
}

proof fn lemma_exclusion_made(
    list: Seq<Seq<PredicateModel>>,
    pattern: Seq<PredicateModel>,
    validated: Seq<bool>,
    all: Seq<Seq<PredicateModel>>,
    j: int,
    n: int,
    p: PredicateModel,
    pkt: PacketModel,
)
    requires
        0 <= j < n <= pattern.len(),
        excluded_value(pattern[j]) == Some(p),
        validated[j],
        excludable(p, all),
        any_matches(fully_qualified(exclusion(p)), pkt),
    ensures
        any_matches(with_exclusions(list, pattern, validated, all, n), pkt),
    decreases n,
{
    let before = with_exclusions(list, pattern, validated, all, n - 1);
    if j < n - 1 {
        lemma_exclusion_made(list, pattern, validated, all, j, n - 1, p, pkt);
        if let Some(q) = excluded_value(pattern[n - 1]) {
            lemma_more_match(before, fully_qualified(exclusion(q)), pkt);
        }
    } else {
        lemma_more_match(before, fully_qualified(exclusion(p)), pkt);
    }
}

} // verus!
