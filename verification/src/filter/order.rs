//! An order of patterns, by which lists of them are sorted: by what their predicates are,
//! protocols, fields and operators, one predicate after the other.

use crate::filter::pattern::{BinOp, FlatPattern, Predicate, PredicateModel, Value, ValueModel};
use vstd::prelude::*;
use vstd::string::*;

verus! {

/// `a` comes before `b`, by the first number in which they differ.
pub open spec fn key_less(a: Seq<u128>, b: Seq<u128>) -> bool
    decreases a.len(),
{
    if b.len() == 0 {
        false
    } else if a.len() == 0 {
        true
    } else if a[0] != b[0] {
        a[0] < b[0]
    } else {
        key_less(a.skip(1), b.skip(1))
    }
}

/// No key comes before itself.
pub proof fn law_key_order_is_irreflexive(a: Seq<u128>)
    ensures
        !key_less(a, a),
    decreases a.len(),
{
    if a.len() > 0 {
        law_key_order_is_irreflexive(a.skip(1));
    }
}

/// Of two different keys, one comes before the other.
pub proof fn law_key_order_is_total(a: Seq<u128>, b: Seq<u128>)
    ensures
        a == b || key_less(a, b) || key_less(b, a),
    decreases a.len(),
{
    if a.len() > 0 && b.len() > 0 {
        if a[0] == b[0] {
            law_key_order_is_total(a.skip(1), b.skip(1));
            if a.skip(1) == b.skip(1) {
                assert(a =~= seq![a[0]] + a.skip(1));
                assert(b =~= seq![b[0]] + b.skip(1));
            }
        }
    } else if a.len() == 0 && b.len() == 0 {
        assert(a =~= b);
    }
}

/// A key before another one comes before all that come after that one.
pub proof fn law_key_order_is_transitive(a: Seq<u128>, b: Seq<u128>, c: Seq<u128>)
    requires
        key_less(a, b),
        key_less(b, c),
    ensures
        key_less(a, c),
    decreases a.len(),
{
    if a.len() > 0 && b.len() > 0 && c.len() > 0 && a[0] == b[0] && b[0] == c[0] {
        law_key_order_is_transitive(a.skip(1), b.skip(1), c.skip(1));
    }
}

/// A text as a key: its characters, and an end that comes before all of them.
pub open spec fn text_key(s: Seq<char>) -> Seq<u128> {
    Seq::new(
        s.len() + 1,
        |i: int|
            if i < s.len() {
                ((s[i] as u32) + 1) as u128
            } else {
                0u128
            },
    )
}

/// The rank of an operator.
pub open spec fn op_rank(op: BinOp) -> u128 {
    match op {
        BinOp::Eq => 0,
        BinOp::Ne => 1,
        BinOp::Ge => 2,
        BinOp::Le => 3,
        BinOp::Gt => 4,
        BinOp::Lt => 5,
        BinOp::In => 6,
        BinOp::Re => 7,
    }
}

/// A value as a key: numbers come before texts.
pub open spec fn value_key(v: ValueModel) -> Seq<u128> {
    match v {
        ValueModel::Numbers { from, to } => seq![0u128, from as u128, to as u128],
        ValueModel::Text(s) => seq![1u128] + text_key(s),
    }
}

/// A predicate as a key.
pub open spec fn predicate_key(p: PredicateModel) -> Seq<u128> {
    match p {
        PredicateModel::Unary { protocol } => seq![0u128] + text_key(protocol.name_of()),
        PredicateModel::Binary { protocol, field, op, value } => seq![1u128] + text_key(
            protocol.name_of(),
        ) + text_key(field) + seq![op_rank(op)] + value_key(value),
        PredicateModel::Custom { name } => seq![2u128] + text_key(name),
    }
}

/// A pattern as a key: the keys of its predicates, one after the other.
pub open spec fn pattern_key(p: Seq<PredicateModel>) -> Seq<u128>
    decreases p.len(),
{
    if p.len() == 0 {
        Seq::empty()
    } else {
        pattern_key(p.drop_last()) + predicate_key(p.last())
    }
}

/// No pattern of the list comes before one in front of it.
pub open spec fn in_order(list: Seq<Seq<PredicateModel>>) -> bool {
    forall|i: int, j: int|
        0 <= i < j < list.len() ==> !key_less(
            pattern_key(#[trigger] list[j]),
            pattern_key(#[trigger] list[i]),
        )
}

/// Where a pattern belongs: the first place whose pattern does not come before it.
pub open spec fn place(list: Seq<Seq<PredicateModel>>, p: Seq<PredicateModel>) -> int
    decreases list.len(),
{
    if list.len() == 0 || !key_less(pattern_key(list[0]), pattern_key(p)) {
        0
    } else {
        1 + place(list.skip(1), p)
    }
}

/// A list with one more pattern in its place, unless it is there already.
pub open spec fn with_pattern(
    list: Seq<Seq<PredicateModel>>,
    p: Seq<PredicateModel>,
) -> Seq<Seq<PredicateModel>> {
    if list.contains(p) {
        list
    } else {
        list.insert(place(list, p), p)
    }
}

proof fn lemma_place(list: Seq<Seq<PredicateModel>>, p: Seq<PredicateModel>)
    ensures
        0 <= place(list, p) <= list.len(),
        forall|i: int|
            0 <= i < place(list, p) ==> key_less(pattern_key(#[trigger] list[i]), pattern_key(p)),
        place(list, p) < list.len() ==> !key_less(
            pattern_key(list[place(list, p)]),
            pattern_key(p),
        ),
    decreases list.len(),
{
    if list.len() > 0 && key_less(pattern_key(list[0]), pattern_key(p)) {
        lemma_place(list.skip(1), p);
        assert forall|i: int| 0 <= i < place(list, p) implies key_less(
            pattern_key(#[trigger] list[i]),
            pattern_key(p),
        ) by {
            if i > 0 {
                assert(list.skip(1)[i - 1] == list[i]);
            }
        }
    }
}

/// The list has the patterns there were and the new one.
pub proof fn lemma_with_pattern_members(
    list: Seq<Seq<PredicateModel>>,
    p: Seq<PredicateModel>,
    q: Seq<PredicateModel>,
)
    ensures
        with_pattern(list, p).contains(q) <==> list.contains(q) || q == p,
{
    let after = with_pattern(list, p);
    if !list.contains(p) {
        lemma_place(list, p);
        let at = place(list, p);
        assert(after[at] == p);
        if list.contains(q) {
            let k = choose|k: int| 0 <= k < list.len() && list[k] == q;
            assert(after[if k < at {
                k
            } else {
                k + 1
            }] == q);
        }
        if after.contains(q) {
            let k = choose|k: int| 0 <= k < after.len() && after[k] == q;
            if k != at {
                assert(list[if k < at {
                    k
                } else {
                    k - 1
                }] == q);
            }
        }
    }
}

/// Adding a pattern keeps the order.
pub proof fn law_patterns_stay_in_order(list: Seq<Seq<PredicateModel>>, p: Seq<PredicateModel>)
    requires
        in_order(list),
    ensures
        in_order(with_pattern(list, p)),
{
    if !list.contains(p) {
        lemma_place(list, p);
        let at = place(list, p);
        let key = pattern_key(p);
        let after = with_pattern(list, p);
        assert forall|i: int, j: int| 0 <= i < j < after.len() implies !key_less(
            pattern_key(#[trigger] after[j]),
            pattern_key(#[trigger] after[i]),
        ) by {
            let a = if i < at {
                i
            } else {
                i - 1
            };
            let b = if j < at {
                j
            } else {
                j - 1
            };
            if i != at {
                assert(after[i] == list[a]);
            }
            if j != at {
                assert(after[j] == list[b]);
            }
            if j == at {
                let x = pattern_key(list[a]);
                assert(key_less(x, key));
                if key_less(key, x) {
                    law_key_order_is_transitive(x, key, x);
                    law_key_order_is_irreflexive(x);
                }
            } else if i == at {
                let first = pattern_key(list[at]);
                let x = pattern_key(list[b]);
                if key_less(x, key) && b > at {
                    law_key_order_is_total(key, first);
                    if key != first {
                        law_key_order_is_transitive(x, key, first);
                    }
                }
            }
        }
    }
}

fn push_text(out: &mut Vec<u128>, s: &str)
    ensures
        final(out)@ == old(out)@ + text_key(s@),
{
    let ghost before = out@;
    let n: usize = s.unicode_len();
    let mut i: usize = 0;
    assert(out@ =~= before + text_key(s@).take(0));
    while i < n
        invariant
            i <= n == s@.len(),
            out@ == before + text_key(s@).take(i as int),
        decreases n - i,
    {
        let c: char = s.get_char(i);
        out.push(c as u32 as u128 + 1);
        i = i + 1;
        assert(text_key(s@).take(i as int) =~= text_key(s@).take(i - 1).push(
            text_key(s@)[i - 1],
        ));
        assert(out@ =~= before + text_key(s@).take(i as int));
    }
    out.push(0);
    assert(out@ =~= before + text_key(s@));
}

fn push_value(out: &mut Vec<u128>, v: &Value)
    ensures
        final(out)@ == old(out)@ + value_key(v@),
{
    let ghost before = out@;
    match v {
        Value::Int(n) => {
            out.push(0);
            out.push(*n as u128);
            out.push(*n as u128);
        },
        Value::IntRange { from, to } => {
            out.push(0);
            out.push(*from as u128);
            out.push(*to as u128);
        },
        Value::Ipv4 { from, to } => {
            out.push(0);
            out.push(*from as u128);
            out.push(*to as u128);
        },
        Value::Ipv6 { from, to } => {
            out.push(0);
            out.push(*from);
            out.push(*to);
        },
        Value::Text(s) => {
            out.push(1);
            push_text(out, s.as_str());
        },
    }
    assert(out@ =~= before + value_key(v@));
}

fn push_predicate(out: &mut Vec<u128>, p: &Predicate)
    ensures
        final(out)@ == old(out)@ + predicate_key(p@),
{
    let ghost before = out@;
    match p {
        Predicate::Unary { protocol } => {
            out.push(0);
            push_text(out, protocol.name());
        },
        Predicate::Binary { protocol, field, op, value } => {
            out.push(1);
            push_text(out, protocol.name());
            push_text(out, field.as_str());
            let rank: u128 = match op {
                BinOp::Eq => 0,
                BinOp::Ne => 1,
                BinOp::Ge => 2,
                BinOp::Le => 3,
                BinOp::Gt => 4,
                BinOp::Lt => 5,
                BinOp::In => 6,
                BinOp::Re => 7,
            };
            out.push(rank);
            push_value(out, value);
        },
        Predicate::Custom { name } => {
            out.push(2);
            push_text(out, name.as_str());
        },
    }
    assert(out@ =~= before + predicate_key(p@));
}

/// The key of a pattern.
pub fn key_of(p: &FlatPattern) -> (out: Vec<u128>)
    ensures
        out@ == pattern_key(p@),
{
    let mut out: Vec<u128> = Vec::new();
    let mut i: usize = 0;
    assert(out@ =~= pattern_key(p@.take(0)));
    while i < p.predicates.len()
        invariant
            i <= p.predicates@.len(),
            out@ == pattern_key(p@.take(i as int)),
        decreases p.predicates@.len() - i,
    {
        assert(p@.take(i + 1).drop_last() =~= p@.take(i as int));
        assert(p@.take(i + 1).last() == p.predicates@[i as int]@);
        push_predicate(&mut out, &p.predicates[i]);
        i = i + 1;
    }
    assert(p@.take(i as int) =~= p@);
    out
}

/// Returns `true` if one key comes before the other.
pub fn is_key_less(a: &Vec<u128>, b: &Vec<u128>) -> (r: bool)
    ensures
        r == key_less(a@, b@),
{
    let mut i: usize = 0;
    assert(a@.skip(0) =~= a@ && b@.skip(0) =~= b@);
    while i < a.len() && i < b.len()
        invariant
            i <= a@.len(),
            i <= b@.len(),
            key_less(a@, b@) == key_less(a@.skip(i as int), b@.skip(i as int)),
        decreases a@.len() - i,
    {
        if a[i] != b[i] {
            return a[i] < b[i];
        }
        assert(a@.skip(i as int).skip(1) =~= a@.skip(i + 1));
        assert(b@.skip(i as int).skip(1) =~= b@.skip(i + 1));
        i = i + 1;
    }
    i < b.len()
}

} // verus!
