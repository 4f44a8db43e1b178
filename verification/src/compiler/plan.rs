//! What a plan holds, in terms of the annotations that it was made from.

use crate::compiler::codegen::{any_requires, filtered_transitions, handled, KnownLevels, StateTree};
use crate::compiler::decoder::finished;
use crate::compiler::filters::{
    datatype_level, exact_level, filter_parts, filtered_among, first_from, is_filtered_name,
    CustomModel,
};
use crate::compiler::groups::{
    filed, group_inputs, group_names, has_group, raw_step, replaced, GroupModel, RawModel,
};
use crate::compiler::input::{InputKind, InputModel};
use crate::compiler::levels::{law_sorted_levels_are_the_levels, sorted_levels};
use crate::compiler::names::{
    ascending, law_text_order_is_irreflexive, law_text_order_is_total,
    law_text_order_is_transitive, place, text_less, with_name,
};
use crate::compiler::subscriptions::{
    callback_of, filter_from, split_levels, subscription_of, updates_of, with_callbacks, with_input,
    CallbackModel, SubscriptionModel, SubscriptionSpec, TxModel,
};
use crate::compiler::updates::{
    definition_from, field_less, field_place, fields_of, is_update, occurrences, repeated,
    tracked_type, updates_at, with_callback_fields, with_field, with_group_fields,
    with_group_updates, with_input_updates, with_static_fields, with_subscription_fields,
    TrackedKind, TrackedModel,
};
use crate::compiler::usage::{
    declared_parsers, is_used, used_filters, with_filter_parsers, with_group_parsers,
    with_input_parsers, with_names, with_pattern_parsers,
};
use crate::compiler::DecodeError;
use crate::conntrack::conn_state::StateTransition;
use crate::filter::pattern::{FlatPattern, PredicateModel};
use vstd::prelude::*;

verus! {

/// A transition that recurs.
pub open spec fn recurs(level: StateTransition) -> bool {
    level == StateTransition::InL4Conn || level == StateTransition::InL4Stream
}

/// A function is to be invoked as an update at a level: it declares the level, and either the
/// level recurs, or the function is a method of a filter, or one of a datatype that is no
/// constructor.
pub open spec fn wants_update(inp: InputModel, level: StateTransition) -> bool {
    &&& inp.levels.contains(level)
    &&& inp.kind != InputKind::Datatype && inp.kind != InputKind::FilterGroup && inp.kind
        != InputKind::CallbackGroup
    &&& recurs(level) || inp.kind == InputKind::FilterGroupFn || (inp.kind == InputKind::DatatypeFn
        && !inp.constructor())
}

/// Some group holds the annotation.
pub open spec fn is_filed(gs: Seq<GroupModel>, inp: InputModel) -> bool {
    exists|i: int| 0 <= i < gs.len() && (#[trigger] gs[i]).inputs.contains(inp)
}

proof fn lemma_occurrences(levels: Seq<StateTransition>, level: StateTransition, n: int)
    requires
        0 <= n <= levels.len(),
    ensures
        occurrences(levels, level, n) > 0 <==> exists|i: int|
            0 <= i < n && #[trigger] levels[i] == level,
    decreases n,
{
    if n > 0 {
        lemma_occurrences(levels, level, n - 1);
        if levels[n - 1] == level {
            assert(levels[n - 1] == level);
        }
    }
}

proof fn lemma_in_both<A>(a: Seq<A>, b: Seq<A>, x: A)
    ensures
        (a + b).contains(x) <==> a.contains(x) || b.contains(x),
{
    if a.contains(x) {
        let k = choose|k: int| 0 <= k < a.len() && a[k] == x;
        assert((a + b)[k] == x);
    }
    if b.contains(x) {
        let k = choose|k: int| 0 <= k < b.len() && b[k] == x;
        assert((a + b)[a.len() + k] == x);
    }
    if (a + b).contains(x) {
        let k = choose|k: int| 0 <= k < (a + b).len() && (a + b)[k] == x;
        if k < a.len() {
            assert(a[k] == x);
        } else {
            assert(b[k - a.len()] == x);
        }
    }
}

proof fn lemma_update(inp: InputModel, level: StateTransition, x: InputModel)
    ensures
        ({
            let more = if is_update(inp, level) {
                repeated(inp, occurrences(inp.levels, level, inp.levels.len() as int))
            } else {
                Seq::empty()
            };
            more.contains(x) <==> x == inp && wants_update(inp, level)
        }),
{
    let n = inp.levels.len() as int;
    let k = occurrences(inp.levels, level, n);
    let more = if is_update(inp, level) {
        repeated(inp, k)
    } else {
        Seq::empty()
    };
    lemma_occurrences(inp.levels, level, n);
    assert(level.streaming() == recurs(level));
    if inp.levels.contains(level) {
        let i = choose|i: int| 0 <= i < n && inp.levels[i] == level;
        assert(inp.levels[i] == level);
    }
    if x == inp && wants_update(inp, level) {
        assert(is_update(inp, level));
        assert(more[0] == inp);
    }
    if more.contains(x) {
        let j = choose|j: int| 0 <= j < more.len() && more[j] == x;
        assert(k > 0);
    }
}

proof fn lemma_input_updates(
    list: Seq<InputModel>,
    inputs: Seq<InputModel>,
    level: StateTransition,
    n: int,
    x: InputModel,
)
    requires
        0 <= n <= inputs.len(),
    ensures
        with_input_updates(list, inputs, level, n).contains(x) <==> list.contains(x) || (exists|
            j: int,
        |
            0 <= j < n && #[trigger] inputs[j] == x && wants_update(x, level)),
        list.is_prefix_of(with_input_updates(list, inputs, level, n)),
    decreases n,
{
    if n > 0 {
        lemma_input_updates(list, inputs, level, n - 1, x);
        let before = with_input_updates(list, inputs, level, n - 1);
        let inp = inputs[n - 1];
        let more = if is_update(inp, level) {
            repeated(inp, occurrences(inp.levels, level, inp.levels.len() as int))
        } else {
            Seq::empty()
        };
        assert(with_input_updates(list, inputs, level, n) =~= before + more);
        lemma_update(inp, level, x);
        lemma_in_both(before, more, x);
        if x == inp && wants_update(inp, level) {
            assert(inputs[n - 1] == x);
        }
    }
}

proof fn lemma_group_updates(
    list: Seq<InputModel>,
    gs: Seq<GroupModel>,
    level: StateTransition,
    n: int,
    x: InputModel,
)
    requires
        0 <= n <= gs.len(),
    ensures
        with_group_updates(list, gs, level, n).contains(x) <==> list.contains(x) || (wants_update(
            x,
            level,
        ) && exists|i: int| 0 <= i < n && (#[trigger] gs[i]).inputs.contains(x)),
        list.is_prefix_of(with_group_updates(list, gs, level, n)),
    decreases n,
{
    if n > 0 {
        lemma_group_updates(list, gs, level, n - 1, x);
        let inputs = gs[n - 1].inputs;
        lemma_input_updates(
            with_group_updates(list, gs, level, n - 1),
            inputs,
            level,
            inputs.len() as int,
            x,
        );
        if inputs.contains(x) {
            let j = choose|j: int| 0 <= j < inputs.len() && inputs[j] == x;
            assert(inputs[j] == x);
            assert(gs[n - 1].inputs.contains(x));
        }
    }
}

/// At each level exactly those functions are invoked as updates that want to be, and those of
/// filters come before those of datatypes, which come before callbacks.
pub proof fn law_updates_are_those_wanted(
    filters: Seq<GroupModel>,
    datatypes: Seq<GroupModel>,
    cbs: Seq<GroupModel>,
    level: StateTransition,
    inp: InputModel,
)
    ensures
        updates_at(filters, datatypes, cbs, level).contains(inp) <==> wants_update(inp, level) && (
        is_filed(filters, inp) || is_filed(datatypes, inp) || is_filed(cbs, inp)),
        updates_at(filters, Seq::empty(), Seq::empty(), level).is_prefix_of(
            updates_at(filters, datatypes, Seq::empty(), level),
        ),
        updates_at(filters, datatypes, Seq::empty(), level).is_prefix_of(
            updates_at(filters, datatypes, cbs, level),
        ),
{
    let none = Seq::<InputModel>::empty();
    let a = with_group_updates(none, filters, level, filters.len() as int);
    let b = with_group_updates(a, datatypes, level, datatypes.len() as int);
    lemma_group_updates(none, filters, level, filters.len() as int, inp);
    lemma_group_updates(a, datatypes, level, datatypes.len() as int, inp);
    lemma_group_updates(b, cbs, level, cbs.len() as int, inp);
    let nothing = Seq::<GroupModel>::empty();
    assert(with_group_updates(a, nothing, level, 0) == a);
    assert(with_group_updates(b, nothing, level, 0) == b);
}

/// A name is added to a list of names, and nothing else is.
pub proof fn law_names_are_added(names: Seq<Seq<char>>, name: Seq<char>, x: Seq<char>)
    ensures
        with_name(names, name).contains(x) <==> names.contains(x) || x == name,
{
    lemma_place(names, name);
    let p = place(names, name);
    if !(p < names.len() && names[p] == name) {
        let after = names.insert(p, name);
        assert(after[p] == name);
        lemma_inserted(names, p, name, x);
    }
}

proof fn lemma_inserted<A>(list: Seq<A>, p: int, a: A, x: A)
    requires
        0 <= p <= list.len(),
    ensures
        list.insert(p, a).contains(x) <==> list.contains(x) || x == a,
{
    let after = list.insert(p, a);
    assert(after[p] == a);
    if list.contains(x) {
        let k = choose|k: int| 0 <= k < list.len() && list[k] == x;
        if k < p {
            assert(after[k] == x);
        } else {
            assert(after[k + 1] == x);
        }
    }
    if after.contains(x) {
        let k = choose|k: int| 0 <= k < after.len() && after[k] == x;
        if k < p {
            assert(list[k] == x);
        } else if k > p {
            assert(list[k - 1] == x);
        }
    }
}

proof fn lemma_place(names: Seq<Seq<char>>, name: Seq<char>)
    ensures
        0 <= place(names, name) <= names.len(),
        forall|i: int| 0 <= i < place(names, name) ==> text_less(#[trigger] names[i], name),
        place(names, name) < names.len() ==> !text_less(names[place(names, name)], name),
    decreases names.len(),
{
    if names.len() > 0 && text_less(names[0], name) {
        let rest = names.skip(1);
        lemma_place(rest, name);
        assert forall|i: int| 0 <= i < place(names, name) implies text_less(
            #[trigger] names[i],
            name,
        ) by {
            if i > 0 {
                assert(names[i] == rest[i - 1]);
            }
        }
    }
}

proof fn lemma_names(list: Seq<Seq<char>>, more: Seq<Seq<char>>, n: int, x: Seq<char>)
    requires
        0 <= n <= more.len(),
    ensures
        with_names(list, more, n).contains(x) <==> list.contains(x) || (x.len() > 0 && exists|
            k: int,
        |
            0 <= k < n && #[trigger] more[k] == x),
    decreases n,
{
    if n > 0 {
        lemma_names(list, more, n - 1, x);
        law_names_are_added(with_names(list, more, n - 1), more[n - 1], x);
        if more[n - 1] == x {
            assert(more[n - 1] == x);
        }
    }
}

/// Some function or struct of the groups asks for the parser.
pub open spec fn is_asked_for(gs: Seq<GroupModel>, name: Seq<char>) -> bool {
    exists|i: int, j: int|
        0 <= i < gs.len() && 0 <= j < gs[i].inputs.len() && (
        #[trigger] gs[i].inputs[j]).parsers.contains(name)
}

proof fn lemma_input_parsers(list: Seq<Seq<char>>, inputs: Seq<InputModel>, n: int, x: Seq<char>)
    requires
        0 <= n <= inputs.len(),
    ensures
        with_input_parsers(list, inputs, n).contains(x) <==> list.contains(x) || (x.len() > 0
            && exists|j: int| 0 <= j < n && (#[trigger] inputs[j]).parsers.contains(x)),
    decreases n,
{
    if n > 0 {
        lemma_input_parsers(list, inputs, n - 1, x);
        let more = inputs[n - 1].parsers;
        lemma_names(with_input_parsers(list, inputs, n - 1), more, more.len() as int, x);
        if more.contains(x) {
            let k = choose|k: int| 0 <= k < more.len() && more[k] == x;
            assert(more[k] == x);
            assert(inputs[n - 1].parsers.contains(x));
        }
    }
}

proof fn lemma_group_parsers(list: Seq<Seq<char>>, gs: Seq<GroupModel>, n: int, x: Seq<char>)
    requires
        0 <= n <= gs.len(),
    ensures
        with_group_parsers(list, gs, n).contains(x) <==> list.contains(x) || (x.len() > 0
            && exists|i: int, j: int|
            0 <= i < n && 0 <= j < gs[i].inputs.len() && (
            #[trigger] gs[i].inputs[j]).parsers.contains(x)),
    decreases n,
{
    if n > 0 {
        lemma_group_parsers(list, gs, n - 1, x);
        let inputs = gs[n - 1].inputs;
        lemma_input_parsers(
            with_group_parsers(list, gs, n - 1),
            inputs,
            inputs.len() as int,
            x,
        );
        if exists|j: int| 0 <= j < inputs.len() && (#[trigger] inputs[j]).parsers.contains(x) {
            let j = choose|j: int|
                0 <= j < inputs.len() && (#[trigger] inputs[j]).parsers.contains(x);
            assert(gs[n - 1].inputs[j].parsers.contains(x));
        }
    }
}

/// The parsers that are declared are those that some annotation asks for by name, whichever
/// kind of group it is in.
pub proof fn law_declared_parsers_are_those_asked_for(
    filters: Seq<GroupModel>,
    datatypes: Seq<GroupModel>,
    cbs: Seq<GroupModel>,
    name: Seq<char>,
)
    ensures
        declared_parsers(filters, datatypes, cbs).contains(name) <==> name.len() > 0 && (
        is_asked_for(filters, name) || is_asked_for(datatypes, name) || is_asked_for(cbs, name)),
{
    let none = Seq::<Seq<char>>::empty();
    let a = with_group_parsers(none, filters, filters.len() as int);
    let b = with_group_parsers(a, datatypes, datatypes.len() as int);
    lemma_group_parsers(none, filters, filters.len() as int, name);
    lemma_group_parsers(a, datatypes, datatypes.len() as int, name);
    lemma_group_parsers(b, cbs, cbs.len() as int, name);
}

/// The predicate asks for an application-layer protocol with a name.
pub open spec fn asks_for(p: PredicateModel, name: Seq<char>) -> bool {
    p matches PredicateModel::Unary { protocol } && protocol.claimed() && protocol.name_of()
        == name
}

proof fn lemma_pattern_parsers(
    list: Seq<Seq<char>>,
    pattern: Seq<PredicateModel>,
    n: int,
    x: Seq<char>,
)
    requires
        0 <= n <= pattern.len(),
    ensures
        with_pattern_parsers(list, pattern, n).contains(x) <==> list.contains(x) || exists|j: int|
            0 <= j < n && asks_for(#[trigger] pattern[j], x),
    decreases n,
{
    if n > 0 {
        lemma_pattern_parsers(list, pattern, n - 1, x);
        if let PredicateModel::Unary { protocol } = pattern[n - 1] {
            law_names_are_added(
                with_pattern_parsers(list, pattern, n - 1),
                protocol.name_of(),
                x,
            );
        }
        if asks_for(pattern[n - 1], x) {
            assert(asks_for(pattern[n - 1], x));
        }
    }
}

/// A filter adds the parsers of the application-layer protocols that its patterns ask for, and
/// no others.
pub proof fn law_filters_add_the_parsers_they_need(
    list: Seq<Seq<char>>,
    patterns: Seq<FlatPattern>,
    n: int,
    name: Seq<char>,
)
    requires
        0 <= n <= patterns.len(),
    ensures
        with_filter_parsers(list, patterns, n).contains(name) <==> list.contains(name) || exists|
            i: int,
            j: int,
        |
            0 <= i < n && 0 <= j < patterns[i]@.len() && asks_for(
                #[trigger] patterns[i]@[j],
                name,
            ),
    decreases n,
{
    if n > 0 {
        law_filters_add_the_parsers_they_need(list, patterns, n - 1, name);
        let pattern = patterns[n - 1]@;
        lemma_pattern_parsers(
            with_filter_parsers(list, patterns, n - 1),
            pattern,
            pattern.len() as int,
            name,
        );
        if exists|j: int| 0 <= j < pattern.len() && asks_for(#[trigger] pattern[j], name) {
            let j = choose|j: int| 0 <= j < pattern.len() && asks_for(#[trigger] pattern[j], name);
            assert(asks_for(patterns[n - 1]@[j], name));
        }
    }
}

/// Of the filters exactly those are kept that some subscription refers to.
pub proof fn law_kept_filters_are_those_used(
    fs: Seq<GroupModel>,
    subs: Seq<SubscriptionModel>,
    n: int,
    g: GroupModel,
)
    requires
        0 <= n <= fs.len(),
    ensures
        used_filters(fs, subs, n).contains(g) <==> is_used(subs, g.name) && exists|i: int|
            0 <= i < n && #[trigger] fs[i] == g,
    decreases n,
{
    if n > 0 {
        law_kept_filters_are_those_used(fs, subs, n - 1, g);
        let before = used_filters(fs, subs, n - 1);
        let last = fs[n - 1];
        if is_used(subs, last.name) {
            assert(before.push(last) =~= before + seq![last]);
            lemma_in_both(before, seq![last], g);
            assert(seq![last][0] == last);
        }
        if last == g {
            assert(fs[n - 1] == g);
        }
    }
}

proof fn lemma_same_place(names: Seq<Seq<char>>, name: Seq<char>, p: int)
    requires
        ascending(names),
        0 <= p <= names.len(),
        forall|i: int| 0 <= i < p ==> text_less(#[trigger] names[i], name),
        p < names.len() ==> !text_less(names[p], name),
    ensures
        place(names, name) == p,
{
    lemma_place(names, name);
    let q = place(names, name);
    if q < p {
        assert(text_less(names[q], name));
    }
    if p < q {
        assert(text_less(names[p], name));
    }
}

proof fn lemma_group_at(gs: Seq<GroupModel>, name: Seq<char>, p: int)
    requires
        ascending(group_names(gs)),
        0 <= p < gs.len(),
        gs[p].name == name,
    ensures
        has_group(gs, name),
        place(group_names(gs), name) == p,
        group_inputs(gs, name) == gs[p].inputs,
{
    let names = group_names(gs);
    assert(names[p] == name);
    law_text_order_is_irreflexive(name);
    lemma_same_place(names, name, p);
}

proof fn lemma_has_group(gs: Seq<GroupModel>, name: Seq<char>)
    ensures
        has_group(gs, name) ==> 0 <= place(group_names(gs), name) < gs.len()
            && gs[place(group_names(gs), name)].name == name,
{
    lemma_place(group_names(gs), name);
}

/// An annotation is filed under its name, after those that are there already, and no other
/// name is affected. The names stay in order.
pub proof fn law_annotations_are_filed_under_their_name(
    gs: Seq<GroupModel>,
    name: Seq<char>,
    inp: InputModel,
    other: Seq<char>,
)
    requires
        ascending(group_names(gs)),
    ensures
        ({
            let after = filed(gs, name, inp);
            &&& ascending(group_names(after))
            &&& has_group(after, name)
            &&& group_inputs(after, name) == (if has_group(gs, name) {
                group_inputs(gs, name).push(inp)
            } else {
                seq![inp]
            })
            &&& other != name ==> has_group(after, other) == has_group(gs, other)
            &&& other != name && has_group(gs, other) ==> group_inputs(after, other)
                == group_inputs(gs, other)
        }),
        ({
            let after = replaced(gs, name, inp);
            &&& ascending(group_names(after))
            &&& has_group(after, name)
            &&& group_inputs(after, name) == seq![inp]
            &&& other != name ==> has_group(after, other) == has_group(gs, other)
            &&& other != name && has_group(gs, other) ==> group_inputs(after, other)
                == group_inputs(gs, other)
        }),
{
    let list = if has_group(gs, name) {
        group_inputs(gs, name).push(inp)
    } else {
        seq![inp]
    };
    lemma_filed(gs, name, list, other);
    lemma_filed(gs, name, seq![inp], other);
}

proof fn lemma_filed(
    gs: Seq<GroupModel>,
    name: Seq<char>,
    list: Seq<InputModel>,
    other: Seq<char>,
)
    requires
        ascending(group_names(gs)),
    ensures
        ({
            let p = place(group_names(gs), name);
            let g = GroupModel { name, inputs: list };
            let after = if has_group(gs, name) {
                gs.update(p, g)
            } else {
                gs.insert(p, g)
            };
            &&& ascending(group_names(after))
            &&& has_group(after, name)
            &&& group_inputs(after, name) == list
            &&& other != name ==> has_group(after, other) == has_group(gs, other)
            &&& other != name && has_group(gs, other) ==> group_inputs(after, other)
                == group_inputs(gs, other)
        }),
{
    let names = group_names(gs);
    let p = place(names, name);
    let g = GroupModel { name, inputs: list };
    lemma_place(names, name);
    lemma_has_group(gs, name);
    lemma_has_group(gs, other);
    let q = place(names, other);
    if has_group(gs, name) {
        let after = gs.update(p, g);
        assert(group_names(after) =~= names);
        lemma_group_at(after, name, p);
        if other != name {
            lemma_place(names, other);
            assert(place(group_names(after), other) == q);
            if q < gs.len() {
                assert(after[q].name == gs[q].name);
                if q != p {
                    assert(after[q] == gs[q]);
                }
            }
        }
    } else {
        let after = gs.insert(p, g);
        let more = group_names(after);
        assert(more =~= names.insert(p, name));
        assert forall|i: int, j: int| 0 <= i < j < more.len() implies text_less(
            #[trigger] more[i],
            #[trigger] more[j],
        ) by {
            let a = if i < p {
                i
            } else {
                i - 1
            };
            let b = if j < p {
                j
            } else {
                j - 1
            };
            if i == p {
                assert(more[j] == names[b]);
                assert(names[p] != name);
                law_text_order_is_total(names[p], name);
                assert(text_less(name, names[p]));
                if b > p {
                    assert(text_less(names[p], names[b]));
                    law_text_order_is_transitive(name, names[p], names[b]);
                }
            } else if j == p {
                assert(more[i] == names[a]);
            } else {
                assert(more[i] == names[a] && more[j] == names[b]);
            }
        }
        lemma_group_at(after, name, p);
        if other != name {
            if has_group(gs, other) {
                let at = if q < p {
                    q
                } else {
                    q + 1
                };
                assert(after[at] == gs[q]);
                lemma_group_at(after, other, at);
            }
            lemma_has_group(after, other);
            if has_group(after, other) {
                let at = place(more, other);
                assert(after[at].name == other);
                let back = if at < p {
                    at
                } else {
                    at - 1
                };
                assert(at != p);
                assert(after[at] == gs[back]);
                lemma_group_at(gs, other, back);
            }
        }
    }
}

proof fn lemma_field_place(list: Seq<TrackedModel>, t: TrackedModel, i: int)
    requires
        0 <= i <= list.len(),
    ensures
        i <= field_place(list, t, i) <= list.len(),
    decreases list.len() - i,
{
    if i < list.len() && field_less(list[i], t) {
        lemma_field_place(list, t, i + 1);
    }
}

proof fn lemma_with_field(list: Seq<TrackedModel>, t: TrackedModel, x: TrackedModel)
    ensures
        with_field(list, t).contains(x) <==> list.contains(x) || x == t,
{
    lemma_field_place(list, t, 0);
    let p = field_place(list, t, 0);
    if !(p < list.len() && list[p] == t) {
        lemma_inserted(list, p, t, x);
    }
}

proof fn lemma_group_fields(list: Seq<TrackedModel>, gs: Seq<GroupModel>, n: int, x: TrackedModel)
    requires
        0 <= n <= gs.len(),
    ensures
        with_group_fields(list, gs, n).contains(x) <==> list.contains(x) || exists|i: int|
            0 <= i < n && tracked_type((#[trigger] gs[i]).inputs) == Some(x),
    decreases n,
{
    if n > 0 {
        lemma_group_fields(list, gs, n - 1, x);
        if let Some(t) = tracked_type(gs[n - 1].inputs) {
            lemma_with_field(with_group_fields(list, gs, n - 1), t, x);
            if t == x {
                assert(tracked_type(gs[n - 1].inputs) == Some(x));
            }
        }
    }
}

proof fn lemma_static_fields(list: Seq<TrackedModel>, specs: Seq<TxModel>, n: int, x: TrackedModel)
    requires
        0 <= n <= specs.len(),
    ensures
        with_static_fields(list, specs, n).contains(x) <==> list.contains(x) || (x.kind
            == TrackedKind::StaticData && exists|i: int|
            0 <= i < n && (#[trigger] specs[i]).name == x.name && specs[i].updates == seq![
                StateTransition::L4FirstPacket,
            ]),
    decreases n,
{
    if n > 0 {
        lemma_static_fields(list, specs, n - 1, x);
        let s = specs[n - 1];
        if s.updates.len() == 1 && s.updates[0] == StateTransition::L4FirstPacket {
            assert(s.updates =~= seq![StateTransition::L4FirstPacket]);
        }
        lemma_with_field(
            with_static_fields(list, specs, n - 1),
            TrackedModel { kind: TrackedKind::StaticData, name: s.name },
            x,
        );
        if s.name == x.name && s.updates == seq![StateTransition::L4FirstPacket] {
            assert(specs[n - 1].name == x.name);
        }
    }
}

/// The callback needs the field: to remember that it was invoked, or for a datatype that the
/// first packet fixes.
pub open spec fn callback_needs(cb: CallbackModel, t: TrackedModel) -> bool {
    ||| cb.invoke_once && t == (TrackedModel { kind: TrackedKind::StaticCallback, name: cb.as_str })
    ||| t.kind == TrackedKind::StaticData && exists|i: int|
        0 <= i < cb.datatypes.len() && (#[trigger] cb.datatypes[i]).name == t.name
            && cb.datatypes[i].updates == seq![StateTransition::L4FirstPacket]
}

proof fn lemma_callback_fields(
    list: Seq<TrackedModel>,
    cbs: Seq<CallbackModel>,
    n: int,
    x: TrackedModel,
)
    requires
        0 <= n <= cbs.len(),
    ensures
        with_callback_fields(list, cbs, n) matches Ok(all) ==> (all.contains(x)
            <==> list.contains(x) || exists|i: int|
            0 <= i < n && callback_needs(#[trigger] cbs[i], x)),
    decreases n,
{
    if n > 0 {
        lemma_callback_fields(list, cbs, n - 1, x);
        if let Ok(before) = with_callback_fields(list, cbs, n - 1) {
            let cb = cbs[n - 1];
            let t = TrackedModel { kind: TrackedKind::StaticCallback, name: cb.as_str };
            lemma_with_field(before, t, x);
            lemma_static_fields(with_field(before, t), cb.datatypes, cb.datatypes.len() as int, x);
            lemma_static_fields(before, cb.datatypes, cb.datatypes.len() as int, x);
            if callback_needs(cb, x) {
                assert(callback_needs(cbs[n - 1], x));
            }
        }
    }
}

proof fn lemma_subscription_fields(
    list: Seq<TrackedModel>,
    subs: Seq<SubscriptionModel>,
    n: int,
    x: TrackedModel,
)
    requires
        0 <= n <= subs.len(),
    ensures
        with_subscription_fields(list, subs, n) matches Ok(all) ==> (all.contains(x)
            <==> list.contains(x) || exists|i: int, j: int|
            0 <= i < n && 0 <= j < subs[i].callbacks.len() && callback_needs(
                #[trigger] subs[i].callbacks[j],
                x,
            )),
    decreases n,
{
    if n > 0 {
        lemma_subscription_fields(list, subs, n - 1, x);
        if let Ok(before) = with_subscription_fields(list, subs, n - 1) {
            let cbs = subs[n - 1].callbacks;
            lemma_callback_fields(before, cbs, cbs.len() as int, x);
            if exists|j: int| 0 <= j < cbs.len() && callback_needs(#[trigger] cbs[j], x) {
                let j = choose|j: int| 0 <= j < cbs.len() && callback_needs(#[trigger] cbs[j], x);
                assert(callback_needs(subs[n - 1].callbacks[j], x));
            }
        }
    }
}

/// Some group needs the field.
pub open spec fn group_needs(gs: Seq<GroupModel>, t: TrackedModel) -> bool {
    exists|i: int| 0 <= i < gs.len() && tracked_type((#[trigger] gs[i]).inputs) == Some(t)
}

/// A connection has exactly the fields that a filter, a datatype or a callback needs.
pub proof fn law_fields_are_those_needed(
    filters: Seq<GroupModel>,
    datatypes: Seq<GroupModel>,
    cbs: Seq<GroupModel>,
    subs: Seq<SubscriptionModel>,
    t: TrackedModel,
)
    ensures
        fields_of(filters, datatypes, cbs, subs) matches Ok(fields) ==> (fields.contains(t) <==> {
            ||| group_needs(filters, t)
            ||| group_needs(datatypes, t)
            ||| group_needs(cbs, t)
            ||| exists|i: int, j: int|
                0 <= i < subs.len() && 0 <= j < subs[i].callbacks.len() && callback_needs(
                    #[trigger] subs[i].callbacks[j],
                    t,
                )
        }),
{
    let none = Seq::<TrackedModel>::empty();
    let a = with_group_fields(none, filters, filters.len() as int);
    let b = with_group_fields(a, datatypes, datatypes.len() as int);
    let c = with_group_fields(b, cbs, cbs.len() as int);
    lemma_group_fields(none, filters, filters.len() as int, t);
    lemma_group_fields(a, datatypes, datatypes.len() as int, t);
    lemma_group_fields(b, cbs, cbs.len() as int, t);
    lemma_subscription_fields(c, subs, subs.len() as int, t);
}

/// A field stands for what its group defines: a group of callbacks, of filters, or a datatype,
/// told by its struct, or a function of its own. A group in which something
/// recurs always has one.
pub proof fn law_fields_stand_for_their_definitions(
    inputs: Seq<InputModel>,
    d: int,
)
    requires
        0 <= d < inputs.len(),
        !inputs[d].kind.method(),
        forall|i: int| 0 <= i < inputs.len() && i != d ==> (#[trigger] inputs[i]).kind.method(),
    ensures
        tracked_type(inputs) matches Some(t) ==> t.name == inputs[d].name && t.kind == (
        match inputs[d].kind {
            InputKind::CallbackGroup => TrackedKind::StreamCallback,
            InputKind::FilterGroup => TrackedKind::StreamFilter,
            InputKind::Datatype => TrackedKind::Datatype(inputs[d].filtered),
            InputKind::Callback => TrackedKind::StatelessCallback,
            _ => TrackedKind::StatelessFilter,
        }),
        (exists|i: int, l: StateTransition|
            0 <= i < inputs.len() && recurs(l) && #[trigger] inputs[i].levels.contains(l))
            ==> tracked_type(inputs) is Some,
{
    lemma_definition_from(inputs, d, 0);
    if exists|i: int, l: StateTransition|
        0 <= i < inputs.len() && recurs(l) && #[trigger] inputs[i].levels.contains(l) {
        let (i, l) = choose|i: int, l: StateTransition|
            0 <= i < inputs.len() && recurs(l) && #[trigger] inputs[i].levels.contains(l);
        let k = choose|k: int| 0 <= k < inputs[i].levels.len() && inputs[i].levels[k] == l;
        assert(inputs[i].levels[k].streaming());
    }
}

proof fn lemma_definition_from(inputs: Seq<InputModel>, d: int, i: int)
    requires
        0 <= i <= d < inputs.len(),
        !inputs[d].kind.method(),
        forall|j: int| i <= j < d ==> (#[trigger] inputs[j]).kind.method(),
    ensures
        definition_from(inputs, i) == Some(
            TrackedModel {
                kind: match inputs[d].kind {
                    InputKind::CallbackGroup => TrackedKind::StreamCallback,
                    InputKind::FilterGroup => TrackedKind::StreamFilter,
                    InputKind::Datatype => TrackedKind::Datatype(inputs[d].filtered),
                    InputKind::Callback => TrackedKind::StatelessCallback,
                    _ => TrackedKind::StatelessFilter,
                },
                name: inputs[d].name,
            },
        ),
    decreases d - i,
{
    if i < d {
        lemma_definition_from(inputs, d, i + 1);
    }
}

/// A callback takes the datatypes that its function does, in order, is invoked at the level
/// that it was made for, and gets the pattern that was matched exactly if it asks for it. It
/// is refused exactly if a datatype is unknown, or its levels cannot be had.
pub proof fn law_callback_takes_what_its_function_does(
    gs: Seq<GroupModel>,
    names: Seq<Seq<char>>,
    as_str: Seq<char>,
    id: Seq<char>,
    level: Option<StateTransition>,
    i: int,
)
    requires
        0 <= i < names.len(),
    ensures
        callback_of(gs, names, as_str, id, level) matches Ok(c) ==> {
            &&& c.datatypes.len() == names.len()
            &&& c.datatypes[i].name == names[i]
            &&& has_group(gs, names[i])
            &&& forall|l: StateTransition| #[trigger]
                c.datatypes[i].updates.contains(l) <==> exists|j: int|
                    0 <= j < group_inputs(gs, names[i]).len() && (#[trigger] group_inputs(
                        gs,
                        names[i],
                    )[j]).levels.contains(l)
            &&& c.expl_level == level
            &&& c.must_deliver <==> names.contains("FilterStr"@)
            &&& !c.invoke_once
            &&& c.as_str == as_str
            &&& c.subscription_id == id
            &&& (exists|l: StateTransition| recurs(l) && #[trigger] c.datatypes[i].updates.contains(l))
                ==> level is Some
            &&& c.datatypes[i].updates.contains(StateTransition::L4Terminated) ==> level is None
                || level == Some(StateTransition::L4Terminated)
        },
        !has_group(gs, names[i]) ==> callback_of(gs, names, as_str, id, level) == Err::<
            CallbackModel,
            DecodeError,
        >(DecodeError::UnknownDatatype),
{
    if let Ok(c) = callback_of(gs, names, as_str, id, level) {
        let inputs = group_inputs(gs, names[i]);
        assert(has_group(gs, names[i]));
        assert forall|l: StateTransition| #[trigger]
            c.datatypes[i].updates.contains(l) <==> exists|j: int|
                0 <= j < group_inputs(gs, names[i]).len() && (#[trigger] group_inputs(
                    gs,
                    names[i],
                )[j]).levels.contains(l) by {
            lemma_updates_of(inputs, inputs.len() as int, l);
        }
        if exists|l: StateTransition| recurs(l) && #[trigger] c.datatypes[i].updates.contains(l) {
            let l = choose|l: StateTransition|
                recurs(l) && #[trigger] c.datatypes[i].updates.contains(l);
            let k = choose|k: int|
                0 <= k < c.datatypes[i].updates.len() && c.datatypes[i].updates[k] == l;
            assert(c.datatypes[i].updates[k].streaming());
        }
    }
}

proof fn lemma_updates_of(inputs: Seq<InputModel>, n: int, l: StateTransition)
    requires
        0 <= n <= inputs.len(),
    ensures
        updates_of(inputs, n).contains(l) <==> exists|j: int|
            0 <= j < n && (#[trigger] inputs[j]).levels.contains(l),
    decreases n,
{
    if n > 0 {
        lemma_updates_of(inputs, n - 1, l);
        lemma_in_both(
            updates_of(inputs, n - 1),
            inputs[n - 1].levels,
            l,
        );
        if inputs[n - 1].levels.contains(l) {
            assert(inputs[n - 1].levels.contains(l));
        }
    }
}

/// A function that declares several levels becomes one callback for each of them.
pub proof fn law_callbacks_are_split_by_level(
    list: Seq<CallbackModel>,
    gs: Seq<GroupModel>,
    names: Seq<Seq<char>>,
    as_str: Seq<char>,
    id: Seq<char>,
    levels: Seq<Option<StateTransition>>,
    n: int,
    all: Seq<CallbackModel>,
)
    requires
        0 <= n <= levels.len(),
        with_callbacks(list, gs, names, as_str, id, levels, n) == Ok::<
            Seq<CallbackModel>,
            DecodeError,
        >(all),
    ensures
        all.len() == list.len() + n,
        list.is_prefix_of(all),
        forall|i: int|
            0 <= i < n ==> (#[trigger] all[list.len() + i]).expl_level == levels[i] && all[list.len()
                + i].as_str == as_str && all[list.len() + i].subscription_id == id
                && all[list.len() + i].datatypes.len() == names.len(),
    decreases n,
{
    if n > 0 {
        let before = with_callbacks(list, gs, names, as_str, id, levels, n - 1)->Ok_0;
        law_callbacks_are_split_by_level(list, gs, names, as_str, id, levels, n - 1, before);
        assert forall|i: int| 0 <= i < n implies (#[trigger] all[list.len() + i]).expl_level
            == levels[i] && all[list.len() + i].as_str == as_str && all[list.len()
            + i].subscription_id == id && all[list.len() + i].datatypes.len() == names.len() by {
            if i < n - 1 {
                assert(all[list.len() + i] == before[list.len() + i]);
            }
        }
    }
}

/// Exactly one level is one level, however often it is declared.
pub proof fn law_exact_level_is_the_only_one(levels: Seq<StateTransition>, l: StateTransition)
    ensures
        exact_level(levels) == Ok::<StateTransition, DecodeError>(l) <==> levels.len() > 0
            && forall|i: int| 0 <= i < levels.len() ==> #[trigger] levels[i] == l,
{
    let sorted = sorted_levels(levels);
    lemma_sorted(levels);
    if sorted.len() == 1 && sorted[0] == l {
        assert(sorted.contains(l));
        assert forall|i: int| 0 <= i < levels.len() implies #[trigger] levels[i] == l by {
            assert(levels.contains(levels[i]));
            assert(sorted.contains(levels[i]));
        }
        assert(levels.contains(l));
    }
    if levels.len() > 0 && forall|i: int| 0 <= i < levels.len() ==> #[trigger] levels[i] == l {
        assert(levels[0] == l);
        assert(levels.contains(l));
        assert(sorted.contains(l));
        assert forall|i: int| 0 <= i < sorted.len() implies #[trigger] sorted[i] == l by {
            assert(sorted.contains(sorted[i]));
            assert(levels.contains(sorted[i]));
        }
        if sorted.len() > 1 {
            assert(sorted[0] == sorted[1]);
        }
    }
}

proof fn lemma_sorted(levels: Seq<StateTransition>)
    ensures
        forall|l: StateTransition| #[trigger]
            sorted_levels(levels).contains(l) <==> levels.contains(l),
        forall|i: int, j: int|
            0 <= i < j < sorted_levels(levels).len() ==> sorted_levels(levels)[i]
                != sorted_levels(levels)[j],
{
    let sorted = sorted_levels(levels);
    assert forall|l: StateTransition| #[trigger] sorted.contains(l) <==> levels.contains(l) by {
        law_sorted_levels_are_the_levels(levels, l);
    }
    law_sorted_levels_are_the_levels(levels, StateTransition::Packet);
}

/// Of the state transitions, a filter is generated for exactly those of connections at which
/// some callback requires one.
pub proof fn law_filters_are_made_where_required(
    subs: Seq<SubscriptionSpec>,
    known: Seq<KnownLevels>,
    n: int,
    tx: StateTransition,
)
    requires
        0 <= n <= known.len(),
    ensures
        filtered_transitions(subs, known, n).contains(tx) <==> tx != StateTransition::Packet
            && exists|k: int|
            0 <= k < n && (#[trigger] known[k]).tx == tx && any_requires(
                subs,
                known[k].levels@,
                tx,
            ),
    decreases n,
{
    if n > 0 {
        law_filters_are_made_where_required(subs, known, n - 1, tx);
        let before = filtered_transitions(subs, known, n - 1);
        let k = known[n - 1];
        assert(before.push(k.tx) =~= before + seq![k.tx]);
        lemma_in_both(before, seq![k.tx], tx);
        assert(seq![k.tx][0] == k.tx);
        if k.tx == tx && any_requires(subs, k.levels@, tx) {
            assert(known[n - 1].tx == tx);
        }
    }
}

/// Every tree but those for bare packets gets a function, and they come in order.
pub proof fn law_every_tree_is_handled(trees: Seq<StateTree>, n: int, k: int)
    requires
        0 <= n <= trees.len(),
    ensures
        handled(trees, n).contains(k) <==> 0 <= k < n && trees[k].tx != StateTransition::Packet,
        forall|i: int, j: int|
            0 <= i < j < handled(trees, n).len() ==> #[trigger] handled(trees, n)[i]
                < #[trigger] handled(trees, n)[j],
        forall|i: int|
            0 <= i < handled(trees, n).len() ==> 0 <= #[trigger] handled(trees, n)[i] < n,
    decreases n,
{
    if n > 0 {
        law_every_tree_is_handled(trees, n - 1, k);
        let before = handled(trees, n - 1);
        assert(before.push(n - 1) =~= before + seq![n - 1]);
        lemma_in_both(before, seq![n - 1], k);
        assert(seq![n - 1][0] == n - 1);
    }
}

/// An annotation goes to the groups of its kind: those of datatypes, of filters or of
/// callbacks, and leaves the others as they were. Only a second callback of one name is
/// refused.
pub proof fn law_annotations_go_to_their_kind(r: RawModel, inp: InputModel)
    requires
        ascending(group_names(r.filters)),
        ascending(group_names(r.datatypes)),
        ascending(group_names(r.cbs)),
    ensures
        raw_step(r, inp) is Err <==> inp.kind == InputKind::Callback && has_group(r.cbs, inp.owner),
        raw_step(r, inp) matches Ok(after) ==> {
            let of_datatype = inp.kind == InputKind::Datatype || inp.kind == InputKind::DatatypeFn;
            let of_filter = inp.kind == InputKind::Filter || inp.kind == InputKind::FilterGroup
                || inp.kind == InputKind::FilterGroupFn;
            &&& of_datatype ==> has_group(after.datatypes, inp.owner) && group_inputs(
                after.datatypes,
                inp.owner,
            ).last() == inp && after.filters == r.filters && after.cbs == r.cbs
            &&& of_filter ==> has_group(after.filters, inp.owner) && group_inputs(
                after.filters,
                inp.owner,
            ).last() == inp && after.datatypes == r.datatypes && after.cbs == r.cbs
            &&& !of_datatype && !of_filter ==> has_group(after.cbs, inp.owner) && group_inputs(
                after.cbs,
                inp.owner,
            ).last() == inp && after.datatypes == r.datatypes && after.filters == r.filters
            &&& inp.kind == InputKind::Filter ==> group_inputs(after.filters, inp.owner).len() == 1
            &&& inp.kind == InputKind::FilterGroupFn && has_group(r.filters, inp.owner)
                ==> group_inputs(after.filters, inp.owner).drop_last() == group_inputs(
                r.filters,
                inp.owner,
            )
        },
{
    law_annotations_are_filed_under_their_name(r.filters, inp.owner, inp, inp.owner);
    law_annotations_are_filed_under_their_name(r.datatypes, inp.owner, inp, inp.owner);
    law_annotations_are_filed_under_their_name(r.cbs, inp.owner, inp, inp.owner);
    if has_group(r.filters, inp.owner) {
        let before = group_inputs(r.filters, inp.owner);
        assert(before.push(inp).drop_last() =~= before);
    }
}

proof fn lemma_first_from(inputs: Seq<InputModel>, kind: InputKind, i: int, k: int)
    requires
        0 <= i <= k < inputs.len(),
        inputs[k].kind == kind,
        forall|j: int| i <= j < k ==> (#[trigger] inputs[j]).kind != kind,
    ensures
        first_from(inputs, kind, i) == Some(k),
    decreases k - i,
{
    if i < k {
        lemma_first_from(inputs, kind, i + 1, k);
    }
}

/// A datatype is available at the level that its struct declares; where that declares none,
/// at the level of its first method.
pub proof fn law_datatypes_are_available_at_their_level(
    gs: Seq<GroupModel>,
    name: Seq<char>,
    k: int,
    j: int,
    l: StateTransition,
)
    requires
        has_group(gs, name),
        0 <= k < group_inputs(gs, name).len(),
        group_inputs(gs, name)[k].kind == InputKind::Datatype,
        forall|i: int|
            0 <= i < k ==> (#[trigger] group_inputs(gs, name)[i]).kind != InputKind::Datatype,
        0 <= j < group_inputs(gs, name).len(),
        group_inputs(gs, name)[j].kind == InputKind::DatatypeFn,
        forall|i: int|
            0 <= i < j ==> (#[trigger] group_inputs(gs, name)[i]).kind != InputKind::DatatypeFn,
    ensures
        group_inputs(gs, name)[k].levels == seq![l] ==> datatype_level(gs, name) == Ok::<
            StateTransition,
            DecodeError,
        >(l),
        group_inputs(gs, name)[k].levels.len() == 0 && group_inputs(gs, name)[j].levels == seq![l]
            ==> datatype_level(gs, name) == Ok::<StateTransition, DecodeError>(l),
{
    let inputs = group_inputs(gs, name);
    lemma_first_from(inputs, InputKind::Datatype, 0, k);
    lemma_first_from(inputs, InputKind::DatatypeFn, 0, j);
    law_exact_level_is_the_only_one(inputs[k].levels, l);
    law_exact_level_is_the_only_one(inputs[j].levels, l);
}

proof fn lemma_filtered_among(gs: Seq<GroupModel>, names: Seq<Seq<char>>, n: int, x: Seq<char>)
    requires
        0 <= n <= names.len(),
    ensures
        filtered_among(gs, names, n).contains(x) <==> is_filtered_name(gs, x) && exists|i: int|
            0 <= i < n && #[trigger] names[i] == x,
    decreases n,
{
    if n > 0 {
        lemma_filtered_among(gs, names, n - 1, x);
        let before = filtered_among(gs, names, n - 1);
        let last = names[n - 1];
        assert(before.push(last) =~= before + seq![last]);
        lemma_in_both(before, seq![last], x);
        assert(seq![last][0] == last);
        if last == x {
            assert(names[n - 1] == x);
        }
    }
}

/// A custom filter is invoked at the levels of each of its functions, and takes the expensive
/// datatypes that any of them does.
pub proof fn law_filters_take_what_their_functions_do(
    gs: Seq<GroupModel>,
    inputs: Seq<InputModel>,
    n: int,
    levels: Seq<Seq<StateTransition>>,
    data: Seq<Seq<char>>,
    x: Seq<char>,
)
    requires
        0 <= n <= inputs.len(),
        filter_parts(gs, inputs, n) == Ok::<
            (Seq<Seq<StateTransition>>, Seq<Seq<char>>),
            DecodeError,
        >((levels, data)),
    ensures
        data.contains(x) <==> is_filtered_name(gs, x) && exists|i: int|
            0 <= i < n && ((#[trigger] inputs[i]).kind == InputKind::Filter || inputs[i].kind
                == InputKind::FilterGroupFn) && inputs[i].datatypes.contains(x),
    decreases n,
{
    if n > 0 {
        let (levels0, data0) = filter_parts(gs, inputs, n - 1)->Ok_0;
        law_filters_take_what_their_functions_do(gs, inputs, n - 1, levels0, data0, x);
        let inp = inputs[n - 1];
        let names = inp.datatypes;
        lemma_filtered_among(gs, names, names.len() as int, x);
        if names.contains(x) {
            let i = choose|i: int| 0 <= i < names.len() && names[i] == x;
            assert(names[i] == x);
        }
        lemma_in_both(data0, filtered_among(gs, names, names.len() as int), x);
        if inp.datatypes.contains(x) && (inp.kind == InputKind::Filter || inp.kind
            == InputKind::FilterGroupFn) {
            assert(inputs[n - 1].datatypes.contains(x));
        }
    }
}

/// A function of its own is a callback under the name of its group; a method is one under its
/// struct's name and its own, for the subscription of the struct.
pub proof fn law_callbacks_are_named(
    list: Seq<CallbackModel>,
    gs: Seq<GroupModel>,
    group: GroupModel,
    inp: InputModel,
    all: Seq<CallbackModel>,
    i: int,
)
    requires
        with_input(list, gs, group, inp) == Ok::<Seq<CallbackModel>, DecodeError>(all),
        list.len() <= i < all.len(),
    ensures
        inp.kind == InputKind::Callback ==> all[i].as_str == group.name && all[i].subscription_id
            == group.name && group.inputs.len() == 1,
        inp.kind == InputKind::CallbackGroupFn ==> all[i].as_str == inp.owner + "::"@ + inp.name
            && all[i].subscription_id == inp.owner,
        all[i].datatypes.len() == inp.datatypes.len(),
        inp.levels.len() == 0 ==> all[i].expl_level is None && all.len() == list.len() + 1,
        inp.levels.len() == 1 ==> all[i].expl_level == Some(inp.levels[0]) && all.len()
            == list.len() + 1,
        inp.levels.len() > 1 ==> (all[i].expl_level matches Some(l) && inp.levels.contains(l)),
{
    let levels = split_levels(inp.levels);
    let n = levels.len() as int;
    let k = i - list.len();
    if inp.kind == InputKind::Callback {
        law_callbacks_are_split_by_level(
            list,
            gs,
            inp.datatypes,
            group.name,
            group.name,
            levels,
            n,
            all,
        );
    } else if inp.kind == InputKind::CallbackGroupFn {
        law_callbacks_are_split_by_level(
            list,
            gs,
            inp.datatypes,
            inp.owner + "::"@ + inp.name,
            inp.owner,
            levels,
            n,
            all,
        );
    }
    assert(all[list.len() + k] == all[i]);
    if inp.levels.len() > 1 {
        let sorted = sorted_levels(inp.levels);
        assert(levels[k] == Some(sorted[k]));
        assert(sorted.contains(sorted[k]));
        lemma_sorted(inp.levels);
    }
}

/// A subscription is that of its group: it has the group's name, and the filter of the
/// callback, or of the struct, that the group begins with.
pub proof fn law_subscriptions_have_the_filter_of_their_callback(
    gs: Seq<GroupModel>,
    group: GroupModel,
    s: SubscriptionModel,
    k: int,
)
    requires
        subscription_of(gs, group) == Ok::<SubscriptionModel, DecodeError>(s),
        0 <= k < group.inputs.len(),
        group.inputs[k].kind == InputKind::Callback || group.inputs[k].kind
            == InputKind::CallbackGroup,
        forall|i: int|
            0 <= i < k ==> (#[trigger] group.inputs[i]).kind != InputKind::Callback
                && group.inputs[i].kind != InputKind::CallbackGroup,
    ensures
        s.as_str == group.name,
        s.filter == group.inputs[k].filter,
{
    lemma_filter_from(group.inputs, 0, k);
}

proof fn lemma_filter_from(inputs: Seq<InputModel>, i: int, k: int)
    requires
        0 <= i <= k < inputs.len(),
        inputs[k].kind == InputKind::Callback || inputs[k].kind == InputKind::CallbackGroup,
        forall|j: int|
            i <= j < k ==> (#[trigger] inputs[j]).kind != InputKind::Callback && inputs[j].kind
                != InputKind::CallbackGroup,
    ensures
        filter_from(inputs, i) == Some(inputs[k].filter),
    decreases k - i,
{
    if i < k {
        lemma_filter_from(inputs, i + 1, k);
    }
}

/// Once its patterns are known, a subscription is what it was, except that its one callback
/// may be invoked once only; one at a level that recurs, or at the end of the connection, never
/// is.
pub proof fn law_finished_subscriptions_are_what_they_were(
    s: SubscriptionModel,
    patterns: Seq<FlatPattern>,
    preds: Seq<CustomModel>,
    i: int,
)
    requires
        0 <= i < s.callbacks.len(),
        !s.callbacks[i].invoke_once,
    ensures
        ({
            let after = finished(s, patterns, preds);
            &&& after.filter == s.filter
            &&& after.as_str == s.as_str
            &&& after.callbacks.len() == s.callbacks.len()
            &&& after.callbacks[i] == (CallbackModel {
                invoke_once: after.callbacks[i].invoke_once,
                ..s.callbacks[i]
            })
            &&& after.callbacks[i].invoke_once ==> s.callbacks.len() == 1 && (
            s.callbacks[i].expl_level matches Some(l) ==> !recurs(l) && l
                != StateTransition::L4Terminated)
        }),
{
}

} // verus!
