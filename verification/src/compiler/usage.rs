//! Which filters, datatypes and parsers an application needs.

use crate::compiler::groups::{groups_view, inputs_view, Group, GroupModel};
use crate::compiler::input::{InputModel, ParsedInput};
use crate::compiler::names::{add_name, has_name, is_part, occurs_in, texts, with_name};
use crate::compiler::subscriptions::{subscriptions_view, SubscriptionModel, SubscriptionSpec};
use crate::filter::pattern::{FlatPattern, Predicate, PredicateModel};
use vstd::prelude::*;
use vstd::string::*;

verus! {

/// Some subscription's filter refers to the name.
pub open spec fn is_used(subs: Seq<SubscriptionModel>, name: Seq<char>) -> bool {
    exists|i: int| 0 <= i < subs.len() && occurs_in(name, (#[trigger] subs[i]).filter)
}

/// Those of the first `n` groups that are kept.
pub open spec fn used_filters(fs: Seq<GroupModel>, subs: Seq<SubscriptionModel>, n: int) -> Seq<
    GroupModel,
>
    decreases n,
{
    if n <= 0 {
        Seq::empty()
    } else {
        let before = used_filters(fs, subs, n - 1);
        if is_used(subs, fs[n - 1].name) {
            before.push(fs[n - 1])
        } else {
            before
        }
    }
}

/// Some function in the groups takes the datatype.
pub open spec fn is_taken(gs: Seq<GroupModel>, name: Seq<char>) -> bool {
    exists|i: int, j: int|
        0 <= i < gs.len() && 0 <= j < gs[i].inputs.len() && (
        #[trigger] gs[i].inputs[j]).datatypes.contains(name)
}

/// Those of the first `n` datatypes that some filter or callback takes.
pub open spec fn used_datatypes(
    ds: Seq<GroupModel>,
    filters: Seq<GroupModel>,
    cbs: Seq<GroupModel>,
    n: int,
) -> Seq<GroupModel>
    decreases n,
{
    if n <= 0 {
        Seq::empty()
    } else {
        let before = used_datatypes(ds, filters, cbs, n - 1);
        if is_taken(filters, ds[n - 1].name) || is_taken(cbs, ds[n - 1].name) {
            before.push(ds[n - 1])
        } else {
            before
        }
    }
}

/// A datatype is kept exactly if it was defined and some filter or callback takes it.
pub proof fn law_kept_datatypes_are_those_taken(
    ds: Seq<GroupModel>,
    filters: Seq<GroupModel>,
    cbs: Seq<GroupModel>,
    n: int,
    g: GroupModel,
)
    requires
        0 <= n <= ds.len(),
    ensures
        used_datatypes(ds, filters, cbs, n).contains(g) <==> ds.take(n).contains(g) && (is_taken(
            filters,
            g.name,
        ) || is_taken(cbs, g.name)),
    decreases n,
{
    if n > 0 {
        law_kept_datatypes_are_those_taken(ds, filters, cbs, n - 1, g);
        let before = used_datatypes(ds, filters, cbs, n - 1);
        let after = used_datatypes(ds, filters, cbs, n);
        assert(ds.take(n) =~= ds.take(n - 1).push(ds[n - 1]));
        lemma_push_contains(ds.take(n - 1), ds[n - 1], g);
        lemma_push_contains(before, ds[n - 1], g);
    } else {
        assert(ds.take(0) =~= Seq::empty());
    }
}

proof fn lemma_push_contains<A>(s: Seq<A>, a: A, x: A)
    ensures
        s.push(a).contains(x) <==> s.contains(x) || x == a,
{
    if s.contains(x) {
        let k = choose|k: int| 0 <= k < s.len() && s[k] == x;
        assert(s.push(a)[k] == x);
    }
    assert(s.push(a)[s.len() as int] == a);
    if s.push(a).contains(x) {
        let k = choose|k: int| 0 <= k < s.push(a).len() && s.push(a)[k] == x;
        if k < s.len() {
            assert(s[k] == x);
        }
    }
}

fn is_filter_used(subs: &Vec<SubscriptionSpec>, name: &str) -> (b: bool)
    ensures
        b == is_used(subscriptions_view(subs@), name@),
{
    let mut i: usize = 0;
    while i < subs.len()
        invariant
            i <= subs@.len(),
            forall|j: int|
                0 <= j < i ==> !occurs_in(name@, (#[trigger] subscriptions_view(subs@)[j]).filter),
        decreases subs@.len() - i,
    {
        assert(subscriptions_view(subs@)[i as int] == subs@[i as int]@);
        if is_part(name, subs[i].filter.as_str()) {
            return true;
        }
        i = i + 1;
    }
    false
}

/// Keeps the filters that some subscription uses.
pub fn prune_filters(filters: Vec<Group>, subs: &Vec<SubscriptionSpec>) -> (r: Vec<Group>)
    ensures
        groups_view(r@) == used_filters(
            groups_view(filters@),
            subscriptions_view(subs@),
            filters@.len() as int,
        ),
{
    let ghost all = groups_view(filters@);
    let ghost ss = subscriptions_view(subs@);
    let mut rest = filters;
    let mut kept: Vec<Group> = Vec::new();
    let ghost mut i: int = 0;
    assert(groups_view(kept@) =~= Seq::empty());
    while rest.len() > 0
        invariant
            0 <= i,
            i + rest@.len() == all.len(),
            ss == subscriptions_view(subs@),
            forall|k: int| 0 <= k < rest@.len() ==> (#[trigger] rest@[k])@ == all[i + k],
            groups_view(kept@) == used_filters(all, ss, i),
        decreases rest@.len(),
    {
        let ghost before = groups_view(kept@);
        let group = rest.remove(0);
        let ghost added = group@;
        assert(added == all[i]);
        if is_filter_used(subs, group.name.as_str()) {
            kept.push(group);
            assert(groups_view(kept@) =~= before.push(added));
        }
        proof {
            i = i + 1;
        }
    }
    kept
}

fn is_datatype_taken(groups: &Vec<Group>, name: &str) -> (b: bool)
    ensures
        b == is_taken(groups_view(groups@), name@),
{
    let ghost gs = groups_view(groups@);
    let mut i: usize = 0;
    while i < groups.len()
        invariant
            i <= groups@.len(),
            gs == groups_view(groups@),
            forall|k: int, j: int|
                0 <= k < i && 0 <= j < gs[k].inputs.len() ==> !(
                #[trigger] gs[k].inputs[j]).datatypes.contains(name@),
        decreases groups@.len() - i,
    {
        assert(gs[i as int] == groups@[i as int]@);
        let mut j: usize = 0;
        while j < groups[i].inputs.len()
            invariant
                i < groups@.len(),
                j <= groups@[i as int].inputs@.len(),
                gs == groups_view(groups@),
                gs[i as int] == groups@[i as int]@,
                forall|k: int|
                    0 <= k < j ==> !(#[trigger] gs[i as int].inputs[k]).datatypes.contains(name@),
            decreases groups@[i as int].inputs@.len() - j,
        {
            assert(gs[i as int].inputs[j as int] == groups@[i as int].inputs@[j as int]@);
            if takes_datatype(&groups[i].inputs[j], name) {
                return true;
            }
            j = j + 1;
        }
        i = i + 1;
    }
    false
}

fn takes_datatype(inp: &ParsedInput, name: &str) -> (b: bool)
    ensures
        b == inp@.datatypes.contains(name@),
{
    match inp.func() {
        Some(func) => has_name(&func.datatypes, name),
        None => false,
    }
}

/// Keeps the datatypes that some filter or callback takes.
pub fn prune_datatypes(datatypes: Vec<Group>, filters: &Vec<Group>, cbs: &Vec<Group>) -> (r: Vec<
    Group,
>)
    ensures
        groups_view(r@) == used_datatypes(
            groups_view(datatypes@),
            groups_view(filters@),
            groups_view(cbs@),
            datatypes@.len() as int,
        ),
{
    let ghost all = groups_view(datatypes@);
    let ghost fs = groups_view(filters@);
    let ghost cs = groups_view(cbs@);
    let mut rest = datatypes;
    let mut kept: Vec<Group> = Vec::new();
    let ghost mut i: int = 0;
    assert(groups_view(kept@) =~= Seq::empty());
    while rest.len() > 0
        invariant
            0 <= i,
            i + rest@.len() == all.len(),
            fs == groups_view(filters@),
            cs == groups_view(cbs@),
            forall|k: int| 0 <= k < rest@.len() ==> (#[trigger] rest@[k])@ == all[i + k],
            groups_view(kept@) == used_datatypes(all, fs, cs, i),
        decreases rest@.len(),
    {
        let ghost before = groups_view(kept@);
        let group = rest.remove(0);
        let ghost added = group@;
        assert(added == all[i]);
        if is_datatype_taken(filters, group.name.as_str()) || is_datatype_taken(
            cbs,
            group.name.as_str(),
        ) {
            kept.push(group);
            assert(groups_view(kept@) =~= before.push(added));
        }
        proof {
            i = i + 1;
        }
    }
    kept
}

/// Names with the first `n` of some others that are not empty.
pub open spec fn with_names(list: Seq<Seq<char>>, more: Seq<Seq<char>>, n: int) -> Seq<Seq<char>>
    decreases n,
{
    if n <= 0 {
        list
    } else {
        let before = with_names(list, more, n - 1);
        if more[n - 1].len() > 0 {
            with_name(before, more[n - 1])
        } else {
            before
        }
    }
}

/// Parsers with those that the first `n` annotations of a group ask for.
pub open spec fn with_input_parsers(list: Seq<Seq<char>>, inputs: Seq<InputModel>, n: int) -> Seq<
    Seq<char>,
>
    decreases n,
{
    if n <= 0 {
        list
    } else {
        with_names(
            with_input_parsers(list, inputs, n - 1),
            inputs[n - 1].parsers,
            inputs[n - 1].parsers.len() as int,
        )
    }
}

/// Parsers with those that the first `n` groups ask for.
pub open spec fn with_group_parsers(list: Seq<Seq<char>>, gs: Seq<GroupModel>, n: int) -> Seq<
    Seq<char>,
>
    decreases n,
{
    if n <= 0 {
        list
    } else {
        with_input_parsers(
            with_group_parsers(list, gs, n - 1),
            gs[n - 1].inputs,
            gs[n - 1].inputs.len() as int,
        )
    }
}

/// Parsers that annotations ask for by name, in alphabetical order.
pub open spec fn declared_parsers(
    filters: Seq<GroupModel>,
    datatypes: Seq<GroupModel>,
    cbs: Seq<GroupModel>,
) -> Seq<Seq<char>> {
    with_group_parsers(
        with_group_parsers(
            with_group_parsers(Seq::empty(), filters, filters.len() as int),
            datatypes,
            datatypes.len() as int,
        ),
        cbs,
        cbs.len() as int,
    )
}

fn add_names(list: &mut Vec<String>, more: &Vec<String>)
    ensures
        texts(final(list)@) == with_names(
            texts(old(list)@),
            texts(more@),
            more@.len() as int,
        ),
{
    let mut i: usize = 0;
    while i < more.len()
        invariant
            i <= more@.len(),
            texts(list@) == with_names(texts(old(list)@), texts(more@), i as int),
        decreases more@.len() - i,
    {
        assert(texts(more@)[i as int] == more@[i as int]@);
        if more[i].as_str().unicode_len() > 0 {
            add_name(list, more[i].as_str());
        }
        i = i + 1;
    }
}

fn add_input_parsers(list: &mut Vec<String>, inputs: &Vec<ParsedInput>)
    ensures
        texts(final(list)@) == with_input_parsers(
            texts(old(list)@),
            inputs_view(inputs@),
            inputs@.len() as int,
        ),
{
    let mut i: usize = 0;
    while i < inputs.len()
        invariant
            i <= inputs@.len(),
            texts(list@) == with_input_parsers(
                texts(old(list)@),
                inputs_view(inputs@),
                i as int,
            ),
        decreases inputs@.len() - i,
    {
        assert(inputs_view(inputs@)[i as int] == inputs@[i as int]@);
        add_names(list, &inputs[i].expl_parsers());
        i = i + 1;
    }
}

fn add_group_parsers(list: &mut Vec<String>, groups: &Vec<Group>)
    ensures
        texts(final(list)@) == with_group_parsers(
            texts(old(list)@),
            groups_view(groups@),
            groups@.len() as int,
        ),
{
    let mut i: usize = 0;
    while i < groups.len()
        invariant
            i <= groups@.len(),
            texts(list@) == with_group_parsers(
                texts(old(list)@),
                groups_view(groups@),
                i as int,
            ),
        decreases groups@.len() - i,
    {
        assert(groups_view(groups@)[i as int] == groups@[i as int]@);
        add_input_parsers(list, &groups[i].inputs);
        i = i + 1;
    }
}

/// Collects the parsers that annotations ask for by name.
pub fn add_parsers(filters: &Vec<Group>, datatypes: &Vec<Group>, cbs: &Vec<Group>) -> (r: Vec<
    String,
>)
    ensures
        texts(r@) == declared_parsers(
            groups_view(filters@),
            groups_view(datatypes@),
            groups_view(cbs@),
        ),
{
    let mut r: Vec<String> = Vec::new();
    assert(texts(r@) =~= Seq::empty());
    add_group_parsers(&mut r, filters);
    add_group_parsers(&mut r, datatypes);
    add_group_parsers(&mut r, cbs);
    r
}

/// Parsers with those that the first `n` predicates of a pattern need: one for each
/// application-layer protocol that is asked for.
pub open spec fn with_pattern_parsers(
    list: Seq<Seq<char>>,
    pattern: Seq<PredicateModel>,
    n: int,
) -> Seq<Seq<char>>
    decreases n,
{
    if n <= 0 {
        list
    } else {
        let before = with_pattern_parsers(list, pattern, n - 1);
        match pattern[n - 1] {
            PredicateModel::Unary { protocol } => if protocol.claimed() {
                with_name(before, protocol.name_of())
            } else {
                before
            },
            _ => before,
        }
    }
}

/// Parsers with those that the first `n` patterns need.
pub open spec fn with_filter_parsers(
    list: Seq<Seq<char>>,
    patterns: Seq<FlatPattern>,
    n: int,
) -> Seq<Seq<char>>
    decreases n,
{
    if n <= 0 {
        list
    } else {
        with_pattern_parsers(
            with_filter_parsers(list, patterns, n - 1),
            patterns[n - 1]@,
            patterns[n - 1]@.len() as int,
        )
    }
}

fn add_pattern_parsers(list: &mut Vec<String>, pattern: &FlatPattern)
    ensures
        texts(final(list)@) == with_pattern_parsers(
            texts(old(list)@),
            pattern@,
            pattern@.len() as int,
        ),
{
    let mut i: usize = 0;
    while i < pattern.predicates.len()
        invariant
            i <= pattern.predicates@.len(),
            texts(list@) == with_pattern_parsers(texts(old(list)@), pattern@, i as int),
        decreases pattern.predicates@.len() - i,
    {
        assert(pattern@[i as int] == pattern.predicates@[i as int]@);
        match &pattern.predicates[i] {
            Predicate::Unary { protocol } => {
                if protocol.is_claimed() {
                    add_name(list, protocol.name());
                }
            },
            _ => {},
        }
        i = i + 1;
    }
}

/// Adds the parsers that the patterns of a filter need.
pub fn add_filter_parsers(list: &mut Vec<String>, patterns: &Vec<FlatPattern>)
    ensures
        texts(final(list)@) == with_filter_parsers(
            texts(old(list)@),
            patterns@,
            patterns@.len() as int,
        ),
{
    let mut i: usize = 0;
    while i < patterns.len()
        invariant
            i <= patterns@.len(),
            texts(list@) == with_filter_parsers(texts(old(list)@), patterns@, i as int),
        decreases patterns@.len() - i,
    {
        add_pattern_parsers(list, &patterns[i]);
        i = i + 1;
    }
}

} // verus!
