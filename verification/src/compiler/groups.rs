//! Annotations, grouped by the struct or function that they belong to.

use crate::compiler::input::{DatatypeSpec, InputKind, InputModel, ParsedInput};
use crate::compiler::names::{
    ascending, law_names_stay_ascending, lemma_place_splits, name_less, place, with_name,
};
use crate::compiler::DecodeError;
use crate::conntrack::conn_state::StateTransition;
use crate::text::str_eq;
use vstd::prelude::*;
use vstd::string::*;

verus! {

/// The annotations that belong to one struct, or to one function.
#[derive(Debug)]
pub struct Group {
    pub name: String,
    pub inputs: Vec<ParsedInput>,
}

/// A group, with its annotations as models.
pub struct GroupModel {
    pub name: Seq<char>,
    pub inputs: Seq<InputModel>,
}

/// Annotations, as models.
pub open spec fn inputs_view(v: Seq<ParsedInput>) -> Seq<InputModel> {
    Seq::new(v.len(), |i: int| v[i]@)
}

impl View for Group {
    type V = GroupModel;

    open spec fn view(&self) -> GroupModel {
        GroupModel { name: self.name@, inputs: inputs_view(self.inputs@) }
    }
}

/// Groups, as models.
pub open spec fn groups_view(v: Seq<Group>) -> Seq<GroupModel> {
    Seq::new(v.len(), |i: int| v[i]@)
}

/// The names of some groups.
pub open spec fn group_names(gs: Seq<GroupModel>) -> Seq<Seq<char>> {
    Seq::new(gs.len(), |i: int| gs[i].name)
}

/// There is a group with the name at its place.
pub open spec fn has_group(gs: Seq<GroupModel>, name: Seq<char>) -> bool {
    let p = place(group_names(gs), name);
    p < gs.len() && gs[p].name == name
}

/// The annotations of the group with a name.
pub open spec fn group_inputs(gs: Seq<GroupModel>, name: Seq<char>) -> Seq<InputModel> {
    gs[place(group_names(gs), name)].inputs
}

/// The groups with an annotation added to the one with a name, which is made in its place if
/// there is none.
pub open spec fn filed(gs: Seq<GroupModel>, name: Seq<char>, inp: InputModel) -> Seq<GroupModel> {
    let p = place(group_names(gs), name);
    if has_group(gs, name) {
        gs.update(p, GroupModel { name, inputs: gs[p].inputs.push(inp) })
    } else {
        gs.insert(p, GroupModel { name, inputs: seq![inp] })
    }
}

/// The groups with an annotation as the only one under its name.
pub open spec fn replaced(gs: Seq<GroupModel>, name: Seq<char>, inp: InputModel) -> Seq<
    GroupModel,
> {
    let p = place(group_names(gs), name);
    if has_group(gs, name) {
        gs.update(p, GroupModel { name, inputs: seq![inp] })
    } else {
        gs.insert(p, GroupModel { name, inputs: seq![inp] })
    }
}

/// Filing an annotation keeps the groups in alphabetical order, each name once: whatever is
/// made of them does not depend on the order in which groups were declared.
pub proof fn law_groups_stay_in_order(gs: Seq<GroupModel>, name: Seq<char>, inp: InputModel)
    requires
        ascending(group_names(gs)),
    ensures
        ascending(group_names(filed(gs, name, inp))),
        ascending(group_names(replaced(gs, name, inp))),
        group_names(filed(gs, name, inp)) == with_name(group_names(gs), name),
        group_names(replaced(gs, name, inp)) == with_name(group_names(gs), name),
        has_group(gs, name) <==> group_names(gs).contains(name),
{
    let names = group_names(gs);
    let p = place(names, name);
    lemma_place_splits(names, name);
    law_names_stay_ascending(names, name);
    if has_group(gs, name) {
        assert(names[p] == name);
        assert(group_names(filed(gs, name, inp)) =~= names);
        assert(group_names(replaced(gs, name, inp)) =~= names);
    } else {
        assert(group_names(filed(gs, name, inp)) =~= names.insert(p, name));
        assert(group_names(replaced(gs, name, inp)) =~= names.insert(p, name));
    }
}

/// Finds the place of a name.
pub fn find_place(groups: &Vec<Group>, name: &str) -> (p: usize)
    ensures
        p == place(group_names(groups_view(groups@)), name@),
        p <= groups@.len(),
{
    let ghost all = group_names(groups_view(groups@));
    let mut i: usize = 0;
    assert(all.skip(0) =~= all);
    while i < groups.len() && name_less(groups[i].name.as_str(), name)
        invariant
            i <= groups@.len(),
            all == group_names(groups_view(groups@)),
            place(all, name@) == i + place(all.skip(i as int), name@),
        decreases groups@.len() - i,
    {
        assert(all.skip(i as int)[0] == groups@[i as int].name@);
        assert(all.skip(i as int).skip(1) =~= all.skip(i + 1));
        i = i + 1;
    }
    assert(i < groups@.len() ==> all.skip(i as int)[0] == groups@[i as int].name@);
    i
}

/// The annotations of the group with a name.
pub fn find_group<'a>(groups: &'a Vec<Group>, name: &str) -> (r: Option<&'a Group>)
    ensures
        match r {
            Some(g) => has_group(groups_view(groups@), name@) && g@.name == name@ && g@.inputs
                == group_inputs(groups_view(groups@), name@),
            None => !has_group(groups_view(groups@), name@),
        },
{
    let p: usize = find_place(groups, name);
    if p < groups.len() && str_eq(groups[p].name.as_str(), name) {
        Some(&groups[p])
    } else {
        None
    }
}

fn single(name: &str, inp: ParsedInput) -> (g: Group)
    ensures
        g@ == (GroupModel { name: name@, inputs: seq![inp@] }),
{
    let mut inputs: Vec<ParsedInput> = Vec::new();
    inputs.push(inp);
    assert(inputs_view(inputs@) =~= seq![inp@]);
    Group { name: name.to_owned(), inputs }
}

/// Adds an annotation to the group with a name.
pub fn file_input(groups: &mut Vec<Group>, name: &str, inp: ParsedInput)
    ensures
        groups_view(final(groups)@) == filed(groups_view(old(groups)@), name@, inp@),
{
    let ghost before = groups_view(groups@);
    let p: usize = find_place(groups, name);
    if p < groups.len() && str_eq(groups[p].name.as_str(), name) {
        let ghost inputs = groups@[p as int].inputs@;
        let ghost old_name = groups@[p as int].name;
        groups[p].inputs.push(inp);
        assert(inputs_view(groups@[p as int].inputs@) =~= inputs_view(inputs).push(inp@));
        assert(groups_view(groups@) =~= filed(before, name@, inp@));
    } else {
        groups.insert(p, single(name, inp));
        assert(groups_view(groups@) =~= filed(before, name@, inp@));
    }
}

/// Makes an annotation the only one under its name.
pub fn replace_input(groups: &mut Vec<Group>, name: &str, inp: ParsedInput)
    ensures
        groups_view(final(groups)@) == replaced(groups_view(old(groups)@), name@, inp@),
{
    let ghost before = groups_view(groups@);
    let p: usize = find_place(groups, name);
    if p < groups.len() && str_eq(groups[p].name.as_str(), name) {
        groups.set(p, single(name, inp));
    } else {
        groups.insert(p, single(name, inp));
    }
    assert(groups_view(groups@) =~= replaced(before, name@, inp@));
}

/// All annotations of an application, grouped.
#[derive(Debug)]
pub struct RawInputs {
    pub filters: Vec<Group>,
    pub datatypes: Vec<Group>,
    pub cbs: Vec<Group>,
}

/// The groups of an application, as models.
pub struct RawModel {
    pub filters: Seq<GroupModel>,
    pub datatypes: Seq<GroupModel>,
    pub cbs: Seq<GroupModel>,
}

impl View for RawInputs {
    type V = RawModel;

    open spec fn view(&self) -> RawModel {
        RawModel {
            filters: groups_view(self.filters@),
            datatypes: groups_view(self.datatypes@),
            cbs: groups_view(self.cbs@),
        }
    }
}

/// The groups with one more annotation. A filter function takes the place of what was under
/// its name; there can be only one callback with a name.
pub open spec fn raw_step(r: RawModel, inp: InputModel) -> Result<RawModel, DecodeError> {
    match inp.kind {
        InputKind::Datatype | InputKind::DatatypeFn => Ok(
            RawModel { datatypes: filed(r.datatypes, inp.owner, inp), ..r },
        ),
        InputKind::Filter => Ok(RawModel { filters: replaced(r.filters, inp.owner, inp), ..r }),
        InputKind::FilterGroup | InputKind::FilterGroupFn => Ok(
            RawModel { filters: filed(r.filters, inp.owner, inp), ..r },
        ),
        InputKind::Callback => if has_group(r.cbs, inp.owner) {
            Err(DecodeError::CallbackDefinedTwice)
        } else {
            Ok(RawModel { cbs: filed(r.cbs, inp.owner, inp), ..r })
        },
        InputKind::CallbackGroup | InputKind::CallbackGroupFn => Ok(
            RawModel { cbs: filed(r.cbs, inp.owner, inp), ..r },
        ),
    }
}

/// The groups with some more annotations.
pub open spec fn raw_fold(r: RawModel, inputs: Seq<InputModel>) -> Result<RawModel, DecodeError>
    decreases inputs.len(),
{
    if inputs.len() == 0 {
        Ok(r)
    } else {
        match raw_fold(r, inputs.drop_last()) {
            Ok(before) => raw_step(before, inputs.last()),
            Err(e) => Err(e),
        }
    }
}

/// A datatype that needs no definition.
pub open spec fn builtin(name: Seq<char>, level: StateTransition) -> InputModel {
    InputModel {
        kind: InputKind::Datatype,
        name,
        owner: name,
        datatypes: Seq::empty(),
        returns: None,
        levels: seq![level],
        parsers: Seq::empty(),
        filter: Seq::empty(),
        filtered: false,
    }
}

/// The datatypes that need no definition. `Packet` stands in for any level.
pub open spec fn builtin_types() -> Seq<InputModel> {
    seq![
        builtin("L4Pdu"@, StateTransition::Packet),
        builtin("FilterStr"@, StateTransition::Packet),
        builtin("StateTxData"@, StateTransition::Packet),
        builtin("Session"@, StateTransition::L7EndHdrs),
        builtin("SessionProto"@, StateTransition::L7OnDisc),
        builtin("CoreId"@, StateTransition::Packet),
        builtin("StateTransition"@, StateTransition::Packet),
    ]
}

/// Nothing has been filed yet.
pub open spec fn no_groups() -> RawModel {
    RawModel { filters: Seq::empty(), datatypes: Seq::empty(), cbs: Seq::empty() }
}

/// The groups of an application.
pub open spec fn raw_groups(inputs: Seq<InputModel>) -> Result<RawModel, DecodeError> {
    raw_fold(no_groups(), builtin_types() + inputs)
}

fn builtin_input(name: &str, level: StateTransition) -> (r: ParsedInput)
    ensures
        r@ == builtin(name@, level),
{
    let r = ParsedInput::Datatype(
        DatatypeSpec {
            name: name.to_owned(),
            level: Some(level),
            expl_parsers: Vec::new(),
            filtered: false,
        },
    );
    assert(r@.parsers =~= Seq::empty());
    assert(r@.levels =~= seq![level]);
    r
}

impl RawInputs {
    /// Files one annotation.
    fn add(&mut self, inp: ParsedInput) -> (r: Result<(), DecodeError>)
        ensures
            match r {
                Ok(()) => raw_step(old(self)@, inp@) == Ok::<RawModel, DecodeError>(final(self)@),
                Err(e) => raw_step(old(self)@, inp@) == Err::<RawModel, DecodeError>(e),
            },
    {
        let name = inp.group().to_owned();
        match inp.kind() {
            InputKind::Datatype | InputKind::DatatypeFn => {
                file_input(&mut self.datatypes, name.as_str(), inp);
            },
            InputKind::Filter => {
                replace_input(&mut self.filters, name.as_str(), inp);
            },
            InputKind::FilterGroup | InputKind::FilterGroupFn => {
                file_input(&mut self.filters, name.as_str(), inp);
            },
            InputKind::Callback => {
                if find_group(&self.cbs, name.as_str()).is_some() {
                    return Err(DecodeError::CallbackDefinedTwice);
                }
                file_input(&mut self.cbs, name.as_str(), inp);
            },
            InputKind::CallbackGroup | InputKind::CallbackGroupFn => {
                file_input(&mut self.cbs, name.as_str(), inp);
            },
        }
        Ok(())
    }

    /// Groups annotations by name, together with the datatypes that need no definition.
    pub fn parse_raw(inputs: &Vec<ParsedInput>) -> (r: Result<RawInputs, DecodeError>)
        ensures
            match r {
                Ok(raw) => raw_groups(inputs_view(inputs@)) == Ok::<RawModel, DecodeError>(raw@),
                Err(e) => raw_groups(inputs_view(inputs@)) == Err::<RawModel, DecodeError>(e),
            },
    {
        let mut raw = RawInputs { filters: Vec::new(), datatypes: Vec::new(), cbs: Vec::new() };
        assert(raw@.filters =~= Seq::empty());
        assert(raw@.datatypes =~= Seq::empty());
        assert(raw@.cbs =~= Seq::empty());
        let mut builtins: Vec<ParsedInput> = Vec::new();
        builtins.push(builtin_input("L4Pdu", StateTransition::Packet));
        builtins.push(builtin_input("FilterStr", StateTransition::Packet));
        builtins.push(builtin_input("StateTxData", StateTransition::Packet));
        builtins.push(builtin_input("Session", StateTransition::L7EndHdrs));
        builtins.push(builtin_input("SessionProto", StateTransition::L7OnDisc));
        builtins.push(builtin_input("CoreId", StateTransition::Packet));
        builtins.push(builtin_input("StateTransition", StateTransition::Packet));
        assert(inputs_view(builtins@) =~= builtin_types());
        match raw.add_all(&builtins) {
            Ok(()) => {},
            Err(e) => {
                proof {
                    lemma_raw_fold_append(
                        no_groups(),
                        builtin_types(),
                        inputs_view(inputs@),
                    );
                }
                return Err(e);
            },
        }
        proof {
            lemma_raw_fold_append(no_groups(), builtin_types(), inputs_view(inputs@));
        }
        match raw.add_all(inputs) {
            Ok(()) => Ok(raw),
            Err(e) => Err(e),
        }
    }

    fn add_all(&mut self, inputs: &Vec<ParsedInput>) -> (r: Result<(), DecodeError>)
        ensures
            match r {
                Ok(()) => raw_fold(old(self)@, inputs_view(inputs@)) == Ok::<
                    RawModel,
                    DecodeError,
                >(final(self)@),
                Err(e) => raw_fold(old(self)@, inputs_view(inputs@)) == Err::<
                    RawModel,
                    DecodeError,
                >(e),
            },
    {
        let ghost all = inputs_view(inputs@);
        let mut i: usize = 0;
        assert(all.take(0) =~= Seq::empty());
        while i < inputs.len()
            invariant
                i <= inputs@.len(),
                all == inputs_view(inputs@),
                raw_fold(old(self)@, all.take(i as int)) == Ok::<RawModel, DecodeError>(self@),
            decreases inputs@.len() - i,
        {
            assert(all.take(i + 1).drop_last() =~= all.take(i as int));
            assert(all.take(i + 1).last() == inputs@[i as int]@);
            match self.add(inputs[i].copy()) {
                Ok(()) => {},
                Err(e) => {
                    proof {
                        lemma_raw_fold_error(old(self)@, all, i + 1, e);
                    }
                    return Err(e);
                },
            }
            i = i + 1;
        }
        assert(all.take(i as int) =~= all);
        Ok(())
    }
}

proof fn lemma_raw_fold_error(r: RawModel, inputs: Seq<InputModel>, n: int, e: DecodeError)
    requires
        0 <= n <= inputs.len(),
        raw_fold(r, inputs.take(n)) == Err::<RawModel, DecodeError>(e),
    ensures
        raw_fold(r, inputs) == Err::<RawModel, DecodeError>(e),
    decreases inputs.len() - n,
{
    if n == inputs.len() {
        assert(inputs.take(n) =~= inputs);
    } else {
        assert(inputs.take(n + 1).drop_last() =~= inputs.take(n));
        lemma_raw_fold_error(r, inputs, n + 1, e);
    }
}

proof fn lemma_raw_fold_append(r: RawModel, a: Seq<InputModel>, b: Seq<InputModel>)
    ensures
        raw_fold(r, a + b) == (match raw_fold(r, a) {
            Ok(mid) => raw_fold(mid, b),
            Err(e) => Err(e),
        }),
    decreases b.len(),
{
    if b.len() == 0 {
        assert(a + b =~= a);
    } else {
        lemma_raw_fold_append(r, a, b.drop_last());
        assert((a + b).drop_last() =~= a + b.drop_last());
        assert((a + b).last() == b.last());
    }
}

} // verus!
