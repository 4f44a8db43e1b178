//! Subscriptions: callbacks, and what they need before they can be invoked.

use crate::compiler::filters::{
    filtered_among, filtered_names, preds_view, CustomModel, CustomPred,
};
use crate::compiler::groups::{
    find_group, group_inputs, groups_view, has_group, inputs_view, Group, GroupModel,
};
use crate::compiler::input::{InputKind, InputModel, ParsedInput};
use crate::compiler::levels::{
    any_streaming, append_levels, has_level, has_streaming, sort_levels, sorted_levels,
};
use crate::compiler::names::{has_name, texts};
use crate::compiler::DecodeError;
use crate::conntrack::conn_state::StateTransition;
use crate::filter::pattern::{FlatPattern, Predicate, PredicateModel};
use crate::text::str_eq;
use vstd::prelude::*;
use vstd::string::*;

verus! {

/// A datatype, and the levels at which it changes.
#[derive(Debug)]
pub struct StateTransitionSpec {
    pub name: String,
    pub updates: Vec<StateTransition>,
}

/// A datatype and its levels, as sequences.
pub struct TxModel {
    pub name: Seq<char>,
    pub updates: Seq<StateTransition>,
}

impl View for StateTransitionSpec {
    type V = TxModel;

    open spec fn view(&self) -> TxModel {
        TxModel { name: self.name@, updates: self.updates@ }
    }
}

/// The levels of the first `n` annotations of a datatype.
pub open spec fn updates_of(inputs: Seq<InputModel>, n: int) -> Seq<StateTransition>
    decreases n,
{
    if n <= 0 {
        Seq::empty()
    } else {
        updates_of(inputs, n - 1) + inputs[n - 1].levels
    }
}

/// The datatype that a group defines.
pub open spec fn tx_spec(name: Seq<char>, inputs: Seq<InputModel>) -> TxModel {
    TxModel { name, updates: updates_of(inputs, inputs.len() as int) }
}

/// Datatypes, as models.
pub open spec fn specs_view(v: Seq<StateTransitionSpec>) -> Seq<TxModel> {
    Seq::new(v.len(), |i: int| v[i]@)
}

/// The datatypes that some groups define.
pub open spec fn datatype_specs(gs: Seq<GroupModel>) -> Seq<TxModel> {
    Seq::new(gs.len(), |i: int| tx_spec(gs[i].name, gs[i].inputs))
}

/// A function that data is delivered to.
#[derive(Debug)]
pub struct CallbackSpec {
    /// The level at which it asks to be invoked.
    pub expl_level: Option<StateTransition>,
    pub datatypes: Vec<StateTransitionSpec>,
    /// It takes the pattern that was matched, so each match is delivered.
    pub must_deliver: bool,
    /// It is invoked once for each connection.
    pub invoke_once: bool,
    pub as_str: String,
    pub subscription_id: String,
    /// Expensive datatypes that it takes.
    pub filtered_data: Vec<String>,
}

/// A callback, as sequences.
pub struct CallbackModel {
    pub expl_level: Option<StateTransition>,
    pub datatypes: Seq<TxModel>,
    pub must_deliver: bool,
    pub invoke_once: bool,
    pub as_str: Seq<char>,
    pub subscription_id: Seq<char>,
    pub filtered_data: Seq<Seq<char>>,
}

impl View for CallbackSpec {
    type V = CallbackModel;

    open spec fn view(&self) -> CallbackModel {
        CallbackModel {
            expl_level: self.expl_level,
            datatypes: specs_view(self.datatypes@),
            must_deliver: self.must_deliver,
            invoke_once: self.invoke_once,
            as_str: self.as_str@,
            subscription_id: self.subscription_id@,
            filtered_data: texts(self.filtered_data@),
        }
    }
}

/// Callbacks, as models.
pub open spec fn callbacks_view(v: Seq<CallbackSpec>) -> Seq<CallbackModel> {
    Seq::new(v.len(), |i: int| v[i]@)
}

/// All the datatypes are defined.
pub open spec fn all_defined(gs: Seq<GroupModel>, names: Seq<Seq<char>>) -> bool {
    forall|i: int| 0 <= i < names.len() ==> has_group(gs, #[trigger] names[i])
}

/// The datatypes with some names.
pub open spec fn specs_of(gs: Seq<GroupModel>, names: Seq<Seq<char>>) -> Seq<TxModel> {
    Seq::new(names.len(), |i: int| tx_spec(names[i], group_inputs(gs, names[i])))
}

/// Some datatype recurs.
pub open spec fn any_recurs(specs: Seq<TxModel>) -> bool {
    exists|i: int| 0 <= i < specs.len() && any_streaming((#[trigger] specs[i]).updates)
}

/// Some datatype is complete at the end of the connection only.
pub open spec fn any_terminated(specs: Seq<TxModel>) -> bool {
    exists|i: int|
        0 <= i < specs.len() && (#[trigger] specs[i]).updates.contains(
            StateTransition::L4Terminated,
        )
}

/// The callback that a function is, invoked at a level. It must say at which level if a
/// datatype recurs, and it cannot if a datatype is complete at the end of the connection
/// only.
pub open spec fn callback_of(
    gs: Seq<GroupModel>,
    names: Seq<Seq<char>>,
    as_str: Seq<char>,
    subscription_id: Seq<char>,
    level: Option<StateTransition>,
) -> Result<CallbackModel, DecodeError> {
    let specs = specs_of(gs, names);
    if !all_defined(gs, names) {
        Err(DecodeError::UnknownDatatype)
    } else if any_recurs(specs) && level is None {
        Err(DecodeError::CallbackLevelRequired)
    } else if any_terminated(specs) && level is Some && level != Some(
        StateTransition::L4Terminated,
    ) {
        Err(DecodeError::TerminatedLevel)
    } else {
        Ok(
            CallbackModel {
                expl_level: level,
                datatypes: specs,
                must_deliver: names.contains("FilterStr"@),
                invoke_once: false,
                as_str,
                subscription_id,
                filtered_data: filtered_among(gs, names, names.len() as int),
            },
        )
    }
}

/// The levels that a callback is split by: one callback for each level, if it declares
/// several.
pub open spec fn split_levels(levels: Seq<StateTransition>) -> Seq<Option<StateTransition>> {
    if levels.len() == 0 {
        seq![None]
    } else if levels.len() == 1 {
        seq![Some(levels[0])]
    } else {
        Seq::new(sorted_levels(levels).len(), |i: int| Some(sorted_levels(levels)[i]))
    }
}

/// A list of callbacks with those that a function is at the first `n` of some levels.
pub open spec fn with_callbacks(
    list: Seq<CallbackModel>,
    gs: Seq<GroupModel>,
    names: Seq<Seq<char>>,
    as_str: Seq<char>,
    subscription_id: Seq<char>,
    levels: Seq<Option<StateTransition>>,
    n: int,
) -> Result<Seq<CallbackModel>, DecodeError>
    decreases n,
{
    if n <= 0 {
        Ok(list)
    } else {
        match with_callbacks(list, gs, names, as_str, subscription_id, levels, n - 1) {
            Err(e) => Err(e),
            Ok(before) => match callback_of(gs, names, as_str, subscription_id, levels[n - 1]) {
                Err(e) => Err(e),
                Ok(c) => Ok(before.push(c)),
            },
        }
    }
}

/// A list of callbacks with those that an annotation is.
pub open spec fn with_input(
    list: Seq<CallbackModel>,
    gs: Seq<GroupModel>,
    group: GroupModel,
    inp: InputModel,
) -> Result<Seq<CallbackModel>, DecodeError> {
    let levels = split_levels(inp.levels);
    if inp.kind == InputKind::Callback {
        if group.inputs.len() != 1 {
            Err(DecodeError::ExtraCallback)
        } else {
            with_callbacks(
                list,
                gs,
                inp.datatypes,
                group.name,
                group.name,
                levels,
                levels.len() as int,
            )
        }
    } else if inp.kind == InputKind::CallbackGroupFn {
        with_callbacks(
            list,
            gs,
            inp.datatypes,
            inp.owner + "::"@ + inp.name,
            inp.owner,
            levels,
            levels.len() as int,
        )
    } else {
        Ok(list)
    }
}

/// The callbacks that the first `n` annotations of a group are.
pub open spec fn group_callbacks(gs: Seq<GroupModel>, group: GroupModel, n: int) -> Result<
    Seq<CallbackModel>,
    DecodeError,
>
    decreases n,
{
    if n <= 0 {
        Ok(Seq::empty())
    } else {
        match group_callbacks(gs, group, n - 1) {
            Err(e) => Err(e),
            Ok(before) => with_input(before, gs, group, group.inputs[n - 1]),
        }
    }
}

/// A subscription: its callbacks, its filter, and the patterns that the filter stands for.
#[derive(Debug)]
pub struct SubscriptionSpec {
    pub callbacks: Vec<CallbackSpec>,
    pub filter: String,
    pub as_str: String,
    pub patterns: Option<Vec<FlatPattern>>,
}

/// A subscription, as sequences, without its patterns.
pub struct SubscriptionModel {
    pub callbacks: Seq<CallbackModel>,
    pub filter: Seq<char>,
    pub as_str: Seq<char>,
}

impl View for SubscriptionSpec {
    type V = SubscriptionModel;

    open spec fn view(&self) -> SubscriptionModel {
        SubscriptionModel {
            callbacks: callbacks_view(self.callbacks@),
            filter: self.filter@,
            as_str: self.as_str@,
        }
    }
}

/// Subscriptions, as models.
pub open spec fn subscriptions_view(v: Seq<SubscriptionSpec>) -> Seq<SubscriptionModel> {
    Seq::new(v.len(), |i: int| v[i]@)
}

/// The first annotation at or after `i` that comes with a filter.
pub open spec fn filter_from(inputs: Seq<InputModel>, i: int) -> Option<Seq<char>>
    decreases inputs.len() - i,
{
    if i >= inputs.len() {
        None
    } else if inputs[i].kind == InputKind::Callback || inputs[i].kind
        == InputKind::CallbackGroup {
        Some(inputs[i].filter)
    } else {
        filter_from(inputs, i + 1)
    }
}

/// The subscription that a group of annotations is.
pub open spec fn subscription_of(gs: Seq<GroupModel>, group: GroupModel) -> Result<
    SubscriptionModel,
    DecodeError,
> {
    match filter_from(group.inputs, 0) {
        None => Err(DecodeError::MissingCallback),
        Some(filter) => match group_callbacks(gs, group, group.inputs.len() as int) {
            Err(e) => Err(e),
            Ok(callbacks) => Ok(SubscriptionModel { callbacks, filter, as_str: group.name }),
        },
    }
}

/// The subscriptions that the first `n` groups of annotations are.
pub open spec fn subscriptions_of(gs: Seq<GroupModel>, cbs: Seq<GroupModel>, n: int) -> Result<
    Seq<SubscriptionModel>,
    DecodeError,
>
    decreases n,
{
    if n <= 0 {
        Ok(Seq::empty())
    } else {
        match subscriptions_of(gs, cbs, n - 1) {
            Err(e) => Err(e),
            Ok(before) => match subscription_of(gs, cbs[n - 1]) {
                Err(e) => Err(e),
                Ok(s) => Ok(before.push(s)),
            },
        }
    }
}

proof fn lemma_with_callbacks_error(
    list: Seq<CallbackModel>,
    gs: Seq<GroupModel>,
    names: Seq<Seq<char>>,
    as_str: Seq<char>,
    id: Seq<char>,
    levels: Seq<Option<StateTransition>>,
    k: int,
    n: int,
    e: DecodeError,
)
    requires
        0 <= k <= n,
        with_callbacks(list, gs, names, as_str, id, levels, k) matches Err(f) && f == e,
    ensures
        with_callbacks(list, gs, names, as_str, id, levels, n) matches Err(f) && f == e,
    decreases n - k,
{
    if k < n {
        lemma_with_callbacks_error(list, gs, names, as_str, id, levels, k + 1, n, e);
    }
}

proof fn lemma_group_callbacks_error(
    gs: Seq<GroupModel>,
    group: GroupModel,
    k: int,
    n: int,
    e: DecodeError,
)
    requires
        0 <= k <= n,
        group_callbacks(gs, group, k) matches Err(f) && f == e,
    ensures
        group_callbacks(gs, group, n) matches Err(f) && f == e,
    decreases n - k,
{
    if k < n {
        lemma_group_callbacks_error(gs, group, k + 1, n, e);
    }
}

proof fn lemma_subscriptions_error(
    gs: Seq<GroupModel>,
    cbs: Seq<GroupModel>,
    k: int,
    n: int,
    e: DecodeError,
)
    requires
        0 <= k <= n,
        subscriptions_of(gs, cbs, k) matches Err(f) && f == e,
    ensures
        subscriptions_of(gs, cbs, n) matches Err(f) && f == e,
    decreases n - k,
{
    if k < n {
        lemma_subscriptions_error(gs, cbs, k + 1, n, e);
    }
}

/// A callback that takes a recurring datatype always says at which level it is invoked.
pub proof fn law_recurring_datatypes_come_with_a_level(
    gs: Seq<GroupModel>,
    names: Seq<Seq<char>>,
    as_str: Seq<char>,
    id: Seq<char>,
    level: Option<StateTransition>,
)
    ensures
        callback_of(gs, names, as_str, id, level) matches Ok(c) ==> {
            &&& any_recurs(c.datatypes) ==> c.expl_level is Some
            &&& any_terminated(c.datatypes) ==> c.expl_level is None || c.expl_level == Some(
                StateTransition::L4Terminated,
            )
            &&& !c.invoke_once
        },
{
}

/// The datatype that a group defines.
pub fn decode_datatype(group: &Group) -> (r: StateTransitionSpec)
    ensures
        r@ == tx_spec(group@.name, group@.inputs),
{
    let mut updates: Vec<StateTransition> = Vec::new();
    let mut i: usize = 0;
    assert(updates@ =~= Seq::empty());
    while i < group.inputs.len()
        invariant
            i <= group.inputs@.len(),
            updates@ == updates_of(group@.inputs, i as int),
        decreases group.inputs@.len() - i,
    {
        assert(group@.inputs[i as int] == group.inputs@[i as int]@);
        append_levels(&mut updates, &group.inputs[i].levels());
        i = i + 1;
    }
    StateTransitionSpec { name: group.name.clone(), updates }
}

/// The datatypes of an application.
pub fn decode_datatypes(datatypes: &Vec<Group>) -> (r: Vec<StateTransitionSpec>)
    ensures
        specs_view(r@) == datatype_specs(groups_view(datatypes@)),
{
    let ghost all = datatype_specs(groups_view(datatypes@));
    let mut r: Vec<StateTransitionSpec> = Vec::new();
    let mut i: usize = 0;
    assert(specs_view(r@) =~= all.take(0));
    while i < datatypes.len()
        invariant
            i <= datatypes@.len(),
            all == datatype_specs(groups_view(datatypes@)),
            specs_view(r@) == all.take(i as int),
        decreases datatypes@.len() - i,
    {
        let ghost before = specs_view(r@);
        let spec_of = decode_datatype(&datatypes[i]);
        let ghost added = spec_of@;
        assert(all[i as int] == added);
        r.push(spec_of);
        assert(specs_view(r@) =~= before.push(added));
        assert(all.take(i + 1) =~= all.take(i as int).push(added));
        i = i + 1;
    }
    assert(all.take(i as int) =~= all);
    r
}

fn recurs(specs: &Vec<StateTransitionSpec>) -> (b: bool)
    ensures
        b == any_recurs(specs_view(specs@)),
{
    let mut i: usize = 0;
    while i < specs.len()
        invariant
            i <= specs@.len(),
            forall|j: int| 0 <= j < i ==> !any_streaming((#[trigger] specs_view(specs@)[j]).updates),
        decreases specs@.len() - i,
    {
        assert(specs_view(specs@)[i as int] == specs@[i as int]@);
        if has_streaming(&specs[i].updates) {
            return true;
        }
        i = i + 1;
    }
    false
}

fn terminates(specs: &Vec<StateTransitionSpec>) -> (b: bool)
    ensures
        b == any_terminated(specs_view(specs@)),
{
    let mut i: usize = 0;
    while i < specs.len()
        invariant
            i <= specs@.len(),
            forall|j: int|
                0 <= j < i ==> !(#[trigger] specs_view(specs@)[j]).updates.contains(
                    StateTransition::L4Terminated,
                ),
        decreases specs@.len() - i,
    {
        assert(specs_view(specs@)[i as int] == specs@[i as int]@);
        if has_level(&specs[i].updates, StateTransition::L4Terminated) {
            return true;
        }
        i = i + 1;
    }
    false
}

/// The callback that a function is, invoked at a level.
pub fn spec_to_cbs_int(
    datatypes: &Vec<Group>,
    names: &Vec<String>,
    as_str: &str,
    subscription_id: &str,
    expl_level: Option<StateTransition>,
) -> (r: Result<CallbackSpec, DecodeError>)
    ensures
        match r {
            Ok(c) => callback_of(
                groups_view(datatypes@),
                texts(names@),
                as_str@,
                subscription_id@,
                expl_level,
            ) == Ok::<CallbackModel, DecodeError>(c@),
            Err(e) => callback_of(
                groups_view(datatypes@),
                texts(names@),
                as_str@,
                subscription_id@,
                expl_level,
            ) == Err::<CallbackModel, DecodeError>(e),
        },
{
    let ghost gs = groups_view(datatypes@);
    let ghost all = specs_of(gs, texts(names@));
    let mut specs: Vec<StateTransitionSpec> = Vec::new();
    let mut i: usize = 0;
    assert(specs_view(specs@) =~= all.take(0));
    while i < names.len()
        invariant
            i <= names@.len(),
            gs == groups_view(datatypes@),
            all == specs_of(gs, texts(names@)),
            specs_view(specs@) == all.take(i as int),
            forall|j: int| 0 <= j < i ==> has_group(gs, #[trigger] texts(names@)[j]),
        decreases names@.len() - i,
    {
        let ghost before = specs_view(specs@);
        assert(texts(names@)[i as int] == names@[i as int]@);
        match find_group(datatypes, names[i].as_str()) {
            Some(group) => {
                let found = decode_datatype(group);
                let ghost added = found@;
                assert(all[i as int] == added);
                specs.push(found);
                assert(specs_view(specs@) =~= before.push(added));
                assert(all.take(i + 1) =~= all.take(i as int).push(added));
            },
            None => {
                return Err(DecodeError::UnknownDatatype);
            },
        }
        i = i + 1;
    }
    assert(all.take(i as int) =~= all);
    if recurs(&specs) && expl_level.is_none() {
        return Err(DecodeError::CallbackLevelRequired);
    }
    if terminates(&specs) {
        match expl_level {
            Some(level) => {
                if level != StateTransition::L4Terminated {
                    return Err(DecodeError::TerminatedLevel);
                }
            },
            None => {},
        }
    }
    Ok(
        CallbackSpec {
            expl_level,
            datatypes: specs,
            must_deliver: has_name(names, "FilterStr"),
            invoke_once: false,
            as_str: as_str.to_owned(),
            subscription_id: subscription_id.to_owned(),
            filtered_data: filtered_names(datatypes, names),
        },
    )
}

fn level_list(levels: &Vec<StateTransition>) -> (r: Vec<Option<StateTransition>>)
    ensures
        r@ == split_levels(levels@),
{
    let mut r: Vec<Option<StateTransition>> = Vec::new();
    if levels.len() == 0 {
        r.push(None);
    } else if levels.len() == 1 {
        r.push(Some(levels[0]));
    } else {
        let sorted = sort_levels(levels);
        let mut i: usize = 0;
        while i < sorted.len()
            invariant
                i <= sorted@.len(),
                sorted@ == sorted_levels(levels@),
                levels@.len() > 1,
                r@ == split_levels(levels@).take(i as int),
            decreases sorted@.len() - i,
        {
            r.push(Some(sorted[i]));
            i = i + 1;
            assert(r@ =~= split_levels(levels@).take(i as int));
        }
    }
    assert(r@ =~= split_levels(levels@));
    r
}

/// Adds the callbacks that a function is: one, or, if it declares several levels, one for
/// each.
pub fn specs_to_cb(
    datatypes: &Vec<Group>,
    names: &Vec<String>,
    as_str: &str,
    subscription_id: &str,
    levels: &Vec<StateTransition>,
    callbacks: &mut Vec<CallbackSpec>,
) -> (r: Result<(), DecodeError>)
    ensures
        match r {
            Ok(()) => with_callbacks(
                callbacks_view(old(callbacks)@),
                groups_view(datatypes@),
                texts(names@),
                as_str@,
                subscription_id@,
                split_levels(levels@),
                split_levels(levels@).len() as int,
            ) == Ok::<Seq<CallbackModel>, DecodeError>(callbacks_view(final(callbacks)@)),
            Err(e) => with_callbacks(
                callbacks_view(old(callbacks)@),
                groups_view(datatypes@),
                texts(names@),
                as_str@,
                subscription_id@,
                split_levels(levels@),
                split_levels(levels@).len() as int,
            ) == Err::<Seq<CallbackModel>, DecodeError>(e),
        },
{
    let list = level_list(levels);
    let ghost first = callbacks_view(callbacks@);
    let ghost gs = groups_view(datatypes@);
    let mut i: usize = 0;
    while i < list.len()
        invariant
            i <= list@.len(),
            list@ == split_levels(levels@),
            gs == groups_view(datatypes@),
            first == callbacks_view(old(callbacks)@),
            with_callbacks(
                first,
                gs,
                texts(names@),
                as_str@,
                subscription_id@,
                list@,
                i as int,
            ) == Ok::<Seq<CallbackModel>, DecodeError>(callbacks_view(callbacks@)),
        decreases list@.len() - i,
    {
        match spec_to_cbs_int(datatypes, names, as_str, subscription_id, list[i]) {
            Ok(c) => {
                let ghost before = callbacks_view(callbacks@);
                let ghost added = c@;
                callbacks.push(c);
                assert(callbacks_view(callbacks@) =~= before.push(added));
            },
            Err(e) => {
                proof {
                    assert(with_callbacks(
                        first,
                        gs,
                        texts(names@),
                        as_str@,
                        subscription_id@,
                        list@,
                        i + 1,
                    ) matches Err(f) && f == e);
                    lemma_with_callbacks_error(
                        first,
                        gs,
                        texts(names@),
                        as_str@,
                        subscription_id@,
                        list@,
                        i + 1,
                        list@.len() as int,
                        e,
                    );
                }
                return Err(e);
            },
        }
        i = i + 1;
    }
    Ok(())
}

fn find_filter(inputs: &Vec<ParsedInput>) -> (r: Option<String>)
    ensures
        match r {
            Some(s) => filter_from(inputs_view(inputs@), 0) == Some(s@),
            None => filter_from(inputs_view(inputs@), 0) is None,
        },
{
    let mut i: usize = 0;
    while i < inputs.len()
        invariant
            i <= inputs@.len(),
            filter_from(inputs_view(inputs@), 0) == filter_from(inputs_view(inputs@), i as int),
        decreases inputs@.len() - i,
    {
        assert(inputs_view(inputs@)[i as int] == inputs@[i as int]@);
        if matches!(inputs[i].kind(), InputKind::Callback | InputKind::CallbackGroup) {
            return Some(inputs[i].filter());
        }
        i = i + 1;
    }
    None
}

fn add_input(
    callbacks: &mut Vec<CallbackSpec>,
    datatypes: &Vec<Group>,
    group: &Group,
    inp: &ParsedInput,
) -> (r: Result<(), DecodeError>)
    ensures
        match r {
            Ok(()) => with_input(
                callbacks_view(old(callbacks)@),
                groups_view(datatypes@),
                group@,
                inp@,
            ) == Ok::<Seq<CallbackModel>, DecodeError>(callbacks_view(final(callbacks)@)),
            Err(e) => with_input(
                callbacks_view(old(callbacks)@),
                groups_view(datatypes@),
                group@,
                inp@,
            ) == Err::<Seq<CallbackModel>, DecodeError>(e),
        },
{
    match inp.func() {
        Some(func) => match inp.kind() {
            InputKind::Callback => {
                if group.inputs.len() != 1 {
                    return Err(DecodeError::ExtraCallback);
                }
                specs_to_cb(
                    datatypes,
                    &func.datatypes,
                    group.name.as_str(),
                    group.name.as_str(),
                    &inp.levels(),
                    callbacks,
                )
            },
            InputKind::CallbackGroupFn => {
                let mut as_str = inp.group().to_owned();
                as_str.append("::");
                as_str.append(inp.name());
                specs_to_cb(
                    datatypes,
                    &func.datatypes,
                    as_str.as_str(),
                    inp.group(),
                    &inp.levels(),
                    callbacks,
                )
            },
            _ => Ok(()),
        },
        None => Ok(()),
    }
}

/// The subscription that a group of annotations is.
pub fn decode_subscription(datatypes: &Vec<Group>, group: &Group) -> (r: Result<
    SubscriptionSpec,
    DecodeError,
>)
    ensures
        match r {
            Ok(s) => subscription_of(groups_view(datatypes@), group@) == Ok::<
                SubscriptionModel,
                DecodeError,
            >(s@) && s.patterns is None,
            Err(e) => subscription_of(groups_view(datatypes@), group@) == Err::<
                SubscriptionModel,
                DecodeError,
            >(e),
        },
{
    let filter = match find_filter(&group.inputs) {
        Some(f) => f,
        None => {
            return Err(DecodeError::MissingCallback);
        },
    };
    let ghost gs = groups_view(datatypes@);
    let mut callbacks: Vec<CallbackSpec> = Vec::new();
    let mut i: usize = 0;
    assert(callbacks_view(callbacks@) =~= Seq::empty());
    while i < group.inputs.len()
        invariant
            i <= group.inputs@.len(),
            gs == groups_view(datatypes@),
            filter_from(group@.inputs, 0) is Some,
            group_callbacks(gs, group@, i as int) == Ok::<Seq<CallbackModel>, DecodeError>(
                callbacks_view(callbacks@),
            ),
        decreases group.inputs@.len() - i,
    {
        assert(group@.inputs[i as int] == group.inputs@[i as int]@);
        match add_input(&mut callbacks, datatypes, group, &group.inputs[i]) {
            Ok(()) => {},
            Err(e) => {
                proof {
                    assert(group_callbacks(gs, group@, i + 1) matches Err(f) && f == e);
                    lemma_group_callbacks_error(
                        gs,
                        group@,
                        i + 1,
                        group@.inputs.len() as int,
                        e,
                    );
                }
                return Err(e);
            },
        }
        i = i + 1;
    }
    Ok(SubscriptionSpec { callbacks, filter, as_str: group.name.clone(), patterns: None })
}

/// The subscriptions of an application.
pub fn decode_subscriptions(datatypes: &Vec<Group>, cbs: &Vec<Group>) -> (r: Result<
    Vec<SubscriptionSpec>,
    DecodeError,
>)
    ensures
        match r {
            Ok(s) => subscriptions_of(
                groups_view(datatypes@),
                groups_view(cbs@),
                cbs@.len() as int,
            ) == Ok::<Seq<SubscriptionModel>, DecodeError>(subscriptions_view(s@)) && forall|
                i: int,
            |
                0 <= i < s@.len() ==> (#[trigger] s@[i]).patterns is None,
            Err(e) => subscriptions_of(
                groups_view(datatypes@),
                groups_view(cbs@),
                cbs@.len() as int,
            ) == Err::<Seq<SubscriptionModel>, DecodeError>(e),
        },
{
    let ghost gs = groups_view(datatypes@);
    let ghost all = groups_view(cbs@);
    let mut subs: Vec<SubscriptionSpec> = Vec::new();
    let mut i: usize = 0;
    assert(subscriptions_view(subs@) =~= Seq::empty());
    while i < cbs.len()
        invariant
            i <= cbs@.len(),
            gs == groups_view(datatypes@),
            all == groups_view(cbs@),
            subscriptions_of(gs, all, i as int) == Ok::<Seq<SubscriptionModel>, DecodeError>(
                subscriptions_view(subs@),
            ),
            forall|j: int| 0 <= j < subs@.len() ==> (#[trigger] subs@[j]).patterns is None,
        decreases cbs@.len() - i,
    {
        assert(all[i as int] == cbs@[i as int]@);
        match decode_subscription(datatypes, &cbs[i]) {
            Ok(s) => {
                let ghost before = subscriptions_view(subs@);
                let ghost added = s@;
                subs.push(s);
                assert(subscriptions_view(subs@) =~= before.push(added));
            },
            Err(e) => {
                proof {
                    assert(subscriptions_of(gs, all, i + 1) matches Err(f) && f == e);
                    lemma_subscriptions_error(gs, all, i + 1, all.len() as int, e);
                }
                return Err(e);
            },
        }
        i = i + 1;
    }
    Ok(subs)
}

/// The predicate recurs: it is a custom filter some function of which does.
pub open spec fn pred_streaming(p: PredicateModel, preds: Seq<CustomModel>) -> bool {
    p matches PredicateModel::Custom { name } && exists|i: int, j: int|
        0 <= i < preds.len() && 0 <= j < preds[i].levels.len() && preds[i].name == name
            && any_streaming(#[trigger] preds[i].levels[j])
}

/// Some predicate of some pattern recurs.
pub open spec fn patterns_streaming(
    patterns: Seq<FlatPattern>,
    preds: Seq<CustomModel>,
) -> bool {
    exists|i: int, j: int|
        0 <= i < patterns.len() && 0 <= j < patterns[i]@.len() && pred_streaming(
            #[trigger] patterns[i]@[j],
            preds,
        )
}

/// The subscription's callback is invoked once for each connection: it is a function of its
/// own, it is not invoked at a level that recurs or at the end of the connection, and its
/// filter has a predicate that recurs, so that it could match more than once.
pub open spec fn invokes_once(
    s: SubscriptionModel,
    patterns: Seq<FlatPattern>,
    preds: Seq<CustomModel>,
) -> bool {
    &&& s.callbacks.len() == 1
    &&& match s.callbacks[0].expl_level {
        Some(level) => !level.streaming() && level != StateTransition::L4Terminated,
        None => true,
    }
    &&& patterns_streaming(patterns, preds)
}

/// Some callback takes the pattern that was matched.
pub open spec fn wants_filter_str(s: SubscriptionModel) -> bool {
    exists|i: int, j: int|
        0 <= i < s.callbacks.len() && 0 <= j < s.callbacks[i].datatypes.len() && (
        #[trigger] s.callbacks[i].datatypes[j]).name == "FilterStr"@
}

fn is_pred_streaming(p: &Predicate, preds: &Vec<CustomPred>) -> (b: bool)
    ensures
        b == pred_streaming(p@, preds_view(preds@)),
{
    let ghost all = preds_view(preds@);
    match p {
        Predicate::Custom { name } => {
            let mut i: usize = 0;
            while i < preds.len()
                invariant
                    i <= preds@.len(),
                    p@ == (PredicateModel::Custom { name: name@ }),
                    all == preds_view(preds@),
                    forall|k: int, j: int|
                        0 <= k < i && 0 <= j < all[k].levels.len() && all[k].name == name@
                            ==> !any_streaming(#[trigger] all[k].levels[j]),
                decreases preds@.len() - i,
            {
                assert(all[i as int] == preds@[i as int]@);
                if str_eq(preds[i].name.as_str(), name.as_str()) {
                    let mut j: usize = 0;
                    while j < preds[i].levels.len()
                        invariant
                            i < preds@.len(),
                            j <= preds@[i as int].levels@.len(),
                            p@ == (PredicateModel::Custom { name: name@ }),
                            all == preds_view(preds@),
                            all[i as int].name == name@,
                            forall|k: int|
                                0 <= k < j ==> !any_streaming(
                                    #[trigger] all[i as int].levels[k],
                                ),
                        decreases preds@[i as int].levels@.len() - j,
                    {
                        assert(all[i as int].levels[j as int]
                            == preds@[i as int].levels@[j as int]@);
                        if has_streaming(&preds[i].levels[j]) {
                            return true;
                        }
                        j = j + 1;
                    }
                    assert(all[i as int].levels.len() == preds@[i as int].levels@.len());
                }
                i = i + 1;
            }
            false
        },
        _ => false,
    }
}

fn are_patterns_streaming(patterns: &Vec<FlatPattern>, preds: &Vec<CustomPred>) -> (b: bool)
    ensures
        b == patterns_streaming(patterns@, preds_view(preds@)),
{
    let ghost all = preds_view(preds@);
    let mut i: usize = 0;
    while i < patterns.len()
        invariant
            i <= patterns@.len(),
            all == preds_view(preds@),
            forall|k: int, j: int|
                0 <= k < i && 0 <= j < patterns@[k]@.len() ==> !pred_streaming(
                    #[trigger] patterns@[k]@[j],
                    all,
                ),
        decreases patterns@.len() - i,
    {
        let mut j: usize = 0;
        while j < patterns[i].predicates.len()
            invariant
                i < patterns@.len(),
                j <= patterns@[i as int].predicates@.len(),
                all == preds_view(preds@),
                forall|k: int|
                    0 <= k < j ==> !pred_streaming(#[trigger] patterns@[i as int]@[k], all),
            decreases patterns@[i as int].predicates@.len() - j,
        {
            assert(patterns@[i as int]@[j as int]
                == patterns@[i as int].predicates@[j as int]@);
            if is_pred_streaming(&patterns[i].predicates[j], preds) {
                return true;
            }
            j = j + 1;
        }
        i = i + 1;
    }
    false
}

/// The subscription keeps these patterns, each with the text that it is written as, or, where
/// no callback takes the texts, without it.
pub open spec fn keeps_patterns(
    s: SubscriptionSpec,
    patterns: Seq<FlatPattern>,
    with_texts: bool,
) -> bool {
    s.patterns matches Some(kept) && {
        &&& kept@.len() == patterns.len()
        &&& forall|j: int|
            0 <= j < kept@.len() ==> (#[trigger] kept@[j])@ == patterns[j]@ && kept@[j].as_str
                == (if with_texts {
                patterns[j].as_str
            } else {
                None
            })
    }
}

impl SubscriptionSpec {
    fn takes_filter_str(&self) -> (b: bool)
        ensures
            b == wants_filter_str(self@),
    {
        let mut i: usize = 0;
        while i < self.callbacks.len()
            invariant
                i <= self.callbacks@.len(),
                forall|k: int, j: int|
                    0 <= k < i && 0 <= j < self@.callbacks[k].datatypes.len() ==> (
                    #[trigger] self@.callbacks[k].datatypes[j]).name != "FilterStr"@,
            decreases self.callbacks@.len() - i,
        {
            assert(self@.callbacks[i as int] == self.callbacks@[i as int]@);
            let mut j: usize = 0;
            while j < self.callbacks[i].datatypes.len()
                invariant
                    i < self.callbacks@.len(),
                    j <= self.callbacks@[i as int].datatypes@.len(),
                    self@.callbacks[i as int] == self.callbacks@[i as int]@,
                    forall|k: int|
                        0 <= k < j ==> (
                        #[trigger] self@.callbacks[i as int].datatypes[k]).name != "FilterStr"@,
                decreases self.callbacks@[i as int].datatypes@.len() - j,
            {
                assert(self@.callbacks[i as int].datatypes[j as int]
                    == self.callbacks@[i as int].datatypes@[j as int]@);
                if str_eq(self.callbacks[i].datatypes[j].name.as_str(), "FilterStr") {
                    return true;
                }
                j = j + 1;
            }
            i = i + 1;
        }
        false
    }

    /// Takes the patterns that the filter stands for, each with the text that it is written
    /// as. The texts are kept only if some callback takes them.
    pub fn add_patterns(&mut self, patterns: Vec<FlatPattern>)
        ensures
            final(self)@ == old(self)@,
            keeps_patterns(*final(self), patterns@, wants_filter_str(old(self)@)),
    {
        let wanted = self.takes_filter_str();
        let ghost all = patterns@;
        let mut kept = patterns;
        if !wanted {
            let mut i: usize = 0;
            while i < kept.len()
                invariant
                    i <= kept@.len(),
                    kept@.len() == all.len(),
                    forall|j: int| 0 <= j < kept@.len() ==> (#[trigger] kept@[j])@ == all[j]@,
                    forall|j: int| 0 <= j < i ==> (#[trigger] kept@[j]).as_str is None,
                decreases kept@.len() - i,
            {
                let ghost before = kept@[i as int]@;
                kept[i].as_str = None;
                assert(kept@[i as int]@ =~= before);
                i = i + 1;
            }
        }
        self.patterns = Some(kept);
    }

    /// Marks the callback if it is to be invoked once for each connection. No guarantees are
    /// made for grouped callbacks, which are followed as a full group.
    pub fn add_invoke_once(&mut self, preds: &Vec<CustomPred>)
        requires
            old(self).patterns is Some,
            old(self)@.callbacks.len() > 0,
        ensures
            final(self).patterns == old(self).patterns,
            final(self)@ == (SubscriptionModel {
                callbacks: if invokes_once(
                    old(self)@,
                    old(self).patterns->0@,
                    preds_view(preds@),
                ) {
                    seq![CallbackModel { invoke_once: true, ..old(self)@.callbacks[0] }]
                } else {
                    old(self)@.callbacks
                },
                ..old(self)@
            }),
    {
        if self.callbacks.len() > 1 {
            return;
        }
        assert(self@.callbacks[0] == self.callbacks@[0]@);
        // A recurring callback is invoked until it unsubscribes, and one at the end of the
        // connection is invoked once anyway.
        match self.callbacks[0].expl_level {
            Some(level) => {
                if level.is_streaming() || level == StateTransition::L4Terminated {
                    return;
                }
            },
            None => {},
        }
        let streaming_pred = match &self.patterns {
            Some(patterns) => are_patterns_streaming(patterns, preds),
            None => false,
        };
        if streaming_pred {
            let ghost before = self@.callbacks;
            self.callbacks[0].invoke_once = true;
            assert(self@.callbacks =~= seq![
                CallbackModel { invoke_once: true, ..before[0] },
            ]);
        }
    }
}

} // verus!
