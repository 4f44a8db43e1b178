//! What is updated at which level, and what is kept on a connection for that.

use crate::compiler::groups::{groups_view, inputs_view, Group, GroupModel};
use crate::compiler::input::{InputKind, InputModel, ParsedInput};
use crate::compiler::levels::{any_streaming, has_streaming};
use crate::compiler::names::{name_less, text_less};
use crate::compiler::subscriptions::{
    callbacks_view, specs_view, subscriptions_view, CallbackModel, CallbackSpec,
    StateTransitionSpec, SubscriptionModel, SubscriptionSpec, TxModel,
};
use crate::compiler::DecodeError;
use crate::conntrack::conn_state::StateTransition;
use crate::text::str_eq;
use vstd::prelude::*;
use vstd::string::*;

verus! {

/// The annotation's function is invoked as an update at a level that it declares. Levels that
/// recur are delivered to any function; others to the methods of filters, and to those of
/// datatypes that are no constructors. Callbacks are invoked inline there.
pub open spec fn is_update(inp: InputModel, level: StateTransition) -> bool {
    &&& !inp.kind.group()
    &&& level.streaming() || inp.kind == InputKind::FilterGroupFn || (inp.kind
        == InputKind::DatatypeFn && !inp.constructor())
}

/// How often a level occurs among the first `n` of some levels.
pub open spec fn occurrences(
    levels: Seq<StateTransition>,
    level: StateTransition,
    n: int,
) -> nat
    decreases n,
{
    if n <= 0 {
        0
    } else {
        occurrences(levels, level, n - 1) + if levels[n - 1] == level {
            1nat
        } else {
            0
        }
    }
}

/// An annotation, `k` times.
pub open spec fn repeated(inp: InputModel, k: nat) -> Seq<InputModel> {
    Seq::new(k, |i: int| inp)
}

/// Updates with those of the first `n` annotations of a group.
pub open spec fn with_input_updates(
    list: Seq<InputModel>,
    inputs: Seq<InputModel>,
    level: StateTransition,
    n: int,
) -> Seq<InputModel>
    decreases n,
{
    if n <= 0 {
        list
    } else {
        let before = with_input_updates(list, inputs, level, n - 1);
        let inp = inputs[n - 1];
        if is_update(inp, level) {
            before + repeated(inp, occurrences(inp.levels, level, inp.levels.len() as int))
        } else {
            before
        }
    }
}

/// Updates with those of the first `n` groups.
pub open spec fn with_group_updates(
    list: Seq<InputModel>,
    gs: Seq<GroupModel>,
    level: StateTransition,
    n: int,
) -> Seq<InputModel>
    decreases n,
{
    if n <= 0 {
        list
    } else {
        with_input_updates(
            with_group_updates(list, gs, level, n - 1),
            gs[n - 1].inputs,
            level,
            gs[n - 1].inputs.len() as int,
        )
    }
}

/// The updates at a level: those of filters, then of datatypes, then of callbacks.
pub open spec fn updates_at(
    filters: Seq<GroupModel>,
    datatypes: Seq<GroupModel>,
    cbs: Seq<GroupModel>,
    level: StateTransition,
) -> Seq<InputModel> {
    with_group_updates(
        with_group_updates(
            with_group_updates(Seq::empty(), filters, level, filters.len() as int),
            datatypes,
            level,
            datatypes.len() as int,
        ),
        cbs,
        level,
        cbs.len() as int,
    )
}

/// Adds the updates of a group's annotations at a level.
pub fn push_update(list: &mut Vec<ParsedInput>, inputs: &Vec<ParsedInput>, level: StateTransition)
    ensures
        inputs_view(final(list)@) == with_input_updates(
            inputs_view(old(list)@),
            inputs_view(inputs@),
            level,
            inputs@.len() as int,
        ),
{
    let mut i: usize = 0;
    while i < inputs.len()
        invariant
            i <= inputs@.len(),
            inputs_view(list@) == with_input_updates(
                inputs_view(old(list)@),
                inputs_view(inputs@),
                level,
                i as int,
            ),
        decreases inputs@.len() - i,
    {
        let inp = &inputs[i];
        assert(inputs_view(inputs@)[i as int] == inp@);
        if !inp.is_group() && (level.is_streaming() || match inp.kind() {
            InputKind::FilterGroupFn => true,
            InputKind::DatatypeFn => !inp.is_constructor(),
            _ => false,
        }) {
            let ghost before = inputs_view(list@);
            let levels = inp.levels();
            let mut j: usize = 0;
            assert(before + repeated(inp@, 0) =~= before);
            while j < levels.len()
                invariant
                    j <= levels@.len(),
                    levels@ == inp@.levels,
                    inputs_view(list@) == before + repeated(
                        inp@,
                        occurrences(levels@, level, j as int),
                    ),
                decreases levels@.len() - j,
            {
                if levels[j] == level {
                    let ghost so_far = inputs_view(list@);
                    let copy = inp.copy();
                    list.push(copy);
                    assert(inputs_view(list@) =~= so_far.push(inp@));
                    assert(so_far.push(inp@) =~= before + repeated(
                        inp@,
                        occurrences(levels@, level, j + 1),
                    ));
                }
                j = j + 1;
            }
        }
        i = i + 1;
    }
}

fn push_group_updates(list: &mut Vec<ParsedInput>, groups: &Vec<Group>, level: StateTransition)
    ensures
        inputs_view(final(list)@) == with_group_updates(
            inputs_view(old(list)@),
            groups_view(groups@),
            level,
            groups@.len() as int,
        ),
{
    let mut i: usize = 0;
    while i < groups.len()
        invariant
            i <= groups@.len(),
            inputs_view(list@) == with_group_updates(
                inputs_view(old(list)@),
                groups_view(groups@),
                level,
                i as int,
            ),
        decreases groups@.len() - i,
    {
        assert(groups_view(groups@)[i as int] == groups@[i as int]@);
        push_update(list, &groups[i].inputs, level);
        i = i + 1;
    }
}

/// Collects the updates at a level.
pub fn collect_updates(
    filters: &Vec<Group>,
    datatypes: &Vec<Group>,
    cbs: &Vec<Group>,
    level: StateTransition,
) -> (r: Vec<ParsedInput>)
    ensures
        inputs_view(r@) == updates_at(
            groups_view(filters@),
            groups_view(datatypes@),
            groups_view(cbs@),
            level,
        ),
{
    let mut r: Vec<ParsedInput> = Vec::new();
    assert(inputs_view(r@) =~= Seq::empty());
    push_group_updates(&mut r, filters, level);
    push_group_updates(&mut r, datatypes, level);
    push_group_updates(&mut r, cbs, level);
    r
}

/// What is kept on a connection.
#[derive(Debug, Clone, Copy, PartialEq, Eq, Structural)]
pub enum TrackedKind {
    StreamCallback,
    StatelessCallback,
    StaticCallback,
    StreamFilter,
    StatelessFilter,
    /// True if the datatype is an expensive one.
    Datatype(bool),
    /// Kept, but never updated.
    StaticData,
}

impl TrackedKind {
    /// Position in the order of kinds.
    pub open spec fn rank(self) -> int {
        match self {
            TrackedKind::StreamCallback => 0,
            TrackedKind::StatelessCallback => 1,
            TrackedKind::StaticCallback => 2,
            TrackedKind::StreamFilter => 3,
            TrackedKind::StatelessFilter => 4,
            TrackedKind::Datatype(filtered) => if filtered {
                6
            } else {
                5
            },
            TrackedKind::StaticData => 7,
        }
    }

    fn number(self) -> (n: u8)
        ensures
            n == self.rank(),
    {
        match self {
            TrackedKind::StreamCallback => 0,
            TrackedKind::StatelessCallback => 1,
            TrackedKind::StaticCallback => 2,
            TrackedKind::StreamFilter => 3,
            TrackedKind::StatelessFilter => 4,
            TrackedKind::Datatype(filtered) => if filtered {
                6
            } else {
                5
            },
            TrackedKind::StaticData => 7,
        }
    }
}

/// A field of what is kept on a connection.
#[derive(Debug)]
pub struct TrackedType {
    pub kind: TrackedKind,
    pub name: String,
}

/// A field, with its name as a sequence.
pub struct TrackedModel {
    pub kind: TrackedKind,
    pub name: Seq<char>,
}

impl View for TrackedType {
    type V = TrackedModel;

    open spec fn view(&self) -> TrackedModel {
        TrackedModel { kind: self.kind, name: self.name@ }
    }
}

/// Fields, as models.
pub open spec fn fields_view(v: Seq<TrackedType>) -> Seq<TrackedModel> {
    Seq::new(v.len(), |i: int| v[i]@)
}

/// Fields are ordered by name first, so that they appear in a stable, alphabetical order.
pub open spec fn field_less(a: TrackedModel, b: TrackedModel) -> bool {
    text_less(a.name, b.name) || (a.name == b.name && a.kind.rank() < b.kind.rank())
}

/// The first place from `i` on whose field does not come before `t`.
pub open spec fn field_place(list: Seq<TrackedModel>, t: TrackedModel, i: int) -> int
    decreases list.len() - i,
{
    if i >= list.len() || !field_less(list[i], t) {
        i
    } else {
        field_place(list, t, i + 1)
    }
}

/// The fields with one more in its place, unless it is there already.
pub open spec fn with_field(list: Seq<TrackedModel>, t: TrackedModel) -> Seq<TrackedModel> {
    let p = field_place(list, t, 0);
    if p < list.len() && list[p] == t {
        list
    } else {
        list.insert(p, t)
    }
}

/// Adds a field in its place, unless it is there already.
pub fn add_field(list: &mut Vec<TrackedType>, t: TrackedType)
    ensures
        fields_view(final(list)@) == with_field(fields_view(old(list)@), t@),
{
    let ghost all = fields_view(list@);
    let mut i: usize = 0;
    while i < list.len() && (name_less(list[i].name.as_str(), t.name.as_str()) || (str_eq(
        list[i].name.as_str(),
        t.name.as_str(),
    ) && list[i].kind.number() < t.kind.number()))
        invariant
            i <= list@.len(),
            list@ == old(list)@,
            all == fields_view(list@),
            field_place(all, t@, 0) == field_place(all, t@, i as int),
        decreases list@.len() - i,
    {
        assert(all[i as int] == list@[i as int]@);
        i = i + 1;
    }
    assert(i < list@.len() ==> all[i as int] == list@[i as int]@);
    assert(field_place(all, t@, 0) == i);
    if i < list.len() && str_eq(list[i].name.as_str(), t.name.as_str()) && list[i].kind
        == t.kind {
        return;
    }
    let ghost added = t@;
    list.insert(i, t);
    assert(fields_view(list@) =~= all.insert(i as int, added));
}

/// Some annotation of the group is invoked at a level that recurs.
pub open spec fn group_streaming(inputs: Seq<InputModel>) -> bool {
    exists|i: int| 0 <= i < inputs.len() && any_streaming((#[trigger] inputs[i]).levels)
}

/// How many of the first `n` annotations are on methods.
pub open spec fn method_count(inputs: Seq<InputModel>, n: int) -> nat
    decreases n,
{
    if n <= 0 {
        0
    } else {
        method_count(inputs, n - 1) + if inputs[n - 1].kind.method() {
            1nat
        } else {
            0
        }
    }
}

/// Some method that is no constructor.
pub open spec fn has_plain_method(inputs: Seq<InputModel>) -> bool {
    exists|i: int|
        0 <= i < inputs.len() && (#[trigger] inputs[i]).kind.method() && !inputs[i].constructor()
}

/// The field that the first definition at or after `i` stands for.
pub open spec fn definition_from(inputs: Seq<InputModel>, i: int) -> Option<TrackedModel>
    decreases inputs.len() - i,
{
    if i >= inputs.len() {
        None
    } else {
        let name = inputs[i].name;
        match inputs[i].kind {
            InputKind::CallbackGroup => Some(
                TrackedModel { kind: TrackedKind::StreamCallback, name },
            ),
            InputKind::FilterGroup => Some(TrackedModel { kind: TrackedKind::StreamFilter, name }),
            InputKind::Datatype => Some(
                TrackedModel { kind: TrackedKind::Datatype(inputs[i].filtered), name },
            ),
            InputKind::Callback => Some(
                TrackedModel { kind: TrackedKind::StatelessCallback, name },
            ),
            InputKind::Filter => Some(TrackedModel { kind: TrackedKind::StatelessFilter, name }),
            _ => definition_from(inputs, i + 1),
        }
    }
}

/// The field that a group needs, if it needs one: it does if something in it recurs, or if it
/// has methods other than one constructor. A single function that does not recur needs none.
pub open spec fn tracked_type(inputs: Seq<InputModel>) -> Option<TrackedModel> {
    let methods = method_count(inputs, inputs.len() as int);
    if !group_streaming(inputs) && ((inputs.len() == 1 && inputs[0].levels.len() == 1) || methods
        == 0 || (methods == 1 && !has_plain_method(inputs))) {
        None
    } else {
        definition_from(inputs, 0)
    }
}

/// The field that a group of annotations needs.
pub fn is_tracked_type(inputs: &Vec<ParsedInput>) -> (r: Option<TrackedType>)
    ensures
        match r {
            Some(t) => tracked_type(inputs_view(inputs@)) == Some(t@),
            None => tracked_type(inputs_view(inputs@)) is None,
        },
{
    let ghost all = inputs_view(inputs@);
    let mut streaming: bool = false;
    let mut methods: usize = 0;
    let mut plain: bool = false;
    let mut i: usize = 0;
    while i < inputs.len()
        invariant
            i <= inputs@.len(),
            all == inputs_view(inputs@),
            streaming == exists|j: int| 0 <= j < i && any_streaming((#[trigger] all[j]).levels),
            plain == exists|j: int|
                0 <= j < i && (#[trigger] all[j]).kind.method() && !all[j].constructor(),
            methods == method_count(all, i as int),
            methods <= i,
        decreases inputs@.len() - i,
    {
        assert(all[i as int] == inputs@[i as int]@);
        if has_streaming(&inputs[i].levels()) {
            streaming = true;
        }
        if matches!(
            inputs[i].kind(),
            InputKind::CallbackGroupFn | InputKind::DatatypeFn | InputKind::FilterGroupFn
        ) {
            methods = methods + 1;
            if !inputs[i].is_constructor() {
                plain = true;
            }
        }
        i = i + 1;
    }
    if !streaming {
        // A single function that does not recur.
        if inputs.len() == 1 {
            assert(all[0] == inputs@[0]@);
            if inputs[0].levels().len() == 1 {
                return None;
            }
        }
        // A definition, and at most a constructor.
        if methods == 0 || (methods == 1 && !plain) {
            return None;
        }
    }
    // Something that recurs, or several functions.
    let mut i: usize = 0;
    while i < inputs.len()
        invariant
            i <= inputs@.len(),
            all == inputs_view(inputs@),
            tracked_type(all) == definition_from(all, 0),
            definition_from(all, 0) == definition_from(all, i as int),
        decreases inputs@.len() - i,
    {
        assert(all[i as int] == inputs@[i as int]@);
        let kind = match inputs[i].kind() {
            InputKind::CallbackGroup => Some(TrackedKind::StreamCallback),
            InputKind::FilterGroup => Some(TrackedKind::StreamFilter),
            InputKind::Datatype => Some(TrackedKind::Datatype(inputs[i].is_filtered())),
            InputKind::Callback => Some(TrackedKind::StatelessCallback),
            InputKind::Filter => Some(TrackedKind::StatelessFilter),
            _ => None,
        };
        match kind {
            Some(kind) => {
                return Some(TrackedType { kind, name: inputs[i].name().to_owned() });
            },
            None => {},
        }
        i = i + 1;
    }
    None
}

/// Whatever recurs is kept on the connection, if its struct or function is annotated.
pub proof fn law_recurring_groups_are_kept(inputs: Seq<InputModel>)
    requires
        group_streaming(inputs),
    ensures
        tracked_type(inputs) == definition_from(inputs, 0),
{
}

/// Fields with those that the first `n` groups need.
pub open spec fn with_group_fields(list: Seq<TrackedModel>, gs: Seq<GroupModel>, n: int) -> Seq<
    TrackedModel,
>
    decreases n,
{
    if n <= 0 {
        list
    } else {
        let before = with_group_fields(list, gs, n - 1);
        match tracked_type(gs[n - 1].inputs) {
            Some(t) => with_field(before, t),
            None => before,
        }
    }
}

/// The datatype is fixed by the first packet.
pub open spec fn is_static(s: TxModel) -> bool {
    s.updates.len() == 1 && s.updates[0] == StateTransition::L4FirstPacket
}

/// Fields with those of the first `n` datatypes that are fixed by the first packet.
pub open spec fn with_static_fields(list: Seq<TrackedModel>, specs: Seq<TxModel>, n: int) -> Seq<
    TrackedModel,
>
    decreases n,
{
    if n <= 0 {
        list
    } else {
        let before = with_static_fields(list, specs, n - 1);
        if is_static(specs[n - 1]) {
            with_field(
                before,
                TrackedModel { kind: TrackedKind::StaticData, name: specs[n - 1].name },
            )
        } else {
            before
        }
    }
}

/// Fields with those that the first `n` callbacks need. A callback that is invoked once must
/// not belong to a group.
pub open spec fn with_callback_fields(
    list: Seq<TrackedModel>,
    cbs: Seq<CallbackModel>,
    n: int,
) -> Result<Seq<TrackedModel>, DecodeError>
    decreases n,
{
    if n <= 0 {
        Ok(list)
    } else {
        match with_callback_fields(list, cbs, n - 1) {
            Err(e) => Err(e),
            Ok(before) => {
                let cb = cbs[n - 1];
                if cb.invoke_once && cb.subscription_id != cb.as_str {
                    Err(DecodeError::GroupedInvokeOnce)
                } else {
                    Ok(
                        with_static_fields(
                            if cb.invoke_once {
                                with_field(
                                    before,
                                    TrackedModel {
                                        kind: TrackedKind::StaticCallback,
                                        name: cb.as_str,
                                    },
                                )
                            } else {
                                before
                            },
                            cb.datatypes,
                            cb.datatypes.len() as int,
                        ),
                    )
                }
            },
        }
    }
}

/// Fields with those that the first `n` subscriptions need.
pub open spec fn with_subscription_fields(
    list: Seq<TrackedModel>,
    subs: Seq<SubscriptionModel>,
    n: int,
) -> Result<Seq<TrackedModel>, DecodeError>
    decreases n,
{
    if n <= 0 {
        Ok(list)
    } else {
        match with_subscription_fields(list, subs, n - 1) {
            Err(e) => Err(e),
            Ok(before) => with_callback_fields(
                before,
                subs[n - 1].callbacks,
                subs[n - 1].callbacks.len() as int,
            ),
        }
    }
}

/// The fields that an application needs on a connection.
pub open spec fn fields_of(
    filters: Seq<GroupModel>,
    datatypes: Seq<GroupModel>,
    cbs: Seq<GroupModel>,
    subs: Seq<SubscriptionModel>,
) -> Result<Seq<TrackedModel>, DecodeError> {
    with_subscription_fields(
        with_group_fields(
            with_group_fields(
                with_group_fields(Seq::empty(), filters, filters.len() as int),
                datatypes,
                datatypes.len() as int,
            ),
            cbs,
            cbs.len() as int,
        ),
        subs,
        subs.len() as int,
    )
}

proof fn lemma_callback_fields_error(
    list: Seq<TrackedModel>,
    cbs: Seq<CallbackModel>,
    k: int,
    n: int,
    e: DecodeError,
)
    requires
        0 <= k <= n,
        with_callback_fields(list, cbs, k) matches Err(f) && f == e,
    ensures
        with_callback_fields(list, cbs, n) matches Err(f) && f == e,
    decreases n - k,
{
    if k < n {
        lemma_callback_fields_error(list, cbs, k + 1, n, e);
    }
}

proof fn lemma_subscription_fields_error(
    list: Seq<TrackedModel>,
    subs: Seq<SubscriptionModel>,
    k: int,
    n: int,
    e: DecodeError,
)
    requires
        0 <= k <= n,
        with_subscription_fields(list, subs, k) matches Err(f) && f == e,
    ensures
        with_subscription_fields(list, subs, n) matches Err(f) && f == e,
    decreases n - k,
{
    if k < n {
        lemma_subscription_fields_error(list, subs, k + 1, n, e);
    }
}

fn add_group_fields(list: &mut Vec<TrackedType>, groups: &Vec<Group>)
    ensures
        fields_view(final(list)@) == with_group_fields(
            fields_view(old(list)@),
            groups_view(groups@),
            groups@.len() as int,
        ),
{
    let mut i: usize = 0;
    while i < groups.len()
        invariant
            i <= groups@.len(),
            fields_view(list@) == with_group_fields(
                fields_view(old(list)@),
                groups_view(groups@),
                i as int,
            ),
        decreases groups@.len() - i,
    {
        assert(groups_view(groups@)[i as int] == groups@[i as int]@);
        match is_tracked_type(&groups[i].inputs) {
            Some(t) => {
                add_field(list, t);
            },
            None => {},
        }
        i = i + 1;
    }
}

fn add_static_fields(list: &mut Vec<TrackedType>, specs: &Vec<StateTransitionSpec>)
    ensures
        fields_view(final(list)@) == with_static_fields(
            fields_view(old(list)@),
            specs_view(specs@),
            specs@.len() as int,
        ),
{
    let mut i: usize = 0;
    while i < specs.len()
        invariant
            i <= specs@.len(),
            fields_view(list@) == with_static_fields(
                fields_view(old(list)@),
                specs_view(specs@),
                i as int,
            ),
        decreases specs@.len() - i,
    {
        assert(specs_view(specs@)[i as int] == specs@[i as int]@);
        if specs[i].updates.len() == 1 && specs[i].updates[0]
            == StateTransition::L4FirstPacket {
            add_field(
                list,
                TrackedType { kind: TrackedKind::StaticData, name: specs[i].name.clone() },
            );
        }
        i = i + 1;
    }
}

fn add_callback_fields(list: &mut Vec<TrackedType>, cbs: &Vec<CallbackSpec>) -> (r: Result<
    (),
    DecodeError,
>)
    ensures
        match r {
            Ok(()) => with_callback_fields(
                fields_view(old(list)@),
                callbacks_view(cbs@),
                cbs@.len() as int,
            ) == Ok::<Seq<TrackedModel>, DecodeError>(fields_view(final(list)@)),
            Err(e) => with_callback_fields(
                fields_view(old(list)@),
                callbacks_view(cbs@),
                cbs@.len() as int,
            ) == Err::<Seq<TrackedModel>, DecodeError>(e),
        },
{
    let ghost first = fields_view(list@);
    let ghost all = callbacks_view(cbs@);
    let mut i: usize = 0;
    while i < cbs.len()
        invariant
            i <= cbs@.len(),
            first == fields_view(old(list)@),
            all == callbacks_view(cbs@),
            with_callback_fields(first, all, i as int) == Ok::<Seq<TrackedModel>, DecodeError>(
                fields_view(list@),
            ),
        decreases cbs@.len() - i,
    {
        let cb = &cbs[i];
        assert(all[i as int] == cb@);
        if cb.invoke_once {
            if !str_eq(cb.subscription_id.as_str(), cb.as_str.as_str()) {
                proof {
                    lemma_callback_fields_error(
                        first,
                        all,
                        i + 1,
                        all.len() as int,
                        DecodeError::GroupedInvokeOnce,
                    );
                }
                return Err(DecodeError::GroupedInvokeOnce);
            }
            add_field(
                list,
                TrackedType { kind: TrackedKind::StaticCallback, name: cb.as_str.clone() },
            );
        }
        add_static_fields(list, &cb.datatypes);
        i = i + 1;
    }
    Ok(())
}

/// Collects the fields that an application needs on a connection.
pub fn collect_fields(
    filters: &Vec<Group>,
    datatypes: &Vec<Group>,
    cbs: &Vec<Group>,
    subs: &Vec<SubscriptionSpec>,
) -> (r: Result<Vec<TrackedType>, DecodeError>)
    ensures
        match r {
            Ok(t) => fields_of(
                groups_view(filters@),
                groups_view(datatypes@),
                groups_view(cbs@),
                subscriptions_view(subs@),
            ) == Ok::<Seq<TrackedModel>, DecodeError>(fields_view(t@)),
            Err(e) => fields_of(
                groups_view(filters@),
                groups_view(datatypes@),
                groups_view(cbs@),
                subscriptions_view(subs@),
            ) == Err::<Seq<TrackedModel>, DecodeError>(e),
        },
{
    let mut list: Vec<TrackedType> = Vec::new();
    assert(fields_view(list@) =~= Seq::empty());
    add_group_fields(&mut list, filters);
    add_group_fields(&mut list, datatypes);
    add_group_fields(&mut list, cbs);
    let ghost first = fields_view(list@);
    let ghost all = subscriptions_view(subs@);
    let mut i: usize = 0;
    while i < subs.len()
        invariant
            i <= subs@.len(),
            all == subscriptions_view(subs@),
            fields_of(
                groups_view(filters@),
                groups_view(datatypes@),
                groups_view(cbs@),
                all,
            ) == with_subscription_fields(first, all, all.len() as int),
            with_subscription_fields(first, all, i as int) == Ok::<
                Seq<TrackedModel>,
                DecodeError,
            >(fields_view(list@)),
        decreases subs@.len() - i,
    {
        assert(all[i as int] == subs@[i as int]@);
        match add_callback_fields(&mut list, &subs[i].callbacks) {
            Ok(()) => {},
            Err(e) => {
                proof {
                    assert(with_subscription_fields(first, all, i + 1) matches Err(f) && f == e);
                    lemma_subscription_fields_error(first, all, i + 1, all.len() as int, e);
                }
                return Err(e);
            },
        }
        i = i + 1;
    }
    Ok(list)
}

} // verus!
