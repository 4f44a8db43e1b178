//! Custom filters: at which levels they are invoked, and what they need.

use crate::compiler::groups::{
    find_group, group_inputs, groups_view, has_group, inputs_view, Group, GroupModel,
};
use crate::compiler::input::{InputKind, InputModel, ParsedInput};
use crate::compiler::levels::{
    any_streaming, append_levels, has_streaming, sort_levels, sorted_levels,
};
use crate::compiler::names::texts;
use crate::compiler::DecodeError;
use crate::conntrack::conn_state::StateTransition;
use crate::text::str_eq;
use vstd::prelude::*;
use vstd::string::*;

verus! {

/// The first annotation of a kind at or after `i`.
pub open spec fn first_from(inputs: Seq<InputModel>, kind: InputKind, i: int) -> Option<int>
    decreases inputs.len() - i,
{
    if i >= inputs.len() {
        None
    } else if inputs[i].kind == kind {
        Some(i)
    } else {
        first_from(inputs, kind, i + 1)
    }
}

/// The level of a declaration that has exactly one.
pub open spec fn exact_level(levels: Seq<StateTransition>) -> Result<StateTransition, DecodeError> {
    if sorted_levels(levels).len() == 1 {
        Ok(sorted_levels(levels)[0])
    } else {
        Err(DecodeError::AmbiguousLevel)
    }
}

/// The level at which a datatype is available: that of its struct, or, if that declares none,
/// of its first method.
pub open spec fn datatype_level(gs: Seq<GroupModel>, name: Seq<char>) -> Result<
    StateTransition,
    DecodeError,
> {
    if !has_group(gs, name) {
        Err(DecodeError::UnknownDatatype)
    } else {
        let inputs = group_inputs(gs, name);
        match first_from(inputs, InputKind::Datatype, 0) {
            None => Err(DecodeError::MissingDatatypeDecl),
            Some(k) => if inputs[k].levels.len() > 0 {
                exact_level(inputs[k].levels)
            } else {
                match first_from(inputs, InputKind::DatatypeFn, 0) {
                    None => Err(DecodeError::MissingDatatypeFn),
                    Some(j) => exact_level(inputs[j].levels),
                }
            },
        }
    }
}

/// The levels at which the first `n` of some datatypes are available.
pub open spec fn datatype_levels(gs: Seq<GroupModel>, names: Seq<Seq<char>>, n: int) -> Result<
    Seq<StateTransition>,
    DecodeError,
>
    decreases n,
{
    if n <= 0 {
        Ok(Seq::empty())
    } else {
        match datatype_levels(gs, names, n - 1) {
            Err(e) => Err(e),
            Ok(before) => match datatype_level(gs, names[n - 1]) {
                Err(e) => Err(e),
                Ok(l) => Ok(before.push(l)),
            },
        }
    }
}

/// The level at which a filter function's datatypes are available, if it takes any: it must
/// be the same for all of them.
pub open spec fn filter_datatype_levels(gs: Seq<GroupModel>, names: Seq<Seq<char>>) -> Result<
    Seq<StateTransition>,
    DecodeError,
> {
    match datatype_levels(gs, names, names.len() as int) {
        Err(e) => Err(e),
        Ok(levels) => if sorted_levels(levels).len() > 1 {
            Err(DecodeError::MixedLevels)
        } else {
            Ok(sorted_levels(levels))
        },
    }
}

/// The levels at which a filter function is invoked: those of its datatypes, and those that
/// it declares. It must declare one if its datatypes recur.
pub open spec fn filter_fn_levels(gs: Seq<GroupModel>, inp: InputModel) -> Result<
    Seq<StateTransition>,
    DecodeError,
> {
    match filter_datatype_levels(gs, inp.datatypes) {
        Err(e) => Err(e),
        Ok(levels) => if any_streaming(levels) && inp.levels.len() == 0 {
            Err(DecodeError::FilterLevelRequired)
        } else {
            Ok(sorted_levels(levels + inp.levels))
        },
    }
}

/// The group defines an expensive datatype.
pub open spec fn filtered_group(inputs: Seq<InputModel>) -> bool {
    exists|i: int| 0 <= i < inputs.len() && (#[trigger] inputs[i]).filtered
}

/// The name is that of an expensive datatype.
pub open spec fn is_filtered_name(gs: Seq<GroupModel>, name: Seq<char>) -> bool {
    has_group(gs, name) && filtered_group(group_inputs(gs, name))
}

/// Those of the first `n` names that are expensive datatypes.
pub open spec fn filtered_among(gs: Seq<GroupModel>, names: Seq<Seq<char>>, n: int) -> Seq<
    Seq<char>,
>
    decreases n,
{
    if n <= 0 {
        Seq::empty()
    } else {
        let before = filtered_among(gs, names, n - 1);
        if is_filtered_name(gs, names[n - 1]) {
            before.push(names[n - 1])
        } else {
            before
        }
    }
}

/// A filter that patterns can refer to by name.
#[derive(Debug)]
pub struct CustomPred {
    pub name: String,
    /// For each function, the levels at which it is invoked.
    pub levels: Vec<Vec<StateTransition>>,
    /// The predicate is that the filter has matched, not that it may still match.
    pub matched: bool,
    /// Expensive datatypes that it takes.
    pub filtered_data: Vec<String>,
}

/// A custom filter, as sequences.
pub struct CustomModel {
    pub name: Seq<char>,
    pub levels: Seq<Seq<StateTransition>>,
    pub matched: bool,
    pub filtered_data: Seq<Seq<char>>,
}

/// Lists of levels, as sequences.
pub open spec fn levels_view(v: Seq<Vec<StateTransition>>) -> Seq<Seq<StateTransition>> {
    Seq::new(v.len(), |i: int| v[i]@)
}

impl View for CustomPred {
    type V = CustomModel;

    open spec fn view(&self) -> CustomModel {
        CustomModel {
            name: self.name@,
            levels: levels_view(self.levels@),
            matched: self.matched,
            filtered_data: texts(self.filtered_data@),
        }
    }
}

/// The struct that an annotation belongs to, if it belongs to one.
pub open spec fn struct_of(inp: InputModel) -> Option<Seq<char>> {
    if inp.kind == InputKind::Filter || inp.kind == InputKind::Callback {
        None
    } else {
        Some(inp.owner)
    }
}

/// Some annotation defines a struct.
pub open spec fn defines_struct(inputs: Seq<InputModel>) -> bool {
    exists|i: int| 0 <= i < inputs.len() && (#[trigger] inputs[i]).kind.group()
}

/// All annotations belong to the struct that the first one belongs to.
pub open spec fn same_struct(inputs: Seq<InputModel>) -> bool {
    forall|i: int|
        0 <= i < inputs.len() ==> struct_of(#[trigger] inputs[i]) == struct_of(inputs[0])
}

/// What is wrong with the annotations of a filter: a struct comes with methods, and a
/// function comes alone.
pub open spec fn group_fault(inputs: Seq<InputModel>) -> Option<DecodeError> {
    if defines_struct(inputs) {
        if inputs.len() <= 1 {
            Some(DecodeError::MissingGroup)
        } else if !same_struct(inputs) {
            Some(DecodeError::MismatchedGroups)
        } else {
            None
        }
    } else if inputs.len() != 1 {
        Some(DecodeError::MissingFilterGroup)
    } else {
        None
    }
}

/// The annotation is on a filter's function.
pub open spec fn is_filter_fn(inp: InputModel) -> bool {
    inp.kind == InputKind::Filter || inp.kind == InputKind::FilterGroupFn
}

/// The levels of the functions among the first `n` annotations of a filter, and the
/// expensive datatypes that they take.
pub open spec fn filter_parts(gs: Seq<GroupModel>, inputs: Seq<InputModel>, n: int) -> Result<
    (Seq<Seq<StateTransition>>, Seq<Seq<char>>),
    DecodeError,
>
    decreases n,
{
    if n <= 0 {
        Ok((Seq::empty(), Seq::empty()))
    } else {
        match filter_parts(gs, inputs, n - 1) {
            Err(e) => Err(e),
            Ok((levels, data)) => {
                let inp = inputs[n - 1];
                if !is_filter_fn(inp) {
                    Ok((levels, data))
                } else {
                    match filter_fn_levels(gs, inp) {
                        Err(e) => Err(e),
                        Ok(l) => Ok(
                            (
                                if l.len() > 0 {
                                    levels.push(l)
                                } else {
                                    levels
                                },
                                data + filtered_among(
                                    gs,
                                    inp.datatypes,
                                    inp.datatypes.len() as int,
                                ),
                            ),
                        ),
                    }
                }
            },
        }
    }
}

/// The custom filter that a group of annotations defines.
pub open spec fn custom_pred(gs: Seq<GroupModel>, g: GroupModel) -> Result<
    CustomModel,
    DecodeError,
> {
    match group_fault(g.inputs) {
        Some(e) => Err(e),
        None => match filter_parts(gs, g.inputs, g.inputs.len() as int) {
            Err(e) => Err(e),
            Ok((levels, data)) => Ok(
                CustomModel { name: g.name, levels, matched: true, filtered_data: data },
            ),
        },
    }
}

/// The custom filters that the first `n` groups of annotations define.
pub open spec fn custom_preds(gs: Seq<GroupModel>, fs: Seq<GroupModel>, n: int) -> Result<
    Seq<CustomModel>,
    DecodeError,
>
    decreases n,
{
    if n <= 0 {
        Ok(Seq::empty())
    } else {
        match custom_preds(gs, fs, n - 1) {
            Err(e) => Err(e),
            Ok(before) => match custom_pred(gs, fs[n - 1]) {
                Err(e) => Err(e),
                Ok(p) => Ok(before.push(p)),
            },
        }
    }
}

/// Custom filters, as models.
pub open spec fn preds_view(v: Seq<CustomPred>) -> Seq<CustomModel> {
    Seq::new(v.len(), |i: int| v[i]@)
}

proof fn lemma_datatype_levels_error(
    gs: Seq<GroupModel>,
    names: Seq<Seq<char>>,
    k: int,
    n: int,
    e: DecodeError,
)
    requires
        0 <= k <= n,
        datatype_levels(gs, names, k) == Err::<Seq<StateTransition>, DecodeError>(e),
    ensures
        datatype_levels(gs, names, n) == Err::<Seq<StateTransition>, DecodeError>(e),
    decreases n - k,
{
    if k < n {
        lemma_datatype_levels_error(gs, names, k + 1, n, e);
    }
}

proof fn lemma_filter_parts_error(
    gs: Seq<GroupModel>,
    inputs: Seq<InputModel>,
    k: int,
    n: int,
    e: DecodeError,
)
    requires
        0 <= k <= n,
        filter_parts(gs, inputs, k) matches Err(f) && f == e,
    ensures
        filter_parts(gs, inputs, n) matches Err(f) && f == e,
    decreases n - k,
{
    if k < n {
        lemma_filter_parts_error(gs, inputs, k + 1, n, e);
    }
}

proof fn lemma_custom_preds_error(
    gs: Seq<GroupModel>,
    fs: Seq<GroupModel>,
    k: int,
    n: int,
    e: DecodeError,
)
    requires
        0 <= k <= n,
        custom_preds(gs, fs, k) matches Err(f) && f == e,
    ensures
        custom_preds(gs, fs, n) matches Err(f) && f == e,
    decreases n - k,
{
    if k < n {
        lemma_custom_preds_error(gs, fs, k + 1, n, e);
    }
}

/// Finds the first annotation of a kind.
pub fn find_kind<'a>(inputs: &'a Vec<ParsedInput>, kind: InputKind) -> (r: Option<&'a ParsedInput>)
    ensures
        match r {
            Some(inp) => first_from(inputs_view(inputs@), kind, 0) is Some && inp@ == inputs_view(
                inputs@,
            )[first_from(inputs_view(inputs@), kind, 0)->0],
            None => first_from(inputs_view(inputs@), kind, 0) is None,
        },
{
    let mut i: usize = 0;
    while i < inputs.len()
        invariant
            i <= inputs@.len(),
            first_from(inputs_view(inputs@), kind, 0) == first_from(
                inputs_view(inputs@),
                kind,
                i as int,
            ),
        decreases inputs@.len() - i,
    {
        assert(inputs_view(inputs@)[i as int] == inputs@[i as int]@);
        if inputs[i].kind() == kind {
            return Some(&inputs[i]);
        }
        i = i + 1;
    }
    None
}

fn find_exact_level(levels: &Vec<StateTransition>) -> (r: Result<StateTransition, DecodeError>)
    ensures
        r == exact_level(levels@),
{
    let sorted = sort_levels(levels);
    if sorted.len() == 1 {
        Ok(sorted[0])
    } else {
        Err(DecodeError::AmbiguousLevel)
    }
}

/// Finds the level at which a datatype is available.
pub fn find_datatype_level(datatypes: &Vec<Group>, name: &str) -> (r: Result<
    StateTransition,
    DecodeError,
>)
    ensures
        r == datatype_level(groups_view(datatypes@), name@),
{
    let group = match find_group(datatypes, name) {
        Some(g) => g,
        None => {
            return Err(DecodeError::UnknownDatatype);
        },
    };
    match find_kind(&group.inputs, InputKind::Datatype) {
        None => Err(DecodeError::MissingDatatypeDecl),
        Some(decl) => {
            let levels = decl.levels();
            if levels.len() > 0 {
                return find_exact_level(&levels);
            }
            match find_kind(&group.inputs, InputKind::DatatypeFn) {
                None => Err(DecodeError::MissingDatatypeFn),
                Some(method) => find_exact_level(&method.levels()),
            }
        },
    }
}

/// Infers the level of a filter function from the datatypes that it takes.
pub fn fil_datatypes_to_levels(datatypes: &Vec<Group>, names: &Vec<String>) -> (r: Result<
    Vec<StateTransition>,
    DecodeError,
>)
    ensures
        match r {
            Ok(l) => filter_datatype_levels(groups_view(datatypes@), texts(names@)) == Ok::<
                Seq<StateTransition>,
                DecodeError,
            >(l@),
            Err(e) => filter_datatype_levels(groups_view(datatypes@), texts(names@)) == Err::<
                Seq<StateTransition>,
                DecodeError,
            >(e),
        },
{
    let ghost gs = groups_view(datatypes@);
    let mut levels: Vec<StateTransition> = Vec::new();
    let mut i: usize = 0;
    assert(levels@ =~= Seq::empty());
    while i < names.len()
        invariant
            i <= names@.len(),
            gs == groups_view(datatypes@),
            datatype_levels(gs, texts(names@), i as int) == Ok::<
                Seq<StateTransition>,
                DecodeError,
            >(levels@),
        decreases names@.len() - i,
    {
        assert(texts(names@)[i as int] == names@[i as int]@);
        match find_datatype_level(datatypes, names[i].as_str()) {
            Ok(l) => {
                levels.push(l);
            },
            Err(e) => {
                proof {
                    assert(datatype_levels(gs, texts(names@), i + 1) == Err::<
                        Seq<StateTransition>,
                        DecodeError,
                    >(e));
                    lemma_datatype_levels_error(
                        gs,
                        texts(names@),
                        i + 1,
                        names@.len() as int,
                        e,
                    );
                }
                return Err(e);
            },
        }
        i = i + 1;
    }
    let sorted = sort_levels(&levels);
    if sorted.len() > 1 {
        return Err(DecodeError::MixedLevels);
    }
    Ok(sorted)
}

/// The levels at which a filter function is invoked.
fn levels_of_filter_fn(datatypes: &Vec<Group>, inp: &ParsedInput, names: &Vec<String>) -> (r:
    Result<Vec<StateTransition>, DecodeError>)
    requires
        texts(names@) == inp@.datatypes,
    ensures
        match r {
            Ok(l) => filter_fn_levels(groups_view(datatypes@), inp@) == Ok::<
                Seq<StateTransition>,
                DecodeError,
            >(l@),
            Err(e) => filter_fn_levels(groups_view(datatypes@), inp@) == Err::<
                Seq<StateTransition>,
                DecodeError,
            >(e),
        },
{
    let mut levels = match fil_datatypes_to_levels(datatypes, names) {
        Ok(l) => l,
        Err(e) => {
            return Err(e);
        },
    };
    let declared = inp.levels();
    if has_streaming(&levels) && declared.len() == 0 {
        return Err(DecodeError::FilterLevelRequired);
    }
    append_levels(&mut levels, &declared);
    Ok(sort_levels(&levels))
}

/// Returns `true` if the name is that of an expensive datatype.
pub fn is_name_filtered(datatypes: &Vec<Group>, name: &str) -> (b: bool)
    ensures
        b == is_filtered_name(groups_view(datatypes@), name@),
{
    match find_group(datatypes, name) {
        Some(g) => is_group_filtered(g),
        None => false,
    }
}

/// Returns `true` if the group defines an expensive datatype.
pub fn is_group_filtered(group: &Group) -> (b: bool)
    ensures
        b == filtered_group(group@.inputs),
{
    let mut i: usize = 0;
    while i < group.inputs.len()
        invariant
            i <= group.inputs@.len(),
            forall|j: int| 0 <= j < i ==> !(#[trigger] group@.inputs[j]).filtered,
        decreases group.inputs@.len() - i,
    {
        assert(group@.inputs[i as int] == group.inputs@[i as int]@);
        if group.inputs[i].is_filtered() {
            return true;
        }
        i = i + 1;
    }
    false
}

/// Those of some names that are expensive datatypes.
pub fn filtered_names(datatypes: &Vec<Group>, names: &Vec<String>) -> (r: Vec<String>)
    ensures
        texts(r@) == filtered_among(
            groups_view(datatypes@),
            texts(names@),
            names@.len() as int,
        ),
{
    let ghost gs = groups_view(datatypes@);
    let mut r: Vec<String> = Vec::new();
    let mut i: usize = 0;
    assert(texts(r@) =~= Seq::empty());
    while i < names.len()
        invariant
            i <= names@.len(),
            gs == groups_view(datatypes@),
            texts(r@) == filtered_among(gs, texts(names@), i as int),
        decreases names@.len() - i,
    {
        let ghost before = texts(r@);
        assert(texts(names@)[i as int] == names@[i as int]@);
        if is_name_filtered(datatypes, names[i].as_str()) {
            let copy = names[i].clone();
            r.push(copy);
            assert(texts(r@) =~= before.push(copy@));
        }
        i = i + 1;
    }
    r
}

fn append_names(list: &mut Vec<String>, more: Vec<String>)
    ensures
        texts(final(list)@) == texts(old(list)@) + texts(more@),
{
    let ghost before = texts(list@);
    let ghost all = texts(more@);
    let mut more = more;
    list.append(&mut more);
    assert(texts(list@) =~= before + all);
}

/// What is wrong with the annotations of a filter.
fn find_fault(inputs: &Vec<ParsedInput>) -> (r: Option<DecodeError>)
    ensures
        r == group_fault(inputs_view(inputs@)),
{
    let ghost all = inputs_view(inputs@);
    let mut grouped: bool = false;
    let mut same: bool = true;
    let mut i: usize = 0;
    while i < inputs.len()
        invariant
            i <= inputs@.len(),
            all == inputs_view(inputs@),
            grouped == exists|j: int| 0 <= j < i && (#[trigger] all[j]).kind.group(),
            same == forall|j: int|
                0 <= j < i ==> struct_of(#[trigger] all[j]) == struct_of(all[0]),
        decreases inputs@.len() - i,
    {
        assert(all[i as int] == inputs@[i as int]@);
        assert(all[0] == inputs@[0]@);
        if inputs[i].is_group() {
            grouped = true;
        }
        let alone: bool = matches!(inputs[i].kind(), InputKind::Filter | InputKind::Callback);
        let first_alone: bool = matches!(
            inputs[0].kind(),
            InputKind::Filter | InputKind::Callback
        );
        if alone != first_alone || (!alone && !str_eq(inputs[i].group(), inputs[0].group())) {
            assert(struct_of(all[i as int]) != struct_of(all[0]));
            same = false;
        }
        i = i + 1;
    }
    if grouped {
        if inputs.len() <= 1 {
            Some(DecodeError::MissingGroup)
        } else if !same {
            Some(DecodeError::MismatchedGroups)
        } else {
            None
        }
    } else if inputs.len() != 1 {
        Some(DecodeError::MissingFilterGroup)
    } else {
        None
    }
}

/// The custom filter that a group of annotations defines.
pub fn decode_filter(datatypes: &Vec<Group>, group: &Group) -> (r: Result<
    CustomPred,
    DecodeError,
>)
    ensures
        match r {
            Ok(p) => custom_pred(groups_view(datatypes@), group@) == Ok::<
                CustomModel,
                DecodeError,
            >(p@),
            Err(e) => custom_pred(groups_view(datatypes@), group@) == Err::<
                CustomModel,
                DecodeError,
            >(e),
        },
{
    match find_fault(&group.inputs) {
        Some(e) => {
            return Err(e);
        },
        None => {},
    }
    let ghost gs = groups_view(datatypes@);
    let ghost all = group@.inputs;
    let mut levels: Vec<Vec<StateTransition>> = Vec::new();
    let mut data: Vec<String> = Vec::new();
    let mut i: usize = 0;
    assert(levels_view(levels@) =~= Seq::empty());
    assert(texts(data@) =~= Seq::empty());
    while i < group.inputs.len()
        invariant
            i <= group.inputs@.len(),
            gs == groups_view(datatypes@),
            all == group@.inputs,
            group_fault(all) is None,
            filter_parts(gs, all, i as int) == Ok::<
                (Seq<Seq<StateTransition>>, Seq<Seq<char>>),
                DecodeError,
            >((levels_view(levels@), texts(data@))),
        decreases group.inputs@.len() - i,
    {
        let inp = &group.inputs[i];
        assert(all[i as int] == inp@);
        if matches!(inp.kind(), InputKind::Filter | InputKind::FilterGroupFn) {
            match inp.func() {
                Some(func) => {
                    match levels_of_filter_fn(datatypes, inp, &func.datatypes) {
                        Ok(l) => {
                            let ghost before = levels_view(levels@);
                            let ghost added = l@;
                            if l.len() > 0 {
                                levels.push(l);
                                assert(levels_view(levels@) =~= before.push(added));
                            }
                            append_names(&mut data, filtered_names(datatypes, &func.datatypes));
                        },
                        Err(e) => {
                            proof {
                                assert(filter_parts(gs, all, i + 1) matches Err(f) && f == e);
                                lemma_filter_parts_error(
                                    gs,
                                    all,
                                    i + 1,
                                    all.len() as int,
                                    e,
                                );
                            }
                            return Err(e);
                        },
                    }
                },
                None => {},
            }
        }
        i = i + 1;
    }
    Ok(CustomPred { name: group.name.clone(), levels, matched: true, filtered_data: data })
}

/// The custom filters of an application.
pub fn decode_filters(datatypes: &Vec<Group>, filters: &Vec<Group>) -> (r: Result<
    Vec<CustomPred>,
    DecodeError,
>)
    ensures
        match r {
            Ok(p) => custom_preds(
                groups_view(datatypes@),
                groups_view(filters@),
                filters@.len() as int,
            ) == Ok::<Seq<CustomModel>, DecodeError>(preds_view(p@)),
            Err(e) => custom_preds(
                groups_view(datatypes@),
                groups_view(filters@),
                filters@.len() as int,
            ) == Err::<Seq<CustomModel>, DecodeError>(e),
        },
{
    let ghost gs = groups_view(datatypes@);
    let ghost fs = groups_view(filters@);
    let mut preds: Vec<CustomPred> = Vec::new();
    let mut i: usize = 0;
    assert(preds_view(preds@) =~= Seq::empty());
    while i < filters.len()
        invariant
            i <= filters@.len(),
            gs == groups_view(datatypes@),
            fs == groups_view(filters@),
            custom_preds(gs, fs, i as int) == Ok::<Seq<CustomModel>, DecodeError>(
                preds_view(preds@),
            ),
        decreases filters@.len() - i,
    {
        assert(fs[i as int] == filters@[i as int]@);
        match decode_filter(datatypes, &filters[i]) {
            Ok(p) => {
                let ghost before = preds_view(preds@);
                let ghost added = p@;
                preds.push(p);
                assert(preds_view(preds@) =~= before.push(added));
            },
            Err(e) => {
                proof {
                    assert(custom_preds(gs, fs, i + 1) matches Err(f) && f == e);
                    lemma_custom_preds_error(gs, fs, i + 1, fs.len() as int, e);
                }
                return Err(e);
            },
        }
        i = i + 1;
    }
    Ok(preds)
}

} // verus!
