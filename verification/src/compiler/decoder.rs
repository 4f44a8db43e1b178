//! From annotations to everything that code generation iterates over, in a stable order.

use crate::compiler::filters::{
    custom_preds, decode_filters, filtered_group, is_group_filtered, preds_view, CustomModel,
    CustomPred,
};
use crate::compiler::groups::{
    builtin_types, group_names, groups_view, inputs_view, law_groups_stay_in_order, no_groups, raw_fold, raw_groups,
    raw_step, Group, GroupModel, RawInputs, RawModel,
};
use crate::compiler::input::{InputModel, ParsedInput};
use crate::compiler::levels::at_index;
use crate::compiler::names::{ascending, texts};
use crate::compiler::subscriptions::{
    datatype_specs, decode_datatypes, decode_subscriptions, invokes_once, keeps_patterns,
    patterns_streaming, pred_streaming, specs_view, subscriptions_of, subscriptions_view,
    wants_filter_str, CallbackModel, StateTransitionSpec, SubscriptionModel, SubscriptionSpec,
    TxModel,
};
use crate::compiler::updates::{
    collect_fields, collect_updates, fields_of, fields_view, updates_at, with_callback_fields,
    with_group_fields, with_subscription_fields, TrackedModel, TrackedType,
};
use crate::compiler::usage::{
    add_filter_parsers, add_parsers, declared_parsers, prune_datatypes, prune_filters,
    used_datatypes, used_filters, with_filter_parsers,
};
use crate::compiler::DecodeError;
use crate::conntrack::conn_state::{StateTransition, NUM_STATE_TRANSITIONS};
use crate::filter::pattern::FlatPattern;
use vstd::prelude::*;
use vstd::string::*;

verus! {

/// What annotations define, before the filters of subscriptions are parsed.
#[derive(Debug)]
pub struct Draft {
    /// Filters that some subscription uses.
    pub filters: Vec<Group>,
    /// Datatypes that some of those filters or some callback takes.
    pub datatypes_raw: Vec<Group>,
    pub cbs: Vec<Group>,
    /// Filters that patterns can refer to by name.
    pub custom_preds: Vec<CustomPred>,
    /// All datatypes, and the levels at which they change.
    pub datatypes: Vec<StateTransitionSpec>,
    /// Names of expensive datatypes.
    pub filtered_datatypes: Vec<String>,
    pub subscriptions: Vec<SubscriptionSpec>,
    /// Parsers that are asked for by name.
    pub parsers: Vec<String>,
}

/// A draft, as sequences.
pub struct DraftModel {
    pub filters: Seq<GroupModel>,
    pub datatypes_raw: Seq<GroupModel>,
    pub cbs: Seq<GroupModel>,
    pub custom_preds: Seq<CustomModel>,
    pub datatypes: Seq<TxModel>,
    pub filtered_datatypes: Seq<Seq<char>>,
    pub subscriptions: Seq<SubscriptionModel>,
    pub parsers: Seq<Seq<char>>,
}

impl View for Draft {
    type V = DraftModel;

    open spec fn view(&self) -> DraftModel {
        DraftModel {
            filters: groups_view(self.filters@),
            datatypes_raw: groups_view(self.datatypes_raw@),
            cbs: groups_view(self.cbs@),
            custom_preds: preds_view(self.custom_preds@),
            datatypes: specs_view(self.datatypes@),
            filtered_datatypes: texts(self.filtered_datatypes@),
            subscriptions: subscriptions_view(self.subscriptions@),
            parsers: texts(self.parsers@),
        }
    }
}

/// Names of those of the first `n` groups that define an expensive datatype.
pub open spec fn filtered_groups(gs: Seq<GroupModel>, n: int) -> Seq<Seq<char>>
    decreases n,
{
    if n <= 0 {
        Seq::empty()
    } else {
        let before = filtered_groups(gs, n - 1);
        if filtered_group(gs[n - 1].inputs) {
            before.push(gs[n - 1].name)
        } else {
            before
        }
    }
}

/// The draft that grouped annotations make.
pub open spec fn draft_of_groups(raw: RawModel) -> Result<DraftModel, DecodeError> {
    match custom_preds(raw.datatypes, raw.filters, raw.filters.len() as int) {
        Err(e) => Err(e),
        Ok(preds) => match subscriptions_of(raw.datatypes, raw.cbs, raw.cbs.len() as int) {
            Err(e) => Err(e),
            Ok(subs) => {
                let filters = used_filters(raw.filters, subs, raw.filters.len() as int);
                let datatypes = used_datatypes(
                    raw.datatypes,
                    filters,
                    raw.cbs,
                    raw.datatypes.len() as int,
                );
                Ok(
                    DraftModel {
                        filters,
                        datatypes_raw: datatypes,
                        cbs: raw.cbs,
                        custom_preds: preds,
                        datatypes: datatype_specs(raw.datatypes),
                        filtered_datatypes: filtered_groups(
                            raw.datatypes,
                            raw.datatypes.len() as int,
                        ),
                        subscriptions: subs,
                        parsers: declared_parsers(filters, datatypes, raw.cbs),
                    },
                )
            },
        },
    }
}

/// The draft that annotations make.
pub open spec fn draft_of(inputs: Seq<InputModel>) -> Result<DraftModel, DecodeError> {
    match raw_groups(inputs) {
        Err(e) => Err(e),
        Ok(raw) => draft_of_groups(raw),
    }
}

fn expensive_names(groups: &Vec<Group>) -> (r: Vec<String>)
    ensures
        texts(r@) == filtered_groups(groups_view(groups@), groups@.len() as int),
{
    let mut r: Vec<String> = Vec::new();
    let mut i: usize = 0;
    assert(texts(r@) =~= Seq::empty());
    while i < groups.len()
        invariant
            i <= groups@.len(),
            texts(r@) == filtered_groups(groups_view(groups@), i as int),
        decreases groups@.len() - i,
    {
        let ghost before = texts(r@);
        assert(groups_view(groups@)[i as int] == groups@[i as int]@);
        if is_group_filtered(&groups[i]) {
            let name = groups[i].name.clone();
            r.push(name);
            assert(texts(r@) =~= before.push(name@));
        }
        i = i + 1;
    }
    r
}

impl Draft {
    /// Decodes annotations.
    pub fn decode(inputs: &Vec<ParsedInput>) -> (r: Result<Draft, DecodeError>)
        ensures
            match r {
                Ok(d) => draft_of(inputs_view(inputs@)) == Ok::<DraftModel, DecodeError>(d@)
                    && forall|i: int|
                    0 <= i < d.subscriptions@.len() ==> (
                    #[trigger] d.subscriptions@[i]).patterns is None,
                Err(e) => draft_of(inputs_view(inputs@)) == Err::<DraftModel, DecodeError>(e),
            },
    {
        let raw = match RawInputs::parse_raw(inputs) {
            Ok(r) => r,
            Err(e) => {
                return Err(e);
            },
        };
        let datatypes = decode_datatypes(&raw.datatypes);
        let filtered_datatypes = expensive_names(&raw.datatypes);
        let preds = match decode_filters(&raw.datatypes, &raw.filters) {
            Ok(p) => p,
            Err(e) => {
                return Err(e);
            },
        };
        let subscriptions = match decode_subscriptions(&raw.datatypes, &raw.cbs) {
            Ok(s) => s,
            Err(e) => {
                return Err(e);
            },
        };
        let filters = prune_filters(raw.filters, &subscriptions);
        let datatypes_raw = prune_datatypes(raw.datatypes, &filters, &raw.cbs);
        let parsers = add_parsers(&filters, &datatypes_raw, &raw.cbs);
        Ok(
            Draft {
                filters,
                datatypes_raw,
                cbs: raw.cbs,
                custom_preds: preds,
                datatypes,
                filtered_datatypes,
                subscriptions,
                parsers,
            },
        )
    }
}

/// Everything that code generation iterates over.
#[derive(Debug)]
pub struct SubscriptionDecoder {
    pub filters_raw: Vec<Group>,
    pub datatypes_raw: Vec<Group>,
    pub cbs_raw: Vec<Group>,
    /// Parsers that are needed.
    pub parsers: Vec<String>,
    pub custom_preds: Vec<CustomPred>,
    pub datatypes: Vec<StateTransitionSpec>,
    pub filtered_datatypes: Vec<String>,
    pub subscriptions: Vec<SubscriptionSpec>,
    /// For each level, by its index, what is updated there.
    pub updates: Vec<Vec<ParsedInput>>,
    /// What is kept on a connection.
    pub tracked_types: Vec<TrackedType>,
}

/// A subscription once its patterns are known.
pub open spec fn finished(
    s: SubscriptionModel,
    patterns: Seq<FlatPattern>,
    preds: Seq<CustomModel>,
) -> SubscriptionModel {
    SubscriptionModel {
        callbacks: if invokes_once(s, patterns, preds) {
            seq![CallbackModel { invoke_once: true, ..s.callbacks[0] }]
        } else {
            s.callbacks
        },
        ..s
    }
}

/// The first `n` subscriptions once their patterns are known.
pub open spec fn finished_subscriptions(
    subs: Seq<SubscriptionModel>,
    patterns: Seq<Vec<FlatPattern>>,
    preds: Seq<CustomModel>,
    n: int,
) -> Seq<SubscriptionModel> {
    Seq::new(n as nat, |i: int| finished(subs[i], patterns[i]@, preds))
}

/// Parsers with those that the filters of the first `n` subscriptions need.
pub open spec fn with_all_filter_parsers(
    list: Seq<Seq<char>>,
    patterns: Seq<Vec<FlatPattern>>,
    n: int,
) -> Seq<Seq<char>>
    decreases n,
{
    if n <= 0 {
        list
    } else {
        with_filter_parsers(
            with_all_filter_parsers(list, patterns, n - 1),
            patterns[n - 1]@,
            patterns[n - 1]@.len() as int,
        )
    }
}

/// Every subscription keeps the patterns that its filter stands for.
pub open spec fn all_keep_patterns(
    v: Seq<SubscriptionSpec>,
    subs: Seq<SubscriptionModel>,
    patterns: Seq<Vec<FlatPattern>>,
) -> bool {
    &&& v.len() == patterns.len()
    &&& forall|i: int|
        0 <= i < v.len() ==> keeps_patterns(
            #[trigger] v[i],
            patterns[i]@,
            wants_filter_str(subs[i]),
        )
}

/// Some subscription has no callback.
pub open spec fn any_without_callback(subs: Seq<SubscriptionModel>) -> bool {
    exists|i: int| 0 <= i < subs.len() && (#[trigger] subs[i]).callbacks.len() == 0
}

/// The updates for each level.
pub open spec fn all_updates(v: Seq<Vec<ParsedInput>>, d: DraftModel) -> bool {
    &&& v.len() == NUM_STATE_TRANSITIONS + 1
    &&& forall|i: int|
        0 <= i < v.len() ==> inputs_view((#[trigger] v[i])@) == updates_at(
            d.filters,
            d.datatypes_raw,
            d.cbs,
            at_index(i),
        )
}

impl SubscriptionDecoder {
    /// Completes a draft with the patterns that the filter of each of its subscriptions
    /// stands for.
    #[verifier::loop_isolation(false)]
    pub fn new(draft: Draft, patterns: Vec<Vec<FlatPattern>>) -> (r: Result<
        SubscriptionDecoder,
        DecodeError,
    >)
        requires
            patterns@.len() == draft.subscriptions@.len(),
        ensures
            ({
                let d = draft@;
                let subs = finished_subscriptions(
                    d.subscriptions,
                    patterns@,
                    d.custom_preds,
                    d.subscriptions.len() as int,
                );
                let fields = fields_of(d.filters, d.datatypes_raw, d.cbs, subs);
                match r {
                    Ok(s) => {
                        &&& !any_without_callback(d.subscriptions)
                        &&& d.cbs.len() > 0
                        &&& fields == Ok::<Seq<TrackedModel>, DecodeError>(
                            fields_view(s.tracked_types@),
                        )
                        &&& groups_view(s.filters_raw@) == d.filters
                        &&& groups_view(s.datatypes_raw@) == d.datatypes_raw
                        &&& groups_view(s.cbs_raw@) == d.cbs
                        &&& preds_view(s.custom_preds@) == d.custom_preds
                        &&& specs_view(s.datatypes@) == d.datatypes
                        &&& texts(s.filtered_datatypes@) == d.filtered_datatypes
                        &&& texts(s.parsers@) == with_all_filter_parsers(
                            d.parsers,
                            patterns@,
                            patterns@.len() as int,
                        )
                        &&& subscriptions_view(s.subscriptions@) == subs
                        &&& all_keep_patterns(s.subscriptions@, d.subscriptions, patterns@)
                        &&& all_updates(s.updates@, d)
                    },
                    Err(DecodeError::EmptyCallbackGroup) => any_without_callback(d.subscriptions),
                    Err(DecodeError::NoCallbacks) => !any_without_callback(d.subscriptions)
                        && fields is Ok && d.cbs.len() == 0,
                    Err(e) => !any_without_callback(d.subscriptions) && fields == Err::<
                        Seq<TrackedModel>,
                        DecodeError,
                    >(e),
                }
            }),
    {
        let ghost d = draft@;
        let ghost all_patterns = patterns@;
        let preds = draft.custom_preds;
        let mut rest = draft.subscriptions;
        let mut more = patterns;
        let mut parsers = draft.parsers;
        let mut subscriptions: Vec<SubscriptionSpec> = Vec::new();
        let ghost mut i: int = 0;
        let ghost n = d.subscriptions.len() as int;
        assert(subscriptions_view(subscriptions@) =~= finished_subscriptions(
            d.subscriptions,
            all_patterns,
            d.custom_preds,
            0,
        ));
        while rest.len() > 0 && more.len() > 0
            invariant
                0 <= i,
                n == d.subscriptions.len(),
                all_patterns.len() == n,
                i + rest@.len() == n,
                i + more@.len() == n,
                preds_view(preds@) == d.custom_preds,
                forall|k: int|
                    0 <= k < rest@.len() ==> (#[trigger] rest@[k])@ == d.subscriptions[i + k],
                forall|k: int| 0 <= k < more@.len() ==> #[trigger] more@[k] == all_patterns[i + k],
                forall|k: int|
                    0 <= k < i ==> (#[trigger] d.subscriptions[k]).callbacks.len() > 0,
                texts(parsers@) == with_all_filter_parsers(d.parsers, all_patterns, i),
                subscriptions_view(subscriptions@) == finished_subscriptions(
                    d.subscriptions,
                    all_patterns,
                    d.custom_preds,
                    i,
                ),
                subscriptions@.len() == i,
                forall|k: int|
                    0 <= k < i ==> keeps_patterns(
                        #[trigger] subscriptions@[k],
                        all_patterns[k]@,
                        wants_filter_str(d.subscriptions[k]),
                    ),
            decreases rest@.len(),
        {
            let mut sub = rest.remove(0);
            let found = more.remove(0);
            assert(sub@ == d.subscriptions[i]);
            assert(found == all_patterns[i]);
            if sub.callbacks.len() == 0 {
                assert(d.subscriptions[i].callbacks.len() == 0);
                return Err(DecodeError::EmptyCallbackGroup);
            }
            add_filter_parsers(&mut parsers, &found);
            sub.add_patterns(found);
            proof {
                lemma_streaming_by_view(sub.patterns->0@, all_patterns[i]@, d.custom_preds);
            }
            sub.add_invoke_once(&preds);
            let ghost before = subscriptions_view(subscriptions@);
            let ghost added = sub@;
            subscriptions.push(sub);
            assert(subscriptions_view(subscriptions@) =~= before.push(added));
            assert(finished_subscriptions(
                d.subscriptions,
                all_patterns,
                d.custom_preds,
                i + 1,
            ) =~= before.push(added));
            proof {
                i = i + 1;
            }
        }
        let tracked_types = match collect_fields(
            &draft.filters,
            &draft.datatypes_raw,
            &draft.cbs,
            &subscriptions,
        ) {
            Ok(t) => t,
            Err(e) => {
                proof {
                    lemma_fields_errors(
                        d.filters,
                        d.datatypes_raw,
                        d.cbs,
                        subscriptions_view(subscriptions@),
                    );
                }
                return Err(e);
            },
        };
        let mut updates: Vec<Vec<ParsedInput>> = Vec::new();
        let mut k: usize = 0;
        while k <= NUM_STATE_TRANSITIONS
            invariant
                k <= NUM_STATE_TRANSITIONS + 1,
                updates@.len() == k,
                groups_view(draft.filters@) == d.filters,
                groups_view(draft.datatypes_raw@) == d.datatypes_raw,
                groups_view(draft.cbs@) == d.cbs,
                forall|j: int|
                    0 <= j < k ==> inputs_view((#[trigger] updates@[j])@) == updates_at(
                        d.filters,
                        d.datatypes_raw,
                        d.cbs,
                        at_index(j),
                    ),
            decreases NUM_STATE_TRANSITIONS + 1 - k,
        {
            let level = StateTransition::from_usize(k);
            assert(level == at_index(k as int));
            updates.push(
                collect_updates(&draft.filters, &draft.datatypes_raw, &draft.cbs, level),
            );
            k = k + 1;
        }
        if draft.cbs.len() == 0 {
            return Err(DecodeError::NoCallbacks);
        }
        Ok(
            SubscriptionDecoder {
                filters_raw: draft.filters,
                datatypes_raw: draft.datatypes_raw,
                cbs_raw: draft.cbs,
                parsers,
                custom_preds: preds,
                datatypes: draft.datatypes,
                filtered_datatypes: draft.filtered_datatypes,
                subscriptions,
                updates,
                tracked_types,
            },
        )
    }
}

/// Whether a pattern recurs does not depend on how it is written.
proof fn lemma_streaming_by_view(a: Seq<FlatPattern>, b: Seq<FlatPattern>, preds: Seq<CustomModel>)
    requires
        a.len() == b.len(),
        forall|i: int| 0 <= i < a.len() ==> (#[trigger] a[i])@ == b[i]@,
    ensures
        patterns_streaming(a, preds)
            == patterns_streaming(b, preds),
{
    if patterns_streaming(a, preds) {
        let (i, j) = choose|i: int, j: int|
            0 <= i < a.len() && 0 <= j < a[i]@.len()
                && pred_streaming(#[trigger] a[i]@[j], preds);
        assert(a[i]@ == b[i]@);
        assert(pred_streaming(b[i]@[j], preds));
    }
    if patterns_streaming(b, preds) {
        let (i, j) = choose|i: int, j: int|
            0 <= i < b.len() && 0 <= j < b[i]@.len()
                && pred_streaming(#[trigger] b[i]@[j], preds);
        assert(a[i]@ == b[i]@);
        assert(pred_streaming(a[i]@[j], preds));
    }
}

proof fn lemma_callback_fields_fail_one_way(
    list: Seq<TrackedModel>,
    cbs: Seq<CallbackModel>,
    n: int,
)
    ensures
        with_callback_fields(list, cbs, n) matches Err(e) ==> e
            == DecodeError::GroupedInvokeOnce,
    decreases n,
{
    if n > 0 {
        lemma_callback_fields_fail_one_way(list, cbs, n - 1);
    }
}

proof fn lemma_subscription_fields_fail_one_way(
    list: Seq<TrackedModel>,
    subs: Seq<SubscriptionModel>,
    n: int,
)
    ensures
        with_subscription_fields(list, subs, n) matches Err(e) ==> e
            == DecodeError::GroupedInvokeOnce,
    decreases n,
{
    if n > 0 {
        lemma_subscription_fields_fail_one_way(list, subs, n - 1);
        if let Ok(before) = with_subscription_fields(
            list,
            subs,
            n - 1,
        ) {
            lemma_callback_fields_fail_one_way(
                before,
                subs[n - 1].callbacks,
                subs[n - 1].callbacks.len() as int,
            );
        }
    }
}

proof fn lemma_fields_errors(
    filters: Seq<GroupModel>,
    datatypes: Seq<GroupModel>,
    cbs: Seq<GroupModel>,
    subs: Seq<SubscriptionModel>,
)
    ensures
        fields_of(filters, datatypes, cbs, subs) matches Err(e) ==> e
            == DecodeError::GroupedInvokeOnce,
{
    lemma_subscription_fields_fail_one_way(
        with_group_fields(
            with_group_fields(
                with_group_fields(
                    Seq::empty(),
                    filters,
                    filters.len() as int,
                ),
                datatypes,
                datatypes.len() as int,
            ),
            cbs,
            cbs.len() as int,
        ),
        subs,
        subs.len() as int,
    );
}

/// Filters, datatypes and callbacks are in alphabetical order, each name once, however they
/// were declared: so is everything that is made of them.
pub proof fn law_groups_are_in_order(inputs: Seq<InputModel>)
    ensures
        raw_groups(inputs) matches Ok(raw) ==> {
            &&& ascending(group_names(raw.filters))
            &&& ascending(group_names(raw.datatypes))
            &&& ascending(group_names(raw.cbs))
        },
{
    let none = no_groups();
    lemma_fold_in_order(none, builtin_types() + inputs);
}

proof fn lemma_fold_in_order(r: RawModel, inputs: Seq<InputModel>)
    requires
        ascending(group_names(r.filters)),
        ascending(group_names(r.datatypes)),
        ascending(group_names(r.cbs)),
    ensures
        raw_fold(r, inputs) matches Ok(raw) ==> {
            &&& ascending(group_names(raw.filters))
            &&& ascending(group_names(raw.datatypes))
            &&& ascending(group_names(raw.cbs))
        },
    decreases inputs.len(),
{
    if inputs.len() > 0 {
        lemma_fold_in_order(r, inputs.drop_last());
        if let Ok(before) = raw_fold(r, inputs.drop_last()) {
            let inp = inputs.last();
            law_groups_stay_in_order(before.filters, inp.owner, inp);
            law_groups_stay_in_order(before.datatypes, inp.owner, inp);
            law_groups_stay_in_order(before.cbs, inp.owner, inp);
            assert(raw_fold(r, inputs) == raw_step(before, inp));
        }
    }
}

} // verus!
