//! Parsed annotations: datatypes, filters and callbacks as their authors declare them.

use crate::compiler::names::{copy_names, texts};
use crate::conntrack::conn_state::StateTransition;
use vstd::prelude::*;
use vstd::string::*;

verus! {

/// How a constructor hands over what it makes.
#[derive(Debug, Clone, Copy, PartialEq, Eq, Structural)]
pub enum ConstrType {
    Owned,
    Ref,
    Opt,
    OptRef,
}

/// What a function returns.
#[derive(Debug, Clone, Copy, PartialEq, Eq, Structural)]
pub enum FnReturn {
    FilterResult,
    Bool,
    Constructor(ConstrType),
    Nothing,
}

/// A function and the datatypes that it takes.
#[derive(Debug)]
pub struct FnDecl {
    pub name: String,
    pub datatypes: Vec<String>,
    pub returns: FnReturn,
}

/// A datatype.
#[derive(Debug)]
pub struct DatatypeSpec {
    pub name: String,
    pub level: Option<StateTransition>,
    pub expl_parsers: Vec<String>,
    /// It is expensive, and discarded when the subscriptions that want it are out of scope.
    pub filtered: bool,
}

/// A method of a datatype.
#[derive(Debug)]
pub struct DatatypeFnSpec {
    pub group_name: String,
    pub func: FnDecl,
    pub level: Vec<StateTransition>,
}

/// A filter function.
#[derive(Debug)]
pub struct FilterFnSpec {
    pub func: FnDecl,
    pub level: Vec<StateTransition>,
    pub expl_parsers: Vec<String>,
}

/// A stateful filter.
#[derive(Debug)]
pub struct FilterGroupSpec {
    pub level: Option<StateTransition>,
    pub name: String,
    pub expl_parsers: Vec<String>,
}

/// A method of a stateful filter.
#[derive(Debug)]
pub struct FilterGroupFnSpec {
    pub level: Vec<StateTransition>,
    pub group_name: String,
    pub func: FnDecl,
}

/// A callback function.
#[derive(Debug)]
pub struct CallbackFnSpec {
    pub filter: String,
    pub level: Vec<StateTransition>,
    pub func: FnDecl,
    pub expl_parsers: Vec<String>,
}

/// A stateful callback.
#[derive(Debug)]
pub struct CallbackGroupSpec {
    pub filter: String,
    pub level: Option<StateTransition>,
    pub name: String,
    pub expl_parsers: Vec<String>,
}

/// A method of a stateful callback.
#[derive(Debug)]
pub struct CallbackGroupFnSpec {
    pub level: Vec<StateTransition>,
    pub group_name: String,
    pub func: FnDecl,
}

/// An annotation.
#[derive(Debug)]
pub enum ParsedInput {
    Datatype(DatatypeSpec),
    DatatypeFn(DatatypeFnSpec),
    Filter(FilterFnSpec),
    FilterGroup(FilterGroupSpec),
    FilterGroupFn(FilterGroupFnSpec),
    Callback(CallbackFnSpec),
    CallbackGroup(CallbackGroupSpec),
    CallbackGroupFn(CallbackGroupFnSpec),
}

/// The kinds of annotations.
#[derive(Debug, Clone, Copy, PartialEq, Eq, Structural)]
pub enum InputKind {
    Datatype,
    DatatypeFn,
    Filter,
    FilterGroup,
    FilterGroupFn,
    Callback,
    CallbackGroup,
    CallbackGroupFn,
}

impl InputKind {
    /// The annotation defines a struct whose methods are annotated too.
    pub open spec fn group(self) -> bool {
        self == InputKind::Datatype || self == InputKind::FilterGroup || self
            == InputKind::CallbackGroup
    }

    /// The annotation is on a method.
    pub open spec fn method(self) -> bool {
        self == InputKind::DatatypeFn || self == InputKind::FilterGroupFn || self
            == InputKind::CallbackGroupFn
    }
}

/// An annotation, with what all kinds have in common.
pub struct InputModel {
    pub kind: InputKind,
    /// Name of the struct or function.
    pub name: Seq<char>,
    /// Name of the struct that a method belongs to; otherwise the annotation's own name.
    pub owner: Seq<char>,
    /// Datatypes that the function takes.
    pub datatypes: Seq<Seq<char>>,
    /// What the function returns, if the annotation is on a function.
    pub returns: Option<FnReturn>,
    /// State transitions at which it is invoked, as declared.
    pub levels: Seq<StateTransition>,
    pub parsers: Seq<Seq<char>>,
    /// Filter of a callback.
    pub filter: Seq<char>,
    pub filtered: bool,
}

impl InputModel {
    /// The function is a constructor.
    pub open spec fn constructor(self) -> bool {
        self.returns matches Some(r) && r is Constructor
    }
}

pub open spec fn opt_level(l: Option<StateTransition>) -> Seq<StateTransition> {
    match l {
        Some(t) => seq![t],
        None => Seq::empty(),
    }
}

/// A function's annotation.
pub open spec fn fn_model(
    kind: InputKind,
    func: FnDecl,
    owner: Seq<char>,
    level: Vec<StateTransition>,
    parsers: Seq<Seq<char>>,
    filter: Seq<char>,
) -> InputModel {
    InputModel {
        kind,
        name: func.name@,
        owner,
        datatypes: texts(func.datatypes@),
        returns: Some(func.returns),
        levels: level@,
        parsers,
        filter,
        filtered: false,
    }
}

/// A struct's annotation.
pub open spec fn struct_model(
    kind: InputKind,
    name: Seq<char>,
    level: Option<StateTransition>,
    parsers: Seq<Seq<char>>,
    filter: Seq<char>,
    filtered: bool,
) -> InputModel {
    InputModel {
        kind,
        name,
        owner: name,
        datatypes: Seq::empty(),
        returns: None,
        levels: opt_level(level),
        parsers,
        filter,
        filtered,
    }
}

impl View for ParsedInput {
    type V = InputModel;

    open spec fn view(&self) -> InputModel {
        match self {
            ParsedInput::Datatype(d) => struct_model(
                InputKind::Datatype,
                d.name@,
                d.level,
                texts(d.expl_parsers@),
                Seq::empty(),
                d.filtered,
            ),
            ParsedInput::DatatypeFn(d) => fn_model(
                InputKind::DatatypeFn,
                d.func,
                d.group_name@,
                d.level,
                Seq::empty(),
                Seq::empty(),
            ),
            ParsedInput::Filter(f) => fn_model(
                InputKind::Filter,
                f.func,
                f.func.name@,
                f.level,
                texts(f.expl_parsers@),
                Seq::empty(),
            ),
            ParsedInput::FilterGroup(f) => struct_model(
                InputKind::FilterGroup,
                f.name@,
                f.level,
                texts(f.expl_parsers@),
                Seq::empty(),
                false,
            ),
            ParsedInput::FilterGroupFn(f) => fn_model(
                InputKind::FilterGroupFn,
                f.func,
                f.group_name@,
                f.level,
                Seq::empty(),
                Seq::empty(),
            ),
            ParsedInput::Callback(c) => fn_model(
                InputKind::Callback,
                c.func,
                c.func.name@,
                c.level,
                texts(c.expl_parsers@),
                c.filter@,
            ),
            ParsedInput::CallbackGroup(c) => struct_model(
                InputKind::CallbackGroup,
                c.name@,
                c.level,
                texts(c.expl_parsers@),
                c.filter@,
                false,
            ),
            ParsedInput::CallbackGroupFn(c) => fn_model(
                InputKind::CallbackGroupFn,
                c.func,
                c.group_name@,
                c.level,
                Seq::empty(),
                Seq::empty(),
            ),
        }
    }
}

/// A copy of some levels.
pub fn copy_levels(levels: &Vec<StateTransition>) -> (r: Vec<StateTransition>)
    ensures
        r@ == levels@,
{
    let r = vstd::slice::slice_to_vec(levels.as_slice());
    assert(r@ =~= levels@);
    r
}

fn copy_fn(func: &FnDecl) -> (r: FnDecl)
    ensures
        r.name@ == func.name@,
        texts(r.datatypes@) == texts(func.datatypes@),
        r.returns == func.returns,
{
    FnDecl {
        name: func.name.clone(),
        datatypes: copy_names(&func.datatypes),
        returns: func.returns,
    }
}

impl ParsedInput {
    pub fn kind(&self) -> (k: InputKind)
        ensures
            k == self@.kind,
    {
        match self {
            ParsedInput::Datatype(_) => InputKind::Datatype,
            ParsedInput::DatatypeFn(_) => InputKind::DatatypeFn,
            ParsedInput::Filter(_) => InputKind::Filter,
            ParsedInput::FilterGroup(_) => InputKind::FilterGroup,
            ParsedInput::FilterGroupFn(_) => InputKind::FilterGroupFn,
            ParsedInput::Callback(_) => InputKind::Callback,
            ParsedInput::CallbackGroup(_) => InputKind::CallbackGroup,
            ParsedInput::CallbackGroupFn(_) => InputKind::CallbackGroupFn,
        }
    }

    /// Name of the struct or function.
    pub fn name(&self) -> (s: &str)
        ensures
            s@ == self@.name,
    {
        match self {
            ParsedInput::Datatype(d) => d.name.as_str(),
            ParsedInput::DatatypeFn(d) => d.func.name.as_str(),
            ParsedInput::Filter(f) => f.func.name.as_str(),
            ParsedInput::FilterGroup(f) => f.name.as_str(),
            ParsedInput::FilterGroupFn(f) => f.func.name.as_str(),
            ParsedInput::Callback(c) => c.func.name.as_str(),
            ParsedInput::CallbackGroup(c) => c.name.as_str(),
            ParsedInput::CallbackGroupFn(c) => c.func.name.as_str(),
        }
    }

    /// Name under which the annotation is filed.
    pub fn group(&self) -> (s: &str)
        ensures
            s@ == self@.owner,
    {
        match self {
            ParsedInput::DatatypeFn(d) => d.group_name.as_str(),
            ParsedInput::FilterGroupFn(f) => f.group_name.as_str(),
            ParsedInput::CallbackGroupFn(c) => c.group_name.as_str(),
            _ => self.name(),
        }
    }

    /// The annotation defines a struct whose methods are annotated too.
    pub fn is_group(&self) -> (b: bool)
        ensures
            b == self@.kind.group(),
    {
        matches!(
            self,
            ParsedInput::Datatype(_) | ParsedInput::FilterGroup(_) | ParsedInput::CallbackGroup(_)
        )
    }

    /// The annotated function is a constructor.
    pub fn is_constructor(&self) -> (b: bool)
        ensures
            b == self@.constructor(),
    {
        match self.func() {
            Some(f) => matches!(f.returns, FnReturn::Constructor(_)),
            None => false,
        }
    }

    /// The annotated function.
    pub fn func(&self) -> (r: Option<&FnDecl>)
        ensures
            match r {
                Some(f) => !self@.kind.group() && self@.name == f.name@ && self@.datatypes
                    == texts(f.datatypes@) && self@.returns == Some(f.returns),
                None => self@.kind.group() && self@.returns is None,
            },
    {
        match self {
            ParsedInput::DatatypeFn(d) => Some(&d.func),
            ParsedInput::Filter(f) => Some(&f.func),
            ParsedInput::FilterGroupFn(f) => Some(&f.func),
            ParsedInput::Callback(c) => Some(&c.func),
            ParsedInput::CallbackGroupFn(c) => Some(&c.func),
            _ => None,
        }
    }

    /// State transitions at which it is invoked, as declared.
    pub fn levels(&self) -> (r: Vec<StateTransition>)
        ensures
            r@ == self@.levels,
    {
        match self {
            ParsedInput::Datatype(d) => opt_levels(d.level),
            ParsedInput::DatatypeFn(d) => copy_levels(&d.level),
            ParsedInput::Filter(f) => copy_levels(&f.level),
            ParsedInput::FilterGroup(f) => opt_levels(f.level),
            ParsedInput::FilterGroupFn(f) => copy_levels(&f.level),
            ParsedInput::Callback(c) => copy_levels(&c.level),
            ParsedInput::CallbackGroup(c) => opt_levels(c.level),
            ParsedInput::CallbackGroupFn(c) => copy_levels(&c.level),
        }
    }

    /// Parsers that are asked for by name.
    pub fn expl_parsers(&self) -> (r: Vec<String>)
        ensures
            texts(r@) == self@.parsers,
    {
        let r = match self {
            ParsedInput::Datatype(d) => copy_names(&d.expl_parsers),
            ParsedInput::Filter(f) => copy_names(&f.expl_parsers),
            ParsedInput::FilterGroup(f) => copy_names(&f.expl_parsers),
            ParsedInput::Callback(c) => copy_names(&c.expl_parsers),
            ParsedInput::CallbackGroup(c) => copy_names(&c.expl_parsers),
            _ => Vec::new(),
        };
        assert(texts(r@) =~= self@.parsers);
        r
    }

    /// Filter of a callback; empty for anything else.
    pub fn filter(&self) -> (s: String)
        ensures
            s@ == self@.filter,
    {
        match self {
            ParsedInput::Callback(c) => c.filter.clone(),
            ParsedInput::CallbackGroup(c) => c.filter.clone(),
            _ => {
                let s = String::new();
                assert(s@ =~= Seq::empty());
                s
            },
        }
    }

    /// The datatype is an expensive one.
    pub fn is_filtered(&self) -> (b: bool)
        ensures
            b == self@.filtered,
    {
        match self {
            ParsedInput::Datatype(d) => d.filtered,
            _ => false,
        }
    }

    /// A copy of the annotation.
    pub fn copy(&self) -> (r: ParsedInput)
        ensures
            r@ == self@,
    {
        match self {
            ParsedInput::Datatype(d) => ParsedInput::Datatype(
                DatatypeSpec {
                    name: d.name.clone(),
                    level: d.level,
                    expl_parsers: copy_names(&d.expl_parsers),
                    filtered: d.filtered,
                },
            ),
            ParsedInput::DatatypeFn(d) => ParsedInput::DatatypeFn(
                DatatypeFnSpec {
                    group_name: d.group_name.clone(),
                    func: copy_fn(&d.func),
                    level: copy_levels(&d.level),
                },
            ),
            ParsedInput::Filter(f) => ParsedInput::Filter(
                FilterFnSpec {
                    func: copy_fn(&f.func),
                    level: copy_levels(&f.level),
                    expl_parsers: copy_names(&f.expl_parsers),
                },
            ),
            ParsedInput::FilterGroup(f) => ParsedInput::FilterGroup(
                FilterGroupSpec {
                    level: f.level,
                    name: f.name.clone(),
                    expl_parsers: copy_names(&f.expl_parsers),
                },
            ),
            ParsedInput::FilterGroupFn(f) => ParsedInput::FilterGroupFn(
                FilterGroupFnSpec {
                    level: copy_levels(&f.level),
                    group_name: f.group_name.clone(),
                    func: copy_fn(&f.func),
                },
            ),
            ParsedInput::Callback(c) => ParsedInput::Callback(
                CallbackFnSpec {
                    filter: c.filter.clone(),
                    level: copy_levels(&c.level),
                    func: copy_fn(&c.func),
                    expl_parsers: copy_names(&c.expl_parsers),
                },
            ),
            ParsedInput::CallbackGroup(c) => ParsedInput::CallbackGroup(
                CallbackGroupSpec {
                    filter: c.filter.clone(),
                    level: c.level,
                    name: c.name.clone(),
                    expl_parsers: copy_names(&c.expl_parsers),
                },
            ),
            ParsedInput::CallbackGroupFn(c) => ParsedInput::CallbackGroupFn(
                CallbackGroupFnSpec {
                    level: copy_levels(&c.level),
                    group_name: c.group_name.clone(),
                    func: copy_fn(&c.func),
                },
            ),
        }
    }
}

fn opt_levels(l: Option<StateTransition>) -> (r: Vec<StateTransition>)
    ensures
        r@ == opt_level(l),
{
    let mut r: Vec<StateTransition> = Vec::new();
    match l {
        Some(t) => {
            r.push(t);
        },
        None => {},
    }
    assert(r@ =~= opt_level(l));
    r
}

} // verus!
