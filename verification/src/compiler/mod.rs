//! From annotated callbacks, filters and datatypes to a plan for processing connections.

pub mod codegen;
pub mod decoder;
pub mod execution;
pub mod filters;
pub mod groups;
pub mod input;
pub mod levels;
pub mod names;
pub mod plan;
pub mod subscriptions;
pub mod updates;
pub mod usage;

use vstd::prelude::*;

verus! {

/// Why annotations do not make up an application.
#[derive(Debug, Clone, Copy, PartialEq, Eq, Structural)]
pub enum DecodeError {
    /// Two callbacks have the same name.
    CallbackDefinedTwice,
    /// A stateful filter without methods.
    MissingGroup,
    /// Methods of a stateful filter that belong to different structs.
    MismatchedGroups,
    /// Methods of a stateful filter whose struct is not annotated.
    MissingFilterGroup,
    /// A filter that takes a streaming datatype must say at which level it is invoked.
    FilterLevelRequired,
    /// A function takes a datatype that is not defined.
    UnknownDatatype,
    /// A datatype has methods, but its struct is not annotated.
    MissingDatatypeDecl,
    /// Neither a datatype's struct nor a method of it says at which level it is available.
    MissingDatatypeFn,
    /// A datatype that a filter takes is not available at exactly one level.
    AmbiguousLevel,
    /// The datatypes that a filter takes are available at different levels.
    MixedLevels,
    /// Methods of a stateful callback whose struct is not annotated.
    MissingCallback,
    /// A callback function that shares its name with something else.
    ExtraCallback,
    /// A callback that takes a streaming datatype must say at which level it is invoked.
    CallbackLevelRequired,
    /// A callback that takes a datatype of the end of a connection is invoked there only.
    TerminatedLevel,
    /// A stateful callback without methods.
    EmptyCallbackGroup,
    /// A grouped callback is to be invoked once, which is not supported.
    GroupedInvokeOnce,
    /// There is nothing to deliver data to.
    NoCallbacks,
}

} // verus!
