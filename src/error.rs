use vstd::prelude::*;

verus! {

/// What is wrong with an exclusion marker.
#[derive(Debug, Clone, Copy, PartialEq, Eq, Structural)]
pub enum ExcludeProblem {
    /// The marker has an empty argument list.
    NoArgument,
    /// The marker names more than one variant, which is not supported.
    SeveralPrefixes,
    /// The single argument is not a bare identifier.
    NotAnIdentifier,
}

/// Why an expansion was abandoned. Every error aborts the whole expansion.
#[derive(Debug, Clone, Copy, PartialEq, Eq, Structural)]
pub enum ExpandError {
    /// The annotated declaration is not a struct.
    NotAStruct,
    /// The exclusion marker on the field at this position is malformed.
    MalformedExclude { field: usize, problem: ExcludeProblem },
    /// An item of the derive list in the attribute with this id is not a bare identifier.
    MalformedDeriveItem { attr: usize },
    /// The table-name override in the attribute with this id is not of the
    /// form `intermediate_table_name = "..."` with a string literal.
    MalformedTableName { attr: usize },
}

} // verus!
