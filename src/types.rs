use vstd::prelude::*;

verus! {

/// The scalar types a column may declare.
#[derive(Clone, Copy, Debug, PartialEq, Eq, Structural)]
pub enum DataType {
    Boolean,
    Int32,
    Int64,
    Utf8,
    Float64,
}

/// The aggregate functions an operator can compute.
#[derive(Clone, Copy, Debug, PartialEq, Eq, Structural)]
pub enum AggregateType {
    Min,
    Max,
    Sum,
    Count,
}

/// Errors surfaced by the operators; each is distinct and inspectable.
#[derive(Clone, Copy, Debug, PartialEq, Eq, Structural)]
pub enum ExecutionError {
    /// The aggregate function is not implemented for the argument type.
    UnsupportedFunction,
    /// A group key or an aggregate argument has a type with no dispatch branch.
    UnsupportedType,
    /// A column evaluator could not produce its column.
    EvaluationFailure,
    /// The declared schema does not match the columns actually produced.
    SchemaMismatch,
    /// A running count or sum no longer fits its representation.
    Overflow,
}

} // verus!
