//! How global condition keys are typed and how many values they carry.
use vstd::prelude::*;

verus! {

/// The type of a condition key's values.
#[derive(Debug, Clone, Copy, PartialEq, Eq, Structural)]
pub enum Type {
    String,
    Numeric,
    Date,
    /// Supports both date and numeric operators.
    Epoch,
    Bool,
    Binary,
    IpAddress,
    ARN,
    UnknownType,
}

/// How many values a condition key carries.
#[derive(Debug, Clone, Copy, PartialEq, Eq, Structural)]
pub enum Cardinality {
    Optional,
    Required,
    Multiple,
    UnknownCardinality,
}

} // verus!
