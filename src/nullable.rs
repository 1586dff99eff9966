//! How an operator treats a missing context value.
use vstd::prelude::*;
use crate::condition::ConditionError;
use crate::operator::{Operator, operator_spec};
use crate::text::str_eq;

verus! {

#[derive(Debug, Clone, Copy, Hash, PartialEq, Eq, Structural)]
pub enum Nullable {
    /// The value must be present and match the operator.
    Expect(Operator),
    /// A missing value matches; a present one must match the operator.
    IfExists(Operator),
    /// Only whether the value is present counts.
    IsNull,
}

pub open spec fn nullable_spec(n: Nullable, value: Option<Seq<char>>, target: Seq<char>) -> Result<bool, ConditionError> {
    match n {
        Nullable::Expect(op) => match value {
            Some(v) => operator_spec(op, v, target),
            None => Ok(false),
        },
        Nullable::IfExists(op) => match value {
            Some(v) => operator_spec(op, v, target),
            None => Ok(true),
        },
        Nullable::IsNull => if target == seq!['t', 'r', 'u', 'e'] {
            Ok(value is None)
        } else if target == seq!['f', 'a', 'l', 's', 'e'] {
            Ok(value is Some)
        } else {
            Err(ConditionError::TypeMismatch)
        },
    }
}

impl Nullable {
    pub fn matches(&self, value: Option<&str>, target: &str) -> (r: Result<bool, ConditionError>)
        ensures
            r == nullable_spec(
                *self,
                match value {
                    Some(v) => Some(v@),
                    None => None,
                },
                target@,
            ),
    {
        proof {
            reveal_strlit("true");
            reveal_strlit("false");
            assert("true"@ =~= seq!['t', 'r', 'u', 'e']);
            assert("false"@ =~= seq!['f', 'a', 'l', 's', 'e']);
        }
        match *self {
            Nullable::Expect(operator) => match value {
                Some(v) => operator.matches(v, target),
                None => Ok(false),
            },
            Nullable::IsNull => if str_eq(target, "true") {
                Ok(value.is_none())
            } else if str_eq(target, "false") {
                Ok(value.is_some())
            } else {
                Err(ConditionError::TypeMismatch)
            },
            Nullable::IfExists(operator) => match value {
                Some(v) => operator.matches(v, target),
                None => Ok(true),
            },
        }
    }
}

} // verus!
