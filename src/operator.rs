//! The scalar condition operators.
use vstd::prelude::*;
use core::cmp::Ordering;
use crate::compare::{
    arn_eq, arn_eq_spec, arn_like, arn_like_spec, base64s_eq, base64s_eq_spec, bools_eq,
    bools_eq_spec, cmp_dates, cmp_numbers, date_order, ip_in_cidr, ip_in_cidr_spec,
    ordering_or_mismatch,
};
use crate::condition::ConditionError;
use crate::glob::{glob_matches, glob_matches_spec};
use crate::number::decimal_order;
use crate::text::str_eq;

verus! {

/// A predicate on a context value and a target value.
#[derive(Debug, Clone, Copy, Hash, PartialEq, Eq, Structural)]
pub enum Operator {
    StringEquals,
    StringNotEquals,
    StringEqualsIgnoreCase,
    StringNotEqualsIgnoreCase,
    StringLike,
    StringNotLike,

    NumericEquals,
    NumericNotEquals,
    NumericLessThan,
    NumericLessThanEquals,
    NumericGreaterThan,
    NumericGreaterThanEquals,

    DateEquals,
    DateNotEquals,
    DateLessThan,
    DateLessThanEquals,
    DateGreaterThan,
    DateGreaterThanEquals,

    Bool,

    BinaryEquals,

    IpAddress,
    NotIpAddress,

    ArnEquals,
    ArnLike,
    ArnNotEquals,
    ArnNotLike,
}

/// The lower-case form of `s`.
pub uninterp spec fn lower_of(s: Seq<char>) -> Seq<char>;

/// Relies on std's `str::to_lowercase`: the result depends on the characters
/// alone.
#[verifier::external_body]
fn lowercase(s: &str) -> (r: String)
    ensures
        r@ == lower_of(s@),
{
    s.to_lowercase()
}

/// `Ok` of whether an ordering is one of those allowed.
pub open spec fn order_holds(
    r: Result<Ordering, ConditionError>,
    less: bool,
    equal: bool,
    greater: bool,
) -> Result<bool, ConditionError> {
    match r {
        Ok(Ordering::Less) => Ok(less),
        Ok(Ordering::Equal) => Ok(equal),
        Ok(Ordering::Greater) => Ok(greater),
        Err(e) => Err(e),
    }
}

fn order_test(r: Result<Ordering, ConditionError>, less: bool, equal: bool, greater: bool) -> (b:
    Result<bool, ConditionError>)
    ensures
        b == order_holds(r, less, equal, greater),
{
    match r {
        Ok(Ordering::Less) => Ok(less),
        Ok(Ordering::Equal) => Ok(equal),
        Ok(Ordering::Greater) => Ok(greater),
        Err(e) => Err(e),
    }
}

/// The opposite answer; errors stay.
pub open spec fn negated(r: Result<bool, ConditionError>) -> Result<bool, ConditionError> {
    match r {
        Ok(b) => Ok(!b),
        Err(e) => Err(e),
    }
}

fn negate(r: Result<bool, ConditionError>) -> (n: Result<bool, ConditionError>)
    ensures
        n == negated(r),
{
    match r {
        Ok(b) => Ok(!b),
        Err(e) => Err(e),
    }
}

/// What operator `op` answers for context value `v` and target `t`.
pub open spec fn operator_spec(op: Operator, v: Seq<char>, t: Seq<char>) -> Result<bool, ConditionError> {
    match op {
            Operator::StringEquals => Ok(t == v),
            Operator::StringNotEquals => Ok(t != v),
            Operator::StringEqualsIgnoreCase => Ok(lower_of(t) == lower_of(v)),
            Operator::StringNotEqualsIgnoreCase => Ok(lower_of(t) != lower_of(v)),
            Operator::StringLike => Ok(glob_matches_spec(t, v)),
            Operator::StringNotLike => Ok(!glob_matches_spec(t, v)),
            Operator::NumericEquals => order_holds(ordering_or_mismatch(decimal_order(v, t)), false, true, false),
            Operator::NumericNotEquals => order_holds(ordering_or_mismatch(decimal_order(v, t)), true, false, true),
            Operator::NumericLessThan => order_holds(ordering_or_mismatch(decimal_order(v, t)), true, false, false),
            Operator::NumericLessThanEquals => order_holds(ordering_or_mismatch(decimal_order(v, t)), true, true, false),
            Operator::NumericGreaterThan => order_holds(ordering_or_mismatch(decimal_order(v, t)), false, false, true),
            Operator::NumericGreaterThanEquals => order_holds(ordering_or_mismatch(decimal_order(v, t)), false, true, true),
            Operator::DateEquals => order_holds(date_order(v, t), false, true, false),
            Operator::DateNotEquals => order_holds(date_order(v, t), true, false, true),
            Operator::DateLessThan => order_holds(date_order(v, t), true, false, false),
            Operator::DateLessThanEquals => order_holds(date_order(v, t), true, true, false),
            Operator::DateGreaterThan => order_holds(date_order(v, t), false, false, true),
            Operator::DateGreaterThanEquals => order_holds(date_order(v, t), false, true, true),
            Operator::Bool => bools_eq_spec(v, t),
            Operator::BinaryEquals => base64s_eq_spec(v, t),
            Operator::IpAddress => ip_in_cidr_spec(v, t),
            Operator::NotIpAddress => negated(ip_in_cidr_spec(v, t)),
            Operator::ArnEquals => arn_eq_spec(v, t),
            Operator::ArnLike => arn_like_spec(v, t),
            Operator::ArnNotEquals => negated(arn_eq_spec(v, t)),
            Operator::ArnNotLike => negated(arn_like_spec(v, t)),
    }
}

/// The name of an operator in a policy.
pub open spec fn operator_name(op: Operator) -> Seq<char> {
    match op {
            Operator::StringEquals => "StringEquals"@,
            Operator::StringNotEquals => "StringNotEquals"@,
            Operator::StringEqualsIgnoreCase => "StringEqualsIgnoreCase"@,
            Operator::StringNotEqualsIgnoreCase => "StringNotEqualsIgnoreCase"@,
            Operator::StringLike => "StringLike"@,
            Operator::StringNotLike => "StringNotLike"@,
            Operator::NumericEquals => "NumericEquals"@,
            Operator::NumericNotEquals => "NumericNotEquals"@,
            Operator::NumericLessThan => "NumericLessThan"@,
            Operator::NumericLessThanEquals => "NumericLessThanEquals"@,
            Operator::NumericGreaterThan => "NumericGreaterThan"@,
            Operator::NumericGreaterThanEquals => "NumericGreaterThanEquals"@,
            Operator::DateEquals => "DateEquals"@,
            Operator::DateNotEquals => "DateNotEquals"@,
            Operator::DateLessThan => "DateLessThan"@,
            Operator::DateLessThanEquals => "DateLessThanEquals"@,
            Operator::DateGreaterThan => "DateGreaterThan"@,
            Operator::DateGreaterThanEquals => "DateGreaterThanEquals"@,
            Operator::Bool => "Bool"@,
            Operator::BinaryEquals => "BinaryEquals"@,
            Operator::IpAddress => "IpAddress"@,
            Operator::NotIpAddress => "NotIpAddress"@,
            Operator::ArnEquals => "ArnEquals"@,
            Operator::ArnLike => "ArnLike"@,
            Operator::ArnNotEquals => "ArnNotEquals"@,
            Operator::ArnNotLike => "ArnNotLike"@,
    }
}

/// The operator named `s`, if any.
pub open spec fn operator_named(s: Seq<char>) -> Option<Operator> {
    if s == "StringEquals"@ {
        Some(Operator::StringEquals)
    } else if s == "StringNotEquals"@ {
        Some(Operator::StringNotEquals)
    } else if s == "StringEqualsIgnoreCase"@ {
        Some(Operator::StringEqualsIgnoreCase)
    } else if s == "StringNotEqualsIgnoreCase"@ {
        Some(Operator::StringNotEqualsIgnoreCase)
    } else if s == "StringLike"@ {
        Some(Operator::StringLike)
    } else if s == "StringNotLike"@ {
        Some(Operator::StringNotLike)
    } else if s == "NumericEquals"@ {
        Some(Operator::NumericEquals)
    } else if s == "NumericNotEquals"@ {
        Some(Operator::NumericNotEquals)
    } else if s == "NumericLessThan"@ {
        Some(Operator::NumericLessThan)
    } else if s == "NumericLessThanEquals"@ {
        Some(Operator::NumericLessThanEquals)
    } else if s == "NumericGreaterThan"@ {
        Some(Operator::NumericGreaterThan)
    } else if s == "NumericGreaterThanEquals"@ {
        Some(Operator::NumericGreaterThanEquals)
    } else if s == "DateEquals"@ {
        Some(Operator::DateEquals)
    } else if s == "DateNotEquals"@ {
        Some(Operator::DateNotEquals)
    } else if s == "DateLessThan"@ {
        Some(Operator::DateLessThan)
    } else if s == "DateLessThanEquals"@ {
        Some(Operator::DateLessThanEquals)
    } else if s == "DateGreaterThan"@ {
        Some(Operator::DateGreaterThan)
    } else if s == "DateGreaterThanEquals"@ {
        Some(Operator::DateGreaterThanEquals)
    } else if s == "Bool"@ {
        Some(Operator::Bool)
    } else if s == "BinaryEquals"@ {
        Some(Operator::BinaryEquals)
    } else if s == "IpAddress"@ {
        Some(Operator::IpAddress)
    } else if s == "NotIpAddress"@ {
        Some(Operator::NotIpAddress)
    } else if s == "ArnEquals"@ {
        Some(Operator::ArnEquals)
    } else if s == "ArnLike"@ {
        Some(Operator::ArnLike)
    } else if s == "ArnNotEquals"@ {
        Some(Operator::ArnNotEquals)
    } else if s == "ArnNotLike"@ {
        Some(Operator::ArnNotLike)
    } else {
        None
    }
}

/// The operator whose answers are the opposite of `op`'s, if there is one.
pub open spec fn negation_of(op: Operator) -> Option<Operator> {
    match op {
        Operator::StringEquals => Some(Operator::StringNotEquals),
        Operator::StringEqualsIgnoreCase => Some(Operator::StringNotEqualsIgnoreCase),
        Operator::StringLike => Some(Operator::StringNotLike),
        Operator::NumericEquals => Some(Operator::NumericNotEquals),
        Operator::DateEquals => Some(Operator::DateNotEquals),
        Operator::IpAddress => Some(Operator::NotIpAddress),
        Operator::ArnEquals => Some(Operator::ArnNotEquals),
        Operator::ArnLike => Some(Operator::ArnNotLike),
        _ => None,
    }
}

impl Operator {
    /// Applies the operator to a context value and a target.
    pub fn matches(&self, value: &str, target: &str) -> (r: Result<bool, ConditionError>)
        ensures
            r == operator_spec(*self, value@, target@),
    {
        match *self {
            Operator::StringEquals => Ok(str_eq(target, value)),
            Operator::StringNotEquals => Ok(!str_eq(target, value)),
            Operator::StringEqualsIgnoreCase => {
                let t = lowercase(target);
                let v = lowercase(value);
                Ok(str_eq(t.as_str(), v.as_str()))
            },
            Operator::StringNotEqualsIgnoreCase => {
                let t = lowercase(target);
                let v = lowercase(value);
                Ok(!str_eq(t.as_str(), v.as_str()))
            },
            Operator::StringLike => Ok(glob_matches(target, value)),
            Operator::StringNotLike => Ok(!glob_matches(target, value)),
            Operator::NumericEquals => order_test(cmp_numbers(value, target), false, true, false),
            Operator::NumericNotEquals => order_test(cmp_numbers(value, target), true, false, true),
            Operator::NumericLessThan => order_test(cmp_numbers(value, target), true, false, false),
            Operator::NumericLessThanEquals => order_test(cmp_numbers(value, target), true, true, false),
            Operator::NumericGreaterThan => order_test(cmp_numbers(value, target), false, false, true),
            Operator::NumericGreaterThanEquals => order_test(cmp_numbers(value, target), false, true, true),
            Operator::DateEquals => order_test(cmp_dates(value, target), false, true, false),
            Operator::DateNotEquals => order_test(cmp_dates(value, target), true, false, true),
            Operator::DateLessThan => order_test(cmp_dates(value, target), true, false, false),
            Operator::DateLessThanEquals => order_test(cmp_dates(value, target), true, true, false),
            Operator::DateGreaterThan => order_test(cmp_dates(value, target), false, false, true),
            Operator::DateGreaterThanEquals => order_test(cmp_dates(value, target), false, true, true),
            Operator::Bool => bools_eq(value, target),
            Operator::BinaryEquals => base64s_eq(value, target),
            Operator::IpAddress => ip_in_cidr(value, target),
            Operator::NotIpAddress => negate(ip_in_cidr(value, target)),
            Operator::ArnEquals => arn_eq(value, target),
            Operator::ArnLike => arn_like(value, target),
            Operator::ArnNotEquals => negate(arn_eq(value, target)),
            Operator::ArnNotLike => negate(arn_like(value, target)),
        }
    }

    /// The operator with the given name; `None` for an unknown name.
    pub fn parse(s: &str) -> (r: Option<Operator>)
        ensures
            r == operator_named(s@),
            r matches Some(op) ==> operator_name(op) == s@,
            r is None ==> forall|op: Operator| operator_name(op) != s@,
    {
        if str_eq(s, "StringEquals") {
            Some(Operator::StringEquals)
        } else if str_eq(s, "StringNotEquals") {
            Some(Operator::StringNotEquals)
        } else if str_eq(s, "StringEqualsIgnoreCase") {
            Some(Operator::StringEqualsIgnoreCase)
        } else if str_eq(s, "StringNotEqualsIgnoreCase") {
            Some(Operator::StringNotEqualsIgnoreCase)
        } else if str_eq(s, "StringLike") {
            Some(Operator::StringLike)
        } else if str_eq(s, "StringNotLike") {
            Some(Operator::StringNotLike)
        } else if str_eq(s, "NumericEquals") {
            Some(Operator::NumericEquals)
        } else if str_eq(s, "NumericNotEquals") {
            Some(Operator::NumericNotEquals)
        } else if str_eq(s, "NumericLessThan") {
            Some(Operator::NumericLessThan)
        } else if str_eq(s, "NumericLessThanEquals") {
            Some(Operator::NumericLessThanEquals)
        } else if str_eq(s, "NumericGreaterThan") {
            Some(Operator::NumericGreaterThan)
        } else if str_eq(s, "NumericGreaterThanEquals") {
            Some(Operator::NumericGreaterThanEquals)
        } else if str_eq(s, "DateEquals") {
            Some(Operator::DateEquals)
        } else if str_eq(s, "DateNotEquals") {
            Some(Operator::DateNotEquals)
        } else if str_eq(s, "DateLessThan") {
            Some(Operator::DateLessThan)
        } else if str_eq(s, "DateLessThanEquals") {
            Some(Operator::DateLessThanEquals)
        } else if str_eq(s, "DateGreaterThan") {
            Some(Operator::DateGreaterThan)
        } else if str_eq(s, "DateGreaterThanEquals") {
            Some(Operator::DateGreaterThanEquals)
        } else if str_eq(s, "Bool") {
            Some(Operator::Bool)
        } else if str_eq(s, "BinaryEquals") {
            Some(Operator::BinaryEquals)
        } else if str_eq(s, "IpAddress") {
            Some(Operator::IpAddress)
        } else if str_eq(s, "NotIpAddress") {
            Some(Operator::NotIpAddress)
        } else if str_eq(s, "ArnEquals") {
            Some(Operator::ArnEquals)
        } else if str_eq(s, "ArnLike") {
            Some(Operator::ArnLike)
        } else if str_eq(s, "ArnNotEquals") {
            Some(Operator::ArnNotEquals)
        } else if str_eq(s, "ArnNotLike") {
            Some(Operator::ArnNotLike)
        } else {
            None
        }
    }

    /// The name of the operator in a policy.
    pub fn name(&self) -> (r: &'static str)
        ensures
            r@ == operator_name(*self),
    {
        match *self {
            Operator::StringEquals => "StringEquals",
            Operator::StringNotEquals => "StringNotEquals",
            Operator::StringEqualsIgnoreCase => "StringEqualsIgnoreCase",
            Operator::StringNotEqualsIgnoreCase => "StringNotEqualsIgnoreCase",
            Operator::StringLike => "StringLike",
            Operator::StringNotLike => "StringNotLike",
            Operator::NumericEquals => "NumericEquals",
            Operator::NumericNotEquals => "NumericNotEquals",
            Operator::NumericLessThan => "NumericLessThan",
            Operator::NumericLessThanEquals => "NumericLessThanEquals",
            Operator::NumericGreaterThan => "NumericGreaterThan",
            Operator::NumericGreaterThanEquals => "NumericGreaterThanEquals",
            Operator::DateEquals => "DateEquals",
            Operator::DateNotEquals => "DateNotEquals",
            Operator::DateLessThan => "DateLessThan",
            Operator::DateLessThanEquals => "DateLessThanEquals",
            Operator::DateGreaterThan => "DateGreaterThan",
            Operator::DateGreaterThanEquals => "DateGreaterThanEquals",
            Operator::Bool => "Bool",
            Operator::BinaryEquals => "BinaryEquals",
            Operator::IpAddress => "IpAddress",
            Operator::NotIpAddress => "NotIpAddress",
            Operator::ArnEquals => "ArnEquals",
            Operator::ArnLike => "ArnLike",
            Operator::ArnNotEquals => "ArnNotEquals",
            Operator::ArnNotLike => "ArnNotLike",
        }
    }
}

/// An operator and its `Not` sibling give opposite answers wherever neither
/// raises an error.
pub proof fn negation_is_opposite(op: Operator, v: Seq<char>, t: Seq<char>)
    requires
        negation_of(op) is Some,
        operator_spec(op, v, t) is Ok,
        operator_spec(negation_of(op)->Some_0, v, t) is Ok,
    ensures
        operator_spec(op, v, t)->Ok_0 == !operator_spec(negation_of(op)->Some_0, v, t)->Ok_0,
{
}

} // verus!
