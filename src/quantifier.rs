//! Operators lifted over the several values of a context key.
use vstd::prelude::*;
use crate::condition::ConditionError;
use crate::operator::{Operator, operator_spec};
use crate::text::str_eq;

verus! {

#[derive(Debug, Clone, Copy, Hash, PartialEq, Eq, Structural)]
pub enum Quantifier {
    /// Every context value matches some target; true when the key is absent.
    ForAllValues(Operator),
    /// Some context value matches some target; false when the key is absent.
    ForAnyValue(Operator),
    /// Like `ForAnyValue`, but an absent key matches.
    IfExists(Operator),
    /// Whether the key is absent equals the single boolean target.
    Null,
}

/// The characters of each string.
pub open spec fn strs(v: Seq<String>) -> Seq<Seq<char>> {
    v.map_values(|s: String| s@)
}

/// Whether `v` matches one of `targets`, trying them in order and stopping at
/// the first match or error.
pub open spec fn any_target(op: Operator, v: Seq<char>, targets: Seq<Seq<char>>) -> Result<bool, ConditionError>
    decreases targets.len(),
{
    if targets.len() == 0 {
        Ok(false)
    } else {
        match operator_spec(op, v, targets[0]) {
            Err(e) => Err(e),
            Ok(true) => Ok(true),
            Ok(false) => any_target(op, v, targets.drop_first()),
        }
    }
}

/// Whether every value matches some target, stopping at the first value that
/// does not, or at the first error.
pub open spec fn all_values(op: Operator, vs: Seq<Seq<char>>, targets: Seq<Seq<char>>) -> Result<bool, ConditionError>
    decreases vs.len(),
{
    if vs.len() == 0 {
        Ok(true)
    } else {
        match any_target(op, vs[0], targets) {
            Err(e) => Err(e),
            Ok(false) => Ok(false),
            Ok(true) => all_values(op, vs.drop_first(), targets),
        }
    }
}

/// Whether some value matches some target, stopping at the first that does,
/// or at the first error.
pub open spec fn any_value(op: Operator, vs: Seq<Seq<char>>, targets: Seq<Seq<char>>) -> Result<bool, ConditionError>
    decreases vs.len(),
{
    if vs.len() == 0 {
        Ok(false)
    } else {
        match any_target(op, vs[0], targets) {
            Err(e) => Err(e),
            Ok(true) => Ok(true),
            Ok(false) => any_value(op, vs.drop_first(), targets),
        }
    }
}

pub open spec fn null_spec(values: Option<Seq<Seq<char>>>, targets: Seq<Seq<char>>) -> Result<bool, ConditionError> {
    if targets.len() != 1 {
        Err(ConditionError::TooManyValues)
    } else if targets[0] == seq!['t', 'r', 'u', 'e'] {
        Ok(values is None)
    } else if targets[0] == seq!['f', 'a', 'l', 's', 'e'] {
        Ok(values is Some)
    } else {
        Err(ConditionError::TypeMismatch)
    }
}

pub open spec fn quantifier_spec(q: Quantifier, values: Option<Seq<Seq<char>>>, targets: Seq<Seq<char>>) -> Result<bool, ConditionError> {
    match q {
        Quantifier::ForAllValues(op) => match values {
            Some(vs) => all_values(op, vs, targets),
            None => Ok(true),
        },
        Quantifier::ForAnyValue(op) => match values {
            Some(vs) => any_value(op, vs, targets),
            None => Ok(false),
        },
        Quantifier::IfExists(op) => match values {
            Some(vs) => any_value(op, vs, targets),
            None => Ok(true),
        },
        Quantifier::Null => null_spec(values, targets),
    }
}

fn matches_target(op: &Operator, value: &String, targets: &Vec<String>) -> (r: Result<bool, ConditionError>)
    ensures
        r == any_target(*op, value@, strs(targets@)),
{
    let ghost ts = strs(targets@);
    assert(ts.subrange(0, ts.len() as int) =~= ts);
    let mut i: usize = 0;
    while i < targets.len()
        invariant
            ts == strs(targets@),
            i <= targets@.len(),
            any_target(*op, value@, ts) == any_target(*op, value@, ts.subrange(i as int, ts.len() as int)),
        decreases targets.len() - i,
    {
        proof {
            let rest = ts.subrange(i as int, ts.len() as int);
            assert(rest[0] == targets@[i as int]@);
            assert(rest.drop_first() =~= ts.subrange(i + 1, ts.len() as int));
        }
        match op.matches(value.as_str(), targets[i].as_str()) {
            Err(e) => {
                return Err(e);
            },
            Ok(true) => {
                return Ok(true);
            },
            Ok(false) => {},
        }
        i += 1;
    }
    proof {
        assert(ts.subrange(i as int, ts.len() as int).len() == 0);
    }
    Ok(false)
}

/// `all_values` over the values, with no treatment of an absent key.
fn all_values_match(op: &Operator, values: &Vec<String>, targets: &Vec<String>) -> (r: Result<bool, ConditionError>)
    ensures
        r == all_values(*op, strs(values@), strs(targets@)),
{
    let ghost vs = strs(values@);
    let ghost ts = strs(targets@);
    assert(vs.subrange(0, vs.len() as int) =~= vs);
    let mut i: usize = 0;
    while i < values.len()
        invariant
            vs == strs(values@),
            ts == strs(targets@),
            i <= values@.len(),
            all_values(*op, vs, ts) == all_values(*op, vs.subrange(i as int, vs.len() as int), ts),
        decreases values.len() - i,
    {
        proof {
            let rest = vs.subrange(i as int, vs.len() as int);
            assert(rest[0] == values@[i as int]@);
            assert(rest.drop_first() =~= vs.subrange(i + 1, vs.len() as int));
        }
        match matches_target(op, &values[i], targets) {
            Err(e) => {
                return Err(e);
            },
            Ok(false) => {
                return Ok(false);
            },
            Ok(true) => {},
        }
        i += 1;
    }
    proof {
        assert(vs.subrange(i as int, vs.len() as int).len() == 0);
    }
    Ok(true)
}

fn matches_all(op: &Operator, values: Option<&Vec<String>>, targets: &Vec<String>) -> (r: Result<bool, ConditionError>)
    ensures
        r == quantifier_spec(
            Quantifier::ForAllValues(*op),
            match values {
                Some(v) => Some(strs(v@)),
                None => None,
            },
            strs(targets@),
        ),
{
    match values {
        Some(v) => all_values_match(op, v, targets),
        None => Ok(true),
    }
}

/// `any_value` over the values, with no treatment of an absent key.
fn any_value_matches(op: &Operator, values: &Vec<String>, targets: &Vec<String>) -> (r: Result<bool, ConditionError>)
    ensures
        r == any_value(*op, strs(values@), strs(targets@)),
{
    let ghost vs = strs(values@);
    let ghost ts = strs(targets@);
    assert(vs.subrange(0, vs.len() as int) =~= vs);
    let mut i: usize = 0;
    while i < values.len()
        invariant
            vs == strs(values@),
            ts == strs(targets@),
            i <= values@.len(),
            any_value(*op, vs, ts) == any_value(*op, vs.subrange(i as int, vs.len() as int), ts),
        decreases values.len() - i,
    {
        proof {
            let rest = vs.subrange(i as int, vs.len() as int);
            assert(rest[0] == values@[i as int]@);
            assert(rest.drop_first() =~= vs.subrange(i + 1, vs.len() as int));
        }
        match matches_target(op, &values[i], targets) {
            Err(e) => {
                return Err(e);
            },
            Ok(true) => {
                return Ok(true);
            },
            Ok(false) => {},
        }
        i += 1;
    }
    proof {
        assert(vs.subrange(i as int, vs.len() as int).len() == 0);
    }
    Ok(false)
}

fn matches_any(op: &Operator, values: Option<&Vec<String>>, targets: &Vec<String>) -> (r: Result<bool, ConditionError>)
    ensures
        r == quantifier_spec(
            Quantifier::ForAnyValue(*op),
            match values {
                Some(v) => Some(strs(v@)),
                None => None,
            },
            strs(targets@),
        ),
{
    match values {
        Some(v) => any_value_matches(op, v, targets),
        None => Ok(false),
    }
}

fn matches_null(values: Option<&Vec<String>>, targets: &Vec<String>) -> (r: Result<bool, ConditionError>)
    ensures
        r == null_spec(
            match values {
                Some(v) => Some(strs(v@)),
                None => None,
            },
            strs(targets@),
        ),
{
    if targets.len() != 1 {
        return Err(ConditionError::TooManyValues);
    }
    proof {
        reveal_strlit("true");
        reveal_strlit("false");
        assert("true"@ =~= seq!['t', 'r', 'u', 'e']);
        assert("false"@ =~= seq!['f', 'a', 'l', 's', 'e']);
        assert(strs(targets@)[0] == targets@[0]@);
    }
    if str_eq(targets[0].as_str(), "true") {
        Ok(values.is_none())
    } else if str_eq(targets[0].as_str(), "false") {
        Ok(values.is_some())
    } else {
        Err(ConditionError::TypeMismatch)
    }
}

impl Quantifier {
    /// Evaluates the quantified operator on the values of a context key
    /// (`None` when the key is absent) against the targets.
    pub fn matches(&self, values: Option<&Vec<String>>, targets: &Vec<String>) -> (r: Result<bool, ConditionError>)
        ensures
            r == quantifier_spec(
                *self,
                match values {
                    Some(v) => Some(strs(v@)),
                    None => None,
                },
                strs(targets@),
            ),
    {
        match *self {
            Quantifier::ForAllValues(op) => matches_all(&op, values, targets),
            Quantifier::ForAnyValue(op) => matches_any(&op, values, targets),
            Quantifier::IfExists(op) => match values {
                Some(v) => any_value_matches(&op, v, targets),
                None => Ok(true),
            },
            Quantifier::Null => matches_null(values, targets),
        }
    }
}

/// With no values for the key, `ForAllValues` holds, `ForAnyValue` fails, and
/// `Null` with the single target `true` holds.
pub proof fn absent_key_laws(op: Operator, targets: Seq<Seq<char>>)
    ensures
        quantifier_spec(Quantifier::ForAllValues(op), None, targets) == Ok::<bool, ConditionError>(true),
        quantifier_spec(Quantifier::ForAnyValue(op), None, targets) == Ok::<bool, ConditionError>(false),
        quantifier_spec(Quantifier::Null, None, seq![seq!['t', 'r', 'u', 'e']]) == Ok::<bool, ConditionError>(true),
{
}

/// With an empty list of values, `ForAllValues` holds and `ForAnyValue` fails.
pub proof fn empty_values_laws(op: Operator, targets: Seq<Seq<char>>)
    ensures
        quantifier_spec(Quantifier::ForAllValues(op), Some(Seq::empty()), targets) == Ok::<bool, ConditionError>(true),
        quantifier_spec(Quantifier::ForAnyValue(op), Some(Seq::empty()), targets) == Ok::<bool, ConditionError>(false),
{
}

/// `Null` with the single target `true` holds exactly when the key is absent.
pub proof fn null_true_iff_absent(values: Option<Seq<Seq<char>>>)
    ensures
        quantifier_spec(Quantifier::Null, values, seq![seq!['t', 'r', 'u', 'e']]) == Ok::<bool, ConditionError>(values is None),
{
}

} // verus!
