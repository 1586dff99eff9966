//! Reading policies and contexts from their JSON form.
use vstd::prelude::*;
use crate::arn::{ARN, ARNParseError, arn_parse_outcome};
use crate::constraint::{ActionConstraint, PrincipalConstraint, ResourceConstraint};
use crate::glob::{regex_match, regex_verdict};
use crate::iam::{Action, Principal, first_colon, has_colon};
use crate::json::{Json, is_unset, member, string_list};
use crate::statement::{ActionClause, Effect, PrincipalClause, ResourceClause, Statement};
use crate::policy::{Policy, VERSION_2008_10_17, VERSION_2012_10_17};
use crate::context::{Context, resource_view};
use crate::condition::{ConditionList, ConditionValues, entry_view, lookup};
use crate::operator::{Operator, operator_named};
use crate::quantifier::Quantifier;
use crate::text::{chars_of, str_eq};

verus! {

#[derive(Debug, Clone, Copy, PartialEq, Eq, Structural)]
pub enum PolicyParseError {
    /// An ARN does not start with `arn:`.
    MissingPrefix,
    /// An ARN or action has too few separators, an operator is unknown, or
    /// the version is unsupported.
    InvalidFormat,
    /// The document does not have the expected shape.
    SchemaError,
}

pub open spec fn arn_error(e: ARNParseError) -> PolicyParseError {
    match e {
        ARNParseError::MissingPrefix => PolicyParseError::MissingPrefix,
        ARNParseError::InvalidFormat => PolicyParseError::InvalidFormat,
    }
}

fn from_arn_error(e: ARNParseError) -> (r: PolicyParseError)
    ensures
        r == arn_error(e),
{
    match e {
        ARNParseError::MissingPrefix => PolicyParseError::MissingPrefix,
        ARNParseError::InvalidFormat => PolicyParseError::InvalidFormat,
    }
}

pub open spec fn is_star(s: Seq<char>) -> bool {
    s == seq!['*']
}

fn star(s: &str) -> (r: bool)
    ensures
        r == is_star(s@),
{
    proof {
        reveal_strlit("*");
        assert("*"@ =~= seq!['*']);
    }
    str_eq(s, "*")
}

/// `a` is what parsing `s` as an ARN gives.
pub open spec fn arn_parsed(a: ARN, s: Seq<char>) -> bool {
    arn_parse_outcome(s) is Ok && a@ == s && a@ == a.joined() && a.separators_first()
}

/// `a` is what parsing `s` as an action gives.
pub open spec fn action_parsed(a: Action, s: Seq<char>) -> bool {
    &&& has_colon(s)
    &&& a@ == s
    &&& a.service_view() == s.subrange(0, first_colon(s))
    &&& a.action_view() == s.subrange(first_colon(s) + 1, s.len() as int)
}

/// `*` stands for every action; other texts are action patterns.
pub open spec fn action_constraint_of(s: Seq<char>, c: ActionConstraint) -> bool {
    if is_star(s) {
        c is Any
    } else {
        c matches ActionConstraint::Pattern(a) && action_parsed(a, s)
    }
}

pub open spec fn actions_outcome(j: Json) -> Result<(), PolicyParseError> {
    match string_list(j) {
        None => Err(PolicyParseError::SchemaError),
        Some(ss) => if forall|i: int| 0 <= i < ss.len() ==> is_star(#[trigger] ss[i]) || has_colon(ss[i]) {
            Ok(())
        } else {
            Err(PolicyParseError::InvalidFormat)
        },
    }
}

pub open spec fn actions_from(j: Json, cs: Seq<ActionConstraint>) -> bool {
    match string_list(j) {
        Some(ss) => cs.len() == ss.len() && forall|i: int| 0 <= i < ss.len() ==> action_constraint_of(#[trigger] ss[i], cs[i]),
        None => false,
    }
}

/// Reads the value of `Action` or `NotAction`: a string or an array of
/// strings, each `*` or an action pattern.
pub fn parse_actions(j: &Json) -> (r: Result<Vec<ActionConstraint>, PolicyParseError>)
    ensures
        r is Ok <==> actions_outcome(*j) is Ok,
        r matches Err(e) ==> actions_outcome(*j) == Err::<(), PolicyParseError>(e),
        r matches Ok(cs) ==> actions_from(*j, cs@),
{
    let texts = match j.string_list() {
        Some(t) => t,
        None => {
            return Err(PolicyParseError::SchemaError);
        },
    };
    let ghost ss = crate::quantifier::strs(texts@);
    let mut out: Vec<ActionConstraint> = Vec::new();
    let mut i: usize = 0;
    while i < texts.len()
        invariant
            ss == crate::quantifier::strs(texts@),
            string_list(*j) == Some(ss),
            i <= texts@.len(),
            out@.len() == i,
            forall|k: int| 0 <= k < i ==> is_star(#[trigger] ss[k]) || has_colon(ss[k]),
            forall|k: int| 0 <= k < i ==> action_constraint_of(#[trigger] ss[k], out@[k]),
        decreases texts.len() - i,
    {
        assert(ss[i as int] == texts@[i as int]@);
        if star(texts[i].as_str()) {
            out.push(ActionConstraint::Any);
        } else {
            match Action::parse(texts[i].as_str()) {
                Ok(a) => {
                    out.push(ActionConstraint::Pattern(a));
                },
                Err(_) => {
                    proof {
                        assert(!(is_star(ss[i as int]) || has_colon(ss[i as int])));
                        assert(!(forall|k: int| 0 <= k < ss.len() ==> is_star(#[trigger] ss[k]) || has_colon(ss[k])));
                        assert(string_list(*j) == Some(ss));
                        assert(string_list(*j)->Some_0 == ss);
                        assert(actions_outcome(*j) == Err::<(), PolicyParseError>(PolicyParseError::InvalidFormat));
                    }
                    return Err(PolicyParseError::InvalidFormat);
                },
            }
        }
        i += 1;
    }
    Ok(out)
}

/// `*` stands for every resource; other texts are ARN patterns.
pub open spec fn resource_constraint_of(s: Seq<char>, c: ResourceConstraint) -> bool {
    if is_star(s) {
        c is Any
    } else {
        c matches ResourceConstraint::Pattern(a) && arn_parsed(a, s)
    }
}

pub open spec fn resource_text_outcome(s: Seq<char>) -> Result<(), PolicyParseError> {
    if is_star(s) {
        Ok(())
    } else {
        match arn_parse_outcome(s) {
            Ok(_) => Ok(()),
            Err(e) => Err(arn_error(e)),
        }
    }
}

/// The first error among the texts, in order.
pub open spec fn resource_texts_outcome(ss: Seq<Seq<char>>) -> Result<(), PolicyParseError>
    decreases ss.len(),
{
    if ss.len() == 0 {
        Ok(())
    } else {
        match resource_text_outcome(ss[0]) {
            Err(e) => Err(e),
            Ok(_) => resource_texts_outcome(ss.drop_first()),
        }
    }
}

pub open spec fn resources_outcome(j: Json) -> Result<(), PolicyParseError> {
    match string_list(j) {
        None => Err(PolicyParseError::SchemaError),
        Some(ss) => resource_texts_outcome(ss),
    }
}

pub open spec fn resources_from(j: Json, cs: Seq<ResourceConstraint>) -> bool {
    match string_list(j) {
        Some(ss) => cs.len() == ss.len() && forall|i: int| 0 <= i < ss.len() ==> resource_constraint_of(#[trigger] ss[i], cs[i]),
        None => false,
    }
}

/// Reads the value of `Resource` or `NotResource`: a string or an array of
/// strings, each `*` or an ARN pattern.
pub fn parse_resources(j: &Json) -> (r: Result<Vec<ResourceConstraint>, PolicyParseError>)
    ensures
        r is Ok <==> resources_outcome(*j) is Ok,
        r matches Err(e) ==> resources_outcome(*j) == Err::<(), PolicyParseError>(e),
        r matches Ok(cs) ==> resources_from(*j, cs@),
{
    let texts = match j.string_list() {
        Some(t) => t,
        None => {
            return Err(PolicyParseError::SchemaError);
        },
    };
    let ghost ss = crate::quantifier::strs(texts@);
    assert(ss.subrange(0, ss.len() as int) =~= ss);
    let mut out: Vec<ResourceConstraint> = Vec::new();
    let mut i: usize = 0;
    while i < texts.len()
        invariant
            ss == crate::quantifier::strs(texts@),
            string_list(*j) == Some(ss),
            i <= texts@.len(),
            out@.len() == i,
            resource_texts_outcome(ss) == resource_texts_outcome(ss.subrange(i as int, ss.len() as int)),
            forall|k: int| 0 <= k < i ==> resource_constraint_of(#[trigger] ss[k], out@[k]),
        decreases texts.len() - i,
    {
        proof {
            let rest = ss.subrange(i as int, ss.len() as int);
            assert(rest[0] == texts@[i as int]@);
            assert(rest.drop_first() =~= ss.subrange(i + 1, ss.len() as int));
        }
        if star(texts[i].as_str()) {
            out.push(ResourceConstraint::Any);
        } else {
            match ARN::parse(texts[i].as_str()) {
                Ok(a) => {
                    out.push(ResourceConstraint::Pattern(a));
                },
                Err(e) => {
                    return Err(from_arn_error(e));
                },
            }
        }
        i += 1;
    }
    Ok(out)
}

} // verus!

verus! {

/// The kinds of principal that a `Principal` object may name.
#[derive(Debug, Clone, Copy, PartialEq, Eq, Structural)]
pub enum PrincipalKind {
    AWS,
    Federated,
    Service,
    CanonicalUser,
}

pub open spec fn principal_kind(key: Seq<char>) -> Option<PrincipalKind> {
    if key == "AWS"@ {
        Some(PrincipalKind::AWS)
    } else if key == "Federated"@ {
        Some(PrincipalKind::Federated)
    } else if key == "Service"@ {
        Some(PrincipalKind::Service)
    } else if key == "CanonicalUser"@ {
        Some(PrincipalKind::CanonicalUser)
    } else {
        None
    }
}

fn kind_of(key: &str) -> (r: Option<PrincipalKind>)
    ensures
        r == principal_kind(key@),
{
    if str_eq(key, "AWS") {
        Some(PrincipalKind::AWS)
    } else if str_eq(key, "Federated") {
        Some(PrincipalKind::Federated)
    } else if str_eq(key, "Service") {
        Some(PrincipalKind::Service)
    } else if str_eq(key, "CanonicalUser") {
        Some(PrincipalKind::CanonicalUser)
    } else {
        None
    }
}

/// The regular expression of an account number: digits only.
pub open spec fn account_regex() -> Seq<char> {
    "^\\d+$"@
}

pub open spec fn is_account(s: Seq<char>) -> bool {
    regex_verdict(account_regex(), s) == Some(true)
}

/// The root user of an account.
pub open spec fn account_root(s: Seq<char>) -> Seq<char> {
    "arn:aws:iam::"@ + s + ":root"@
}

/// The ARN text that an AWS principal stands for: an account number names the
/// account's root user.
pub open spec fn aws_text(s: Seq<char>) -> Seq<char> {
    if is_account(s) {
        account_root(s)
    } else {
        s
    }
}

pub open spec fn principal_text_outcome(k: PrincipalKind, s: Seq<char>) -> Result<(), PolicyParseError> {
    if k == PrincipalKind::AWS && !is_star(s) {
        match arn_parse_outcome(aws_text(s)) {
            Ok(_) => Ok(()),
            Err(e) => Err(arn_error(e)),
        }
    } else {
        Ok(())
    }
}

pub open spec fn principal_constraint_of(k: PrincipalKind, s: Seq<char>, c: PrincipalConstraint) -> bool {
    match k {
        PrincipalKind::AWS => if is_star(s) {
            c is AWSAny
        } else {
            c matches PrincipalConstraint::Pattern(Principal::AWS(a)) && arn_parsed(a, aws_text(s))
        },
        PrincipalKind::Federated => c matches PrincipalConstraint::Pattern(Principal::Federated(x)) && x@ == s,
        PrincipalKind::Service => c matches PrincipalConstraint::Pattern(Principal::Service(x)) && x@ == s,
        PrincipalKind::CanonicalUser => c matches PrincipalConstraint::Pattern(Principal::CanonicalUser(x)) && x@ == s,
    }
}

pub open spec fn principal_texts_outcome(k: PrincipalKind, ss: Seq<Seq<char>>) -> Result<(), PolicyParseError>
    decreases ss.len(),
{
    if ss.len() == 0 {
        Ok(())
    } else {
        match principal_text_outcome(k, ss[0]) {
            Err(e) => Err(e),
            Ok(_) => principal_texts_outcome(k, ss.drop_first()),
        }
    }
}

pub open spec fn principal_field_outcome(f: (String, Json)) -> Result<(), PolicyParseError> {
    match principal_kind(f.0@) {
        None => Err(PolicyParseError::SchemaError),
        Some(k) => match string_list(f.1) {
            None => Err(PolicyParseError::SchemaError),
            Some(ss) => principal_texts_outcome(k, ss),
        },
    }
}

pub open spec fn principal_fields_outcome(fs: Seq<(String, Json)>) -> Result<(), PolicyParseError>
    decreases fs.len(),
{
    if fs.len() == 0 {
        Ok(())
    } else {
        match principal_field_outcome(fs[0]) {
            Err(e) => Err(e),
            Ok(_) => principal_fields_outcome(fs.drop_first()),
        }
    }
}

/// `*`, or an object from principal kinds to strings or arrays of strings.
pub open spec fn principals_outcome(j: Json) -> Result<(), PolicyParseError> {
    match j {
        Json::Str(s) => if is_star(s@) {
            Ok(())
        } else {
            Err(PolicyParseError::SchemaError)
        },
        Json::Object(fields) => principal_fields_outcome(fields@),
        _ => Err(PolicyParseError::SchemaError),
    }
}

pub open spec fn field_count(f: (String, Json)) -> nat {
    string_list(f.1)->Some_0.len()
}

pub open spec fn principal_field_from(f: (String, Json), cs: Seq<PrincipalConstraint>) -> bool {
    let ss = string_list(f.1)->Some_0;
    &&& cs.len() == ss.len()
    &&& forall|i: int| 0 <= i < ss.len() ==> principal_constraint_of(principal_kind(f.0@)->Some_0, #[trigger] ss[i], cs[i])
}

/// The constraints of the members, one after the other.
pub open spec fn principal_fields_from(fs: Seq<(String, Json)>, cs: Seq<PrincipalConstraint>) -> bool
    decreases fs.len(),
{
    if fs.len() == 0 {
        cs.len() == 0
    } else {
        let n = field_count(fs.last());
        &&& n <= cs.len()
        &&& principal_fields_from(fs.drop_last(), cs.subrange(0, cs.len() - n))
        &&& principal_field_from(fs.last(), cs.subrange(cs.len() - n, cs.len() as int))
    }
}

pub open spec fn principals_from(j: Json, cs: Seq<PrincipalConstraint>) -> bool {
    match j {
        Json::Str(_) => cs.len() == 1 && cs[0] is Any,
        Json::Object(fields) => principal_fields_from(fields@, cs),
        _ => false,
    }
}

fn parse_aws_principal(s: &str) -> (r: Result<PrincipalConstraint, PolicyParseError>)
    ensures
        r is Ok <==> principal_text_outcome(PrincipalKind::AWS, s@) is Ok,
        r matches Err(e) ==> principal_text_outcome(PrincipalKind::AWS, s@) == Err::<(), PolicyParseError>(e),
        r matches Ok(c) ==> principal_constraint_of(PrincipalKind::AWS, s@, c),
{
    if star(s) {
        return Ok(PrincipalConstraint::AWSAny);
    }
    let parsed = if regex_match("^\\d+$", s) == Some(true) {
        let mut text = String::new();
        text.push_str("arn:aws:iam::");
        text.push_str(s);
        text.push_str(":root");
        ARN::parse(text.as_str())
    } else {
        ARN::parse(s)
    };
    match parsed {
        Ok(a) => Ok(PrincipalConstraint::Pattern(Principal::AWS(a))),
        Err(e) => Err(from_arn_error(e)),
    }
}

fn parse_principal(k: PrincipalKind, s: &String) -> (r: Result<PrincipalConstraint, PolicyParseError>)
    ensures
        r is Ok <==> principal_text_outcome(k, s@) is Ok,
        r matches Err(e) ==> principal_text_outcome(k, s@) == Err::<(), PolicyParseError>(e),
        r matches Ok(c) ==> principal_constraint_of(k, s@, c),
{
    match k {
        PrincipalKind::AWS => parse_aws_principal(s.as_str()),
        PrincipalKind::Federated => Ok(PrincipalConstraint::Pattern(Principal::Federated(s.clone()))),
        PrincipalKind::Service => Ok(PrincipalConstraint::Pattern(Principal::Service(s.clone()))),
        PrincipalKind::CanonicalUser => Ok(PrincipalConstraint::Pattern(Principal::CanonicalUser(s.clone()))),
    }
}

/// Reads one member of a `Principal` object.
fn parse_principal_field(f: &(String, Json)) -> (r: Result<Vec<PrincipalConstraint>, PolicyParseError>)
    ensures
        r is Ok <==> principal_field_outcome(*f) is Ok,
        r matches Err(e) ==> principal_field_outcome(*f) == Err::<(), PolicyParseError>(e),
        r matches Ok(cs) ==> principal_field_from(*f, cs@),
{
    let k = match kind_of(f.0.as_str()) {
        Some(k) => k,
        None => {
            return Err(PolicyParseError::SchemaError);
        },
    };
    let texts = match f.1.string_list() {
        Some(t) => t,
        None => {
            return Err(PolicyParseError::SchemaError);
        },
    };
    let ghost ss = crate::quantifier::strs(texts@);
    assert(ss.subrange(0, ss.len() as int) =~= ss);
    let mut out: Vec<PrincipalConstraint> = Vec::new();
    let mut i: usize = 0;
    while i < texts.len()
        invariant
            ss == crate::quantifier::strs(texts@),
            string_list(f.1) == Some(ss),
            principal_kind(f.0@) == Some(k),
            i <= texts@.len(),
            out@.len() == i,
            principal_texts_outcome(k, ss) == principal_texts_outcome(k, ss.subrange(i as int, ss.len() as int)),
            forall|m: int| 0 <= m < i ==> principal_constraint_of(k, #[trigger] ss[m], out@[m]),
        decreases texts.len() - i,
    {
        proof {
            let rest = ss.subrange(i as int, ss.len() as int);
            assert(rest[0] == texts@[i as int]@);
            assert(rest.drop_first() =~= ss.subrange(i + 1, ss.len() as int));
        }
        match parse_principal(k, &texts[i]) {
            Ok(c) => {
                out.push(c);
            },
            Err(e) => {
                return Err(e);
            },
        }
        i += 1;
    }
    Ok(out)
}

/// Reads the value of `Principal` or `NotPrincipal`.
pub fn parse_principals(j: &Json) -> (r: Result<Vec<PrincipalConstraint>, PolicyParseError>)
    ensures
        r is Ok <==> principals_outcome(*j) is Ok,
        r matches Err(e) ==> principals_outcome(*j) == Err::<(), PolicyParseError>(e),
        r matches Ok(cs) ==> principals_from(*j, cs@),
{
    match j {
        Json::Str(s) => if star(s.as_str()) {
            Ok(vec![PrincipalConstraint::Any])
        } else {
            Err(PolicyParseError::SchemaError)
        },
        Json::Object(fields) => {
            let ghost fs = fields@;
            assert(fs.subrange(0, fs.len() as int) =~= fs);
            assert(fs.subrange(0, 0) =~= Seq::<(String, Json)>::empty());
            let mut out: Vec<PrincipalConstraint> = Vec::new();
            let mut i: usize = 0;
            while i < fields.len()
                invariant
                    fs == fields@,
                    *j == Json::Object(*fields),
                    i <= fs.len(),
                    principal_fields_outcome(fs) == principal_fields_outcome(fs.subrange(i as int, fs.len() as int)),
                    principal_fields_from(fs.subrange(0, i as int), out@),
                decreases fields.len() - i,
            {
                proof {
                    let rest = fs.subrange(i as int, fs.len() as int);
                    assert(rest[0] == fs[i as int]);
                    assert(rest.drop_first() =~= fs.subrange(i + 1, fs.len() as int));
                }
                let part = match parse_principal_field(&fields[i]) {
                    Ok(p) => p,
                    Err(e) => {
                        return Err(e);
                    },
                };
                let ghost before = out@;
                let ghost added = part@;
                let mut part = part;
                out.append(&mut part);
                proof {
                    let pre = fs.subrange(0, i + 1);
                    assert(pre.drop_last() =~= fs.subrange(0, i as int));
                    assert(pre.last() == fs[i as int]);
                    assert(out@.subrange(0, out@.len() - added.len()) =~= before);
                    assert(out@.subrange(out@.len() - added.len(), out@.len() as int) =~= added);
                }
                i += 1;
            }
            Ok(out)
        },
        _ => Err(PolicyParseError::SchemaError),
    }
}

} // verus!

verus! {

pub open spec fn has_prefix(s: Seq<char>, p: Seq<char>) -> bool {
    p.len() <= s.len() && s.subrange(0, p.len() as int) == p
}

pub open spec fn has_suffix(s: Seq<char>, p: Seq<char>) -> bool {
    p.len() <= s.len() && s.subrange(s.len() - p.len(), s.len() as int) == p
}

/// The operator part of a condition key and whether it asks for all values:
/// an optional `ForAnyValue:`, `ForAny:`, `ForAllValues:` or `ForAll:` prefix
/// is taken off.
pub open spec fn strip_quantifier(k: Seq<char>) -> (Seq<char>, bool) {
    if has_prefix(k, "ForAnyValue:"@) {
        (k.subrange("ForAnyValue:"@.len() as int, k.len() as int), false)
    } else if has_prefix(k, "ForAny:"@) {
        (k.subrange("ForAny:"@.len() as int, k.len() as int), false)
    } else if has_prefix(k, "ForAllValues:"@) {
        (k.subrange("ForAllValues:"@.len() as int, k.len() as int), true)
    } else if has_prefix(k, "ForAll:"@) {
        (k.subrange("ForAll:"@.len() as int, k.len() as int), true)
    } else {
        (k, false)
    }
}

/// The quantified operator that a condition key names: `Null` is the null
/// check; an `IfExists` suffix makes a missing key match and otherwise asks for
/// some value; without it the prefix decides, some value by default.
pub open spec fn decode_key(k: Seq<char>) -> Option<Quantifier> {
    if k == "Null"@ {
        Some(Quantifier::Null)
    } else {
        let (rest, all) = strip_quantifier(k);
        if has_suffix(rest, "IfExists"@) {
            match operator_named(rest.subrange(0, rest.len() - "IfExists"@.len())) {
                Some(op) => Some(Quantifier::IfExists(op)),
                None => None,
            }
        } else {
            match operator_named(rest) {
                Some(op) => Some(
                    if all {
                        Quantifier::ForAllValues(op)
                    } else {
                        Quantifier::ForAnyValue(op)
                    },
                ),
                None => None,
            }
        }
    }
}

fn starts_with_text(cs: &Vec<char>, p: &str) -> (r: bool)
    ensures
        r == has_prefix(cs@, p@),
{
    let pc = chars_of(p);
    if pc.len() > cs.len() {
        return false;
    }
    let mut i: usize = 0;
    while i < pc.len()
        invariant
            pc@ == p@,
            pc@.len() <= cs@.len(),
            i <= pc@.len(),
            forall|m: int| 0 <= m < i ==> cs@[m] == pc@[m],
        decreases pc.len() - i,
    {
        if cs[i] != pc[i] {
            proof {
                assert(cs@.subrange(0, pc@.len() as int)[i as int] != pc@[i as int]);
            }
            return false;
        }
        i += 1;
    }
    assert(cs@.subrange(0, pc@.len() as int) =~= pc@);
    true
}

fn ends_with_text(cs: &Vec<char>, p: &str) -> (r: bool)
    ensures
        r == has_suffix(cs@, p@),
{
    let pc = chars_of(p);
    if pc.len() > cs.len() {
        return false;
    }
    let off = cs.len() - pc.len();
    let mut j: usize = off;
    while j < cs.len()
        invariant
            pc@ == p@,
            pc@.len() <= cs@.len(),
            off == cs@.len() - pc@.len(),
            off <= j <= cs@.len(),
            forall|m: int| 0 <= m < j - off ==> cs@[off + m] == pc@[m],
        decreases cs.len() - j,
    {
        if cs[j] != pc[j - off] {
            proof {
                assert(cs@.subrange(off as int, cs@.len() as int)[j - off] != pc@[j - off]);
            }
            return false;
        }
        j += 1;
    }
    assert(cs@.subrange(off as int, cs@.len() as int) =~= pc@);
    true
}

/// The characters `cs[from..to]` as a string.
fn text_of(cs: &Vec<char>, from: usize, to: usize) -> (r: String)
    requires
        from <= to <= cs@.len(),
    ensures
        r@ == cs@.subrange(from as int, to as int),
{
    let mut out = String::new();
    let mut i: usize = from;
    while i < to
        invariant
            from <= i <= to,
            to <= cs@.len(),
            out@ == cs@.subrange(from as int, i as int),
        decreases to - i,
    {
        out.push(cs[i]);
        proof {
            assert(cs@.subrange(from as int, i + 1) =~= cs@.subrange(from as int, i as int).push(cs@[i as int]));
        }
        i += 1;
    }
    out
}

/// Reads a condition key into the quantified operator it names.
pub fn decode_condition_key(key: &str) -> (r: Option<Quantifier>)
    ensures
        r == decode_key(key@),
{
    if str_eq(key, "Null") {
        return Some(Quantifier::Null);
    }
    let cs = chars_of(key);
    let n = cs.len();
    proof {
        reveal_strlit("ForAnyValue:");
        reveal_strlit("ForAny:");
        reveal_strlit("ForAllValues:");
        reveal_strlit("ForAll:");
        reveal_strlit("IfExists");
    }
    let (start, all): (usize, bool) = if starts_with_text(&cs, "ForAnyValue:") {
        (12, false)
    } else if starts_with_text(&cs, "ForAny:") {
        (7, false)
    } else if starts_with_text(&cs, "ForAllValues:") {
        (13, true)
    } else if starts_with_text(&cs, "ForAll:") {
        (7, true)
    } else {
        (0, false)
    };
    let rest = text_of(&cs, start, n);
    let rest_chars = chars_of(rest.as_str());
    let ghost stripped = strip_quantifier(key@);
    assert(rest@ == stripped.0);
    assert(all == stripped.1);
    if ends_with_text(&rest_chars, "IfExists") {
        let name = text_of(&rest_chars, 0, rest_chars.len() - 8);
        match Operator::parse(name.as_str()) {
            Some(op) => Some(Quantifier::IfExists(op)),
            None => None,
        }
    } else {
        match Operator::parse(rest.as_str()) {
            Some(op) => Some(
                if all {
                    Quantifier::ForAllValues(op)
                } else {
                    Quantifier::ForAnyValue(op)
                },
            ),
            None => None,
        }
    }
}

/// The keys of a condition block with their lists of values.
pub open spec fn condition_pairs(entries: Seq<(String, Json)>) -> Seq<(Seq<char>, Seq<Seq<char>>)> {
    entries.map_values(|e: (String, Json)| (e.0@, string_list(e.1)->Some_0))
}

pub open spec fn value_entries_ok(entries: Seq<(String, Json)>) -> bool {
    forall|i: int| 0 <= i < entries.len() ==> (#[trigger] string_list(entries[i].1)) is Some
}

/// An object from condition keys to a string or an array of strings.
pub open spec fn condition_values_outcome(j: Json) -> Result<(), PolicyParseError> {
    match j {
        Json::Object(entries) => if value_entries_ok(entries@) {
            Ok(())
        } else {
            Err(PolicyParseError::SchemaError)
        },
        _ => Err(PolicyParseError::SchemaError),
    }
}

/// The values of a key are those of its last listing in the object.
pub open spec fn condition_values_from(j: Json, v: Seq<(Seq<char>, Seq<Seq<char>>)>) -> bool {
    match j {
        Json::Object(entries) => forall|k: Seq<char>|
            #![trigger lookup(v, k)]
            lookup(v, k) == lookup(condition_pairs(entries@).reverse(), k),
        _ => false,
    }
}

fn parse_condition_values(j: &Json) -> (r: Result<ConditionValues, PolicyParseError>)
    ensures
        r is Ok <==> condition_values_outcome(*j) is Ok,
        r matches Err(e) ==> condition_values_outcome(*j) == Err::<(), PolicyParseError>(e),
        r matches Ok(v) ==> condition_values_from(*j, v@),
{
    match j {
        Json::Object(entries) => {
            let mut pairs: Vec<(String, Vec<String>)> = Vec::new();
            let mut i: usize = 0;
            while i < entries.len()
                invariant
                    *j == Json::Object(*entries),
                    i <= entries@.len(),
                    value_entries_ok(entries@.subrange(0, i as int)),
                    pairs@.map_values(|e: (String, Vec<String>)| entry_view(e)) == condition_pairs(entries@.subrange(0, i as int)),
                decreases entries.len() - i,
            {
                let texts = match entries[i].1.string_list() {
                    Some(t) => t,
                    None => {
                        proof {
                            assert(!(string_list(entries@[i as int].1) is Some));
                            assert(!value_entries_ok(entries@));
                        }
                        return Err(PolicyParseError::SchemaError);
                    },
                };
                let ghost before = pairs@;
                let key = entries[i].0.clone();
                pairs.push((key, texts));
                proof {
                    let sub = entries@.subrange(0, i + 1);
                    assert(sub =~= entries@.subrange(0, i as int).push(entries@[i as int]));
                    assert(pairs@.map_values(|e: (String, Vec<String>)| entry_view(e)) =~= before.map_values(
                        |e: (String, Vec<String>)| entry_view(e),
                    ).push((entries@[i as int].0@, string_list(entries@[i as int].1)->Some_0)));
                    assert(condition_pairs(sub) =~= condition_pairs(entries@.subrange(0, i as int)).push(
                        (entries@[i as int].0@, string_list(entries@[i as int].1)->Some_0),
                    ));
                    assert forall|m: int| 0 <= m < sub.len() implies (#[trigger] string_list(sub[m].1)) is Some by {
                        if m < i {
                            assert(sub[m] == entries@.subrange(0, i as int)[m]);
                        }
                    }
                }
                i += 1;
            }
            proof {
                assert(entries@.subrange(0, i as int) =~= entries@);
            }
            Ok(ConditionValues::from_pairs(pairs))
        },
        _ => Err(PolicyParseError::SchemaError),
    }
}

pub open spec fn condition_field_outcome(f: (String, Json)) -> Result<(), PolicyParseError> {
    match decode_key(f.0@) {
        None => Err(PolicyParseError::InvalidFormat),
        Some(_) => condition_values_outcome(f.1),
    }
}

pub open spec fn condition_fields_outcome(fs: Seq<(String, Json)>) -> Result<(), PolicyParseError>
    decreases fs.len(),
{
    if fs.len() == 0 {
        Ok(())
    } else {
        match condition_field_outcome(fs[0]) {
            Err(e) => Err(e),
            Ok(_) => condition_fields_outcome(fs.drop_first()),
        }
    }
}

/// An object from condition keys to condition blocks.
pub open spec fn conditions_outcome(j: Json) -> Result<(), PolicyParseError> {
    match j {
        Json::Object(fields) => condition_fields_outcome(fields@),
        _ => Err(PolicyParseError::SchemaError),
    }
}

/// One group per member, in order, each with the quantified operator its key
/// names.
pub open spec fn conditions_from(j: Json, gs: Seq<(Quantifier, Seq<(Seq<char>, Seq<Seq<char>>)>)>) -> bool {
    match j {
        Json::Object(fields) => {
            &&& gs.len() == fields@.len()
            &&& forall|i: int|
                0 <= i < gs.len() ==> Some((#[trigger] gs[i]).0) == decode_key(fields@[i].0@)
                    && condition_values_from(fields@[i].1, gs[i].1)
        },
        _ => false,
    }
}

/// Reads the value of `Condition`.
pub fn parse_conditions(j: &Json) -> (r: Result<ConditionList, PolicyParseError>)
    ensures
        r is Ok <==> conditions_outcome(*j) is Ok,
        r matches Err(e) ==> conditions_outcome(*j) == Err::<(), PolicyParseError>(e),
        r matches Ok(c) ==> conditions_from(*j, c@),
{
    match j {
        Json::Object(fields) => {
            let ghost fs = fields@;
            assert(fs.subrange(0, fs.len() as int) =~= fs);
            let mut list = ConditionList::new();
            let mut i: usize = 0;
            while i < fields.len()
                invariant
                    fs == fields@,
                    *j == Json::Object(*fields),
                    i <= fs.len(),
                    condition_fields_outcome(fs) == condition_fields_outcome(fs.subrange(i as int, fs.len() as int)),
                    list@.len() == i,
                    forall|m: int|
                        0 <= m < i ==> Some((#[trigger] list@[m]).0) == decode_key(fs[m].0@)
                            && condition_values_from(fs[m].1, list@[m].1),
                decreases fields.len() - i,
            {
                proof {
                    let rest = fs.subrange(i as int, fs.len() as int);
                    assert(rest[0] == fs[i as int]);
                    assert(rest.drop_first() =~= fs.subrange(i + 1, fs.len() as int));
                }
                let q = match decode_condition_key(fields[i].0.as_str()) {
                    Some(q) => q,
                    None => {
                        return Err(PolicyParseError::InvalidFormat);
                    },
                };
                let values = match parse_condition_values(&fields[i].1) {
                    Ok(v) => v,
                    Err(e) => {
                        return Err(e);
                    },
                };
                let ghost before = list@;
                list.push_group(q, values);
                proof {
                    assert forall|m: int|
                        0 <= m < i + 1 implies Some((#[trigger] list@[m]).0) == decode_key(fs[m].0@)
                            && condition_values_from(fs[m].1, list@[m].1) by {
                        if m < i {
                            assert(list@[m] == before[m]);
                        }
                    }
                }
                i += 1;
            }
            Ok(list)
        },
        _ => Err(PolicyParseError::SchemaError),
    }
}

} // verus!

verus! {

fn unset(m: Option<&Json>) -> (r: bool)
    ensures
        r == is_unset(
            match m {
                Some(j) => Some(*j),
                None => None,
            },
        ),
{
    match m {
        None => true,
        Some(j) => j.is_null(),
    }
}

pub open spec fn effect_of(j: Json) -> Option<Effect> {
    match member(j, "Effect"@) {
        Some(Json::Str(s)) => if s@ == "Allow"@ {
            Some(Effect::Allow)
        } else if s@ == "Deny"@ {
            Some(Effect::Deny)
        } else {
            None
        },
        _ => None,
    }
}

pub open spec fn sid_outcome(j: Json) -> Result<(), PolicyParseError> {
    let m = member(j, "Sid"@);
    if is_unset(m) || m->Some_0 is Str {
        Ok(())
    } else {
        Err(PolicyParseError::SchemaError)
    }
}

/// Exactly one of two members must be set; `required` says whether one must.
pub open spec fn pair_outcome(
    a: Option<Json>,
    n: Option<Json>,
    required: bool,
    inner: spec_fn(Json) -> Result<(), PolicyParseError>,
) -> Result<(), PolicyParseError> {
    if is_unset(a) && is_unset(n) {
        if required {
            Err(PolicyParseError::SchemaError)
        } else {
            Ok(())
        }
    } else if !is_unset(a) && !is_unset(n) {
        Err(PolicyParseError::SchemaError)
    } else if !is_unset(a) {
        inner(a->Some_0)
    } else {
        inner(n->Some_0)
    }
}

pub open spec fn condition_member_outcome(m: Option<Json>) -> Result<(), PolicyParseError> {
    if is_unset(m) {
        Ok(())
    } else {
        conditions_outcome(m->Some_0)
    }
}

/// Which error, if any, reading a statement gives; the members are read in
/// the order `Sid`, `Effect`, actions, principals, resources, `Condition`.
pub open spec fn statement_outcome(j: Json) -> Result<(), PolicyParseError> {
    if !(j is Object) {
        Err(PolicyParseError::SchemaError)
    } else if sid_outcome(j) is Err {
        sid_outcome(j)
    } else if effect_of(j) is None {
        Err(PolicyParseError::SchemaError)
    } else if pair_outcome(member(j, "Action"@), member(j, "NotAction"@), true, |x: Json| actions_outcome(x)) is Err {
        pair_outcome(member(j, "Action"@), member(j, "NotAction"@), true, |x: Json| actions_outcome(x))
    } else if pair_outcome(member(j, "Principal"@), member(j, "NotPrincipal"@), false, |x: Json| principals_outcome(x)) is Err {
        pair_outcome(member(j, "Principal"@), member(j, "NotPrincipal"@), false, |x: Json| principals_outcome(x))
    } else if pair_outcome(member(j, "Resource"@), member(j, "NotResource"@), true, |x: Json| resources_outcome(x)) is Err {
        pair_outcome(member(j, "Resource"@), member(j, "NotResource"@), true, |x: Json| resources_outcome(x))
    } else {
        condition_member_outcome(member(j, "Condition"@))
    }
}

/// The statement that `j` describes.
pub open spec fn statement_from(j: Json, s: Statement) -> bool {
    let a = member(j, "Action"@);
    let na = member(j, "NotAction"@);
    let p = member(j, "Principal"@);
    let np = member(j, "NotPrincipal"@);
    let r = member(j, "Resource"@);
    let nr = member(j, "NotResource"@);
    let c = member(j, "Condition"@);
    &&& match member(j, "Sid"@) {
        Some(Json::Str(x)) => s.sid matches Some(y) && y@ == x@,
        _ => s.sid is None,
    }
    &&& Some(s.effect) == effect_of(j)
    &&& if !is_unset(a) {
        s.actions matches ActionClause::Action(l) && actions_from(a->Some_0, l@)
    } else {
        s.actions matches ActionClause::NotAction(l) && actions_from(na->Some_0, l@)
    }
    &&& if !is_unset(p) {
        s.principals matches PrincipalClause::Principal(l) && principals_from(p->Some_0, l@)
    } else if !is_unset(np) {
        s.principals matches PrincipalClause::NotPrincipal(l) && principals_from(np->Some_0, l@)
    } else {
        s.principals is Absent
    }
    &&& if !is_unset(r) {
        s.resources matches ResourceClause::Resource(l) && resources_from(r->Some_0, l@)
    } else {
        s.resources matches ResourceClause::NotResource(l) && resources_from(nr->Some_0, l@)
    }
    &&& if is_unset(c) {
        s.conditions is None
    } else {
        s.conditions matches Some(cl) && conditions_from(c->Some_0, cl@)
    }
}

impl Statement {
    /// Reads a statement object.
    pub fn from_json(j: &Json) -> (r: Result<Statement, PolicyParseError>)
        ensures
            r is Ok <==> statement_outcome(*j) is Ok,
            r matches Err(e) ==> statement_outcome(*j) == Err::<(), PolicyParseError>(e),
            r matches Ok(s) ==> statement_from(*j, s),
    {
        if !matches!(j, Json::Object(_)) {
            return Err(PolicyParseError::SchemaError);
        }
        let sid = match j.member("Sid") {
            None => None,
            Some(Json::Null) => None,
            Some(Json::Str(s)) => Some(s.clone()),
            Some(_) => {
                return Err(PolicyParseError::SchemaError);
            },
        };
        let effect = match j.member("Effect") {
            Some(Json::Str(s)) => if str_eq(s.as_str(), "Allow") {
                Effect::Allow
            } else if str_eq(s.as_str(), "Deny") {
                Effect::Deny
            } else {
                return Err(PolicyParseError::SchemaError);
            },
            _ => {
                return Err(PolicyParseError::SchemaError);
            },
        };
        let action = j.member("Action");
        let not_action = j.member("NotAction");
        let actions = match (unset(action), unset(not_action)) {
            (true, true) => {
                return Err(PolicyParseError::SchemaError);
            },
            (false, true) => ActionClause::Action(parse_actions(action.unwrap())?),
            (true, false) => ActionClause::NotAction(parse_actions(not_action.unwrap())?),
            (false, false) => {
                return Err(PolicyParseError::SchemaError);
            },
        };
        let principal = j.member("Principal");
        let not_principal = j.member("NotPrincipal");
        let principals = match (unset(principal), unset(not_principal)) {
            (true, true) => PrincipalClause::Absent,
            (false, true) => PrincipalClause::Principal(parse_principals(principal.unwrap())?),
            (true, false) => PrincipalClause::NotPrincipal(parse_principals(not_principal.unwrap())?),
            (false, false) => {
                return Err(PolicyParseError::SchemaError);
            },
        };
        let resource = j.member("Resource");
        let not_resource = j.member("NotResource");
        let resources = match (unset(resource), unset(not_resource)) {
            (true, true) => {
                return Err(PolicyParseError::SchemaError);
            },
            (false, true) => ResourceClause::Resource(parse_resources(resource.unwrap())?),
            (true, false) => ResourceClause::NotResource(parse_resources(not_resource.unwrap())?),
            (false, false) => {
                return Err(PolicyParseError::SchemaError);
            },
        };
        let condition = j.member("Condition");
        let conditions = if unset(condition) {
            None
        } else {
            Some(parse_conditions(condition.unwrap())?)
        };
        Ok(Statement { sid, effect, principals, actions, resources, conditions })
    }
}

} // verus!

verus! {

pub open spec fn version_outcome(j: Json) -> Result<(), PolicyParseError> {
    let m = member(j, "Version"@);
    if is_unset(m) {
        Ok(())
    } else {
        match m->Some_0 {
            Json::Str(v) => if v@ == "2008-10-17"@ || v@ == "2012-10-17"@ {
                Ok(())
            } else {
                Err(PolicyParseError::InvalidFormat)
            },
            _ => Err(PolicyParseError::SchemaError),
        }
    }
}

/// The statements of a policy: one object, or an array of them.
pub open spec fn statement_items(j: Json) -> Option<Seq<Json>> {
    match member(j, "Statement"@) {
        Some(Json::Object(fields)) => Some(seq![Json::Object(fields)]),
        Some(Json::Array(items)) => Some(items@),
        _ => None,
    }
}

pub open spec fn statements_outcome(items: Seq<Json>) -> Result<(), PolicyParseError>
    decreases items.len(),
{
    if items.len() == 0 {
        Ok(())
    } else {
        match statement_outcome(items[0]) {
            Err(e) => Err(e),
            Ok(_) => statements_outcome(items.drop_first()),
        }
    }
}

/// Which error, if any, reading a policy gives: the version first, then the
/// statements in order.
pub open spec fn policy_outcome(j: Json) -> Result<(), PolicyParseError> {
    if !(j is Object) {
        Err(PolicyParseError::SchemaError)
    } else if version_outcome(j) is Err {
        version_outcome(j)
    } else {
        match statement_items(j) {
            None => Err(PolicyParseError::SchemaError),
            Some(items) => statements_outcome(items),
        }
    }
}

pub open spec fn text_member(j: Json, key: Seq<char>) -> Option<Seq<char>> {
    match member(j, key) {
        Some(Json::Str(s)) => Some(s@),
        _ => None,
    }
}

pub open spec fn opt_view(o: Option<String>) -> Option<Seq<char>> {
    match o {
        Some(s) => Some(s@),
        None => None,
    }
}

/// The policy that `j` describes.
pub open spec fn policy_from(j: Json, p: Policy) -> bool {
    let items = statement_items(j)->Some_0;
    &&& opt_view(p.version) == text_member(j, "Version"@)
    &&& opt_view(p.id) == text_member(j, "Id"@)
    &&& p.statements@.len() == items.len()
    &&& forall|i: int| 0 <= i < items.len() ==> statement_from(#[trigger] items[i], p.statements@[i])
}

fn text_of_member(j: &Json, key: &str) -> (r: Option<String>)
    ensures
        opt_view(r) == text_member(*j, key@),
{
    match j.member(key) {
        Some(Json::Str(s)) => Some(s.clone()),
        _ => None,
    }
}

impl Policy {
    /// Reads a policy document.
    pub fn from_json(j: &Json) -> (r: Result<Policy, PolicyParseError>)
        ensures
            r is Ok <==> policy_outcome(*j) is Ok,
            r matches Err(e) ==> policy_outcome(*j) == Err::<(), PolicyParseError>(e),
            r matches Ok(p) ==> policy_from(*j, p),
    {
        if !matches!(j, Json::Object(_)) {
            return Err(PolicyParseError::SchemaError);
        }
        match j.member("Version") {
            None => {},
            Some(Json::Null) => {},
            Some(Json::Str(v)) => if !(str_eq(v.as_str(), VERSION_2008_10_17) || str_eq(v.as_str(), VERSION_2012_10_17)) {
                return Err(PolicyParseError::InvalidFormat);
            },
            Some(_) => {
                return Err(PolicyParseError::SchemaError);
            },
        }
        let version = text_of_member(j, "Version");
        let id = text_of_member(j, "Id");
        let mut statements: Vec<Statement> = Vec::new();
        match j.member("Statement") {
            Some(Json::Object(_)) => {
                let stmt = j.member("Statement").unwrap();
                let s = Statement::from_json(stmt)?;
                statements.push(s);
                proof {
                    assert(statement_items(*j)->Some_0[0] == *stmt);
                    assert(statement_items(*j)->Some_0.drop_first() =~= Seq::<Json>::empty());
                    reveal_with_fuel(statements_outcome, 2);
                    assert(statements_outcome(statement_items(*j)->Some_0) is Ok);
                    assert(version_outcome(*j) is Ok);
                    assert(policy_outcome(*j) is Ok);
                }
            },
            Some(Json::Array(items)) => {
                let ghost is = items@;
                assert(is.subrange(0, is.len() as int) =~= is);
                let mut i: usize = 0;
                while i < items.len()
                    invariant
                        is == items@,
                        *j is Object,
                        version_outcome(*j) is Ok,
                        statement_items(*j) == Some(is),
                        i <= is.len(),
                        statements_outcome(is) == statements_outcome(is.subrange(i as int, is.len() as int)),
                        statements@.len() == i,
                        forall|m: int| 0 <= m < i ==> statement_from(#[trigger] is[m], statements@[m]),
                    decreases items.len() - i,
                {
                    proof {
                        let rest = is.subrange(i as int, is.len() as int);
                        assert(rest[0] == is[i as int]);
                        assert(rest.drop_first() =~= is.subrange(i + 1, is.len() as int));
                    }
                    let s = Statement::from_json(&items[i])?;
                    statements.push(s);
                    i += 1;
                }
                proof {
                    assert(is.subrange(i as int, is.len() as int).len() == 0);
                    assert(policy_outcome(*j) is Ok);
                }
            },
            _ => {
                return Err(PolicyParseError::SchemaError);
            },
        }
        Ok(Policy { version, id, statements })
    }
}

pub open spec fn context_values_outcome(m: Option<Json>) -> Result<(), PolicyParseError> {
    if is_unset(m) {
        Ok(())
    } else {
        condition_values_outcome(m->Some_0)
    }
}

pub open spec fn context_resource_outcome(e: (String, Json)) -> Result<(), PolicyParseError> {
    match arn_parse_outcome(e.0@) {
        Err(x) => Err(arn_error(x)),
        Ok(_) => condition_values_outcome(e.1),
    }
}

pub open spec fn context_resources_outcome(es: Seq<(String, Json)>) -> Result<(), PolicyParseError>
    decreases es.len(),
{
    if es.len() == 0 {
        Ok(())
    } else {
        match context_resource_outcome(es[0]) {
            Err(e) => Err(e),
            Ok(_) => context_resources_outcome(es.drop_first()),
        }
    }
}

/// Which error, if any, reading a context gives: `global` first, then each
/// resource in order.
pub open spec fn context_outcome(j: Json) -> Result<(), PolicyParseError> {
    let g = member(j, "global"@);
    let r = member(j, "resources"@);
    if !(j is Object) {
        Err(PolicyParseError::SchemaError)
    } else if context_values_outcome(g) is Err {
        context_values_outcome(g)
    } else if is_unset(r) {
        Ok(())
    } else {
        match r->Some_0 {
            Json::Object(es) => context_resources_outcome(es@),
            _ => Err(PolicyParseError::SchemaError),
        }
    }
}

/// The context that `j` describes.
pub open spec fn context_from(j: Json, ctx: Context) -> bool {
    let g = member(j, "global"@);
    let r = member(j, "resources"@);
    &&& if is_unset(g) {
        ctx.globals_view().len() == 0
    } else {
        condition_values_from(g->Some_0, ctx.globals_view())
    }
    &&& if is_unset(r) {
        ctx.resources_view().len() == 0
    } else {
        match r->Some_0 {
            Json::Object(es) => {
                &&& ctx.resources_view().len() == es@.len()
                &&& forall|i: int|
                    0 <= i < es@.len() ==> (#[trigger] ctx.resources_view()[i]).0 == es@[i].0@
                        && condition_values_from(es@[i].1, ctx.resources_view()[i].1)
            },
            _ => false,
        }
    }
}

impl Context {
    /// Reads a context document: optional `global` values and optional
    /// per-resource values keyed by ARN.
    pub fn from_json(j: &Json) -> (r: Result<Context, PolicyParseError>)
        ensures
            r is Ok <==> context_outcome(*j) is Ok,
            r matches Err(e) ==> context_outcome(*j) == Err::<(), PolicyParseError>(e),
            r matches Ok(c) ==> context_from(*j, c),
    {
        if !matches!(j, Json::Object(_)) {
            return Err(PolicyParseError::SchemaError);
        }
        let g = j.member("global");
        let global = if unset(g) {
            ConditionValues::new()
        } else {
            parse_condition_values(g.unwrap())?
        };
        let rs = j.member("resources");
        let mut resources: Vec<(ARN, ConditionValues)> = Vec::new();
        if !unset(rs) {
            match rs.unwrap() {
                Json::Object(es) => {
                    let ghost v = es@;
                    assert(v.subrange(0, v.len() as int) =~= v);
                    let mut i: usize = 0;
                    while i < es.len()
                        invariant
                            v == es@,
                            *j is Object,
                            context_values_outcome(member(*j, "global"@)) is Ok,
                            member(*j, "resources"@) == Some(Json::Object(*es)),
                            i <= v.len(),
                            context_resources_outcome(v) == context_resources_outcome(v.subrange(i as int, v.len() as int)),
                            resources@.len() == i,
                            forall|m: int|
                                0 <= m < i ==> (#[trigger] resources@[m]).0@ == v[m].0@
                                    && condition_values_from(v[m].1, resources@[m].1@),
                        decreases es.len() - i,
                    {
                        proof {
                            let rest = v.subrange(i as int, v.len() as int);
                            assert(rest[0] == v[i as int]);
                            assert(rest.drop_first() =~= v.subrange(i + 1, v.len() as int));
                        }
                        let arn = match ARN::parse(es[i].0.as_str()) {
                            Ok(a) => a,
                            Err(e) => {
                                return Err(from_arn_error(e));
                            },
                        };
                        let values = parse_condition_values(&es[i].1)?;
                        resources.push((arn, values));
                        i += 1;
                    }
                    proof {
                        assert(v.subrange(i as int, v.len() as int).len() == 0);
                    }
                },
                _ => {
                    return Err(PolicyParseError::SchemaError);
                },
            }
        }
        let ctx = Context::from_parts(global, resources);
        proof {
            assert forall|m: int| 0 <= m < ctx.resources_view().len() implies #[trigger] ctx.resources_view()[m] == resource_view(resources@[m]) by {}
        }
        Ok(ctx)
    }
}

} // verus!

verus! {

/// The two documented versions are accepted, any other string is refused,
/// and an absent or null version is none.
pub proof fn version_rule(j: Json)
    ensures
        is_unset(member(j, "Version"@)) ==> version_outcome(j) is Ok && text_member(j, "Version"@) is None,
        member(j, "Version"@) matches Some(Json::Str(v)) ==> (version_outcome(j) is Ok <==> (v@
            == "2008-10-17"@ || v@ == "2012-10-17"@)),
        member(j, "Version"@) matches Some(Json::Str(v)) && !(v@ == "2008-10-17"@ || v@ == "2012-10-17"@)
            ==> version_outcome(j) == Err::<(), PolicyParseError>(PolicyParseError::InvalidFormat),
{
}

} // verus!
