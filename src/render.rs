//! Writing a policy back into its JSON form, and the laws that reading the
//! written form gives the same policy.
use vstd::prelude::*;
use crate::constraint::{ActionConstraint, ResourceConstraint};
use crate::json::{Json, field, member, string_items, string_list};
use crate::policy::Policy;
use crate::statement::{ActionClause, Effect, PrincipalClause, ResourceClause, Statement};
use crate::arn::arn_parse_outcome;
use crate::constraint::PrincipalConstraint;
use crate::iam::Principal;
use crate::condition::{ConditionList, ConditionValues, copy_strings, entry_view, group_view, lookup};
use crate::operator::{Operator, operator_name, operator_named};
use crate::quantifier::Quantifier;
use crate::parse::{
    condition_field_outcome, condition_fields_outcome, condition_pairs, condition_values_from,
    condition_values_outcome, conditions_from, conditions_outcome, decode_key, has_prefix, has_suffix,
    PrincipalKind, opt_view, policy_from, policy_outcome, statement_from, statement_items,
    statement_outcome, statements_outcome, actions_from, actions_outcome, arn_parsed, is_account, is_star, principal_constraint_of,
    principal_fields_from, principal_fields_outcome, principal_kind, principals_from, principals_outcome,
    resource_constraint_of, resource_texts_outcome, resources_from, resources_outcome,
};

verus! {

/// The text of an action constraint.
pub open spec fn action_text(c: ActionConstraint) -> Seq<char> {
    match c {
        ActionConstraint::Any => seq!['*'],
        ActionConstraint::Pattern(a) => a@,
    }
}

/// The text of a resource constraint.
pub open spec fn resource_text(c: ResourceConstraint) -> Seq<char> {
    match c {
        ResourceConstraint::Any => seq!['*'],
        ResourceConstraint::Pattern(a) => a@,
    }
}

/// `j` is an array of the strings `ts`.
pub open spec fn texts_json(j: Json, ts: Seq<Seq<char>>) -> bool {
    &&& j is Array
    &&& j->Array_0@.len() == ts.len()
    &&& forall|i: int| 0 <= i < ts.len() ==> (#[trigger] j->Array_0@[i]) is Str && j->Array_0@[i]->Str_0@ == ts[i]
}

pub open spec fn action_texts(cs: Seq<ActionConstraint>) -> Seq<Seq<char>> {
    cs.map_values(|c: ActionConstraint| action_text(c))
}

pub open spec fn resource_texts(cs: Seq<ResourceConstraint>) -> Seq<Seq<char>> {
    cs.map_values(|c: ResourceConstraint| resource_text(c))
}

/// Two action constraints with the same meaning and parts.
pub open spec fn same_action(c: ActionConstraint, d: ActionConstraint) -> bool {
    match (c, d) {
        (ActionConstraint::Any, ActionConstraint::Any) => true,
        (ActionConstraint::Pattern(a), ActionConstraint::Pattern(b)) => a@ == b@
            && a.service_view() == b.service_view() && a.action_view() == b.action_view(),
        _ => false,
    }
}

/// Two resource constraints with the same meaning: ARNs are equal when their
/// texts are.
pub open spec fn same_resource(c: ResourceConstraint, d: ResourceConstraint) -> bool {
    match (c, d) {
        (ResourceConstraint::Any, ResourceConstraint::Any) => true,
        (ResourceConstraint::Pattern(a), ResourceConstraint::Pattern(b)) => a@ == b@,
        _ => false,
    }
}

pub open spec fn same_actions(cs: Seq<ActionConstraint>, ds: Seq<ActionConstraint>) -> bool {
    cs.len() == ds.len() && forall|i: int| 0 <= i < cs.len() ==> same_action(#[trigger] cs[i], ds[i])
}

pub open spec fn same_resources(cs: Seq<ResourceConstraint>, ds: Seq<ResourceConstraint>) -> bool {
    cs.len() == ds.len() && forall|i: int| 0 <= i < cs.len() ==> same_resource(#[trigger] cs[i], ds[i])
}

fn text_json(texts: Vec<String>) -> (j: Json)
    ensures
        texts_json(j, crate::quantifier::strs(texts@)),
{
    let mut items: Vec<Json> = Vec::new();
    let mut i: usize = 0;
    while i < texts.len()
        invariant
            i <= texts@.len(),
            items@.len() == i,
            forall|m: int| 0 <= m < i ==> (#[trigger] items@[m]) is Str && items@[m]->Str_0@ == texts@[m]@,
        decreases texts.len() - i,
    {
        items.push(Json::Str(texts[i].clone()));
        i += 1;
    }
    Json::Array(items)
}

impl ActionConstraint {
    /// The text of the constraint: `*`, or the action pattern.
    pub fn text(&self) -> (r: String)
        ensures
            r@ == action_text(*self),
    {
        match self {
            ActionConstraint::Any => {
                proof {
                    reveal_strlit("*");
                    assert("*"@ =~= seq!['*']);
                }
                crate::text::owned("*")
            },
            ActionConstraint::Pattern(a) => crate::text::owned(a.raw()),
        }
    }
}

impl ResourceConstraint {
    /// The text of the constraint: `*`, or the ARN pattern.
    pub fn text(&self) -> (r: String)
        ensures
            r@ == resource_text(*self),
    {
        match self {
            ResourceConstraint::Any => {
                proof {
                    reveal_strlit("*");
                    assert("*"@ =~= seq!['*']);
                }
                crate::text::owned("*")
            },
            ResourceConstraint::Pattern(a) => crate::text::owned(a.raw()),
        }
    }
}

/// The JSON array of the texts of some action constraints.
pub fn actions_json(cs: &Vec<ActionConstraint>) -> (j: Json)
    ensures
        texts_json(j, action_texts(cs@)),
{
    let mut texts: Vec<String> = Vec::new();
    let mut i: usize = 0;
    while i < cs.len()
        invariant
            i <= cs@.len(),
            crate::quantifier::strs(texts@) == action_texts(cs@.subrange(0, i as int)),
        decreases cs.len() - i,
    {
        let ghost before = texts@;
        let t = cs[i].text();
        texts.push(t);
        proof {
            assert(cs@.subrange(0, i + 1) =~= cs@.subrange(0, i as int).push(cs@[i as int]));
            assert(crate::quantifier::strs(texts@) =~= crate::quantifier::strs(before).push(t@));
            assert(action_texts(cs@.subrange(0, i + 1)) =~= action_texts(cs@.subrange(0, i as int)).push(action_text(cs@[i as int])));
        }
        i += 1;
    }
    proof {
        assert(cs@.subrange(0, i as int) =~= cs@);
    }
    text_json(texts)
}

/// The JSON array of the texts of some resource constraints.
pub fn resources_json(cs: &Vec<ResourceConstraint>) -> (j: Json)
    ensures
        texts_json(j, resource_texts(cs@)),
{
    let mut texts: Vec<String> = Vec::new();
    let mut i: usize = 0;
    while i < cs.len()
        invariant
            i <= cs@.len(),
            crate::quantifier::strs(texts@) == resource_texts(cs@.subrange(0, i as int)),
        decreases cs.len() - i,
    {
        let ghost before = texts@;
        let t = cs[i].text();
        texts.push(t);
        proof {
            assert(cs@.subrange(0, i + 1) =~= cs@.subrange(0, i as int).push(cs@[i as int]));
            assert(crate::quantifier::strs(texts@) =~= crate::quantifier::strs(before).push(t@));
            assert(resource_texts(cs@.subrange(0, i + 1)) =~= resource_texts(cs@.subrange(0, i as int)).push(resource_text(cs@[i as int])));
        }
        i += 1;
    }
    proof {
        assert(cs@.subrange(0, i as int) =~= cs@);
    }
    text_json(texts)
}

proof fn lemma_texts_list(j: Json, ts: Seq<Seq<char>>)
    requires
        texts_json(j, ts),
    ensures
        string_list(j) == Some(ts),
{
    let items = j->Array_0@;
    assert(string_items(items) =~= ts);
}

/// Reading the written texts of action constraints that were read from `j`
/// succeeds and gives the same constraints.
pub proof fn actions_round_trip(j: Json, cs: Seq<ActionConstraint>, j2: Json, ds: Seq<ActionConstraint>)
    requires
        actions_from(j, cs),
        texts_json(j2, action_texts(cs)),
    ensures
        actions_outcome(j2) is Ok,
        actions_from(j2, ds) ==> same_actions(cs, ds),
{
    lemma_texts_list(j2, action_texts(cs));
    let ss = string_list(j)->Some_0;
    let ts = action_texts(cs);
    assert forall|i: int| 0 <= i < ts.len() implies is_star(#[trigger] ts[i]) || crate::iam::has_colon(ts[i]) by {
        assert(crate::parse::action_constraint_of(ss[i], cs[i]));
    }
    if actions_from(j2, ds) {
        assert forall|i: int| 0 <= i < cs.len() implies same_action(#[trigger] cs[i], ds[i]) by {
            assert(crate::parse::action_constraint_of(ss[i], cs[i]));
            assert(crate::parse::action_constraint_of(ts[i], ds[i]));
        }
    }
}

proof fn lemma_resource_texts_ok(ts: Seq<Seq<char>>)
    requires
        forall|i: int| 0 <= i < ts.len() ==> (#[trigger] crate::parse::resource_text_outcome(ts[i])) is Ok,
    ensures
        resource_texts_outcome(ts) is Ok,
    decreases ts.len(),
{
    if ts.len() > 0 {
        assert(crate::parse::resource_text_outcome(ts[0]) is Ok);
        assert forall|i: int| 0 <= i < ts.drop_first().len() implies (#[trigger] crate::parse::resource_text_outcome(ts.drop_first()[i])) is Ok by {
            assert(ts.drop_first()[i] == ts[i + 1]);
        }
        lemma_resource_texts_ok(ts.drop_first());
    }
}

/// Reading the written texts of resource constraints that were read from `j`
/// succeeds and gives the same constraints.
pub proof fn resources_round_trip(j: Json, cs: Seq<ResourceConstraint>, j2: Json, ds: Seq<ResourceConstraint>)
    requires
        resources_from(j, cs),
        texts_json(j2, resource_texts(cs)),
    ensures
        resources_outcome(j2) is Ok,
        resources_from(j2, ds) ==> same_resources(cs, ds),
{
    lemma_texts_list(j2, resource_texts(cs));
    let ss = string_list(j)->Some_0;
    let ts = resource_texts(cs);
    assert forall|i: int| 0 <= i < ts.len() implies (#[trigger] crate::parse::resource_text_outcome(ts[i])) is Ok by {
        assert(resource_constraint_of(ss[i], cs[i]));
        if !is_star(ts[i]) {
            let a = cs[i]->Pattern_0;
            assert(arn_parsed(a, ss[i]));
        }
    }
    lemma_resource_texts_ok(ts);
    if resources_from(j2, ds) {
        assert forall|i: int| 0 <= i < cs.len() implies same_resource(#[trigger] cs[i], ds[i]) by {
            assert(resource_constraint_of(ss[i], cs[i]));
            assert(resource_constraint_of(ts[i], ds[i]));
        }
    }
}

} // verus!

verus! {

/// The member name of a principal kind.
pub open spec fn kind_name(k: PrincipalKind) -> Seq<char> {
    match k {
        PrincipalKind::AWS => "AWS"@,
        PrincipalKind::Federated => "Federated"@,
        PrincipalKind::Service => "Service"@,
        PrincipalKind::CanonicalUser => "CanonicalUser"@,
    }
}

/// The kind and text of a principal constraint other than `Any`.
pub open spec fn principal_kind_of(c: PrincipalConstraint) -> PrincipalKind {
    match c {
        PrincipalConstraint::Pattern(Principal::Federated(_)) => PrincipalKind::Federated,
        PrincipalConstraint::Pattern(Principal::Service(_)) => PrincipalKind::Service,
        PrincipalConstraint::Pattern(Principal::CanonicalUser(_)) => PrincipalKind::CanonicalUser,
        _ => PrincipalKind::AWS,
    }
}

pub open spec fn principal_text(c: PrincipalConstraint) -> Seq<char> {
    match c {
        PrincipalConstraint::Pattern(Principal::AWS(a)) => a@,
        PrincipalConstraint::Pattern(Principal::Federated(x)) => x@,
        PrincipalConstraint::Pattern(Principal::Service(x)) => x@,
        PrincipalConstraint::Pattern(Principal::CanonicalUser(x)) => x@,
        _ => seq!['*'],
    }
}

/// `j` is the written form of principal constraints: `*` for the single
/// constraint `Any`, otherwise one member per constraint.
pub open spec fn principals_json(cs: Seq<PrincipalConstraint>, j: Json) -> bool {
    if cs.len() == 1 && cs[0] is Any {
        j is Str && j->Str_0@ == seq!['*']
    } else {
        &&& j is Object
        &&& j->Object_0@.len() == cs.len()
        &&& forall|i: int|
            0 <= i < cs.len() ==> (#[trigger] j->Object_0@[i]).0@ == kind_name(principal_kind_of(cs[i]))
                && j->Object_0@[i].1 is Str && j->Object_0@[i].1->Str_0@ == principal_text(cs[i])
    }
}

/// Two principal constraints with the same meaning.
pub open spec fn same_principal(c: PrincipalConstraint, d: PrincipalConstraint) -> bool {
    match (c, d) {
        (PrincipalConstraint::Any, PrincipalConstraint::Any) => true,
        (PrincipalConstraint::AWSAny, PrincipalConstraint::AWSAny) => true,
        (PrincipalConstraint::Pattern(Principal::AWS(a)), PrincipalConstraint::Pattern(Principal::AWS(b))) => a@ == b@,
        (PrincipalConstraint::Pattern(Principal::Federated(a)), PrincipalConstraint::Pattern(Principal::Federated(b))) => a@ == b@,
        (PrincipalConstraint::Pattern(Principal::Service(a)), PrincipalConstraint::Pattern(Principal::Service(b))) => a@ == b@,
        (PrincipalConstraint::Pattern(Principal::CanonicalUser(a)), PrincipalConstraint::Pattern(Principal::CanonicalUser(b))) => a@ == b@,
        _ => false,
    }
}

pub open spec fn same_principals(cs: Seq<PrincipalConstraint>, ds: Seq<PrincipalConstraint>) -> bool {
    cs.len() == ds.len() && forall|i: int| 0 <= i < cs.len() ==> same_principal(#[trigger] cs[i], ds[i])
}

/// A constraint read from a member of a `Principal` object.
pub open spec fn member_principal(c: PrincipalConstraint) -> bool {
    match c {
        PrincipalConstraint::Any => false,
        PrincipalConstraint::AWSAny => true,
        PrincipalConstraint::Pattern(Principal::AWS(a)) => arn_parse_outcome(a@) is Ok,
        _ => true,
    }
}

/// The AWS principals among `cs` are written as ARN texts that the account
/// pattern does not take for an account number.
pub open spec fn aws_texts_not_accounts(cs: Seq<PrincipalConstraint>) -> bool {
    forall|i: int|
        0 <= i < cs.len() ==> ((#[trigger] cs[i]) matches PrincipalConstraint::Pattern(Principal::AWS(a))
            ==> !is_account(a@))
}

proof fn lemma_kind_names()
    ensures
        principal_kind("AWS"@) == Some(PrincipalKind::AWS),
        principal_kind("Federated"@) == Some(PrincipalKind::Federated),
        principal_kind("Service"@) == Some(PrincipalKind::Service),
        principal_kind("CanonicalUser"@) == Some(PrincipalKind::CanonicalUser),
{
    reveal_strlit("AWS");
    reveal_strlit("Federated");
    reveal_strlit("Service");
    reveal_strlit("CanonicalUser");
    assert("AWS"@.len() == 3);
    assert("Federated"@.len() == 9);
    assert("Service"@.len() == 7);
    assert("CanonicalUser"@.len() == 13);
}

proof fn lemma_member_principals(fs: Seq<(String, Json)>, cs: Seq<PrincipalConstraint>)
    requires
        principal_fields_from(fs, cs),
    ensures
        forall|i: int| 0 <= i < cs.len() ==> member_principal(#[trigger] cs[i]),
    decreases fs.len(),
{
    if fs.len() > 0 {
        let n = crate::parse::field_count(fs.last());
        let front = cs.subrange(0, cs.len() - n);
        let back = cs.subrange(cs.len() - n, cs.len() as int);
        lemma_member_principals(fs.drop_last(), front);
        let f = fs.last();
        let ss = string_list(f.1)->Some_0;
        assert forall|i: int| 0 <= i < cs.len() implies member_principal(#[trigger] cs[i]) by {
            if i < cs.len() - n {
                assert(cs[i] == front[i]);
            } else {
                let m = i - (cs.len() - n);
                assert(cs[i] == back[m]);
                assert(principal_constraint_of(principal_kind(f.0@)->Some_0, ss[m], back[m]));
            }
        }
    }
}

/// With one constraint per member, reading the members gives one constraint
/// per member.
proof fn lemma_single_fields(fs: Seq<(String, Json)>, cs: Seq<PrincipalConstraint>)
    requires
        forall|i: int| 0 <= i < fs.len() ==> (#[trigger] fs[i]).1 is Str,
        fs.len() == cs.len(),
        forall|i: int|
            0 <= i < fs.len() ==> principal_kind((#[trigger] fs[i]).0@) is Some
                && principal_constraint_of(principal_kind(fs[i].0@)->Some_0, fs[i].1->Str_0@, cs[i]),
    ensures
        principal_fields_from(fs, cs),
    decreases fs.len(),
{
    if fs.len() > 0 {
        let k = fs.len() - 1;
        assert(crate::parse::field_count(fs.last()) == 1);
        assert(cs.subrange(0, cs.len() - 1).len() == fs.drop_last().len());
        assert forall|i: int| 0 <= i < fs.drop_last().len() implies (#[trigger] fs.drop_last()[i]).1 is Str by {
            assert(fs.drop_last()[i] == fs[i]);
        }
        assert forall|i: int|
            0 <= i < fs.drop_last().len() implies principal_kind((#[trigger] fs.drop_last()[i]).0@) is Some
                && principal_constraint_of(principal_kind(fs.drop_last()[i].0@)->Some_0, fs.drop_last()[i].1->Str_0@, cs.subrange(0, cs.len() - 1)[i]) by {
            assert(fs.drop_last()[i] == fs[i]);
            assert(cs.subrange(0, cs.len() - 1)[i] == cs[i]);
        }
        lemma_single_fields(fs.drop_last(), cs.subrange(0, cs.len() - 1));
        assert(fs[k] == fs.last());
        assert(cs.subrange(cs.len() - 1, cs.len() as int)[0] == cs[k]);
    }
}

proof fn lemma_fields_from_single(fs: Seq<(String, Json)>, ds: Seq<PrincipalConstraint>)
    requires
        forall|i: int| 0 <= i < fs.len() ==> (#[trigger] fs[i]).1 is Str,
        forall|i: int| 0 <= i < fs.len() ==> principal_kind((#[trigger] fs[i]).0@) is Some,
        principal_fields_from(fs, ds),
    ensures
        ds.len() == fs.len(),
        forall|i: int|
            0 <= i < fs.len() ==> principal_constraint_of(principal_kind((#[trigger] fs[i]).0@)->Some_0, fs[i].1->Str_0@, ds[i]),
    decreases fs.len(),
{
    if fs.len() > 0 {
        let k = fs.len() - 1;
        assert(crate::parse::field_count(fs.last()) == 1);
        let front = ds.subrange(0, ds.len() - 1);
        assert forall|i: int| 0 <= i < fs.drop_last().len() implies (#[trigger] fs.drop_last()[i]).1 is Str by {
            assert(fs.drop_last()[i] == fs[i]);
        }
        assert forall|i: int| 0 <= i < fs.drop_last().len() implies principal_kind((#[trigger] fs.drop_last()[i]).0@) is Some by {
            assert(fs.drop_last()[i] == fs[i]);
        }
        lemma_fields_from_single(fs.drop_last(), front);
        assert forall|i: int|
            0 <= i < fs.len() implies principal_constraint_of(principal_kind((#[trigger] fs[i]).0@)->Some_0, fs[i].1->Str_0@, ds[i]) by {
            if i < k {
                assert(fs.drop_last()[i] == fs[i]);
                assert(front[i] == ds[i]);
            } else {
                let back = ds.subrange(ds.len() - 1, ds.len() as int);
                let ss = string_list(fs.last().1)->Some_0;
                assert(fs.last() == fs[i]);
                assert(ss == seq![fs[i].1->Str_0@]);
                assert(ss[0] == fs[i].1->Str_0@);
                assert(principal_constraint_of(principal_kind(fs.last().0@)->Some_0, ss[0], back[0]));
                assert(back[0] == ds[i]);
            }
        }
    }
}

proof fn lemma_principal_fields_ok(fs: Seq<(String, Json)>)
    requires
        forall|i: int| 0 <= i < fs.len() ==> (#[trigger] crate::parse::principal_field_outcome(fs[i])) is Ok,
    ensures
        principal_fields_outcome(fs) is Ok,
    decreases fs.len(),
{
    if fs.len() > 0 {
        assert(crate::parse::principal_field_outcome(fs[0]) is Ok);
        assert forall|i: int| 0 <= i < fs.drop_first().len() implies (#[trigger] crate::parse::principal_field_outcome(fs.drop_first()[i])) is Ok by {
            assert(fs.drop_first()[i] == fs[i + 1]);
        }
        lemma_principal_fields_ok(fs.drop_first());
    }
}

/// Reading the written form of principal constraints that were read from `j`
/// succeeds and gives the same constraints, where no AWS principal's ARN text
/// is taken for an account number.
pub proof fn principals_round_trip(j: Json, cs: Seq<PrincipalConstraint>, j2: Json, ds: Seq<PrincipalConstraint>)
    requires
        principals_from(j, cs),
        aws_texts_not_accounts(cs),
        principals_json(cs, j2),
    ensures
        principals_outcome(j2) is Ok,
        principals_from(j2, ds) ==> same_principals(cs, ds),
{
    lemma_kind_names();
    match j {
        Json::Str(_) => {
            assert(cs.len() == 1 && cs[0] is Any);
        },
        Json::Object(fields) => {
            lemma_member_principals(fields@, cs);
            if cs.len() == 1 && cs[0] is Any {
                assert(member_principal(cs[0]));
            }
            let fs = j2->Object_0@;
            assert forall|i: int| 0 <= i < fs.len() implies (#[trigger] crate::parse::principal_field_outcome(fs[i])) is Ok by {
                assert(member_principal(cs[i]));
                let t = principal_text(cs[i]);
                assert(string_list(fs[i].1) == Some(seq![t]));
                match cs[i] {
                    PrincipalConstraint::Pattern(Principal::AWS(a)) => {
                        assert(!is_account(a@));
                        assert(arn_parse_outcome(a@) is Ok);
                        assert(!is_star(a@));
                    },
                    _ => {},
                }
                reveal_with_fuel(crate::parse::principal_texts_outcome, 2);
                assert(seq![t].drop_first() =~= Seq::<Seq<char>>::empty());
            }
            lemma_principal_fields_ok(fs);
            if principals_from(j2, ds) {
                assert forall|i: int| 0 <= i < fs.len() implies (#[trigger] fs[i]).1 is Str by {}
                assert forall|i: int| 0 <= i < fs.len() implies principal_kind((#[trigger] fs[i]).0@) is Some by {
                    assert(member_principal(cs[i]));
                }
                lemma_fields_from_single(fs, ds);
                assert forall|i: int| 0 <= i < cs.len() implies same_principal(#[trigger] cs[i], ds[i]) by {
                    assert(member_principal(cs[i]));
                    assert(principal_constraint_of(principal_kind(fs[i].0@)->Some_0, fs[i].1->Str_0@, ds[i]));
                    match cs[i] {
                        PrincipalConstraint::Pattern(Principal::AWS(a)) => {
                            assert(!is_account(a@));
                            assert(!is_star(a@));
                        },
                        _ => {},
                    }
                }
            }
        },
        _ => {},
    }
}

} // verus!

verus! {

proof fn lemma_no_prefix(s: Seq<char>, p: Seq<char>, k: int)
    requires
        0 <= k < p.len(),
        k < s.len(),
        s[k] != p[k],
    ensures
        !has_prefix(s, p),
{
    if has_prefix(s, p) {
        assert(s.subrange(0, p.len() as int)[k] == s[k]);
    }
}

proof fn lemma_no_suffix(s: Seq<char>, p: Seq<char>, k: int)
    requires
        0 <= k < p.len(),
        p.len() <= s.len(),
        s[s.len() - 1 - k] != p[p.len() - 1 - k],
    ensures
        !has_suffix(s, p),
{
    if has_suffix(s, p) {
        assert(s.subrange(s.len() - p.len(), s.len() as int)[p.len() - 1 - k] == s[s.len() - 1 - k]);
    }
}

/// Facts about each operator's name: it names that operator, it is no
/// quantifier prefix and does not end in `IfExists`.
proof fn lemma_operator_name(op: Operator)
    ensures
        operator_named(operator_name(op)) == Some(op),
        operator_name(op).len() >= 4,
        operator_name(op)[0] != 'F',
        !has_suffix(operator_name(op), "IfExists"@),
        operator_name(op) != "Null"@,
{
    reveal_strlit("Null");
    assert("Null"@ =~= seq!['N', 'u', 'l', 'l']);
    reveal_strlit("IfExists");
    assert("IfExists"@ =~= seq!['I', 'f', 'E', 'x', 'i', 's', 't', 's']);
    reveal_strlit("StringEquals");
    assert("StringEquals"@ =~= seq!['S', 't', 'r', 'i', 'n', 'g', 'E', 'q', 'u', 'a', 'l', 's']);
    reveal_strlit("StringNotEquals");
    assert("StringNotEquals"@ =~= seq!['S', 't', 'r', 'i', 'n', 'g', 'N', 'o', 't', 'E', 'q', 'u', 'a', 'l', 's']);
    reveal_strlit("StringEqualsIgnoreCase");
    assert("StringEqualsIgnoreCase"@ =~= seq!['S', 't', 'r', 'i', 'n', 'g', 'E', 'q', 'u', 'a', 'l', 's', 'I', 'g', 'n', 'o', 'r', 'e', 'C', 'a', 's', 'e']);
    reveal_strlit("StringNotEqualsIgnoreCase");
    assert("StringNotEqualsIgnoreCase"@ =~= seq!['S', 't', 'r', 'i', 'n', 'g', 'N', 'o', 't', 'E', 'q', 'u', 'a', 'l', 's', 'I', 'g', 'n', 'o', 'r', 'e', 'C', 'a', 's', 'e']);
    reveal_strlit("StringLike");
    assert("StringLike"@ =~= seq!['S', 't', 'r', 'i', 'n', 'g', 'L', 'i', 'k', 'e']);
    reveal_strlit("StringNotLike");
    assert("StringNotLike"@ =~= seq!['S', 't', 'r', 'i', 'n', 'g', 'N', 'o', 't', 'L', 'i', 'k', 'e']);
    reveal_strlit("NumericEquals");
    assert("NumericEquals"@ =~= seq!['N', 'u', 'm', 'e', 'r', 'i', 'c', 'E', 'q', 'u', 'a', 'l', 's']);
    reveal_strlit("NumericNotEquals");
    assert("NumericNotEquals"@ =~= seq!['N', 'u', 'm', 'e', 'r', 'i', 'c', 'N', 'o', 't', 'E', 'q', 'u', 'a', 'l', 's']);
    reveal_strlit("NumericLessThan");
    assert("NumericLessThan"@ =~= seq!['N', 'u', 'm', 'e', 'r', 'i', 'c', 'L', 'e', 's', 's', 'T', 'h', 'a', 'n']);
    reveal_strlit("NumericLessThanEquals");
    assert("NumericLessThanEquals"@ =~= seq!['N', 'u', 'm', 'e', 'r', 'i', 'c', 'L', 'e', 's', 's', 'T', 'h', 'a', 'n', 'E', 'q', 'u', 'a', 'l', 's']);
    reveal_strlit("NumericGreaterThan");
    assert("NumericGreaterThan"@ =~= seq!['N', 'u', 'm', 'e', 'r', 'i', 'c', 'G', 'r', 'e', 'a', 't', 'e', 'r', 'T', 'h', 'a', 'n']);
    reveal_strlit("NumericGreaterThanEquals");
    assert("NumericGreaterThanEquals"@ =~= seq!['N', 'u', 'm', 'e', 'r', 'i', 'c', 'G', 'r', 'e', 'a', 't', 'e', 'r', 'T', 'h', 'a', 'n', 'E', 'q', 'u', 'a', 'l', 's']);
    reveal_strlit("DateEquals");
    assert("DateEquals"@ =~= seq!['D', 'a', 't', 'e', 'E', 'q', 'u', 'a', 'l', 's']);
    reveal_strlit("DateNotEquals");
    assert("DateNotEquals"@ =~= seq!['D', 'a', 't', 'e', 'N', 'o', 't', 'E', 'q', 'u', 'a', 'l', 's']);
    reveal_strlit("DateLessThan");
    assert("DateLessThan"@ =~= seq!['D', 'a', 't', 'e', 'L', 'e', 's', 's', 'T', 'h', 'a', 'n']);
    reveal_strlit("DateLessThanEquals");
    assert("DateLessThanEquals"@ =~= seq!['D', 'a', 't', 'e', 'L', 'e', 's', 's', 'T', 'h', 'a', 'n', 'E', 'q', 'u', 'a', 'l', 's']);
    reveal_strlit("DateGreaterThan");
    assert("DateGreaterThan"@ =~= seq!['D', 'a', 't', 'e', 'G', 'r', 'e', 'a', 't', 'e', 'r', 'T', 'h', 'a', 'n']);
    reveal_strlit("DateGreaterThanEquals");
    assert("DateGreaterThanEquals"@ =~= seq!['D', 'a', 't', 'e', 'G', 'r', 'e', 'a', 't', 'e', 'r', 'T', 'h', 'a', 'n', 'E', 'q', 'u', 'a', 'l', 's']);
    reveal_strlit("Bool");
    assert("Bool"@ =~= seq!['B', 'o', 'o', 'l']);
    reveal_strlit("BinaryEquals");
    assert("BinaryEquals"@ =~= seq!['B', 'i', 'n', 'a', 'r', 'y', 'E', 'q', 'u', 'a', 'l', 's']);
    reveal_strlit("IpAddress");
    assert("IpAddress"@ =~= seq!['I', 'p', 'A', 'd', 'd', 'r', 'e', 's', 's']);
    reveal_strlit("NotIpAddress");
    assert("NotIpAddress"@ =~= seq!['N', 'o', 't', 'I', 'p', 'A', 'd', 'd', 'r', 'e', 's', 's']);
    reveal_strlit("ArnEquals");
    assert("ArnEquals"@ =~= seq!['A', 'r', 'n', 'E', 'q', 'u', 'a', 'l', 's']);
    reveal_strlit("ArnLike");
    assert("ArnLike"@ =~= seq!['A', 'r', 'n', 'L', 'i', 'k', 'e']);
    reveal_strlit("ArnNotEquals");
    assert("ArnNotEquals"@ =~= seq!['A', 'r', 'n', 'N', 'o', 't', 'E', 'q', 'u', 'a', 'l', 's']);
    reveal_strlit("ArnNotLike");
    assert("ArnNotLike"@ =~= seq!['A', 'r', 'n', 'N', 'o', 't', 'L', 'i', 'k', 'e']);
    match op {
        Operator::StringEquals => {
            lemma_no_suffix("StringEquals"@, "IfExists"@, 1);
        },
        Operator::StringNotEquals => {
            lemma_no_suffix("StringNotEquals"@, "IfExists"@, 1);
        },
        Operator::StringEqualsIgnoreCase => {
            lemma_no_suffix("StringEqualsIgnoreCase"@, "IfExists"@, 0);
        },
        Operator::StringNotEqualsIgnoreCase => {
            lemma_no_suffix("StringNotEqualsIgnoreCase"@, "IfExists"@, 0);
        },
        Operator::StringLike => {
            lemma_no_suffix("StringLike"@, "IfExists"@, 0);
        },
        Operator::StringNotLike => {
            lemma_no_suffix("StringNotLike"@, "IfExists"@, 0);
        },
        Operator::NumericEquals => {
            assert("NumericEquals"@[0] != "StringNotLike"@[0]);
            lemma_no_suffix("NumericEquals"@, "IfExists"@, 1);
        },
        Operator::NumericNotEquals => {
            lemma_no_suffix("NumericNotEquals"@, "IfExists"@, 1);
        },
        Operator::NumericLessThan => {
            assert("NumericLessThan"@[0] != "StringNotEquals"@[0]);
            lemma_no_suffix("NumericLessThan"@, "IfExists"@, 0);
        },
        Operator::NumericLessThanEquals => {
            lemma_no_suffix("NumericLessThanEquals"@, "IfExists"@, 1);
        },
        Operator::NumericGreaterThan => {
            lemma_no_suffix("NumericGreaterThan"@, "IfExists"@, 0);
        },
        Operator::NumericGreaterThanEquals => {
            lemma_no_suffix("NumericGreaterThanEquals"@, "IfExists"@, 1);
        },
        Operator::DateEquals => {
            assert("DateEquals"@[0] != "StringLike"@[0]);
            lemma_no_suffix("DateEquals"@, "IfExists"@, 1);
        },
        Operator::DateNotEquals => {
            assert("DateNotEquals"@[0] != "StringNotLike"@[0]);
            assert("DateNotEquals"@[0] != "NumericEquals"@[0]);
            lemma_no_suffix("DateNotEquals"@, "IfExists"@, 1);
        },
        Operator::DateLessThan => {
            assert("DateLessThan"@[0] != "StringEquals"@[0]);
            lemma_no_suffix("DateLessThan"@, "IfExists"@, 0);
        },
        Operator::DateLessThanEquals => {
            assert("DateLessThanEquals"@[0] != "NumericGreaterThan"@[0]);
            lemma_no_suffix("DateLessThanEquals"@, "IfExists"@, 1);
        },
        Operator::DateGreaterThan => {
            assert("DateGreaterThan"@[0] != "StringNotEquals"@[0]);
            assert("DateGreaterThan"@[0] != "NumericLessThan"@[0]);
            lemma_no_suffix("DateGreaterThan"@, "IfExists"@, 0);
        },
        Operator::DateGreaterThanEquals => {
            assert("DateGreaterThanEquals"@[0] != "NumericLessThanEquals"@[0]);
            lemma_no_suffix("DateGreaterThanEquals"@, "IfExists"@, 1);
        },
        Operator::Bool => {
            assert("Bool"@[0] != "Null"@[0]);
        },
        Operator::BinaryEquals => {
            assert("BinaryEquals"@[0] != "StringEquals"@[0]);
            assert("BinaryEquals"@[0] != "DateLessThan"@[0]);
            lemma_no_suffix("BinaryEquals"@, "IfExists"@, 1);
        },
        Operator::IpAddress => {
            lemma_no_suffix("IpAddress"@, "IfExists"@, 1);
        },
        Operator::NotIpAddress => {
            assert("NotIpAddress"@[0] != "StringEquals"@[0]);
            assert("NotIpAddress"@[0] != "DateLessThan"@[0]);
            assert("NotIpAddress"@[0] != "BinaryEquals"@[0]);
            lemma_no_suffix("NotIpAddress"@, "IfExists"@, 1);
        },
        Operator::ArnEquals => {
            assert("ArnEquals"@[0] != "IpAddress"@[0]);
            lemma_no_suffix("ArnEquals"@, "IfExists"@, 1);
        },
        Operator::ArnLike => {},
        Operator::ArnNotEquals => {
            assert("ArnNotEquals"@[0] != "StringEquals"@[0]);
            assert("ArnNotEquals"@[0] != "DateLessThan"@[0]);
            assert("ArnNotEquals"@[0] != "BinaryEquals"@[0]);
            assert("ArnNotEquals"@[0] != "NotIpAddress"@[0]);
            lemma_no_suffix("ArnNotEquals"@, "IfExists"@, 1);
        },
        Operator::ArnNotLike => {
            assert("ArnNotLike"@[0] != "StringLike"@[0]);
            assert("ArnNotLike"@[0] != "DateEquals"@[0]);
            lemma_no_suffix("ArnNotLike"@, "IfExists"@, 0);
        },
    }
}

} // verus!

verus! {

/// The condition key that names a quantified operator.
pub open spec fn quantifier_key(q: Quantifier) -> Seq<char> {
    match q {
        Quantifier::Null => "Null"@,
        Quantifier::ForAnyValue(op) => operator_name(op),
        Quantifier::ForAllValues(op) => "ForAllValues:"@ + operator_name(op),
        Quantifier::IfExists(op) => operator_name(op) + "IfExists"@,
    }
}

/// The key written for a quantified operator reads back as that operator.
pub proof fn quantifier_key_decodes(q: Quantifier)
    ensures
        decode_key(quantifier_key(q)) == Some(q),
{
    reveal_strlit("Null");
    assert("Null"@ =~= seq!['N', 'u', 'l', 'l']);
    reveal_strlit("ForAnyValue:");
    assert("ForAnyValue:"@ =~= seq!['F', 'o', 'r', 'A', 'n', 'y', 'V', 'a', 'l', 'u', 'e', ':']);
    reveal_strlit("ForAny:");
    assert("ForAny:"@ =~= seq!['F', 'o', 'r', 'A', 'n', 'y', ':']);
    reveal_strlit("ForAllValues:");
    assert("ForAllValues:"@ =~= seq!['F', 'o', 'r', 'A', 'l', 'l', 'V', 'a', 'l', 'u', 'e', 's', ':']);
    reveal_strlit("ForAll:");
    assert("ForAll:"@ =~= seq!['F', 'o', 'r', 'A', 'l', 'l', ':']);
    reveal_strlit("IfExists");
    assert("IfExists"@ =~= seq!['I', 'f', 'E', 'x', 'i', 's', 't', 's']);
    match q {
        Quantifier::Null => {},
        Quantifier::ForAnyValue(op) => {
            lemma_operator_name(op);
            let n = operator_name(op);
            lemma_no_prefix(n, "ForAnyValue:"@, 0);
            lemma_no_prefix(n, "ForAny:"@, 0);
            lemma_no_prefix(n, "ForAllValues:"@, 0);
            lemma_no_prefix(n, "ForAll:"@, 0);
        },
        Quantifier::ForAllValues(op) => {
            lemma_operator_name(op);
            let n = operator_name(op);
            let k = "ForAllValues:"@ + n;
            assert(k[0] == 'F');
            assert(k[4] == 'l');
            lemma_no_prefix(k, "ForAnyValue:"@, 4);
            lemma_no_prefix(k, "ForAny:"@, 4);
            assert(k.subrange(0, 13) =~= "ForAllValues:"@);
            assert(k.subrange(13, k.len() as int) =~= n);
            assert(k != "Null"@) by {
                assert(k[0] != "Null"@[0]);
            }
        },
        Quantifier::IfExists(op) => {
            lemma_operator_name(op);
            let n = operator_name(op);
            let k = n + "IfExists"@;
            assert(k[0] == n[0]);
            lemma_no_prefix(k, "ForAnyValue:"@, 0);
            lemma_no_prefix(k, "ForAny:"@, 0);
            lemma_no_prefix(k, "ForAllValues:"@, 0);
            lemma_no_prefix(k, "ForAll:"@, 0);
            assert(k.len() >= 12);
            assert(k.subrange(k.len() - 8, k.len() as int) =~= "IfExists"@);
            assert(k.subrange(0, k.len() - 8) =~= n);
        },
    }
}

/// The condition key of a quantified operator.
pub fn quantifier_key_text(q: &Quantifier) -> (r: String)
    ensures
        r@ == quantifier_key(*q),
{
    match *q {
        Quantifier::Null => crate::text::owned("Null"),
        Quantifier::ForAnyValue(op) => crate::text::owned(op.name()),
        Quantifier::ForAllValues(op) => {
            let mut s = crate::text::owned("ForAllValues:");
            s.push_str(op.name());
            s
        },
        Quantifier::IfExists(op) => {
            let mut s = crate::text::owned(op.name());
            s.push_str("IfExists");
            s
        },
    }
}

/// `j` is the written form of condition values: one member per key, last key
/// first, each an array of the key's values.
pub open spec fn values_json(vs: Seq<(Seq<char>, Seq<Seq<char>>)>, j: Json) -> bool {
    &&& j is Object
    &&& j->Object_0@.len() == vs.len()
    &&& forall|i: int|
        0 <= i < vs.len() ==> (#[trigger] j->Object_0@[i]).0@ == vs[vs.len() - 1 - i].0 && texts_json(
            j->Object_0@[i].1,
            vs[vs.len() - 1 - i].1,
        )
}

/// Same values for every key.
pub open spec fn same_values(a: Seq<(Seq<char>, Seq<Seq<char>>)>, b: Seq<(Seq<char>, Seq<Seq<char>>)>) -> bool {
    forall|k: Seq<char>| #[trigger] lookup(a, k) == lookup(b, k)
}

proof fn lemma_values_round_trip(vs: Seq<(Seq<char>, Seq<Seq<char>>)>, j: Json, ws: Seq<(Seq<char>, Seq<Seq<char>>)>)
    requires
        values_json(vs, j),
    ensures
        condition_values_outcome(j) is Ok,
        condition_values_from(j, ws) ==> same_values(vs, ws),
{
    let fs = j->Object_0@;
    assert forall|i: int| 0 <= i < fs.len() implies (#[trigger] string_list(fs[i].1)) is Some by {
        lemma_texts_list(fs[i].1, vs[vs.len() - 1 - i].1);
    }
    assert(condition_pairs(fs) =~= vs.reverse()) by {
        assert forall|i: int| 0 <= i < fs.len() implies #[trigger] condition_pairs(fs)[i] == vs.reverse()[i] by {
            lemma_texts_list(fs[i].1, vs[vs.len() - 1 - i].1);
        }
    }
    assert(vs.reverse().reverse() =~= vs);
}

/// `j` is the written form of condition groups: one member per group, in
/// order, named by the group's key.
pub open spec fn conditions_json(gs: Seq<(Quantifier, Seq<(Seq<char>, Seq<Seq<char>>)>)>, j: Json) -> bool {
    &&& j is Object
    &&& j->Object_0@.len() == gs.len()
    &&& forall|i: int|
        0 <= i < gs.len() ==> (#[trigger] j->Object_0@[i]).0@ == quantifier_key(gs[i].0) && values_json(
            gs[i].1,
            j->Object_0@[i].1,
        )
}

/// The same quantified operators, in order, with the same values.
pub open spec fn same_conditions(
    gs: Seq<(Quantifier, Seq<(Seq<char>, Seq<Seq<char>>)>)>,
    hs: Seq<(Quantifier, Seq<(Seq<char>, Seq<Seq<char>>)>)>,
) -> bool {
    &&& gs.len() == hs.len()
    &&& forall|i: int| 0 <= i < gs.len() ==> (#[trigger] gs[i]).0 == hs[i].0 && same_values(gs[i].1, hs[i].1)
}

proof fn lemma_condition_fields_ok(fs: Seq<(String, Json)>)
    requires
        forall|i: int| 0 <= i < fs.len() ==> (#[trigger] condition_field_outcome(fs[i])) is Ok,
    ensures
        condition_fields_outcome(fs) is Ok,
    decreases fs.len(),
{
    if fs.len() > 0 {
        assert(condition_field_outcome(fs[0]) is Ok);
        assert forall|i: int| 0 <= i < fs.drop_first().len() implies (#[trigger] condition_field_outcome(fs.drop_first()[i])) is Ok by {
            assert(fs.drop_first()[i] == fs[i + 1]);
        }
        lemma_condition_fields_ok(fs.drop_first());
    }
}

/// Reading the written form of condition groups succeeds and gives the same
/// groups.
pub proof fn conditions_round_trip(
    gs: Seq<(Quantifier, Seq<(Seq<char>, Seq<Seq<char>>)>)>,
    j: Json,
    hs: Seq<(Quantifier, Seq<(Seq<char>, Seq<Seq<char>>)>)>,
)
    requires
        conditions_json(gs, j),
    ensures
        conditions_outcome(j) is Ok,
        conditions_from(j, hs) ==> same_conditions(gs, hs),
{
    let fs = j->Object_0@;
    assert forall|i: int| 0 <= i < fs.len() implies (#[trigger] condition_field_outcome(fs[i])) is Ok by {
        quantifier_key_decodes(gs[i].0);
        lemma_values_round_trip(gs[i].1, fs[i].1, gs[i].1);
    }
    lemma_condition_fields_ok(fs);
    if conditions_from(j, hs) {
        assert forall|i: int| 0 <= i < gs.len() implies (#[trigger] gs[i]).0 == hs[i].0 && same_values(gs[i].1, hs[i].1) by {
            quantifier_key_decodes(gs[i].0);
            lemma_values_round_trip(gs[i].1, fs[i].1, hs[i].1);
        }
    }
}

} // verus!

verus! {

/// The written form of some condition values.
pub fn values_to_json(v: &ConditionValues) -> (j: Json)
    ensures
        values_json(v@, j),
{
    let es = v.entries();
    let ghost vs = v@;
    let n = es.len();
    let mut fields: Vec<(String, Json)> = Vec::new();
    let mut i: usize = 0;
    while i < n
        invariant
            n == es@.len(),
            vs == v@,
            es@.map_values(|e: (String, Vec<String>)| entry_view(e)) == vs,
            i <= n,
            fields@.len() == i,
            forall|m: int|
                0 <= m < i ==> (#[trigger] fields@[m]).0@ == vs[vs.len() - 1 - m].0 && texts_json(
                    fields@[m].1,
                    vs[vs.len() - 1 - m].1,
                ),
        decreases n - i,
    {
        let e = &es[n - 1 - i];
        proof {
            assert(vs[n - 1 - i] == entry_view(es@[n - 1 - i]));
        }
        let values = copy_strings(&e.1);
        let item = (e.0.clone(), text_json(values));
        fields.push(item);
        i += 1;
    }
    Json::Object(fields)
}

/// The written form of condition groups.
pub fn conditions_to_json(c: &ConditionList) -> (j: Json)
    ensures
        conditions_json(c@, j),
{
    let gs = c.groups();
    let ghost view = c@;
    let mut fields: Vec<(String, Json)> = Vec::new();
    let mut i: usize = 0;
    while i < gs.len()
        invariant
            view == c@,
            gs@.map_values(|g: (Quantifier, ConditionValues)| group_view(g)) == view,
            i <= gs@.len(),
            fields@.len() == i,
            forall|m: int|
                0 <= m < i ==> (#[trigger] fields@[m]).0@ == quantifier_key(view[m].0) && values_json(
                    view[m].1,
                    fields@[m].1,
                ),
        decreases gs.len() - i,
    {
        proof {
            assert(view[i as int] == group_view(gs@[i as int]));
        }
        let key = quantifier_key_text(&gs[i].0);
        let values = values_to_json(&gs[i].1);
        fields.push((key, values));
        i += 1;
    }
    Json::Object(fields)
}

fn principal_member(c: &PrincipalConstraint) -> (r: (String, Json))
    ensures
        r.0@ == kind_name(principal_kind_of(*c)),
        r.1 is Str,
        r.1->Str_0@ == principal_text(*c),
{
    proof {
        reveal_strlit("*");
        assert("*"@ =~= seq!['*']);
    }
    match c {
        PrincipalConstraint::Pattern(Principal::AWS(a)) => (crate::text::owned("AWS"), Json::Str(crate::text::owned(a.raw()))),
        PrincipalConstraint::Pattern(Principal::Federated(x)) => (crate::text::owned("Federated"), Json::Str(x.clone())),
        PrincipalConstraint::Pattern(Principal::Service(x)) => (crate::text::owned("Service"), Json::Str(x.clone())),
        PrincipalConstraint::Pattern(Principal::CanonicalUser(x)) => (crate::text::owned("CanonicalUser"), Json::Str(x.clone())),
        _ => (crate::text::owned("AWS"), Json::Str(crate::text::owned("*"))),
    }
}

/// The written form of principal constraints.
pub fn principals_to_json(cs: &Vec<PrincipalConstraint>) -> (j: Json)
    ensures
        principals_json(cs@, j),
{
    proof {
        reveal_strlit("*");
        assert("*"@ =~= seq!['*']);
    }
    if cs.len() == 1 && matches!(cs[0], PrincipalConstraint::Any) {
        return Json::Str(crate::text::owned("*"));
    }
    let mut fields: Vec<(String, Json)> = Vec::new();
    let mut i: usize = 0;
    while i < cs.len()
        invariant
            i <= cs@.len(),
            fields@.len() == i,
            forall|m: int|
                0 <= m < i ==> (#[trigger] fields@[m]).0@ == kind_name(principal_kind_of(cs@[m]))
                    && fields@[m].1 is Str && fields@[m].1->Str_0@ == principal_text(cs@[m]),
        decreases cs.len() - i,
    {
        let f = principal_member(&cs[i]);
        fields.push(f);
        i += 1;
    }
    Json::Object(fields)
}

} // verus!

verus! {

pub open spec fn statement_keys() -> Seq<Seq<char>> {
    seq![
        "Sid"@,
        "Effect"@,
        "Action"@,
        "NotAction"@,
        "Principal"@,
        "NotPrincipal"@,
        "Resource"@,
        "NotResource"@,
        "Condition"@,
    ]
}

pub open spec fn effect_name(e: Effect) -> Seq<char> {
    match e {
        Effect::Allow => "Allow"@,
        Effect::Deny => "Deny"@,
    }
}

/// `j` is the written form of a statement: all nine members in a fixed
/// order, `null` where the statement has nothing.
pub open spec fn statement_json(s: Statement, j: Json) -> bool {
    let fs = j->Object_0@;
    &&& j is Object
    &&& fs.len() == 9
    &&& forall|k: int| 0 <= k < 9 ==> (#[trigger] fs[k]).0@ == statement_keys()[k]
    &&& match s.sid {
        Some(x) => fs[0].1 is Str && fs[0].1->Str_0@ == x@,
        None => fs[0].1 is Null,
    }
    &&& fs[1].1 is Str && fs[1].1->Str_0@ == effect_name(s.effect)
    &&& match s.actions {
        ActionClause::Action(l) => texts_json(fs[2].1, action_texts(l@)) && fs[3].1 is Null,
        ActionClause::NotAction(l) => fs[2].1 is Null && texts_json(fs[3].1, action_texts(l@)),
    }
    &&& match s.principals {
        PrincipalClause::Absent => fs[4].1 is Null && fs[5].1 is Null,
        PrincipalClause::Principal(l) => principals_json(l@, fs[4].1) && fs[5].1 is Null,
        PrincipalClause::NotPrincipal(l) => fs[4].1 is Null && principals_json(l@, fs[5].1),
    }
    &&& match s.resources {
        ResourceClause::Resource(l) => texts_json(fs[6].1, resource_texts(l@)) && fs[7].1 is Null,
        ResourceClause::NotResource(l) => fs[6].1 is Null && texts_json(fs[7].1, resource_texts(l@)),
    }
    &&& match s.conditions {
        Some(c) => conditions_json(c@, fs[8].1),
        None => fs[8].1 is Null,
    }
}

/// Two statements with the same meaning and parts.
pub open spec fn same_statement(s: Statement, t: Statement) -> bool {
    &&& opt_view(s.sid) == opt_view(t.sid)
    &&& s.effect == t.effect
    &&& match (s.actions, t.actions) {
        (ActionClause::Action(a), ActionClause::Action(b)) => same_actions(a@, b@),
        (ActionClause::NotAction(a), ActionClause::NotAction(b)) => same_actions(a@, b@),
        _ => false,
    }
    &&& match (s.principals, t.principals) {
        (PrincipalClause::Absent, PrincipalClause::Absent) => true,
        (PrincipalClause::Principal(a), PrincipalClause::Principal(b)) => same_principals(a@, b@),
        (PrincipalClause::NotPrincipal(a), PrincipalClause::NotPrincipal(b)) => same_principals(a@, b@),
        _ => false,
    }
    &&& match (s.resources, t.resources) {
        (ResourceClause::Resource(a), ResourceClause::Resource(b)) => same_resources(a@, b@),
        (ResourceClause::NotResource(a), ResourceClause::NotResource(b)) => same_resources(a@, b@),
        _ => false,
    }
    &&& match (s.conditions, t.conditions) {
        (None, None) => true,
        (Some(a), Some(b)) => same_conditions(a@, b@),
        _ => false,
    }
}

/// No AWS principal of the statement is written as a text that the account
/// pattern takes for an account number.
pub open spec fn statement_aws_ok(s: Statement) -> bool {
    match s.principals {
        PrincipalClause::Principal(l) => aws_texts_not_accounts(l@),
        PrincipalClause::NotPrincipal(l) => aws_texts_not_accounts(l@),
        PrincipalClause::Absent => true,
    }
}

proof fn lemma_statement_members(j: Json)
    requires
        j is Object,
        j->Object_0@.len() == 9,
        forall|k: int| 0 <= k < 9 ==> (#[trigger] j->Object_0@[k]).0@ == statement_keys()[k],
    ensures
        member(j, "Sid"@) == Some(j->Object_0@[0].1),
        member(j, "Effect"@) == Some(j->Object_0@[1].1),
        member(j, "Action"@) == Some(j->Object_0@[2].1),
        member(j, "NotAction"@) == Some(j->Object_0@[3].1),
        member(j, "Principal"@) == Some(j->Object_0@[4].1),
        member(j, "NotPrincipal"@) == Some(j->Object_0@[5].1),
        member(j, "Resource"@) == Some(j->Object_0@[6].1),
        member(j, "NotResource"@) == Some(j->Object_0@[7].1),
        member(j, "Condition"@) == Some(j->Object_0@[8].1),
{
    let fs = j->Object_0@;
    reveal_strlit("Sid");
    reveal_strlit("Effect");
    reveal_strlit("Action");
    reveal_strlit("NotAction");
    reveal_strlit("Principal");
    reveal_strlit("NotPrincipal");
    reveal_strlit("Resource");
    reveal_strlit("NotResource");
    reveal_strlit("Condition");
    assert("Sid"@ =~= seq!['S', 'i', 'd']);
    assert("Effect"@ =~= seq!['E', 'f', 'f', 'e', 'c', 't']);
    assert("Action"@ =~= seq!['A', 'c', 't', 'i', 'o', 'n']);
    assert("NotAction"@ =~= seq!['N', 'o', 't', 'A', 'c', 't', 'i', 'o', 'n']);
    assert("Principal"@ =~= seq!['P', 'r', 'i', 'n', 'c', 'i', 'p', 'a', 'l']);
    assert("NotPrincipal"@ =~= seq!['N', 'o', 't', 'P', 'r', 'i', 'n', 'c', 'i', 'p', 'a', 'l']);
    assert("Resource"@ =~= seq!['R', 'e', 's', 'o', 'u', 'r', 'c', 'e']);
    assert("NotResource"@ =~= seq!['N', 'o', 't', 'R', 'e', 's', 'o', 'u', 'r', 'c', 'e']);
    assert("Condition"@ =~= seq!['C', 'o', 'n', 'd', 'i', 't', 'i', 'o', 'n']);
    let keys = statement_keys();
    assert forall|a: int, b: int| 0 <= a < b < 9 implies keys[a] != keys[b] by {
        assert(keys[a][0] != keys[b][0] || keys[a].len() != keys[b].len() || keys[a][3] != keys[b][3]);
    }
    assert forall|k: int| 0 <= k < 9 implies #[trigger] field(fs, keys[k]) == Some(fs[k].1) by {
        lemma_field_at(fs, k, keys[k]);
    }
    assert(keys[0] == "Sid"@ && keys[1] == "Effect"@ && keys[2] == "Action"@);
    assert(keys[3] == "NotAction"@ && keys[4] == "Principal"@ && keys[5] == "NotPrincipal"@);
    assert(keys[6] == "Resource"@ && keys[7] == "NotResource"@ && keys[8] == "Condition"@);
    assert(field(fs, keys[0]) == Some(fs[0].1));
    assert(field(fs, keys[1]) == Some(fs[1].1));
    assert(field(fs, keys[2]) == Some(fs[2].1));
    assert(field(fs, keys[3]) == Some(fs[3].1));
    assert(field(fs, keys[4]) == Some(fs[4].1));
    assert(field(fs, keys[5]) == Some(fs[5].1));
    assert(field(fs, keys[6]) == Some(fs[6].1));
    assert(field(fs, keys[7]) == Some(fs[7].1));
    assert(field(fs, keys[8]) == Some(fs[8].1));
}

/// The member at `k` is the first one named `key`.
proof fn lemma_field_at(fs: Seq<(String, Json)>, k: int, key: Seq<char>)
    requires
        0 <= k < fs.len(),
        fs[k].0@ == key,
        forall|m: int| 0 <= m < k ==> (#[trigger] fs[m]).0@ != key,
    ensures
        field(fs, key) == Some(fs[k].1),
    decreases k,
{
    if k > 0 {
        assert(fs[0].0@ != key);
        assert forall|m: int| 0 <= m < k - 1 implies (#[trigger] fs.drop_first()[m]).0@ != key by {
            assert(fs.drop_first()[m] == fs[m + 1]);
        }
        lemma_field_at(fs.drop_first(), k - 1, key);
    }
}

} // verus!

verus! {

/// Reading the written form of a statement that was read from `j` succeeds
/// and gives the same statement, where no AWS principal's ARN text is taken
/// for an account number.
pub proof fn statement_round_trip(j: Json, s: Statement, j2: Json, t: Statement)
    requires
        statement_from(j, s),
        statement_aws_ok(s),
        statement_json(s, j2),
    ensures
        statement_outcome(j2) is Ok,
        statement_from(j2, t) ==> same_statement(s, t),
{
    lemma_statement_members(j2);
    let fs = j2->Object_0@;
    reveal_strlit("Allow");
    reveal_strlit("Deny");
    assert("Allow"@.len() == 5);
    assert("Deny"@.len() == 4);
    match s.actions {
        ActionClause::Action(l) => {
            actions_round_trip(member(j, "Action"@)->Some_0, l@, fs[2].1, l@);
        },
        ActionClause::NotAction(l) => {
            actions_round_trip(member(j, "NotAction"@)->Some_0, l@, fs[3].1, l@);
        },
    }
    match s.principals {
        PrincipalClause::Principal(l) => {
            principals_round_trip(member(j, "Principal"@)->Some_0, l@, fs[4].1, l@);
        },
        PrincipalClause::NotPrincipal(l) => {
            principals_round_trip(member(j, "NotPrincipal"@)->Some_0, l@, fs[5].1, l@);
        },
        PrincipalClause::Absent => {},
    }
    match s.resources {
        ResourceClause::Resource(l) => {
            resources_round_trip(member(j, "Resource"@)->Some_0, l@, fs[6].1, l@);
        },
        ResourceClause::NotResource(l) => {
            resources_round_trip(member(j, "NotResource"@)->Some_0, l@, fs[7].1, l@);
        },
    }
    match s.conditions {
        Some(c) => {
            conditions_round_trip(c@, fs[8].1, c@);
        },
        None => {},
    }
    if statement_from(j2, t) {
        match (s.actions, t.actions) {
            (ActionClause::Action(a), ActionClause::Action(b)) => {
                actions_round_trip(member(j, "Action"@)->Some_0, a@, fs[2].1, b@);
            },
            (ActionClause::NotAction(a), ActionClause::NotAction(b)) => {
                actions_round_trip(member(j, "NotAction"@)->Some_0, a@, fs[3].1, b@);
            },
            _ => {},
        }
        match (s.principals, t.principals) {
            (PrincipalClause::Principal(a), PrincipalClause::Principal(b)) => {
                principals_round_trip(member(j, "Principal"@)->Some_0, a@, fs[4].1, b@);
            },
            (PrincipalClause::NotPrincipal(a), PrincipalClause::NotPrincipal(b)) => {
                principals_round_trip(member(j, "NotPrincipal"@)->Some_0, a@, fs[5].1, b@);
            },
            _ => {},
        }
        match (s.resources, t.resources) {
            (ResourceClause::Resource(a), ResourceClause::Resource(b)) => {
                resources_round_trip(member(j, "Resource"@)->Some_0, a@, fs[6].1, b@);
            },
            (ResourceClause::NotResource(a), ResourceClause::NotResource(b)) => {
                resources_round_trip(member(j, "NotResource"@)->Some_0, a@, fs[7].1, b@);
            },
            _ => {},
        }
        match (s.conditions, t.conditions) {
            (Some(a), Some(b)) => {
                conditions_round_trip(a@, fs[8].1, b@);
            },
            _ => {},
        }
    }
}

fn null_or_text(o: &Option<String>) -> (j: Json)
    ensures
        match *o {
            Some(x) => j is Str && j->Str_0@ == x@,
            None => j is Null,
        },
{
    match o {
        Some(x) => Json::Str(x.clone()),
        None => Json::Null,
    }
}

impl Statement {
    /// The written form of the statement.
    pub fn to_json(&self) -> (j: Json)
        ensures
            statement_json(*self, j),
    {
        let sid = null_or_text(&self.sid);
        let effect = match self.effect {
            Effect::Allow => Json::Str(crate::text::owned("Allow")),
            Effect::Deny => Json::Str(crate::text::owned("Deny")),
        };
        let (action, not_action) = match &self.actions {
            ActionClause::Action(l) => (actions_json(l), Json::Null),
            ActionClause::NotAction(l) => (Json::Null, actions_json(l)),
        };
        let (principal, not_principal) = match &self.principals {
            PrincipalClause::Absent => (Json::Null, Json::Null),
            PrincipalClause::Principal(l) => (principals_to_json(l), Json::Null),
            PrincipalClause::NotPrincipal(l) => (Json::Null, principals_to_json(l)),
        };
        let (resource, not_resource) = match &self.resources {
            ResourceClause::Resource(l) => (resources_json(l), Json::Null),
            ResourceClause::NotResource(l) => (Json::Null, resources_json(l)),
        };
        let condition = match &self.conditions {
            Some(c) => conditions_to_json(c),
            None => Json::Null,
        };
        let fields = vec![
            (crate::text::owned("Sid"), sid),
            (crate::text::owned("Effect"), effect),
            (crate::text::owned("Action"), action),
            (crate::text::owned("NotAction"), not_action),
            (crate::text::owned("Principal"), principal),
            (crate::text::owned("NotPrincipal"), not_principal),
            (crate::text::owned("Resource"), resource),
            (crate::text::owned("NotResource"), not_resource),
            (crate::text::owned("Condition"), condition),
        ];
        proof {
            let keys = statement_keys();
            assert forall|k: int| 0 <= k < 9 implies (#[trigger] fields@[k]).0@ == keys[k] by {}
        }
        Json::Object(fields)
    }
}

} // verus!

verus! {

/// `j` is the written form of a policy: `Version`, `Id` (`null` where
/// missing) and the array of its statements.
pub open spec fn policy_json(p: Policy, j: Json) -> bool {
    let fs = j->Object_0@;
    &&& j is Object
    &&& fs.len() == 3
    &&& fs[0].0@ == "Version"@ && fs[1].0@ == "Id"@ && fs[2].0@ == "Statement"@
    &&& match p.version {
        Some(v) => fs[0].1 is Str && fs[0].1->Str_0@ == v@,
        None => fs[0].1 is Null,
    }
    &&& match p.id {
        Some(v) => fs[1].1 is Str && fs[1].1->Str_0@ == v@,
        None => fs[1].1 is Null,
    }
    &&& fs[2].1 is Array
    &&& fs[2].1->Array_0@.len() == p.statements@.len()
    &&& forall|i: int| 0 <= i < p.statements@.len() ==> statement_json(p.statements@[i], #[trigger] fs[2].1->Array_0@[i])
}

/// Two policies with the same version, id and statements.
pub open spec fn same_policy(p: Policy, q: Policy) -> bool {
    &&& opt_view(p.version) == opt_view(q.version)
    &&& opt_view(p.id) == opt_view(q.id)
    &&& p.statements@.len() == q.statements@.len()
    &&& forall|i: int| 0 <= i < p.statements@.len() ==> same_statement(#[trigger] p.statements@[i], q.statements@[i])
}

proof fn lemma_statements_ok(items: Seq<Json>)
    requires
        forall|i: int| 0 <= i < items.len() ==> (#[trigger] statement_outcome(items[i])) is Ok,
    ensures
        statements_outcome(items) is Ok,
    decreases items.len(),
{
    if items.len() > 0 {
        assert(statement_outcome(items[0]) is Ok);
        assert forall|i: int| 0 <= i < items.drop_first().len() implies (#[trigger] statement_outcome(items.drop_first()[i])) is Ok by {
            assert(items.drop_first()[i] == items[i + 1]);
        }
        lemma_statements_ok(items.drop_first());
    }
}

/// Writing a policy that was read from `j`, and reading it back, succeeds and
/// gives the same policy, where no AWS principal's ARN text is taken for an
/// account number.
pub proof fn policy_round_trip(j: Json, p: Policy, j2: Json, q: Policy)
    requires
        policy_outcome(j) is Ok,
        policy_from(j, p),
        forall|i: int| 0 <= i < p.statements@.len() ==> statement_aws_ok(#[trigger] p.statements@[i]),
        policy_json(p, j2),
    ensures
        policy_outcome(j2) is Ok,
        policy_from(j2, q) ==> same_policy(p, q),
{
    let fs = j2->Object_0@;
    reveal_strlit("Version");
    reveal_strlit("Id");
    reveal_strlit("Statement");
    assert("Version"@.len() == 7);
    assert("Id"@.len() == 2);
    assert("Statement"@.len() == 9);
    reveal_with_fuel(field, 4);
    assert(member(j2, "Version"@) == Some(fs[0].1));
    assert(member(j2, "Id"@) == Some(fs[1].1));
    assert(member(j2, "Statement"@) == Some(fs[2].1));
    let items = statement_items(j)->Some_0;
    let items2 = fs[2].1->Array_0@;
    assert(statement_items(j2) == Some(items2));
    assert forall|i: int| 0 <= i < items2.len() implies (#[trigger] statement_outcome(items2[i])) is Ok by {
        assert(statement_from(items[i], p.statements@[i]));
        assert(statement_aws_ok(p.statements@[i]));
        assert(statement_json(p.statements@[i], items2[i]));
        statement_round_trip(items[i], p.statements@[i], items2[i], p.statements@[i]);
    }
    lemma_statements_ok(items2);
    if policy_from(j2, q) {
        assert forall|i: int| 0 <= i < p.statements@.len() implies same_statement(#[trigger] p.statements@[i], q.statements@[i]) by {
            assert(statement_from(items[i], p.statements@[i]));
            assert(statement_aws_ok(p.statements@[i]));
            assert(statement_json(p.statements@[i], items2[i]));
            assert(statement_from(items2[i], q.statements@[i]));
            statement_round_trip(items[i], p.statements@[i], items2[i], q.statements@[i]);
        }
    }
}

impl Policy {
    /// The written form of the policy.
    pub fn to_json(&self) -> (j: Json)
        ensures
            policy_json(*self, j),
    {
        let version = null_or_text(&self.version);
        let id = null_or_text(&self.id);
        let mut items: Vec<Json> = Vec::new();
        let mut i: usize = 0;
        while i < self.statements.len()
            invariant
                i <= self.statements@.len(),
                items@.len() == i,
                forall|m: int| 0 <= m < i ==> statement_json(self.statements@[m], #[trigger] items@[m]),
            decreases self.statements.len() - i,
        {
            items.push(self.statements[i].to_json());
            i += 1;
        }
        let fields = vec![
            (crate::text::owned("Version"), version),
            (crate::text::owned("Id"), id),
            (crate::text::owned("Statement"), Json::Array(items)),
        ];
        Json::Object(fields)
    }
}

} // verus!
