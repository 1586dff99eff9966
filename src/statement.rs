//! A single statement of a policy and its three-valued verdict.
use vstd::prelude::*;
use crate::arn::ARN;
use crate::condition::{
    ConditionError, ConditionSet, conditions_spec, group_spec, lookup,
};
use crate::constraint::{
    ActionConstraint, PrincipalConstraint, ResourceConstraint, action_constraint_spec,
    principal_constraint_spec, resource_constraint_spec,
};
use crate::context::{Context, resource_lookup};
use crate::iam::{Action, Principal};

verus! {

#[derive(Debug, Clone, Copy, PartialEq, Eq, Structural)]
pub enum Effect {
    Allow,
    Deny,
}

#[derive(Debug, Clone, Copy, PartialEq, Eq, Structural)]
pub enum CheckResult {
    Allow,
    Deny,
    Unspecified,
}

#[derive(Debug, Clone)]
pub enum PrincipalClause {
    Absent,
    Principal(Vec<PrincipalConstraint>),
    NotPrincipal(Vec<PrincipalConstraint>),
}

#[derive(Debug, Clone)]
pub enum ActionClause {
    Action(Vec<ActionConstraint>),
    NotAction(Vec<ActionConstraint>),
}

#[derive(Debug, Clone)]
pub enum ResourceClause {
    Resource(Vec<ResourceConstraint>),
    NotResource(Vec<ResourceConstraint>),
}

#[derive(Debug, Clone)]
pub struct Statement {
    pub sid: Option<String>,
    pub effect: Effect,
    pub principals: PrincipalClause,
    pub actions: ActionClause,
    pub resources: ResourceClause,
    pub conditions: Option<ConditionSet>,
}

pub open spec fn any_action(cs: Seq<ActionConstraint>, a: Action) -> bool {
    exists|i: int| 0 <= i < cs.len() && action_constraint_spec(cs[i], a)
}

pub open spec fn any_resource(cs: Seq<ResourceConstraint>, r: ARN) -> bool {
    exists|i: int| 0 <= i < cs.len() && resource_constraint_spec(cs[i], r)
}

pub open spec fn any_principal(cs: Seq<PrincipalConstraint>, p: Principal) -> bool {
    exists|i: int| 0 <= i < cs.len() && principal_constraint_spec(cs[i], p)
}

pub open spec fn action_clause_spec(c: ActionClause, a: Action) -> bool {
    match c {
        ActionClause::Action(l) => any_action(l@, a),
        ActionClause::NotAction(l) => !any_action(l@, a),
    }
}

pub open spec fn resource_clause_spec(c: ResourceClause, r: ARN) -> bool {
    match c {
        ResourceClause::Resource(l) => any_resource(l@, r),
        ResourceClause::NotResource(l) => !any_resource(l@, r),
    }
}

pub open spec fn principal_clause_spec(c: PrincipalClause, p: Principal) -> bool {
    match c {
        PrincipalClause::Absent => true,
        PrincipalClause::Principal(l) => any_principal(l@, p),
        PrincipalClause::NotPrincipal(l) => !any_principal(l@, p),
    }
}

/// The values a statement's conditions see: the resource's own values in
/// front of the global ones, so that they win on a shared key.
pub open spec fn effective_values(ctx: Context, resource: ARN) -> Seq<(Seq<char>, Seq<Seq<char>>)> {
    match resource_lookup(ctx.resources_view(), resource@) {
        Some(own) => own + ctx.globals_view(),
        None => ctx.globals_view(),
    }
}

pub open spec fn conditions_pass(s: Statement, resource: ARN, ctx: Context) -> Result<bool, ConditionError> {
    match s.conditions {
        None => Ok(true),
        Some(c) => conditions_spec(c@, effective_values(ctx, resource)),
    }
}

pub open spec fn effect_result(e: Effect) -> CheckResult {
    match e {
        Effect::Allow => CheckResult::Allow,
        Effect::Deny => CheckResult::Deny,
    }
}

/// The verdict of a statement on an action and a resource, with no
/// principal gate.
pub open spec fn check_action_spec(s: Statement, a: Action, r: ARN, ctx: Context) -> Result<CheckResult, ConditionError> {
    if !action_clause_spec(s.actions, a) {
        Ok(CheckResult::Unspecified)
    } else if !resource_clause_spec(s.resources, r) {
        Ok(CheckResult::Unspecified)
    } else {
        match conditions_pass(s, r, ctx) {
            Err(e) => Err(e),
            Ok(false) => Ok(CheckResult::Unspecified),
            Ok(true) => Ok(effect_result(s.effect)),
        }
    }
}

/// The verdict of a statement on a request; with no principal, the principal
/// clause is not consulted.
pub open spec fn check_spec(s: Statement, p: Option<Principal>, a: Action, r: ARN, ctx: Context) -> Result<CheckResult, ConditionError> {
    match p {
        Some(p) => if principal_clause_spec(s.principals, p) {
            check_action_spec(s, a, r, ctx)
        } else {
            Ok(CheckResult::Unspecified)
        },
        None => check_action_spec(s, a, r, ctx),
    }
}

proof fn lemma_lookup_concat(
    own: Seq<(Seq<char>, Seq<Seq<char>>)>,
    global: Seq<(Seq<char>, Seq<Seq<char>>)>,
    key: Seq<char>,
)
    ensures
        lookup(own + global, key) == match lookup(own, key) {
            Some(v) => Some(v),
            None => lookup(global, key),
        },
    decreases own.len(),
{
    if own.len() == 0 {
        assert(own + global =~= global);
    } else {
        assert((own + global)[0] == own[0]);
        assert((own + global).drop_first() =~= own.drop_first() + global);
        lemma_lookup_concat(own.drop_first(), global, key);
    }
}

proof fn lemma_group_same_lookups(
    q: crate::quantifier::Quantifier,
    entries: Seq<(Seq<char>, Seq<Seq<char>>)>,
    v1: Seq<(Seq<char>, Seq<Seq<char>>)>,
    v2: Seq<(Seq<char>, Seq<Seq<char>>)>,
)
    requires
        forall|k: Seq<char>| #[trigger] lookup(v1, k) == lookup(v2, k),
    ensures
        group_spec(q, entries, v1) == group_spec(q, entries, v2),
    decreases entries.len(),
{
    if entries.len() > 0 {
        assert(lookup(v1, entries[0].0) == lookup(v2, entries[0].0));
        lemma_group_same_lookups(q, entries.drop_first(), v1, v2);
    }
}

/// Conditions see only what each key looks up to.
proof fn lemma_conditions_same_lookups(
    groups: Seq<(crate::quantifier::Quantifier, Seq<(Seq<char>, Seq<Seq<char>>)>)>,
    v1: Seq<(Seq<char>, Seq<Seq<char>>)>,
    v2: Seq<(Seq<char>, Seq<Seq<char>>)>,
)
    requires
        forall|k: Seq<char>| #[trigger] lookup(v1, k) == lookup(v2, k),
    ensures
        conditions_spec(groups, v1) == conditions_spec(groups, v2),
    decreases groups.len(),
{
    if groups.len() > 0 {
        lemma_group_same_lookups(groups[0].0, groups[0].1, v1, v2);
        lemma_conditions_same_lookups(groups.drop_first(), v1, v2);
    }
}

fn any_action_matches(cs: &Vec<ActionConstraint>, a: &Action) -> (r: bool)
    ensures
        r == any_action(cs@, *a),
{
    let mut i: usize = 0;
    while i < cs.len()
        invariant
            i <= cs@.len(),
            forall|j: int| 0 <= j < i ==> !action_constraint_spec(cs@[j], *a),
        decreases cs.len() - i,
    {
        if cs[i].matches(a) {
            return true;
        }
        i += 1;
    }
    false
}

fn any_resource_matches(cs: &Vec<ResourceConstraint>, r: &ARN) -> (b: bool)
    ensures
        b == any_resource(cs@, *r),
{
    let mut i: usize = 0;
    while i < cs.len()
        invariant
            i <= cs@.len(),
            forall|j: int| 0 <= j < i ==> !resource_constraint_spec(cs@[j], *r),
        decreases cs.len() - i,
    {
        if cs[i].matches(r) {
            return true;
        }
        i += 1;
    }
    false
}

fn any_principal_matches(cs: &Vec<PrincipalConstraint>, p: &Principal) -> (b: bool)
    ensures
        b == any_principal(cs@, *p),
{
    let mut i: usize = 0;
    while i < cs.len()
        invariant
            i <= cs@.len(),
            forall|j: int| 0 <= j < i ==> !principal_constraint_spec(cs@[j], *p),
        decreases cs.len() - i,
    {
        if cs[i].matches(p) {
            return true;
        }
        i += 1;
    }
    false
}

impl Statement {
    fn matches_conditions(&self, resource: &ARN, context: &Context) -> (r: Result<bool, ConditionError>)
        ensures
            r == conditions_pass(*self, *resource, *context),
    {
        let conditions = match &self.conditions {
            Some(conditions) => conditions,
            None => {
                return Ok(true);
            },
        };
        match context.resource(resource) {
            Some(own) => {
                let key_values = context.globals().overlaid(own);
                proof {
                    let ev = effective_values(*context, *resource);
                    assert forall|k: Seq<char>| #[trigger] lookup(key_values@, k) == lookup(ev, k) by {
                        lemma_lookup_concat(own@, context.globals_view(), k);
                    }
                    lemma_conditions_same_lookups(conditions@, key_values@, ev);
                }
                conditions.matches(&key_values)
            },
            None => conditions.matches(context.globals()),
        }
    }

    /// The verdict on an action and a resource: `Unspecified` unless the
    /// action clause, the resource clause and the conditions all pass; then
    /// the statement's effect. A condition error is passed on.
    pub fn check_action(&self, action: &Action, resource: &ARN, context: &Context) -> (r: Result<CheckResult, ConditionError>)
        ensures
            r == check_action_spec(*self, *action, *resource, *context),
    {
        let matches_action = match &self.actions {
            ActionClause::Action(actions) => any_action_matches(actions, action),
            ActionClause::NotAction(actions) => !any_action_matches(actions, action),
        };
        if !matches_action {
            return Ok(CheckResult::Unspecified);
        }
        let matches_resource = match &self.resources {
            ResourceClause::Resource(resources) => any_resource_matches(resources, resource),
            ResourceClause::NotResource(resources) => !any_resource_matches(resources, resource),
        };
        if !matches_resource {
            return Ok(CheckResult::Unspecified);
        }
        match self.matches_conditions(resource, context) {
            Err(e) => Err(e),
            Ok(false) => Ok(CheckResult::Unspecified),
            Ok(true) => Ok(
                match self.effect {
                    Effect::Allow => CheckResult::Allow,
                    Effect::Deny => CheckResult::Deny,
                },
            ),
        }
    }

    /// The verdict on a request by `principal`: `Unspecified` unless the
    /// principal clause passes, then as `check_action`.
    pub fn check(&self, principal: &Principal, action: &Action, resource: &ARN, context: &Context) -> (r: Result<CheckResult, ConditionError>)
        ensures
            r == check_spec(*self, Some(*principal), *action, *resource, *context),
    {
        let matches_principals = match &self.principals {
            PrincipalClause::Absent => true,
            PrincipalClause::Principal(principals) => any_principal_matches(principals, principal),
            PrincipalClause::NotPrincipal(principals) => !any_principal_matches(principals, principal),
        };
        if matches_principals {
            self.check_action(action, resource, context)
        } else {
            Ok(CheckResult::Unspecified)
        }
    }
}

} // verus!
