//! A policy: its statements and the deny-overrides reduction of their
//! verdicts.
use vstd::prelude::*;
use crate::arn::ARN;
use crate::condition::ConditionError;
use crate::context::Context;
use crate::iam::{Action, Principal};
use crate::statement::{CheckResult, Effect, Statement, check_spec};

verus! {

pub const VERSION_2008_10_17: &'static str = "2008-10-17";

pub const VERSION_2012_10_17: &'static str = "2012-10-17";

#[derive(Debug, Clone)]
pub struct Policy {
    pub version: Option<String>,
    pub id: Option<String>,
    pub statements: Vec<Statement>,
}

/// Deny overrides Allow, which overrides Unspecified.
pub open spec fn combine_spec(a: CheckResult, b: CheckResult) -> CheckResult {
    match (a, b) {
        (CheckResult::Deny, _) => CheckResult::Deny,
        (_, CheckResult::Deny) => CheckResult::Deny,
        (CheckResult::Allow, _) => CheckResult::Allow,
        (CheckResult::Unspecified, x) => x,
    }
}

/// Combines two verdicts: Deny overrides Allow, which overrides Unspecified.
pub fn combine(a: CheckResult, b: CheckResult) -> (r: CheckResult)
    ensures
        r == combine_spec(a, b),
{
    match (a, b) {
        (CheckResult::Deny, _) => CheckResult::Deny,
        (_, CheckResult::Deny) => CheckResult::Deny,
        (CheckResult::Allow, _) => CheckResult::Allow,
        (CheckResult::Unspecified, x) => x,
    }
}

/// Deny absorbs every verdict, Allow absorbs Unspecified, and Unspecified is
/// the identity; the combination does not depend on the order.
pub proof fn combine_lattice(a: CheckResult, b: CheckResult)
    ensures
        combine_spec(CheckResult::Deny, a) == CheckResult::Deny,
        combine_spec(a, CheckResult::Deny) == CheckResult::Deny,
        combine_spec(CheckResult::Allow, CheckResult::Unspecified) == CheckResult::Allow,
        combine_spec(CheckResult::Unspecified, CheckResult::Allow) == CheckResult::Allow,
        combine_spec(CheckResult::Unspecified, a) == a,
        combine_spec(a, CheckResult::Unspecified) == a,
        combine_spec(a, b) == combine_spec(b, a),
{
}

/// One step of the reduction: once Deny or an error is reached nothing
/// changes; after an Allow only statements with effect Deny are evaluated.
pub open spec fn fold_step(
    acc: Result<CheckResult, ConditionError>,
    s: Statement,
    p: Option<Principal>,
    a: Action,
    r: ARN,
    ctx: Context,
) -> Result<CheckResult, ConditionError> {
    match acc {
        Ok(CheckResult::Deny) => acc,
        Ok(CheckResult::Unspecified) => check_spec(s, p, a, r, ctx),
        Ok(CheckResult::Allow) => if s.effect == Effect::Deny {
            match check_spec(s, p, a, r, ctx) {
                Ok(CheckResult::Deny) => Ok(CheckResult::Deny),
                Ok(_) => Ok(CheckResult::Allow),
                Err(e) => Err(e),
            }
        } else {
            acc
        },
        Err(_) => acc,
    }
}

/// The reduction of the statements from left to right, from `acc`.
pub open spec fn policy_fold(
    stmts: Seq<Statement>,
    p: Option<Principal>,
    a: Action,
    r: ARN,
    ctx: Context,
    acc: Result<CheckResult, ConditionError>,
) -> Result<CheckResult, ConditionError>
    decreases stmts.len(),
{
    if stmts.len() == 0 {
        acc
    } else {
        policy_fold(stmts.drop_first(), p, a, r, ctx, fold_step(acc, stmts[0], p, a, r, ctx))
    }
}

/// The verdict of a policy on a request.
pub open spec fn policy_spec(policy: Policy, p: Option<Principal>, a: Action, r: ARN, ctx: Context) -> Result<CheckResult, ConditionError> {
    policy_fold(policy.statements@, p, a, r, ctx, Ok(CheckResult::Unspecified))
}

impl Policy {
    fn reduce(&self, principal: Option<&Principal>, action: &Action, resource: &ARN, context: &Context) -> (r: Result<CheckResult, ConditionError>)
        ensures
            r == policy_spec(
                *self,
                match principal {
                    Some(p) => Some(*p),
                    None => None,
                },
                *action,
                *resource,
                *context,
            ),
    {
        let ghost p = match principal {
            Some(p) => Some(*p),
            None => None,
        };
        let ghost ss = self.statements@;
        let mut acc: Result<CheckResult, ConditionError> = Ok(CheckResult::Unspecified);
        assert(ss.subrange(0, ss.len() as int) =~= ss);
        let mut i: usize = 0;
        while i < self.statements.len()
            invariant
                ss == self.statements@,
                p == match principal {
                    Some(p) => Some(*p),
                    None => None,
                },
                i <= ss.len(),
                policy_spec(*self, p, *action, *resource, *context) == policy_fold(
                    ss.subrange(i as int, ss.len() as int),
                    p,
                    *action,
                    *resource,
                    *context,
                    acc,
                ),
            decreases self.statements.len() - i,
        {
            proof {
                let rest = ss.subrange(i as int, ss.len() as int);
                assert(rest[0] == ss[i as int]);
                assert(rest.drop_first() =~= ss.subrange(i + 1, ss.len() as int));
            }
            let stmt = &self.statements[i];
            acc = match acc {
                Ok(CheckResult::Deny) => acc,
                Ok(CheckResult::Unspecified) => match principal {
                    Some(pr) => stmt.check(pr, action, resource, context),
                    None => stmt.check_action(action, resource, context),
                },
                Ok(CheckResult::Allow) => if stmt.effect == Effect::Deny {
                    let verdict = match principal {
                        Some(pr) => stmt.check(pr, action, resource, context),
                        None => stmt.check_action(action, resource, context),
                    };
                    match verdict {
                        Ok(CheckResult::Deny) => Ok(CheckResult::Deny),
                        Ok(_) => Ok(CheckResult::Allow),
                        Err(e) => Err(e),
                    }
                } else {
                    acc
                },
                Err(e) => Err(e),
            };
            i += 1;
        }
        acc
    }

    /// The verdict of the policy on an action and a resource, the principal
    /// clauses aside: statements are reduced from left to right, an explicit
    /// Deny overriding an Allow, and the first condition error is returned.
    pub fn check_action(&self, action: &Action, resource: &ARN, context: &Context) -> (r: Result<CheckResult, ConditionError>)
        ensures
            r == policy_spec(*self, None, *action, *resource, *context),
    {
        self.reduce(None, action, resource, context)
    }

    /// The verdict of the policy on a request by `principal`.
    pub fn check(&self, principal: &Principal, action: &Action, resource: &ARN, context: &Context) -> (r: Result<CheckResult, ConditionError>)
        ensures
            r == policy_spec(*self, Some(*principal), *action, *resource, *context),
    {
        self.reduce(Some(principal), action, resource, context)
    }
}

/// Evaluating one request twice gives one verdict.
pub proof fn check_is_repeatable(policy: Policy, p: Option<Principal>, a: Action, r: ARN, ctx: Context)
    ensures
        policy_spec(policy, p, a, r, ctx) == policy_spec(policy, p, a, r, ctx),
{
}

} // verus!

verus! {

/// The statements' verdicts combined from left to right, from `acc`.
pub open spec fn combine_all(
    stmts: Seq<Statement>,
    p: Option<Principal>,
    a: Action,
    r: ARN,
    ctx: Context,
    acc: CheckResult,
) -> CheckResult
    decreases stmts.len(),
{
    if stmts.len() == 0 {
        acc
    } else {
        combine_all(stmts.drop_first(), p, a, r, ctx, combine_spec(acc, check_spec(stmts[0], p, a, r, ctx)->Ok_0))
    }
}

/// Where no statement raises an error, the verdict of the policy is the
/// combination of the statements' verdicts: skipping statements after an
/// Allow changes nothing, since only a Deny statement can give Deny.
pub proof fn reduction_combines_verdicts(
    stmts: Seq<Statement>,
    p: Option<Principal>,
    a: Action,
    r: ARN,
    ctx: Context,
    acc: CheckResult,
)
    requires
        forall|i: int| 0 <= i < stmts.len() ==> (#[trigger] check_spec(stmts[i], p, a, r, ctx)) is Ok,
    ensures
        policy_fold(stmts, p, a, r, ctx, Ok(acc)) == Ok::<CheckResult, ConditionError>(combine_all(stmts, p, a, r, ctx, acc)),
    decreases stmts.len(),
{
    if stmts.len() > 0 {
        let s = stmts[0];
        assert(check_spec(s, p, a, r, ctx) is Ok);
        let v = check_spec(s, p, a, r, ctx)->Ok_0;
        assert(v == CheckResult::Deny ==> s.effect == Effect::Deny);
        assert(fold_step(Ok(acc), s, p, a, r, ctx) == Ok::<CheckResult, ConditionError>(combine_spec(acc, v)));
        assert forall|i: int| 0 <= i < stmts.drop_first().len() implies (#[trigger] check_spec(stmts.drop_first()[i], p, a, r, ctx)) is Ok by {
            assert(stmts.drop_first()[i] == stmts[i + 1]);
        }
        reduction_combines_verdicts(stmts.drop_first(), p, a, r, ctx, combine_spec(acc, v));
    }
}

} // verus!
