//! Patterns that a statement holds for principals, actions and resources.
use vstd::prelude::*;
use crate::arn::ARN;
use crate::glob::{glob_matches, glob_matches_spec};
use crate::iam::{Action, Principal};

verus! {

#[derive(Debug, Clone)]
pub enum ActionConstraint {
    Any,
    Pattern(Action),
}

pub open spec fn action_constraint_spec(c: ActionConstraint, action: Action) -> bool {
    match c {
        ActionConstraint::Any => true,
        ActionConstraint::Pattern(p) => glob_matches_spec(p.service_view(), action.service_view())
            && glob_matches_spec(p.action_view(), action.action_view()),
    }
}

impl ActionConstraint {
    /// `Any` matches every action; a pattern matches service and action name
    /// each by glob.
    pub fn matches(&self, action: &Action) -> (r: bool)
        ensures
            r == action_constraint_spec(*self, *action),
    {
        match self {
            ActionConstraint::Any => true,
            ActionConstraint::Pattern(pattern) => glob_matches(pattern.service(), action.service())
                && glob_matches(pattern.action(), action.action()),
        }
    }
}

#[derive(Debug, Clone)]
pub enum PrincipalConstraint {
    Any,
    AWSAny,
    Pattern(Principal),
}

/// Whether `pattern` matches `other`: the same kind of principal, and the
/// glob of the pattern matches the text of the other.
pub open spec fn principal_pattern_spec(pattern: Principal, other: Principal) -> bool {
    match (pattern, other) {
        (Principal::AWS(p), Principal::AWS(o)) => glob_matches_spec(p@, o@),
        (Principal::Federated(p), Principal::Federated(o)) => glob_matches_spec(p@, o@),
        (Principal::Service(p), Principal::Service(o)) => glob_matches_spec(p@, o@),
        (Principal::CanonicalUser(p), Principal::CanonicalUser(o)) => glob_matches_spec(p@, o@),
        _ => false,
    }
}

pub open spec fn principal_constraint_spec(c: PrincipalConstraint, other: Principal) -> bool {
    match c {
        PrincipalConstraint::Any => true,
        PrincipalConstraint::AWSAny => other is AWS,
        PrincipalConstraint::Pattern(p) => principal_pattern_spec(p, other),
    }
}

impl PrincipalConstraint {
    fn matches_aws(arn: &ARN, other: &Principal) -> (r: bool)
        ensures
            r == principal_pattern_spec(Principal::AWS(*arn), *other),
    {
        if let Principal::AWS(other) = other {
            glob_matches(arn.raw(), other.raw())
        } else {
            false
        }
    }

    fn matches_federated(s: &String, other: &Principal) -> (r: bool)
        ensures
            r == principal_pattern_spec(Principal::Federated(*s), *other),
    {
        if let Principal::Federated(other) = other {
            glob_matches(s.as_str(), other.as_str())
        } else {
            false
        }
    }

    fn matches_service(s: &String, other: &Principal) -> (r: bool)
        ensures
            r == principal_pattern_spec(Principal::Service(*s), *other),
    {
        if let Principal::Service(other) = other {
            glob_matches(s.as_str(), other.as_str())
        } else {
            false
        }
    }

    fn matches_canonicaluser(s: &String, other: &Principal) -> (r: bool)
        ensures
            r == principal_pattern_spec(Principal::CanonicalUser(*s), *other),
    {
        if let Principal::CanonicalUser(other) = other {
            glob_matches(s.as_str(), other.as_str())
        } else {
            false
        }
    }

    /// `Any` matches every principal, `AWSAny` every AWS principal, and a
    /// pattern the principals of its own kind whose text its glob matches.
    pub fn matches(&self, other: &Principal) -> (r: bool)
        ensures
            r == principal_constraint_spec(*self, *other),
    {
        match self {
            PrincipalConstraint::Any => true,
            PrincipalConstraint::AWSAny => matches!(other, Principal::AWS(_)),
            PrincipalConstraint::Pattern(principal) => match principal {
                Principal::AWS(arn) => Self::matches_aws(arn, other),
                Principal::Federated(s) => Self::matches_federated(s, other),
                Principal::Service(s) => Self::matches_service(s, other),
                Principal::CanonicalUser(s) => Self::matches_canonicaluser(s, other),
            },
        }
    }
}

#[derive(Debug, Clone)]
pub enum ResourceConstraint {
    Any,
    Pattern(ARN),
}

pub open spec fn resource_constraint_spec(c: ResourceConstraint, resource: ARN) -> bool {
    match c {
        ResourceConstraint::Any => true,
        ResourceConstraint::Pattern(p) => glob_matches_spec(p@, resource@),
    }
}

impl ResourceConstraint {
    /// `Any` matches every resource; a pattern matches by glob on the raw ARN.
    pub fn matches(&self, resource: &ARN) -> (r: bool)
        ensures
            r == resource_constraint_spec(*self, *resource),
    {
        match self {
            ResourceConstraint::Any => true,
            ResourceConstraint::Pattern(pattern) => glob_matches(pattern.raw(), resource.raw()),
        }
    }
}

} // verus!
