//! The values of condition keys that a request carries.
use vstd::prelude::*;
use crate::arn::ARN;
use crate::condition::ConditionValues;
use crate::text::str_eq;

verus! {

pub type ResourceContext = ConditionValues;

/// The values of the first listed resource whose ARN is `arn`.
pub open spec fn resource_lookup(
    resources: Seq<(Seq<char>, Seq<(Seq<char>, Seq<Seq<char>>)>)>,
    arn: Seq<char>,
) -> Option<Seq<(Seq<char>, Seq<Seq<char>>)>>
    decreases resources.len(),
{
    if resources.len() == 0 {
        None
    } else if resources[0].0 == arn {
        Some(resources[0].1)
    } else {
        resource_lookup(resources.drop_first(), arn)
    }
}

/// Values that apply to every evaluation, and values that apply when the
/// request's resource is a given ARN.
#[derive(Debug, Clone)]
pub struct Context {
    global: ResourceContext,
    resources: Vec<(ARN, ResourceContext)>,
}

pub open spec fn resource_view(e: (ARN, ResourceContext)) -> (Seq<char>, Seq<(Seq<char>, Seq<Seq<char>>)>) {
    (e.0@, e.1@)
}

impl Context {
    pub closed spec fn globals_view(&self) -> Seq<(Seq<char>, Seq<Seq<char>>)> {
        self.global@
    }

    pub closed spec fn resources_view(&self) -> Seq<(Seq<char>, Seq<(Seq<char>, Seq<Seq<char>>)>)> {
        self.resources@.map_values(|e: (ARN, ResourceContext)| resource_view(e))
    }

    pub fn new() -> (r: Context)
        ensures
            r.globals_view().len() == 0,
            r.resources_view().len() == 0,
    {
        Context { global: ConditionValues::new(), resources: Vec::new() }
    }

    /// A context from its global values and per-resource values.
    pub fn from_parts(global: ResourceContext, resources: Vec<(ARN, ResourceContext)>) -> (r: Context)
        ensures
            r.globals_view() == global@,
            r.resources_view() == resources@.map_values(|e: (ARN, ResourceContext)| resource_view(e)),
    {
        Context { global, resources }
    }

    pub fn globals(&self) -> (r: &ResourceContext)
        ensures
            r@ == self.globals_view(),
    {
        &self.global
    }

    /// The values that apply when the request's resource is `arn`.
    pub fn resource(&self, arn: &ARN) -> (r: Option<&ResourceContext>)
        ensures
            match r {
                Some(v) => resource_lookup(self.resources_view(), arn@) == Some(v@),
                None => resource_lookup(self.resources_view(), arn@) is None,
            },
    {
        let ghost rs = self.resources_view();
        assert(rs.subrange(0, rs.len() as int) =~= rs);
        let mut i: usize = 0;
        while i < self.resources.len()
            invariant
                rs == self.resources_view(),
                rs.len() == self.resources@.len(),
                i <= rs.len(),
                resource_lookup(rs, arn@) == resource_lookup(rs.subrange(i as int, rs.len() as int), arn@),
            decreases self.resources.len() - i,
        {
            proof {
                let rest = rs.subrange(i as int, rs.len() as int);
                assert(rest[0] == resource_view(self.resources@[i as int]));
                assert(rest.drop_first() =~= rs.subrange(i + 1, rs.len() as int));
            }
            if str_eq(self.resources[i].0.raw(), arn.raw()) {
                return Some(&self.resources[i].1);
            }
            i += 1;
        }
        None
    }
}

} // verus!
