//! Principals and actions of requests.
use vstd::prelude::*;
use crate::arn::ARN;
use crate::text::{chars_of, owned};

verus! {

/// Who makes a request.
#[derive(Debug, Clone, PartialEq, Eq)]
pub enum Principal {
    AWS(ARN),
    Federated(String),
    Service(String),
    CanonicalUser(String),
}

#[derive(Debug, Clone, Copy, PartialEq, Eq, Structural)]
pub enum ActionParseError {
    InvalidFormat,
}

/// Whether `s` holds a colon.
pub open spec fn has_colon(s: Seq<char>) -> bool {
    exists|i: int| 0 <= i < s.len() && s[i] == ':'
}

/// The position of the first colon of `s`.
pub open spec fn first_colon(s: Seq<char>) -> int
    recommends
        has_colon(s),
{
    choose|i: int| 0 <= i < s.len() && s[i] == ':' && forall|j: int| 0 <= j < i ==> s[j] != ':'
}

/// An action name, `<service>:<action>`, kept as its raw text and the
/// position of the separating colon.
#[derive(Debug)]
pub struct Action {
    value: String,
    separator: usize,
}

impl View for Action {
    type V = Seq<char>;

    closed spec fn view(&self) -> Seq<char> {
        self.value@
    }
}

impl Action {
    #[verifier::type_invariant]
    closed spec fn inv(&self) -> bool {
        &&& self.separator < self.value@.len()
        &&& self.value@[self.separator as int] == ':'
    }

    pub closed spec fn service_view(&self) -> Seq<char> {
        self.value@.subrange(0, self.separator as int)
    }

    pub closed spec fn action_view(&self) -> Seq<char> {
        self.value@.subrange(self.separator + 1, self.value@.len() as int)
    }

    /// Builds `<service>:<action>`.
    pub fn new(service: &str, action: &str) -> (r: Action)
        ensures
            r@ == service@ + seq![':'] + action@,
            r.service_view() == service@,
            r.action_view() == action@,
    {
        let mut value = owned(service);
        let separator = value.unicode_len();
        value.push(':');
        value.push_str(action);
        proof {
            assert(value@.subrange(0, separator as int) =~= service@);
            assert(value@.subrange(separator + 1, value@.len() as int) =~= action@);
        }
        Action { value, separator }
    }

    /// Parses `<service>:<action>`, split at the first colon; fails when
    /// there is no colon.
    pub fn parse(value: &str) -> (r: Result<Action, ActionParseError>)
        ensures
            r is Err <==> !has_colon(value@),
            r matches Ok(a) ==> {
                &&& a@ == value@
                &&& a.service_view() == value@.subrange(0, first_colon(value@))
                &&& a.action_view() == value@.subrange(first_colon(value@) + 1, value@.len() as int)
                &&& a.service_view() + seq![':'] + a.action_view() == value@
            },
    {
        let cs = chars_of(value);
        let mut i: usize = 0;
        while i < cs.len()
            invariant
                cs@ == value@,
                i <= cs.len(),
                forall|j: int| 0 <= j < i ==> cs@[j] != ':',
            decreases cs.len() - i,
        {
            if cs[i] == ':' {
                let a = Action { value: owned(value), separator: i };
                proof {
                    let f = first_colon(value@);
                    assert(0 <= f < value@.len() && value@[f] == ':' && forall|j: int|
                        0 <= j < f ==> value@[j] != ':');
                    if f < i {
                        assert(cs@[f] != ':');
                    }
                    if f > i {
                        assert(value@[i as int] != ':');
                    }
                    assert(value@.subrange(0, i as int) + seq![':'] + value@.subrange(
                        i + 1,
                        value@.len() as int,
                    ) =~= value@);
                }
                return Ok(a);
            }
            i += 1;
        }
        Err(ActionParseError::InvalidFormat)
    }

    pub fn service(&self) -> (r: &str)
        ensures
            r@ == self.service_view(),
    {
        proof {
            use_type_invariant(self);
        }
        self.value.as_str().substring_char(0, self.separator)
    }

    pub fn action(&self) -> (r: &str)
        ensures
            r@ == self.action_view(),
    {
        proof {
            use_type_invariant(self);
        }
        let n = self.value.as_str().unicode_len();
        self.value.as_str().substring_char(self.separator + 1, n)
    }

    /// The raw text of the action.
    pub fn raw(&self) -> (r: &str)
        ensures
            r@ == self@,
    {
        self.value.as_str()
    }
}

impl Clone for Action {
    fn clone(&self) -> (r: Action)
        ensures
            r@ == self@,
    {
        proof {
            use_type_invariant(self);
        }
        Action { value: self.value.clone(), separator: self.separator }
    }
}

impl std::str::FromStr for Action {
    type Err = ActionParseError;

    fn from_str(value: &str) -> Result<Action, ActionParseError> {
        Action::parse(value)
    }
}

} // verus!
