//! Amazon Resource Names: `arn:<partition>:<service>:<region>:<account>:<resource>`.
use vstd::prelude::*;
use crate::text::{chars_of, owned};

verus! {

#[derive(Debug, Clone, Copy, PartialEq, Eq, Structural)]
pub enum ARNParseError {
    InvalidFormat,
    MissingPrefix,
}

/// Number of colons in `s`.
pub open spec fn colon_count(s: Seq<char>) -> nat
    decreases s.len(),
{
    if s.len() == 0 {
        0
    } else {
        colon_count(s.drop_last()) + if s.last() == ':' {
            1nat
        } else {
            0nat
        }
    }
}

pub open spec fn no_colon(s: Seq<char>) -> bool {
    forall|i: int| 0 <= i < s.len() ==> s[i] != ':'
}

pub open spec fn arn_prefix() -> Seq<char> {
    seq!['a', 'r', 'n', ':']
}

pub open spec fn starts_with_arn(s: Seq<char>) -> bool {
    s.len() >= 4 && s.subrange(0, 4) == arn_prefix()
}

/// The outcome of parsing `s` as an ARN, leaving out the parts.
pub open spec fn arn_parse_outcome(s: Seq<char>) -> Result<(), ARNParseError> {
    if !starts_with_arn(s) {
        Err(ARNParseError::MissingPrefix)
    } else if colon_count(s) < 5 {
        Err(ARNParseError::InvalidFormat)
    } else {
        Ok(())
    }
}

/// The positions of the first colons of `s`, at most five of them.
fn colon_positions(cs: &Vec<char>) -> (separators: Vec<usize>)
    ensures
        separators@.len() == (if colon_count(cs@) < 5 {
            colon_count(cs@)
        } else {
            5
        }),
        forall|k: int| 0 <= k < separators@.len() ==> separators@[k] < cs@.len() && cs@[separators@[k] as int] == ':',
        forall|a: int, b: int| 0 <= a < b < separators@.len() ==> separators@[a] < separators@[b],
        forall|j: int|
            0 <= j < cs@.len() && cs@[j] == ':' && (separators@.len() < 5 || j < separators@[4]) ==> exists|k: int|
                0 <= k < separators@.len() && separators@[k] == j,
{
    let ghost s = cs@;
    let mut separators: Vec<usize> = Vec::new();
    let mut i: usize = 0;
    while i < cs.len()
        invariant
            s == cs@,
            i <= s.len(),
            separators@.len() <= 5,
            separators@.len() == (if colon_count(s.subrange(0, i as int)) < 5 {
                colon_count(s.subrange(0, i as int))
            } else {
                5
            }),
            forall|k: int| 0 <= k < separators@.len() ==> separators@[k] < i && s[separators@[k] as int] == ':',
            forall|a: int, b: int| 0 <= a < b < separators@.len() ==> separators@[a] < separators@[b],
            forall|j: int|
                0 <= j < i && s[j] == ':' && (separators@.len() < 5 || j < separators@[4]) ==> exists|k: int|
                    0 <= k < separators@.len() && separators@[k] == j,
        decreases s.len() - i,
    {
        proof {
            assert(s.subrange(0, i + 1).drop_last() =~= s.subrange(0, i as int));
            assert(s.subrange(0, i + 1).last() == s[i as int]);
        }
        let ghost before = separators@;
        if cs[i] == ':' && separators.len() < 5 {
            separators.push(i);
            proof {
                assert forall|j: int|
                    0 <= j < i + 1 && s[j] == ':' && (separators@.len() < 5 || j
                        < separators@[4]) implies exists|k: int|
                    0 <= k < separators@.len() && separators@[k] == j by {
                    if j == i {
                        assert(separators@[separators@.len() - 1] == j);
                    } else {
                        let k = choose|k: int| 0 <= k < before.len() && before[k] == j;
                        assert(separators@[k] == j);
                    }
                }
            }
        }
        i += 1;
    }
    proof {
        assert(s.subrange(0, s.len() as int) =~= s);
    }
    separators
}

/// With the prefix `arn:` in place, the first separator ends the prefix and
/// no colon stands between two separators.
proof fn lemma_first_five(s: Seq<char>, p: Seq<usize>)
    requires
        starts_with_arn(s),
        p.len() == 5,
        forall|k: int| 0 <= k < p.len() ==> p[k] < s.len() && s[p[k] as int] == ':',
        forall|a: int, b: int| 0 <= a < b < p.len() ==> p[a] < p[b],
        forall|j: int|
            0 <= j < s.len() && s[j] == ':' && (p.len() < 5 || j < p[4]) ==> exists|k: int|
                0 <= k < p.len() && p[k] == j,
    ensures
        p[0] == 3,
        forall|j: int| p[0] < j < p[1] ==> s[j] != ':',
        forall|j: int| p[1] < j < p[2] ==> s[j] != ':',
        forall|j: int| p[2] < j < p[3] ==> s[j] != ':',
        forall|j: int| p[3] < j < p[4] ==> s[j] != ':',
{
    assert(s[3] == s.subrange(0, 4)[3]);
    if p[0] != 3 {
        if p[0] < 3 {
            assert(s.subrange(0, 4)[p[0] as int] == arn_prefix()[p[0] as int]);
        } else {
            let k = choose|k: int| 0 <= k < 5 && p[k] == 3;
            assert(p[0] <= p[k]);
        }
    }
    assert forall|j: int| p[0] < j < p[4] implies s[j] != ':' || exists|k: int|
        0 <= k < 5 && p[k] == j by {
    }
}

/// The raw text together with the positions of the five separating colons.
#[derive(Debug)]
pub struct ARN {
    value: String,
    separators: Vec<usize>,
}

impl View for ARN {
    type V = Seq<char>;

    closed spec fn view(&self) -> Seq<char> {
        self.value@
    }
}

impl ARN {
    #[verifier::type_invariant]
    closed spec fn inv(&self) -> bool {
        let s = self.value@;
        let p = self.separators@;
        &&& p.len() == 5
        &&& p[0] == 3
        &&& p[0] < p[1] && p[1] < p[2] && p[2] < p[3] && p[3] < p[4]
        &&& p[4] < s.len()
        &&& forall|k: int| 0 <= k < 5 ==> s[p[k] as int] == ':'
        &&& s.subrange(0, 4) == arn_prefix()
    }

    pub closed spec fn partition_view(&self) -> Seq<char> {
        self.value@.subrange(4, self.separators@[1] as int)
    }

    pub closed spec fn service_view(&self) -> Seq<char> {
        self.value@.subrange(self.separators@[1] + 1, self.separators@[2] as int)
    }

    pub closed spec fn region_view(&self) -> Seq<char> {
        self.value@.subrange(self.separators@[2] + 1, self.separators@[3] as int)
    }

    pub closed spec fn account_view(&self) -> Seq<char> {
        self.value@.subrange(self.separators@[3] + 1, self.separators@[4] as int)
    }

    pub closed spec fn resource_view(&self) -> Seq<char> {
        self.value@.subrange(self.separators@[4] + 1, self.value@.len() as int)
    }

    /// The raw text is the prefix and the five parts joined by colons.
    pub open spec fn joined(&self) -> Seq<char> {
        arn_prefix() + self.partition_view() + seq![':'] + self.service_view() + seq![':']
            + self.region_view() + seq![':'] + self.account_view() + seq![':']
            + self.resource_view()
    }

    /// The first five colons of the raw text are the separators.
    pub open spec fn separators_first(&self) -> bool {
        &&& no_colon(self.partition_view())
        &&& no_colon(self.service_view())
        &&& no_colon(self.region_view())
        &&& no_colon(self.account_view())
    }

    proof fn lemma_joined(&self)
        requires
            self.inv(),
        ensures
            self@ == self.joined(),
    {
        let s = self.value@;
        let p = self.separators@;
        assert(s =~= s.subrange(0, 4) + s.subrange(4, p[1] as int) + seq![':'] + s.subrange(
            p[1] + 1,
            p[2] as int,
        ) + seq![':'] + s.subrange(p[2] + 1, p[3] as int) + seq![':'] + s.subrange(
            p[3] + 1,
            p[4] as int,
        ) + seq![':'] + s.subrange(p[4] + 1, s.len() as int));
    }

    /// Builds `arn:aws:<service>:<region>:<account>:<resource>`.
    pub fn new(service: &str, region: &str, account: &str, resource: &str) -> (r: ARN)
        ensures
            r@ == seq!['a', 'r', 'n', ':', 'a', 'w', 's', ':'] + service@ + seq![':'] + region@
                + seq![':'] + account@ + seq![':'] + resource@,
            r.partition_view() == seq!['a', 'w', 's'],
            r.service_view() == service@,
            r.region_view() == region@,
            r.account_view() == account@,
            r.resource_view() == resource@,
    {
        let mut value = String::new();
        value.push_str("arn:aws:");
        proof {
            reveal_strlit("arn:aws:");
        }
        value.push_str(service);
        let sep2 = value.unicode_len();
        value.push(':');
        value.push_str(region);
        let sep3 = value.unicode_len();
        value.push(':');
        value.push_str(account);
        let sep4 = value.unicode_len();
        value.push(':');
        value.push_str(resource);
        let separators = vec![3, 7, sep2, sep3, sep4];
        let ghost s = value@;
        proof {
            assert(s.subrange(0, 4) =~= arn_prefix());
            assert(s.subrange(4, 7) =~= seq!['a', 'w', 's']);
            assert(s.subrange(8, sep2 as int) =~= service@);
            assert(s.subrange(sep2 + 1, sep3 as int) =~= region@);
            assert(s.subrange(sep3 + 1, sep4 as int) =~= account@);
            assert(s.subrange(sep4 + 1, s.len() as int) =~= resource@);
        }
        ARN { value, separators }
    }

    /// Parses the raw text of an ARN: it must start with `arn:` and hold at
    /// least five colons, of which the first five separate the parts.
    pub fn parse(value: &str) -> (r: Result<ARN, ARNParseError>)
        ensures
            r is Ok <==> arn_parse_outcome(value@) is Ok,
            r is Err ==> r == Err::<ARN, ARNParseError>(arn_parse_outcome(value@)->Err_0),
            r matches Ok(a) ==> a@ == value@ && a@ == a.joined() && a.separators_first(),
    {
        let cs = chars_of(value);
        if !(cs.len() >= 4 && cs[0] == 'a' && cs[1] == 'r' && cs[2] == 'n' && cs[3] == ':') {
            proof {
                if starts_with_arn(value@) {
                    assert(value@.subrange(0, 4)[0] == 'a');
                    assert(value@.subrange(0, 4)[1] == 'r');
                    assert(value@.subrange(0, 4)[2] == 'n');
                    assert(value@.subrange(0, 4)[3] == ':');
                }
            }
            return Err(ARNParseError::MissingPrefix);
        }
        proof {
            assert(value@.subrange(0, 4) =~= arn_prefix());
        }
        let separators = colon_positions(&cs);
        let ghost s = cs@;
        if separators.len() < 5 {
            return Err(ARNParseError::InvalidFormat);
        }
        let ghost p = separators@;
        proof {
            lemma_first_five(s, p);
        }
        let r = ARN { value: owned(value), separators };
        proof {
            use_type_invariant(&r);
            r.lemma_joined();
        }
        Ok(r)
    }

    pub fn service(&self) -> (r: &str)
        ensures
            r@ == self.service_view(),
    {
        proof {
            use_type_invariant(self);
        }
        self.value.as_str().substring_char(self.separators[1] + 1, self.separators[2])
    }

    pub fn region(&self) -> (r: &str)
        ensures
            r@ == self.region_view(),
    {
        proof {
            use_type_invariant(self);
        }
        self.value.as_str().substring_char(self.separators[2] + 1, self.separators[3])
    }

    pub fn account(&self) -> (r: &str)
        ensures
            r@ == self.account_view(),
    {
        proof {
            use_type_invariant(self);
        }
        self.value.as_str().substring_char(self.separators[3] + 1, self.separators[4])
    }

    pub fn resource(&self) -> (r: &str)
        ensures
            r@ == self.resource_view(),
    {
        proof {
            use_type_invariant(self);
        }
        let n = self.value.as_str().unicode_len();
        self.value.as_str().substring_char(self.separators[4] + 1, n)
    }

    pub fn raw(&self) -> (r: &str)
        ensures
            r@ == self@,
    {
        self.value.as_str()
    }
}

impl PartialEq for ARN {
    fn eq(&self, other: &ARN) -> (r: bool) {
        crate::text::str_eq(self.value.as_str(), other.value.as_str())
    }
}

impl vstd::std_specs::cmp::PartialEqSpecImpl for ARN {
    open spec fn obeys_eq_spec() -> bool {
        true
    }

    open spec fn eq_spec(&self, other: &ARN) -> bool {
        self@ == other@
    }
}

impl Eq for ARN {
}

impl Clone for ARN {
    fn clone(&self) -> (r: ARN)
        ensures
            r@ == self@,
    {
        proof {
            use_type_invariant(self);
        }
        ARN { value: self.value.clone(), separators: self.separators.clone() }
    }
}

impl std::str::FromStr for ARN {
    type Err = ARNParseError;

    fn from_str(value: &str) -> Result<ARN, ARNParseError> {
        ARN::parse(value)
    }
}

} // verus!
