//! A parsed JSON document, as the policy and context readers see it.
use vstd::prelude::*;
use crate::quantifier::strs;
use crate::text::str_eq;

verus! {

/// A JSON value. An object keeps its members in order.
#[derive(Debug)]
pub enum Json {
    Null,
    Bool(bool),
    Number(String),
    Str(String),
    Array(Vec<Json>),
    Object(Vec<(String, Json)>),
}

/// The value of the first member named `key`.
pub open spec fn field(fields: Seq<(String, Json)>, key: Seq<char>) -> Option<Json>
    decreases fields.len(),
{
    if fields.len() == 0 {
        None
    } else if fields[0].0@ == key {
        Some(fields[0].1)
    } else {
        field(fields.drop_first(), key)
    }
}

/// The member `key` of an object; nothing for other values.
pub open spec fn member(j: Json, key: Seq<char>) -> Option<Json> {
    match j {
        Json::Object(fields) => field(fields@, key),
        _ => None,
    }
}

/// A member that is absent or `null`.
pub open spec fn is_unset(m: Option<Json>) -> bool {
    m is None || m == Some(Json::Null)
}

pub open spec fn all_strings(items: Seq<Json>) -> bool {
    forall|i: int| 0 <= i < items.len() ==> items[i] is Str
}

pub open spec fn string_items(items: Seq<Json>) -> Seq<Seq<char>> {
    items.map_values(|j: Json| j->Str_0@)
}

/// A string, or an array of strings, as a list of strings.
pub open spec fn string_list(j: Json) -> Option<Seq<Seq<char>>> {
    match j {
        Json::Str(s) => Some(seq![s@]),
        Json::Array(items) => if all_strings(items@) {
            Some(string_items(items@))
        } else {
            None
        },
        _ => None,
    }
}

impl Json {
    /// The member `key` of an object; `None` for other values and absent
    /// members.
    pub fn member(&self, key: &str) -> (r: Option<&Json>)
        ensures
            match r {
                Some(v) => member(*self, key@) == Some(*v),
                None => member(*self, key@) is None,
            },
    {
        match self {
            Json::Object(fields) => {
                let ghost fs = fields@;
                assert(fs.subrange(0, fs.len() as int) =~= fs);
                let mut i: usize = 0;
                while i < fields.len()
                    invariant
                        fs == fields@,
                        member(*self, key@) == field(fs, key@),
                        i <= fs.len(),
                        field(fs, key@) == field(fs.subrange(i as int, fs.len() as int), key@),
                    decreases fields.len() - i,
                {
                    proof {
                        let rest = fs.subrange(i as int, fs.len() as int);
                        assert(rest[0] == fs[i as int]);
                        assert(rest.drop_first() =~= fs.subrange(i + 1, fs.len() as int));
                    }
                    if str_eq(fields[i].0.as_str(), key) {
                        return Some(&fields[i].1);
                    }
                    i += 1;
                }
                None
            },
            _ => None,
        }
    }

    pub fn is_null(&self) -> (r: bool)
        ensures
            r == (*self is Null),
    {
        matches!(self, Json::Null)
    }

    /// A string, or an array of strings, as a list of strings.
    pub fn string_list(&self) -> (r: Option<Vec<String>>)
        ensures
            match r {
                Some(v) => string_list(*self) == Some(strs(v@)),
                None => string_list(*self) is None,
            },
    {
        match self {
            Json::Str(s) => {
                let v = vec![s.clone()];
                proof {
                    assert(strs(v@) =~= seq![s@]);
                }
                Some(v)
            },
            Json::Array(items) => {
                let mut out: Vec<String> = Vec::new();
                let mut i: usize = 0;
                while i < items.len()
                    invariant
                        string_list(*self) == (if all_strings(items@) {
                            Some(string_items(items@))
                        } else {
                            None
                        }),
                        i <= items@.len(),
                        all_strings(items@.subrange(0, i as int)),
                        strs(out@) == string_items(items@.subrange(0, i as int)),
                    decreases items.len() - i,
                {
                    match &items[i] {
                        Json::Str(s) => {
                            let ghost before = out@;
                            out.push(s.clone());
                            proof {
                                assert(items@.subrange(0, i + 1) =~= items@.subrange(0, i as int).push(items@[i as int]));
                                assert(strs(out@) =~= strs(before).push(s@));
                                assert(string_items(items@.subrange(0, i + 1)) =~= string_items(items@.subrange(0, i as int)).push(s@));
                            }
                        },
                        _ => {
                            proof {
                                assert(!(items@[i as int] is Str));
                            }
                            return None;
                        },
                    }
                    i += 1;
                }
                proof {
                    assert(items@.subrange(0, i as int) =~= items@);
                }
                Some(out)
            },
            _ => None,
        }
    }
}

} // verus!
