//! Errors raised while evaluating conditions.
use vstd::prelude::*;
use crate::quantifier::{Quantifier, quantifier_spec, strs};

verus! {

#[derive(Debug, Clone, Copy, PartialEq, Eq, Structural)]
pub enum ConditionError {
    /// An operand cannot be read as the type that the operator compares.
    TypeMismatch,
    /// A condition received a number of values it cannot handle.
    TooManyValues,
    /// The operator is not supported.
    NotImplemented,
}

} // verus!

verus! {

/// The first values listed under `key`.
pub open spec fn lookup(entries: Seq<(Seq<char>, Seq<Seq<char>>)>, key: Seq<char>) -> Option<Seq<Seq<char>>>
    decreases entries.len(),
{
    if entries.len() == 0 {
        None
    } else if entries[0].0 == key {
        Some(entries[0].1)
    } else {
        lookup(entries.drop_first(), key)
    }
}

proof fn lemma_lookup_push(entries: Seq<(Seq<char>, Seq<Seq<char>>)>, e: (Seq<char>, Seq<Seq<char>>), key: Seq<char>)
    ensures
        lookup(entries.push(e), key) == match lookup(entries, key) {
            Some(v) => Some(v),
            None => if e.0 == key {
                Some(e.1)
            } else {
                None
            },
        },
    decreases entries.len(),
{
    reveal_with_fuel(lookup, 2);
    if entries.len() > 0 {
        assert(entries.push(e)[0] == entries[0]);
        assert(entries.push(e).drop_first() =~= entries.drop_first().push(e));
        lemma_lookup_push(entries.drop_first(), e, key);
    } else {
        assert(entries.push(e)[0] == e);
        assert(entries.push(e).drop_first() =~= Seq::<(Seq<char>, Seq<Seq<char>>)>::empty());
    }
}

proof fn lemma_lookup_update(entries: Seq<(Seq<char>, Seq<Seq<char>>)>, i: int, e: (Seq<char>, Seq<Seq<char>>), key: Seq<char>)
    requires
        0 <= i < entries.len(),
        entries[i].0 == e.0,
        forall|j: int| 0 <= j < i ==> entries[j].0 != e.0,
    ensures
        lookup(entries.update(i, e), key) == if key == e.0 {
            Some(e.1)
        } else {
            lookup(entries, key)
        },
    decreases entries.len(),
{
    if i > 0 {
        assert(entries.update(i, e)[0] == entries[0]);
        assert(entries.update(i, e).drop_first() =~= entries.drop_first().update(i - 1, e));
        lemma_lookup_update(entries.drop_first(), i - 1, e, key);
    } else {
        assert(entries.update(i, e)[0] == e);
        assert(entries.update(i, e).drop_first() =~= entries.drop_first());
    }
}

/// Values of condition keys: each key with its list of values.
#[derive(Debug, Clone)]
pub struct ConditionValues {
    entries: Vec<(String, Vec<String>)>,
}

/// The characters of a key and of each of its values.
pub open spec fn entry_view(e: (String, Vec<String>)) -> (Seq<char>, Seq<Seq<char>>) {
    (e.0@, strs(e.1@))
}

impl View for ConditionValues {
    type V = Seq<(Seq<char>, Seq<Seq<char>>)>;

    closed spec fn view(&self) -> Seq<(Seq<char>, Seq<Seq<char>>)> {
        self.entries@.map_values(|e: (String, Vec<String>)| entry_view(e))
    }
}

/// A copy of a list of strings.
pub fn copy_strings(v: &Vec<String>) -> (r: Vec<String>)
    ensures
        strs(r@) == strs(v@),
{
    let mut out: Vec<String> = Vec::new();
    let mut i: usize = 0;
    while i < v.len()
        invariant
            i <= v@.len(),
            strs(out@) == strs(v@.subrange(0, i as int)),
        decreases v.len() - i,
    {
        let ghost before = out@;
        let c = v[i].clone();
        out.push(c);
        proof {
            assert(out@ == before.push(c));
            assert(c@ == v@[i as int]@);
            assert(strs(out@) =~= strs(before).push(c@));
            assert(v@.subrange(0, i + 1) =~= v@.subrange(0, i as int).push(v@[i as int]));
            assert(strs(v@.subrange(0, i + 1)) =~= strs(v@.subrange(0, i as int)).push(v@[i as int]@));
            assert(strs(out@) =~= strs(v@.subrange(0, i + 1)));
        }
        i += 1;
    }
    proof {
        assert(v@.subrange(0, i as int) =~= v@);
    }
    out
}

impl ConditionValues {
    pub fn new() -> (r: ConditionValues)
        ensures
            r@.len() == 0,
    {
        ConditionValues { entries: Vec::new() }
    }

    /// The values listed under `key`.
    pub fn get(&self, key: &str) -> (r: Option<&Vec<String>>)
        ensures
            match r {
                Some(v) => lookup(self@, key@) == Some(strs(v@)),
                None => lookup(self@, key@) is None,
            },
    {
        let ghost es = self@;
        assert(es.subrange(0, es.len() as int) =~= es);
        let mut i: usize = 0;
        while i < self.entries.len()
            invariant
                es == self@,
                es.len() == self.entries@.len(),
                i <= es.len(),
                lookup(es, key@) == lookup(es.subrange(i as int, es.len() as int), key@),
            decreases self.entries.len() - i,
        {
            proof {
                let rest = es.subrange(i as int, es.len() as int);
                assert(rest[0] == entry_view(self.entries@[i as int]));
                assert(rest.drop_first() =~= es.subrange(i + 1, es.len() as int));
            }
            if crate::text::str_eq(self.entries[i].0.as_str(), key) {
                return Some(&self.entries[i].1);
            }
            i += 1;
        }
        None
    }

    /// Sets the values of `key`, replacing those it had.
    pub fn insert(&mut self, key: String, values: Vec<String>)
        ensures
            forall|k: Seq<char>|
                #![trigger lookup(final(self)@, k)]
                lookup(final(self)@, k) == if k == key@ {
                    Some(strs(values@))
                } else {
                    lookup(old(self)@, k)
                },
    {
        let ghost es = self@;
        let mut i: usize = 0;
        while i < self.entries.len()
            invariant
                es == self@,
                es == old(self)@,
                es.len() == self.entries@.len(),
                i <= es.len(),
                forall|j: int| 0 <= j < i ==> es[j].0 != key@,
            decreases self.entries.len() - i,
        {
            assert(es[i as int] == entry_view(self.entries@[i as int]));
            if crate::text::str_eq(self.entries[i].0.as_str(), key.as_str()) {
                let ghost e = (key@, strs(values@));
                self.entries.set(i, (key, values));
                proof {
                    assert(self@ =~= es.update(i as int, e));
                    assert forall|k: Seq<char>| #[trigger] lookup(self@, k) == if k == e.0 {
                        Some(e.1)
                    } else {
                        lookup(es, k)
                    } by {
                        lemma_lookup_update(es, i as int, e, k);
                    }
                    assert(e.0 == key@);
                    assert(e.1 == strs(values@));
                }
                return;
            }
            i += 1;
        }
        let ghost e = (key@, strs(values@));
        self.entries.push((key, values));
        proof {
            assert(self@ =~= es.push(e));
            assert forall|k: Seq<char>| #[trigger] lookup(self@, k) == if k == e.0 {
                Some(e.1)
            } else {
                lookup(es, k)
            } by {
                lemma_lookup_push(es, e, k);
                if k == e.0 {
                    lemma_lookup_absent(es, k);
                }
            }
        }
    }

    /// A map with the given keys and values; a later pair wins over an
    /// earlier one with the same key.
    pub fn from_pairs(pairs: Vec<(String, Vec<String>)>) -> (r: ConditionValues)
        ensures
            forall|k: Seq<char>|
                #![trigger lookup(r@, k)]
                lookup(r@, k) == lookup(pairs@.map_values(|e: (String, Vec<String>)| entry_view(e)).reverse(), k),
    {
        let mut r = ConditionValues::new();
        let ghost ps = pairs@.map_values(|e: (String, Vec<String>)| entry_view(e));
        let mut pairs = pairs;
        let ghost all = pairs@;
        let mut i: usize = 0;
        let n = pairs.len();
        // insert from the front, so that later pairs win
        while i < n
            invariant
                n == all.len(),
                i <= n,
                ps == all.map_values(|e: (String, Vec<String>)| entry_view(e)),
                pairs@ == all.subrange(i as int, n as int),
                forall|k: Seq<char>|
                    #![trigger lookup(r@, k)]
                    lookup(r@, k) == lookup(ps.subrange(0, i as int).reverse(), k),
            decreases n - i,
        {
            let (key, values) = pairs.remove(0);
            let ghost e = entry_view(all[i as int]);
            proof {
                assert(ps.subrange(0, i + 1).reverse() =~= seq![e] + ps.subrange(0, i as int).reverse());
            }
            r.insert(key, values);
            proof {
                assert forall|k: Seq<char>| #[trigger] lookup(r@, k) == lookup(ps.subrange(0, i + 1).reverse(), k) by {
                    let s = seq![e] + ps.subrange(0, i as int).reverse();
                    assert(s.drop_first() =~= ps.subrange(0, i as int).reverse());
                }
                assert(pairs@ =~= all.subrange(i + 1, n as int));
            }
            i += 1;
        }
        proof {
            assert(ps.subrange(0, n as int) =~= ps);
        }
        r
    }

    /// These values, with those of `overlay` in place of any of the same key.
    pub fn overlaid(&self, overlay: &ConditionValues) -> (r: ConditionValues)
        ensures
            forall|k: Seq<char>|
                #![trigger lookup(r@, k)]
                lookup(r@, k) == match lookup(overlay@, k) {
                    Some(v) => Some(v),
                    None => lookup(self@, k),
                },
    {
        let mut r = ConditionValues::new();
        let ghost es = self@;
        let mut i: usize = 0;
        while i < self.entries.len()
            invariant
                es == self@,
                es.len() == self.entries@.len(),
                i <= es.len(),
                forall|k: Seq<char>|
                    #![trigger lookup(r@, k)]
                    lookup(r@, k) == lookup(es.subrange(0, i as int), k),
            decreases self.entries.len() - i,
        {
            let ghost before = r@;
            let key = self.entries[i].0.clone();
            let values = copy_strings(&self.entries[i].1);
            let ghost e = entry_view(self.entries@[i as int]);
            assert(es[i as int] == e);
            proof {
                assert(es.subrange(0, i + 1) =~= es.subrange(0, i as int).push(e));
            }
            if r.get(key.as_str()).is_none() {
                r.insert(key, values);
                proof {
                    assert forall|k: Seq<char>| #[trigger] lookup(r@, k) == lookup(es.subrange(0, i + 1), k) by {
                        lemma_lookup_push(es.subrange(0, i as int), e, k);
                    }
                }
            } else {
                proof {
                    assert forall|k: Seq<char>| #[trigger] lookup(r@, k) == lookup(es.subrange(0, i + 1), k) by {
                        lemma_lookup_push(es.subrange(0, i as int), e, k);
                    }
                }
            }
            i += 1;
        }
        proof {
            assert(es.subrange(0, i as int) =~= es);
        }
        let ghost os = overlay@;
        let mut j: usize = 0;
        while j < overlay.entries.len()
            invariant
                es == self@,
                os == overlay@,
                os.len() == overlay.entries@.len(),
                j <= os.len(),
                forall|k: Seq<char>|
                    #![trigger lookup(r@, k)]
                    lookup(r@, k) == match lookup(os.subrange(0, j as int), k) {
                        Some(v) => Some(v),
                        None => lookup(es, k),
                    },
            decreases overlay.entries.len() - j,
        {
            let key = overlay.entries[j].0.clone();
            let values = copy_strings(&overlay.entries[j].1);
            let ghost e = entry_view(overlay.entries@[j as int]);
            assert(os[j as int] == e);
            proof {
                assert(os.subrange(0, j + 1) =~= os.subrange(0, j as int).push(e));
            }
            let fresh = !key_listed_before(&overlay.entries, j, key.as_str());
            proof {
                lemma_lookup_absent_iff(os.subrange(0, j as int), e.0);
                assert forall|x: int| 0 <= x < j implies #[trigger] os.subrange(0, j as int)[x] == os[x] by {}
            }
            let ghost before = r@;
            proof {
                assert(key@ == e.0);
                assert(strs(values@) == e.1);
                assert forall|x: int| 0 <= x < j implies #[trigger] os[x].0 == overlay.entries@[x].0@ by {
                    assert(os[x] == entry_view(overlay.entries@[x]));
                }
                let sub = os.subrange(0, j as int);
                lemma_lookup_absent_iff(sub, e.0);
                if fresh {
                    assert forall|y: int| 0 <= y < sub.len() implies sub[y].0 != e.0 by {
                        assert(sub[y] == os[y]);
                        assert(os[y].0 == overlay.entries@[y].0@);
                    }
                } else {
                    let x = choose|x: int| 0 <= x < j && overlay.entries@[x].0@ == key@;
                    assert(sub[x] == os[x]);
                    assert(os[x].0 == overlay.entries@[x].0@);
                    assert(sub[x].0 == e.0);
                }
                assert(fresh <==> lookup(os.subrange(0, j as int), e.0) is None);
            }
            if fresh {
                r.insert(key, values);
            }
            proof {
                assert forall|k: Seq<char>| #[trigger] lookup(r@, k) == match lookup(os.subrange(0, j + 1), k) {
                    Some(v) => Some(v),
                    None => lookup(es, k),
                } by {
                    lemma_lookup_push(os.subrange(0, j as int), e, k);
                    assert(lookup(before, k) == match lookup(os.subrange(0, j as int), k) {
                        Some(v) => Some(v),
                        None => lookup(es, k),
                    });
                }
            }
            j += 1;
        }
        proof {
            assert(os.subrange(0, j as int) =~= os);
        }
        r
    }
}

/// Whether one of the first `j` entries has the key `key`.
fn key_listed_before(entries: &Vec<(String, Vec<String>)>, j: usize, key: &str) -> (r: bool)
    requires
        j <= entries@.len(),
    ensures
        r == exists|x: int| 0 <= x < j && entries@[x].0@ == key@,
{
    let mut m: usize = 0;
    while m < j
        invariant
            j <= entries@.len(),
            m <= j,
            forall|x: int| 0 <= x < m ==> entries@[x].0@ != key@,
        decreases j - m,
    {
        if crate::text::str_eq(entries[m].0.as_str(), key) {
            return true;
        }
        m += 1;
    }
    false
}

proof fn lemma_lookup_absent(entries: Seq<(Seq<char>, Seq<Seq<char>>)>, key: Seq<char>)
    requires
        forall|j: int| 0 <= j < entries.len() ==> entries[j].0 != key,
    ensures
        lookup(entries, key) is None,
    decreases entries.len(),
{
    if entries.len() > 0 {
        lemma_lookup_absent(entries.drop_first(), key);
    }
}

proof fn lemma_lookup_absent_iff(entries: Seq<(Seq<char>, Seq<Seq<char>>)>, key: Seq<char>)
    ensures
        lookup(entries, key) is None <==> forall|j: int| 0 <= j < entries.len() ==> entries[j].0 != key,
    decreases entries.len(),
{
    if entries.len() > 0 {
        lemma_lookup_absent_iff(entries.drop_first(), key);
        if entries[0].0 != key {
            assert forall|j: int| 0 < j < entries.len() implies entries[j].0 == entries.drop_first()[j - 1].0 by {}
        }
    }
}

} // verus!

verus! {

/// Whether every key of one operator's group passes, stopping at the first
/// key that fails or errs.
pub open spec fn group_spec(
    q: Quantifier,
    entries: Seq<(Seq<char>, Seq<Seq<char>>)>,
    values: Seq<(Seq<char>, Seq<Seq<char>>)>,
) -> Result<bool, ConditionError>
    decreases entries.len(),
{
    if entries.len() == 0 {
        Ok(true)
    } else {
        match quantifier_spec(q, lookup(values, entries[0].0), entries[0].1) {
            Err(e) => Err(e),
            Ok(false) => Ok(false),
            Ok(true) => group_spec(q, entries.drop_first(), values),
        }
    }
}

/// Whether every group passes, stopping at the first that fails or errs.
pub open spec fn conditions_spec(
    groups: Seq<(Quantifier, Seq<(Seq<char>, Seq<Seq<char>>)>)>,
    values: Seq<(Seq<char>, Seq<Seq<char>>)>,
) -> Result<bool, ConditionError>
    decreases groups.len(),
{
    if groups.len() == 0 {
        Ok(true)
    } else {
        match group_spec(groups[0].0, groups[0].1, values) {
            Err(e) => Err(e),
            Ok(false) => Ok(false),
            Ok(true) => conditions_spec(groups.drop_first(), values),
        }
    }
}

/// The conditions of a statement: for each quantified operator, the keys it
/// tests and their targets.
#[derive(Debug, Clone)]
pub struct ConditionList {
    conditions: Vec<(Quantifier, ConditionValues)>,
}

pub type ConditionSet = ConditionList;

pub open spec fn group_view(g: (Quantifier, ConditionValues)) -> (Quantifier, Seq<(Seq<char>, Seq<Seq<char>>)>) {
    (g.0, g.1@)
}

impl View for ConditionList {
    type V = Seq<(Quantifier, Seq<(Seq<char>, Seq<Seq<char>>)>)>;

    closed spec fn view(&self) -> Seq<(Quantifier, Seq<(Seq<char>, Seq<Seq<char>>)>)> {
        self.conditions@.map_values(|g: (Quantifier, ConditionValues)| group_view(g))
    }
}

fn group_matches(q: &Quantifier, targets: &ConditionValues, value_map: &ConditionValues) -> (r: Result<bool, ConditionError>)
    ensures
        r == group_spec(*q, targets@, value_map@),
{
    let ghost es = targets@;
    assert(es.subrange(0, es.len() as int) =~= es);
    let mut i: usize = 0;
    while i < targets.entries.len()
        invariant
            es == targets@,
            es.len() == targets.entries@.len(),
            i <= es.len(),
            group_spec(*q, es, value_map@) == group_spec(*q, es.subrange(i as int, es.len() as int), value_map@),
        decreases targets.entries.len() - i,
    {
        proof {
            let rest = es.subrange(i as int, es.len() as int);
            assert(rest[0] == entry_view(targets.entries@[i as int]));
            assert(rest.drop_first() =~= es.subrange(i + 1, es.len() as int));
        }
        let values = value_map.get(targets.entries[i].0.as_str());
        match q.matches(values, &targets.entries[i].1) {
            Err(e) => {
                return Err(e);
            },
            Ok(false) => {
                return Ok(false);
            },
            Ok(true) => {},
        }
        i += 1;
    }
    Ok(true)
}

impl ConditionList {
    pub fn new() -> (r: ConditionList)
        ensures
            r@.len() == 0,
    {
        ConditionList { conditions: Vec::new() }
    }

    /// Sets the keys and targets of a quantified operator; returns those it
    /// had before, if any.
    pub fn insert(&mut self, entry: (Quantifier, ConditionValues)) -> (r: Option<ConditionValues>)
        ensures
            match r {
                Some(previous) => exists|i: int|
                    0 <= i < old(self)@.len() && old(self)@[i].0 == entry.0 && previous@
                        == old(self)@[i].1 && final(self)@ == old(self)@.update(i, group_view(entry)),
                None => (forall|i: int| 0 <= i < old(self)@.len() ==> old(self)@[i].0 != entry.0)
                    && final(self)@ == old(self)@.push(group_view(entry)),
            },
    {
        let ghost gs = self@;
        let ghost e = group_view(entry);
        let mut i: usize = 0;
        while i < self.conditions.len()
            invariant
                gs == self@,
                gs == old(self)@,
                e == group_view(entry),
                gs.len() == self.conditions@.len(),
                i <= gs.len(),
                forall|j: int| 0 <= j < i ==> gs[j].0 != entry.0,
            decreases self.conditions.len() - i,
        {
            assert(gs[i as int] == group_view(self.conditions@[i as int]));
            if self.conditions[i].0 == entry.0 {
                let previous = self.conditions.remove(i);
                self.conditions.insert(i, entry);
                proof {
                    assert(self@ =~= gs.update(i as int, e));
                }
                return Some(previous.1);
            }
            i += 1;
        }
        self.conditions.push(entry);
        proof {
            assert(self@ =~= gs.push(e));
        }
        None
    }

    /// Whether the context values pass every condition: every key of every
    /// operator, in order; the first failure or error decides.
    pub fn matches(&self, value_map: &ConditionValues) -> (r: Result<bool, ConditionError>)
        ensures
            r == conditions_spec(self@, value_map@),
    {
        let ghost gs = self@;
        assert(gs.subrange(0, gs.len() as int) =~= gs);
        let mut i: usize = 0;
        while i < self.conditions.len()
            invariant
                gs == self@,
                gs.len() == self.conditions@.len(),
                i <= gs.len(),
                conditions_spec(gs, value_map@) == conditions_spec(gs.subrange(i as int, gs.len() as int), value_map@),
            decreases self.conditions.len() - i,
        {
            proof {
                let rest = gs.subrange(i as int, gs.len() as int);
                assert(rest[0] == group_view(self.conditions@[i as int]));
                assert(rest.drop_first() =~= gs.subrange(i + 1, gs.len() as int));
            }
            match group_matches(&self.conditions[i].0, &self.conditions[i].1, value_map) {
                Err(e) => {
                    return Err(e);
                },
                Ok(false) => {
                    return Ok(false);
                },
                Ok(true) => {},
            }
            i += 1;
        }
        Ok(true)
    }

    /// Adds a quantified operator with its keys and targets after the others.
    pub fn push_group(&mut self, q: Quantifier, targets: ConditionValues)
        ensures
            final(self)@ == old(self)@.push((q, targets@)),
    {
        self.conditions.push((q, targets));
        proof {
            assert(self@ =~= old(self)@.push((q, targets@)));
        }
    }

    /// The quantified operators with their keys and targets, in order.
    pub fn groups(&self) -> (r: &Vec<(Quantifier, ConditionValues)>)
        ensures
            r@.map_values(|g: (Quantifier, ConditionValues)| group_view(g)) == self@,
    {
        &self.conditions
    }
}

impl ConditionValues {
    /// The keys with their values, in order.
    pub fn entries(&self) -> (r: &Vec<(String, Vec<String>)>)
        ensures
            r@.map_values(|e: (String, Vec<String>)| entry_view(e)) == self@,
    {
        &self.entries
    }
}

} // verus!
