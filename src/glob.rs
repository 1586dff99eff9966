//! Wildcard patterns over `?` (one character) and `*` (any run of characters).
//!
//! A pattern without wildcards is compared literally. Any other pattern is
//! turned into an anchored regular expression and handed to the regex
//! engine.
use vstd::prelude::*;
use crate::text::{chars_of, str_eq};

verus! {

/// What the regex engine answers for `pattern` on `target`: `None` when the
/// pattern does not compile, otherwise whether it matches.
pub uninterp spec fn regex_verdict(pattern: Seq<char>, target: Seq<char>) -> Option<bool>;

/// Relies on `regex::Regex::new` and `Regex::is_match`: compiles `pattern`,
/// then asks whether it matches `target`.
#[verifier::external_body]
pub(crate) fn regex_match(pattern: &str, target: &str) -> (r: Option<bool>)
    ensures
        r == regex_verdict(pattern@, target@),
{
    match regex::Regex::new(pattern) {
        Ok(re) => Some(re.is_match(target)),
        Err(_) => None,
    }
}

/// The characters that the regex syntax gives a meaning.
pub open spec fn is_regex_meta(c: char) -> bool {
    c == '\\' || c == '.' || c == '+' || c == '*' || c == '?' || c == '(' || c == ')'
        || c == '|' || c == '[' || c == ']' || c == '{' || c == '}' || c == '^' || c == '$'
        || c == '#' || c == '&' || c == '-' || c == '~'
}

/// One character written so that the regex syntax reads it literally.
pub open spec fn escaped_char(c: char) -> Seq<char> {
    if is_regex_meta(c) {
        seq!['\\', c]
    } else {
        seq![c]
    }
}

/// `s` written so that the regex syntax reads it literally.
pub open spec fn regex_escaped(s: Seq<char>) -> Seq<char>
    decreases s.len(),
{
    if s.len() == 0 {
        Seq::empty()
    } else {
        regex_escaped(s.drop_last()) + escaped_char(s.last())
    }
}

/// Relies on `regex::escape`: puts a backslash before each meta character.
#[verifier::external_body]
fn escape(s: &str) -> (r: String)
    ensures
        r@ == regex_escaped(s@),
{
    regex::escape(s)
}

/// Whether `g` holds a `?` or a `*`.
pub open spec fn has_wildcard(g: Seq<char>) -> bool {
    exists|i: int| 0 <= i < g.len() && (g[i] == '?' || g[i] == '*')
}

/// The regex text that one glob character stands for.
pub open spec fn glob_piece(c: char) -> Seq<char> {
    if c == '?' {
        seq!['.']
    } else if c == '*' {
        seq!['.', '*']
    } else {
        escaped_char(c)
    }
}

/// The regex text of a glob, without anchors.
pub open spec fn glob_body(g: Seq<char>) -> Seq<char>
    decreases g.len(),
{
    if g.len() == 0 {
        Seq::empty()
    } else {
        glob_body(g.drop_last()) + glob_piece(g.last())
    }
}

/// The anchored regular expression for a glob.
pub open spec fn glob_regex(g: Seq<char>) -> Seq<char> {
    seq!['^'] + glob_body(g) + seq!['$']
}

/// Whether glob `g` matches `t` as a whole.
pub open spec fn glob_matches_spec(g: Seq<char>, t: Seq<char>) -> bool {
    if !has_wildcard(g) {
        g == t
    } else {
        regex_verdict(glob_regex(g), t) == Some(true)
    }
}

proof fn lemma_escaped_append(a: Seq<char>, b: Seq<char>)
    ensures
        regex_escaped(a + b) == regex_escaped(a) + regex_escaped(b),
    decreases b.len(),
{
    if b.len() == 0 {
        assert(a + b =~= a);
        assert(regex_escaped(b) =~= Seq::<char>::empty());
        assert(regex_escaped(a) + regex_escaped(b) =~= regex_escaped(a));
    } else {
        lemma_escaped_append(a, b.drop_last());
        assert((a + b).drop_last() =~= a + b.drop_last());
        assert((a + b).last() == b.last());
        assert(regex_escaped(a) + regex_escaped(b) =~= regex_escaped(a) + regex_escaped(
            b.drop_last(),
        ) + escaped_char(b.last()));
    }
}

/// Turns a glob into an anchored regular expression: `?` becomes `.`,
/// `*` becomes `.*`, and every other character is escaped.
pub fn pattern_from_glob(glob: &str) -> (r: String)
    ensures
        r@ == glob_regex(glob@),
{
    let g = chars_of(glob);
    let mut acc = String::new();
    acc.push('^');
    let mut prefix = String::new();
    let mut i: usize = 0;
    while i < g.len()
        invariant
            g@ == glob@,
            i <= g.len(),
            acc@ + regex_escaped(prefix@) == seq!['^'] + glob_body(g@.subrange(0, i as int)),
        decreases g.len() - i,
    {
        let c = g[i];
        proof {
            assert(g@.subrange(0, i + 1).drop_last() =~= g@.subrange(0, i as int));
            assert(g@.subrange(0, i + 1).last() == c);
            assert(glob_body(g@.subrange(0, i + 1)) == glob_body(g@.subrange(0, i as int))
                + glob_piece(c));
        }
        if c == '?' || c == '*' {
            let e = escape(prefix.as_str());
            acc.push_str(e.as_str());
            prefix = String::new();
            if c == '?' {
                acc.push('.');
            } else {
                acc.push('.');
                acc.push('*');
            }
            proof {
                assert(regex_escaped(prefix@) =~= Seq::<char>::empty());
                assert(acc@ + regex_escaped(prefix@) =~= seq!['^'] + glob_body(
                    g@.subrange(0, i + 1),
                ));
            }
        } else {
            let ghost before = prefix@;
            prefix.push(c);
            proof {
                assert(prefix@.drop_last() =~= before);
                assert(prefix@.last() == c);
                assert(regex_escaped(prefix@) == regex_escaped(before) + escaped_char(c));
                assert(glob_piece(c) == escaped_char(c));
                assert(acc@ + regex_escaped(prefix@) =~= (acc@ + regex_escaped(before))
                    + escaped_char(c));
                assert(acc@ + regex_escaped(prefix@) =~= seq!['^'] + glob_body(
                    g@.subrange(0, i + 1),
                ));
            }
        }
        i += 1;
    }
    let e = escape(prefix.as_str());
    acc.push_str(e.as_str());
    acc.push('$');
    proof {
        assert(g@.subrange(0, g.len() as int) =~= g@);
    }
    acc
}

/// Whether `g` holds a wildcard character.
pub fn contains_wildcard(g: &str) -> (r: bool)
    ensures
        r == has_wildcard(g@),
{
    let cs = chars_of(g);
    let mut i: usize = 0;
    while i < cs.len()
        invariant
            cs@ == g@,
            i <= cs.len(),
            forall|j: int| 0 <= j < i ==> cs@[j] != '?' && cs@[j] != '*',
        decreases cs.len() - i,
    {
        if cs[i] == '?' || cs[i] == '*' {
            return true;
        }
        i += 1;
    }
    false
}

/// Whether `glob` matches the whole of `target`. A glob without wildcards
/// must equal the target; a pattern that the regex engine refuses
/// matches nothing.
pub fn glob_matches(glob: &str, target: &str) -> (r: bool)
    ensures
        r == glob_matches_spec(glob@, target@),
{
    if !contains_wildcard(glob) {
        return str_eq(target, glob);
    }
    let pattern = pattern_from_glob(glob);
    match regex_match(pattern.as_str(), target) {
        Some(b) => b,
        None => false,
    }
}

/// A glob without wildcards matches exactly the string equal to it.
pub proof fn literal_glob_matches_iff_equal(g: Seq<char>, t: Seq<char>)
    requires
        !has_wildcard(g),
    ensures
        glob_matches_spec(g, t) <==> g == t,
{
}

} // verus!
