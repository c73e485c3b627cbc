//! Regular-expression matching, provided by the `regex` crate.
use vstd::prelude::*;

verus! {

/// The capture groups of every successive non-overlapping match of
/// `pattern` in `text`; empty when the pattern does not compile.
pub uninterp spec fn all_matches(pattern: Seq<char>, text: Seq<char>) -> Seq<Seq<Option<Seq<char>>>>;

/// Relies on `regex::Regex::new` and `regex::Regex::captures_iter`: the
/// groups of each match, in order, each as owned text.
#[verifier::external_body]
pub(crate) fn captures_all(pattern: &str, text: &str) -> (r: Vec<Vec<Option<String>>>)
    ensures
        r.deep_view() == all_matches(pattern@, text@),
{
    match regex::Regex::new(pattern) {
        Ok(re) => re
            .captures_iter(text)
            .map(|c| c.iter().map(|m| m.map(|m| m.as_str().to_string())).collect())
            .collect(),
        Err(_) => Vec::new(),
    }
}

/// The characters that have a meaning in a regular expression.
pub open spec fn is_meta(c: char) -> bool {
    c == '\\' || c == '.' || c == '+' || c == '*' || c == '?' || c == '(' || c == ')' || c == '|'
        || c == '[' || c == ']' || c == '{' || c == '}' || c == '^' || c == '$' || c == '#' || c == '&'
        || c == '-' || c == '~'
}

/// `text` with a backslash before every meta character.
pub open spec fn escaped(text: Seq<char>) -> Seq<char>
    decreases text.len(),
{
    if text.len() == 0 {
        seq![]
    } else if is_meta(text.last()) {
        escaped(text.drop_last()) + seq!['\\', text.last()]
    } else {
        escaped(text.drop_last()).push(text.last())
    }
}

/// Relies on `regex::escape`: a pattern that matches `text` literally.
#[verifier::external_body]
pub(crate) fn escape(text: &str) -> (r: String)
    ensures
        r@ == escaped(text@),
{
    regex::escape(text)
}

/// The capture groups of the first (leftmost) match of `pattern` in
/// `text`, if any.
pub open spec fn first_match(pattern: Seq<char>, text: Seq<char>) -> Option<Seq<Option<Seq<char>>>> {
    if all_matches(pattern, text).len() > 0 {
        Some(all_matches(pattern, text)[0])
    } else {
        None
    }
}

/// The capture groups of the first match, each as owned text.
pub(crate) fn captures(pattern: &str, text: &str) -> (r: Option<Vec<Option<String>>>)
    ensures
        r.deep_view() == first_match(pattern@, text@),
{
    let mut all = captures_all(pattern, text);
    if all.len() > 0 {
        let ghost v = all.deep_view();
        let first = all.remove(0);
        assert(first.deep_view() == v[0]);
        Some(first)
    } else {
        None
    }
}

/// Group `i` of a match, when the match and the group exist.
pub open spec fn group_text(m: Option<Seq<Option<Seq<char>>>>, i: int) -> Option<Seq<char>> {
    match m {
        Some(g) => if 0 <= i < g.len() {
            g[i]
        } else {
            None
        },
        None => None,
    }
}

pub open spec fn group_at(g: Seq<Option<Seq<char>>>, i: int) -> Option<Seq<char>> {
    if 0 <= i < g.len() {
        g[i]
    } else {
        None
    }
}

/// Group `i` of the first match, as exec text.
pub(crate) fn first_group(pattern: &str, text: &str, i: usize) -> (r: Option<String>)
    ensures
        r.deep_view() == group_text(first_match(pattern@, text@), i as int),
{
    match captures(pattern, text) {
        Some(g) => group_of_match(&g, i),
        None => None,
    }
}

/// Group `i` of one match.
pub(crate) fn group_of_match(g: &Vec<Option<String>>, i: usize) -> (r: Option<String>)
    ensures
        r.deep_view() == group_at(g.deep_view(), i as int),
{
    if i < g.len() {
        match &g[i] {
            Some(t) => Some(t.clone()),
            None => None,
        }
    } else {
        None
    }
}

} // verus!
