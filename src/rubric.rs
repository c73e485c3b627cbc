//! Extraction of per-criterion rubric scores.
use vstd::prelude::*;
use crate::extract::{score_view, score_views, value_or, ScoreValidator, ScoreView};
use crate::models::RubricScore;
use crate::pattern::{
    all_matches, captures_all, escape, escaped, first_group, first_match, group_at,
    group_of_match, group_text,
};
use crate::text::{
    same_chars, all_digits, is_whitespace, is_ws, alnum, chars_of, is_alphanumeric, is_digit,
    join_space, join_words, lines, lower, lower_of, lower_chars, lower_vec, parse_points,
    points_of, split_lines, split_words, string_of, sub_vec, trim, trim_vec, words,
};

verus! {

/// Alphanumeric and whitespace characters, in order.
pub open spec fn kept(s: Seq<char>) -> Seq<char>
    decreases s.len(),
{
    if s.len() == 0 {
        seq![]
    } else if alnum(s.last()) || is_ws(s.last()) {
        kept(s.drop_last()).push(s.last())
    } else {
        kept(s.drop_last())
    }
}

/// A criterion name as a dedup key: trimmed, stripped of punctuation,
/// whitespace collapsed to single spaces, lowercased.
pub open spec fn norm_criterion(raw: Seq<char>) -> Seq<char> {
    lower_of(join_space(words(kept(trim(raw)))))
}

pub open spec fn seq_has(ws: Seq<Seq<char>>, w: Seq<char>) -> bool {
    exists|i: int| 0 <= i < ws.len() && ws[i] == w
}

/// The number of distinct words in `ew`.
pub open spec fn distinct_count(ew: Seq<Seq<char>>) -> nat
    decreases ew.len(),
{
    if ew.len() == 0 {
        0
    } else {
        distinct_count(ew.drop_last()) + if seq_has(ew.drop_last(), ew.last()) {
            0nat
        } else {
            1nat
        }
    }
}

/// The number of distinct words of `ew` that also occur in `fw`.
pub open spec fn shared_count(fw: Seq<Seq<char>>, ew: Seq<Seq<char>>) -> nat
    decreases ew.len(),
{
    if ew.len() == 0 {
        0
    } else {
        shared_count(fw, ew.drop_last()) + if !seq_has(ew.drop_last(), ew.last()) && seq_has(fw, ew.last()) {
            1nat
        } else {
            0nat
        }
    }
}

/// Two criterion names agree when their normal forms are equal or when at
/// least 70% of the expected name's distinct words occur in the found one.
pub open spec fn criteria_agree(found: Seq<char>, expected: Seq<char>) -> bool {
    let f = norm_criterion(found);
    let e = norm_criterion(expected);
    let ew = words(e);
    let total: int = if distinct_count(ew) == 0 {
        1
    } else {
        distinct_count(ew) as int
    };
    f == e || 10 * shared_count(words(f), ew) >= 7 * total
}

/// Points possible when the text gives none: with a list of expected
/// criteria, an even share of 100 over them; otherwise the awarded points
/// snapped up to 5, 10, 20, 25, 50 or 100, or, above 100, the awarded
/// points themselves. In hundredths.
pub open spec fn inferred_possible(points: u64, expected: Option<nat>) -> u64 {
    match expected {
        Some(n) if n > 0 => (10000nat / n) as u64,
        _ => if points <= 500 {
            500
        } else if points <= 1000 {
            1000
        } else if points <= 2000 {
            2000
        } else if points <= 2500 {
            2500
        } else if points <= 5000 {
            5000
        } else if points <= 10000 {
            10000
        } else {
            points
        },
    }
}

pub open spec fn expected_count(e: Option<Seq<String>>) -> Option<nat> {
    match e {
        Some(s) => Some(s.len()),
        None => None,
    }
}

/// Number of leading ASCII digits.
pub open spec fn lead_digits(s: Seq<char>) -> nat
    decreases s.len(),
{
    if s.len() > 0 && is_digit(s[0]) {
        1 + lead_digits(s.drop_first())
    } else {
        0
    }
}

pub open spec fn unsigned(s: Seq<char>) -> Seq<char> {
    if s.len() > 0 && (s[0] == '+' || s[0] == '-') {
        s.drop_first()
    } else {
        s
    }
}

pub open spec fn exponent_ok(x: Seq<char>) -> bool {
    x.len() > 0 && (x[0] == 'e' || x[0] == 'E') && unsigned(x.drop_first()).len() > 0 && all_digits(
        unsigned(x.drop_first()),
    )
}

/// `Digit+`, `Digit+ . Digit*` or `Digit* . Digit+`, then an optional
/// exponent.
pub open spec fn number_ok(b: Seq<char>) -> bool {
    let a = lead_digits(b) as int;
    let rest = b.subrange(a, b.len() as int);
    if rest.len() > 0 && rest[0] == '.' {
        let f = lead_digits(rest.drop_first()) as int;
        let tail = rest.subrange(1 + f, rest.len() as int);
        a + f > 0 && (tail.len() == 0 || exponent_ok(tail))
    } else {
        a > 0 && (rest.len() == 0 || exponent_ok(rest))
    }
}

/// The grammar that `f32::from_str` documents: an optional sign, then
/// `inf`, `infinity`, `nan` (in any ASCII case) or a decimal number.
pub open spec fn float_literal(s: Seq<char>) -> bool {
    let b = unsigned(s);
    lower(b) == "inf"@ || lower(b) == "infinity"@ || lower(b) == "nan"@ || number_ok(b)
}

pub const COMMENT_TAIL: &'static str = r"[:\s]*[^\n]*\n\s*([^:\n]{10,})";

/// The line after a criterion, when it reads as a comment: at least ten
/// characters without a colon, more than five after trimming, and not a
/// number.
pub open spec fn comment_of(text: Seq<char>, criterion: Seq<char>) -> Option<Seq<char>> {
    match group_text(first_match("(?i)"@ + escaped(criterion) + COMMENT_TAIL@, text), 1) {
        Some(g) => if trim(g).len() > 5 && !float_literal(trim(g)) {
            Some(trim(g))
        } else {
            None
        },
        None => None,
    }
}

pub const LINE_NUMBER: &'static str = r"^(.*?)(\d+(?:\.\d+)?)";

/// A line whose first number is positive and follows more than three
/// characters of text.
pub open spec fn line_score(line: Seq<char>, expected: Option<nat>) -> Option<ScoreView> {
    let t = trim(line);
    if t.len() == 0 {
        None
    } else {
        let m = first_match(LINE_NUMBER@, t);
        match (group_text(m, 1), group_text(m, 2)) {
            (Some(p), Some(d)) => {
                let c = trim(p);
                let v = value_or(d, 0);
                if c.len() > 3 && v > 0 {
                    Some((norm_criterion(c), v as u64, inferred_possible(v as u64, expected), None))
                } else {
                    None
                }
            },
            _ => None,
        }
    }
}

pub open spec fn line_scores(ls: Seq<Seq<char>>, expected: Option<nat>) -> Seq<ScoreView>
    decreases ls.len(),
{
    if ls.len() == 0 {
        seq![]
    } else {
        match line_score(ls.last(), expected) {
            Some(v) => line_scores(ls.drop_last(), expected).push(v),
            None => line_scores(ls.drop_last(), expected),
        }
    }
}

pub const SCORE_OUT_OF: &'static str = r"(?i)([^:\n]{5,40}):\s*(\d+(?:\.\d+)?)\s*(?:/\s*|\s+out\s+of\s+)(\d+(?:\.\d+)?)\s*(?:points?|pts?)?";
pub const SCORE_POINTS: &'static str = r"(?i)([^:\n]{5,40}):\s*(\d+(?:\.\d+)?)\s*(?:points?|pts?)";
pub const SCORE_PAREN: &'static str = r"(?i)([^(\n]{5,40})\s*\(\s*(\d+(?:\.\d+)?)\s*/\s*(\d+(?:\.\d+)?)\s*\)";
pub const SCORE_FOR: &'static str = r"(?i)(?:score\s+for\s+|points?\s+for\s+)?([^:\n]{5,40}):\s*(\d+(?:\.\d+)?)";
pub const SCORE_TABLE: &'static str = r"(?i)([A-Z][^|\n]{4,30})\s*\|\s*(\d+(?:\.\d+)?)\s*\|\s*(\d+(?:\.\d+)?)";

/// The rubric line patterns, tried in this order.
pub open spec fn score_patterns() -> Seq<Seq<char>> {
    seq![SCORE_OUT_OF@, SCORE_POINTS@, SCORE_PAREN@, SCORE_FOR@, SCORE_TABLE@]
}

/// The score that one rubric-line match describes.
pub open spec fn score_candidate(g: Seq<Option<Seq<char>>>, text: Seq<char>, expected: Option<nat>) -> Option<ScoreView> {
    match (group_at(g, 1), group_at(g, 2)) {
        (Some(c), Some(p)) => {
            let pa = value_or(p, 0) as u64;
            let pp = match group_at(g, 3) {
                Some(x) => match points_of(x) {
                    Some(v) => v,
                    None => inferred_possible(pa, expected),
                },
                None => inferred_possible(pa, expected),
            };
            Some((norm_criterion(c), pa, pp, comment_of(text, c)))
        },
        _ => None,
    }
}

pub open spec fn candidates_of(ms: Seq<Seq<Option<Seq<char>>>>, text: Seq<char>, expected: Option<nat>) -> Seq<ScoreView>
    decreases ms.len(),
{
    if ms.len() == 0 {
        seq![]
    } else {
        match score_candidate(ms.last(), text, expected) {
            Some(v) => candidates_of(ms.drop_last(), text, expected).push(v),
            None => candidates_of(ms.drop_last(), text, expected),
        }
    }
}

/// The candidates of every pattern, pattern after pattern.
pub open spec fn all_candidates(pats: Seq<Seq<char>>, text: Seq<char>, expected: Option<nat>) -> Seq<ScoreView>
    decreases pats.len(),
{
    if pats.len() == 0 {
        seq![]
    } else {
        all_candidates(pats.drop_last(), text, expected) + candidates_of(all_matches(pats.last(), text), text, expected)
    }
}

pub open spec fn has_criterion(d: Seq<ScoreView>, c: Seq<char>) -> bool {
    exists|i: int| 0 <= i < d.len() && d[i].0 == c
}

/// The first score of each criterion, in order.
pub open spec fn first_per_criterion(s: Seq<ScoreView>) -> Seq<ScoreView>
    decreases s.len(),
{
    if s.len() == 0 {
        seq![]
    } else if has_criterion(first_per_criterion(s.drop_last()), s.last().0) {
        first_per_criterion(s.drop_last())
    } else {
        first_per_criterion(s.drop_last()).push(s.last())
    }
}

/// Scores kept by criterion are unique by normalized criterion name.
pub proof fn lemma_first_per_criterion_unique(s: Seq<ScoreView>)
    ensures
        forall|i: int, j: int|
            0 <= i < j < first_per_criterion(s).len() ==> (#[trigger] first_per_criterion(s)[i]).0
                != (#[trigger] first_per_criterion(s)[j]).0,
    decreases s.len(),
{
    if s.len() > 0 {
        lemma_first_per_criterion_unique(s.drop_last());
        let d = first_per_criterion(s.drop_last());
        if !has_criterion(d, s.last().0) {
            assert forall|i: int, j: int| 0 <= i < j < d.push(s.last()).len() implies (#[trigger] d.push(
                s.last(),
            )[i]).0 != (#[trigger] d.push(s.last())[j]).0 by {
                if j == d.len() {
                    assert(d.push(s.last())[i] == d[i]);
                } else {
                    assert(d.push(s.last())[i] == d[i]);
                    assert(d.push(s.last())[j] == d[j]);
                }
            }
        }
    }
}

/// The rubric scores of a response: the first score per criterion over the
/// rubric-line patterns, or, when none matches, the first score per
/// criterion of the line-by-line scan.
pub open spec fn advanced_scores(text: Seq<char>, expected: Option<nat>) -> Seq<ScoreView> {
    let d = first_per_criterion(all_candidates(score_patterns(), text, expected));
    if d.len() > 0 {
        d
    } else {
        first_per_criterion(line_scores(lines(text), expected))
    }
}

fn keep_chars(s: &Vec<char>) -> (r: Vec<char>)
    ensures
        r@ == kept(s@),
{
    let n: usize = s.len();
    let mut r: Vec<char> = Vec::new();
    let mut i: usize = 0;
    while i < n
        invariant
            n == s@.len(),
            i <= n,
            r@ == kept(s@.subrange(0, i as int)),
        decreases n - i,
    {
        assert(s@.subrange(0, i + 1).drop_last() =~= s@.subrange(0, i as int));
        let c = s[i];
        if is_alphanumeric(c) || is_whitespace(c) {
            r.push(c);
        }
        i += 1;
    }
    assert(s@.subrange(0, n as int) =~= s@);
    r
}

fn norm_chars(raw: &Vec<char>) -> (r: Vec<char>)
    ensures
        r@ == norm_criterion(raw@),
{
    let t = trim_vec(raw);
    let k = keep_chars(&t);
    let ws = split_words(&k);
    let j = join_words(&ws);
    lower_chars(&j)
}

/// Whether `w` is among the first `upto` words of `ws`.
fn word_in(ws: &Vec<Vec<char>>, upto: usize, w: &Vec<char>) -> (r: bool)
    requires
        upto <= ws@.len(),
    ensures
        r == seq_has(ws.deep_view().subrange(0, upto as int), w@),
{
    let mut i: usize = 0;
    while i < upto
        invariant
            upto <= ws@.len(),
            i <= upto,
            forall|k: int| 0 <= k < i ==> ws.deep_view()[k] != w@,
        decreases upto - i,
    {
        assert(ws.deep_view()[i as int] == ws@[i as int]@);
        if same_chars(&ws[i], w) {
            assert(ws.deep_view().subrange(0, upto as int)[i as int] == w@);
            return true;
        }
        i += 1;
    }
    false
}

fn lead_digit_count(s: &Vec<char>, a: usize) -> (r: usize)
    requires
        a <= s@.len(),
    ensures
        a + r <= s@.len(),
        r == lead_digits(s@.subrange(a as int, s@.len() as int)),
{
    let n: usize = s.len();
    let mut i: usize = a;
    while i < n && '0' <= s[i] && s[i] <= '9'
        invariant
            a <= i <= n == s@.len(),
            lead_digits(s@.subrange(a as int, n as int)) == (i - a) + lead_digits(s@.subrange(i as int, n as int)),
        decreases n - i,
    {
        assert(s@.subrange(i as int, n as int).drop_first() =~= s@.subrange(i + 1, n as int));
        i += 1;
    }
    i - a
}

fn exponent_check(s: &Vec<char>, a: usize) -> (r: bool)
    requires
        a <= s@.len(),
    ensures
        r == exponent_ok(s@.subrange(a as int, s@.len() as int)),
{
    let n: usize = s.len();
    let ghost x = s@.subrange(a as int, n as int);
    if a >= n || (s[a] != 'e' && s[a] != 'E') {
        return false;
    }
    let mut b: usize = a + 1;
    assert(x.drop_first() =~= s@.subrange(a + 1, n as int));
    if b < n && (s[b] == '+' || s[b] == '-') {
        b = b + 1;
    }
    assert(unsigned(x.drop_first()) =~= s@.subrange(b as int, n as int));
    let d = lead_digit_count(s, b);
    if d == 0 || b + d != n {
        proof {
            if d > 0 {
                let y = s@.subrange(b as int, n as int);
                lemma_lead_digits_stop(y);
                assert(!is_digit(y[d as int]));
            } else if b < n {
                assert(!is_digit(s@.subrange(b as int, n as int)[0]));
            }
        }
        return false;
    }
    proof {
        lemma_lead_digits_all(s@.subrange(b as int, n as int));
    }
    true
}

proof fn lemma_lead_digits_stop(s: Seq<char>)
    ensures
        lead_digits(s) <= s.len(),
        lead_digits(s) < s.len() ==> !is_digit(s[lead_digits(s) as int]),
        forall|i: int| 0 <= i < lead_digits(s) ==> is_digit(#[trigger] s[i]),
    decreases s.len(),
{
    if s.len() > 0 && is_digit(s[0]) {
        lemma_lead_digits_stop(s.drop_first());
        assert forall|i: int| 0 <= i < lead_digits(s) implies is_digit(#[trigger] s[i]) by {
            if i > 0 {
                assert(s[i] == s.drop_first()[i - 1]);
            }
        }
    }
}

proof fn lemma_lead_digits_all(s: Seq<char>)
    requires
        lead_digits(s) == s.len(),
    ensures
        all_digits(s),
{
    lemma_lead_digits_stop(s);
}

fn is_float_literal(s: &Vec<char>) -> (r: bool)
    ensures
        r == float_literal(s@),
{
    let n: usize = s.len();
    let start: usize = if n > 0 && (s[0] == '+' || s[0] == '-') {
        1
    } else {
        0
    };
    let b = sub_vec(s, start, n);
    assert(b@ =~= unsigned(s@));
    let lb = lower_vec(&b);
    if same_chars(&lb, &chars_of("inf")) || same_chars(&lb, &chars_of("infinity")) || same_chars(&lb, &chars_of("nan")) {
        return true;
    }
    let m: usize = b.len();
    let a = lead_digit_count(&b, 0);
    assert(b@.subrange(0, m as int) =~= b@);
    let ghost rest = b@.subrange(a as int, m as int);
    if a < m && b[a] == '.' {
        let f = lead_digit_count(&b, a + 1);
        assert(rest.drop_first() =~= b@.subrange(a + 1, m as int));
        assert(rest.subrange(1 + f, rest.len() as int) =~= b@.subrange(a + 1 + f, m as int));
        if a + f == 0 {
            return false;
        }
        if a + 1 + f == m {
            return true;
        }
        exponent_check(&b, a + 1 + f)
    } else {
        if a == 0 {
            return false;
        }
        if a == m {
            return true;
        }
        exponent_check(&b, a)
    }
}

fn inferred(points_awarded: u64, expected_criteria: Option<&[String]>) -> (r: u64)
    ensures
        r == inferred_possible(points_awarded, expected_of(expected_criteria)),
{
    match expected_criteria {
        Some(criteria) => if criteria.len() > 0 {
            return 10000 / (criteria.len() as u64);
        },
        None => {},
    }
    if points_awarded <= 500 {
        500
    } else if points_awarded <= 1000 {
        1000
    } else if points_awarded <= 2000 {
        2000
    } else if points_awarded <= 2500 {
        2500
    } else if points_awarded <= 5000 {
        5000
    } else if points_awarded <= 10000 {
        10000
    } else {
        points_awarded
    }
}

pub open spec fn expected_of(expected_criteria: Option<&[String]>) -> Option<nat> {
    expected_count(
        match expected_criteria {
            Some(e) => Some(e@),
            None => None,
        },
    )
}

proof fn lemma_unique_criteria(r: Seq<RubricScore>)
    requires
        forall|i: int, j: int|
            0 <= i < j < score_views(r).len() ==> (#[trigger] score_views(r)[i]).0 != (#[trigger] score_views(r)[j]).0,
    ensures
        forall|i: int, j: int| 0 <= i < j < r.len() ==> (#[trigger] r[i]).criterion@ != (#[trigger] r[j]).criterion@,
{
    assert forall|i: int, j: int| 0 <= i < j < r.len() implies (#[trigger] r[i]).criterion@ != (#[trigger] r[j]).criterion@ by {
        assert(score_views(r)[i].0 == r[i].criterion@);
        assert(score_views(r)[j].0 == r[j].criterion@);
    }
}

fn find_criterion(out: &Vec<RubricScore>, c: &String) -> (r: bool)
    ensures
        r == has_criterion(score_views(out@), c@),
{
    let n: usize = out.len();
    let mut i: usize = 0;
    while i < n
        invariant
            n == out@.len(),
            i <= n,
            forall|k: int| 0 <= k < i ==> score_views(out@)[k].0 != c@,
        decreases n - i,
    {
        if out[i].criterion == *c {
            assert(score_views(out@)[i as int].0 == c@);
            return true;
        }
        i += 1;
    }
    false
}

impl ScoreValidator {
    /// One score per line whose first number is positive and follows more
    /// than three characters of text; the first line of each criterion wins.
    pub fn extract_scores_line_by_line(text: &str, expected_criteria: Option<&[String]>) -> (r: Vec<RubricScore>)
        ensures
            score_views(r@) == first_per_criterion(line_scores(lines(text@), expected_of(expected_criteria))),
    {
        let ghost ex = expected_of(expected_criteria);
        let ls = split_lines(&chars_of(text));
        let ghost lv = ls.deep_view();
        let n: usize = ls.len();
        let mut out: Vec<RubricScore> = Vec::new();
        let mut i: usize = 0;
        while i < n
            invariant
                n == ls@.len() == lv.len(),
                lv == ls.deep_view(),
                ex == expected_of(expected_criteria),
                i <= n,
                score_views(out@) == first_per_criterion(line_scores(lv.subrange(0, i as int), ex)),
            decreases n - i,
        {
            assert(lv.subrange(0, i + 1).drop_last() =~= lv.subrange(0, i as int));
            assert(lv[i as int] == ls@[i as int]@);
            let t = trim_vec(&ls[i]);
            if t.len() > 0 {
                let ts = string_of(t.as_slice());
                let p = first_group(LINE_NUMBER, ts.as_str(), 1);
                let d = first_group(LINE_NUMBER, ts.as_str(), 2);
                match (p, d) {
                    (Some(p), Some(d)) => {
                        let c = trim_vec(&chars_of(p.as_str()));
                        let v: u64 = match parse_points(&chars_of(d.as_str())) {
                            Some(v) => v,
                            None => 0,
                        };
                        if c.len() > 3 && v > 0 {
                            let crit = string_of(norm_chars(&c).as_slice());
                            let possible = inferred(v, expected_criteria);
                            let ghost base = line_scores(lv.subrange(0, i as int), ex);
                            let ghost cand = (crit@, v, possible, None::<Seq<char>>);
                            assert(base.push(cand).drop_last() =~= base);
                            assert(base.push(cand).last() == cand);
                            if !find_criterion(&out, &crit) {
                                let sc = RubricScore {
                                    criterion: crit,
                                    points_awarded: v,
                                    points_possible: possible,
                                    comments: None,
                                };
                                let ghost before = out@;
                                out.push(sc);
                                assert(score_views(out@) =~= score_views(before).push(score_view(sc)));
                            }
                        }
                    },
                    _ => {},
                }
            }
            i += 1;
        }
        assert(lv.subrange(0, n as int) =~= lv);
        out
    }

    /// The first score per normalized criterion over the rubric-line
    /// patterns, tried in order; the line-by-line scan when none matches.
    pub fn extract_rubric_scores_advanced(text: &str, expected_criteria: Option<&[String]>) -> (r: Vec<RubricScore>)
        ensures
            score_views(r@) == advanced_scores(text@, expected_of(expected_criteria)),
            forall|i: int, j: int| 0 <= i < j < r@.len() ==> (#[trigger] r@[i]).criterion@ != (#[trigger] r@[j]).criterion@,
    {
        proof {
            let ex = expected_of(expected_criteria);
            lemma_first_per_criterion_unique(all_candidates(score_patterns(), text@, ex));
            lemma_first_per_criterion_unique(line_scores(lines(text@), ex));
        }
        let ghost ex = expected_of(expected_criteria);
        let pats: Vec<&str> = vec![SCORE_OUT_OF, SCORE_POINTS, SCORE_PAREN, SCORE_FOR, SCORE_TABLE];
        let ghost pv = pats@.map_values(|x: &str| x@);
        assert(pv =~= score_patterns());
        let np: usize = pats.len();
        let mut out: Vec<RubricScore> = Vec::new();
        let mut pi: usize = 0;
        while pi < np
            invariant
                np == pats@.len() == pv.len(),
                pv == pats@.map_values(|x: &str| x@),
                ex == expected_of(expected_criteria),
                pi <= np,
                score_views(out@) == first_per_criterion(all_candidates(pv.subrange(0, pi as int), text@, ex)),
            decreases np - pi,
        {
            let ghost prev = all_candidates(pv.subrange(0, pi as int), text@, ex);
            assert(pv.subrange(0, pi + 1).drop_last() =~= pv.subrange(0, pi as int));
            assert(pv.subrange(0, pi + 1).last() == pats@[pi as int]@);
            let ms = captures_all(pats[pi], text);
            let ghost mv = ms.deep_view();
            let nm: usize = ms.len();
            let mut j: usize = 0;
            assert(prev + candidates_of(mv.subrange(0, 0), text@, ex) =~= prev);
            while j < nm
                invariant
                    nm == ms@.len() == mv.len(),
                    mv == ms.deep_view(),
                    ex == expected_of(expected_criteria),
                    j <= nm,
                    score_views(out@) == first_per_criterion(prev + candidates_of(mv.subrange(0, j as int), text@, ex)),
                decreases nm - j,
            {
                assert(mv.subrange(0, j + 1).drop_last() =~= mv.subrange(0, j as int));
                assert(mv[j as int] == ms@[j as int].deep_view());
                let g = &ms[j];
                let c = group_of_match(g, 1);
                let p = group_of_match(g, 2);
                match (c, p) {
                    (Some(c), Some(p)) => {
                        let crit = Self::normalize_criterion_name(c.as_str());
                        let pa: u64 = match parse_points(&chars_of(p.as_str())) {
                            Some(v) => v,
                            None => 0,
                        };
                        let pp = match group_of_match(g, 3) {
                            Some(x) => match parse_points(&chars_of(x.as_str())) {
                                Some(v) => v,
                                None => inferred(pa, expected_criteria),
                            },
                            None => inferred(pa, expected_criteria),
                        };
                        let ghost cand = (crit@, pa, pp, comment_of(text@, c@));
                        let ghost base = prev + candidates_of(mv.subrange(0, j as int), text@, ex);
                        assert(prev + candidates_of(mv.subrange(0, j + 1), text@, ex) =~= base.push(cand));
                        assert(base.push(cand).drop_last() =~= base);
                        assert(base.push(cand).last() == cand);
                        if !find_criterion(&out, &crit) {
                            let comments = Self::extract_criterion_comments(text, c.as_str());
                            let sc = RubricScore { criterion: crit, points_awarded: pa, points_possible: pp, comments };
                            let ghost before = out@;
                            out.push(sc);
                            assert(score_views(out@) =~= score_views(before).push(score_view(sc)));
                        }
                    },
                    _ => {
                        assert(prev + candidates_of(mv.subrange(0, j + 1), text@, ex) =~= prev + candidates_of(mv.subrange(0, j as int), text@, ex));
                    },
                }
                j += 1;
            }
            assert(mv.subrange(0, nm as int) =~= mv);
            pi += 1;
        }
        assert(pv.subrange(0, np as int) =~= pv);
        if out.len() == 0 {
            let fallback = Self::extract_scores_line_by_line(text, expected_criteria);
            proof {
                lemma_unique_criteria(fallback@);
            }
            return fallback;
        }
        proof {
            lemma_unique_criteria(out@);
        }
        out
    }

    /// Trims, drops every character but letters, digits and spaces,
    /// collapses whitespace and lowercases.
    pub fn normalize_criterion_name(raw: &str) -> (r: String)
        ensures
            r@ == norm_criterion(raw@),
    {
        let n = norm_chars(&chars_of(raw));
        string_of(n.as_slice())
    }

    /// Whether a found criterion name stands for an expected one.
    pub fn criteria_match(found: &str, expected: &str) -> (r: bool)
        ensures
            r == criteria_agree(found@, expected@),
    {
        let f = norm_chars(&chars_of(found));
        let e = norm_chars(&chars_of(expected));
        if same_chars(&f, &e) {
            return true;
        }
        let fw = split_words(&f);
        let ew = split_words(&e);
        let ghost fv = fw.deep_view();
        let ghost ev = ew.deep_view();
        let nf: usize = fw.len();
        let n: usize = ew.len();
        assert(fv.subrange(0, nf as int) =~= fv);
        let mut distinct: usize = 0;
        let mut common: usize = 0;
        let mut i: usize = 0;
        while i < n
            invariant
                n == ew@.len() == ev.len(),
                nf == fw@.len() == fv.len(),
                ev == ew.deep_view(),
                fv == fw.deep_view(),
                fv.subrange(0, nf as int) == fv,
                i <= n,
                distinct == distinct_count(ev.subrange(0, i as int)),
                common == shared_count(fv, ev.subrange(0, i as int)),
                common <= distinct <= i,
            decreases n - i,
        {
            assert(ev.subrange(0, i + 1).drop_last() =~= ev.subrange(0, i as int));
            assert(ev[i as int] == ew@[i as int]@);
            if !word_in(&ew, i, &ew[i]) {
                distinct += 1;
                if word_in(&fw, nf, &ew[i]) {
                    common += 1;
                }
            }
            i += 1;
        }
        assert(ev.subrange(0, n as int) =~= ev);
        let total: usize = if distinct == 0 {
            1
        } else {
            distinct
        };
        10 * (common as u128) >= 7 * (total as u128)
    }

    /// Points possible for a criterion whose maximum the text does not give.
    pub fn infer_points_possible(_criterion: &str, expected_criteria: Option<&[String]>, points_awarded: u64) -> (r: u64)
        ensures
            r == inferred_possible(points_awarded, expected_count(
                match expected_criteria {
                    Some(e) => Some(e@),
                    None => None,
                },
            )),
    {
        inferred(points_awarded, expected_criteria)
    }

    /// The comment line that follows a criterion, if any.
    pub fn extract_criterion_comments(text: &str, criterion: &str) -> (r: Option<String>)
        ensures
            r.deep_view() == comment_of(text@, criterion@),
    {
        let mut pattern = String::from_str("(?i)");
        let esc = escape(criterion);
        pattern.append(esc.as_str());
        pattern.append(COMMENT_TAIL);
        match first_group(pattern.as_str(), text, 1) {
            Some(g) => {
                let t = trim_vec(&chars_of(g.as_str()));
                if t.len() > 5 && !is_float_literal(&t) {
                    Some(string_of(t.as_slice()))
                } else {
                    None
                }
            },
            None => None,
        }
    }
}

} // verus!
