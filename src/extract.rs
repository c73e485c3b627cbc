//! Heuristic extraction of grades and rubric scores from grader text.
use vstd::prelude::*;
use crate::pattern::{first_group, first_match, group_text};
use crate::models::RubricScore;
use crate::text::{
    upper_of, decimal_string, same_chars, chars_of, dec_str, points_of, parse_points, string_of,
    trim, trim_vec,
};

verus! {

/// Extraction and validation of grader responses.
pub struct ScoreValidator;

pub const GRADE_LABELED: &'static str = r"(?i)(?:overall grade|final grade|grade):\s*([A-F][+-]?)";
pub const GRADE_SCORE: &'static str = r"(?i)(?:score|points):\s*(\d+(?:\.\d+)?)\s*(?:/\s*(\d+))?";
pub const GRADE_TRAILING: &'static str = r"([A-F][+-]?)\s*(?:grade|final)";
pub const GRADE_FRACTION: &'static str = r"(\d+(?:\.\d+)?)/(\d+)";
pub const GRADE_PERCENT: &'static str = r"(\d+(?:\.\d+)?)%";

/// The plain grade patterns, tried in this order.
pub open spec fn basic_grade_patterns() -> Seq<Seq<char>> {
    seq![GRADE_LABELED@, GRADE_SCORE@, GRADE_TRAILING@, GRADE_FRACTION@, GRADE_PERCENT@]
}

pub const ADV_TOTAL_LABELED: &'static str = r"(?i)(?:overall|final|total)\s*(?:grade|score):\s*([A-F][+-]?|\d+(?:\.\d+)?(?:/\d+)?%?)";
pub const ADV_GRADE_LABELED: &'static str = r"(?i)grade:\s*([A-F][+-]?|\d+(?:\.\d+)?(?:/\d+)?%?)";
pub const ADV_SCORE_OUT_OF: &'static str = r"(?i)(?:score|points):\s*(\d+(?:\.\d+)?)\s*(?:out\s*of|/)\s*(\d+)";
pub const ADV_EARNED: &'static str = r"(?i)(?:received|earned|scored):\s*(\d+(?:\.\d+)?)\s*(?:points?|pts?)";
pub const ADV_RECEIVES: &'static str = r"(?i)(?:receives?|gets?|earns?|scores?)\s*(?:a|an)?\s*([A-F][+-]?)";
pub const ADV_RATING: &'static str = r"(?i)(?:rating|performance):\s*([A-F][+-]?)";
pub const ADV_PERCENT: &'static str = r"(?i)(\d+(?:\.\d+)?)(?:%|\s*percent|\s*out\s*of\s*100)";
pub const ADV_FRACTION: &'static str = r"(\d+(?:\.\d+)?)\s*/\s*(\d+(?:\.\d+)?)";
pub const ADV_FINAL: &'static str = r"(?i)(?:final|overall|total).*?([A-F][+-]?|\d+(?:\.\d+)?%?)$";

/// The grade pattern families, tried in this order: labeled grades, labeled
/// scores, natural language, percentages, bare fractions, closing remarks.
pub open spec fn advanced_grade_patterns() -> Seq<Seq<char>> {
    seq![
        ADV_TOTAL_LABELED@,
        ADV_GRADE_LABELED@,
        ADV_SCORE_OUT_OF@,
        ADV_EARNED@,
        ADV_RECEIVES@,
        ADV_RATING@,
        ADV_PERCENT@,
        ADV_FRACTION@,
        ADV_FINAL@,
    ]
}

pub open spec fn pattern_views(p: Seq<&str>) -> Seq<Seq<char>> {
    p.map_values(|x: &str| x@)
}

/// Group 1 of the first pattern whose first match has one.
pub open spec fn first_group1(pats: Seq<Seq<char>>, t: Seq<char>) -> Option<Seq<char>>
    decreases pats.len(),
{
    if pats.len() == 0 {
        None
    } else {
        match group_text(first_match(pats[0], t), 1) {
            Some(g) => Some(g),
            None => first_group1(pats.drop_first(), t),
        }
    }
}

/// The grade that the plain patterns find.
pub open spec fn basic_grade(t: Seq<char>) -> Option<Seq<char>> {
    first_group1(basic_grade_patterns(), t)
}

/// Value of a numeral in hundredths, or `d` when it is not one.
pub open spec fn value_or(s: Seq<char>, d: nat) -> nat {
    match points_of(s) {
        Some(v) => v as nat,
        None => d,
    }
}

/// `num / den` as a whole percentage, rounded half up; nothing for a zero
/// denominator. Unreadable numerators count as 0, unreadable denominators
/// as 1.
pub open spec fn percent_of(num: Seq<char>, den: Seq<char>) -> Option<Seq<char>> {
    let n = value_or(num, 0);
    let d = value_or(den, 100);
    if d == 0 {
        None
    } else {
        Some(dec_str((200 * n + d) / (2 * d)))
    }
}

/// A grade written `N/M` (with an optional `%` after `M`) as a whole
/// percentage; any other grade as it stands.
pub open spec fn normalized_grade(g: Seq<char>) -> Option<Seq<char>> {
    if exists|k: int| single_slash(g, k) {
        let k = choose|k: int| single_slash(g, k);
        percent_of(g.subrange(0, k), strip_percents(g.subrange(k + 1, g.len() as int)))
    } else {
        Some(g)
    }
}

/// What one match of an advanced pattern yields: the percentage of groups
/// 1 and 2 when both are present, else its trimmed group 1, fractions
/// normalized to percentages.
pub open spec fn advanced_pick(m: Option<Seq<Option<Seq<char>>>>) -> Option<Seq<char>> {
    match group_text(m, 1) {
        Some(g) => if trim(g).len() > 0 {
            match group_text(m, 2) {
                Some(d) => percent_of(trim(g), d),
                None => normalized_grade(trim(g)),
            }
        } else {
            None
        },
        None => None,
    }
}

pub open spec fn advanced_among(pats: Seq<Seq<char>>, t: Seq<char>) -> Option<Seq<char>>
    decreases pats.len(),
{
    if pats.len() == 0 {
        None
    } else {
        match advanced_pick(first_match(pats[0], t)) {
            Some(g) => Some(g),
            None => advanced_among(pats.drop_first(), t),
        }
    }
}

/// The grade found by the first advanced family that yields one, else by
/// the plain patterns.
pub open spec fn advanced_grade(t: Seq<char>) -> Option<Seq<char>> {
    match advanced_among(advanced_grade_patterns(), t) {
        Some(g) => Some(g),
        None => basic_grade(t),
    }
}

pub(crate) fn first_group1_of(pats: &Vec<&str>, text: &str) -> (r: Option<String>)
    ensures
        r.deep_view() == first_group1(pattern_views(pats@), text@),
{
    let n: usize = pats.len();
    let mut i: usize = 0;
    assert(pattern_views(pats@).subrange(0, n as int) =~= pattern_views(pats@));
    while i < n
        invariant
            n == pats@.len(),
            i <= n,
            first_group1(pattern_views(pats@), text@) == first_group1(pattern_views(pats@).subrange(i as int, n as int), text@),
        decreases n - i,
    {
        assert(pattern_views(pats@).subrange(i as int, n as int).drop_first() =~= pattern_views(pats@).subrange(i + 1, n as int));
        assert(pattern_views(pats@).subrange(i as int, n as int)[0] == pats@[i as int]@);
        let g = first_group(pats[i], text, 1);
        if g.is_some() {
            return g;
        }
        i += 1;
    }
    None
}

/// The percentage text of a fraction, as `percent_of` states it.
fn percent_string(num: &Vec<char>, den: &Vec<char>) -> (r: Option<String>)
    ensures
        r.deep_view() == percent_of(num@, den@),
{
    let n: u64 = match parse_points(num) {
        Some(v) => v,
        None => 0,
    };
    let d: u64 = match parse_points(den) {
        Some(v) => v,
        None => 100,
    };
    if d == 0 {
        None
    } else {
        Some(decimal_string((200 * n + d) / (2 * d)))
    }
}

/// Where `g` holds its only `/`, if it holds exactly one.
fn slash_split(g: &Vec<char>) -> (r: Option<usize>)
    ensures
        match r {
            Some(k) => single_slash(g@, k as int),
            None => forall|q: int| !single_slash(g@, q),
        },
{
    let n: usize = g.len();
    let mut k: usize = 0;
    while k < n && g[k] != '/'
        invariant
            k <= n == g@.len(),
            forall|j: int| 0 <= j < k ==> g@[j] != '/',
        decreases n - k,
    {
        k += 1;
    }
    if k == n {
        proof {
            assert forall|q: int| !single_slash(g@, q) by {
                if single_slash(g@, q) {
                    assert(g@[q] != '/');
                }
            }
        }
        return None;
    }
    let mut m: usize = k + 1;
    while m < n && g[m] != '/'
        invariant
            k < m <= n == g@.len(),
            forall|j: int| k < j < m ==> g@[j] != '/',
        decreases n - m,
    {
        m += 1;
    }
    if m < n {
        proof {
            assert forall|q: int| !single_slash(g@, q) by {
                if single_slash(g@, q) {
                    if q != k {
                        assert(g@[k as int] != '/');
                    } else {
                        assert(g@[m as int] != '/');
                    }
                }
            }
        }
        return None;
    }
    Some(k)
}

fn strip_percent_chars(g: &Vec<char>) -> (r: Vec<char>)
    ensures
        r@ == strip_percents(g@),
{
    let n: usize = g.len();
    let mut e: usize = n;
    assert(g@.subrange(0, n as int) =~= g@);
    while e > 0 && g[e - 1] == '%'
        invariant
            e <= n == g@.len(),
            strip_percents(g@) == strip_percents(g@.subrange(0, e as int)),
        decreases e,
    {
        assert(g@.subrange(0, e as int).drop_last() =~= g@.subrange(0, e - 1));
        e -= 1;
    }
    assert(strip_percents(g@.subrange(0, e as int)) == g@.subrange(0, e as int));
    crate::text::sub_vec(g, 0, e)
}

fn normalized_grade_of(t: &Vec<char>) -> (r: Option<String>)
    ensures
        r.deep_view() == normalized_grade(t@),
{
    match slash_split(t) {
        Some(k) => {
            proof {
                assert forall|q: int| single_slash(t@, q) implies q == k by {
                    if q != k {
                        assert(t@[k as int] != '/');
                    }
                }
            }
            let n: usize = t.len();
            assert(k < n);
            let num = crate::text::sub_vec(t, 0, k);
            let den = strip_percent_chars(&crate::text::sub_vec(t, k + 1, n));
            percent_string(&num, &den)
        },
        None => Some(string_of(t.as_slice())),
    }
}

fn advanced_pick_of(pattern: &str, text: &str) -> (r: Option<String>)
    ensures
        r.deep_view() == advanced_pick(first_match(pattern@, text@)),
{
    let g1 = first_group(pattern, text, 1);
    match g1 {
        Some(g) => {
            let t = trim_vec(&chars_of(g.as_str()));
            if t.len() > 0 {
                match first_group(pattern, text, 2) {
                    Some(d) => percent_string(&t, &chars_of(d.as_str())),
                    None => normalized_grade_of(&t),
                }
            } else {
                None
            }
        },
        None => None,
    }
}

/// Letter grades and their percentages, in hundredths.
pub open spec fn letter_table() -> Seq<(Seq<char>, u64)> {
    seq![
        ("A+"@, 9700u64),
        ("A"@, 9300u64),
        ("A-"@, 9000u64),
        ("B+"@, 8700u64),
        ("B"@, 8300u64),
        ("B-"@, 8000u64),
        ("C+"@, 7700u64),
        ("C"@, 7300u64),
        ("C-"@, 7000u64),
        ("D+"@, 6700u64),
        ("D"@, 6300u64),
        ("D-"@, 6000u64),
        ("F"@, 5000u64),
    ]
}

pub open spec fn lookup(tbl: Seq<(Seq<char>, u64)>, key: Seq<char>) -> Option<u64>
    decreases tbl.len(),
{
    if tbl.len() == 0 {
        None
    } else if tbl[0].0 == key {
        Some(tbl[0].1)
    } else {
        lookup(tbl.drop_first(), key)
    }
}

pub open spec fn has_char(g: Seq<char>, c: char) -> bool {
    exists|j: int| 0 <= j < g.len() && g[j] == c
}

/// `g` holds exactly one `/`, at `k`.
pub open spec fn single_slash(g: Seq<char>, k: int) -> bool {
    0 <= k < g.len() && g[k] == '/' && forall|j: int| 0 <= j < g.len() && j != k ==> g[j] != '/'
}

/// `N/M` as a percentage of `M`, in hundredths; no value for a zero `M`.
pub open spec fn fraction_value(g: Seq<char>) -> Option<u64> {
    if exists|k: int| single_slash(g, k) {
        let k = choose|k: int| single_slash(g, k);
        match (points_of(g.subrange(0, k)), points_of(g.subrange(k + 1, g.len() as int))) {
            (Some(n), Some(d)) => if d > 0 {
                Some((10000 * n / (d as int)) as u64)
            } else {
                None
            },
            _ => None,
        }
    } else {
        None
    }
}

pub open spec fn strip_percents(g: Seq<char>) -> Seq<char>
    decreases g.len(),
{
    if g.len() > 0 && g.last() == '%' {
        strip_percents(g.drop_last())
    } else {
        g
    }
}

/// A grade on the 0-100 scale, in hundredths: a letter grade through the
/// table (after uppercasing), else a numeral, a fraction `N/M`, or a
/// percentage `N%`.
pub open spec fn grade_value(g: Seq<char>) -> Option<u64> {
    match lookup(letter_table(), upper_of(g)) {
        Some(v) => Some(v),
        None => match points_of(g) {
            Some(v) => Some(v),
            None => if has_char(g, '/') {
                fraction_value(g)
            } else if g.len() > 0 && g.last() == '%' {
                points_of(strip_percents(g))
            } else {
                None
            },
        },
    }
}

fn letter_value(key: &Vec<char>) -> (r: Option<u64>)
    ensures
        r == lookup(letter_table(), key@),
{
    let tbl: Vec<(&str, u64)> = vec![
        ("A+", 9700),
        ("A", 9300),
        ("A-", 9000),
        ("B+", 8700),
        ("B", 8300),
        ("B-", 8000),
        ("C+", 7700),
        ("C", 7300),
        ("C-", 7000),
        ("D+", 6700),
        ("D", 6300),
        ("D-", 6000),
        ("F", 5000),
    ];
    let ghost tv = tbl@.map_values(|e: (&str, u64)| (e.0@, e.1));
    assert(tv =~= letter_table());
    let n: usize = tbl.len();
    let mut i: usize = 0;
    assert(tv.subrange(0, n as int) =~= tv);
    while i < n
        invariant
            n == tbl@.len() == tv.len(),
            tv == tbl@.map_values(|e: (&str, u64)| (e.0@, e.1)),
            i <= n,
            lookup(letter_table(), key@) == lookup(tv.subrange(i as int, n as int), key@),
        decreases n - i,
    {
        assert(tv.subrange(i as int, n as int).drop_first() =~= tv.subrange(i + 1, n as int));
        assert(tv.subrange(i as int, n as int)[0] == (tbl@[i as int].0@, tbl@[i as int].1));
        let (name, v) = tbl[i];
        let cand = chars_of(name);
        if same_chars(&cand, key) {
            return Some(v);
        }
        i += 1;
    }
    None
}

fn fraction_of(g: &Vec<char>) -> (r: Option<u64>)
    ensures
        r == fraction_value(g@),
{
    let n: usize = g.len();
    let k = match slash_split(g) {
        Some(k) => k,
        None => return None,
    };
    proof {
        assert forall|q: int| single_slash(g@, q) implies q == k by {
            if q != k {
                assert(g@[k as int] != '/');
            }
        }
    }
    let num = crate::text::sub_vec(g, 0, k);
    let den = crate::text::sub_vec(g, k + 1, n);
    match (parse_points(&num), parse_points(&den)) {
        (Some(a), Some(b)) => if b > 0 {
            Some(10000 * a / b)
        } else {
            None
        },
        _ => None,
    }
}

/// A rubric score as plain values: criterion, points awarded, points
/// possible, comment.
pub type ScoreView = (Seq<char>, u64, u64, Option<Seq<char>>);

pub open spec fn score_view(s: RubricScore) -> ScoreView {
    (s.criterion@, s.points_awarded, s.points_possible, s.comments.deep_view())
}

pub open spec fn score_views(s: Seq<RubricScore>) -> Seq<ScoreView> {
    s.map_values(|x: RubricScore| score_view(x))
}

pub open spec fn awarded_sum(s: Seq<ScoreView>) -> int
    decreases s.len(),
{
    if s.len() == 0 {
        0
    } else {
        awarded_sum(s.drop_last()) + s.last().1
    }
}

/// Sum of the points awarded (saturating at `u64::MAX`); none for no scores.
pub open spec fn total_of(s: Seq<ScoreView>) -> Option<u64> {
    if s.len() == 0 {
        None
    } else if awarded_sum(s) >= u64::MAX {
        Some(u64::MAX)
    } else {
        Some(awarded_sum(s) as u64)
    }
}

impl ScoreValidator {
    /// The grade on the 0-100 scale, in hundredths.
    pub fn grade_to_numeric(grade: &str) -> (r: Option<u64>)
        ensures
            r == grade_value(grade@),
    {
        let g = chars_of(grade);
        let key = chars_of(crate::text::to_uppercase(grade).as_str());
        match letter_value(&key) {
            Some(v) => return Some(v),
            None => {},
        }
        match parse_points(&g) {
            Some(v) => return Some(v),
            None => {},
        }
        let n: usize = g.len();
        let mut k: usize = 0;
        while k < n && g[k] != '/'
            invariant
                k <= n == g@.len(),
                forall|j: int| 0 <= j < k ==> g@[j] != '/',
            decreases n - k,
        {
            k += 1;
        }
        if k < n {
            return fraction_of(&g);
        }
        if n > 0 && g[n - 1] == '%' {
            let mut e: usize = n;
            assert(g@.subrange(0, n as int) =~= g@);
            while e > 0 && g[e - 1] == '%'
                invariant
                    e <= n == g@.len(),
                    strip_percents(g@) == strip_percents(g@.subrange(0, e as int)),
                decreases e,
            {
                assert(g@.subrange(0, e as int).drop_last() =~= g@.subrange(0, e - 1));
                e -= 1;
            }
            assert(strip_percents(g@.subrange(0, e as int)) == g@.subrange(0, e as int));
            let body = crate::text::sub_vec(&g, 0, e);
            return parse_points(&body);
        }
        None
    }

    /// Sum of the points awarded, or none for an empty list.
    pub fn calculate_total(rubric_scores: &[RubricScore]) -> (r: Option<u64>)
        ensures
            r == total_of(score_views(rubric_scores@)),
    {
        let n: usize = rubric_scores.len();
        if n == 0 {
            return None;
        }
        let mut acc: u64 = 0;
        let mut i: usize = 0;
        while i < n
            invariant
                n == rubric_scores@.len(),
                i <= n,
                acc == (if awarded_sum(score_views(rubric_scores@.subrange(0, i as int))) >= u64::MAX {
                    u64::MAX as int
                } else {
                    awarded_sum(score_views(rubric_scores@.subrange(0, i as int)))
                }),
            decreases n - i,
        {
            assert(score_views(rubric_scores@.subrange(0, i + 1)).drop_last() =~= score_views(rubric_scores@.subrange(0, i as int)));
            acc = acc.saturating_add(rubric_scores[i].points_awarded);
            i += 1;
        }
        assert(rubric_scores@.subrange(0, n as int) =~= rubric_scores@);
        assert(score_views(rubric_scores@).len() > 0);
        Some(acc)
    }
    /// The first group 1 of the plain grade patterns, tried in order.
    pub fn extract_grade(text: &str) -> (r: Option<String>)
        ensures
            r.deep_view() == basic_grade(text@),
    {
        let pats: Vec<&str> = vec![GRADE_LABELED, GRADE_SCORE, GRADE_TRAILING, GRADE_FRACTION, GRADE_PERCENT];
        assert(pattern_views(pats@) =~= basic_grade_patterns());
        first_group1_of(&pats, text)
    }

    /// Tries the advanced grade families in order, the first that yields a
    /// grade winning; fractions become whole percentages. Falls back to the
    /// plain patterns.
    pub fn extract_grade_advanced(text: &str) -> (r: Option<String>)
        ensures
            r.deep_view() == advanced_grade(text@),
    {
        let pats: Vec<&str> = vec![
            ADV_TOTAL_LABELED,
            ADV_GRADE_LABELED,
            ADV_SCORE_OUT_OF,
            ADV_EARNED,
            ADV_RECEIVES,
            ADV_RATING,
            ADV_PERCENT,
            ADV_FRACTION,
            ADV_FINAL,
        ];
        assert(pattern_views(pats@) =~= advanced_grade_patterns());
        let n: usize = pats.len();
        let mut i: usize = 0;
        assert(pattern_views(pats@).subrange(0, n as int) =~= pattern_views(pats@));
        while i < n
            invariant
                n == pats@.len(),
                i <= n,
                pattern_views(pats@) == advanced_grade_patterns(),
                advanced_among(advanced_grade_patterns(), text@) == advanced_among(pattern_views(pats@).subrange(i as int, n as int), text@),
            decreases n - i,
        {
            assert(pattern_views(pats@).subrange(i as int, n as int).drop_first() =~= pattern_views(pats@).subrange(i + 1, n as int));
            assert(pattern_views(pats@).subrange(i as int, n as int)[0] == pats@[i as int]@);
            let g = advanced_pick_of(pats[i], text);
            if g.is_some() {
                return g;
            }
            i += 1;
        }
        Self::extract_grade(text)
    }
}

} // verus!
