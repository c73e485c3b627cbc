//! Consistency and quality checks on grader responses.
use vstd::prelude::*;
use crate::rubric::{advanced_scores, criteria_agree, expected_of};
use crate::extract::{
    advanced_grade, basic_grade, grade_value, score_view, score_views, total_of, value_or,
    ScoreValidator, ScoreView,
};
use crate::models::{RubricScore, ValidationIssue, ValidationResult};
use crate::pattern::{all_matches, captures_all, first_match, group_at, group_of_match};
use crate::text::{
    any_sub, contains_any, chars_of, contains, dec_str, lower_of, parse_points, points_of,
    push_decimal, string_of, trim, trim_vec,
};

verus! {

/// The verdict of comparing a grade with a rubric total; the penalty is in
/// percent of confidence.
pub struct GradeConsistencyResult {
    pub is_consistent: bool,
    pub severity: String,
    pub description: String,
    pub suggested_fix: Option<String>,
    pub confidence_penalty: u32,
}

pub open spec fn abs_diff(a: int, b: int) -> int {
    if a >= b {
        a - b
    } else {
        b - a
    }
}

/// Consistency of a grade with a total (hundredths): whether they agree,
/// the severity, and the confidence penalty. Within 2 points they agree;
/// within 5 the mismatch is a warning; beyond, an error. A grade that does
/// not convert to the 0-100 scale has no difference to check and is no
/// mismatch.
pub open spec fn consistency(grade: Seq<char>, total: u64) -> (bool, Seq<char>, u32) {
    match grade_value(grade) {
        Some(g) => {
            let d = abs_diff(g as int, total as int);
            if d <= 200 {
                (true, "INFO"@, 0u32)
            } else if d <= 500 {
                (false, "WARNING"@, 10u32)
            } else {
                (false, "ERROR"@, 30u32)
            }
        },
        None => (true, "INFO"@, 0u32),
    }
}

/// A grade and a total that are both present and disagree: the severity
/// and confidence penalty of the mismatch.
pub open spec fn mismatch_of(grade: Option<Seq<char>>, total: Option<u64>) -> Option<(Seq<char>, u32)> {
    match (grade, total) {
        (Some(g), Some(t)) => if !consistency(g, t).0 {
            Some((consistency(g, t).1, consistency(g, t).2))
        } else {
            None
        },
        _ => None,
    }
}

pub open spec fn mismatch_tag(m: Option<(Seq<char>, u32)>) -> Seq<(Seq<char>, Seq<char>)> {
    match m {
        Some((sev, _)) => seq![(GRADE_MISMATCH@, sev)],
        None => seq![],
    }
}

pub open spec fn mismatch_penalty(m: Option<(Seq<char>, u32)>) -> int {
    match m {
        Some((_, p)) => p as int,
        None => 0,
    }
}

pub open spec fn issue_tag(i: ValidationIssue) -> (Seq<char>, Seq<char>) {
    (i.issue_type@, i.severity@)
}

pub open spec fn issue_tags(v: Seq<ValidationIssue>) -> Seq<(Seq<char>, Seq<char>)> {
    v.map_values(|i: ValidationIssue| issue_tag(i))
}

pub open spec fn tag(kind: &str, severity: &str) -> Seq<(Seq<char>, Seq<char>)> {
    seq![(kind@, severity@)]
}

pub const MISSING_GRADE: &'static str = "MISSING_GRADE";
pub const MISSING_RUBRIC_SCORE: &'static str = "MISSING_RUBRIC_SCORE";
pub const GRADE_MISMATCH: &'static str = "GRADE_MISMATCH";
pub const RESPONSE_TOO_SHORT: &'static str = "RESPONSE_TOO_SHORT";
pub const AI_REFUSAL: &'static str = "AI_REFUSAL";
pub const MISSING_FEEDBACK: &'static str = "MISSING_FEEDBACK";
pub const WARNING: &'static str = "WARNING";
pub const ERROR: &'static str = "ERROR";

/// Points (hundredths) as a decimal number: `87`, `87.5`, `87.25`.
pub open spec fn points_text(v: u64) -> Seq<char> {
    let f = v % 100;
    if f == 0 {
        dec_str((v / 100) as nat)
    } else if f % 10 == 0 {
        dec_str((v / 100) as nat) + seq!['.'] + dec_str((f / 10) as nat)
    } else {
        dec_str((v / 100) as nat) + seq!['.'] + dec_str((f / 10) as nat) + dec_str((f % 10) as nat)
    }
}

pub fn points_string(v: u64) -> (r: String)
    ensures
        r@ == points_text(v),
{
    let mut out: Vec<char> = Vec::new();
    push_decimal(v / 100, &mut out);
    let f = v % 100;
    if f != 0 {
        out.push('.');
        push_decimal(f / 10, &mut out);
        if f % 10 != 0 {
            push_decimal(f % 10, &mut out);
        }
    }
    assert(out@ =~= points_text(v));
    string_of(out.as_slice())
}

fn make_issue(kind: &str, severity: &str, description: String, fix: &str) -> (r: ValidationIssue)
    ensures
        r.issue_type@ == kind@,
        r.severity@ == severity@,
        r.description == description,
        r.suggested_fix.deep_view() == Some(fix@),
{
    ValidationIssue {
        issue_type: String::from_str(kind),
        severity: String::from_str(severity),
        description,
        suggested_fix: Some(String::from_str(fix)),
    }
}

pub const BASIC_SCORE_LINE: &'static str = r"(?i)([^:\n]+):\s*(\d+(?:\.\d+)?)\s*(?:/\s*(\d+))?";

/// A `Criterion: N[/M]` line: trimmed criterion, points, and points
/// possible (`M`, else the points themselves).
pub open spec fn basic_score_of(g: Seq<Option<Seq<char>>>) -> Option<ScoreView> {
    match (group_at(g, 1), group_at(g, 2)) {
        (Some(c), Some(p)) => {
            let pa = value_or(p, 0) as u64;
            let pp = match group_at(g, 3) {
                Some(x) => match points_of(x) {
                    Some(v) => v,
                    None => pa,
                },
                None => pa,
            };
            Some((trim(c), pa, pp, None))
        },
        _ => None,
    }
}

pub open spec fn basic_scores(ms: Seq<Seq<Option<Seq<char>>>>) -> Seq<ScoreView>
    decreases ms.len(),
{
    if ms.len() == 0 {
        seq![]
    } else {
        match basic_score_of(ms.last()) {
            Some(v) => basic_scores(ms.drop_last()).push(v),
            None => basic_scores(ms.drop_last()),
        }
    }
}

fn numeral_or(s: &String, d: u64) -> (r: u64)
    ensures
        r == value_or(s@, d as nat),
        d <= crate::text::MAX_POINTS ==> r <= crate::text::MAX_POINTS,
{
    match parse_points(&chars_of(s.as_str())) {
        Some(v) => v,
        None => d,
    }
}

pub const REFUSAL_CANNOT: &'static str = r"(?i)I cannot";
pub const REFUSAL_UNABLE: &'static str = r"(?i)I'm unable to";
pub const REFUSAL_AI: &'static str = r"(?i)as an AI";
pub const REFUSAL_ACCESS: &'static str = r"(?i)I don't have access";
pub const REFUSAL_INFORMATION: &'static str = r"(?i)insufficient information";

/// Patterns of a model that declines to grade.
pub open spec fn refusal_patterns() -> Seq<Seq<char>> {
    seq![REFUSAL_CANNOT@, REFUSAL_UNABLE@, REFUSAL_AI@, REFUSAL_ACCESS@, REFUSAL_INFORMATION@]
}

/// Words that mark structured feedback, lower case.
pub open spec fn feedback_words() -> Seq<Seq<char>> {
    seq!["strengths"@, "weaknesses"@, "improvements"@, "feedback"@]
}

/// Some refusal pattern matches the text.
pub open spec fn is_refusal(t: Seq<char>) -> bool {
    exists|i: int| 0 <= i < refusal_patterns().len() && first_match(#[trigger] refusal_patterns()[i], t).is_some()
}

/// The quality issues of a response, in order: fewer than 100 characters,
/// a refusal, no feedback section.
pub open spec fn quality_tags(t: Seq<char>) -> Seq<(Seq<char>, Seq<char>)> {
    (if t.len() < 100 {
        tag(RESPONSE_TOO_SHORT, WARNING)
    } else {
        seq![]
    }) + (if is_refusal(t) {
        tag(AI_REFUSAL, ERROR)
    } else {
        seq![]
    }) + (if !any_sub(lower_of(t), feedback_words()) {
        tag(MISSING_FEEDBACK, WARNING)
    } else {
        seq![]
    })
}

/// Some found score stands for the expected criterion `e`.
pub open spec fn matched(found: Seq<ScoreView>, e: Seq<char>) -> bool {
    exists|i: int| 0 <= i < found.len() && criteria_agree(#[trigger] found[i].0, e)
}

/// Expected criteria that no found score stands for.
pub open spec fn missing_count(found: Seq<ScoreView>, es: Seq<Seq<char>>) -> nat
    decreases es.len(),
{
    if es.len() == 0 {
        0
    } else {
        missing_count(found, es.drop_last()) + if matched(found, es.last()) {
            0nat
        } else {
            1nat
        }
    }
}

/// The expected criteria that no found score stands for, in order.
pub open spec fn missing_names(found: Seq<ScoreView>, es: Seq<Seq<char>>) -> Seq<Seq<char>>
    decreases es.len(),
{
    if es.len() == 0 {
        seq![]
    } else if matched(found, es.last()) {
        missing_names(found, es.drop_last())
    } else {
        missing_names(found, es.drop_last()).push(es.last())
    }
}

proof fn lemma_missing_names_len(found: Seq<ScoreView>, es: Seq<Seq<char>>)
    ensures
        missing_names(found, es).len() == missing_count(found, es),
    decreases es.len(),
{
    if es.len() > 0 {
        lemma_missing_names_len(found, es.drop_last());
    }
}

pub const MISSING_PREFIX: &'static str = "Missing score for criterion: ";

/// The expected criteria that the advanced extraction left unscored.
pub open spec fn advanced_missing_names(t: Seq<char>, e: Option<&[String]>) -> Seq<Seq<char>> {
    match expected_names(e) {
        Some(es) => missing_names(advanced_scores(t, expected_of(e)), es),
        None => seq![],
    }
}

/// Where the missing-criterion issues start: after a missing-grade issue.
pub open spec fn missing_offset(t: Seq<char>) -> int {
    if advanced_grade(t).is_none() {
        1
    } else {
        0
    }
}

pub open spec fn repeat_tag(kind: &str, severity: &str, n: nat) -> Seq<(Seq<char>, Seq<char>)> {
    Seq::new(n, |i: int| (kind@, severity@))
}

pub open spec fn expected_names(e: Option<&[String]>) -> Option<Seq<Seq<char>>> {
    match e {
        Some(s) => Some(s@.map_values(|x: String| x@)),
        None => None,
    }
}

/// The rubric total of the advanced extraction.
pub open spec fn advanced_total(t: Seq<char>, e: Option<&[String]>) -> Option<u64> {
    total_of(advanced_scores(t, expected_of(e)))
}

pub open spec fn advanced_missing(t: Seq<char>, e: Option<&[String]>) -> nat {
    match expected_names(e) {
        Some(es) => missing_count(advanced_scores(t, expected_of(e)), es),
        None => 0,
    }
}

/// The grade and the rubric total are both present and disagree.
pub open spec fn advanced_mismatch(t: Seq<char>, e: Option<&[String]>) -> Option<(Seq<char>, u32)> {
    mismatch_of(advanced_grade(t), advanced_total(t, e))
}

/// The issues of the advanced validation, in order: missing grade, missing
/// criteria, grade mismatch, then the quality issues.
pub open spec fn advanced_tags(t: Seq<char>, e: Option<&[String]>) -> Seq<(Seq<char>, Seq<char>)> {
    (if advanced_grade(t).is_none() {
        tag(MISSING_GRADE, WARNING)
    } else {
        seq![]
    }) + repeat_tag(MISSING_RUBRIC_SCORE, ERROR, advanced_missing(t, e)) + (match advanced_mismatch(t, e) {
        Some((sev, _)) => seq![(GRADE_MISMATCH@, sev)],
        None => seq![],
    }) + quality_tags(t)
}

/// Confidence points lost, in percent: 15 for a missing grade, 20 per
/// missing criterion, 10 or 30 for a mismatch, 10 per quality issue.
pub open spec fn advanced_penalty(t: Seq<char>, e: Option<&[String]>) -> int {
    (if advanced_grade(t).is_none() {
        15int
    } else {
        0int
    }) + 20 * advanced_missing(t, e) + (match advanced_mismatch(t, e) {
        Some((_, p)) => p as int,
        None => 0int,
    }) + 10 * quality_tags(t).len()
}

/// Confidence in percent: 100 less the penalties, floored at 0.
pub open spec fn advanced_confidence(t: Seq<char>, e: Option<&[String]>) -> int {
    if advanced_penalty(t, e) >= 100 {
        0
    } else {
        100 - advanced_penalty(t, e)
    }
}

/// A response under 100 characters is always reported as too short,
/// whatever else it holds.
pub proof fn lemma_short_response_flagged(t: Seq<char>, e: Option<&[String]>)
    requires
        t.len() < 100,
    ensures
        advanced_tags(t, e).contains((RESPONSE_TOO_SHORT@, WARNING@)),
{
    let pre = (if advanced_grade(t).is_none() {
        tag(MISSING_GRADE, WARNING)
    } else {
        seq![]
    }) + repeat_tag(MISSING_RUBRIC_SCORE, ERROR, advanced_missing(t, e)) + (match advanced_mismatch(t, e) {
        Some((sev, _)) => seq![(GRADE_MISMATCH@, sev)],
        None => seq![],
    });
    assert(quality_tags(t)[0] == (RESPONSE_TOO_SHORT@, WARNING@));
    assert(advanced_tags(t, e)[pre.len() as int] == quality_tags(t)[0]);
}

/// A response that a refusal pattern matches is reported as a refusal,
/// and its confidence is at most 90%.
pub proof fn lemma_refusal_flagged(t: Seq<char>, e: Option<&[String]>)
    requires
        is_refusal(t),
    ensures
        advanced_tags(t, e).contains((AI_REFUSAL@, ERROR@)),
        advanced_confidence(t, e) <= 90,
{
    let pre = (if advanced_grade(t).is_none() {
        tag(MISSING_GRADE, WARNING)
    } else {
        seq![]
    }) + repeat_tag(MISSING_RUBRIC_SCORE, ERROR, advanced_missing(t, e)) + (match advanced_mismatch(t, e) {
        Some((sev, _)) => seq![(GRADE_MISMATCH@, sev)],
        None => seq![],
    });
    let short = if t.len() < 100 {
        tag(RESPONSE_TOO_SHORT, WARNING)
    } else {
        seq![]
    };
    assert(quality_tags(t)[short.len() as int] == (AI_REFUSAL@, ERROR@));
    assert(advanced_tags(t, e)[(pre.len() + short.len()) as int] == (AI_REFUSAL@, ERROR@));
    assert(quality_tags(t).len() >= 1);
}

/// Grade against rubric total: when the extracted grade converts to the
/// 0-100 scale and the rubric scores give a total, a grade mismatch is
/// reported exactly when the two differ by more than 2 points, with
/// severity `WARNING` up to 5 points and `ERROR` beyond.
pub proof fn lemma_mismatch_beyond_two_points(t: Seq<char>, e: Option<&[String]>)
    requires
        advanced_grade(t).is_some(),
        grade_value(advanced_grade(t).unwrap()).is_some(),
        advanced_total(t, e).is_some(),
    ensures
        advanced_mismatch(t, e).is_some() <==> abs_diff(
            grade_value(advanced_grade(t).unwrap()).unwrap() as int,
            advanced_total(t, e).unwrap() as int,
        ) > 200,
        advanced_mismatch(t, e).is_some() ==> advanced_mismatch(t, e).unwrap().0 == (if abs_diff(
            grade_value(advanced_grade(t).unwrap()).unwrap() as int,
            advanced_total(t, e).unwrap() as int,
        ) <= 500 {
            "WARNING"@
        } else {
            "ERROR"@
        }),
{
}

fn lower_by(c: u32, p: u32) -> (r: u32)
    ensures
        r == (if p >= c {
            0
        } else {
            c - p
        }),
{
    if p >= c {
        0
    } else {
        c - p
    }
}

impl ScoreValidator {
    /// The full validation: grade, rubric completeness against the expected
    /// criteria, grade consistency and response quality.
    pub fn advanced_validate_and_extract(raw_response: &str, expected_rubric: Option<&[String]>) -> (r: ValidationResult)
        ensures
            r.extracted_grade.deep_view() == advanced_grade(raw_response@),
            r.calculated_total == advanced_total(raw_response@, expected_rubric),
            issue_tags(r.issues@) == advanced_tags(raw_response@, expected_rubric),
            forall|q: int|
                0 <= q < advanced_missing_names(raw_response@, expected_rubric).len() ==> (#[trigger] r.issues@[missing_offset(
                    raw_response@,
                ) + q]).description@ == MISSING_PREFIX@ + advanced_missing_names(raw_response@, expected_rubric)[q],
            r.confidence == advanced_confidence(raw_response@, expected_rubric),
            r.is_valid == (r.confidence > 50),
    {
        let ghost t = raw_response@;
        let mut issues: Vec<ValidationIssue> = Vec::new();
        let mut confidence: u32 = 100;
        let extracted_grade = Self::extract_grade_advanced(raw_response);
        if extracted_grade.is_none() {
            issues.push(make_issue(
                MISSING_GRADE,
                WARNING,
                String::from_str("Could not extract overall grade using any method"),
                "Ensure response contains clear grade indication",
            ));
            confidence = lower_by(confidence, 15);
        }
        let ghost grade_tags = issue_tags(issues@);
        let ghost grade_penalty: int = if advanced_grade(t).is_none() { 15 } else { 0 };
        assert(confidence == (if grade_penalty >= 100 { 0 } else { 100 - grade_penalty }));
        let rubric_scores = Self::extract_rubric_scores_advanced(raw_response, expected_rubric);
        let ghost found = score_views(rubric_scores@);
        let calculated_total = Self::calculate_total(rubric_scores.as_slice());
        match expected_rubric {
            Some(expected) => {
                let ghost es = expected@.map_values(|x: String| x@);
                let n: usize = expected.len();
                let nf: usize = rubric_scores.len();
                let mut i: usize = 0;
                while i < n
                    invariant
                        n == expected@.len() == es.len(),
                        es == expected@.map_values(|x: String| x@),
                        nf == rubric_scores@.len(),
                        found == score_views(rubric_scores@),
                        i <= n,
                        issue_tags(issues@) == grade_tags + repeat_tag(MISSING_RUBRIC_SCORE, ERROR, missing_count(found, es.subrange(0, i as int))),
                        grade_tags.len() == missing_offset(t),
                        forall|q: int|
                            0 <= q < missing_names(found, es.subrange(0, i as int)).len() ==> (#[trigger] issues@[grade_tags.len()
                                + q]).description@ == MISSING_PREFIX@ + missing_names(found, es.subrange(0, i as int))[q],
                        confidence == (if grade_penalty + 20 * missing_count(found, es.subrange(0, i as int)) >= 100 {
                            0
                        } else {
                            100 - grade_penalty - 20 * missing_count(found, es.subrange(0, i as int))
                        }),
                        grade_penalty >= 0,
                    decreases n - i,
                {
                    assert(es.subrange(0, i + 1).drop_last() =~= es.subrange(0, i as int));
                    assert(es.subrange(0, i + 1).last() == expected@[i as int]@);
                    let mut hit = false;
                    let mut k: usize = 0;
                    while k < nf && !hit
                        invariant
                            nf == rubric_scores@.len(),
                            found == score_views(rubric_scores@),
                            k <= nf,
                            i < n == expected@.len(),
                            hit ==> matched(found, expected@[i as int]@),
                            !hit ==> forall|q: int| 0 <= q < k ==> !criteria_agree(#[trigger] found[q].0, expected@[i as int]@),
                        decreases nf - k + (if hit { 0int } else { 1int }),
                    {
                        if Self::criteria_match(rubric_scores[k].criterion.as_str(), expected[i].as_str()) {
                            hit = true;
                            assert(criteria_agree(found[k as int].0, expected@[i as int]@));
                        }
                        k += 1;
                    }
                    if !hit {
                        let mut desc = String::from_str(MISSING_PREFIX);
                        desc.append(expected[i].as_str());
                        let iss = make_issue(MISSING_RUBRIC_SCORE, ERROR, desc, "Ensure all rubric criteria are scored");
                        let ghost old_issues = issues@;
                        issues.push(iss);
                        confidence = lower_by(confidence, 20);
                        let ghost m = missing_count(found, es.subrange(0, i as int));
                        assert(!matched(found, expected@[i as int]@));
                        assert(missing_count(found, es.subrange(0, i + 1)) == m + 1);
                        assert(issue_tags(issues@) =~= issue_tags(old_issues).push((MISSING_RUBRIC_SCORE@, ERROR@)));
                        assert(repeat_tag(MISSING_RUBRIC_SCORE, ERROR, m + 1) =~= repeat_tag(MISSING_RUBRIC_SCORE, ERROR, m).push((MISSING_RUBRIC_SCORE@, ERROR@)));
                        assert(issue_tags(issues@) =~= grade_tags + repeat_tag(MISSING_RUBRIC_SCORE, ERROR, missing_count(found, es.subrange(0, i + 1))));
                        proof {
                            let names = missing_names(found, es.subrange(0, i as int));
                            lemma_missing_names_len(found, es.subrange(0, i as int));
                            assert(missing_names(found, es.subrange(0, i + 1)) == names.push(expected@[i as int]@));
                            assert(old_issues.len() == grade_tags.len() + names.len());
                            assert forall|q: int| 0 <= q < names.len() + 1 implies (#[trigger] issues@[grade_tags.len() + q]).description@
                                == MISSING_PREFIX@ + names.push(expected@[i as int]@)[q] by {
                                if q < names.len() {
                                    assert(issues@[grade_tags.len() + q] == old_issues[grade_tags.len() + q]);
                                } else {
                                    assert(issues@[grade_tags.len() + q] == iss);
                                }
                            }
                        }
                    } else {
                        assert(repeat_tag(MISSING_RUBRIC_SCORE, ERROR, missing_count(found, es.subrange(0, i + 1))) =~= repeat_tag(MISSING_RUBRIC_SCORE, ERROR, missing_count(found, es.subrange(0, i as int))));
                    }
                    i += 1;
                }
                assert(es.subrange(0, n as int) =~= es);
                assert(advanced_missing_names(t, expected_rubric) == missing_names(found, es));
            },
            None => {
                assert(repeat_tag(MISSING_RUBRIC_SCORE, ERROR, 0) =~= seq![]);
                assert(grade_tags + seq![] =~= grade_tags);
            },
        }
        let ghost criteria_penalty: int = grade_penalty + 20 * advanced_missing(t, expected_rubric);
        let ghost missing_issues = issues@;
        assert(forall|q: int|
            0 <= q < advanced_missing_names(t, expected_rubric).len() ==> (#[trigger] missing_issues[missing_offset(t) + q]).description@
                == MISSING_PREFIX@ + advanced_missing_names(t, expected_rubric)[q]);
        assert(issue_tags(issues@) == grade_tags + repeat_tag(MISSING_RUBRIC_SCORE, ERROR, advanced_missing(t, expected_rubric)));
        assert(confidence == (if criteria_penalty >= 100 { 0 } else { 100 - criteria_penalty }));
        let ghost criteria_tags = issue_tags(issues@);
        match (&extracted_grade, calculated_total) {
            (Some(grade), Some(total)) => {
                let vr = Self::validate_grade_consistency(grade.as_str(), total);
                if !vr.is_consistent {
                    let p = vr.confidence_penalty;
                    issues.push(ValidationIssue {
                        issue_type: String::from_str(GRADE_MISMATCH),
                        severity: vr.severity,
                        description: vr.description,
                        suggested_fix: vr.suggested_fix,
                    });
                    confidence = lower_by(confidence, p);
                }
            },
            _ => {},
        }
        assert(issues@.subrange(0, missing_issues.len() as int) =~= missing_issues);
        let ghost consistency_penalty: int = criteria_penalty + match advanced_mismatch(t, expected_rubric) {
            Some((_, p)) => p as int,
            None => 0int,
        };
        assert(issue_tags(issues@) =~= criteria_tags + match advanced_mismatch(t, expected_rubric) {
            Some((sev, _)) => seq![(GRADE_MISMATCH@, sev)],
            None => seq![],
        });
        assert(confidence == (if consistency_penalty >= 100 { 0 } else { 100 - consistency_penalty }));
        let quality = Self::validate_response_quality(raw_response);
        let nq: usize = quality.len();
        let mut qi: usize = 0;
        let mut rest = quality;
        let ghost qs = rest@;
        let ghost consistency_tags = issue_tags(issues@);
        while qi < nq
            invariant
                nq == qs.len(),
                qi <= nq,
                rest@ == qs.subrange(qi as int, nq as int),
                issue_tags(issues@) == consistency_tags + issue_tags(qs.subrange(0, qi as int)),
                missing_issues.len() <= issues@.len(),
                issues@.subrange(0, missing_issues.len() as int) == missing_issues,
                confidence == (if consistency_penalty + 10 * qi >= 100 { 0 } else { 100 - consistency_penalty - 10 * qi }),
                consistency_penalty >= 0,
            decreases nq - qi,
        {
            let item = rest.remove(0);
            assert(item == qs[qi as int]);
            let ghost old_issues = issues@;
            issues.push(item);
            assert(issue_tags(issues@) =~= issue_tags(old_issues).push(issue_tag(item)));
            confidence = lower_by(confidence, 10);
            assert(issue_tags(qs.subrange(0, qi + 1)) =~= issue_tags(qs.subrange(0, qi as int)).push(issue_tag(item)));
            assert(issue_tags(issues@) =~= consistency_tags + issue_tags(qs.subrange(0, qi + 1)));
            assert(issues@.subrange(0, missing_issues.len() as int) =~= missing_issues);
            qi += 1;
        }
        assert(qs.subrange(0, nq as int) =~= qs);
        assert(issue_tags(qs).len() == nq);
        assert(issue_tags(issues@) =~= advanced_tags(t, expected_rubric));
        assert forall|q: int|
            0 <= q < advanced_missing_names(t, expected_rubric).len() implies (#[trigger] issues@[missing_offset(t) + q]).description@
                == MISSING_PREFIX@ + advanced_missing_names(t, expected_rubric)[q] by {
            lemma_missing_names_len(advanced_scores(t, expected_of(expected_rubric)), match expected_names(expected_rubric) {
                Some(es) => es,
                None => seq![],
            });
            assert(issues@[missing_offset(t) + q] == issues@.subrange(0, missing_issues.len() as int)[missing_offset(t) + q]);
        }
        ValidationResult {
            is_valid: confidence > 50,
            confidence,
            issues,
            extracted_grade,
            calculated_total,
        }
    }

    /// Checks length, refusals and the presence of feedback.
    pub fn validate_response_quality(text: &str) -> (r: Vec<ValidationIssue>)
        ensures
            issue_tags(r@) == quality_tags(text@),
    {
        let mut issues: Vec<ValidationIssue> = Vec::new();
        if text.unicode_len() < 100 {
            issues.push(make_issue(
                RESPONSE_TOO_SHORT,
                WARNING,
                String::from_str("Response appears too short for comprehensive grading"),
                "Increase max_tokens or ask for more detailed response",
            ));
        }
        let refusals: Vec<&str> = vec![REFUSAL_CANNOT, REFUSAL_UNABLE, REFUSAL_AI, REFUSAL_ACCESS, REFUSAL_INFORMATION];
        assert(crate::text::strs_view(refusals@) =~= refusal_patterns());
        let nr: usize = refusals.len();
        let mut refused = false;
        let mut i: usize = 0;
        while i < nr && !refused
            invariant
                nr == refusals@.len(),
                crate::text::strs_view(refusals@) == refusal_patterns(),
                i <= nr,
                refused ==> is_refusal(text@),
                !refused ==> forall|k: int| 0 <= k < i ==> first_match(#[trigger] refusal_patterns()[k], text@).is_none(),
            decreases nr - i + (if refused { 0int } else { 1int }),
        {
            assert(refusal_patterns()[i as int] == refusals@[i as int]@);
            if crate::pattern::captures(refusals[i], text).is_some() {
                refused = true;
            }
            i += 1;
        }
        if refused {
            issues.push(make_issue(
                AI_REFUSAL,
                ERROR,
                String::from_str("AI model refused to provide grading"),
                "Adjust prompt to be more specific and clear",
            ));
        }
        let lowered = crate::text::lower_chars(&chars_of(text));
        let indicators: Vec<&str> = vec!["strengths", "weaknesses", "improvements", "feedback"];
        assert(crate::text::strs_view(indicators@) =~= feedback_words());
        if !contains_any(&lowered, &indicators) {
            issues.push(make_issue(
                MISSING_FEEDBACK,
                WARNING,
                String::from_str("Response lacks structured feedback sections"),
                "Request explicit strengths and improvement areas",
            ));
        }
        assert(issue_tags(issues@) =~= quality_tags(text@));
        issues
    }

    /// Compares a grade with a rubric total (both on the 0-100 scale).
    pub fn validate_grade_consistency(grade: &str, total: u64) -> (r: GradeConsistencyResult)
        ensures
            (r.is_consistent, r.severity@, r.confidence_penalty) == consistency(grade@, total),
            r.is_consistent <==> r.suggested_fix.is_none(),
    {
        match Self::grade_to_numeric(grade) {
            Some(g) => {
                let d = if g >= total { g - total } else { total - g };
                if d <= 200 {
                    GradeConsistencyResult {
                        is_consistent: true,
                        severity: String::from_str("INFO"),
                        description: String::from_str("Grade and total are consistent"),
                        suggested_fix: None,
                        confidence_penalty: 0,
                    }
                } else {
                    let mut desc = if d <= 500 {
                        String::from_str("Minor inconsistency: grade ")
                    } else {
                        String::from_str("Major inconsistency: grade ")
                    };
                    desc.append(points_string(g).as_str());
                    desc.append(" vs total ");
                    desc.append(points_string(total).as_str());
                    if d <= 500 {
                        GradeConsistencyResult {
                            is_consistent: false,
                            severity: String::from_str("WARNING"),
                            description: desc,
                            suggested_fix: Some(String::from_str("Verify calculation accuracy")),
                            confidence_penalty: 10,
                        }
                    } else {
                        GradeConsistencyResult {
                            is_consistent: false,
                            severity: String::from_str("ERROR"),
                            description: desc,
                            suggested_fix: Some(String::from_str("Recalculate or use total from rubric scores")),
                            confidence_penalty: 30,
                        }
                    }
                }
            },
            None => GradeConsistencyResult {
                is_consistent: true,
                severity: String::from_str("INFO"),
                description: String::from_str("Grade is not on a numeric scale; consistency not checked"),
                suggested_fix: None,
                confidence_penalty: 0,
            },
        }
    }

    /// Every `Criterion: N[/M]` match, in order.
    pub fn extract_rubric_scores(text: &str) -> (r: Vec<RubricScore>)
        ensures
            score_views(r@) == basic_scores(all_matches(BASIC_SCORE_LINE@, text@)),
    {
        let ms = captures_all(BASIC_SCORE_LINE, text);
        let ghost mv = ms.deep_view();
        let n: usize = ms.len();
        let mut out: Vec<RubricScore> = Vec::new();
        let mut i: usize = 0;
        while i < n
            invariant
                n == ms@.len() == mv.len(),
                mv == ms.deep_view(),
                i <= n,
                score_views(out@) == basic_scores(mv.subrange(0, i as int)),
            decreases n - i,
        {
            assert(mv.subrange(0, i + 1).drop_last() =~= mv.subrange(0, i as int));
            assert(mv[i as int] == ms@[i as int].deep_view());
            let g = &ms[i];
            let c = group_of_match(g, 1);
            let p = group_of_match(g, 2);
            match (c, p) {
                (Some(c), Some(p)) => {
                    let pa = numeral_or(&p, 0);
                    let pp = match group_of_match(g, 3) {
                        Some(x) => match parse_points(&chars_of(x.as_str())) {
                            Some(v) => v,
                            None => pa,
                        },
                        None => pa,
                    };
                    let crit = string_of(trim_vec(&chars_of(c.as_str())).as_slice());
                    let ghost before = out@;
                    let sc = RubricScore { criterion: crit, points_awarded: pa, points_possible: pp, comments: None };
                    out.push(sc);
                    assert(score_views(out@) =~= score_views(before).push(score_view(sc)));
                },
                _ => {},
            }
            i += 1;
        }
        assert(mv.subrange(0, n as int) =~= mv);
        out
    }

    /// The plain validation: a missing grade costs 20 points of confidence;
    /// a grade 2 to 5 points from the rubric total is a warning costing 10,
    /// beyond 5 an error costing 30.
    pub fn validate_and_extract(raw_response: &str) -> (r: ValidationResult)
        ensures
            r.extracted_grade.deep_view() == basic_grade(raw_response@),
            r.calculated_total == total_of(basic_scores(all_matches(BASIC_SCORE_LINE@, raw_response@))),
            issue_tags(r.issues@) == (if basic_grade(raw_response@).is_none() {
                tag(MISSING_GRADE, WARNING)
            } else {
                seq![]
            }) + mismatch_tag(mismatch_of(basic_grade(raw_response@), r.calculated_total)),
            r.confidence == 100 - (if basic_grade(raw_response@).is_none() {
                20int
            } else {
                0int
            }) - mismatch_penalty(mismatch_of(basic_grade(raw_response@), r.calculated_total)),
            r.is_valid == (r.confidence > 50),
    {
        let mut issues: Vec<ValidationIssue> = Vec::new();
        let mut confidence: u32 = 100;
        let extracted_grade = Self::extract_grade(raw_response);
        if extracted_grade.is_none() {
            issues.push(make_issue(
                MISSING_GRADE,
                WARNING,
                String::from_str("Could not extract overall grade from response"),
                "Look for grade patterns like A+, 85/100, etc.",
            ));
            confidence = confidence - 20;
        }
        let ghost grade_tags = issue_tags(issues@);
        let rubric_scores = Self::extract_rubric_scores(raw_response);
        let calculated_total = Self::calculate_total(rubric_scores.as_slice());
        match (&extracted_grade, calculated_total) {
            (Some(grade), Some(total)) => {
                let vr = Self::validate_grade_consistency(grade.as_str(), total);
                if !vr.is_consistent {
                    let p = vr.confidence_penalty;
                    let ghost old_issues = issues@;
                    let iss = ValidationIssue {
                        issue_type: String::from_str(GRADE_MISMATCH),
                        severity: vr.severity,
                        description: vr.description,
                        suggested_fix: vr.suggested_fix,
                    };
                    issues.push(iss);
                    assert(issue_tags(issues@) =~= issue_tags(old_issues).push(issue_tag(iss)));
                    confidence = confidence - p;
                }
            },
            _ => {},
        }
        assert(issue_tags(issues@) =~= grade_tags + mismatch_tag(mismatch_of(basic_grade(raw_response@), calculated_total)));
        ValidationResult {
            is_valid: confidence > 50,
            confidence,
            issues,
            extracted_grade,
            calculated_total,
        }
    }
}

} // verus!
