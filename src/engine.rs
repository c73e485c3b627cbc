//! The grading engine: reading a grade, a total and feedback out of a
//! grader response, and assembling one grading run.
use vstd::prelude::*;
use crate::extract::{score_views, ScoreValidator};
use crate::models::{GradingResult};
use crate::pattern::{first_group, first_match, group_text};
use crate::rubric::advanced_scores;
use crate::tiers::{opt_view, tier_prompt, TierProcessor};
use crate::text::{
    any_sub, chars_of, contains_any, digits_upto, is_digit, all_digits, digits_val, join_space,
    join_words, lines, lower_of, lower_chars, parse_points, points_of, split_lines, string_of,
    strs_view, trim, trim_vec,
};

verus! {

/// How much context a grading prompt carries.
#[derive(Clone, Copy, Debug, PartialEq, Eq, Structural)]
pub enum GradingTier {
    Basic,
    Enhanced,
    AssignmentAware,
}

pub open spec fn tier_name(t: GradingTier) -> Seq<char> {
    match t {
        GradingTier::Basic => "basic"@,
        GradingTier::Enhanced => "enhanced"@,
        GradingTier::AssignmentAware => "assignment-aware"@,
    }
}

impl GradingTier {
    /// `basic`, `enhanced` or `assignment-aware`.
    pub fn to_string(&self) -> (r: String)
        ensures
            r@ == tier_name(*self),
    {
        match self {
            GradingTier::Basic => String::from_str("basic"),
            GradingTier::Enhanced => String::from_str("enhanced"),
            GradingTier::AssignmentAware => String::from_str("assignment-aware"),
        }
    }
}

/// A submission to grade; `imported_at` is in seconds since the Unix epoch.
pub struct Submission {
    pub id: String,
    pub project_id: String,
    pub original_filename: String,
    pub file_hash: String,
    pub file_type: String,
    pub word_count: u32,
    pub status: String,
    pub extracted_text: Option<String>,
    pub imported_at: i64,
}

pub struct GradingEngine {}

/// A request to the text-generation capability; `temperature` is in
/// hundredths.
pub struct LLMRequest {
    pub prompt: String,
    pub system_prompt: Option<String>,
    pub temperature: u32,
    pub max_tokens: Option<u32>,
}

/// Grading asks for near-deterministic output: temperature 0.1.
pub const GRADING_TEMPERATURE: u32 = 10;

/// The token budget of one grading reply.
pub const GRADING_MAX_TOKENS: u32 = 2000;

pub const OVERALL_GRADE: &'static str = r"(?i)(?:overall\s+)?grade:\s*([A-F][+-]?)";
pub const SCORE_PERCENT: &'static str = r"(?i)(?:score|total):\s*(\d+)(?:/\d+|%)";
pub const TOTAL_POINTS: &'static str = r"(?i)(?:total|score|points?):\s*(\d+(?:\.\d+)?)(?:/\d+)?";

/// A run of ASCII digits read as a `u32`.
pub open spec fn u32_of(s: Seq<char>) -> Option<u32> {
    if s.len() > 0 && all_digits(s) && digits_val(s) <= u32::MAX {
        Some(digits_val(s) as u32)
    } else {
        None
    }
}

/// The letter grade of a whole percentage.
pub open spec fn letter_for(p: u32) -> Seq<char> {
    if 97 <= p && p <= 100 {
        "A+"@
    } else if 93 <= p && p <= 96 {
        "A"@
    } else if 90 <= p && p <= 92 {
        "A-"@
    } else if 87 <= p && p <= 89 {
        "B+"@
    } else if 83 <= p && p <= 86 {
        "B"@
    } else if 80 <= p && p <= 82 {
        "B-"@
    } else if 77 <= p && p <= 79 {
        "C+"@
    } else if 73 <= p && p <= 76 {
        "C"@
    } else if 70 <= p && p <= 72 {
        "C-"@
    } else if 67 <= p && p <= 69 {
        "D+"@
    } else if 63 <= p && p <= 66 {
        "D"@
    } else if 60 <= p && p <= 62 {
        "D-"@
    } else {
        "F"@
    }
}

/// A labeled letter grade, else the letter of a labeled percentage or
/// score out of a total.
pub open spec fn overall_grade(t: Seq<char>) -> Option<Seq<char>> {
    let m = first_match(OVERALL_GRADE@, t);
    if m.is_some() {
        group_text(m, 1)
    } else {
        match group_text(first_match(SCORE_PERCENT@, t), 1) {
            Some(d) => match u32_of(d) {
                Some(v) => Some(letter_for(v)),
                None => None,
            },
            None => None,
        }
    }
}

/// The labeled total, in hundredths of a point.
pub open spec fn total_points(t: Seq<char>) -> Option<u64> {
    match group_text(first_match(TOTAL_POINTS@, t), 1) {
        Some(d) => points_of(d),
        None => None,
    }
}

pub open spec fn feedback_heads() -> Seq<Seq<char>> {
    seq!["summary"@, "overall"@, "feedback"@]
}

pub open spec fn feedback_stops() -> Seq<Seq<char>> {
    seq!["strength"@, "improvement"@, "grade"@]
}

/// The non-blank lines (trimmed) after a summary heading, up to a line
/// that starts another section.
pub open spec fn feedback_lines(ls: Seq<Seq<char>>, inside: bool) -> Seq<Seq<char>>
    decreases ls.len(),
{
    if ls.len() == 0 {
        seq![]
    } else {
        let l = lower_of(ls[0]);
        if any_sub(l, feedback_heads()) {
            feedback_lines(ls.drop_first(), true)
        } else if inside {
            if any_sub(l, feedback_stops()) {
                seq![]
            } else if trim(ls[0]).len() > 0 {
                seq![trim(ls[0])] + feedback_lines(ls.drop_first(), true)
            } else {
                feedback_lines(ls.drop_first(), true)
            }
        } else {
            feedback_lines(ls.drop_first(), false)
        }
    }
}

/// The summary feedback: its lines joined by spaces, if there are any.
pub open spec fn summary_feedback(t: Seq<char>) -> Option<Seq<char>> {
    let f = feedback_lines(lines(t), false);
    if f.len() > 0 {
        Some(join_space(f))
    } else {
        None
    }
}

pub open spec fn is_item_start(c: char) -> bool {
    c == '-' || c == '•' || is_digit(c)
}

pub open spec fn is_marker(c: char) -> bool {
    c == '-' || c == '•' || is_digit(c) || c == '.' || c == ' '
}

/// A list item without its leading bullet or number.
pub open spec fn strip_markers(s: Seq<char>) -> Seq<char>
    decreases s.len(),
{
    if s.len() > 0 && is_marker(s[0]) {
        strip_markers(s.drop_first())
    } else {
        s
    }
}

pub open spec fn list_stops() -> Seq<Seq<char>> {
    seq!["grade"@, "score"@, "feedback"@]
}

/// The list items after a heading that mentions one of `kws`, up to a line
/// that starts a grade, score or feedback section.
pub open spec fn list_items(ls: Seq<Seq<char>>, kws: Seq<Seq<char>>, inside: bool) -> Seq<Seq<char>>
    decreases ls.len(),
{
    if ls.len() == 0 {
        seq![]
    } else {
        let l = lower_of(ls[0]);
        let t = trim(ls[0]);
        if any_sub(l, kws) {
            list_items(ls.drop_first(), kws, true)
        } else if inside {
            if any_sub(l, list_stops()) {
                seq![]
            } else if t.len() > 0 && is_item_start(t[0]) && strip_markers(t).len() > 0 {
                seq![strip_markers(t)] + list_items(ls.drop_first(), kws, true)
            } else {
                list_items(ls.drop_first(), kws, true)
            }
        } else {
            list_items(ls.drop_first(), kws, false)
        }
    }
}

pub open spec fn strength_words() -> Seq<Seq<char>> {
    seq!["strength"@, "positive"@, "good"@]
}

pub open spec fn improvement_words() -> Seq<Seq<char>> {
    seq!["improvement"@, "weakness"@, "area"@, "suggestion"@]
}

fn strip_marker_chars(s: &Vec<char>) -> (r: Vec<char>)
    ensures
        r@ == strip_markers(s@),
{
    let n: usize = s.len();
    let mut i: usize = 0;
    assert(s@.subrange(0, n as int) =~= s@);
    while i < n && (s[i] == '-' || s[i] == '•' || ('0' <= s[i] && s[i] <= '9') || s[i] == '.' || s[i] == ' ')
        invariant
            i <= n == s@.len(),
            strip_markers(s@) == strip_markers(s@.subrange(i as int, n as int)),
        decreases n - i,
    {
        assert(s@.subrange(i as int, n as int).drop_first() =~= s@.subrange(i + 1, n as int));
        i += 1;
    }
    crate::text::sub_vec(s, i, n)
}

fn parse_u32(s: &Vec<char>) -> (r: Option<u32>)
    ensures
        r == u32_of(s@),
{
    let n: usize = s.len();
    if n == 0 {
        return None;
    }
    let mut k: usize = 0;
    while k < n && '0' <= s[k] && s[k] <= '9'
        invariant
            k <= n == s@.len(),
            all_digits(s@.subrange(0, k as int)),
        decreases n - k,
    {
        k += 1;
        assert(all_digits(s@.subrange(0, k as int)));
    }
    if k < n {
        assert(!is_digit(s@[k as int]));
        return None;
    }
    assert(s@.subrange(0, n as int) =~= s@);
    match digits_upto(s, 0, n, 0xffff_ffff) {
        Some(v) => Some(v as u32),
        None => None,
    }
}

/// Relies on `uuid::Uuid::new_v4`: a fresh random identifier, in its
/// hyphenated text form.
#[verifier::external_body]
fn new_run_id() -> (r: String)
    ensures
        r@.len() == 36,
{
    uuid::Uuid::new_v4().to_string()
}

/// Relies on `chrono::Utc::now`: the current time, in whole seconds since
/// the Unix epoch.
#[verifier::external_body]
fn now_seconds() -> (r: i64) {
    chrono::Utc::now().timestamp()
}

/// What a grading run holds besides its identifier and time: everything is
/// read from the response text.
pub open spec fn run_matches(
    r: GradingResult,
    text: Seq<char>,
    submission: Submission,
    provider_id: Seq<char>,
    tier: GradingTier,
    run_number: u32,
) -> bool {
    &&& r.submission_id@ == submission.id@
    &&& r.provider_id@ == provider_id
    &&& r.tier@ == tier_name(tier)
    &&& r.run_number == run_number
    &&& r.raw_response@ == text
    &&& r.overall_grade.deep_view() == overall_grade(text)
    &&& r.total_points == total_points(text)
    &&& score_views(r.rubric_scores@) == advanced_scores(text, None)
    &&& r.summary_feedback.deep_view() == summary_feedback(text)
    &&& r.strengths.deep_view() == list_items(lines(text), strength_words(), false)
    &&& r.improvements.deep_view() == list_items(lines(text), improvement_words(), false)
    &&& r.validation_result.extracted_grade.deep_view() == crate::extract::advanced_grade(text)
    &&& r.validation_result.calculated_total == crate::validation::advanced_total(text, None)
    &&& crate::validation::issue_tags(r.validation_result.issues@) == crate::validation::advanced_tags(text, None)
    &&& r.validation_result.confidence == crate::validation::advanced_confidence(text, None)
    &&& r.validation_result.is_valid == (r.validation_result.confidence > 50)
}

impl GradingEngine {
    pub fn new() -> (r: Self) {
        GradingEngine {}
    }

    /// The generation request of one grading run: the tier's prompt, at low
    /// temperature and with a bounded token budget.
    pub fn grading_request(
        &self,
        submission: &Submission,
        tier: &GradingTier,
        rubric: &str,
        assignment_spec: Option<&str>,
        analysis: Option<&str>,
    ) -> (r: LLMRequest)
        ensures
            r.system_prompt.is_some(),
            (r.prompt@, r.system_prompt.unwrap()@) == tier_prompt(*tier, *submission, rubric@, opt_view(assignment_spec), opt_view(analysis)),
            r.temperature == GRADING_TEMPERATURE,
            r.max_tokens == Some(GRADING_MAX_TOKENS),
    {
        let (prompt, system_prompt) = TierProcessor::prepare_prompt(tier, submission, rubric, assignment_spec, analysis);
        LLMRequest { prompt, system_prompt, temperature: GRADING_TEMPERATURE, max_tokens: Some(GRADING_MAX_TOKENS) }
    }

    /// One grading run from a grader response, with a fresh identifier and
    /// the current time.
    pub fn parse_grading_response(
        &self,
        response_text: &str,
        submission: &Submission,
        provider_id: &str,
        tier: &GradingTier,
        run_number: u32,
    ) -> (r: GradingResult)
        ensures
            run_matches(r, response_text@, *submission, provider_id@, *tier, run_number),
    {
        let id = new_run_id();
        let created_at = now_seconds();
        self.assemble_result(response_text, submission, provider_id, tier, run_number, id, created_at)
    }

    /// One grading run from a grader response, with the given identifier
    /// and creation time.
    pub fn assemble_result(
        &self,
        response_text: &str,
        submission: &Submission,
        provider_id: &str,
        tier: &GradingTier,
        run_number: u32,
        id: String,
        created_at: i64,
    ) -> (r: GradingResult)
        ensures
            r.id == id,
            r.created_at == created_at,
            run_matches(r, response_text@, *submission, provider_id@, *tier, run_number),
    {
        let rubric_scores = ScoreValidator::extract_rubric_scores_advanced(response_text, None);
        let validation_result = ScoreValidator::advanced_validate_and_extract(response_text, None);
        GradingResult {
            id,
            submission_id: submission.id.clone(),
            provider_id: String::from_str(provider_id),
            tier: tier.to_string(),
            run_number,
            created_at,
            raw_response: String::from_str(response_text),
            overall_grade: self.extract_overall_grade(response_text),
            total_points: self.extract_total_points(response_text),
            rubric_scores,
            summary_feedback: self.extract_summary_feedback(response_text),
            strengths: self.extract_strengths(response_text),
            improvements: self.extract_improvements(response_text),
            validation_result,
        }
    }

    /// The letter grade of a whole percentage: 97-100 `A+`, 93-96 `A`, ...,
    /// 60-62 `D-`, anything else `F`.
    pub fn convert_percentage_to_grade(&self, percentage: u32) -> (r: String)
        ensures
            r@ == letter_for(percentage),
    {
        let p = percentage;
        if 97 <= p && p <= 100 {
            String::from_str("A+")
        } else if 93 <= p && p <= 96 {
            String::from_str("A")
        } else if 90 <= p && p <= 92 {
            String::from_str("A-")
        } else if 87 <= p && p <= 89 {
            String::from_str("B+")
        } else if 83 <= p && p <= 86 {
            String::from_str("B")
        } else if 80 <= p && p <= 82 {
            String::from_str("B-")
        } else if 77 <= p && p <= 79 {
            String::from_str("C+")
        } else if 73 <= p && p <= 76 {
            String::from_str("C")
        } else if 70 <= p && p <= 72 {
            String::from_str("C-")
        } else if 67 <= p && p <= 69 {
            String::from_str("D+")
        } else if 63 <= p && p <= 66 {
            String::from_str("D")
        } else if 60 <= p && p <= 62 {
            String::from_str("D-")
        } else {
            String::from_str("F")
        }
    }

    /// A labeled letter grade (`Grade: B+`), else the letter of a labeled
    /// percentage (`Score: 85/100`, `Total: 85%`).
    pub fn extract_overall_grade(&self, text: &str) -> (r: Option<String>)
        ensures
            r.deep_view() == overall_grade(text@),
    {
        match crate::pattern::captures(OVERALL_GRADE, text) {
            Some(g) => {
                return crate::pattern::group_of_match(&g, 1);
            },
            None => {},
        }
        match first_group(SCORE_PERCENT, text, 1) {
            Some(d) => match parse_u32(&chars_of(d.as_str())) {
                Some(v) => Some(self.convert_percentage_to_grade(v)),
                None => None,
            },
            None => None,
        }
    }

    /// The labeled total (`Total: 85/100`, `Score: 85`, `Points: 85`), in
    /// hundredths of a point.
    pub fn extract_total_points(&self, text: &str) -> (r: Option<u64>)
        ensures
            r == total_points(text@),
    {
        match first_group(TOTAL_POINTS, text, 1) {
            Some(d) => parse_points(&chars_of(d.as_str())),
            None => None,
        }
    }

    /// The summary section's lines, joined by spaces.
    pub fn extract_summary_feedback(&self, text: &str) -> (r: Option<String>)
        ensures
            r.deep_view() == summary_feedback(text@),
    {
        let ls = split_lines(&chars_of(text));
        let ghost lv = ls.deep_view();
        let heads: Vec<&str> = vec!["summary", "overall", "feedback"];
        let stops: Vec<&str> = vec!["strength", "improvement", "grade"];
        assert(strs_view(heads@) =~= feedback_heads());
        assert(strs_view(stops@) =~= feedback_stops());
        let n: usize = ls.len();
        let mut out: Vec<Vec<char>> = Vec::new();
        let mut inside = false;
        let mut done = false;
        let mut i: usize = 0;
        assert(lv.subrange(0, n as int) =~= lv);
        while i < n && !done
            invariant
                n == ls@.len() == lv.len(),
                lv == ls.deep_view(),
                strs_view(heads@) == feedback_heads(),
                strs_view(stops@) == feedback_stops(),
                i <= n,
                feedback_lines(lv, false) == out.deep_view() + (if done {
                    seq![]
                } else {
                    feedback_lines(lv.subrange(i as int, n as int), inside)
                }),
            decreases n - i,
        {
            let ghost rest = lv.subrange(i as int, n as int);
            assert(rest.drop_first() =~= lv.subrange(i + 1, n as int));
            assert(rest[0] == ls@[i as int]@);
            let l = lower_chars(&ls[i]);
            if contains_any(&l, &heads) {
                inside = true;
            } else if inside {
                if contains_any(&l, &stops) {
                    done = true;
                } else {
                    let t = trim_vec(&ls[i]);
                    if t.len() > 0 {
                        let ghost before = out.deep_view();
                        let ghost tv = t@;
                        assert(t.deep_view() =~= t@);
                        out.push(t);
                        assert(out.deep_view() =~= before.push(tv));
                        assert(before + (seq![tv] + feedback_lines(lv.subrange(i + 1, n as int), true)) =~= out.deep_view() + feedback_lines(lv.subrange(i + 1, n as int), true));
                    }
                }
            }
            i += 1;
        }
        assert(out.deep_view() + seq![] =~= out.deep_view());
        assert(lv.subrange(n as int, n as int) =~= seq![]);
        if out.len() > 0 {
            Some(string_of(join_words(&out).as_slice()))
        } else {
            None
        }
    }

    /// The list items of the section whose heading mentions one of
    /// `keywords`, without their bullets or numbers.
    pub fn extract_list_section(&self, text: &str, keywords: &Vec<&str>) -> (r: Vec<String>)
        ensures
            r.deep_view() == list_items(lines(text@), strs_view(keywords@), false),
    {
        let ls = split_lines(&chars_of(text));
        let ghost lv = ls.deep_view();
        let ghost kv = strs_view(keywords@);
        let stops: Vec<&str> = vec!["grade", "score", "feedback"];
        assert(strs_view(stops@) =~= list_stops());
        let n: usize = ls.len();
        let mut out: Vec<String> = Vec::new();
        let mut inside = false;
        let mut done = false;
        let mut i: usize = 0;
        assert(lv.subrange(0, n as int) =~= lv);
        while i < n && !done
            invariant
                n == ls@.len() == lv.len(),
                lv == ls.deep_view(),
                kv == strs_view(keywords@),
                strs_view(stops@) == list_stops(),
                i <= n,
                list_items(lv, kv, false) == out.deep_view() + (if done {
                    seq![]
                } else {
                    list_items(lv.subrange(i as int, n as int), kv, inside)
                }),
            decreases n - i,
        {
            let ghost rest = lv.subrange(i as int, n as int);
            assert(rest.drop_first() =~= lv.subrange(i + 1, n as int));
            assert(rest[0] == ls@[i as int]@);
            let l = lower_chars(&ls[i]);
            if contains_any(&l, keywords) {
                inside = true;
            } else if inside {
                if contains_any(&l, &stops) {
                    done = true;
                } else {
                    let t = trim_vec(&ls[i]);
                    if t.len() > 0 && (t[0] == '-' || t[0] == '•' || ('0' <= t[0] && t[0] <= '9')) {
                        let cleaned = strip_marker_chars(&t);
                        if cleaned.len() > 0 {
                            let ghost before = out.deep_view();
                            let ghost cv = cleaned@;
                            out.push(string_of(cleaned.as_slice()));
                            assert(out.deep_view() =~= before.push(cv));
                            assert(before + (seq![cv] + list_items(lv.subrange(i + 1, n as int), kv, true)) =~= out.deep_view() + list_items(lv.subrange(i + 1, n as int), kv, true));
                        }
                    }
                }
            }
            i += 1;
        }
        assert(out.deep_view() + seq![] =~= out.deep_view());
        assert(lv.subrange(n as int, n as int) =~= seq![]);
        out
    }

    /// Items of a strengths section.
    pub fn extract_strengths(&self, text: &str) -> (r: Vec<String>)
        ensures
            r.deep_view() == list_items(lines(text@), strength_words(), false),
    {
        let kws: Vec<&str> = vec!["strength", "positive", "good"];
        assert(strs_view(kws@) =~= strength_words());
        self.extract_list_section(text, &kws)
    }

    /// Items of an improvements section.
    pub fn extract_improvements(&self, text: &str) -> (r: Vec<String>)
        ensures
            r.deep_view() == list_items(lines(text@), improvement_words(), false),
    {
        let kws: Vec<&str> = vec!["improvement", "weakness", "area", "suggestion"];
        assert(strs_view(kws@) =~= improvement_words());
        self.extract_list_section(text, &kws)
    }
}

} // verus!
