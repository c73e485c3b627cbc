//! Tier-specific grading prompts.
use vstd::prelude::*;
use crate::engine::{GradingTier, Submission};
use crate::text::{dec_str, decimal_string, has_sub, is_ws, tenths_string, tenths_text};

verus! {

pub struct TierProcessor;

pub const NO_TEXT: &'static str = "No text extracted";
pub const NO_ASSIGNMENT: &'static str = "No assignment specification provided";

pub const BASIC_SYSTEM: &'static str = "You are an expert academic grader. Provide detailed, constructive feedback and accurate scoring based on the provided rubric.";
pub const BASIC_HEAD: &'static str = "Please grade the following submission using the provided rubric:\n\nRUBRIC:\n";
pub const BASIC_MID: &'static str = "\n\nSUBMISSION:\n";
pub const BASIC_TAIL: &'static str = "\n\nPlease provide:\n1. Overall grade\n2. Score for each rubric criterion\n3. Detailed feedback explaining your reasoning\n4. Strengths of the submission\n5. Areas for improvement\n\nFormat your response clearly with sections for each component.";

pub const ENHANCED_SYSTEM: &'static str = "You are an expert academic grader with access to detailed text analysis from DocumentLens. Use both the content and the comprehensive analytical metrics to provide thorough, evidence-based grading. Pay special attention to writing quality, readability, structure, and academic rigor as indicated by the analysis.";
pub const ENHANCED_HEAD: &'static str = "Please grade the following submission using the provided rubric and comprehensive text analysis:\n\nRUBRIC:\n";
pub const ENHANCED_ANALYSIS: &'static str = "\n\nDETAILED TEXT ANALYSIS:\n";
pub const ENHANCED_MID: &'static str = "\n\nSUBMISSION:\n";
pub const ENHANCED_TAIL: &'static str = "\n\nGRADING INSTRUCTIONS:\nUse the detailed text analysis to inform your grading across multiple dimensions:\n\n1. CONTENT QUALITY: Use the depth of analysis, critical thinking, and argument strength metrics\n2. WRITING QUALITY: Consider clarity, coherence, grammar, and vocabulary diversity scores\n3. STRUCTURE: Evaluate based on paragraph coherence, logical flow, and structural analysis\n4. ACADEMIC RIGOR: Incorporate reading level, academic vocabulary usage, and evidence usage\n5. TECHNICAL ASPECTS: Consider sentence variety, linguistic features, and complexity\n\nProvide specific feedback that references the analytical metrics where relevant, and explain how the quantitative analysis supports your qualitative assessment.";

pub const AWARE_SYSTEM: &'static str = "You are an expert academic grader with full context of the assignment requirements. Evaluate how well the submission meets the specific learning objectives and assignment criteria.";
pub const AWARE_HEAD: &'static str = "Please grade the following submission using the complete assignment context:\n\nASSIGNMENT SPECIFICATION:\n";
pub const AWARE_RUBRIC: &'static str = "\n\nRUBRIC:\n";
pub const AWARE_MID: &'static str = "\n\nSUBMISSION:\n";
pub const AWARE_TAIL: &'static str = "\n\nEvaluate the submission against:\n1. Assignment-specific requirements and learning objectives\n2. How well it addresses the prompt/question\n3. Rubric criteria with assignment context\n4. Overall alignment with course goals\n\nProvide detailed feedback that shows how the submission performs against the specific assignment requirements.";

pub const FALLBACK_HEAD: &'static str = "BASIC TEXT ANALYSIS (DocumentLens unavailable):\n\nBasic Metrics:\n- Word Count: ";
pub const FALLBACK_SENTENCES: &'static str = "\n- Estimated Sentence Count: ";
pub const FALLBACK_PARAGRAPHS: &'static str = "  \n- Estimated Paragraph Count: ";
pub const FALLBACK_AVERAGE: &'static str = "\n- Average Sentence Length: ";
pub const FALLBACK_TAIL: &'static str = " words\n\nNote: Advanced writing quality metrics, readability scores, and structural analysis are unavailable. Grading will rely primarily on content assessment.";

/// The submission text, or a placeholder when none was extracted.
pub open spec fn text_or_placeholder(s: Submission) -> Seq<char> {
    match s.extracted_text {
        Some(t) => t@,
        None => NO_TEXT@,
    }
}

/// Characters that end a sentence.
pub open spec fn sentence_marks(t: Seq<char>) -> nat
    decreases t.len(),
{
    if t.len() == 0 {
        0
    } else {
        sentence_marks(t.drop_last()) + if t.last() == '.' || t.last() == '!' || t.last() == '?' {
            1nat
        } else {
            0nat
        }
    }
}

/// Pieces of `t` between blank-line separators (`\n\n`) that hold more than
/// whitespace; `open` tells whether the current piece already does.
pub open spec fn paragraphs(t: Seq<char>, open: bool) -> nat
    decreases t.len(),
{
    if t.len() == 0 {
        if open {
            1
        } else {
            0
        }
    } else if t.len() >= 2 && t[0] == '\n' && t[1] == '\n' {
        (if open {
            1nat
        } else {
            0nat
        }) + paragraphs(t.subrange(2, t.len() as int), false)
    } else {
        paragraphs(t.drop_first(), open || !is_ws(t[0]))
    }
}

/// Average sentence length in tenths of a word, rounded half up; 0 without
/// sentences.
pub open spec fn average_tenths(words: nat, sentences: nat) -> nat {
    if sentences == 0 {
        0
    } else {
        (20 * words + sentences) / (2 * sentences)
    }
}

/// The metrics block used when no document analysis is available.
pub open spec fn fallback_text(s: Submission) -> Seq<char> {
    let t = match s.extracted_text {
        Some(x) => x@,
        None => seq![],
    };
    FALLBACK_HEAD@ + dec_str(s.word_count as nat) + FALLBACK_SENTENCES@ + dec_str(sentence_marks(t))
        + FALLBACK_PARAGRAPHS@ + dec_str(paragraphs(t, false)) + FALLBACK_AVERAGE@ + tenths_text(
        average_tenths(s.word_count as nat, sentence_marks(t)),
    ) + FALLBACK_TAIL@
}

pub open spec fn basic_prompt_text(s: Submission, rubric: Seq<char>) -> Seq<char> {
    BASIC_HEAD@ + rubric + BASIC_MID@ + text_or_placeholder(s) + BASIC_TAIL@
}

pub open spec fn enhanced_prompt_text(s: Submission, rubric: Seq<char>, analysis: Option<Seq<char>>) -> Seq<char> {
    let a = match analysis {
        Some(x) => x,
        None => fallback_text(s),
    };
    ENHANCED_HEAD@ + rubric + ENHANCED_ANALYSIS@ + a + ENHANCED_MID@ + text_or_placeholder(s) + ENHANCED_TAIL@
}

pub open spec fn aware_prompt_text(s: Submission, rubric: Seq<char>, spec: Option<Seq<char>>) -> Seq<char> {
    let a = match spec {
        Some(x) => x,
        None => NO_ASSIGNMENT@,
    };
    AWARE_HEAD@ + a + AWARE_RUBRIC@ + rubric + AWARE_MID@ + text_or_placeholder(s) + AWARE_TAIL@
}

pub open spec fn opt_view(o: Option<&str>) -> Option<Seq<char>> {
    match o {
        Some(x) => Some(x@),
        None => None,
    }
}

/// The prompt and system text of a tier.
pub open spec fn tier_prompt(
    tier: GradingTier,
    s: Submission,
    rubric: Seq<char>,
    spec: Option<Seq<char>>,
    analysis: Option<Seq<char>>,
) -> (Seq<char>, Seq<char>) {
    match tier {
        GradingTier::Basic => (basic_prompt_text(s, rubric), BASIC_SYSTEM@),
        GradingTier::Enhanced => (enhanced_prompt_text(s, rubric, analysis), ENHANCED_SYSTEM@),
        GradingTier::AssignmentAware => (aware_prompt_text(s, rubric, spec), AWARE_SYSTEM@),
    }
}

proof fn lemma_has_sub_at(s: Seq<char>, a: Seq<char>, b: Seq<char>, c: Seq<char>)
    requires
        s == a + b + c,
    ensures
        has_sub(s, b),
{
    assert(s.subrange(a.len() as int, (a.len() + b.len()) as int) =~= b);
}

/// Tiers only add context: whatever the tier, the prompt carries the rubric
/// and the submission text (or its placeholder).
pub proof fn lemma_every_tier_carries_rubric_and_submission(
    tier: GradingTier,
    s: Submission,
    rubric: Seq<char>,
    spec: Option<Seq<char>>,
    analysis: Option<Seq<char>>,
)
    ensures
        has_sub(tier_prompt(tier, s, rubric, spec, analysis).0, rubric),
        has_sub(tier_prompt(tier, s, rubric, spec, analysis).0, text_or_placeholder(s)),
{
    let t = text_or_placeholder(s);
    match tier {
        GradingTier::Basic => {
            assert(basic_prompt_text(s, rubric) =~= BASIC_HEAD@ + rubric + (BASIC_MID@ + t + BASIC_TAIL@));
            lemma_has_sub_at(basic_prompt_text(s, rubric), BASIC_HEAD@, rubric, BASIC_MID@ + t + BASIC_TAIL@);
            assert(basic_prompt_text(s, rubric) =~= BASIC_HEAD@ + rubric + BASIC_MID@ + t + BASIC_TAIL@);
            lemma_has_sub_at(basic_prompt_text(s, rubric), BASIC_HEAD@ + rubric + BASIC_MID@, t, BASIC_TAIL@);
        },
        GradingTier::Enhanced => {
            let a = match analysis {
                Some(x) => x,
                None => fallback_text(s),
            };
            let p = enhanced_prompt_text(s, rubric, analysis);
            assert(p =~= ENHANCED_HEAD@ + rubric + (ENHANCED_ANALYSIS@ + a + ENHANCED_MID@ + t + ENHANCED_TAIL@));
            lemma_has_sub_at(p, ENHANCED_HEAD@, rubric, ENHANCED_ANALYSIS@ + a + ENHANCED_MID@ + t + ENHANCED_TAIL@);
            assert(p =~= ENHANCED_HEAD@ + rubric + ENHANCED_ANALYSIS@ + a + ENHANCED_MID@ + t + ENHANCED_TAIL@);
            lemma_has_sub_at(p, ENHANCED_HEAD@ + rubric + ENHANCED_ANALYSIS@ + a + ENHANCED_MID@, t, ENHANCED_TAIL@);
        },
        GradingTier::AssignmentAware => {
            let a = match spec {
                Some(x) => x,
                None => NO_ASSIGNMENT@,
            };
            let p = aware_prompt_text(s, rubric, spec);
            assert(p =~= AWARE_HEAD@ + a + AWARE_RUBRIC@ + rubric + (AWARE_MID@ + t + AWARE_TAIL@));
            lemma_has_sub_at(p, AWARE_HEAD@ + a + AWARE_RUBRIC@, rubric, AWARE_MID@ + t + AWARE_TAIL@);
            assert(p =~= AWARE_HEAD@ + a + AWARE_RUBRIC@ + rubric + AWARE_MID@ + t + AWARE_TAIL@);
            lemma_has_sub_at(p, AWARE_HEAD@ + a + AWARE_RUBRIC@ + rubric + AWARE_MID@, t, AWARE_TAIL@);
        },
    }
}

fn submission_text(s: &Submission) -> (r: String)
    ensures
        r@ == text_or_placeholder(*s),
{
    match &s.extracted_text {
        Some(t) => t.clone(),
        None => String::from_str(NO_TEXT),
    }
}

fn count_sentence_marks(t: &String) -> (r: u64)
    ensures
        r == sentence_marks(t@),
{
    let c = crate::text::chars_of(t.as_str());
    let n: usize = c.len();
    let mut k: u64 = 0;
    let mut i: usize = 0;
    while i < n
        invariant
            n == c@.len(),
            c@ == t@,
            i <= n,
            k == sentence_marks(c@.subrange(0, i as int)),
            k <= i,
        decreases n - i,
    {
        assert(c@.subrange(0, i + 1).drop_last() =~= c@.subrange(0, i as int));
        if c[i] == '.' || c[i] == '!' || c[i] == '?' {
            k += 1;
        }
        i += 1;
    }
    assert(c@.subrange(0, n as int) =~= c@);
    k
}

fn count_paragraphs(t: &String) -> (r: u64)
    ensures
        r == paragraphs(t@, false),
{
    let c = crate::text::chars_of(t.as_str());
    let n: usize = c.len();
    let mut k: u64 = 0;
    let mut open = false;
    let mut i: usize = 0;
    assert(c@.subrange(0, n as int) =~= c@);
    while i < n
        invariant
            n == c@.len(),
            c@ == t@,
            i <= n,
            paragraphs(t@, false) == k + paragraphs(c@.subrange(i as int, n as int), open),
            k + (if open { 1int } else { 0int }) <= i,
        decreases n - i,
    {
        let ghost rest = c@.subrange(i as int, n as int);
        if i + 1 < n && c[i] == '\n' && c[i + 1] == '\n' {
            assert(rest.subrange(2, rest.len() as int) =~= c@.subrange(i + 2, n as int));
            if open {
                k += 1;
            }
            open = false;
            i += 2;
        } else {
            assert(rest.drop_first() =~= c@.subrange(i + 1, n as int));
            open = open || !crate::text::is_whitespace(c[i]);
            i += 1;
        }
    }
    if open {
        k += 1;
    }
    k
}

impl TierProcessor {
    /// The prompt and system text for a tier. The enhanced tier takes the
    /// document analysis as text, or states the basic metrics when there is
    /// none; the assignment-aware tier takes the assignment specification,
    /// or a placeholder.
    pub fn prepare_prompt(
        tier: &GradingTier,
        submission: &Submission,
        rubric: &str,
        assignment_spec: Option<&str>,
        analysis: Option<&str>,
    ) -> (r: (String, Option<String>))
        ensures
            r.1.is_some(),
            (r.0@, r.1.unwrap()@) == tier_prompt(*tier, *submission, rubric@, opt_view(assignment_spec), opt_view(analysis)),
    {
        match tier {
            GradingTier::Basic => Self::basic_prompt(submission, rubric),
            GradingTier::Enhanced => Self::enhanced_prompt(submission, rubric, analysis),
            GradingTier::AssignmentAware => Self::assignment_aware_prompt(submission, rubric, assignment_spec),
        }
    }

    pub fn basic_prompt(submission: &Submission, rubric: &str) -> (r: (String, Option<String>))
        ensures
            r.0@ == basic_prompt_text(*submission, rubric@),
            r.1.is_some() && r.1.unwrap()@ == BASIC_SYSTEM@,
    {
        let mut p = String::from_str(BASIC_HEAD);
        p.append(rubric);
        p.append(BASIC_MID);
        p.append(submission_text(submission).as_str());
        p.append(BASIC_TAIL);
        (p, Some(String::from_str(BASIC_SYSTEM)))
    }

    pub fn enhanced_prompt(submission: &Submission, rubric: &str, analysis: Option<&str>) -> (r: (String, Option<String>))
        ensures
            r.0@ == enhanced_prompt_text(*submission, rubric@, opt_view(analysis)),
            r.1.is_some() && r.1.unwrap()@ == ENHANCED_SYSTEM@,
    {
        let analysis_text = match analysis {
            Some(a) => String::from_str(a),
            None => Self::fallback_analysis_text(submission),
        };
        let mut p = String::from_str(ENHANCED_HEAD);
        p.append(rubric);
        p.append(ENHANCED_ANALYSIS);
        p.append(analysis_text.as_str());
        p.append(ENHANCED_MID);
        p.append(submission_text(submission).as_str());
        p.append(ENHANCED_TAIL);
        (p, Some(String::from_str(ENHANCED_SYSTEM)))
    }

    pub fn assignment_aware_prompt(submission: &Submission, rubric: &str, assignment_spec: Option<&str>) -> (r: (String, Option<String>))
        ensures
            r.0@ == aware_prompt_text(*submission, rubric@, opt_view(assignment_spec)),
            r.1.is_some() && r.1.unwrap()@ == AWARE_SYSTEM@,
    {
        let context = match assignment_spec {
            Some(a) => a,
            None => NO_ASSIGNMENT,
        };
        let mut p = String::from_str(AWARE_HEAD);
        p.append(context);
        p.append(AWARE_RUBRIC);
        p.append(rubric);
        p.append(AWARE_MID);
        p.append(submission_text(submission).as_str());
        p.append(AWARE_TAIL);
        (p, Some(String::from_str(AWARE_SYSTEM)))
    }

    /// Word, sentence and paragraph counts and the average sentence length,
    /// with a note that richer metrics are unavailable.
    pub fn fallback_analysis_text(submission: &Submission) -> (r: String)
        ensures
            r@ == fallback_text(*submission),
    {
        let empty = String::new();
        let text = match &submission.extracted_text {
            Some(t) => t,
            None => &empty,
        };
        let sentences = count_sentence_marks(text);
        let paragraphs_n = count_paragraphs(text);
        let wc = submission.word_count as u64;
        let avg: u64 = if sentences == 0 {
            0
        } else {
            let a: u128 = (20 * (wc as u128) + (sentences as u128)) / (2 * (sentences as u128));
            assert(a <= 20 * (wc as u128) + (sentences as u128));
            assert(a <= 10 * (wc as u128) + 1) by (nonlinear_arith)
                requires a == (20 * (wc as u128) + (sentences as u128)) / (2 * (sentences as u128)), sentences >= 1;
            a as u64
        };
        let mut p = String::from_str(FALLBACK_HEAD);
        p.append(decimal_string(wc).as_str());
        p.append(FALLBACK_SENTENCES);
        p.append(decimal_string(sentences).as_str());
        p.append(FALLBACK_PARAGRAPHS);
        p.append(decimal_string(paragraphs_n).as_str());
        p.append(FALLBACK_AVERAGE);
        p.append(tenths_string(avg).as_str());
        p.append(FALLBACK_TAIL);
        assert(p@ =~= fallback_text(*submission));
        p
    }
}

} // verus!
