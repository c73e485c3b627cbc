//! The direct grading workflow: one prompt assembled from the supplied
//! documents, and a letter grade read from the reply.
use vstd::prelude::*;
use crate::extract::{first_group1, first_group1_of, pattern_views};
use crate::text::{
    dec_str, decimal_string, signed_tenths_string, signed_tenths_text, tenths_string,
    tenths_text,
};

verus! {

/// Metrics of the submission: reading level in tenths of a grade (it may be
/// negative), grammar and structure scores in tenths of a percent.
pub struct DocumentAnalysis {
    pub word_count: u32,
    pub reading_level: i32,
    pub citations: u32,
    pub grammar_score: u32,
    pub structure_score: u32,
}

/// What a direct grading request supplies; `temperature` is in hundredths.
pub struct GradeRequest {
    pub submission_content: String,
    pub rubric_content: Option<String>,
    pub marking_guide_content: Option<String>,
    pub guidelines_content: Option<String>,
    pub assignment_spec_content: Option<String>,
    pub system_prompt: String,
    pub user_prompt: String,
    pub provider: String,
    pub model: String,
    pub api_key: String,
    pub temperature: u32,
    pub max_tokens: Option<u32>,
    pub workflow: Option<String>,
    pub document_analysis: Option<DocumentAnalysis>,
}

pub const DEFAULT_INSTRUCTIONS: &'static str = "Please grade this submission according to the provided rubric and give detailed feedback.";

pub open spec fn opt_part(head: Seq<char>, body: Option<String>) -> Seq<Seq<char>> {
    match body {
        Some(b) => seq![head + b@],
        None => seq![],
    }
}

pub open spec fn analysis_part(a: DocumentAnalysis) -> Seq<char> {
    "DOCUMENT ANALYSIS:\n- Word Count: "@ + dec_str(a.word_count as nat) + "\n- Reading Level: "@
        + signed_tenths_text(a.reading_level as int) + "\n- Citations Found: "@ + dec_str(a.citations as nat)
        + "\n- Grammar Score: "@ + tenths_text(a.grammar_score as nat) + "%\n- Structure Score: "@
        + tenths_text(a.structure_score as nat)
        + "%\nPlease incorporate these metrics into your assessment."@
}

pub open spec fn analysis_parts(a: Option<DocumentAnalysis>) -> Seq<Seq<char>> {
    match a {
        Some(a) => seq![analysis_part(a)],
        None => seq![],
    }
}

/// The sections of the prompt, in order; absent documents are left out.
pub open spec fn prompt_parts(r: GradeRequest) -> Seq<Seq<char>> {
    (if r.system_prompt@.len() > 0 {
        seq!["SYSTEM INSTRUCTIONS:\n"@ + r.system_prompt@]
    } else {
        seq![]
    }) + opt_part("RUBRIC:\n"@, r.rubric_content) + opt_part("MARKING GUIDE:\n"@, r.marking_guide_content)
        + opt_part("ASSIGNMENT GUIDELINES:\n"@, r.guidelines_content) + opt_part(
        "ASSIGNMENT SPECIFICATION:\n"@,
        r.assignment_spec_content,
    ) + analysis_parts(r.document_analysis) + seq!["STUDENT SUBMISSION:\n"@ + r.submission_content@] + (if r.user_prompt@.len() > 0 {
        seq!["GRADING INSTRUCTIONS:\n"@ + r.user_prompt@]
    } else {
        seq![DEFAULT_INSTRUCTIONS@]
    })
}

/// The parts separated by blank lines.
pub open spec fn join_blank(ps: Seq<Seq<char>>) -> Seq<char>
    decreases ps.len(),
{
    if ps.len() == 0 {
        seq![]
    } else if ps.len() == 1 {
        ps[0]
    } else {
        join_blank(ps.drop_last()) + "\n\n"@ + ps.last()
    }
}

pub const QUICK_GRADE: &'static str = r"Grade:\s*([A-F][+-]?)";
pub const QUICK_OVERALL: &'static str = r"Overall Grade:\s*([A-F][+-]?)";
pub const QUICK_FINAL: &'static str = r"Final Grade:\s*([A-F][+-]?)";
pub const QUICK_SCORE: &'static str = r"Score:\s*([A-F][+-]?)";
pub const QUICK_TRAILING: &'static str = r"\b([A-F][+-]?)\s*(?:grade|Grade)";
pub const QUICK_OUT_OF: &'static str = r"([A-F][+-]?)\s*/\s*100";

pub open spec fn quick_patterns() -> Seq<Seq<char>> {
    seq![QUICK_GRADE@, QUICK_OVERALL@, QUICK_FINAL@, QUICK_SCORE@, QUICK_TRAILING@, QUICK_OUT_OF@]
}

fn labeled(head: &str, body: &String) -> (r: String)
    ensures
        r@ == head@ + body@,
{
    let mut s = String::from_str(head);
    s.append(body.as_str());
    s
}

/// The metrics block of the prompt.
pub fn analysis_block(a: &DocumentAnalysis) -> (r: String)
    ensures
        r@ == analysis_part(*a),
{
    let mut s = String::from_str("DOCUMENT ANALYSIS:\n- Word Count: ");
    s.append(decimal_string(a.word_count as u64).as_str());
    s.append("\n- Reading Level: ");
    s.append(signed_tenths_string(a.reading_level).as_str());
    s.append("\n- Citations Found: ");
    s.append(decimal_string(a.citations as u64).as_str());
    s.append("\n- Grammar Score: ");
    s.append(tenths_string(a.grammar_score as u64).as_str());
    s.append("%\n- Structure Score: ");
    s.append(tenths_string(a.structure_score as u64).as_str());
    s.append("%\nPlease incorporate these metrics into your assessment.");
    assert(s@ =~= analysis_part(*a));
    s
}

fn push_part(ps: &mut Vec<String>, part: String)
    ensures
        final(ps).deep_view() == old(ps).deep_view().push(part@),
{
    let ghost before = ps.deep_view();
    let ghost v = part@;
    ps.push(part);
    assert(ps.deep_view() =~= before.push(v));
}

fn push_opt(ps: &mut Vec<String>, head: &str, body: &Option<String>)
    ensures
        final(ps).deep_view() == old(ps).deep_view() + opt_part(head@, *body),
{
    match body {
        Some(b) => push_part(ps, labeled(head, b)),
        None => {},
    }
    assert(final(ps).deep_view() =~= old(ps).deep_view() + opt_part(head@, *body));
}

/// The sections of the prompt for a request.
pub fn build_prompt_parts(r: &GradeRequest) -> (ps: Vec<String>)
    ensures
        ps.deep_view() == prompt_parts(*r),
{
    let mut ps: Vec<String> = Vec::new();
    if r.system_prompt.as_str().unicode_len() > 0 {
        push_part(&mut ps, labeled("SYSTEM INSTRUCTIONS:\n", &r.system_prompt));
    }
    let ghost system_parts = ps.deep_view();
    push_opt(&mut ps, "RUBRIC:\n", &r.rubric_content);
    push_opt(&mut ps, "MARKING GUIDE:\n", &r.marking_guide_content);
    push_opt(&mut ps, "ASSIGNMENT GUIDELINES:\n", &r.guidelines_content);
    push_opt(&mut ps, "ASSIGNMENT SPECIFICATION:\n", &r.assignment_spec_content);
    let ghost document_parts = ps.deep_view();
    match &r.document_analysis {
        Some(a) => push_part(&mut ps, analysis_block(a)),
        None => {},
    }
    let ghost metric_parts = ps.deep_view();
    push_part(&mut ps, labeled("STUDENT SUBMISSION:\n", &r.submission_content));
    let ghost submission_parts = ps.deep_view();
    if r.user_prompt.as_str().unicode_len() > 0 {
        push_part(&mut ps, labeled("GRADING INSTRUCTIONS:\n", &r.user_prompt));
    } else {
        push_part(&mut ps, String::from_str(DEFAULT_INSTRUCTIONS));
    }
    proof {
        let sys = if r.system_prompt@.len() > 0 {
            seq!["SYSTEM INSTRUCTIONS:\n"@ + r.system_prompt@]
        } else {
            seq![]
        };
        assert(system_parts =~= sys);
        assert(metric_parts =~= document_parts + analysis_parts(r.document_analysis));
        assert(submission_parts =~= metric_parts + seq!["STUDENT SUBMISSION:\n"@ + r.submission_content@]);
    }
    assert(ps.deep_view() =~= prompt_parts(*r));
    ps
}

/// The full prompt: its sections separated by blank lines.
pub fn build_prompt(r: &GradeRequest) -> (p: String)
    ensures
        p@ == join_blank(prompt_parts(*r)),
{
    let ps = build_prompt_parts(r);
    let ghost pv = ps.deep_view();
    let n: usize = ps.len();
    let mut out = String::new();
    let mut i: usize = 0;
    while i < n
        invariant
            n == ps@.len() == pv.len(),
            pv == ps.deep_view(),
            i <= n,
            out@ == join_blank(pv.subrange(0, i as int)),
        decreases n - i,
    {
        assert(pv.subrange(0, i + 1).drop_last() =~= pv.subrange(0, i as int));
        assert(pv[i as int] == ps@[i as int]@);
        if i > 0 {
            out.append("\n\n");
        } else {
            assert(out@ =~= seq![]);
        }
        out.append(ps[i].as_str());
        proof {
            if i == 0 {
                assert(out@ =~= pv.subrange(0, 1)[0]);
            }
        }
        i += 1;
    }
    assert(pv.subrange(0, n as int) =~= pv);
    out
}

/// A letter grade from the reply: the first of the labeled and unlabeled
/// patterns that yields one.
pub fn extract_grade(response: &str) -> (r: Option<String>)
    ensures
        r.deep_view() == first_group1(quick_patterns(), response@),
{
    let pats: Vec<&str> = vec![QUICK_GRADE, QUICK_OVERALL, QUICK_FINAL, QUICK_SCORE, QUICK_TRAILING, QUICK_OUT_OF];
    assert(pattern_views(pats@) =~= quick_patterns());
    first_group1_of(&pats, response)
}

} // verus!
