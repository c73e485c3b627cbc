//! The records that flow through the grading pipeline.
use vstd::prelude::*;

verus! {

/// One scored rubric line: points in hundredths of a point.
pub struct RubricScore {
    pub criterion: String,
    pub points_awarded: u64,
    pub points_possible: u64,
    pub comments: Option<String>,
}

/// A finding of the validator: `issue_type` is one of `MISSING_GRADE`,
/// `MISSING_RUBRIC_SCORE`, `GRADE_MISMATCH`, `RESPONSE_TOO_SHORT`,
/// `AI_REFUSAL`, `MISSING_FEEDBACK`; `severity` is `WARNING` or `ERROR`.
pub struct ValidationIssue {
    pub issue_type: String,
    pub severity: String,
    pub description: String,
    pub suggested_fix: Option<String>,
}

/// Outcome of validating one grader response; `confidence` is in percent.
pub struct ValidationResult {
    pub is_valid: bool,
    pub confidence: u32,
    pub issues: Vec<ValidationIssue>,
    pub extracted_grade: Option<String>,
    pub calculated_total: Option<u64>,
}

/// One grading run. `total_points` is in hundredths of a point and
/// `created_at` in seconds since the Unix epoch.
pub struct GradingResult {
    pub id: String,
    pub submission_id: String,
    pub provider_id: String,
    pub tier: String,
    pub run_number: u32,
    pub created_at: i64,
    pub raw_response: String,
    pub overall_grade: Option<String>,
    pub total_points: Option<u64>,
    pub rubric_scores: Vec<RubricScore>,
    pub summary_feedback: Option<String>,
    pub strengths: Vec<String>,
    pub improvements: Vec<String>,
    pub validation_result: ValidationResult,
}

/// Statistics over the runs of one (submission, provider, tier) group.
/// Scores are in hundredths of a point, `coefficient_of_variation` in
/// ten-thousandths.
pub struct AggregatedResult {
    pub submission_id: String,
    pub provider_id: String,
    pub tier: String,
    pub mean_score: u64,
    pub median_score: u64,
    pub std_deviation: u64,
    pub coefficient_of_variation: u64,
    pub individual_results: Vec<GradingResult>,
    pub consensus_feedback: Option<String>,
    pub common_strengths: Vec<String>,
    pub common_improvements: Vec<String>,
}

/// Spread of the scores of one group: `score_range` in hundredths of a
/// point, `reliability_score` in ten-thousandths (10000 is perfect).
pub struct ConsistencyMetrics {
    pub run_count: u32,
    pub score_range: u64,
    pub reliability_score: u64,
}

/// A citation found in a submission.
pub struct Citation {
    pub text: String,
    pub style: String,
    pub doi: Option<String>,
    pub url: Option<String>,
    pub verified: bool,
}

/// The check of one reference; `status` is `valid`, `invalid` or `warning`.
pub struct ReferenceCheck {
    pub citation: String,
    pub status: String,
    pub message: Option<String>,
}

} // verus!
