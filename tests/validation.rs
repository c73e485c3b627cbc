use gradecore::extract::ScoreValidator;
use gradecore::models::RubricScore;

fn score(points: u64) -> RubricScore {
    RubricScore { criterion: "x".to_string(), points_awarded: points, points_possible: 1000, comments: None }
}

fn kinds(r: &gradecore::models::ValidationResult) -> Vec<(String, String)> {
    r.issues.iter().map(|i| (i.issue_type.clone(), i.severity.clone())).collect()
}

const LONG_FEEDBACK: &str = "Feedback: this submission presents a clear argument with well organised paragraphs and sound use of evidence throughout.";

#[test]
fn calculate_total_sums_awarded_points() {
    assert_eq!(ScoreValidator::calculate_total(&[]), None);
    assert_eq!(ScoreValidator::calculate_total(&[score(2500), score(3050)]), Some(5550));
    assert_eq!(ScoreValidator::calculate_total(&[score(u64::MAX), score(1)]), Some(u64::MAX));
}

#[test]
fn consistency_thresholds() {
    let same = ScoreValidator::validate_grade_consistency("B+", 8700);
    assert!(same.is_consistent);
    assert_eq!(same.confidence_penalty, 0);
    let two = ScoreValidator::validate_grade_consistency("B+", 8500);
    assert!(two.is_consistent);
    let minor = ScoreValidator::validate_grade_consistency("B+", 8400);
    assert!(!minor.is_consistent);
    assert_eq!(minor.severity, "WARNING");
    assert_eq!(minor.confidence_penalty, 10);
    assert_eq!(minor.description, "Minor inconsistency: grade 87 vs total 84");
    let major = ScoreValidator::validate_grade_consistency("B+", 8000);
    assert!(!major.is_consistent);
    assert_eq!(major.severity, "ERROR");
    assert_eq!(major.confidence_penalty, 30);
    let unknown = ScoreValidator::validate_grade_consistency("superb", 8000);
    assert!(unknown.is_consistent);
    assert_eq!(unknown.confidence_penalty, 0);
}

#[test]
fn mismatch_only_beyond_two_points() {
    let close = "Final Grade: B\nContent quality: 43 points\nWriting style: 40.5 points\n".to_string() + LONG_FEEDBACK;
    let r = ScoreValidator::advanced_validate_and_extract(&close, None);
    assert_eq!(r.calculated_total, Some(8350));
    assert!(!kinds(&r).iter().any(|k| k.0 == "GRADE_MISMATCH"));
    let far = "Final Grade: A\nContent quality: 43 points\nWriting style: 40 points\n".to_string() + LONG_FEEDBACK;
    let r = ScoreValidator::advanced_validate_and_extract(&far, None);
    assert!(kinds(&r).contains(&("GRADE_MISMATCH".to_string(), "ERROR".to_string())));
    assert_eq!(r.confidence, 70);
}

#[test]
fn short_response_is_flagged() {
    let r = ScoreValidator::advanced_validate_and_extract("Grade: A. Strengths noted.", None);
    assert!(kinds(&r).contains(&("RESPONSE_TOO_SHORT".to_string(), "WARNING".to_string())));
    let issues = ScoreValidator::validate_response_quality("short");
    assert_eq!(issues[0].issue_type, "RESPONSE_TOO_SHORT");
}

#[test]
fn refusal_is_flagged() {
    let text = "I cannot provide a grade for this submission because the text is missing. Feedback will follow once it is available to me.";
    let r = ScoreValidator::advanced_validate_and_extract(text, None);
    assert!(kinds(&r).contains(&("AI_REFUSAL".to_string(), "ERROR".to_string())));
    assert!(r.confidence <= 90);
}

#[test]
fn missing_feedback_and_grade() {
    let text = "This response talks at length about the weather and never turns to assessing the essay in any way at all, sadly.";
    let r = ScoreValidator::advanced_validate_and_extract(text, None);
    assert_eq!(
        kinds(&r),
        vec![
            ("MISSING_GRADE".to_string(), "WARNING".to_string()),
            ("MISSING_FEEDBACK".to_string(), "WARNING".to_string()),
        ]
    );
    assert_eq!(r.confidence, 75);
    assert!(r.is_valid);
}

#[test]
fn missing_rubric_criteria_are_reported() {
    let text = "Final Grade: B\nThesis clarity: 40/50 points\n".to_string() + LONG_FEEDBACK;
    let expected = vec!["Thesis Clarity".to_string(), "Use of Evidence".to_string(), "Citations".to_string()];
    let r = ScoreValidator::advanced_validate_and_extract(&text, Some(&expected));
    let missing: Vec<_> = r.issues.iter().filter(|i| i.issue_type == "MISSING_RUBRIC_SCORE").collect();
    assert_eq!(missing.len(), 2);
    assert_eq!(missing[0].description, "Missing score for criterion: Use of Evidence");
    assert_eq!(r.confidence, 30);
    assert!(!r.is_valid);
}

#[test]
fn confidence_is_floored_at_zero() {
    let expected: Vec<String> = (0..8).map(|i| format!("criterion number {}", i)).collect();
    let r = ScoreValidator::advanced_validate_and_extract("nothing", Some(&expected));
    assert_eq!(r.confidence, 0);
    assert!(!r.is_valid);
}

#[test]
fn plain_validation() {
    let r = ScoreValidator::validate_and_extract("Grade: A\nQuality: 50/50\nStyle: 20/50");
    assert_eq!(r.extracted_grade, Some("A".to_string()));
    assert_eq!(r.calculated_total, Some(7000));
    assert_eq!(kinds(&r), vec![("GRADE_MISMATCH".to_string(), "ERROR".to_string())]);
    assert_eq!(r.confidence, 70);
    let none = ScoreValidator::validate_and_extract("no grade here");
    assert_eq!(none.confidence, 80);
    assert_eq!(kinds(&none), vec![("MISSING_GRADE".to_string(), "WARNING".to_string())]);
}

#[test]
fn plain_rubric_lines() {
    let scores = ScoreValidator::extract_rubric_scores("Thesis: 8/10\nStyle: 7");
    assert_eq!(scores.len(), 2);
    assert_eq!(scores[0].criterion, "Thesis");
    assert_eq!(scores[0].points_awarded, 800);
    assert_eq!(scores[0].points_possible, 1000);
    assert_eq!(scores[1].criterion, "Style");
    assert_eq!(scores[1].points_possible, 700);
}

#[test]
fn advanced_rubric_lines_dedup_and_infer() {
    let text = "Thesis Clarity: 18/20 points\nUse of evidence: 22 points\nThesis clarity: 5 points\n";
    let scores = ScoreValidator::extract_rubric_scores_advanced(text, None);
    assert_eq!(scores.len(), 2);
    assert_eq!(scores[0].criterion, "thesis clarity");
    assert_eq!(scores[0].points_awarded, 1800);
    assert_eq!(scores[0].points_possible, 2000);
    assert_eq!(scores[1].criterion, "use of evidence");
    assert_eq!(scores[1].points_possible, 2500);
}

#[test]
fn criterion_comment_follows_its_line() {
    let text = "Organization: 8/10 points\n  Paragraphs flow logically from one to the next.\n";
    assert_eq!(
        ScoreValidator::extract_criterion_comments(text, "Organization"),
        Some("Paragraphs flow logically from one to the next.".to_string())
    );
    let numeric = "Organization (8/10)\n1234567890.5\n";
    assert_eq!(ScoreValidator::extract_criterion_comments(numeric, "Organization"), None);
    let special = "Score (x+y): 1\nthis line follows the pattern\n";
    assert_eq!(
        ScoreValidator::extract_criterion_comments(special, "Score (x+y)"),
        Some("this line follows the pattern".to_string())
    );
}

#[test]
fn line_by_line_fallback() {
    let text = "Argument strength 12\nok 5\nClarity 0\n\nStructure and flow 7.5 overall";
    let scores = ScoreValidator::extract_scores_line_by_line(text, None);
    assert_eq!(scores.len(), 2);
    assert_eq!(scores[0].criterion, "argument strength");
    assert_eq!(scores[0].points_awarded, 1200);
    assert_eq!(scores[0].points_possible, 2000);
    assert_eq!(scores[1].criterion, "structure and flow");
    assert_eq!(scores[1].points_awarded, 750);
    let via_advanced = ScoreValidator::extract_rubric_scores_advanced(text, None);
    assert_eq!(via_advanced.len(), 2);
}

#[test]
fn inferred_points_possible() {
    assert_eq!(ScoreValidator::infer_points_possible("c", None, 300), 500);
    assert_eq!(ScoreValidator::infer_points_possible("c", None, 2100), 2500);
    assert_eq!(ScoreValidator::infer_points_possible("c", None, 10000), 10000);
    assert_eq!(ScoreValidator::infer_points_possible("c", None, 15000), 15000);
    let four = vec!["a".to_string(), "b".to_string(), "c".to_string(), "d".to_string()];
    assert_eq!(ScoreValidator::infer_points_possible("c", Some(&four), 15000), 2500);
    assert_eq!(ScoreValidator::infer_points_possible("c", Some(&four), 300), 2500);
    let none: Vec<String> = vec![];
    assert_eq!(ScoreValidator::infer_points_possible("c", Some(&none), 300), 500);
}

#[test]
fn criterion_names_normalize() {
    assert_eq!(ScoreValidator::normalize_criterion_name("  Thesis,   Clarity! "), "thesis clarity");
    assert_eq!(ScoreValidator::normalize_criterion_name("Use-of\tEvidence"), "useof evidence");
    assert_eq!(ScoreValidator::normalize_criterion_name("  Use\tof   Evidence: "), "use of evidence");
    assert_eq!(ScoreValidator::normalize_criterion_name("ÉCOLE Notes"), "école notes");
    assert_eq!(ScoreValidator::normalize_criterion_name("Café Culture"), "café culture");
}

#[test]
fn criteria_matching() {
    assert!(ScoreValidator::criteria_match("thesis clarity", "Thesis Clarity"));
    assert!(ScoreValidator::criteria_match("clarity of the thesis statement", "Thesis Statement Clarity"));
    assert!(!ScoreValidator::criteria_match("grammar", "Use of Evidence"));
    assert!(!ScoreValidator::criteria_match("a a a", "a b c"));
    assert!(ScoreValidator::criteria_match("evidence of use", "use of use evidence"));
}

#[test]
fn plain_validation_warns_between_two_and_five_points() {
    let r = ScoreValidator::validate_and_extract("Grade: B+\nQuality: 40/50\nStyle: 44/50");
    assert_eq!(r.calculated_total, Some(8400));
    assert_eq!(kinds(&r), vec![("GRADE_MISMATCH".to_string(), "WARNING".to_string())]);
    assert_eq!(r.confidence, 90);
    let close = ScoreValidator::validate_and_extract("Grade: B+\nQuality: 40/50\nStyle: 46/50");
    assert!(close.issues.is_empty());
    assert_eq!(close.confidence, 100);
}

#[test]
fn unconvertible_grade_is_no_mismatch() {
    let text = "Grade: E\nContent quality: 43 points\n".to_string() + LONG_FEEDBACK;
    let r = ScoreValidator::advanced_validate_and_extract(&text, None);
    assert_eq!(r.extracted_grade, Some("E".to_string()));
    assert!(r.calculated_total.is_some());
    assert!(!kinds(&r).iter().any(|k| k.0 == "GRADE_MISMATCH"));
}

#[test]
fn fallback_scan_keeps_first_score_per_criterion() {
    let scores = ScoreValidator::extract_rubric_scores_advanced("Organization 7\nOrganization 8\nClarity level 6", None);
    assert_eq!(scores.len(), 2);
    assert_eq!(scores[0].criterion, "organization");
    assert_eq!(scores[0].points_awarded, 700);
    assert_eq!(scores[1].criterion, "clarity level");
}

#[test]
fn refusal_case_is_ignored() {
    let r = ScoreValidator::validate_response_quality("AS AN AI model I will not grade. Strengths none.");
    let kinds: Vec<String> = r.iter().map(|i| i.issue_type.clone()).collect();
    assert_eq!(kinds, vec!["RESPONSE_TOO_SHORT".to_string(), "AI_REFUSAL".to_string()]);
}
