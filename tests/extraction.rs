use gradecore::engine::{GradingEngine, GradingTier, Submission};
use gradecore::extract::ScoreValidator;

fn submission(text: Option<&str>) -> Submission {
    Submission {
        id: "sub-1".to_string(),
        project_id: "proj-1".to_string(),
        original_filename: "essay.txt".to_string(),
        file_hash: "hash".to_string(),
        file_type: "txt".to_string(),
        word_count: 12,
        status: "processed".to_string(),
        extracted_text: text.map(|t| t.to_string()),
        imported_at: 0,
    }
}

#[test]
fn labeled_letter_grade_is_extracted() {
    let engine = GradingEngine::new();
    let text = "Summary of the work.\nGrade: B+\nStrengths:\n- Clear thesis";
    assert_eq!(engine.extract_overall_grade(text), Some("B+".to_string()));
    assert_eq!(ScoreValidator::extract_grade_advanced(text), Some("B+".to_string()));
    assert_eq!(ScoreValidator::extract_grade(text), Some("B+".to_string()));
}

#[test]
fn overall_grade_label_is_case_insensitive() {
    let engine = GradingEngine::new();
    assert_eq!(engine.extract_overall_grade("overall grade: a-"), Some("a-".to_string()));
}

#[test]
fn score_fraction_gives_total_and_percentage() {
    let engine = GradingEngine::new();
    let text = "Score: 85/100\nGood work overall.";
    assert_eq!(engine.extract_total_points(text), Some(8500));
    assert_eq!(ScoreValidator::extract_grade_advanced(text), Some("85".to_string()));
    assert_eq!(engine.extract_overall_grade(text), Some("B".to_string()));
}

#[test]
fn fraction_is_rounded_to_whole_percent() {
    assert_eq!(ScoreValidator::extract_grade_advanced("Points: 17 out of 20"), Some("85".to_string()));
    assert_eq!(ScoreValidator::extract_grade_advanced("Score: 2/3"), Some("67".to_string()));
}

#[test]
fn zero_denominator_gives_no_fraction_grade() {
    assert_eq!(ScoreValidator::extract_grade_advanced("Score: 5/0"), Some("5".to_string()));
}

#[test]
fn labeled_fraction_is_normalized() {
    assert_eq!(ScoreValidator::extract_grade_advanced("Final Grade: 17/20"), Some("85".to_string()));
    assert_eq!(ScoreValidator::extract_grade_advanced("Grade: 45/50"), Some("90".to_string()));
}

#[test]
fn no_grade_in_plain_prose() {
    let engine = GradingEngine::new();
    assert_eq!(engine.extract_overall_grade("nothing to see here"), None);
    assert_eq!(ScoreValidator::extract_grade_advanced("nothing to see here"), None);
    assert_eq!(engine.extract_total_points("nothing to see here"), None);
}

#[test]
fn decimal_totals_are_read_in_hundredths() {
    let engine = GradingEngine::new();
    assert_eq!(engine.extract_total_points("Total: 87.5"), Some(8750));
    assert_eq!(engine.extract_total_points("Total: 87.456"), Some(8745));
}

#[test]
fn percentage_letters() {
    let engine = GradingEngine::new();
    assert_eq!(engine.convert_percentage_to_grade(100), "A+");
    assert_eq!(engine.convert_percentage_to_grade(97), "A+");
    assert_eq!(engine.convert_percentage_to_grade(96), "A");
    assert_eq!(engine.convert_percentage_to_grade(90), "A-");
    assert_eq!(engine.convert_percentage_to_grade(85), "B");
    assert_eq!(engine.convert_percentage_to_grade(72), "C-");
    assert_eq!(engine.convert_percentage_to_grade(60), "D-");
    assert_eq!(engine.convert_percentage_to_grade(59), "F");
    assert_eq!(engine.convert_percentage_to_grade(101), "F");
}

#[test]
fn grade_to_numeric_table_and_formats() {
    assert_eq!(ScoreValidator::grade_to_numeric("A+"), Some(9700));
    assert_eq!(ScoreValidator::grade_to_numeric("b+"), Some(8700));
    assert_eq!(ScoreValidator::grade_to_numeric("F"), Some(5000));
    assert_eq!(ScoreValidator::grade_to_numeric("85"), Some(8500));
    assert_eq!(ScoreValidator::grade_to_numeric("85.5"), Some(8550));
    assert_eq!(ScoreValidator::grade_to_numeric("17/20"), Some(8500));
    assert_eq!(ScoreValidator::grade_to_numeric("90%"), Some(9000));
    assert_eq!(ScoreValidator::grade_to_numeric("1/2/3"), None);
    assert_eq!(ScoreValidator::grade_to_numeric("excellent"), None);
}

#[test]
fn summary_feedback_is_collected_until_next_section() {
    let engine = GradingEngine::new();
    let text = "Overall Feedback:\nThe essay is clear.\n\n  It argues well.  \nStrengths:\n- Clear";
    assert_eq!(
        engine.extract_summary_feedback(text),
        Some("The essay is clear. It argues well.".to_string())
    );
    assert_eq!(engine.extract_summary_feedback("Strengths:\n- Clear"), None);
}

#[test]
fn strengths_and_improvements_lists() {
    let engine = GradingEngine::new();
    let text = "Strengths:\n- Clear thesis\n• Solid sources\n1. Strong conclusion\nnot an item\nAreas for Improvement:\n- More examples\n2. Tighter prose\nGrade: B";
    assert_eq!(
        engine.extract_strengths(text),
        vec![
            "Clear thesis".to_string(),
            "Solid sources".to_string(),
            "Strong conclusion".to_string(),
            "More examples".to_string(),
            "Tighter prose".to_string(),
        ]
    );
    assert_eq!(
        engine.extract_improvements(text),
        vec!["More examples".to_string(), "Tighter prose".to_string()]
    );
}

#[test]
fn parse_grading_response_fills_a_run() {
    let engine = GradingEngine::new();
    let sub = submission(Some("An essay."));
    let text = "Grade: B+\nTotal: 87\nSummary:\nSolid.\nStrengths:\n- Clear";
    let run = engine.parse_grading_response(text, &sub, "openai", &GradingTier::Basic, 2);
    assert_eq!(run.submission_id, "sub-1");
    assert_eq!(run.provider_id, "openai");
    assert_eq!(run.tier, "basic");
    assert_eq!(run.run_number, 2);
    assert_eq!(run.raw_response, text);
    assert_eq!(run.overall_grade, Some("B+".to_string()));
    assert_eq!(run.total_points, Some(8700));
    assert_eq!(run.summary_feedback, Some("Solid.".to_string()));
    assert_eq!(run.strengths, vec!["Clear".to_string()]);
    assert_eq!(run.id.len(), 36);
    assert!(run.created_at > 1_600_000_000);
    let other = engine.parse_grading_response(text, &sub, "openai", &GradingTier::Basic, 3);
    assert_ne!(run.id, other.id);
}

#[test]
fn assemble_result_keeps_given_identity() {
    let engine = GradingEngine::new();
    let sub = submission(None);
    let run = engine.assemble_result("Grade: A", &sub, "p", &GradingTier::AssignmentAware, 1, "run-7".to_string(), 42);
    assert_eq!(run.id, "run-7");
    assert_eq!(run.created_at, 42);
    assert_eq!(run.tier, "assignment-aware");
    assert_eq!(run.validation_result.extracted_grade, Some("A".to_string()));
}

#[test]
fn tier_names() {
    assert_eq!(GradingTier::Basic.to_string(), "basic");
    assert_eq!(GradingTier::Enhanced.to_string(), "enhanced");
    assert_eq!(GradingTier::AssignmentAware.to_string(), "assignment-aware");
}

#[test]
fn totals_beyond_the_largest_amount_are_not_read() {
    let engine = GradingEngine::new();
    assert_eq!(engine.extract_total_points("Total: 10000000"), Some(1_000_000_000));
    assert_eq!(engine.extract_total_points("Total: 10000001"), None);
    assert_eq!(engine.extract_total_points("Total: 99999999999999999999"), None);
}

#[test]
fn grading_request_uses_low_temperature() {
    let engine = GradingEngine::new();
    let sub = submission(Some("Essay body."));
    let req = engine.grading_request(&sub, &GradingTier::Basic, "R", None, None);
    assert_eq!(req.temperature, 10);
    assert_eq!(req.max_tokens, Some(2000));
    assert!(req.prompt.contains("RUBRIC:\nR\n\nSUBMISSION:\nEssay body."));
    assert!(req.system_prompt.is_some());
}
