use gradecore::aggregation::{normalize_feedback, ResultAggregator};
use gradecore::batch::{clamp_run_count, summarize_runs, test_grading_response};
use gradecore::models::{GradingResult, ValidationResult};

fn run(sub: &str, provider: &str, tier: &str, n: u32, total: Option<u64>, strengths: &[&str]) -> GradingResult {
    GradingResult {
        id: format!("run-{}", n),
        submission_id: sub.to_string(),
        provider_id: provider.to_string(),
        tier: tier.to_string(),
        run_number: n,
        created_at: 0,
        raw_response: String::new(),
        overall_grade: None,
        total_points: total,
        rubric_scores: vec![],
        summary_feedback: None,
        strengths: strengths.iter().map(|s| s.to_string()).collect(),
        improvements: vec![],
        validation_result: ValidationResult {
            is_valid: true,
            confidence: 100,
            issues: vec![],
            extracted_grade: None,
            calculated_total: None,
        },
    }
}

#[test]
fn three_runs_statistics() {
    let runs = vec![
        run("s", "p", "basic", 1, Some(8000), &[]),
        run("s", "p", "basic", 2, Some(8500), &[]),
        run("s", "p", "basic", 3, Some(9000), &[]),
    ];
    let agg = ResultAggregator::aggregate_results(runs);
    assert_eq!(agg.len(), 1);
    let a = &agg[0];
    assert_eq!(a.mean_score, 8500);
    assert_eq!(a.median_score, 8500);
    assert_eq!(a.std_deviation, 500);
    assert_eq!(a.coefficient_of_variation, 588);
    assert_eq!(a.individual_results.len(), 3);
    let m = ResultAggregator::calculate_consistency_metrics(a);
    assert_eq!(m.run_count, 3);
    assert_eq!(m.score_range, 1000);
    assert_eq!(m.reliability_score, 10000 - 588);
}

#[test]
fn single_run_is_perfectly_reliable() {
    let agg = ResultAggregator::aggregate_results(vec![run("s", "p", "basic", 1, Some(7300), &[])]);
    let m = ResultAggregator::calculate_consistency_metrics(&agg[0]);
    assert_eq!(m.run_count, 1);
    assert_eq!(m.score_range, 0);
    assert_eq!(m.reliability_score, 10000);
    assert_eq!(agg[0].std_deviation, 0);
}

#[test]
fn no_scorable_runs_give_no_groups() {
    assert!(ResultAggregator::aggregate_results(vec![]).is_empty());
    let unscored = vec![run("s", "p", "basic", 1, None, &[]), run("t", "p", "basic", 1, None, &[])];
    assert!(ResultAggregator::aggregate_results(unscored).is_empty());
}

#[test]
fn groups_are_keyed_by_submission_provider_and_tier() {
    let runs = vec![
        run("s", "p", "basic", 1, Some(8000), &[]),
        run("s", "q", "basic", 1, Some(6000), &[]),
        run("s", "p", "enhanced", 1, None, &[]),
        run("s", "p", "basic", 2, Some(9000), &[]),
    ];
    let agg = ResultAggregator::aggregate_results(runs);
    assert_eq!(agg.len(), 2);
    assert_eq!(agg[0].provider_id, "p");
    assert_eq!(agg[0].mean_score, 8500);
    assert_eq!(agg[0].median_score, 8500);
    assert_eq!(agg[0].std_deviation, 707);
    assert_eq!(agg[1].provider_id, "q");
    assert_eq!(agg[1].mean_score, 6000);
}

#[test]
fn order_does_not_change_statistics() {
    let make = |order: &[usize]| {
        let totals = [7000u64, 9100, 8200, 6400];
        order.iter().map(|&i| run("s", "p", "basic", i as u32, Some(totals[i]), &[])).collect::<Vec<_>>()
    };
    let a = ResultAggregator::aggregate_results(make(&[0, 1, 2, 3]));
    let b = ResultAggregator::aggregate_results(make(&[3, 1, 0, 2]));
    assert_eq!(a[0].mean_score, b[0].mean_score);
    assert_eq!(a[0].median_score, b[0].median_score);
    assert_eq!(a[0].median_score, 7600);
    assert_eq!(a[0].std_deviation, b[0].std_deviation);
    assert_eq!(a[0].coefficient_of_variation, b[0].coefficient_of_variation);
}

#[test]
fn common_feedback_items() {
    let runs = vec![
        run("s", "p", "basic", 1, Some(8000), &["Clear writing", "Good sources"]),
        run("s", "p", "basic", 2, Some(8000), &["  clear WRITING ", "Strong thesis"]),
        run("s", "p", "basic", 3, Some(8000), &["Strong Thesis"]),
    ];
    let agg = ResultAggregator::aggregate_results(runs);
    assert_eq!(agg[0].common_strengths, vec!["clear writing".to_string(), "strong thesis".to_string()]);
    assert!(agg[0].common_improvements.is_empty());
}

#[test]
fn find_common_items_keeps_repeated_once() {
    let items: Vec<String> = ["a", "A ", "b", "a"].iter().map(|s| s.to_string()).collect();
    assert_eq!(ResultAggregator::find_common_items(&items), vec!["a".to_string()]);
}

#[test]
fn normalizing_twice_changes_nothing() {
    let once = normalize_feedback("  Needs MORE Examples\t");
    assert_eq!(once, "needs more examples");
    assert_eq!(normalize_feedback(&once), once);
}

#[test]
fn statistics_helpers() {
    assert_eq!(ResultAggregator::calculate_mean(&vec![]), 0);
    assert_eq!(ResultAggregator::calculate_mean(&vec![100, 200, 301]), 200);
    assert_eq!(ResultAggregator::calculate_median(&vec![900, 100, 500, 300]), 400);
    assert_eq!(ResultAggregator::calculate_median(&vec![]), 0);
    assert_eq!(ResultAggregator::calculate_std_deviation(&vec![5000]), 0);
    assert_eq!(ResultAggregator::calculate_std_deviation(&vec![0, 10000]), 7071);
    assert_eq!(ResultAggregator::calculate_reliability(&vec![0, 10000]), 0);
    assert_eq!(ResultAggregator::calculate_reliability(&vec![0, 0]), 10000);
}

#[test]
fn batch_of_runs_is_summarized() {
    let outcomes = vec![
        Ok(run("s", "p", "basic", 1, Some(8000), &["Clear"])),
        Err("timeout".to_string()),
        Ok(run("s", "p", "basic", 3, Some(9000), &["clear "])),
    ];
    let resp = summarize_runs(outcomes).unwrap();
    assert!(resp.success);
    assert_eq!(resp.run_count, 2);
    assert_eq!(resp.mean_score, 8500);
    assert_eq!(resp.median_score, 8500);
    assert_eq!(resp.std_deviation, 707);
    assert_eq!(resp.coefficient_of_variation, 831);
    assert_eq!(resp.score_range, 1000);
    assert_eq!(resp.reliability_score, 9169);
    assert_eq!(resp.individual_scores, vec![Some(8000), Some(9000)]);
    assert_eq!(resp.individual_responses.len(), 2);
    assert_eq!(resp.common_strengths, vec!["clear".to_string()]);
}

#[test]
fn batch_failures_are_reported() {
    let none = summarize_runs(vec![Err("a".to_string()), Err("b".to_string())]);
    assert_eq!(none.err(), Some("All grading runs failed".to_string()));
    let unscored = summarize_runs(vec![Ok(run("s", "p", "basic", 1, None, &[]))]);
    assert_eq!(unscored.err(), Some("Failed to aggregate results".to_string()));
}

#[test]
fn batch_size_is_clamped() {
    assert_eq!(clamp_run_count(0), 1);
    assert_eq!(clamp_run_count(4), 4);
    assert_eq!(clamp_run_count(50), 10);
}

#[test]
fn trial_grading_reply() {
    let ok = test_grading_response(Ok(run("s", "p", "basic", 1, Some(8100), &["Clear"])));
    assert!(ok.success);
    assert_eq!(ok.total_points, Some(8100));
    assert_eq!(ok.strengths, vec!["Clear".to_string()]);
    let failed = test_grading_response(Err("provider unreachable".to_string()));
    assert!(!failed.success);
    assert_eq!(failed.total_points, None);
    assert!(failed.strengths.is_empty());
    assert_eq!(failed.raw_response, "provider unreachable");
}

#[test]
fn common_items_need_two_runs() {
    let runs = vec![
        run("s", "p", "basic", 1, Some(8000), &["Clear", "clear", "Focused"]),
        run("s", "p", "basic", 2, Some(8000), &["focused "]),
    ];
    let agg = ResultAggregator::aggregate_results(runs);
    assert_eq!(agg[0].common_strengths, vec!["focused".to_string()]);
}

#[test]
fn feedback_normalization_is_unicode_aware() {
    assert_eq!(normalize_feedback("  ÉCOLE Work "), "école work");
}
