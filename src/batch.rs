//! Summary of a batch of repeated grading runs of one submission.
use vstd::prelude::*;
use crate::aggregation::{
    agg_key, appears_before, common_in_runs, entry_matches, group_of, run_key, run_scores,
    runs_bounded, scores_of, totals_bounded, ResultAggregator, RunKey,
};
use crate::models::GradingResult;
use crate::stats::{cv_of, mean_of, median_of, range_of, reliability_of, std_of, MAX_RUNS};
use crate::text::MAX_POINTS;

verus! {

/// The most runs one batch asks for.
pub const MAX_BATCH_RUNS: u32 = 10;

/// A requested number of runs, brought into 1 to 10.
pub fn clamp_run_count(requested: u32) -> (r: u32)
    ensures
        r == (if requested < 1 {
            1
        } else if requested > MAX_BATCH_RUNS {
            MAX_BATCH_RUNS
        } else {
            requested
        }),
{
    if requested < 1 {
        1
    } else if requested > MAX_BATCH_RUNS {
        MAX_BATCH_RUNS
    } else {
        requested
    }
}

/// The outcome of a batch: scores in hundredths of a point, ratios in
/// ten-thousandths, and each successful run's grade, total and response.
pub struct MultipleRunsResponse {
    pub success: bool,
    pub run_count: u32,
    pub mean_score: u64,
    pub median_score: u64,
    pub std_deviation: u64,
    pub coefficient_of_variation: u64,
    pub score_range: u64,
    pub reliability_score: u64,
    pub individual_grades: Vec<Option<String>>,
    pub individual_scores: Vec<Option<u64>>,
    pub common_strengths: Vec<String>,
    pub common_improvements: Vec<String>,
    pub individual_responses: Vec<String>,
}

pub const ALL_RUNS_FAILED: &'static str = "All grading runs failed";
pub const NOTHING_TO_AGGREGATE: &'static str = "Failed to aggregate results";

/// The reply to a single trial grading: the run's findings, or the error
/// text in place of the response. `total_points` is in hundredths.
pub struct TestGradingResponse {
    pub success: bool,
    pub overall_grade: Option<String>,
    pub total_points: Option<u64>,
    pub summary_feedback: Option<String>,
    pub strengths: Vec<String>,
    pub improvements: Vec<String>,
    pub raw_response: String,
}

/// Reports one trial run, successful or not.
pub fn test_grading_response(outcome: Result<GradingResult, String>) -> (r: TestGradingResponse)
    ensures
        match outcome {
            Ok(g) => {
                &&& r.success
                &&& r.overall_grade == g.overall_grade
                &&& r.total_points == g.total_points
                &&& r.summary_feedback == g.summary_feedback
                &&& r.strengths == g.strengths
                &&& r.improvements == g.improvements
                &&& r.raw_response == g.raw_response
            },
            Err(e) => {
                &&& !r.success
                &&& r.overall_grade.is_none()
                &&& r.total_points.is_none()
                &&& r.summary_feedback.is_none()
                &&& r.strengths@.len() == 0
                &&& r.improvements@.len() == 0
                &&& r.raw_response == e
            },
        },
{
    match outcome {
        Ok(g) => TestGradingResponse {
            success: true,
            overall_grade: g.overall_grade,
            total_points: g.total_points,
            summary_feedback: g.summary_feedback,
            strengths: g.strengths,
            improvements: g.improvements,
            raw_response: g.raw_response,
        },
        Err(e) => TestGradingResponse {
            success: false,
            overall_grade: None,
            total_points: None,
            summary_feedback: None,
            strengths: Vec::new(),
            improvements: Vec::new(),
            raw_response: e,
        },
    }
}

/// The runs that succeeded, in order.
pub open spec fn successes(outcomes: Seq<Result<GradingResult, String>>) -> Seq<GradingResult>
    decreases outcomes.len(),
{
    if outcomes.len() == 0 {
        seq![]
    } else {
        match outcomes.last() {
            Ok(r) => successes(outcomes.drop_last()).push(r),
            Err(_) => successes(outcomes.drop_last()),
        }
    }
}

/// Some run of key `k` has a total.
pub open spec fn scored_key(rs: Seq<GradingResult>, k: RunKey) -> bool {
    scores_of(group_of(rs, k)).len() > 0
}

/// `k` is the scored key that appears first.
pub open spec fn leading_key(rs: Seq<GradingResult>, k: RunKey) -> bool {
    scored_key(rs, k) && forall|k2: RunKey| scored_key(rs, k2) && k2 != k ==> appears_before(rs, k, k2)
}

pub open spec fn any_scored(rs: Seq<GradingResult>) -> bool {
    exists|x: int| 0 <= x < rs.len() && (#[trigger] rs[x]).total_points.is_some()
}

/// The batch response describes the runs `rs` and the group of key `k`.
pub open spec fn describes(resp: MultipleRunsResponse, rs: Seq<GradingResult>, k: RunKey) -> bool {
    let g = group_of(rs, k);
    let t = run_scores(g);
    &&& resp.success
    &&& resp.run_count == t.len()
    &&& resp.mean_score == mean_of(t)
    &&& resp.median_score == median_of(t)
    &&& resp.std_deviation == std_of(t)
    &&& resp.coefficient_of_variation == cv_of(t)
    &&& resp.score_range == range_of(t)
    &&& resp.reliability_score == reliability_of(t)
    &&& common_in_runs(g, false, resp.common_strengths.deep_view())
    &&& common_in_runs(g, true, resp.common_improvements.deep_view())
    &&& resp.individual_grades.deep_view() == rs.map_values(|r: GradingResult| r.overall_grade.deep_view())
    &&& resp.individual_scores@ == rs.map_values(|r: GradingResult| r.total_points)
    &&& resp.individual_responses.deep_view() == rs.map_values(|r: GradingResult| r.raw_response@)
}

pub open spec fn outcomes_bounded(outcomes: Seq<Result<GradingResult, String>>) -> bool {
    outcomes.len() <= MAX_RUNS && forall|i: int|
        0 <= i < outcomes.len() ==> match #[trigger] outcomes[i] {
            Ok(r) => match r.total_points {
                Some(v) => v <= MAX_POINTS,
                None => true,
            },
            Err(_) => true,
        }
}

proof fn lemma_successes_bounded(outcomes: Seq<Result<GradingResult, String>>)
    requires
        outcomes_bounded(outcomes),
    ensures
        runs_bounded(successes(outcomes)),
        successes(outcomes).len() <= outcomes.len(),
    decreases outcomes.len(),
{
    if outcomes.len() > 0 {
        assert(outcomes_bounded(outcomes.drop_last())) by {
            assert forall|i: int| 0 <= i < outcomes.drop_last().len() implies match #[trigger] outcomes.drop_last()[i] {
                Ok(r) => match r.total_points {
                    Some(v) => v <= MAX_POINTS,
                    None => true,
                },
                Err(_) => true,
            } by {
                assert(outcomes.drop_last()[i] == outcomes[i]);
            }
        }
        lemma_successes_bounded(outcomes.drop_last());
        let s = successes(outcomes);
        let s0 = successes(outcomes.drop_last());
        assert(match outcomes[outcomes.len() - 1] {
            Ok(r) => match r.total_points {
                Some(v) => v <= MAX_POINTS,
                None => true,
            },
            Err(_) => true,
        });
        assert(totals_bounded(s)) by {
            assert forall|i: int| 0 <= i < s.len() implies match #[trigger] s[i].total_points {
                Some(v) => v <= MAX_POINTS,
                None => true,
            } by {
                if i < s0.len() {
                    assert(s[i] == s0[i]);
                }
            }
        }
    }
}

proof fn lemma_group_bounded(rs: Seq<GradingResult>, k: RunKey)
    requires
        runs_bounded(rs),
    ensures
        runs_bounded(group_of(rs, k)),
        group_of(rs, k).len() <= rs.len(),
    decreases rs.len(),
{
    if rs.len() > 0 {
        assert(runs_bounded(rs.drop_last())) by {
            assert forall|i: int| 0 <= i < rs.drop_last().len() implies match #[trigger] rs.drop_last()[i].total_points {
                Some(v) => v <= MAX_POINTS,
                None => true,
            } by {
                assert(rs.drop_last()[i] == rs[i]);
            }
        }
        lemma_group_bounded(rs.drop_last(), k);
        let g = group_of(rs, k);
        let g0 = group_of(rs.drop_last(), k);
        assert(match rs[rs.len() - 1].total_points {
            Some(v) => v <= MAX_POINTS,
            None => true,
        });
        assert(totals_bounded(g)) by {
            assert forall|i: int| 0 <= i < g.len() implies match #[trigger] g[i].total_points {
                Some(v) => v <= MAX_POINTS,
                None => true,
            } by {
                if i < g0.len() {
                    assert(g[i] == g0[i]);
                }
            }
        }
    }
}

proof fn lemma_scored_has_run(rs: Seq<GradingResult>, k: RunKey)
    requires
        scored_key(rs, k),
    ensures
        exists|x: int| 0 <= x < rs.len() && run_key(rs[x]) == k && (#[trigger] rs[x]).total_points.is_some(),
    decreases rs.len(),
{
    if rs.len() > 0 {
        let last = rs.last();
        if run_key(last) == k && last.total_points.is_some() {
            assert(rs[rs.len() - 1] == last);
        } else {
            let g0 = group_of(rs.drop_last(), k);
            assert(g0.push(last).drop_last() =~= g0);
            assert(scored_key(rs.drop_last(), k));
            lemma_scored_has_run(rs.drop_last(), k);
            let x = choose|x: int| 0 <= x < rs.drop_last().len() && run_key(rs.drop_last()[x]) == k && (#[trigger] rs.drop_last()[x]).total_points.is_some();
            assert(rs[x] == rs.drop_last()[x]);
        }
    }
}

/// Collapses a batch: the runs that succeeded are listed one by one and
/// aggregated, the group of the first scored key summarized. A batch with no
/// success, or with no total among its successes, is an error.
pub fn summarize_runs(outcomes: Vec<Result<GradingResult, String>>) -> (r: Result<MultipleRunsResponse, String>)
    requires
        outcomes_bounded(outcomes@),
    ensures
        successes(outcomes@).len() == 0 ==> r is Err && r->Err_0@ == ALL_RUNS_FAILED@,
        successes(outcomes@).len() > 0 && !any_scored(successes(outcomes@)) ==> r is Err && r->Err_0@ == NOTHING_TO_AGGREGATE@,
        any_scored(successes(outcomes@)) ==> r is Ok && exists|k: RunKey|
            leading_key(successes(outcomes@), k) && describes(r->Ok_0, successes(outcomes@), k),
{
    let ghost all = outcomes@;
    let n: usize = outcomes.len();
    let mut rest = outcomes;
    let mut runs: Vec<GradingResult> = Vec::new();
    let mut i: usize = 0;
    while i < n
        invariant
            n == all.len(),
            i <= n,
            rest@ == all.subrange(i as int, n as int),
            runs@ == successes(all.subrange(0, i as int)),
        decreases n - i,
    {
        let o = rest.remove(0);
        assert(all.subrange(0, i + 1).drop_last() =~= all.subrange(0, i as int));
        assert(o == all[i as int]);
        match o {
            Ok(run) => runs.push(run),
            Err(_) => {},
        }
        i += 1;
    }
    assert(all.subrange(0, n as int) =~= all);
    let ghost rs = runs@;
    proof {
        lemma_successes_bounded(all);
    }
    if runs.len() == 0 {
        return Err(String::from_str(ALL_RUNS_FAILED));
    }
    let m: usize = runs.len();
    let mut grades: Vec<Option<String>> = Vec::new();
    let mut scores: Vec<Option<u64>> = Vec::new();
    let mut responses: Vec<String> = Vec::new();
    let mut j: usize = 0;
    while j < m
        invariant
            m == rs.len(),
            runs@ == rs,
            j <= m,
            grades.deep_view() == rs.subrange(0, j as int).map_values(|r: GradingResult| r.overall_grade.deep_view()),
            scores@ == rs.subrange(0, j as int).map_values(|r: GradingResult| r.total_points),
            responses.deep_view() == rs.subrange(0, j as int).map_values(|r: GradingResult| r.raw_response@),
        decreases m - j,
    {
        let g = match &runs[j].overall_grade {
            Some(x) => Some(x.clone()),
            None => None,
        };
        let ghost gv = grades.deep_view();
        let ghost rv = responses.deep_view();
        grades.push(g);
        scores.push(runs[j].total_points);
        responses.push(runs[j].raw_response.clone());
        assert(grades.deep_view() =~= gv.push(rs[j as int].overall_grade.deep_view()));
        assert(responses.deep_view() =~= rv.push(rs[j as int].raw_response@));
        assert(rs.subrange(0, j + 1).map_values(|r: GradingResult| r.overall_grade.deep_view()) =~= rs.subrange(0, j as int).map_values(|r: GradingResult| r.overall_grade.deep_view()).push(rs[j as int].overall_grade.deep_view()));
        assert(rs.subrange(0, j + 1).map_values(|r: GradingResult| r.total_points) =~= rs.subrange(0, j as int).map_values(|r: GradingResult| r.total_points).push(rs[j as int].total_points));
        assert(rs.subrange(0, j + 1).map_values(|r: GradingResult| r.raw_response@) =~= rs.subrange(0, j as int).map_values(|r: GradingResult| r.raw_response@).push(rs[j as int].raw_response@));
        j += 1;
    }
    assert(rs.subrange(0, m as int) =~= rs);
    let mut aggregated = ResultAggregator::aggregate_results(runs);
    if aggregated.len() == 0 {
        return Err(String::from_str(NOTHING_TO_AGGREGATE));
    }
    let ghost aggv = aggregated@;
    let first = aggregated.remove(0);
    let ghost k = agg_key(first);
    proof {
        assert(first == aggv[0]);
        lemma_group_bounded(rs, k);
    }
    let metrics = ResultAggregator::calculate_consistency_metrics(&first);
    let resp = MultipleRunsResponse {
        success: true,
        run_count: metrics.run_count,
        mean_score: first.mean_score,
        median_score: first.median_score,
        std_deviation: first.std_deviation,
        coefficient_of_variation: first.coefficient_of_variation,
        score_range: metrics.score_range,
        reliability_score: metrics.reliability_score,
        individual_grades: grades,
        individual_scores: scores,
        common_strengths: first.common_strengths,
        common_improvements: first.common_improvements,
        individual_responses: responses,
    };
    proof {
        assert(entry_matches(rs, first));
        assert forall|k2: RunKey| scored_key(rs, k2) && k2 != k implies appears_before(rs, k, k2) by {
            lemma_scored_has_run(rs, k2);
            let x = choose|x: int| 0 <= x < rs.len() && run_key(rs[x]) == k2 && (#[trigger] rs[x]).total_points.is_some();
            assert(rs[x].total_points.is_some());
            let i = choose|i: int| 0 <= i < aggv.len() && agg_key(#[trigger] aggv[i]) == run_key(rs[x]);
            assert(i != 0);
            assert(appears_before(rs, agg_key(aggv[0]), agg_key(aggv[i])));
        }
        crate::aggregation::lemma_sorted_len(scores_of(group_of(rs, k)));
        assert(leading_key(rs, k));
        assert(describes(resp, rs, k));
    }
    Ok(resp)
}

} // verus!
