//! Statistical aggregation of repeated grading runs.
use vstd::prelude::*;
use crate::models::{AggregatedResult, ConsistencyMetrics, GradingResult};
use crate::stats::{
    bounded, cv_of, ints, is_isqrt, isqrt, lemma_isqrt_unique, mean_of, median_of,
    reliability_of, scaled_sq_dev, seq_sum, sort_scores, sorted_scores, std_of, range_of,
    ascending, lemma_sorted_ascending, lemma_sorted_unique, lemma_map_multiset, RATIO_ONE,
    MAX_RUNS,
};
use crate::text::{lower_of, chars_of, same_chars, string_of, trim, trim_vec, MAX_POINTS};

verus! {

pub struct ResultAggregator;

pub type RunKey = (Seq<char>, Seq<char>, Seq<char>);

/// Runs are grouped by submission, provider and tier.
pub open spec fn run_key(r: GradingResult) -> RunKey {
    (r.submission_id@, r.provider_id@, r.tier@)
}

pub open spec fn agg_key(a: AggregatedResult) -> RunKey {
    (a.submission_id@, a.provider_id@, a.tier@)
}

/// The runs of `rs` with key `k`, in order.
pub open spec fn group_of(rs: Seq<GradingResult>, k: RunKey) -> Seq<GradingResult>
    decreases rs.len(),
{
    if rs.len() == 0 {
        seq![]
    } else if run_key(rs.last()) == k {
        group_of(rs.drop_last(), k).push(rs.last())
    } else {
        group_of(rs.drop_last(), k)
    }
}

/// The total points of the runs that have one, in order.
pub open spec fn scores_of(rs: Seq<GradingResult>) -> Seq<u64>
    decreases rs.len(),
{
    if rs.len() == 0 {
        seq![]
    } else {
        match rs.last().total_points {
            Some(v) => scores_of(rs.drop_last()).push(v),
            None => scores_of(rs.drop_last()),
        }
    }
}

/// The scores of a set of runs in ascending order: every statistic is
/// taken over this sequence.
pub open spec fn run_scores(rs: Seq<GradingResult>) -> Seq<int> {
    sorted_scores(ints(scores_of(rs)))
}

/// Totals stay within what the statistics hold exactly.
pub open spec fn runs_bounded(rs: Seq<GradingResult>) -> bool {
    rs.len() <= MAX_RUNS && totals_bounded(rs)
}

/// The strengths (or, with `improvements`, the improvements) of one run.
pub open spec fn feedback_of(r: GradingResult, improvements: bool) -> Seq<Seq<char>> {
    if improvements {
        r.improvements.deep_view()
    } else {
        r.strengths.deep_view()
    }
}

/// The run lists `x` once its items are normalized.
pub open spec fn run_has(r: GradingResult, improvements: bool, x: Seq<char>) -> bool {
    exists|k: int| 0 <= k < feedback_of(r, improvements).len() && norm_feedback(#[trigger] feedback_of(r, improvements)[k]) == x
}

/// How many runs list `x`.
pub open spec fn runs_listing(rs: Seq<GradingResult>, improvements: bool, x: Seq<char>) -> nat
    decreases rs.len(),
{
    if rs.len() == 0 {
        0
    } else {
        runs_listing(rs.drop_last(), improvements, x) + if run_has(rs.last(), improvements, x) {
            1nat
        } else {
            0nat
        }
    }
}

/// `r` lists, once each, the normalized items that more than one run lists.
pub open spec fn common_in_runs(rs: Seq<GradingResult>, improvements: bool, r: Seq<Seq<char>>) -> bool {
    &&& forall|i: int| 0 <= i < r.len() ==> runs_listing(rs, improvements, #[trigger] r[i]) >= 2
    &&& forall|x: Seq<char>| runs_listing(rs, improvements, x) >= 2 ==> r.contains(x)
    &&& forall|i: int, j: int| 0 <= i < j < r.len() ==> r[i] != r[j]
}

/// Feedback text compared in lowercase and without surrounding whitespace.
pub open spec fn norm_feedback(s: Seq<char>) -> Seq<char> {
    trim(lower_of(s))
}

/// `x` is the normalized form of at least two of `items`.
pub open spec fn is_common(items: Seq<Seq<char>>, x: Seq<char>) -> bool {
    exists|i: int, j: int|
        0 <= i < j < items.len() && norm_feedback(#[trigger] items[i]) == x && norm_feedback(
            #[trigger] items[j],
        ) == x
}

/// `r` lists, once each, the normalized items occurring more than once.
pub open spec fn common_items(items: Seq<Seq<char>>, r: Seq<Seq<char>>) -> bool {
    &&& forall|i: int| 0 <= i < r.len() ==> is_common(items, #[trigger] r[i])
    &&& forall|x: Seq<char>| is_common(items, x) ==> r.contains(x)
    &&& forall|i: int, j: int| 0 <= i < j < r.len() ==> r[i] != r[j]
}

/// An aggregated entry describes the group of `rs` with its key.
pub open spec fn entry_matches(rs: Seq<GradingResult>, a: AggregatedResult) -> bool {
    let g = group_of(rs, agg_key(a));
    let t = run_scores(g);
    &&& a.individual_results@ == g
    &&& t.len() > 0
    &&& a.mean_score == mean_of(t)
    &&& a.median_score == median_of(t)
    &&& a.std_deviation == std_of(t)
    &&& a.coefficient_of_variation == cv_of(t)
    &&& a.consensus_feedback.is_none()
    &&& common_in_runs(g, false, a.common_strengths.deep_view())
    &&& common_in_runs(g, true, a.common_improvements.deep_view())
}

proof fn lemma_group_members(rs: Seq<GradingResult>, k: RunKey)
    ensures
        forall|j: int| 0 <= j < group_of(rs, k).len() ==> run_key(#[trigger] group_of(rs, k)[j]) == k && rs.contains(group_of(rs, k)[j]),
        group_of(rs, k).len() <= rs.len(),
    decreases rs.len(),
{
    if rs.len() > 0 {
        lemma_group_members(rs.drop_last(), k);
        let g = group_of(rs, k);
        assert forall|j: int| 0 <= j < g.len() implies run_key(#[trigger] g[j]) == k && rs.contains(g[j]) by {
            if j < group_of(rs.drop_last(), k).len() {
                let y = group_of(rs.drop_last(), k)[j];
                assert(g[j] == y);
                let w = choose|w: int| 0 <= w < rs.drop_last().len() && rs.drop_last()[w] == y;
                assert(rs[w] == y);
            } else {
                assert(rs[rs.len() - 1] == g[j]);
            }
        }
    }
}

proof fn lemma_group_has(rs: Seq<GradingResult>, x: int)
    requires
        0 <= x < rs.len(),
    ensures
        group_of(rs, run_key(rs[x])).contains(rs[x]),
    decreases rs.len(),
{
    let k = run_key(rs[x]);
    if x < rs.len() - 1 {
        lemma_group_has(rs.drop_last(), x);
        assert(rs.drop_last()[x] == rs[x]);
        let g0 = group_of(rs.drop_last(), k);
        let w = choose|w: int| 0 <= w < g0.len() && g0[w] == rs[x];
        assert(group_of(rs, k)[w] == rs[x]);
    } else {
        assert(group_of(rs, k).last() == rs[x]);
    }
}

pub open spec fn totals_bounded(rs: Seq<GradingResult>) -> bool {
    forall|i: int|
        0 <= i < rs.len() ==> match #[trigger] rs[i].total_points {
            Some(v) => v <= MAX_POINTS,
            None => true,
        }
}

proof fn lemma_scores_bounded(rs: Seq<GradingResult>)
    requires
        totals_bounded(rs),
    ensures
        scores_of(rs).len() <= rs.len(),
        forall|j: int| 0 <= j < scores_of(rs).len() ==> #[trigger] scores_of(rs)[j] <= MAX_POINTS,
    decreases rs.len(),
{
    if rs.len() > 0 {
        assert(totals_bounded(rs.drop_last())) by {
            assert forall|i: int| 0 <= i < rs.drop_last().len() implies match #[trigger] rs.drop_last()[i].total_points {
                Some(v) => v <= MAX_POINTS,
                None => true,
            } by {
                assert(rs.drop_last()[i] == rs[i]);
            }
        }
        lemma_scores_bounded(rs.drop_last());
        assert(match rs[rs.len() - 1].total_points {
            Some(v) => v <= MAX_POINTS,
            None => true,
        });
    }
}

proof fn lemma_scores_nonempty(rs: Seq<GradingResult>, x: int)
    requires
        0 <= x < rs.len(),
        rs[x].total_points.is_some(),
    ensures
        scores_of(rs).len() > 0,
    decreases rs.len(),
{
    if x < rs.len() - 1 {
        assert(rs.drop_last()[x] == rs[x]);
        lemma_scores_nonempty(rs.drop_last(), x);
    }
}

proof fn lemma_scores_empty(rs: Seq<GradingResult>)
    requires
        forall|w: int| 0 <= w < rs.len() ==> (#[trigger] rs[w]).total_points.is_none(),
    ensures
        scores_of(rs).len() == 0,
    decreases rs.len(),
{
    if rs.len() > 0 {
        assert forall|w: int| 0 <= w < rs.drop_last().len() implies (#[trigger] rs.drop_last()[w]).total_points.is_none() by {
            assert(rs.drop_last()[w] == rs[w]);
        }
        lemma_scores_empty(rs.drop_last());
        assert(rs[rs.len() - 1].total_points.is_none());
    }
}

/// Sorting keeps the number of scores.
pub(crate) proof fn lemma_sorted_len(v: Seq<u64>)
    ensures
        sorted_scores(ints(v)).len() == v.len(),
{
    ints(v).lemma_sort_ensures();
    vstd::seq_lib::to_multiset_len(ints(v));
    vstd::seq_lib::to_multiset_len(ints(v).sort());
}

/// Integer square root, rounded down.
fn isqrt_u128(q: u128) -> (r: u64)
    ensures
        r as int == isqrt(q as int),
        q <= 1_000_000_000_000_000_000_000_000_000_000u128 ==> r <= 1_000_000_000_000_000,
{
    let mut lo: u128 = 0;
    let mut hi: u128 = 0x1_0000_0000_0000_0000;
    assert(hi * hi > q) by (nonlinear_arith)
        requires hi == 0x1_0000_0000_0000_0000u128, q <= u128::MAX;
    while hi - lo > 1
        invariant
            lo < hi <= 0x1_0000_0000_0000_0000,
            lo * lo <= q,
            q < hi * hi,
        decreases hi - lo,
    {
        let mid = lo + (hi - lo) / 2;
        assert(mid * mid <= u128::MAX) by (nonlinear_arith)
            requires mid < 0x1_0000_0000_0000_0000u128;
        if mid * mid <= q {
            lo = mid;
        } else {
            hi = mid;
        }
    }
    proof {
        assert(is_isqrt(q as int, lo as int));
        lemma_isqrt_unique(q as int, lo as int);
        if q <= 1_000_000_000_000_000_000_000_000_000_000u128 && lo > 1_000_000_000_000_000 {
            assert(lo * lo > 1_000_000_000_000_000_000_000_000_000_000u128) by (nonlinear_arith)
                requires lo > 1_000_000_000_000_000u128;
        }
    }
    lo as u64
}

fn sum_of(values: &Vec<u64>) -> (r: u64)
    requires
        bounded(values@),
    ensures
        r == seq_sum(ints(values@)),
        r <= values@.len() * MAX_POINTS,
{
    let n: usize = values.len();
    let mut s: u64 = 0;
    let mut i: usize = 0;
    while i < n
        invariant
            n == values@.len(),
            i <= n,
            bounded(values@),
            s == seq_sum(ints(values@.subrange(0, i as int))),
            s <= i * MAX_POINTS,
        decreases n - i,
    {
        assert(ints(values@.subrange(0, i + 1)).drop_last() =~= ints(values@.subrange(0, i as int)));
        s = s + values[i];
        i += 1;
    }
    assert(values@.subrange(0, n as int) =~= values@);
    s
}

impl ResultAggregator {
    /// Arithmetic mean of the scores, rounded down; 0 for none.
    pub fn calculate_mean(values: &Vec<u64>) -> (r: u64)
        requires
            bounded(values@),
        ensures
            r == mean_of(ints(values@)),
    {
        if values.len() == 0 {
            return 0;
        }
        let s = sum_of(values);
        proof {
            let n = values@.len() as int;
            assert(s as int / n <= s as int) by (nonlinear_arith)
                requires n >= 1, s >= 0;
        }
        s / (values.len() as u64)
    }

    /// Midpoint of the sorted scores (the two middle ones averaged, rounded
    /// down, for an even count); 0 for none.
    pub fn calculate_median(values: &Vec<u64>) -> (r: u64)
        requires
            bounded(values@),
        ensures
            r == median_of(sorted_scores(ints(values@))),
    {
        let t = sort_scores(values);
        let n: usize = t.len();
        if n == 0 {
            return 0;
        }
        proof {
            assert(t@.contains(t@[(n / 2) as int]));
            assert(values@.contains(t@[(n / 2) as int]));
        }
        if n % 2 == 1 {
            t[n / 2]
        } else {
            proof {
                assert(t@.contains(t@[(n / 2 - 1) as int]));
                assert(values@.contains(t@[(n / 2 - 1) as int]));
            }
            (t[n / 2 - 1] + t[n / 2]) / 2
        }
    }

    /// Sample standard deviation (divisor `n - 1`), rounded down; 0 for at
    /// most one score.
    pub fn calculate_std_deviation(values: &Vec<u64>) -> (r: u64)
        requires
            bounded(values@),
        ensures
            r == std_of(ints(values@)),
            r <= 1_000_000_000_000_000,
    {
        let n: usize = values.len();
        if n <= 1 {
            return 0;
        }
        let s = sum_of(values);
        let nn: u128 = n as u128;
        let ss: u128 = s as u128;
        let mut acc: u128 = 0;
        let mut i: usize = 0;
        while i < n
            invariant
                n == values@.len(),
                i <= n,
                bounded(values@),
                nn == n,
                ss == seq_sum(ints(values@)),
                ss <= n * MAX_POINTS,
                acc == scaled_sq_dev(ints(values@.subrange(0, i as int)), n as int, ss as int),
                acc <= i * 1_000_000_000_000_000_000_000_000_000_000u128,
            decreases n - i,
        {
            assert(ints(values@.subrange(0, i + 1)).drop_last() =~= ints(values@.subrange(0, i as int)));
            let x: u128 = values[i] as u128;
            assert(nn * x <= 1_000_000_000_000_000u128) by (nonlinear_arith)
                requires nn <= 1_000_000, x <= 1_000_000_000;
            let a: u128 = nn * x;
            let d: u128 = if a >= ss { a - ss } else { ss - a };
            assert(d <= 1_000_000_000_000_000u128);
            assert(d * d <= 1_000_000_000_000_000_000_000_000_000_000u128) by (nonlinear_arith)
                requires d <= 1_000_000_000_000_000u128;
            assert(d * d == (n * x - ss) * (n * x - ss)) by (nonlinear_arith)
                requires d == a - ss || d == ss - a, a == n * x;
            acc = acc + d * d;
            i += 1;
        }
        assert(values@.subrange(0, n as int) =~= values@);
        assert(nn * nn * (nn - 1) > 0) by (nonlinear_arith)
            requires nn >= 2;
        assert(nn * nn <= 1_000_000_000_000u128) by (nonlinear_arith)
            requires 2 <= nn <= 1_000_000;
        assert(nn * nn * (nn - 1) <= 1_000_000_000_000_000_000u128) by (nonlinear_arith)
            requires 2 <= nn <= 1_000_000, nn * nn <= 1_000_000_000_000u128;
        let q = acc / (nn * nn * (nn - 1));
        proof {
            let c: int = 1_000_000_000_000_000_000_000_000_000_000;
            let dd = nn * nn * (nn - 1);
            assert(dd >= nn) by (nonlinear_arith)
                requires nn >= 2, dd == nn * nn * (nn - 1);
            vstd::arithmetic::div_mod::lemma_div_is_ordered_by_denominator(acc as int, nn as int, dd as int);
            vstd::arithmetic::div_mod::lemma_div_is_ordered(acc as int, nn * c, nn as int);
            vstd::arithmetic::div_mod::lemma_div_multiples_vanish(c, nn as int);
        }
        isqrt_u128(q)
    }

    /// The normalized items that occur more than once, each listed once, in
    /// order of first occurrence.
    pub fn find_common_items(items: &Vec<String>) -> (r: Vec<String>)
        ensures
            common_items(items.deep_view(), r.deep_view()),
    {
        let n: usize = items.len();
        let ghost iv = items.deep_view();
        let mut norms: Vec<Vec<char>> = Vec::new();
        let mut i: usize = 0;
        while i < n
            invariant
                n == items@.len() == iv.len(),
                iv == items.deep_view(),
                i <= n,
                norms@.len() == i,
                forall|k: int| 0 <= k < i ==> (#[trigger] norms@[k])@ == norm_feedback(iv[k]),
            decreases n - i,
        {
            norms.push(normalized_chars(&items[i]));
            i += 1;
        }
        let mut out: Vec<String> = Vec::new();
        i = 0;
        while i < n
            invariant
                n == iv.len() == norms@.len(),
                i <= n,
                forall|k: int| 0 <= k < n ==> (#[trigger] norms@[k])@ == norm_feedback(iv[k]),
                forall|k: int| 0 <= k < out@.len() ==> is_common(iv, #[trigger] out.deep_view()[k]),
                forall|x: int| 0 <= x < i && is_common(iv, norm_feedback(#[trigger] iv[x])) ==> out.deep_view().contains(norm_feedback(iv[x])),
                forall|a: int, b: int| 0 <= a < b < out@.len() ==> out.deep_view()[a] != out.deep_view()[b],
            decreases n - i,
        {
            let ghost x = norm_feedback(iv[i as int]);
            let m: usize = out.len();
            let mut seen = false;
            let mut k: usize = 0;
            while k < m
                invariant
                    m == out@.len(),
                    k <= m,
                    i < n == norms@.len(),
                    norms@[i as int]@ == x,
                    seen == exists|q: int| 0 <= q < k && out.deep_view()[q] == x,
                decreases m - k,
            {
                let cand = chars_of(out[k].as_str());
                assert(out.deep_view()[k as int] == out@[k as int]@);
                if same_chars(&cand, &norms[i]) {
                    seen = true;
                }
                k += 1;
            }
            if !seen {
                let mut found = false;
                let mut j: usize = 0;
                while j < n
                    invariant
                        n == iv.len() == norms@.len(),
                        j <= n,
                        i < n,
                        forall|k: int| 0 <= k < n ==> (#[trigger] norms@[k])@ == norm_feedback(iv[k]),
                        x == norm_feedback(iv[i as int]),
                        found ==> is_common(iv, x),
                        !found ==> forall|q: int| 0 <= q < j && q != i ==> norm_feedback(#[trigger] iv[q]) != x,
                    decreases n - j,
                {
                    assert(norms@[j as int]@ == norm_feedback(iv[j as int]));
                    assert(norms@[i as int]@ == norm_feedback(iv[i as int]));
                    if j != i && same_chars(&norms[j], &norms[i]) {
                        found = true;
                        proof {
                            if j < i {
                                assert(norm_feedback(iv[j as int]) == x && norm_feedback(iv[i as int]) == x);
                            } else {
                                assert(norm_feedback(iv[i as int]) == x && norm_feedback(iv[j as int]) == x);
                            }
                        }
                    }
                    j += 1;
                }
                if found {
                    let ghost before = out.deep_view();
                    out.push(string_of(norms[i].as_slice()));
                    assert(out.deep_view() =~= before.push(x));
                    assert forall|xx: int| 0 <= xx < i && is_common(iv, norm_feedback(#[trigger] iv[xx])) implies out.deep_view().contains(norm_feedback(iv[xx])) by {
                        let q = choose|q: int| 0 <= q < before.len() && before[q] == norm_feedback(iv[xx]);
                        assert(out.deep_view()[q] == before[q]);
                    }
                    assert(out.deep_view()[m as int] == x);
                } else {
                    proof {
                        assert(!is_common(iv, x)) by {
                            if is_common(iv, x) {
                                let (a, b) = choose|a: int, b: int|
                                    0 <= a < b < iv.len() && norm_feedback(#[trigger] iv[a]) == x && norm_feedback(#[trigger] iv[b]) == x;
                                if a != i {
                                    assert(norm_feedback(iv[a]) != x);
                                } else {
                                    assert(norm_feedback(iv[b]) != x);
                                }
                            }
                        }
                    }
                }
            } else {
                proof {
                    let q = choose|q: int| 0 <= q < m && out.deep_view()[q] == x;
                    assert(out.deep_view().contains(x));
                }
            }
            i += 1;
        }
        proof {
            assert forall|x: Seq<char>| is_common(iv, x) implies out.deep_view().contains(x) by {
                let (a, b) = choose|a: int, b: int|
                    0 <= a < b < iv.len() && norm_feedback(#[trigger] iv[a]) == x && norm_feedback(#[trigger] iv[b]) == x;
                assert(is_common(iv, norm_feedback(iv[a])));
            }
        }
        out
    }

    /// Groups runs by (submission, provider, tier) and summarizes each
    /// group that has at least one scored run; groups without a score are
    /// left out.
    pub fn aggregate_results(results: Vec<GradingResult>) -> (r: Vec<AggregatedResult>)
        requires
            runs_bounded(results@),
        ensures
            forall|i: int| 0 <= i < r@.len() ==> entry_matches(results@, #[trigger] r@[i]),
            forall|i: int, j: int| 0 <= i < j < r@.len() ==> agg_key(#[trigger] r@[i]) != agg_key(#[trigger] r@[j]),
            forall|i: int, j: int| 0 <= i < j < r@.len() ==> appears_before(results@, agg_key(#[trigger] r@[i]), agg_key(#[trigger] r@[j])),
            forall|x: int| 0 <= x < results@.len() && (#[trigger] results@[x]).total_points.is_some()
                ==> exists|i: int| 0 <= i < r@.len() && agg_key(#[trigger] r@[i]) == run_key(results@[x]),
            r@.len() == 0 <==> forall|x: int| 0 <= x < results@.len() ==> (#[trigger] results@[x]).total_points.is_none(),
    {
        let ghost orig = results@;
        let groups = group_runs(results);
        let ghost gs = groups@;
        let gn: usize = groups.len();
        let mut rest = groups;
        let mut out: Vec<AggregatedResult> = Vec::new();
        let mut gi: usize = 0;
        while gi < gn
            invariant
                runs_bounded(orig),
                groups_of(orig, gs),
                gn == gs.len(),
                gi <= gn,
                rest@ == gs.subrange(gi as int, gn as int),
                forall|i: int| 0 <= i < out@.len() ==> entry_matches(orig, #[trigger] out@[i]),
                forall|i: int| 0 <= i < out@.len() ==> exists|h: int| 0 <= h < gi && agg_key(#[trigger] out@[i]) == run_key((#[trigger] gs[h])@[0]),
                forall|i: int, j: int| 0 <= i < j < out@.len() ==> agg_key(#[trigger] out@[i]) != agg_key(#[trigger] out@[j]),
                forall|i: int, j: int| 0 <= i < j < out@.len() ==> appears_before(orig, agg_key(#[trigger] out@[i]), agg_key(#[trigger] out@[j])),
                forall|h: int| 0 <= h < gi && scores_of((#[trigger] gs[h])@).len() > 0
                    ==> exists|i: int| 0 <= i < out@.len() && agg_key(#[trigger] out@[i]) == run_key(gs[h]@[0]),
            decreases gn - gi,
        {
            let grp = rest.remove(0);
            assert(grp == gs[gi as int]);
            let ghost k = run_key(grp@[0]);
            assert(grp@ == group_of(orig, k));
            let scores = collect_scores(&grp);
            if scores.len() > 0 {
                proof {
                    lemma_group_members(orig, k);
                    assert(totals_bounded(grp@)) by {
                        assert forall|j: int| 0 <= j < grp@.len() implies match #[trigger] grp@[j].total_points {
                            Some(v) => v <= MAX_POINTS,
                            None => true,
                        } by {
                            let w = choose|w: int| 0 <= w < orig.len() && orig[w] == grp@[j];
                            assert(match orig[w].total_points {
                                Some(v) => v <= MAX_POINTS,
                                None => true,
                            });
                        }
                    }
                    lemma_scores_bounded(grp@);
                }
                let t = sort_scores(&scores);
                let mean = Self::calculate_mean(&t);
                let median = Self::calculate_median(&scores);
                let std_dev = Self::calculate_std_deviation(&t);
                let cv = coefficient(std_dev, mean);
                proof {
                    lemma_sorted_len(scores@);
                }
                let strengths = common_across_runs(&grp, false);
                let improvements = common_across_runs(&grp, true);
                let entry = AggregatedResult {
                    submission_id: grp[0].submission_id.clone(),
                    provider_id: grp[0].provider_id.clone(),
                    tier: grp[0].tier.clone(),
                    mean_score: mean,
                    median_score: median,
                    std_deviation: std_dev,
                    coefficient_of_variation: cv,
                    individual_results: grp,
                    consensus_feedback: None,
                    common_strengths: strengths,
                    common_improvements: improvements,
                };
                let ghost before = out@;
                out.push(entry);
                proof {
                    assert(out@ == before.push(entry));
                    assert(agg_key(entry) == k);
                    assert forall|i: int| 0 <= i < out@.len() implies exists|h: int| 0 <= h < gi + 1 && agg_key(#[trigger] out@[i]) == run_key((#[trigger] gs[h])@[0]) by {
                        if i < before.len() {
                            assert(out@[i] == before[i]);
                        } else {
                            assert(run_key(gs[gi as int]@[0]) == k);
                        }
                    }
                    assert forall|i: int, j: int| 0 <= i < j < out@.len() implies agg_key(#[trigger] out@[i]) != agg_key(#[trigger] out@[j]) by {
                        assert(out@[i] == before[i] || i == before.len());
                        if j == before.len() {
                            assert(out@[i] == before[i]);
                            let h = choose|h: int| 0 <= h < gi && agg_key(#[trigger] before[i]) == run_key((#[trigger] gs[h])@[0]);
                            assert(run_key(gs[h]@[0]) != run_key(gs[gi as int]@[0]));
                        } else {
                            assert(out@[j] == before[j]);
                        }
                    }
                    assert forall|i: int, j: int| 0 <= i < j < out@.len() implies appears_before(orig, agg_key(#[trigger] out@[i]), agg_key(#[trigger] out@[j])) by {
                        assert(out@[i] == before[i]);
                        if j == before.len() {
                            let h = choose|h: int| 0 <= h < gi && agg_key(#[trigger] before[i]) == run_key((#[trigger] gs[h])@[0]);
                            assert(appears_before(orig, run_key(gs[h]@[0]), run_key(gs[gi as int]@[0])));
                        } else {
                            assert(out@[j] == before[j]);
                        }
                    }
                    assert forall|h: int| 0 <= h < gi + 1 && scores_of((#[trigger] gs[h])@).len() > 0
                        implies exists|i: int| 0 <= i < out@.len() && agg_key(#[trigger] out@[i]) == run_key(gs[h]@[0]) by {
                        if h < gi {
                            let i = choose|i: int| 0 <= i < before.len() && agg_key(#[trigger] before[i]) == run_key(gs[h]@[0]);
                            assert(out@[i] == before[i]);
                        } else {
                            assert(agg_key(out@[before.len() as int]) == run_key(gs[h]@[0]));
                        }
                    }
                }
            } else {
                proof {
                    assert forall|h: int| 0 <= h < gi + 1 && scores_of((#[trigger] gs[h])@).len() > 0
                        implies exists|i: int| 0 <= i < out@.len() && agg_key(#[trigger] out@[i]) == run_key(gs[h]@[0]) by {
                        assert(h != gi);
                    }
                }
            }
            gi += 1;
        }
        proof {
            assert forall|x: int| 0 <= x < orig.len() && (#[trigger] orig[x]).total_points.is_some()
                implies exists|i: int| 0 <= i < out@.len() && agg_key(#[trigger] out@[i]) == run_key(orig[x]) by {
                let kx = run_key(orig[x]);
                assert(has_group(gs, run_key(orig[x])));
                let h = choose|h: int| 0 <= h < gs.len() && run_key(#[trigger] gs[h]@[0]) == kx;
                lemma_group_has(orig, x);
                let g = gs[h]@;
                assert(g == group_of(orig, kx));
                let w = choose|w: int| 0 <= w < g.len() && g[w] == orig[x];
                lemma_scores_nonempty(g, w);
            }
            if forall|x: int| 0 <= x < orig.len() ==> (#[trigger] orig[x]).total_points.is_none() {
                if out@.len() > 0 {
                    let e = out@[0];
                    let g = group_of(orig, agg_key(e));
                    lemma_group_members(orig, agg_key(e));
                    assert forall|w: int| 0 <= w < g.len() implies (#[trigger] g[w]).total_points.is_none() by {
                        let v = choose|v: int| 0 <= v < orig.len() && orig[v] == g[w];
                        assert(orig[v].total_points.is_none());
                    }
                    lemma_scores_empty(g);
                    lemma_sorted_len(scores_of(g));
                }
            }
        }
        out
    }

    /// Run count, score range and reliability of the scored runs of an
    /// aggregated group.
    pub fn calculate_consistency_metrics(aggregated: &AggregatedResult) -> (m: ConsistencyMetrics)
        requires
            runs_bounded(aggregated.individual_results@),
        ensures
            m.run_count == run_scores(aggregated.individual_results@).len(),
            m.score_range == range_of(run_scores(aggregated.individual_results@)),
            m.reliability_score == reliability_of(run_scores(aggregated.individual_results@)),
            m.reliability_score <= RATIO_ONE,
    {
        let ghost rs = aggregated.individual_results@;
        let scores = collect_scores(&aggregated.individual_results);
        proof {
            lemma_scores_bounded(rs);
            lemma_sorted_len(scores@);
            lemma_sorted_ascending(ints(scores@));
        }
        let t = sort_scores(&scores);
        let n: usize = t.len();
        let range: u64 = if n > 1 {
            assert(ints(t@)[0] <= ints(t@)[n - 1]);
            t[n - 1] - t[0]
        } else {
            0
        };
        let reliability = Self::calculate_reliability(&t);
        ConsistencyMetrics { run_count: n as u32, score_range: range, reliability_score: reliability }
    }

    /// Reliability in ten-thousandths: `1 - min(1, cv)`, and a perfect 10000
    /// for fewer than two scores.
    pub fn calculate_reliability(scores: &Vec<u64>) -> (r: u64)
        requires
            bounded(scores@),
        ensures
            r == reliability_of(ints(scores@)),
            r <= RATIO_ONE,
    {
        if scores.len() < 2 {
            return RATIO_ONE;
        }
        let mean = Self::calculate_mean(scores);
        let std_dev = Self::calculate_std_deviation(scores);
        let cv = coefficient(std_dev, mean);
        if cv >= RATIO_ONE {
            0
        } else {
            RATIO_ONE - cv
        }
    }
}

/// A single scored run is perfectly consistent: its range is 0 and its
/// reliability is 10000 (that is, 1).
pub proof fn lemma_single_run_consistency(runs: Seq<GradingResult>)
    requires
        scores_of(runs).len() == 1,
    ensures
        range_of(run_scores(runs)) == 0,
        reliability_of(run_scores(runs)) == 10000,
{
    lemma_sorted_len(scores_of(runs));
}

/// The scores that one run adds to the group of key `k`.
pub open spec fn contribution(r: GradingResult, k: RunKey) -> Seq<u64> {
    if run_key(r) == k {
        match r.total_points {
            Some(v) => seq![v],
            None => seq![],
        }
    } else {
        seq![]
    }
}

proof fn lemma_group_scores_last(rs: Seq<GradingResult>, k: RunKey)
    requires
        rs.len() > 0,
    ensures
        scores_of(group_of(rs, k)) == scores_of(group_of(rs.drop_last(), k)) + contribution(rs.last(), k),
{
    let g0 = group_of(rs.drop_last(), k);
    if run_key(rs.last()) == k {
        assert(g0.push(rs.last()).drop_last() =~= g0);
        assert(scores_of(group_of(rs, k)) =~= scores_of(g0) + contribution(rs.last(), k));
    } else {
        assert(scores_of(group_of(rs, k)) =~= scores_of(g0) + contribution(rs.last(), k));
    }
}

proof fn lemma_group_scores_remove(rs: Seq<GradingResult>, j: int, k: RunKey)
    requires
        0 <= j < rs.len(),
    ensures
        scores_of(group_of(rs, k)).to_multiset() == scores_of(group_of(rs.remove(j), k)).to_multiset().add(
            contribution(rs[j], k).to_multiset(),
        ),
    decreases rs.len(),
{
    lemma_group_scores_last(rs, k);
    vstd::seq_lib::lemma_multiset_commutative(scores_of(group_of(rs.drop_last(), k)), contribution(rs.last(), k));
    if j == rs.len() - 1 {
        assert(rs.remove(j) =~= rs.drop_last());
    } else {
        let rs2 = rs.remove(j);
        assert(rs2.drop_last() =~= rs.drop_last().remove(j));
        assert(rs2.last() == rs.last());
        assert(rs.drop_last()[j] == rs[j]);
        lemma_group_scores_remove(rs.drop_last(), j, k);
        lemma_group_scores_last(rs2, k);
        vstd::seq_lib::lemma_multiset_commutative(scores_of(group_of(rs2.drop_last(), k)), contribution(rs.last(), k));
        assert(scores_of(group_of(rs, k)).to_multiset() =~= scores_of(group_of(rs2, k)).to_multiset().add(
            contribution(rs[j], k).to_multiset(),
        ));
    }
}

proof fn lemma_group_scores_perm(rs1: Seq<GradingResult>, rs2: Seq<GradingResult>, k: RunKey)
    requires
        rs1.to_multiset() == rs2.to_multiset(),
    ensures
        scores_of(group_of(rs1, k)).to_multiset() == scores_of(group_of(rs2, k)).to_multiset(),
    decreases rs1.len(),
{
    broadcast use vstd::seq_lib::group_to_multiset_ensures;

    vstd::seq_lib::to_multiset_len(rs1);
    vstd::seq_lib::to_multiset_len(rs2);
    if rs1.len() == 0 {
        assert(rs2.len() == 0);
        assert(rs1 =~= rs2);
    } else {
        let x = rs1.last();
        assert(rs1.to_multiset().count(x) > 0) by {
            assert(rs1[rs1.len() - 1] == x);
        }
        assert(rs2.contains(x));
        let j = choose|j: int| 0 <= j < rs2.len() && rs2[j] == x;
        vstd::seq_lib::to_multiset_remove(rs1, rs1.len() - 1);
        vstd::seq_lib::to_multiset_remove(rs2, j);
        assert(rs1.remove(rs1.len() - 1) =~= rs1.drop_last());
        lemma_group_scores_perm(rs1.drop_last(), rs2.remove(j), k);
        lemma_group_scores_last(rs1, k);
        vstd::seq_lib::lemma_multiset_commutative(scores_of(group_of(rs1.drop_last(), k)), contribution(x, k));
        lemma_group_scores_remove(rs2, j, k);
    }
}

/// The run itself when it has key `k`.
pub open spec fn member(r: GradingResult, k: RunKey) -> Seq<GradingResult> {
    if run_key(r) == k {
        seq![r]
    } else {
        seq![]
    }
}

proof fn lemma_group_members_last(rs: Seq<GradingResult>, k: RunKey)
    requires
        rs.len() > 0,
    ensures
        group_of(rs, k) == group_of(rs.drop_last(), k) + member(rs.last(), k),
{
    let g0 = group_of(rs.drop_last(), k);
    if run_key(rs.last()) == k {
        assert(g0.push(rs.last()).drop_last() =~= g0);
        assert(group_of(rs, k) =~= g0 + member(rs.last(), k));
    } else {
        assert(group_of(rs, k) =~= g0 + member(rs.last(), k));
    }
}

proof fn lemma_group_members_remove(rs: Seq<GradingResult>, j: int, k: RunKey)
    requires
        0 <= j < rs.len(),
    ensures
        group_of(rs, k).to_multiset() == group_of(rs.remove(j), k).to_multiset().add(
            member(rs[j], k).to_multiset(),
        ),
    decreases rs.len(),
{
    lemma_group_members_last(rs, k);
    vstd::seq_lib::lemma_multiset_commutative(group_of(rs.drop_last(), k), member(rs.last(), k));
    if j == rs.len() - 1 {
        assert(rs.remove(j) =~= rs.drop_last());
    } else {
        let rs2 = rs.remove(j);
        assert(rs2.drop_last() =~= rs.drop_last().remove(j));
        assert(rs2.last() == rs.last());
        assert(rs.drop_last()[j] == rs[j]);
        lemma_group_members_remove(rs.drop_last(), j, k);
        lemma_group_members_last(rs2, k);
        vstd::seq_lib::lemma_multiset_commutative(group_of(rs2.drop_last(), k), member(rs.last(), k));
        assert(group_of(rs, k).to_multiset() =~= group_of(rs2, k).to_multiset().add(
            member(rs[j], k).to_multiset(),
        ));
    }
}

proof fn lemma_group_members_perm(rs1: Seq<GradingResult>, rs2: Seq<GradingResult>, k: RunKey)
    requires
        rs1.to_multiset() == rs2.to_multiset(),
    ensures
        group_of(rs1, k).to_multiset() == group_of(rs2, k).to_multiset(),
    decreases rs1.len(),
{
    broadcast use vstd::seq_lib::group_to_multiset_ensures;

    vstd::seq_lib::to_multiset_len(rs1);
    vstd::seq_lib::to_multiset_len(rs2);
    if rs1.len() == 0 {
        assert(rs2.len() == 0);
        assert(rs1 =~= rs2);
    } else {
        let x = rs1.last();
        assert(rs1.to_multiset().count(x) > 0) by {
            assert(rs1[rs1.len() - 1] == x);
        }
        assert(rs2.contains(x));
        let j = choose|j: int| 0 <= j < rs2.len() && rs2[j] == x;
        vstd::seq_lib::to_multiset_remove(rs1, rs1.len() - 1);
        vstd::seq_lib::to_multiset_remove(rs2, j);
        assert(rs1.remove(rs1.len() - 1) =~= rs1.drop_last());
        lemma_group_members_perm(rs1.drop_last(), rs2.remove(j), k);
        lemma_group_members_last(rs1, k);
        vstd::seq_lib::lemma_multiset_commutative(group_of(rs1.drop_last(), k), member(x, k));
        lemma_group_members_remove(rs2, j, k);
    }
}

proof fn lemma_listing_remove(g: Seq<GradingResult>, j: int, improvements: bool, x: Seq<char>)
    requires
        0 <= j < g.len(),
    ensures
        runs_listing(g, improvements, x) == runs_listing(g.remove(j), improvements, x) + if run_has(g[j], improvements, x) {
            1int
        } else {
            0int
        },
    decreases g.len(),
{
    if j == g.len() - 1 {
        assert(g.remove(j) =~= g.drop_last());
    } else {
        let g2 = g.remove(j);
        assert(g2.drop_last() =~= g.drop_last().remove(j));
        assert(g2.last() == g.last());
        assert(g.drop_last()[j] == g[j]);
        lemma_listing_remove(g.drop_last(), j, improvements, x);
    }
}

proof fn lemma_listing_perm(g1: Seq<GradingResult>, g2: Seq<GradingResult>, improvements: bool, x: Seq<char>)
    requires
        g1.to_multiset() == g2.to_multiset(),
    ensures
        runs_listing(g1, improvements, x) == runs_listing(g2, improvements, x),
    decreases g1.len(),
{
    broadcast use vstd::seq_lib::group_to_multiset_ensures;

    vstd::seq_lib::to_multiset_len(g1);
    vstd::seq_lib::to_multiset_len(g2);
    if g1.len() == 0 {
        assert(g2.len() == 0);
        assert(g1 =~= g2);
    } else {
        let y = g1.last();
        assert(g1.to_multiset().count(y) > 0) by {
            assert(g1[g1.len() - 1] == y);
        }
        assert(g2.contains(y));
        let j = choose|j: int| 0 <= j < g2.len() && g2[j] == y;
        vstd::seq_lib::to_multiset_remove(g1, g1.len() - 1);
        vstd::seq_lib::to_multiset_remove(g2, j);
        assert(g1.remove(g1.len() - 1) =~= g1.drop_last());
        lemma_listing_perm(g1.drop_last(), g2.remove(j), improvements, x);
        lemma_listing_remove(g2, j, improvements, x);
    }
}

/// Aggregation does not depend on the order of the runs: two lists holding
/// the same runs give each key the same runs (as a multiset), the same
/// scores, so a group exists for the one exactly when it exists for the
/// other, with the same mean, median, standard deviation, coefficient of
/// variation, range and reliability, and the same common feedback items.
pub proof fn lemma_aggregation_order_independent(rs1: Seq<GradingResult>, rs2: Seq<GradingResult>, k: RunKey)
    requires
        rs1.to_multiset() == rs2.to_multiset(),
    ensures
        run_scores(group_of(rs1, k)) == run_scores(group_of(rs2, k)),
        mean_of(run_scores(group_of(rs1, k))) == mean_of(run_scores(group_of(rs2, k))),
        median_of(run_scores(group_of(rs1, k))) == median_of(run_scores(group_of(rs2, k))),
        std_of(run_scores(group_of(rs1, k))) == std_of(run_scores(group_of(rs2, k))),
        cv_of(run_scores(group_of(rs1, k))) == cv_of(run_scores(group_of(rs2, k))),
        range_of(run_scores(group_of(rs1, k))) == range_of(run_scores(group_of(rs2, k))),
        reliability_of(run_scores(group_of(rs1, k))) == reliability_of(run_scores(group_of(rs2, k))),
        group_of(rs1, k).to_multiset() == group_of(rs2, k).to_multiset(),
        scores_of(group_of(rs1, k)).len() == scores_of(group_of(rs2, k)).len(),
        forall|improvements: bool, x: Seq<char>|
            #![trigger runs_listing(group_of(rs1, k), improvements, x)]
            runs_listing(group_of(rs1, k), improvements, x) == runs_listing(group_of(rs2, k), improvements, x),
{
    lemma_group_members_perm(rs1, rs2, k);
    vstd::seq_lib::to_multiset_len(scores_of(group_of(rs1, k)));
    vstd::seq_lib::to_multiset_len(scores_of(group_of(rs2, k)));
    assert forall|improvements: bool, x: Seq<char>|
        #![trigger runs_listing(group_of(rs1, k), improvements, x)]
        runs_listing(group_of(rs1, k), improvements, x) == runs_listing(group_of(rs2, k), improvements, x) by {
        lemma_listing_perm(group_of(rs1, k), group_of(rs2, k), improvements, x);
    }
    let s1 = scores_of(group_of(rs1, k));
    let s2 = scores_of(group_of(rs2, k));
    lemma_group_scores_perm(rs1, rs2, k);
    lemma_map_multiset(s1, s2);
    lemma_sorted_ascending(ints(s1));
    lemma_sorted_ascending(ints(s2));
    lemma_sorted_unique(sorted_scores(ints(s1)), sorted_scores(ints(s2)));
}

fn same_key(a: &GradingResult, b: &GradingResult) -> (r: bool)
    ensures
        r == (run_key(*a) == run_key(*b)),
{
    a.submission_id == b.submission_id && a.provider_id == b.provider_id && a.tier == b.tier
}

pub open spec fn has_group(groups: Seq<Vec<GradingResult>>, k: RunKey) -> bool {
    exists|g: int| 0 <= g < groups.len() && run_key(#[trigger] groups[g]@[0]) == k
}

/// Key `k1` occurs in `rs` before key `k2` first does.
pub open spec fn appears_before(rs: Seq<GradingResult>, k1: RunKey, k2: RunKey) -> bool {
    exists|x: int|
        0 <= x < rs.len() && run_key(#[trigger] rs[x]) == k1 && forall|y: int| 0 <= y <= x ==> run_key(#[trigger] rs[y]) != k2
}

pub open spec fn groups_of(rs: Seq<GradingResult>, groups: Seq<Vec<GradingResult>>) -> bool {
    &&& forall|g: int, h: int| 0 <= g < h < groups.len() ==> appears_before(rs, run_key((#[trigger] groups[g])@[0]), run_key((#[trigger] groups[h])@[0]))
    &&& forall|g: int| 0 <= g < groups.len() ==> (#[trigger] groups[g])@.len() > 0 && groups[g]@ == group_of(rs, run_key(groups[g]@[0]))
    &&& forall|g: int, h: int| 0 <= g < h < groups.len() ==> run_key((#[trigger] groups[g])@[0]) != run_key((#[trigger] groups[h])@[0])
    &&& forall|x: int| 0 <= x < rs.len() ==> has_group(groups, run_key(#[trigger] rs[x]))
}

proof fn lemma_appears_before_push(pre: Seq<GradingResult>, r: GradingResult, k1: RunKey, k2: RunKey)
    requires
        appears_before(pre, k1, k2),
    ensures
        appears_before(pre.push(r), k1, k2),
{
    let post = pre.push(r);
    let x = choose|x: int| 0 <= x < pre.len() && run_key(#[trigger] pre[x]) == k1 && forall|y: int| 0 <= y <= x ==> run_key(#[trigger] pre[y]) != k2;
    assert(post[x] == pre[x]);
    assert forall|y: int| 0 <= y <= x implies run_key(#[trigger] post[y]) != k2 by {
        assert(post[y] == pre[y]);
    }
}

/// Splits runs into groups of equal key, in order of first appearance.
fn group_runs(results: Vec<GradingResult>) -> (groups: Vec<Vec<GradingResult>>)
    ensures
        groups_of(results@, groups@),
{
    let ghost orig = results@;
    let n: usize = results.len();
    let mut rest = results;
    let mut groups: Vec<Vec<GradingResult>> = Vec::new();
    let mut i: usize = 0;
    while i < n
        invariant
            n == orig.len(),
            i <= n,
            rest@ == orig.subrange(i as int, n as int),
            groups_of(orig.subrange(0, i as int), groups@),
        decreases n - i,
    {
        let r = rest.remove(0);
        assert(r == orig[i as int]);
        let ghost pre = orig.subrange(0, i as int);
        let ghost post = orig.subrange(0, i + 1);
        assert(post.drop_last() =~= pre);
        assert(post.last() == r);
        let glen: usize = groups.len();
        let mut g: usize = 0;
        while g < glen && !same_key(&groups[g][0], &r)
            invariant
                glen == groups@.len(),
                g <= glen,
                groups_of(pre, groups@),
                forall|h: int| 0 <= h < g ==> run_key((#[trigger] groups@[h])@[0]) != run_key(r),
            decreases glen - g,
        {
            g += 1;
        }
        let ghost old_groups = groups@;
        if g < glen {
            let mut v = groups.remove(g);
            v.push(r);
            groups.insert(g, v);
            proof {
                assert(groups@ =~= old_groups.update(g as int, v));
                assert forall|h: int| 0 <= h < groups@.len() implies (#[trigger] groups@[h])@.len() > 0 && groups@[h]@ == group_of(post, run_key(groups@[h]@[0])) by {
                    if h != g {
                        assert(groups@[h] == old_groups[h]);
                    }
                }
                assert forall|x: int| 0 <= x < post.len() implies has_group(groups@, run_key(#[trigger] post[x])) by {
                    if x < i {
                        assert(post[x] == pre[x]);
                        let w = choose|w: int| 0 <= w < old_groups.len() && run_key(#[trigger] old_groups[w]@[0]) == run_key(pre[x]);
                        assert(groups@[w]@[0] == old_groups[w]@[0]);
                    } else {
                        assert(groups@[g as int]@[0] == old_groups[g as int]@[0]);
                    }
                }
                assert forall|a: int, b: int| 0 <= a < b < groups@.len() implies run_key((#[trigger] groups@[a])@[0]) != run_key((#[trigger] groups@[b])@[0]) by {
                    assert(groups@[a]@[0] == old_groups[a]@[0]);
                    assert(groups@[b]@[0] == old_groups[b]@[0]);
                    assert(run_key(old_groups[a]@[0]) != run_key(old_groups[b]@[0]));
                }
                assert forall|a: int, b: int| 0 <= a < b < groups@.len() implies appears_before(post, run_key((#[trigger] groups@[a])@[0]), run_key((#[trigger] groups@[b])@[0])) by {
                    assert(groups@[a]@[0] == old_groups[a]@[0]);
                    assert(groups@[b]@[0] == old_groups[b]@[0]);
                    assert(appears_before(pre, run_key(old_groups[a]@[0]), run_key(old_groups[b]@[0])));
                    lemma_appears_before_push(pre, r, run_key(old_groups[a]@[0]), run_key(old_groups[b]@[0]));
                }
            }
        } else {
            let mut v: Vec<GradingResult> = Vec::new();
            v.push(r);
            groups.push(v);
            proof {
                assert(groups@ =~= old_groups.push(v));
                assert(group_of(pre, run_key(r)) =~= seq![]) by {
                    if group_of(pre, run_key(r)).len() > 0 {
                        lemma_group_members(pre, run_key(r));
                        let y = group_of(pre, run_key(r))[0];
                        let w = choose|w: int| 0 <= w < pre.len() && pre[w] == y;
                        assert(has_group(old_groups, run_key(pre[w])));
                    }
                }
                assert(v@ =~= seq![r]);
                assert forall|h: int| 0 <= h < groups@.len() implies (#[trigger] groups@[h])@.len() > 0 && groups@[h]@ == group_of(post, run_key(groups@[h]@[0])) by {
                    if h < glen {
                        assert(groups@[h] == old_groups[h]);
                    }
                }
                assert forall|x: int| 0 <= x < post.len() implies has_group(groups@, run_key(#[trigger] post[x])) by {
                    if x < i {
                        assert(post[x] == pre[x]);
                        let w = choose|w: int| 0 <= w < old_groups.len() && run_key(#[trigger] old_groups[w]@[0]) == run_key(pre[x]);
                        assert(groups@[w] == old_groups[w]);
                    } else {
                        assert(groups@[glen as int]@[0] == r);
                    }
                }
                assert forall|a: int, b: int| 0 <= a < b < groups@.len() implies run_key((#[trigger] groups@[a])@[0]) != run_key((#[trigger] groups@[b])@[0]) by {
                    assert(groups@[a] == old_groups[a]);
                    if b < glen {
                        assert(groups@[b] == old_groups[b]);
                    }
                }
                assert forall|a: int, b: int| 0 <= a < b < groups@.len() implies appears_before(post, run_key((#[trigger] groups@[a])@[0]), run_key((#[trigger] groups@[b])@[0])) by {
                    assert(groups@[a] == old_groups[a]);
                    let ka = run_key(old_groups[a]@[0]);
                    if b < glen {
                        assert(groups@[b] == old_groups[b]);
                        lemma_appears_before_push(pre, r, ka, run_key(old_groups[b]@[0]));
                    } else {
                        assert(groups@[b]@[0] == r);
                        lemma_group_members(pre, ka);
                        assert(old_groups[a]@ == group_of(pre, ka));
                        assert(group_of(pre, ka)[0] == old_groups[a]@[0]);
                        let x = choose|x: int| 0 <= x < pre.len() && pre[x] == group_of(pre, ka)[0];
                        assert(run_key(post[x]) == ka);
                        assert forall|y: int| 0 <= y <= x implies run_key(#[trigger] post[y]) != run_key(r) by {
                            assert(post[y] == pre[y]);
                            if run_key(pre[y]) == run_key(r) {
                                assert(has_group(old_groups, run_key(pre[y])));
                                let w = choose|w: int| 0 <= w < old_groups.len() && run_key(#[trigger] old_groups[w]@[0]) == run_key(pre[y]);
                                assert(run_key(old_groups[w]@[0]) != run_key(r));
                            }
                        }
                    }
                }
            }
        }
        i += 1;
    }
    assert(orig.subrange(0, n as int) =~= orig);
    groups
}

/// The total points of the runs that have one.
fn collect_scores(runs: &Vec<GradingResult>) -> (r: Vec<u64>)
    ensures
        r@ == scores_of(runs@),
{
    let n: usize = runs.len();
    let mut r: Vec<u64> = Vec::new();
    let mut i: usize = 0;
    while i < n
        invariant
            n == runs@.len(),
            i <= n,
            r@ == scores_of(runs@.subrange(0, i as int)),
        decreases n - i,
    {
        assert(runs@.subrange(0, i + 1).drop_last() =~= runs@.subrange(0, i as int));
        match runs[i].total_points {
            Some(v) => r.push(v),
            None => {},
        }
        i += 1;
    }
    assert(runs@.subrange(0, n as int) =~= runs@);
    r
}

/// Whether the run lists `x` once its items are normalized.
fn run_contains(r: &GradingResult, improvements: bool, x: &Vec<char>) -> (b: bool)
    ensures
        b == run_has(*r, improvements, x@),
{
    let list = if improvements {
        &r.improvements
    } else {
        &r.strengths
    };
    let n: usize = list.len();
    let mut k: usize = 0;
    while k < n
        invariant
            n == list@.len(),
            list.deep_view() == feedback_of(*r, improvements),
            k <= n,
            forall|q: int| 0 <= q < k ==> norm_feedback(#[trigger] feedback_of(*r, improvements)[q]) != x@,
        decreases n - k,
    {
        assert(feedback_of(*r, improvements)[k as int] == list@[k as int]@);
        if same_chars(&normalized_chars(&list[k]), x) {
            return true;
        }
        k += 1;
    }
    false
}

/// How many runs list `x`.
fn count_runs_listing(runs: &Vec<GradingResult>, improvements: bool, x: &Vec<char>) -> (c: usize)
    ensures
        c == runs_listing(runs@, improvements, x@),
{
    let n: usize = runs.len();
    let mut c: usize = 0;
    let mut j: usize = 0;
    while j < n
        invariant
            n == runs@.len(),
            j <= n,
            c <= j,
            c == runs_listing(runs@.subrange(0, j as int), improvements, x@),
        decreases n - j,
    {
        assert(runs@.subrange(0, j + 1).drop_last() =~= runs@.subrange(0, j as int));
        if run_contains(&runs[j], improvements, x) {
            c += 1;
        }
        j += 1;
    }
    assert(runs@.subrange(0, n as int) =~= runs@);
    c
}

proof fn lemma_listing_has_run(rs: Seq<GradingResult>, improvements: bool, x: Seq<char>)
    requires
        runs_listing(rs, improvements, x) > 0,
    ensures
        exists|j: int| 0 <= j < rs.len() && run_has(#[trigger] rs[j], improvements, x),
    decreases rs.len(),
{
    if run_has(rs.last(), improvements, x) {
        assert(run_has(rs[rs.len() - 1], improvements, x));
    } else {
        lemma_listing_has_run(rs.drop_last(), improvements, x);
        let j = choose|j: int| 0 <= j < rs.drop_last().len() && run_has(#[trigger] rs.drop_last()[j], improvements, x);
        assert(rs[j] == rs.drop_last()[j]);
    }
}

/// The normalized strengths (or improvements) that more than one run
/// lists, each once, in order of first appearance.
fn common_across_runs(runs: &Vec<GradingResult>, improvements: bool) -> (r: Vec<String>)
    ensures
        common_in_runs(runs@, improvements, r.deep_view()),
{
    let ghost rs = runs@;
    let n: usize = runs.len();
    let mut out: Vec<String> = Vec::new();
    let mut i: usize = 0;
    while i < n
        invariant
            n == rs.len(),
            rs == runs@,
            i <= n,
            forall|q: int| 0 <= q < out@.len() ==> runs_listing(rs, improvements, #[trigger] out.deep_view()[q]) >= 2,
            forall|a: int, b: int| 0 <= a < b < out@.len() ==> out.deep_view()[a] != out.deep_view()[b],
            forall|j: int, k: int|
                0 <= j < i && 0 <= k < feedback_of(rs[j], improvements).len() && runs_listing(
                    rs,
                    improvements,
                    norm_feedback(#[trigger] feedback_of(rs[j], improvements)[k]),
                ) >= 2 ==> out.deep_view().contains(norm_feedback(feedback_of(rs[j], improvements)[k])),
        decreases n - i,
    {
        let list = if improvements {
            &runs[i].improvements
        } else {
            &runs[i].strengths
        };
        let ghost items = feedback_of(rs[i as int], improvements);
        assert(list.deep_view() == items);
        let m: usize = list.len();
        let mut k: usize = 0;
        while k < m
            invariant
                n == rs.len(),
                rs == runs@,
                i < n,
                m == list@.len(),
                list.deep_view() == items,
                items == feedback_of(rs[i as int], improvements),
                k <= m,
                forall|q: int| 0 <= q < out@.len() ==> runs_listing(rs, improvements, #[trigger] out.deep_view()[q]) >= 2,
                forall|a: int, b: int| 0 <= a < b < out@.len() ==> out.deep_view()[a] != out.deep_view()[b],
                forall|j: int, kk: int|
                    0 <= j < i && 0 <= kk < feedback_of(rs[j], improvements).len() && runs_listing(
                        rs,
                        improvements,
                        norm_feedback(#[trigger] feedback_of(rs[j], improvements)[kk]),
                    ) >= 2 ==> out.deep_view().contains(norm_feedback(feedback_of(rs[j], improvements)[kk])),
                forall|kk: int|
                    0 <= kk < k && runs_listing(rs, improvements, norm_feedback(#[trigger] items[kk])) >= 2
                        ==> out.deep_view().contains(norm_feedback(items[kk])),
            decreases m - k,
        {
            assert(items[k as int] == list@[k as int]@);
            let x = normalized_chars(&list[k]);
            let ghost xv = x@;
            let no: usize = out.len();
            let mut seen = false;
            let mut q: usize = 0;
            while q < no
                invariant
                    no == out@.len(),
                    q <= no,
                    x@ == xv,
                    seen == exists|t: int| 0 <= t < q && out.deep_view()[t] == xv,
                decreases no - q,
            {
                assert(out.deep_view()[q as int] == out@[q as int]@);
                if same_chars(&chars_of(out[q].as_str()), &x) {
                    seen = true;
                }
                q += 1;
            }
            if seen {
                proof {
                    let t = choose|t: int| 0 <= t < no && out.deep_view()[t] == xv;
                    assert(out.deep_view().contains(xv));
                }
            } else if count_runs_listing(runs, improvements, &x) >= 2 {
                let ghost before = out.deep_view();
                out.push(string_of(x.as_slice()));
                proof {
                    assert(out.deep_view() =~= before.push(xv));
                    assert(out.deep_view()[no as int] == xv);
                    assert forall|j: int, kk: int|
                        0 <= j < i && 0 <= kk < feedback_of(rs[j], improvements).len() && runs_listing(
                            rs,
                            improvements,
                            norm_feedback(#[trigger] feedback_of(rs[j], improvements)[kk]),
                        ) >= 2 implies out.deep_view().contains(norm_feedback(feedback_of(rs[j], improvements)[kk])) by {
                        let y = norm_feedback(feedback_of(rs[j], improvements)[kk]);
                        let t = choose|t: int| 0 <= t < before.len() && before[t] == y;
                        assert(out.deep_view()[t] == y);
                    }
                    assert forall|kk: int|
                        0 <= kk < k && runs_listing(rs, improvements, norm_feedback(#[trigger] items[kk])) >= 2
                            implies out.deep_view().contains(norm_feedback(items[kk])) by {
                        let y = norm_feedback(items[kk]);
                        let t = choose|t: int| 0 <= t < before.len() && before[t] == y;
                        assert(out.deep_view()[t] == y);
                    }
                }
            }
            k += 1;
        }
        i += 1;
    }
    proof {
        assert forall|x: Seq<char>| runs_listing(rs, improvements, x) >= 2 implies out.deep_view().contains(x) by {
            lemma_listing_has_run(rs, improvements, x);
            let j = choose|j: int| 0 <= j < rs.len() && run_has(#[trigger] rs[j], improvements, x);
            let k = choose|k: int| 0 <= k < feedback_of(rs[j], improvements).len() && norm_feedback(#[trigger] feedback_of(rs[j], improvements)[k]) == x;
        }
    }
    out
}

fn normalized_chars(s: &String) -> (r: Vec<char>)
    ensures
        r@ == norm_feedback(s@),
{
    let c = chars_of(s.as_str());
    let l = crate::text::lower_chars(&c);
    trim_vec(&l)
}

/// `str::trim` after `str::to_lowercase`: the form in which feedback
/// items are compared.
pub fn normalize_feedback(s: &str) -> (r: String)
    ensures
        r@ == norm_feedback(s@),
{
    let c = chars_of(s);
    let l = crate::text::lower_chars(&c);
    let t = trim_vec(&l);
    string_of(t.as_slice())
}

/// `std / mean` in ten-thousandths; 0 when the mean is 0.
fn coefficient(std_dev: u64, mean: u64) -> (r: u64)
    requires
        std_dev <= 1_000_000_000_000_000,
    ensures
        mean != 0 ==> r == std_dev * 10000 / (mean as int),
        mean == 0 ==> r == 0,
{
    if mean != 0 {
        std_dev * 10000 / mean
    } else {
        0
    }
}

} // verus!
