//! Integer statistics over score sequences (hundredths of a point).
use vstd::prelude::*;
use crate::text::MAX_POINTS;

verus! {

broadcast use vstd::seq_lib::group_to_multiset_ensures;

/// The most runs that one aggregation takes.
pub const MAX_RUNS: usize = 1_000_000;

/// Ratios are expressed in ten-thousandths.
pub const RATIO_ONE: u64 = 10_000;

pub open spec fn ints(v: Seq<u64>) -> Seq<int> {
    v.map_values(|x: u64| x as int)
}

pub open spec fn ascending(t: Seq<int>) -> bool {
    forall|i: int, j: int| 0 <= i < j < t.len() ==> t[i] <= t[j]
}

/// The scores of `t` in ascending order.
pub open spec fn sorted_scores(t: Seq<int>) -> Seq<int> {
    t.sort()
}

pub open spec fn bounded(v: Seq<u64>) -> bool {
    v.len() <= MAX_RUNS && forall|i: int| 0 <= i < v.len() ==> v[i] <= MAX_POINTS
}

pub open spec fn seq_sum(t: Seq<int>) -> int
    decreases t.len(),
{
    if t.len() == 0 {
        0
    } else {
        seq_sum(t.drop_last()) + t.last()
    }
}

/// Arithmetic mean, rounded down; 0 for no values.
pub open spec fn mean_of(t: Seq<int>) -> int {
    if t.len() == 0 {
        0
    } else {
        seq_sum(t) / (t.len() as int)
    }
}

/// Midpoint of an ascending sequence; the two middle values are averaged
/// (rounded down) when the length is even.
pub open spec fn median_of(t: Seq<int>) -> int {
    let n = t.len() as int;
    if n == 0 {
        0
    } else if n % 2 == 1 {
        t[n / 2]
    } else {
        (t[n / 2 - 1] + t[n / 2]) / 2
    }
}

/// Sum of `(n * x - s)^2`: `n^2` times the sum of squared deviations from
/// the exact mean `s / n`.
pub open spec fn scaled_sq_dev(t: Seq<int>, n: int, s: int) -> int
    decreases t.len(),
{
    if t.len() == 0 {
        0
    } else {
        scaled_sq_dev(t.drop_last(), n, s) + (n * t.last() - s) * (n * t.last() - s)
    }
}

pub open spec fn is_isqrt(q: int, r: int) -> bool {
    0 <= r && r * r <= q < (r + 1) * (r + 1)
}

/// Integer square root, rounded down.
pub open spec fn isqrt(q: int) -> int {
    choose|r: int| is_isqrt(q, r)
}

/// Sample standard deviation (divisor `n - 1`), rounded down; 0 for at most
/// one value.
pub open spec fn std_of(t: Seq<int>) -> int {
    let n = t.len() as int;
    if n <= 1 {
        0
    } else {
        isqrt(scaled_sq_dev(t, n, seq_sum(t)) / (n * n * (n - 1)))
    }
}

/// Standard deviation over mean in ten-thousandths; 0 when the mean is 0.
pub open spec fn cv_of(t: Seq<int>) -> int {
    if mean_of(t) != 0 {
        std_of(t) * 10000 / mean_of(t)
    } else {
        0
    }
}

/// `1 - min(1, cv)`, in ten-thousandths; a perfect 10000 for fewer than two
/// values.
pub open spec fn reliability_of(t: Seq<int>) -> int {
    if t.len() < 2 {
        10000
    } else if cv_of(t) >= 10000 {
        0
    } else {
        10000 - cv_of(t)
    }
}

/// Largest minus smallest value of an ascending sequence; 0 for at most one.
pub open spec fn range_of(t: Seq<int>) -> int {
    if t.len() <= 1 {
        0
    } else {
        t.last() - t[0]
    }
}

/// The integer square root is the only root bracketed by consecutive squares.
pub(crate) proof fn lemma_isqrt_unique(q: int, r: int)
    requires
        is_isqrt(q, r),
    ensures
        isqrt(q) == r,
{
    let c = isqrt(q);
    assert(is_isqrt(q, c));
    if c < r {
        assert((c + 1) * (c + 1) <= r * r) by (nonlinear_arith)
            requires 0 <= c, c + 1 <= r;
    } else if c > r {
        assert((r + 1) * (r + 1) <= c * c) by (nonlinear_arith)
            requires 0 <= r, r + 1 <= c;
    }
}

/// Two ascending sequences with the same elements are equal.
pub proof fn lemma_sorted_unique(a: Seq<int>, b: Seq<int>)
    requires
        ascending(a),
        ascending(b),
        a.to_multiset() == b.to_multiset(),
    ensures
        a == b,
    decreases a.len(),
{
    vstd::seq_lib::to_multiset_len(a);
    vstd::seq_lib::to_multiset_len(b);
    assert(a.len() == b.len());
    if a.len() > 0 {
        assert(a.to_multiset().count(a[0]) > 0);
        assert(b.contains(a[0]));
        assert(b.to_multiset().count(b[0]) > 0);
        assert(a.contains(b[0]));
        assert(a[0] == b[0]);
        vstd::seq_lib::to_multiset_remove(a, 0);
        vstd::seq_lib::to_multiset_remove(b, 0);
        assert(a.remove(0) =~= a.drop_first());
        assert(b.remove(0) =~= b.drop_first());
        lemma_sorted_unique(a.drop_first(), b.drop_first());
        assert(a =~= b) by {
            assert forall|i: int| 0 <= i < a.len() implies a[i] == b[i] by {
                if i > 0 {
                    assert(a[i] == a.drop_first()[i - 1]);
                }
            }
        }
    }
}

/// The sorted form is ascending and holds the same scores.
pub(crate) proof fn lemma_sorted_ascending(t: Seq<int>)
    ensures
        ascending(sorted_scores(t)),
        sorted_scores(t).to_multiset() == t.to_multiset(),
{
    t.lemma_sort_ensures();
    let leq = |x: int, y: int| x <= y;
    assert forall|i: int, j: int| 0 <= i < j < t.sort().len() implies t.sort()[i] <= t.sort()[j] by {
        assert(leq(t.sort()[i], t.sort()[j]));
    }
}

/// An ascending permutation of `t` is its sorted form.
pub proof fn lemma_is_sorted_form(t: Seq<int>, s: Seq<int>)
    requires
        ascending(s),
        s.to_multiset() == t.to_multiset(),
    ensures
        s == sorted_scores(t),
{
    lemma_sorted_ascending(t);
    lemma_sorted_unique(s, sorted_scores(t));
}

/// Sorts scores ascending.
pub fn sort_scores(v: &Vec<u64>) -> (r: Vec<u64>)
    ensures
        ints(r@) == sorted_scores(ints(v@)),
        r@.to_multiset() == v@.to_multiset(),
        r@.len() == v@.len(),
        forall|i: int| 0 <= i < r@.len() ==> v@.contains(#[trigger] r@[i]),
{
    let n: usize = v.len();
    let mut r: Vec<u64> = Vec::new();
    let mut i: usize = 0;
    while i < n
        invariant
            n == v@.len(),
            i <= n,
            ascending(ints(r@)),
            r@.to_multiset() == v@.subrange(0, i as int).to_multiset(),
        decreases n - i,
    {
        let x = v[i];
        let mut p: usize = 0;
        while p < r.len() && r[p] <= x
            invariant
                p <= r@.len(),
                forall|k: int| 0 <= k < p ==> r@[k] <= x,
            decreases r@.len() - p,
        {
            p += 1;
        }
        let ghost old_r = r@;
        r.insert(p, x);
        proof {
            vstd::seq_lib::to_multiset_insert(old_r, p as int, x);
            assert(v@.subrange(0, i + 1) =~= v@.subrange(0, i as int).push(x));
            assert(ascending(ints(r@))) by {
                assert forall|a: int, b: int| 0 <= a < b < r@.len() implies ints(r@)[a] <= ints(r@)[b] by {
                    let ra = if a < p { old_r[a] } else if a == p { x } else { old_r[a - 1] };
                    let rb = if b < p { old_r[b] } else if b == p { x } else { old_r[b - 1] };
                    assert(r@[a] == ra);
                    assert(r@[b] == rb);
                    if b > p {
                        assert(old_r[p as int] > x);
                        if b - 1 > p {
                            assert(ints(old_r)[p as int] <= ints(old_r)[b - 1]);
                        }
                        if a > p {
                            assert(ints(old_r)[a - 1] <= ints(old_r)[b - 1]);
                        }
                    } else if b == p {
                        assert(old_r[a] <= x);
                    } else {
                        assert(ints(old_r)[a] <= ints(old_r)[b]);
                    }
                }
            }
        }
        i += 1;
    }
    proof {
        assert(v@.subrange(0, n as int) =~= v@);
        vstd::seq_lib::to_multiset_len(r@);
        vstd::seq_lib::to_multiset_len(v@);
        assert(ints(r@).to_multiset() == ints(v@).to_multiset()) by {
            lemma_map_multiset(r@, v@);
        }
        lemma_is_sorted_form(ints(v@), ints(r@));
        assert forall|i: int| 0 <= i < r@.len() implies v@.contains(#[trigger] r@[i]) by {
            assert(r@.to_multiset().count(r@[i]) > 0);
            assert(v@.contains(r@[i]));
        }
    }
    r
}

/// Equal multisets stay equal when read as integers.
pub(crate) proof fn lemma_map_multiset(a: Seq<u64>, b: Seq<u64>)
    requires
        a.to_multiset() == b.to_multiset(),
    ensures
        ints(a).to_multiset() == ints(b).to_multiset(),
    decreases a.len(),
{
    vstd::seq_lib::to_multiset_len(a);
    vstd::seq_lib::to_multiset_len(b);
    assert(a.len() == b.len());
    if a.len() > 0 {
        let x = a.last();
        assert(a.to_multiset().count(x) > 0);
        assert(b.contains(x));
        let j = choose|j: int| 0 <= j < b.len() && b[j] == x;
        vstd::seq_lib::to_multiset_remove(b, j);
        vstd::seq_lib::to_multiset_remove(a, a.len() - 1);
        assert(a.remove(a.len() - 1) =~= a.drop_last());
        lemma_map_multiset(a.drop_last(), b.remove(j));
        vstd::seq_lib::to_multiset_remove(ints(b), j);
        vstd::seq_lib::to_multiset_remove(ints(a), a.len() - 1);
        assert(ints(b).remove(j) =~= ints(b.remove(j)));
        assert(ints(a).remove(a.len() - 1) =~= ints(a.drop_last()));
        assert(ints(a).to_multiset().count(x as int) > 0) by {
            assert(ints(a)[a.len() - 1] == x as int);
        }
        assert(ints(b).to_multiset().count(x as int) > 0) by {
            assert(ints(b)[j] == x as int);
        }
        assert(ints(a).to_multiset() =~= ints(a.drop_last()).to_multiset().insert(x as int));
        assert(ints(b).to_multiset() =~= ints(b.remove(j)).to_multiset().insert(x as int));
    }
}

} // verus!
