//! Pairwise slopes and their median, for the Theil-Sen estimator.
//!
//! A slope is a pair `(dy, dx)`: `dy` beats over `dx` milliseconds, read as
//! the extended rational `dy / dx` in beats per millisecond. Every slope the
//! estimator builds has `dy >= 1`, so `dx == 0` stands for an infinite slope
//! (two taps at the same instant), which takes part in the median like any
//! other value. Slopes are compared by cross-multiplication, which never
//! divides and so needs no special case for `dx == 0`.

use vstd::prelude::*;
use itertools::Itertools;

verus! {

/// `a <= b` as extended rationals `a.0 / a.1 <= b.0 / b.1`, decided by
/// cross-multiplication; sound whenever the numerators are positive.
pub open spec fn slope_le(a: (u64, u64), b: (u64, u64)) -> bool {
    a.0 * b.1 <= b.0 * a.1
}

/// A slope built from two distinct taps spans at least one beat.
pub open spec fn slope_wf(a: (u64, u64)) -> bool {
    a.0 >= 1
}

pub open spec fn slopes_wf(s: Seq<(u64, u64)>) -> bool {
    forall|k: int| 0 <= k < s.len() ==> slope_wf(#[trigger] s[k])
}

/// Cross-multiplication gives a total order on well-formed slopes.
pub proof fn lemma_slope_le_total(a: (u64, u64), b: (u64, u64))
    ensures
        !slope_le(a, b) ==> slope_le(b, a),
        slope_le(a, a),
{
}

pub proof fn lemma_slope_le_trans(a: (u64, u64), b: (u64, u64), c: (u64, u64))
    requires
        slope_le(a, b),
        slope_le(b, c),
        slope_wf(b),
    ensures
        slope_le(a, c),
{
    if b.1 == 0 {
        assert(b.0 * c.1 <= c.0 * b.1);
        assert(c.0 * b.1 == 0) by (nonlinear_arith)
            requires b.1 == 0;
        assert(b.0 * c.1 >= c.1) by (nonlinear_arith)
            requires b.0 >= 1, c.1 >= 0;
        assert(c.1 == 0);
        assert(a.0 * c.1 == 0) by (nonlinear_arith)
            requires c.1 == 0;
        assert(c.0 * a.1 >= 0) by (nonlinear_arith);
    } else {
        assert(a.0 * c.1 <= c.0 * a.1) by (nonlinear_arith)
            requires
                a.0 * b.1 <= b.0 * a.1,
                b.0 * c.1 <= c.0 * b.1,
                b.1 >= 1,
                a.0 >= 0,
                a.1 >= 0,
                b.0 >= 0,
                c.0 >= 0,
                c.1 >= 0;
    }
}

/// The pairs `(i, j)` with `i < j < n` whose first member is `i`, in order
/// of `j`.
pub open spec fn pair_row(i: int, n: int) -> Seq<(int, int)> {
    Seq::new((n - 1 - i) as nat, |k: int| (i, i + 1 + k))
}

/// The pairs `(i, j)` with `lo <= i < j < n`, lexicographically.
pub open spec fn pairs_from(lo: int, n: int) -> Seq<(int, int)>
    decreases n - lo when lo <= n
{
    if lo >= n {
        Seq::empty()
    } else {
        pair_row(lo, n) + pairs_from(lo + 1, n)
    }
}

/// Every pair of distinct indices below `n`, in the lexicographic order that
/// enumerating combinations yields.
pub open spec fn pair_seq(n: int) -> Seq<(int, int)> {
    pairs_from(0, n)
}

pub proof fn lemma_pairs_from_bounds(lo: int, n: int)
    requires
        0 <= lo <= n,
    ensures
        forall|k: int| 0 <= k < pairs_from(lo, n).len()
            ==> lo <= (#[trigger] pairs_from(lo, n)[k]).0
                && pairs_from(lo, n)[k].0 < pairs_from(lo, n)[k].1 < n,
    decreases n - lo,
{
    if lo < n {
        lemma_pairs_from_bounds(lo + 1, n);
        assert forall|k: int| 0 <= k < pairs_from(lo, n).len()
            implies lo <= (#[trigger] pairs_from(lo, n)[k]).0
                && pairs_from(lo, n)[k].0 < pairs_from(lo, n)[k].1 < n
        by {
            let row = pair_row(lo, n);
            if k < row.len() {
                assert(pairs_from(lo, n)[k] == row[k]);
            } else {
                assert(pairs_from(lo, n)[k] == pairs_from(lo + 1, n)[k - row.len()]);
            }
        }
    }
}

pub proof fn lemma_pair_seq_bounds(n: int)
    requires
        n >= 0,
    ensures
        forall|k: int| 0 <= k < pair_seq(n).len()
            ==> 0 <= (#[trigger] pair_seq(n)[k]).0
                && pair_seq(n)[k].0 < pair_seq(n)[k].1 < n,
{
    lemma_pairs_from_bounds(0, n);
}

pub proof fn lemma_pairs_from_len(lo: int, n: int)
    requires
        0 <= lo <= n,
    ensures
        2 * pairs_from(lo, n).len() == (n - lo) * (n - lo - 1),
    decreases n - lo,
{
    if lo >= n {
        assert((n - lo) * (n - lo - 1) == 0) by (nonlinear_arith)
            requires lo == n;
    } else {
        lemma_pairs_from_len(lo + 1, n);
        assert(2 * (n - 1 - lo) + (n - lo - 1) * (n - lo - 2) == (n - lo) * (n - lo - 1))
            by (nonlinear_arith);
    }
}

pub proof fn lemma_pair_seq_len(n: int)
    requires
        n >= 0,
    ensures
        2 * pair_seq(n).len() == n * (n - 1),
        n >= 2 ==> pair_seq(n).len() >= 1,
{
    lemma_pairs_from_len(0, n);
    if n >= 2 {
        assert(n * (n - 1) >= 2) by (nonlinear_arith)
            requires n >= 2;
    }
}

/// How many elements of `s` satisfy `pred`.
pub open spec fn count_match<T>(s: Seq<T>, pred: spec_fn(T) -> bool) -> int
    decreases s.len(),
{
    if s.len() == 0 {
        0
    } else {
        count_match(s.drop_last(), pred) + if pred(s.last()) { 1int } else { 0int }
    }
}

pub proof fn lemma_count_range<T>(s: Seq<T>, pred: spec_fn(T) -> bool)
    ensures
        0 <= count_match(s, pred) <= s.len(),
    decreases s.len(),
{
    if s.len() > 0 {
        lemma_count_range(s.drop_last(), pred);
    }
}

/// Inserting one element raises the count by that element's own match.
pub proof fn lemma_count_insert<T>(s: Seq<T>, i: int, x: T, pred: spec_fn(T) -> bool)
    requires
        0 <= i <= s.len(),
    ensures
        count_match(s.insert(i, x), pred)
            == count_match(s, pred) + if pred(x) { 1int } else { 0int },
    decreases s.len(),
{
    let t = s.insert(i, x);
    if i == s.len() {
        assert(t.drop_last() =~= s);
        assert(t.last() == x);
    } else {
        assert(t.last() == s.last());
        assert(t.drop_last() =~= s.drop_last().insert(i, x));
        lemma_count_insert(s.drop_last(), i, x, pred);
    }
}

/// A count of zero means no element matches, and conversely.
pub proof fn lemma_count_zero<T>(s: Seq<T>, pred: spec_fn(T) -> bool)
    ensures
        (count_match(s, pred) == 0) <==> (forall|k: int| 0 <= k < s.len() ==> !pred(#[trigger] s[k])),
    decreases s.len(),
{
    lemma_count_range(s, pred);
    if s.len() > 0 {
        lemma_count_zero(s.drop_last(), pred);
        lemma_count_range(s.drop_last(), pred);
        if count_match(s, pred) == 0 {
            assert forall|k: int| 0 <= k < s.len() implies !pred(#[trigger] s[k]) by {
                if k < s.len() - 1 {
                    assert(s.drop_last()[k] == s[k]);
                } else {
                    assert(s[k] == s.last());
                }
            }
        } else {
            if forall|k: int| 0 <= k < s.len() ==> !pred(#[trigger] s[k]) {
                assert(forall|k: int| 0 <= k < s.drop_last().len()
                    ==> !pred(#[trigger] s.drop_last()[k]));
                assert(!pred(s.last()));
                assert(false);
            }
        }
    }
}

/// If every index of `[a, b)` matches, at least `b - a` elements match.
pub proof fn lemma_count_at_least<T>(s: Seq<T>, pred: spec_fn(T) -> bool, a: int, b: int)
    requires
        0 <= a <= b <= s.len(),
        forall|t: int| a <= t < b ==> pred(#[trigger] s[t]),
    ensures
        count_match(s, pred) >= b - a,
    decreases s.len(),
{
    if s.len() > 0 {
        if b == s.len() {
            if a < b {
                assert(pred(s.last()));
                assert(forall|t: int| a <= t < b - 1 ==> pred(#[trigger] s.drop_last()[t]));
                lemma_count_at_least(s.drop_last(), pred, a, b - 1);
            } else {
                lemma_count_range(s, pred);
            }
        } else {
            assert(forall|t: int| a <= t < b ==> pred(#[trigger] s.drop_last()[t]));
            lemma_count_at_least(s.drop_last(), pred, a, b);
        }
    } else {
        lemma_count_range(s, pred);
    }
}

/// Counts of two equally long sequences compare when the predicates do,
/// index by index.
pub proof fn lemma_count_pointwise_le<T, U>(
    s: Seq<T>,
    t: Seq<U>,
    p: spec_fn(T) -> bool,
    q: spec_fn(U) -> bool,
)
    requires
        s.len() == t.len(),
        forall|k: int| 0 <= k < s.len() && p(#[trigger] s[k]) ==> q(#[trigger] t[k]),
    ensures
        count_match(s, p) <= count_match(t, q),
    decreases s.len(),
{
    if s.len() > 0 {
        assert(forall|k: int| 0 <= k < s.drop_last().len() && p(#[trigger] s.drop_last()[k])
            ==> q(#[trigger] t.drop_last()[k]));
        lemma_count_pointwise_le(s.drop_last(), t.drop_last(), p, q);
        assert(s.last() == s[s.len() - 1]);
        assert(t.last() == t[t.len() - 1]);
    }
}

pub proof fn lemma_count_concat<T>(a: Seq<T>, b: Seq<T>, pred: spec_fn(T) -> bool)
    ensures
        count_match(a + b, pred) == count_match(a, pred) + count_match(b, pred),
    decreases b.len(),
{
    if b.len() == 0 {
        assert(a + b =~= a);
    } else {
        assert((a + b).drop_last() =~= a + b.drop_last());
        assert((a + b).last() == b.last());
        lemma_count_concat(a, b.drop_last(), pred);
    }
}

/// The pairs whose either member is `p`.
pub open spec fn involves(p: int) -> spec_fn((int, int)) -> bool {
    |q: (int, int)| q.0 == p || q.1 == p
}

/// In the row of first member `i`, the pairs involving `p`: the whole row if
/// `i == p`, one pair if `p` comes later, none otherwise.
pub proof fn lemma_count_row_involving(i: int, n: int, p: int)
    requires
        0 <= i < n,
        0 <= p < n,
    ensures
        count_match(pair_row(i, n), involves(p)) == if i == p {
            n - 1 - i
        } else if i < p {
            1int
        } else {
            0int
        },
    decreases n - i,
{
    let row = pair_row(i, n);
    if i == n - 1 {
        assert(row.len() == 0);
    } else {
        let prev = pair_row(i, n - 1);
        assert(row.drop_last() =~= prev);
        assert(row.last() == (i, n - 1));
        if p < n - 1 {
            lemma_count_row_involving(i, n - 1, p);
        } else {
            // p == n - 1: the last pair of the row is the only one involving p
            lemma_count_zero(prev, involves(p));
            assert forall|k: int| 0 <= k < prev.len() implies !involves(p)(#[trigger] prev[k]) by {
                assert(prev[k] == (i, i + 1 + k));
            }
        }
    }
}

/// Among all pairs over `n` indices, exactly `n - 1` involve a given one.
pub proof fn lemma_count_pairs_involving(lo: int, n: int, p: int)
    requires
        0 <= lo <= n,
        0 <= p < n,
    ensures
        count_match(pairs_from(lo, n), involves(p)) == if lo <= p {
            (p - lo) + (n - 1 - p)
        } else {
            0int
        },
    decreases n - lo,
{
    if lo >= n {
    } else {
        lemma_count_concat(pair_row(lo, n), pairs_from(lo + 1, n), involves(p));
        lemma_count_row_involving(lo, n, p);
        lemma_count_pairs_involving(lo + 1, n, p);
    }
}

/// The pairwise slopes of the offsets `s`: for each pair `(i, j)` with
/// `i < j`, the slope `(j - i) / (s[j] - s[i])` in beats per millisecond,
/// in the order the pairs are enumerated.
pub open spec fn slope_seq(s: Seq<u64>) -> Seq<(u64, u64)> {
    Seq::new(
        pair_seq(s.len() as int).len(),
        |k: int|
            {
                let p = pair_seq(s.len() as int)[k];
                ((p.1 - p.0) as u64, (s[p.1] - s[p.0]) as u64)
            },
    )
}

/// On non-decreasing offsets every slope is well-formed and the casts in
/// `slope_seq` are exact.
pub proof fn lemma_slope_seq_props(s: Seq<u64>)
    requires
        s.len() <= u64::MAX,
        forall|i: int, j: int| 0 <= i <= j < s.len() ==> s[i] <= s[j],
    ensures
        slope_seq(s).len() == pair_seq(s.len() as int).len(),
        forall|k: int| 0 <= k < slope_seq(s).len()
            ==> {
                let p = pair_seq(s.len() as int)[k];
                (#[trigger] slope_seq(s)[k]).0 == p.1 - p.0
                    && slope_seq(s)[k].1 == s[p.1] - s[p.0]
            },
        slopes_wf(slope_seq(s)),
{
    let n = s.len() as int;
    lemma_pair_seq_bounds(n);
    assert forall|k: int| 0 <= k < slope_seq(s).len()
        implies {
            let p = pair_seq(n)[k];
            (#[trigger] slope_seq(s)[k]).0 == p.1 - p.0 && slope_seq(s)[k].1 == s[p.1] - s[p.0]
        }
    by {
        let p = pair_seq(n)[k];
        assert(0 <= p.0 < p.1 < n);
        assert(s[p.0] <= s[p.1]);
        assert(0 < p.1 - p.0 < n <= u64::MAX);
        assert(0 <= s[p.1] - s[p.0] <= u64::MAX);
    }
}

/// Where a new element lands in `s`: the number of leading elements that are
/// at most `x`.
pub open spec fn insert_pos(s: Seq<(u64, u64)>, x: (u64, u64)) -> int
    decreases s.len(),
{
    if s.len() == 0 {
        0
    } else if slope_le(s[0], x) {
        1 + insert_pos(s.drop_first(), x)
    } else {
        0
    }
}

/// Insertion keeping order: `x` goes after every element at most `x`.
pub open spec fn insert_sorted(s: Seq<(u64, u64)>, x: (u64, u64)) -> Seq<(u64, u64)> {
    s.insert(insert_pos(s, x), x)
}

/// Insertion sort of the slopes, from the left; the tie-break is fixed, so
/// the sorted sequence is a function of the input alone.
pub open spec fn sort_spec(s: Seq<(u64, u64)>) -> Seq<(u64, u64)>
    decreases s.len(),
{
    if s.len() == 0 {
        Seq::empty()
    } else {
        insert_sorted(sort_spec(s.drop_last()), s.last())
    }
}

pub open spec fn sorted(s: Seq<(u64, u64)>) -> bool {
    forall|i: int, j: int| 0 <= i <= j < s.len() ==> slope_le(#[trigger] s[i], #[trigger] s[j])
}

pub proof fn lemma_insert_pos_range(s: Seq<(u64, u64)>, x: (u64, u64))
    ensures
        0 <= insert_pos(s, x) <= s.len(),
        forall|t: int| 0 <= t < insert_pos(s, x) ==> slope_le(#[trigger] s[t], x),
        insert_pos(s, x) < s.len() ==> !slope_le(s[insert_pos(s, x)], x),
    decreases s.len(),
{
    if s.len() > 0 && slope_le(s[0], x) {
        lemma_insert_pos_range(s.drop_first(), x);
        assert forall|t: int| 0 <= t < insert_pos(s, x) implies slope_le(#[trigger] s[t], x) by {
            if t > 0 {
                assert(s.drop_first()[t - 1] == s[t]);
            }
        }
        if insert_pos(s, x) < s.len() {
            assert(s.drop_first()[insert_pos(s, x) - 1] == s[insert_pos(s, x)]);
        }
    }
}

/// The scan of the executable sort finds exactly `insert_pos`.
pub proof fn lemma_insert_pos_from_scan(s: Seq<(u64, u64)>, x: (u64, u64), pos: int)
    requires
        0 <= pos <= s.len(),
        forall|t: int| 0 <= t < pos ==> slope_le(#[trigger] s[t], x),
        pos < s.len() ==> !slope_le(s[pos], x),
    ensures
        insert_pos(s, x) == pos,
    decreases s.len(),
{
    if s.len() > 0 {
        if pos == 0 {
        } else {
            assert(slope_le(s[0], x));
            assert(forall|t: int| 0 <= t < pos - 1 ==> slope_le(#[trigger] s.drop_first()[t], x));
            if pos - 1 < s.drop_first().len() {
                assert(s.drop_first()[pos - 1] == s[pos]);
            }
            lemma_insert_pos_from_scan(s.drop_first(), x, pos - 1);
        }
    }
}

/// Inserting a well-formed element into a sorted, well-formed sequence keeps
/// it sorted and well-formed.
pub proof fn lemma_insert_sorted_keeps_order(s: Seq<(u64, u64)>, x: (u64, u64))
    requires
        sorted(s),
        slopes_wf(s),
        slope_wf(x),
    ensures
        sorted(insert_sorted(s, x)),
        slopes_wf(insert_sorted(s, x)),
        insert_sorted(s, x).len() == s.len() + 1,
{
    let pos = insert_pos(s, x);
    lemma_insert_pos_range(s, x);
    let t = s.insert(pos, x);
    assert forall|i: int, j: int| 0 <= i <= j < t.len() implies slope_le(
        #[trigger] t[i],
        #[trigger] t[j],
    ) by {
        if i < pos {
            assert(t[i] == s[i]);
        }
        if j < pos {
            assert(t[j] == s[j]);
        }
        if i > pos {
            assert(t[i] == s[i - 1]);
        }
        if j > pos {
            assert(t[j] == s[j - 1]);
        }
        if j == pos && i < pos {
            assert(slope_le(s[i], x));
        }
        if i == pos && j > pos {
            // x goes before s[pos], which is at most every later element
            if pos < s.len() {
                lemma_slope_le_total(s[pos], x);
                assert(slope_le(x, s[pos]));
                if j - 1 > pos {
                    lemma_slope_le_trans(x, s[pos], s[j - 1]);
                }
            }
        }
    }
    assert forall|k: int| 0 <= k < t.len() implies slope_wf(#[trigger] t[k]) by {
        if k < pos {
            assert(t[k] == s[k]);
        } else if k > pos {
            assert(t[k] == s[k - 1]);
        }
    }
}

/// What sorting guarantees: order, well-formedness, length, and that every
/// predicate counts the same before and after (the two sequences hold the
/// same elements).
pub proof fn lemma_sort_spec_props(s: Seq<(u64, u64)>)
    requires
        slopes_wf(s),
    ensures
        sort_spec(s).len() == s.len(),
        sorted(sort_spec(s)),
        slopes_wf(sort_spec(s)),
        forall|pred: spec_fn((u64, u64)) -> bool|
            #[trigger] count_match(sort_spec(s), pred) == count_match(s, pred),
    decreases s.len(),
{
    if s.len() > 0 {
        assert(slopes_wf(s.drop_last()));
        assert(slope_wf(s.last()));
        lemma_sort_spec_props(s.drop_last());
        lemma_insert_sorted_keeps_order(sort_spec(s.drop_last()), s.last());
        lemma_insert_pos_range(sort_spec(s.drop_last()), s.last());
        assert forall|pred: spec_fn((u64, u64)) -> bool|
            #[trigger] count_match(sort_spec(s), pred) == count_match(s, pred)
        by {
            lemma_count_insert(
                sort_spec(s.drop_last()),
                insert_pos(sort_spec(s.drop_last()), s.last()),
                s.last(),
                pred,
            );
        }
    }
}

/// Compares two slopes as extended rationals, by cross-multiplication.
fn slope_le_exec(a: (u64, u64), b: (u64, u64)) -> (r: bool)
    ensures
        r == slope_le(a, b),
{
    proof {
        assert(a.0 * b.1 <= u64::MAX * u64::MAX && b.0 * a.1 <= u64::MAX * u64::MAX)
            by (nonlinear_arith)
            requires
                a.0 <= u64::MAX,
                a.1 <= u64::MAX,
                b.0 <= u64::MAX,
                b.1 <= u64::MAX,
                a.0 >= 0,
                a.1 >= 0,
                b.0 >= 0,
                b.1 >= 0;
    }
    (a.0 as u128) * (b.1 as u128) <= (b.0 as u128) * (a.1 as u128)
}

/// Sorts the slopes by insertion, scanning each insertion point from the
/// left, so that the result is exactly `sort_spec` of the input.
pub fn sort_slopes(v: &Vec<(u64, u64)>) -> (r: Vec<(u64, u64)>)
    ensures
        r@ == sort_spec(v@),
{
    let mut r: Vec<(u64, u64)> = Vec::new();
    let mut k: usize = 0;
    while k < v.len()
        invariant
            k <= v.len(),
            r@ == sort_spec(v@.take(k as int)),
            r@.len() <= k,
        decreases v.len() - k,
    {
        let x = v[k];
        let mut pos: usize = 0;
        while pos < r.len() && slope_le_exec(r[pos], x)
            invariant
                pos <= r@.len(),
                forall|t: int| 0 <= t < pos ==> slope_le(#[trigger] r@[t], x),
            decreases r.len() - pos,
        {
            pos += 1;
        }
        proof {
            lemma_insert_pos_from_scan(r@, x, pos as int);
            assert(v@.take(k as int + 1).drop_last() =~= v@.take(k as int));
            assert(v@.take(k as int + 1).last() == v@[k as int]);
        }
        r.insert(pos, x);
        k += 1;
    }
    proof {
        assert(v@.take(v@.len() as int) =~= v@);
    }
    r
}

/// Relies on `itertools::Itertools::tuple_combinations`: over the range
/// `0..n` it yields every pair of distinct values, in lexicographic order.
#[verifier::external_body]
pub(crate) fn index_pairs(n: usize) -> (r: Vec<(usize, usize)>)
    ensures
        r@.len() == pair_seq(n as int).len(),
        forall|k: int| 0 <= k < r@.len()
            ==> (#[trigger] r@[k]).0 == pair_seq(n as int)[k].0
                && r@[k].1 == pair_seq(n as int)[k].1,
{
    (0..n).tuple_combinations().collect()
}

} // verus!
