//! The laws the estimators obey, proved once and for all inputs.
//!
//! Each lemma is stated over the specification functions that the executable
//! estimators are proved to return, so everything shown here holds of every
//! call of `direct_count`, `simple_regression` and `thiel_sen`.

use vstd::prelude::*;
use crate::bpm::{
    spec_direct_count, spec_simple_regression, spec_thiel_sen, sum_x, sum_xx, sum_ix,
    BpmCalculationError, BpmRatio,
};
use crate::slopes::{
    count_match, involves, pair_seq, slope_le, slope_seq, sort_spec, lemma_count_at_least,
    lemma_count_pairs_involving, lemma_count_pointwise_le, lemma_count_zero,
    lemma_pair_seq_bounds, lemma_pair_seq_len, lemma_slope_le_trans, lemma_slope_seq_props,
    lemma_sort_spec_props,
};

verus! {

/// Perfectly regular taps at interval `d`: the offset of tap `i` is `i * d`.
pub open spec fn regular(s: Seq<u64>, d: u64) -> bool {
    forall|i: int| 0 <= i < s.len() ==> (#[trigger] s[i]) as int == i * d
}

/// `r` is exactly `60000 / d` beats per minute, as a ratio.
pub open spec fn is_exactly(r: Result<BpmRatio, BpmCalculationError>, d: u64) -> bool {
    r matches Ok(v) && v.den > 0 && v.num * d == 60000 * v.den
}

/// Fewer than two taps leave every estimator with `InsufficientData` — and
/// with at least two taps none of them fails.
pub proof fn lemma_insufficient_data(s: Seq<u64>)
    ensures
        (spec_direct_count(s) == Err::<BpmRatio, BpmCalculationError>(
            BpmCalculationError::InsufficientData,
        )) <==> s.len() < 2,
        (spec_simple_regression(s) == Err::<BpmRatio, BpmCalculationError>(
            BpmCalculationError::InsufficientData,
        )) <==> s.len() < 2,
        (spec_thiel_sen(s) == Err::<BpmRatio, BpmCalculationError>(
            BpmCalculationError::InsufficientData,
        )) <==> s.len() < 2,
{
}

/// Estimation is a function of the offsets alone: two calls of the same
/// estimator on the same sequence return bit-identical results, because each
/// executable estimator ensures its result equals one specification value.
pub proof fn lemma_estimators_idempotent(
    s: Seq<u64>,
    r1: Result<BpmRatio, BpmCalculationError>,
    r2: Result<BpmRatio, BpmCalculationError>,
)
    requires
        r1 == spec_direct_count(s) || r1 == spec_simple_regression(s) || r1 == spec_thiel_sen(s),
        r2 == spec_direct_count(s) && r1 == spec_direct_count(s)
            || r2 == spec_simple_regression(s) && r1 == spec_simple_regression(s)
            || r2 == spec_thiel_sen(s) && r1 == spec_thiel_sen(s),
    ensures
        r1 == r2,
{
}

/// Regular taps never decrease.
pub proof fn lemma_regular_non_decreasing(s: Seq<u64>, d: u64)
    requires
        regular(s, d),
    ensures
        forall|i: int, j: int| 0 <= i <= j < s.len() ==> s[i] <= s[j],
{
    assert forall|i: int, j: int| 0 <= i <= j < s.len() implies s[i] <= s[j] by {
        assert(i * d <= j * d) by (nonlinear_arith)
            requires 0 <= i <= j, d >= 0;
    }
}

/// On perfectly regular taps at interval `d >= 1`, the direct count is
/// exactly `60000 / d` beats per minute.
pub proof fn lemma_direct_count_regular(s: Seq<u64>, d: u64)
    requires
        regular(s, d),
        2 <= s.len() <= usize::MAX,
        d >= 1,
    ensures
        is_exactly(spec_direct_count(s), d),
{
    let n = s.len() as int;
    assert(s.first() as int == 0 * d);
    assert(s.last() as int == (n - 1) * d);
    assert((n - 1) * d >= 1) by (nonlinear_arith)
        requires n >= 2, d >= 1;
    let r = spec_direct_count(s)->Ok_0;
    assert(r.num == 60000 * (n - 1));
    assert(r.den == (n - 1) * d);
    assert(60000 * (n - 1) * d == 60000 * ((n - 1) * d)) by (nonlinear_arith);
}

/// Sum of the beat indices `0 .. n`.
pub open spec fn sum_i(n: int) -> int
    decreases n when n >= 0
{
    if n <= 0 {
        0
    } else {
        sum_i(n - 1) + (n - 1)
    }
}

/// Sum of the squared beat indices `0 .. n`.
pub open spec fn sum_ii(n: int) -> int
    decreases n when n >= 0
{
    if n <= 0 {
        0
    } else {
        sum_ii(n - 1) + (n - 1) * (n - 1)
    }
}

pub proof fn lemma_index_sums_nonneg(n: int)
    requires
        n >= 0,
    ensures
        sum_i(n) >= 0,
        sum_ii(n) >= 0,
    decreases n,
{
    if n > 0 {
        lemma_index_sums_nonneg(n - 1);
        assert((n - 1) * (n - 1) >= 0) by (nonlinear_arith);
    }
}

pub proof fn lemma_sum_i_closed(n: int)
    requires
        n >= 0,
    ensures
        2 * sum_i(n) == n * (n - 1),
    decreases n,
{
    if n > 0 {
        lemma_sum_i_closed(n - 1);
        assert(2 * sum_i(n) == n * (n - 1)) by (nonlinear_arith)
            requires
                2 * sum_i(n - 1) == (n - 1) * (n - 1 - 1),
                sum_i(n) == sum_i(n - 1) + (n - 1);
    } else {
        assert(n * (n - 1) == 0) by (nonlinear_arith)
            requires n == 0;
    }
}

/// The beat indices have positive variance once there are two of them.
pub proof fn lemma_index_var_pos(n: int)
    requires
        n >= 2,
    ensures
        n * sum_ii(n) > sum_i(n) * sum_i(n),
    decreases n,
{
    if n == 2 {
        assert(sum_i(0) == 0);
        assert(sum_i(1) == 0);
        assert(sum_i(2) == 1);
        assert(sum_ii(0) == 0);
        assert(sum_ii(1) == 0);
        assert(sum_ii(2) == 1);
    } else {
        let k = n - 1;
        lemma_index_var_pos(k);
        lemma_index_sums_nonneg(k);
        lemma_sum_i_closed(k);
        assert((k + 1) * (sum_ii(k) + k * k) > (sum_i(k) + k) * (sum_i(k) + k))
            by (nonlinear_arith)
            requires
                k >= 2,
                sum_ii(k) >= 0,
                sum_i(k) >= 0,
                k * sum_ii(k) > sum_i(k) * sum_i(k),
                2 * sum_i(k) == k * (k - 1);
    }
}

/// On regular taps every accumulated sum reduces to `d` times an index sum.
pub proof fn lemma_sums_regular(s: Seq<u64>, d: u64)
    requires
        regular(s, d),
    ensures
        sum_x(s) == d * sum_i(s.len() as int),
        sum_ix(s) == d * sum_ii(s.len() as int),
        sum_xx(s) == (d * d) * sum_ii(s.len() as int),
    decreases s.len(),
{
    let l = s.len() as int;
    if l > 0 {
        let dl = s.drop_last();
        assert(regular(dl, d));
        lemma_sums_regular(dl, d);
        assert(s.last() as int == (l - 1) * d);
        assert(d * sum_i(l - 1) + (l - 1) * d == d * sum_i(l)) by (nonlinear_arith)
            requires sum_i(l) == sum_i(l - 1) + (l - 1);
        assert(d * sum_ii(l - 1) + (l - 1) * ((l - 1) * d) == d * sum_ii(l)) by (nonlinear_arith)
            requires sum_ii(l) == sum_ii(l - 1) + (l - 1) * (l - 1);
        assert((d * d) * sum_ii(l - 1) + ((l - 1) * d) * ((l - 1) * d) == (d * d) * sum_ii(l))
            by (nonlinear_arith)
            requires sum_ii(l) == sum_ii(l - 1) + (l - 1) * (l - 1);
    }
}

/// On perfectly regular taps at interval `d >= 1`, the least-squares fit has
/// zero residual and returns exactly `60000 / d` beats per minute.
pub proof fn lemma_simple_regression_regular(s: Seq<u64>, d: u64)
    requires
        regular(s, d),
        2 <= s.len() <= crate::bpm::MAX_TAPS,
        forall|i: int| 0 <= i < s.len() ==> s[i] <= crate::bpm::MAX_OFFSET_MS,
        d >= 1,
    ensures
        is_exactly(spec_simple_regression(s), d),
{
    let n = s.len() as int;
    let si = sum_i(n);
    let sii = sum_ii(n);
    let v = n * sii - si * si;
    lemma_sums_regular(s, d);
    lemma_sum_i_closed(n);
    lemma_index_var_pos(n);
    lemma_index_sums_nonneg(n);
    let num_int = 60000 * (2 * n * sum_ix(s) - n * (n - 1) * sum_x(s));
    let den_int = 2 * (n * sum_xx(s) - sum_x(s) * sum_x(s));
    assert(num_int == 120000 * (d * v)) by (nonlinear_arith)
        requires
            num_int == 60000 * (2 * n * (d * sii) - n * (n - 1) * (d * si)),
            2 * si == n * (n - 1),
            v == n * sii - si * si;
    assert(den_int == 2 * ((d * d) * v)) by (nonlinear_arith)
        requires
            den_int == 2 * (n * ((d * d) * sii) - (d * si) * (d * si)),
            v == n * sii - si * si;
    assert(d * v >= v && (d * d) * v >= v) by (nonlinear_arith)
        requires d >= 1, v >= 1;
    // both values fit the machine integers of the returned ratio
    crate::bpm::lemma_sum_bounds(s, crate::bpm::MAX_OFFSET_MS);
    assert(2 * n * sum_ix(s) <= 0x20000 * (0x10000 * 0x10000 * 0xFFFFFFFFi128)
        && 2 * n * sum_ix(s) >= 0) by (nonlinear_arith)
        requires
            0 <= n <= 0x10000,
            0 <= sum_ix(s) <= n * n * 0xFFFFFFFFi128,
        ;
    assert(n * (n - 1) * sum_x(s) <= 0x10000 * 0x10000 * (0x10000 * 0xFFFFFFFFi128)
        && n * (n - 1) * sum_x(s) >= 0) by (nonlinear_arith)
        requires
            2 <= n <= 0x10000,
            0 <= sum_x(s) <= n * 0xFFFFFFFFi128,
        ;
    assert(n * sum_xx(s) <= 0x10000 * (0x10000 * (0xFFFFFFFFi128 * 0xFFFFFFFFi128))
        && n * sum_xx(s) >= 0) by (nonlinear_arith)
        requires
            0 <= n <= 0x10000,
            0 <= sum_xx(s) <= n * (0xFFFFFFFFi128 * 0xFFFFFFFFi128),
        ;
    assert(sum_x(s) * sum_x(s) <= (0x10000 * 0xFFFFFFFFi128) * (0x10000 * 0xFFFFFFFFi128)
        && sum_x(s) * sum_x(s) >= 0) by (nonlinear_arith)
        requires 0 <= sum_x(s) <= 0x10000 * 0xFFFFFFFFi128;
    let r = spec_simple_regression(s)->Ok_0;
    assert(r.num == num_int);
    assert(r.den == den_int);
    assert(r.num * d == 60000 * r.den) by (nonlinear_arith)
        requires
            r.num == 120000 * (d * v),
            r.den == 2 * ((d * d) * v);
}

/// On perfectly regular taps the least-squares estimate equals the direct
/// count: the same ratio, `60000 / d`.
pub proof fn lemma_regression_matches_direct(s: Seq<u64>, d: u64)
    requires
        regular(s, d),
        2 <= s.len() <= crate::bpm::MAX_TAPS,
        forall|i: int| 0 <= i < s.len() ==> s[i] <= crate::bpm::MAX_OFFSET_MS,
        d >= 1,
    ensures
        is_exactly(spec_direct_count(s), d),
        is_exactly(spec_simple_regression(s), d),
        spec_direct_count(s)->Ok_0.num * spec_simple_regression(s)->Ok_0.den
            == spec_simple_regression(s)->Ok_0.num * spec_direct_count(s)->Ok_0.den,
{
    lemma_direct_count_regular(s, d);
    lemma_simple_regression_regular(s, d);
    let a = spec_direct_count(s)->Ok_0;
    let b = spec_simple_regression(s)->Ok_0;
    assert(a.num * b.den == b.num * a.den) by (nonlinear_arith)
        requires
            a.num * d == 60000 * a.den,
            b.num * d == 60000 * b.den,
            d >= 1,
            a.den > 0,
            b.den > 0;
}

/// The slopes strictly below `1 / d` beats per millisecond.
pub open spec fn below(d: u64) -> spec_fn((u64, u64)) -> bool {
    |m: (u64, u64)| !slope_le((1u64, d), m)
}

/// The slopes strictly above `1 / d` beats per millisecond.
pub open spec fn above(d: u64) -> spec_fn((u64, u64)) -> bool {
    |m: (u64, u64)| !slope_le(m, (1u64, d))
}

/// A slope whose gap is exactly `d` milliseconds per beat compares equal to
/// `1 / d`.
pub proof fn lemma_slope_in_class(m: (u64, u64), d: u64)
    requires
        m.1 == m.0 * d,
    ensures
        !below(d)(m),
        !above(d)(m),
{
}

/// Wherever fewer than half of the pairwise slopes lie strictly below
/// `1 / d` and fewer than half strictly above, the median is exactly
/// `1 / d`, and Theil-Sen returns exactly `60000 / d` beats per minute.
pub proof fn lemma_thiel_sen_median_in_class(s: Seq<u64>, d: u64, bound: int)
    requires
        2 <= s.len() <= u64::MAX,
        forall|i: int, j: int| 0 <= i <= j < s.len() ==> s[i] <= s[j],
        d >= 1,
        count_match(slope_seq(s), below(d)) <= bound,
        count_match(slope_seq(s), above(d)) <= bound,
        slope_seq(s).len() / 2 >= bound,
        slope_seq(s).len() - slope_seq(s).len() / 2 > bound,
    ensures
        is_exactly(spec_thiel_sen(s), d),
{
    let sl = slope_seq(s);
    let st = sort_spec(sl);
    let nn = sl.len() as int;
    let mid = nn / 2;
    let q = (1u64, d);
    lemma_slope_seq_props(s);
    lemma_sort_spec_props(sl);
    lemma_pair_seq_len(s.len() as int);
    assert(nn >= 1);
    assert(0 <= mid < nn);
    let m = st[mid];
    if below(d)(m) {
        assert forall|t: int| 0 <= t < mid + 1 implies below(d)(#[trigger] st[t]) by {
            assert(slope_le(st[t], m));
            if slope_le(q, st[t]) {
                lemma_slope_le_trans(q, st[t], m);
            }
        }
        lemma_count_at_least(st, below(d), 0, mid + 1);
        assert(count_match(st, below(d)) == count_match(sl, below(d)));
        assert(false);
    }
    if above(d)(m) {
        assert forall|t: int| mid <= t < nn implies above(d)(#[trigger] st[t]) by {
            assert(slope_le(m, st[t]));
            if slope_le(st[t], q) {
                lemma_slope_le_trans(m, st[t], q);
            }
        }
        lemma_count_at_least(st, above(d), mid, nn);
        assert(count_match(st, above(d)) == count_match(sl, above(d)));
        assert(false);
    }
    assert(slope_le(q, m) && slope_le(m, q));
    assert(m.1 == m.0 * d);
    assert(m.0 >= 1);
    assert(m.1 >= 1) by (nonlinear_arith)
        requires m.1 == m.0 * d, m.0 >= 1, d >= 1;
    let r = spec_thiel_sen(s)->Ok_0;
    assert(r.num == 60000 * m.0);
    assert(r.den == m.1);
    assert((60000 * m.0) * d == 60000 * (m.0 * d)) by (nonlinear_arith);
}

/// On perfectly regular taps at interval `d >= 1`, every pairwise slope is
/// exactly `1 / d`, and so is the median: Theil-Sen returns exactly
/// `60000 / d` beats per minute.
pub proof fn lemma_thiel_sen_regular(s: Seq<u64>, d: u64)
    requires
        regular(s, d),
        2 <= s.len() <= u64::MAX,
        d >= 1,
    ensures
        is_exactly(spec_thiel_sen(s), d),
{
    let n = s.len() as int;
    let sl = slope_seq(s);
    lemma_regular_non_decreasing(s, d);
    lemma_slope_seq_props(s);
    lemma_pair_seq_bounds(n);
    assert forall|k: int| 0 <= k < sl.len() implies !below(d)(#[trigger] sl[k])
        && !above(d)(sl[k]) by {
        let p = pair_seq(n)[k];
        assert(sl[k].0 == p.1 - p.0 && sl[k].1 == s[p.1] - s[p.0]);
        assert(s[p.1] as int == p.1 * d && s[p.0] as int == p.0 * d);
        assert(p.1 * d - p.0 * d == (p.1 - p.0) * d) by (nonlinear_arith);
        lemma_slope_in_class(sl[k], d);
    }
    lemma_count_zero(sl, below(d));
    lemma_count_zero(sl, above(d));
    lemma_pair_seq_len(n);
    lemma_thiel_sen_median_in_class(s, d, 0);
}

/// Theil-Sen is robust: perturbing one interior tap of a regular session, by
/// any amount that keeps the offsets in order, leaves the estimate at
/// exactly `60000 / d` beats per minute once five taps are in — the
/// perturbed tap moves only `n - 1` of the `n (n - 1) / 2` pairwise slopes,
/// too few to move the median. The direct count, which reads only the two
/// untouched endpoints, is equally unmoved; the least-squares fit is the one
/// estimator such a perturbation can shift.
pub proof fn lemma_thiel_sen_robust(s: Seq<u64>, d: u64, p: int)
    requires
        5 <= s.len() <= u64::MAX,
        forall|i: int, j: int| 0 <= i <= j < s.len() ==> s[i] <= s[j],
        d >= 1,
        0 < p < s.len() - 1,
        forall|i: int| 0 <= i < s.len() && i != p ==> (#[trigger] s[i]) as int == i * d,
    ensures
        is_exactly(spec_thiel_sen(s), d),
        is_exactly(spec_direct_count(s), d),
{
    let l = s.len() as int;
    assert(s.first() as int == 0 * d && s.last() as int == (l - 1) * d);
    assert(0 * d == 0) by (nonlinear_arith);
    assert((l - 1) * d >= 1) by (nonlinear_arith)
        requires l >= 2, d >= 1;
    let rd = spec_direct_count(s)->Ok_0;
    assert(rd.num == 60000 * (l - 1) && rd.den == (l - 1) * d);
    assert(60000 * (l - 1) * d == 60000 * ((l - 1) * d)) by (nonlinear_arith);
    let n = s.len() as int;
    let sl = slope_seq(s);
    lemma_slope_seq_props(s);
    lemma_pair_seq_bounds(n);
    assert forall|k: int| 0 <= k < sl.len()
        && !involves(p)(#[trigger] pair_seq(n)[k]) implies !below(d)(sl[k]) && !above(d)(sl[k]) by {
        let pr = pair_seq(n)[k];
        assert(sl[k].0 == pr.1 - pr.0 && sl[k].1 == s[pr.1] - s[pr.0]);
        assert(s[pr.1] as int == pr.1 * d && s[pr.0] as int == pr.0 * d);
        assert(pr.1 * d - pr.0 * d == (pr.1 - pr.0) * d) by (nonlinear_arith);
        lemma_slope_in_class(sl[k], d);
    }
    lemma_count_pointwise_le(sl, pair_seq(n), below(d), involves(p));
    lemma_count_pointwise_le(sl, pair_seq(n), above(d), involves(p));
    lemma_count_pairs_involving(0, n, p);
    assert(count_match(sl, below(d)) <= n - 1);
    assert(count_match(sl, above(d)) <= n - 1);
    lemma_pair_seq_len(n);
    let nn = sl.len() as int;
    let mid = nn / 2;
    assert(2 * nn == n * (n - 1));
    assert(n * (n - 1) >= 4 * n - 2 && n * (n - 1) >= (n - 2) * (n + 1)
        && (n - 2) * (n + 1) >= 4 * (n - 1)) by (nonlinear_arith)
        requires n >= 5;
    assert(2 * mid <= nn && 2 * mid >= nn - 1);
    assert(mid >= n - 1);
    assert(nn - mid > n - 1);
    lemma_thiel_sen_median_in_class(s, d, n - 1);
}

} // verus!
