//! Tempo estimators over a session's offset sequence.
//!
//! Each estimator consumes the non-decreasing millisecond offsets of a tap
//! session and produces a beats-per-minute value as an exact integer ratio,
//! or `InsufficientData` when fewer than two taps are available. A ratio with
//! a zero denominator stands for the non-finite outcomes (all taps at the
//! same instant); converting `num / den` to floating point yields the
//! infinity or NaN that a caller is expected to display specially.

use vstd::prelude::*;
use crate::slopes::{
    slope_seq, sort_spec, index_pairs, sort_slopes, lemma_pair_seq_bounds, lemma_pair_seq_len,
    lemma_slope_seq_props, lemma_sort_spec_props,
};

verus! {

/// The most taps one estimate accepts; far beyond any human session, and
/// small enough that every accumulated sum fits its machine integer.
pub const MAX_TAPS: usize = 65536;

/// The largest accepted offset: `u32::MAX` milliseconds, over 49 days of
/// tapping, and small enough that every accumulated sum fits its machine
/// integer.
pub const MAX_OFFSET_MS: u64 = 4294967295;

/// The one recoverable failure of the estimators: fewer than two taps.
#[derive(Debug, Clone, Copy, PartialEq, Eq, Structural)]
pub enum BpmCalculationError {
    InsufficientData,
}

/// A beats-per-minute value as the exact ratio `num / den`.
///
/// `den == 0` encodes the non-finite outcomes: a session whose taps all
/// carry the same offset has zero elapsed time, and dividing by it must
/// propagate the runtime's infinity or NaN rather than raise an error.
#[derive(Debug, Clone, Copy, PartialEq, Eq, Structural)]
pub struct BpmRatio {
    /// Numerator, in beats times milliseconds-per-minute.
    pub num: i128,
    /// Denominator: elapsed milliseconds (direct count), or the scaled
    /// variance (regression), or the median pair's millisecond gap.
    pub den: i128,
}

/// The offsets a session hands to an estimator never decrease.
pub open spec fn non_decreasing(s: Seq<u64>) -> bool {
    forall|i: int, j: int| 0 <= i <= j < s.len() ==> s[i] <= s[j]
}

/// What `direct_count` returns: one beat per interval between the first and
/// the last tap, so `(len - 1) * 60000 / (last - first)` BPM.
pub open spec fn spec_direct_count(s: Seq<u64>) -> Result<BpmRatio, BpmCalculationError> {
    if s.len() < 2 {
        Err(BpmCalculationError::InsufficientData)
    } else {
        Ok(BpmRatio {
            num: (60000 * (s.len() - 1)) as i128,
            den: (s.last() - s.first()) as i128,
        })
    }
}

/// Counts one beat per interval: the elapsed time between the first and the
/// last tap covers `len - 1` beats.
///
/// Simplest estimator; exact on perfectly regular taps, but sensitive to
/// jitter on the two endpoint taps.
pub fn direct_count(offsets: &Vec<u64>) -> (r: Result<BpmRatio, BpmCalculationError>)
    requires
        non_decreasing(offsets@),
    ensures
        r == spec_direct_count(offsets@),
{
    if offsets.len() < 2 {
        return Err(BpmCalculationError::InsufficientData);
    }
    let start = offsets[0];
    let end = offsets[offsets.len() - 1];
    let delta = end - start;
    let count = (offsets.len() - 1) as i128;
    Ok(BpmRatio { num: 60000 * count, den: delta as i128 })
}

/// Sum of the offsets.
pub open spec fn sum_x(s: Seq<u64>) -> int
    decreases s.len(),
{
    if s.len() == 0 {
        0
    } else {
        sum_x(s.drop_last()) + s.last()
    }
}

/// Sum of the squared offsets.
pub open spec fn sum_xx(s: Seq<u64>) -> int
    decreases s.len(),
{
    if s.len() == 0 {
        0
    } else {
        sum_xx(s.drop_last()) + s.last() * s.last()
    }
}

/// Sum of each offset weighted by its index.
pub open spec fn sum_ix(s: Seq<u64>) -> int
    decreases s.len(),
{
    if s.len() == 0 {
        0
    } else {
        sum_ix(s.drop_last()) + (s.len() - 1) * s.last()
    }
}

/// What `simple_regression` returns: `60000` times the least-squares slope of
/// beat index over offset, `Cov(x, i) / Var(x)`, with numerator and
/// denominator scaled by the same `2 n` so that both are integers:
/// `num = 60000 (2 n sum_ix - n (n-1) sum_x)` and
/// `den = 2 (n sum_xx - sum_x^2)`.
pub open spec fn spec_simple_regression(s: Seq<u64>) -> Result<BpmRatio, BpmCalculationError> {
    if s.len() < 2 {
        Err(BpmCalculationError::InsufficientData)
    } else {
        let n = s.len() as int;
        Ok(BpmRatio {
            num: (60000 * (2 * n * sum_ix(s) - n * (n - 1) * sum_x(s))) as i128,
            den: (2 * (n * sum_xx(s) - sum_x(s) * sum_x(s))) as i128,
        })
    }
}

/// Every accumulated sum is bounded by the length and the largest offset.
pub proof fn lemma_sum_bounds(s: Seq<u64>, m: u64)
    requires
        forall|i: int| 0 <= i < s.len() ==> s[i] <= m,
    ensures
        0 <= sum_x(s) <= s.len() * m,
        0 <= sum_xx(s) <= s.len() * (m * m),
        0 <= sum_ix(s) <= s.len() * s.len() * m,
    decreases s.len(),
{
    if s.len() > 0 {
        let d = s.drop_last();
        let l = s.len() as int;
        assert(forall|i: int| 0 <= i < d.len() ==> d[i] <= m);
        lemma_sum_bounds(d, m);
        assert(s.last() <= m);
        assert((l - 1) * m + m == l * m) by (nonlinear_arith);
        assert(s.last() * s.last() <= m * m) by (nonlinear_arith)
            requires 0 <= s.last() <= m;
        assert((l - 1) * (m * m) + m * m == l * (m * m)) by (nonlinear_arith);
        assert((l - 1) * s.last() <= (l - 1) * m) by (nonlinear_arith)
            requires 0 <= s.last() <= m, l >= 1;
        assert(0 <= (l - 1) * s.last()) by (nonlinear_arith)
            requires 0 <= s.last(), l >= 1;
        assert((l - 1) * (l - 1) * m + (l - 1) * m <= l * l * m) by (nonlinear_arith)
            requires l >= 1, m >= 0;
    }
}

/// Fits the model "offset grows linearly with beat index" by least squares
/// and reports `60000` times the fitted beats-per-millisecond slope.
///
/// The sums are accumulated in 128-bit integers, exactly; the bounds on the
/// input keep every product representable. Uses all taps, so endpoint jitter
/// matters less than for `direct_count`, but a single outlier still shifts
/// the fit.
#[verifier::loop_isolation(false)]
pub fn simple_regression(offsets: &Vec<u64>) -> (r: Result<BpmRatio, BpmCalculationError>)
    requires
        non_decreasing(offsets@),
        offsets@.len() <= MAX_TAPS,
        forall|i: int| 0 <= i < offsets@.len() ==> offsets@[i] <= MAX_OFFSET_MS,
    ensures
        r == spec_simple_regression(offsets@),
{
    if offsets.len() < 2 {
        return Err(BpmCalculationError::InsufficientData);
    }
    let len = offsets.len();
    let mut s_x: u128 = 0;
    let mut s_xx: u128 = 0;
    let mut s_ix: u128 = 0;
    let mut k: usize = 0;
    while k < len
        invariant
            k <= len,
            s_x == sum_x(offsets@.take(k as int)),
            s_xx == sum_xx(offsets@.take(k as int)),
            s_ix == sum_ix(offsets@.take(k as int)),
        decreases len - k,
    {
        let x = offsets[k] as u128;
        proof {
            let t = offsets@.take(k as int + 1);
            assert(forall|i: int| 0 <= i < t.len() ==> t[i] <= MAX_OFFSET_MS);
            lemma_sum_bounds(t, MAX_OFFSET_MS);
            assert(t.drop_last() =~= offsets@.take(k as int));
            assert(t.last() == offsets@[k as int]);
            assert((k as int) * (offsets@[k as int] as int) <= 0x10000 * 0xFFFFFFFFu64)
                by (nonlinear_arith)
                requires
                    0 <= k as int <= 0x10000,
                    0 <= offsets@[k as int] <= 0xFFFFFFFFu64;
            assert(sum_x(t) <= 0x10000 * 0xFFFFFFFFu64) by (nonlinear_arith)
                requires
                    sum_x(t) <= t.len() * (0xFFFFFFFFu64 as int),
                    t.len() <= 0x10000;
            assert(sum_xx(t) <= 0x10000 * (0xFFFFFFFFu64 * 0xFFFFFFFFu64)) by (nonlinear_arith)
                requires
                    sum_xx(t) <= t.len() * ((0xFFFFFFFFu64 as int) * (0xFFFFFFFFu64 as int)),
                    t.len() <= 0x10000;
            assert(sum_ix(t) <= 0x10000 * 0x10000 * 0xFFFFFFFFu64) by (nonlinear_arith)
                requires
                    sum_ix(t) <= t.len() * t.len() * (0xFFFFFFFFu64 as int),
                    t.len() <= 0x10000;
            assert(sum_x(t) == s_x + offsets@[k as int]);
            assert(sum_xx(t) == s_xx + offsets@[k as int] * offsets@[k as int]);
            assert(sum_ix(t) == s_ix + (k as int) * offsets@[k as int]);
            assert(offsets@[k as int] * offsets@[k as int]
                <= 0xFFFFFFFFu64 * 0xFFFFFFFFu64) by (nonlinear_arith)
                requires 0 <= offsets@[k as int] <= 0xFFFFFFFFu64;
        }
        s_x = s_x + x;
        s_xx = s_xx + x * x;
        s_ix = s_ix + (k as u128) * x;
        k += 1;
    }
    proof {
        assert(offsets@.take(len as int) =~= offsets@);
        lemma_sum_bounds(offsets@, MAX_OFFSET_MS);
        assert((len as int) * (len as int) * (MAX_OFFSET_MS as int)
            <= 0x10000 * 0x10000 * 0xFFFFFFFFu64) by (nonlinear_arith)
            requires 0 <= len as int <= 0x10000;
        assert((len as int) * (MAX_OFFSET_MS as int) <= 0x10000 * 0xFFFFFFFFu64)
            by (nonlinear_arith)
            requires 0 <= len as int <= 0x10000;
        assert((len as int) * ((MAX_OFFSET_MS as int) * (MAX_OFFSET_MS as int))
            <= 0x10000 * (0xFFFFFFFFu64 * 0xFFFFFFFFu64)) by (nonlinear_arith)
            requires 0 <= len as int <= 0x10000;
    }
    let n = len as i128;
    let sx = s_x as i128;
    let sxx = s_xx as i128;
    let six = s_ix as i128;
    proof {
        assert(2 * n * six <= 0x20000 * (0x10000 * 0x10000 * 0xFFFFFFFFi128)
            && 2 * n * six >= 0) by (nonlinear_arith)
            requires
                0 <= n <= 0x10000,
                0 <= six <= 0x10000 * 0x10000 * 0xFFFFFFFFi128;
        assert(0 <= n * (n - 1) <= 0x10000 * 0x10000) by (nonlinear_arith)
            requires 2 <= n <= 0x10000;
        assert(n * (n - 1) * sx <= 0x10000 * 0x10000 * (0x10000 * 0xFFFFFFFFi128)
            && n * (n - 1) * sx >= 0) by (nonlinear_arith)
            requires
                2 <= n <= 0x10000,
                0 <= sx <= 0x10000 * 0xFFFFFFFFi128;
        assert(n * sxx <= 0x10000 * (0x10000 * (0xFFFFFFFFi128 * 0xFFFFFFFFi128))
            && n * sxx >= 0) by (nonlinear_arith)
            requires
                0 <= n <= 0x10000,
                0 <= sxx <= 0x10000 * (0xFFFFFFFFi128 * 0xFFFFFFFFi128);
        assert(sx * sx <= (0x10000 * 0xFFFFFFFFi128) * (0x10000 * 0xFFFFFFFFi128)
            && sx * sx >= 0) by (nonlinear_arith)
            requires 0 <= sx <= 0x10000 * 0xFFFFFFFFi128;
    }
    let num = 60000 * (2 * n * six - n * (n - 1) * sx);
    let den = 2 * (n * sxx - sx * sx);
    Ok(BpmRatio { num, den })
}

/// What `thiel_sen` returns: `60000` times the median pairwise slope. The
/// median of an even number of slopes is, by convention, the single element
/// at index `count / 2` of the sorted sequence — the upper of the two
/// central elements, never their average.
pub open spec fn spec_thiel_sen(s: Seq<u64>) -> Result<BpmRatio, BpmCalculationError> {
    if s.len() < 2 {
        Err(BpmCalculationError::InsufficientData)
    } else {
        let sl = slope_seq(s);
        let st = sort_spec(sl);
        let m = st[sl.len() as int / 2];
        Ok(BpmRatio { num: (60000 * m.0) as i128, den: m.1 as i128 })
    }
}

/// The median of the slopes between every pair of taps, robust to outliers:
/// a bounded number of perturbed taps moves a bounded number of pairwise
/// slopes, and the median ignores them.
///
/// A pair of equal offsets contributes an infinite slope (`dx == 0`), which
/// participates in the median like any other value; if it is selected, the
/// returned ratio has a zero denominator.
#[verifier::loop_isolation(false)]
pub fn thiel_sen(offsets: &Vec<u64>) -> (r: Result<BpmRatio, BpmCalculationError>)
    requires
        non_decreasing(offsets@),
    ensures
        r == spec_thiel_sen(offsets@),
{
    if offsets.len() < 2 {
        return Err(BpmCalculationError::InsufficientData);
    }
    let n = offsets.len();
    proof {
        lemma_pair_seq_bounds(n as int);
        lemma_pair_seq_len(n as int);
        lemma_slope_seq_props(offsets@);
    }
    let pairs = index_pairs(n);
    let mut slopes: Vec<(u64, u64)> = Vec::new();
    let mut k: usize = 0;
    while k < pairs.len()
        invariant
            k <= pairs@.len(),
            slopes@ == slope_seq(offsets@).take(k as int),
        decreases pairs.len() - k,
    {
        let pr = pairs[k];
        let i = pr.0;
        let j = pr.1;
        let dy = (j - i) as u64;
        let dx = offsets[j] - offsets[i];
        slopes.push((dy, dx));
        proof {
            assert(slope_seq(offsets@).take(k as int + 1)
                =~= slope_seq(offsets@).take(k as int).push(slope_seq(offsets@)[k as int]));
        }
        k += 1;
    }
    proof {
        assert(slope_seq(offsets@).take(slope_seq(offsets@).len() as int) =~= slope_seq(offsets@));
        lemma_sort_spec_props(slope_seq(offsets@));
    }
    let sorted_slopes = sort_slopes(&slopes);
    let mid = slopes.len() / 2;
    let m = sorted_slopes[mid];
    Ok(BpmRatio { num: 60000 * (m.0 as i128), den: m.1 as i128 })
}

} // verus!
