//! The mathematical model of a fit.
//!
//! A data set is a `Seq<(int, int)>` of `(x, y)` points. To keep every
//! quantity an integer, deviations from the mean are scaled by the sample
//! count `n`: for a point `(x, y)` and x-sum `sx`, the scaled deviation is
//! `x * n - sx`, which is `n` times `x - mean(x)`. The sums of squared and
//! of crossed scaled deviations determine the fitted line, and the common
//! scale factors cancel in the final ratios.

use vstd::prelude::*;

verus! {

/// Sum of the x components of a data set.
pub open spec fn sum_x(p: Seq<(int, int)>) -> int
    decreases p.len(),
{
    if p.len() == 0 {
        0
    } else {
        sum_x(p.drop_last()) + p.last().0
    }
}

/// Sum of the y components of a data set.
pub open spec fn sum_y(p: Seq<(int, int)>) -> int
    decreases p.len(),
{
    if p.len() == 0 {
        0
    } else {
        sum_y(p.drop_last()) + p.last().1
    }
}

/// Sum of squared scaled x-deviations: `sum_i (x_i * d - a)^2`.
///
/// With `a` the x-sum and `d` the sample count this is `n^2` times the
/// variance sum `sum_i (x_i - mean(x))^2`.
pub open spec fn sq_dev_sum(p: Seq<(int, int)>, a: int, d: int) -> int
    decreases p.len(),
{
    if p.len() == 0 {
        0
    } else {
        sq_dev_sum(p.drop_last(), a, d) + (p.last().0 * d - a) * (p.last().0 * d - a)
    }
}

/// Sum of crossed scaled deviations: `sum_i (x_i * d - a) * (y_i * e - b)`.
pub open spec fn cross_dev_sum(p: Seq<(int, int)>, a: int, d: int, b: int, e: int) -> int
    decreases p.len(),
{
    if p.len() == 0 {
        0
    } else {
        cross_dev_sum(p.drop_last(), a, d, b, e) + (p.last().0 * d - a) * (p.last().1 * e - b)
    }
}

/// The least-squares fit of a data set, as two unreduced fractions
/// `((slope_num, slope_den), (intercept_num, intercept_den))`.
///
/// Writing `n` for the count, `sx`/`sy` for the coordinate sums, `v` for
/// the squared-deviation sum and `u` for the crossed-deviation sum, the
/// fitted line is `slope = u / v` and
/// `intercept = mean(y) - slope * mean(x) = (sy * v - sx * u) / (n * v)`;
/// both fractions are given over the common denominator `n * v`.
/// An empty data set, or one whose x-values all equal their mean
/// (`v == 0`), has no fit.
pub open spec fn regression(p: Seq<(int, int)>) -> Option<((int, int), (int, int))> {
    let n = p.len() as int;
    let sx = sum_x(p);
    let sy = sum_y(p);
    let v = sq_dev_sum(p, sx, n);
    let u = cross_dev_sum(p, sx, n, sy, n);
    if n == 0 || v == 0 {
        None
    } else {
        Some(((n * u, n * v), (sy * v - sx * u, n * v)))
    }
}

/// The points of a pair sequence, as unbounded integers.
pub open spec fn pair_vals(q: Seq<(i64, i64)>) -> Seq<(int, int)> {
    Seq::new(q.len(), |i: int| (q[i].0 as int, q[i].1 as int))
}

/// Two parallel sequences paired positionally, as unbounded integers.
pub open spec fn zip_vals(xs: Seq<i64>, ys: Seq<i64>) -> Seq<(int, int)> {
    Seq::new(xs.len(), |i: int| (xs[i] as int, ys[i] as int))
}

/// Sum of one sequence of samples, as an unbounded integer.
pub open spec fn sum_vals(s: Seq<i64>) -> int
    decreases s.len(),
{
    if s.len() == 0 {
        0
    } else {
        sum_vals(s.drop_last()) + s.last() as int
    }
}

/// A sequence of samples bounded in magnitude has a sum bounded by
/// `len * bound`.
pub proof fn lemma_sum_vals_bound(s: Seq<i64>, bound: int)
    requires
        0 <= bound,
        forall|i: int| 0 <= i < s.len() ==> -bound <= (#[trigger] s[i]) as int <= bound,
    ensures
        -(s.len() as int) * bound <= sum_vals(s),
        sum_vals(s) <= (s.len() as int) * bound,
    decreases s.len(),
{
    if s.len() > 0 {
        lemma_sum_vals_bound(s.drop_last(), bound);
        let l = s.len() as int;
        assert(s.drop_last().len() as int == l - 1);
        assert(-bound <= s.last() as int <= bound);
        assert((l - 1) * bound + bound == l * bound) by (nonlinear_arith);
        assert((-(l - 1)) * bound - bound == (-l) * bound) by (nonlinear_arith);
    }
}

/// Pairing two parallel sequences positionally leaves each coordinate sum
/// unchanged.
pub proof fn lemma_zip_sums(xs: Seq<i64>, ys: Seq<i64>)
    requires
        xs.len() == ys.len(),
    ensures
        sum_x(zip_vals(xs, ys)) == sum_vals(xs),
        sum_y(zip_vals(xs, ys)) == sum_vals(ys),
    decreases xs.len(),
{
    if xs.len() > 0 {
        assert(zip_vals(xs, ys).drop_last() =~= zip_vals(xs.drop_last(), ys.drop_last()));
        lemma_zip_sums(xs.drop_last(), ys.drop_last());
    }
}

} // verus!
