//! General laws of the fit, proved once for every data set.

use vstd::prelude::*;

use crate::sums::{cross_dev_sum, pair_vals, regression, sq_dev_sum, sum_x, sum_y, zip_vals};

verus! {

/// A sum of squared deviations is never negative.
proof fn lemma_sq_dev_nonneg(p: Seq<(int, int)>, a: int, d: int)
    ensures
        0 <= sq_dev_sum(p, a, d),
    decreases p.len(),
{
    if p.len() > 0 {
        lemma_sq_dev_nonneg(p.drop_last(), a, d);
        assert((p.last().0 * d - a) * (p.last().0 * d - a) >= 0) by (nonlinear_arith);
    }
}

/// A zero sum of squared deviations means every scaled x-value equals the
/// offset: the x-axis has no variance.
proof fn lemma_sq_dev_zero(p: Seq<(int, int)>, a: int, d: int)
    requires
        sq_dev_sum(p, a, d) == 0,
    ensures
        forall|i: int| 0 <= i < p.len() ==> (#[trigger] p[i]).0 * d == a,
    decreases p.len(),
{
    if p.len() > 0 {
        lemma_sq_dev_nonneg(p.drop_last(), a, d);
        assert((p.last().0 * d - a) * (p.last().0 * d - a) >= 0) by (nonlinear_arith);
        assert(p.last().0 * d == a) by (nonlinear_arith)
            requires
                (p.last().0 * d - a) * (p.last().0 * d - a) == 0;
        lemma_sq_dev_zero(p.drop_last(), a, d);
        assert forall|i: int| 0 <= i < p.len() implies (#[trigger] p[i]).0 * d == a by {
            if i < p.len() - 1 {
                assert(p.drop_last()[i] == p[i]);
            } else {
                assert(p[i] == p.last());
            }
        }
    }
}

/// When every scaled x-value equals the offset, the sum of squared
/// deviations vanishes.
proof fn lemma_sq_dev_const(p: Seq<(int, int)>, a: int, d: int)
    requires
        forall|i: int| 0 <= i < p.len() ==> (#[trigger] p[i]).0 * d == a,
    ensures
        sq_dev_sum(p, a, d) == 0,
    decreases p.len(),
{
    if p.len() > 0 {
        assert forall|i: int| 0 <= i < p.drop_last().len()
            implies (#[trigger] p.drop_last()[i]).0 * d == a by {
            assert(p.drop_last()[i] == p[i]);
        }
        lemma_sq_dev_const(p.drop_last(), a, d);
        assert(p[p.len() - 1].0 * d == a);
        assert((p.last().0 * d - a) * (p.last().0 * d - a) == 0) by (nonlinear_arith)
            requires
                p.last().0 * d == a;
    }
}

/// The x-sum of a data set with constant x-values is `len * x`.
proof fn lemma_sum_x_const(p: Seq<(int, int)>, c: int)
    requires
        forall|i: int| 0 <= i < p.len() ==> (#[trigger] p[i]).0 == c,
    ensures
        sum_x(p) == p.len() as int * c,
    decreases p.len(),
{
    if p.len() > 0 {
        assert forall|i: int| 0 <= i < p.drop_last().len()
            implies (#[trigger] p.drop_last()[i]).0 == c by {
            assert(p.drop_last()[i] == p[i]);
        }
        lemma_sum_x_const(p.drop_last(), c);
        let l = p.len() as int;
        assert(p[l - 1].0 == c);
        assert((l - 1) * c + c == l * c) by (nonlinear_arith);
    }
}

/// A data set whose x-values are all identical — a single point included —
/// has no fit: a zero-variance x-axis leaves the slope undefined.
pub proof fn lemma_constant_x_no_fit(p: Seq<(int, int)>)
    requires
        forall|i: int| 0 <= i < p.len() ==> (#[trigger] p[i]).0 == p[0].0,
    ensures
        regression(p) is None,
{
    if p.len() > 0 {
        let n = p.len() as int;
        let c = p[0].0;
        lemma_sum_x_const(p, c);
        assert forall|i: int| 0 <= i < p.len() implies (#[trigger] p[i]).0 * n == sum_x(p) by {
            assert(p[i].0 == c);
            assert(c * n == n * c) by (nonlinear_arith);
        }
        lemma_sq_dev_const(p, sum_x(p), n);
    }
}

/// Summing the line equation `d * y == mn * x + cn` over a data set.
proof fn lemma_line_sum(p: Seq<(int, int)>, mn: int, cn: int, d: int)
    requires
        forall|i: int| 0 <= i < p.len() ==> d * (#[trigger] p[i]).1 == mn * p[i].0 + cn,
    ensures
        d * sum_y(p) == mn * sum_x(p) + cn * p.len(),
    decreases p.len(),
{
    if p.len() > 0 {
        assert forall|i: int| 0 <= i < p.drop_last().len()
            implies d * (#[trigger] p.drop_last()[i]).1 == mn * p.drop_last()[i].0 + cn by {
            assert(p.drop_last()[i] == p[i]);
        }
        lemma_line_sum(p.drop_last(), mn, cn, d);
        let l = p.len() as int;
        let x = p.last().0;
        let y = p.last().1;
        let sx0 = sum_x(p.drop_last());
        let sy0 = sum_y(p.drop_last());
        assert(d * p[l - 1].1 == mn * p[l - 1].0 + cn);
        assert(d * (sy0 + y) == mn * (sx0 + x) + cn * l) by (nonlinear_arith)
            requires
                d * sy0 == mn * sx0 + cn * (l - 1),
                d * y == mn * x + cn;
    }
}

/// On a data set lying on the line `d * y == mn * x + cn`, the crossed
/// deviation sum is the squared deviation sum scaled by the slope:
/// `d * crossed == mn * squared`.
proof fn lemma_line_cross_sq(p: Seq<(int, int)>, a: int, scale: int, b: int, mn: int, cn: int,
    d: int)
    requires
        forall|i: int| 0 <= i < p.len() ==> d * (#[trigger] p[i]).1 == mn * p[i].0 + cn,
        d * b == mn * a + cn * scale,
    ensures
        d * cross_dev_sum(p, a, scale, b, scale) == mn * sq_dev_sum(p, a, scale),
    decreases p.len(),
{
    if p.len() > 0 {
        assert forall|i: int| 0 <= i < p.drop_last().len()
            implies d * (#[trigger] p.drop_last()[i]).1 == mn * p.drop_last()[i].0 + cn by {
            assert(p.drop_last()[i] == p[i]);
        }
        lemma_line_cross_sq(p.drop_last(), a, scale, b, mn, cn, d);
        let l = p.len() as int;
        let x = p.last().0;
        let y = p.last().1;
        let u0 = cross_dev_sum(p.drop_last(), a, scale, b, scale);
        let v0 = sq_dev_sum(p.drop_last(), a, scale);
        assert(d * p[l - 1].1 == mn * p[l - 1].0 + cn);
        assert(d * (y * scale - b) == mn * (x * scale - a)) by (nonlinear_arith)
            requires
                d * y == mn * x + cn,
                d * b == mn * a + cn * scale;
        assert(d * ((x * scale - a) * (y * scale - b))
            == mn * ((x * scale - a) * (x * scale - a))) by (nonlinear_arith)
            requires
                d * (y * scale - b) == mn * (x * scale - a);
        assert(d * (u0 + (x * scale - a) * (y * scale - b))
            == mn * (v0 + (x * scale - a) * (x * scale - a))) by (nonlinear_arith)
            requires
                d * u0 == mn * v0,
                d * ((x * scale - a) * (y * scale - b))
                    == mn * ((x * scale - a) * (x * scale - a));
    }
}

/// Fitting data that lies exactly on the line `y == (mn * x + cn) / d`
/// recovers that line: the fit exists (provided the x-values are not all
/// equal) and its slope and intercept equal `mn / d` and `cn / d` as
/// rational numbers.
pub proof fn lemma_exact_line_fit(p: Seq<(int, int)>, mn: int, cn: int, d: int)
    requires
        d > 0,
        p.len() > 0,
        forall|i: int| 0 <= i < p.len() ==> d * (#[trigger] p[i]).1 == mn * p[i].0 + cn,
        exists|i: int, j: int| 0 <= i < p.len() && 0 <= j < p.len() && p[i].0 != p[j].0,
    ensures
        ({
            regression(p) matches Some(((sn, sd), (icn, icd)))
            && sd > 0
            && icd == sd
            && sn * d == mn * sd
            && icn * d == cn * sd
        }),
{
    let n = p.len() as int;
    let sx = sum_x(p);
    let sy = sum_y(p);
    let v = sq_dev_sum(p, sx, n);
    let u = cross_dev_sum(p, sx, n, sy, n);
    lemma_sq_dev_nonneg(p, sx, n);
    if v == 0 {
        lemma_sq_dev_zero(p, sx, n);
        let (i, j) = choose|i: int, j: int| 0 <= i < p.len() && 0 <= j < p.len()
            && p[i].0 != p[j].0;
        assert(p[i].0 * n == sx);
        assert(p[j].0 * n == sx);
        assert(p[i].0 == p[j].0) by (nonlinear_arith)
            requires
                p[i].0 * n == p[j].0 * n,
                n > 0;
        assert(false);
    }
    lemma_line_sum(p, mn, cn, d);
    lemma_line_cross_sq(p, sx, n, sy, mn, cn, d);
    assert(n * v > 0) by (nonlinear_arith)
        requires
            n > 0,
            v > 0;
    assert((n * u) * d == mn * (n * v)) by (nonlinear_arith)
        requires
            d * u == mn * v;
    assert((sy * v - sx * u) * d == cn * (n * v)) by (nonlinear_arith)
        requires
            d * u == mn * v,
            d * sy == mn * sx + cn * n;
}

/// Round trip: regenerate the y-values from a fitted line and refit, and
/// the second fit yields the same slope and intercept as the first. `q`
/// has the x-values of `p`, with each y-value lying exactly on the line
/// fitted to `p`.
pub proof fn lemma_round_trip(p: Seq<(int, int)>, q: Seq<(int, int)>, sn: int, sd: int, icn: int)
    requires
        regression(p) == Some(((sn, sd), (icn, sd))),
        q.len() == p.len(),
        forall|i: int| 0 <= i < q.len() ==> (#[trigger] q[i]).0 == p[i].0,
        forall|i: int| 0 <= i < q.len() ==> sd * (#[trigger] q[i]).1 == sn * q[i].0 + icn,
    ensures
        ({
            regression(q) matches Some(((sn2, sd2), (icn2, icd2)))
            && sn2 * sd == sn * sd2
            && icn2 * sd == icn * icd2
        }),
{
    let n = p.len() as int;
    let sx = sum_x(p);
    let v = sq_dev_sum(p, sx, n);
    lemma_sq_dev_nonneg(p, sx, n);
    assert(sd == n * v);
    assert(sd > 0) by (nonlinear_arith)
        requires
            n > 0,
            v > 0,
            sd == n * v;
    if forall|i: int| 0 <= i < q.len() ==> (#[trigger] q[i]).0 == q[0].0 {
        assert forall|i: int| 0 <= i < p.len() implies (#[trigger] p[i]).0 == p[0].0 by {
            assert(q[i].0 == q[0].0);
            assert(q[i].0 == p[i].0);
            assert(q[0].0 == p[0].0);
        }
        lemma_constant_x_no_fit(p);
        assert(false);
    }
    let w = choose|i: int| 0 <= i < q.len() && (#[trigger] q[i]).0 != q[0].0;
    assert(exists|i: int, j: int| 0 <= i < q.len() && 0 <= j < q.len() && q[i].0 != q[j].0);
    lemma_exact_line_fit(q, sn, icn, sd);
}

/// The two call shapes see the same data: a pair sequence that matches two
/// parallel sequences positionally has the same fit.
pub proof fn lemma_forms_agree(xs: Seq<i64>, ys: Seq<i64>, q: Seq<(i64, i64)>)
    requires
        xs.len() == ys.len(),
        q.len() == xs.len(),
        forall|i: int| 0 <= i < q.len() ==> (#[trigger] q[i]).0 == xs[i] && q[i].1 == ys[i],
    ensures
        regression(pair_vals(q)) == regression(zip_vals(xs, ys)),
{
    assert(pair_vals(q) =~= zip_vals(xs, ys));
}

} // verus!
