//! Mean and least-squares fit over integer samples, with exact results.

use vstd::prelude::*;

use crate::laws::lemma_constant_x_no_fit;
use crate::rational::Ratio;
use crate::sums::{cross_dev_sum, lemma_sum_vals_bound, lemma_zip_sums, pair_vals, regression,
    sq_dev_sum, sum_vals, sum_x, sum_y, zip_vals};

verus! {

/// Largest sample count the fit functions accept; keeps every intermediate
/// product of the exact accumulation inside `i128`.
pub const MAX_SAMPLES: usize = 0x8000;

/// Largest coordinate magnitude the fit functions accept; keeps every
/// intermediate product of the exact accumulation inside `i128`.
pub const MAX_COORD: i64 = 0x10_0000;

/// Largest magnitude of a coordinate sum, `MAX_SAMPLES * MAX_COORD`; the
/// numerator of a mean handed to [`lin_reg`] must stay within it.
pub const SUM_LIMIT: i128 = 0x8_0000_0000;

/// Arithmetic mean of a sequence of samples, as an exact ratio
/// `sum / count`, or `None` exactly when the sequence is empty.
pub fn mean(xs: &Vec<i64>) -> (r: Option<Ratio>)
    ensures
        match r {
            None => xs@.len() == 0,
            Some(m) => {
                &&& xs@.len() > 0
                &&& m.wf()
                &&& m.num as int == sum_vals(xs@)
                &&& m.den as int == xs@.len() as int
            },
        },
{
    let n = xs.len();
    if n == 0 {
        return None;
    }
    let mut total: i128 = 0;
    let mut k: usize = 0;
    while k < n
        invariant
            n == xs@.len(),
            k <= n,
            total as int == sum_vals(xs@.take(k as int)),
            -(k as int) * 0x8000_0000_0000_0000 <= total as int,
            total as int <= (k as int) * 0x8000_0000_0000_0000,
        decreases n - k,
    {
        proof {
            assert(xs@.take(k as int + 1).drop_last() =~= xs@.take(k as int));
        }
        total = total + (xs[k] as i128);
        k = k + 1;
    }
    proof {
        assert(xs@.take(n as int) =~= xs@);
    }
    Some(Ratio { num: total, den: n as i128 })
}

/// The regression kernel: fits a line to already-paired samples, given the
/// two precomputed means.
///
/// Accumulates the sums of squared and of crossed deviations from the
/// means in one pass, then derives `slope = crossed / squared` and
/// `intercept = y_mean - slope * x_mean`, both as exact ratios over the
/// common denominator `y_mean.den * squared`. Returns `None` exactly when
/// the squared-deviation sum is zero: an empty input, or one whose
/// x-values all equal `x_mean`, leaves the slope undefined.
pub fn lin_reg(xys: &Vec<(i64, i64)>, x_mean: Ratio, y_mean: Ratio) -> (r: Option<(Ratio, Ratio)>)
    requires
        xys@.len() <= MAX_SAMPLES as int,
        forall|i: int| 0 <= i < xys@.len()
            ==> -MAX_COORD <= (#[trigger] xys@[i]).0 <= MAX_COORD
                && -MAX_COORD <= xys@[i].1 <= MAX_COORD,
        x_mean.wf(),
        y_mean.wf(),
        x_mean.den <= MAX_SAMPLES as i128,
        y_mean.den <= MAX_SAMPLES as i128,
        -SUM_LIMIT <= x_mean.num <= SUM_LIMIT,
        -SUM_LIMIT <= y_mean.num <= SUM_LIMIT,
    ensures
        ({
            let p = pair_vals(xys@);
            let a = x_mean.num as int;
            let d = x_mean.den as int;
            let b = y_mean.num as int;
            let e = y_mean.den as int;
            let v = sq_dev_sum(p, a, d);
            let u = cross_dev_sum(p, a, d, b, e);
            match r {
                None => v == 0,
                Some((s, c)) => {
                    &&& v != 0
                    &&& s.wf()
                    &&& c.wf()
                    &&& s.num as int == d * u
                    &&& s.den as int == e * v
                    &&& c.num as int == b * v - a * u
                    &&& c.den as int == e * v
                },
            }
        }),
{
    let ghost p = pair_vals(xys@);
    let ghost a = x_mean.num as int;
    let ghost d = x_mean.den as int;
    let ghost b = y_mean.num as int;
    let ghost e = y_mean.den as int;

    let n = xys.len();
    // SUM (x - mean(x))^2, scaled by the denominators
    let mut v: i128 = 0;
    // SUM (x - mean(x)) (y - mean(y)), scaled by the denominators
    let mut u: i128 = 0;
    let mut k: usize = 0;
    while k < n
        invariant
            n == xys@.len(),
            n <= MAX_SAMPLES,
            k <= n,
            forall|i: int| 0 <= i < xys@.len()
                ==> -MAX_COORD <= (#[trigger] xys@[i]).0 <= MAX_COORD
                    && -MAX_COORD <= xys@[i].1 <= MAX_COORD,
            x_mean.wf(),
            y_mean.wf(),
            x_mean.den <= MAX_SAMPLES as i128,
            y_mean.den <= MAX_SAMPLES as i128,
            -SUM_LIMIT <= x_mean.num <= SUM_LIMIT,
            -SUM_LIMIT <= y_mean.num <= SUM_LIMIT,
            p == pair_vals(xys@),
            a == x_mean.num as int,
            d == x_mean.den as int,
            b == y_mean.num as int,
            e == y_mean.den as int,
            v as int == sq_dev_sum(p.take(k as int), a, d),
            u as int == cross_dev_sum(p.take(k as int), a, d, b, e),
            0 <= v as int,
            v as int <= (k as int) * 0x100_0000_0000_0000_0000,
            -((k as int) * 0x100_0000_0000_0000_0000) <= u as int,
            u as int <= (k as int) * 0x100_0000_0000_0000_0000,
        decreases n - k,
    {
        let (x, y) = xys[k];
        proof {
            // |x * den| <= MAX_COORD * MAX_SAMPLES == 2^35
            assert(-0x8_0000_0000 <= (x as int) * d && (x as int) * d <= 0x8_0000_0000)
                by (nonlinear_arith)
                requires
                    -0x10_0000 <= x as int <= 0x10_0000,
                    0 < d <= 0x8000;
            assert(-0x8_0000_0000 <= (y as int) * e && (y as int) * e <= 0x8_0000_0000)
                by (nonlinear_arith)
                requires
                    -0x10_0000 <= y as int <= 0x10_0000,
                    0 < e <= 0x8000;
        }
        let dx = (x as i128) * x_mean.den - x_mean.num;
        let dy = (y as i128) * y_mean.den - y_mean.num;
        proof {
            // |dx|, |dy| <= 2^36, so the products stay within 2^72
            assert(0 <= (dx as int) * (dx as int)
                && (dx as int) * (dx as int) <= 0x100_0000_0000_0000_0000)
                by (nonlinear_arith)
                requires
                    -0x10_0000_0000 <= dx as int <= 0x10_0000_0000;
            assert(-0x100_0000_0000_0000_0000 <= (dx as int) * (dy as int)
                && (dx as int) * (dy as int) <= 0x100_0000_0000_0000_0000)
                by (nonlinear_arith)
                requires
                    -0x10_0000_0000 <= dx as int <= 0x10_0000_0000,
                    -0x10_0000_0000 <= dy as int <= 0x10_0000_0000;
            assert(p.take(k as int + 1).drop_last() =~= p.take(k as int));
        }
        v = v + dx * dx;
        u = u + dx * dy;
        k = k + 1;
    }
    proof {
        assert(p.take(n as int) =~= p);
    }
    if v == 0 {
        return None;
    }
    proof {
        // |v|, |u| <= MAX_SAMPLES * 2^72 == 2^87; the final products stay
        // within 2^102 and 2^122, well inside i128.
        assert(-0x40_0000_0000_0000_0000_0000_0000 <= d * (u as int)
            && d * (u as int) <= 0x40_0000_0000_0000_0000_0000_0000)
            by (nonlinear_arith)
            requires
                0 < d <= 0x8000,
                -0x80_0000_0000_0000_0000_0000 <= u as int <= 0x80_0000_0000_0000_0000_0000;
        assert(0 < e * (v as int)
            && e * (v as int) <= 0x40_0000_0000_0000_0000_0000_0000)
            by (nonlinear_arith)
            requires
                0 < e <= 0x8000,
                0 < v as int <= 0x80_0000_0000_0000_0000_0000;
        assert(-0x400_0000_0000_0000_0000_0000_0000_0000 <= b * (v as int)
            && b * (v as int) <= 0x400_0000_0000_0000_0000_0000_0000_0000)
            by (nonlinear_arith)
            requires
                -0x8_0000_0000 <= b <= 0x8_0000_0000,
                0 <= v as int <= 0x80_0000_0000_0000_0000_0000;
        assert(-0x400_0000_0000_0000_0000_0000_0000_0000 <= a * (u as int)
            && a * (u as int) <= 0x400_0000_0000_0000_0000_0000_0000_0000)
            by (nonlinear_arith)
            requires
                -0x8_0000_0000 <= a <= 0x8_0000_0000,
                -0x80_0000_0000_0000_0000_0000 <= u as int <= 0x80_0000_0000_0000_0000_0000;
    }
    let slope = Ratio { num: x_mean.den * u, den: y_mean.den * v };
    let intercept = Ratio { num: y_mean.num * v - x_mean.num * u, den: y_mean.den * v };
    Some((slope, intercept))
}

/// Linear regression from two parallel sequences, one of x- and one of
/// y-values, paired positionally.
///
/// Computes both means with [`mean`], pairs the sequences, and invokes the
/// kernel [`lin_reg`]. Returns `None` exactly when the sequences differ in
/// length, are empty, or have a zero-variance x-axis; otherwise returns
/// the exact `(slope, intercept)` of the least-squares line, as given by
/// [`regression`].
pub fn linear_regression(xs: &Vec<i64>, ys: &Vec<i64>) -> (r: Option<(Ratio, Ratio)>)
    requires
        xs@.len() <= MAX_SAMPLES as int,
        ys@.len() <= MAX_SAMPLES as int,
        forall|i: int| 0 <= i < xs@.len() ==> -MAX_COORD <= #[trigger] xs@[i] <= MAX_COORD,
        forall|i: int| 0 <= i < ys@.len() ==> -MAX_COORD <= #[trigger] ys@[i] <= MAX_COORD,
    ensures
        xs@.len() != ys@.len() ==> r is None,
        xs@.len() == 0 || ys@.len() == 0 ==> r is None,
        (forall|i: int| 0 <= i < xs@.len() ==> #[trigger] xs@[i] == xs@[0]) ==> r is None,
        xs@.len() == ys@.len() ==> match r {
            None => regression(zip_vals(xs@, ys@)) is None,
            Some((s, c)) => {
                &&& s.wf()
                &&& c.wf()
                &&& regression(zip_vals(xs@, ys@))
                    == Some(((s.num as int, s.den as int), (c.num as int, c.den as int)))
            },
        },
{
    if xs.len() != ys.len() {
        return None;
    }
    // if one of the axes is empty, we return `None`
    let x_mean = match mean(xs) {
        Some(m) => m,
        None => {
            return None;
        },
    };
    let y_mean = match mean(ys) {
        Some(m) => m,
        None => {
            return None;
        },
    };
    let n = xs.len();
    let mut pairs: Vec<(i64, i64)> = Vec::new();
    let mut k: usize = 0;
    while k < n
        invariant
            n == xs@.len(),
            n == ys@.len(),
            k <= n,
            pairs@.len() == k as int,
            forall|j: int| 0 <= j < k as int ==> #[trigger] pairs@[j] == (xs@[j], ys@[j]),
        decreases n - k,
    {
        pairs.push((xs[k], ys[k]));
        k = k + 1;
    }
    proof {
        assert(pair_vals(pairs@) =~= zip_vals(xs@, ys@));
        lemma_zip_sums(xs@, ys@);
        lemma_sum_vals_bound(xs@, MAX_COORD as int);
        lemma_sum_vals_bound(ys@, MAX_COORD as int);
        if forall|i: int| 0 <= i < xs@.len() ==> #[trigger] xs@[i] == xs@[0] {
            let zp = zip_vals(xs@, ys@);
            assert forall|i: int| 0 <= i < zp.len() implies (#[trigger] zp[i]).0 == zp[0].0 by {
                assert(xs@[i] == xs@[0]);
            }
            lemma_constant_x_no_fit(zp);
        }
    }
    lin_reg(&pairs, x_mean, y_mean)
}

/// Linear regression from a single sequence of `(x, y)` pairs.
///
/// Computes both coordinate sums in one fused pass over the pairs (rather
/// than one pass per coordinate, which would walk the memory twice),
/// divides by the count to get the means, and invokes the kernel
/// [`lin_reg`]. Returns `None` exactly when the input is empty or has a
/// zero-variance x-axis; otherwise returns the exact `(slope, intercept)`
/// of the least-squares line, as given by [`regression`].
pub fn linear_regression_of(xys: &Vec<(i64, i64)>) -> (r: Option<(Ratio, Ratio)>)
    requires
        xys@.len() <= MAX_SAMPLES as int,
        forall|i: int| 0 <= i < xys@.len()
            ==> -MAX_COORD <= (#[trigger] xys@[i]).0 <= MAX_COORD
                && -MAX_COORD <= xys@[i].1 <= MAX_COORD,
    ensures
        xys@.len() == 0 ==> r is None,
        (forall|i: int| 0 <= i < xys@.len() ==> (#[trigger] xys@[i]).0 == xys@[0].0)
            ==> r is None,
        match r {
            None => regression(pair_vals(xys@)) is None,
            Some((s, c)) => {
                &&& s.wf()
                &&& c.wf()
                &&& regression(pair_vals(xys@))
                    == Some(((s.num as int, s.den as int), (c.num as int, c.den as int)))
            },
        },
{
    let n = xys.len();
    if n == 0 {
        return None;
    }
    let ghost p = pair_vals(xys@);
    let mut sx: i128 = 0;
    let mut sy: i128 = 0;
    let mut k: usize = 0;
    while k < n
        invariant
            n == xys@.len(),
            n <= MAX_SAMPLES,
            k <= n,
            forall|i: int| 0 <= i < xys@.len()
                ==> -MAX_COORD <= (#[trigger] xys@[i]).0 <= MAX_COORD
                    && -MAX_COORD <= xys@[i].1 <= MAX_COORD,
            p == pair_vals(xys@),
            sx as int == sum_x(p.take(k as int)),
            sy as int == sum_y(p.take(k as int)),
            -(k as int) * (MAX_COORD as int) <= sx as int,
            sx as int <= (k as int) * (MAX_COORD as int),
            -(k as int) * (MAX_COORD as int) <= sy as int,
            sy as int <= (k as int) * (MAX_COORD as int),
        decreases n - k,
    {
        proof {
            assert(p.take(k as int + 1).drop_last() =~= p.take(k as int));
        }
        let (x, y) = xys[k];
        sx = sx + (x as i128);
        sy = sy + (y as i128);
        k = k + 1;
    }
    proof {
        assert(p.take(n as int) =~= p);
        if forall|i: int| 0 <= i < xys@.len() ==> (#[trigger] xys@[i]).0 == xys@[0].0 {
            assert forall|i: int| 0 <= i < p.len() implies (#[trigger] p[i]).0 == p[0].0 by {
                assert(xys@[i].0 == xys@[0].0);
            }
            lemma_constant_x_no_fit(p);
        }
    }
    let x_mean = Ratio { num: sx, den: n as i128 };
    let y_mean = Ratio { num: sy, den: n as i128 };
    lin_reg(xys, x_mean, y_mean)
}

} // verus!
