//! Exact ordinary least-squares linear regression.
//!
//! Fits a line `y = slope * x + intercept` to paired integer samples,
//! accepting the data either as two parallel sequences or as one sequence
//! of pairs. All arithmetic is exact: results are rational numbers, and a
//! degenerate input (empty data, mismatched lengths, or a zero-variance
//! x-axis) yields `None` instead of a fitted line.

mod laws;
mod rational;
mod regress;
mod sums;

pub use laws::{lemma_constant_x_no_fit, lemma_exact_line_fit, lemma_forms_agree,
    lemma_round_trip};
pub use rational::Ratio;
pub use regress::{lin_reg, linear_regression, linear_regression_of, mean, MAX_COORD, MAX_SAMPLES,
    SUM_LIMIT};
pub use sums::{cross_dev_sum, pair_vals, regression, sq_dev_sum, sum_vals, sum_x, sum_y, zip_vals};
