use linreg::{linear_regression, linear_regression_of, mean, Ratio, MAX_COORD};

fn ratio_as_f64(r: Ratio) -> f64 {
    r.num as f64 / r.den as f64
}

fn same_value(a: Ratio, b: Ratio) -> bool {
    a.num * b.den == b.num * a.den
}

#[test]
fn test_example_regression() {
    let xs: Vec<i64> = vec![1, 2, 3, 4, 5];
    let ys: Vec<i64> = vec![2, 4, 5, 4, 5];

    let (slope, intercept) = linear_regression(&xs, &ys).unwrap();
    assert_eq!(ratio_as_f64(slope), 0.6);
    assert_eq!(ratio_as_f64(intercept), 2.2);
}

#[test]
fn test_example_regression_of() {
    let tuples: Vec<(i64, i64)> = vec![(1, 2), (2, 4), (3, 5), (4, 4), (5, 5)];

    let (slope, intercept) = linear_regression_of(&tuples).unwrap();
    assert_eq!(ratio_as_f64(slope), 0.6);
    assert_eq!(ratio_as_f64(intercept), 2.2);
}

#[test]
fn test_integer_regression() {
    let xs: Vec<i64> = vec![1, 2, 3, 4, 5];
    let ys: Vec<i64> = vec![2, 4, 5, 4, 5];

    let (slope, intercept) = linear_regression(&xs, &ys).unwrap();
    assert_eq!(ratio_as_f64(slope), 0.6);
    assert_eq!(ratio_as_f64(intercept), 2.2);
}

#[test]
fn exact_fractions_of_the_example() {
    // n = 5, coordinate sums 15 and 20, squared deviation sum 250 and
    // crossed deviation sum 150 (both scaled by n); the contract pins the
    // unreduced fractions exactly.
    let xs: Vec<i64> = vec![1, 2, 3, 4, 5];
    let ys: Vec<i64> = vec![2, 4, 5, 4, 5];

    let (slope, intercept) = linear_regression(&xs, &ys).unwrap();
    assert_eq!(slope, Ratio { num: 750, den: 1250 });
    assert_eq!(intercept, Ratio { num: 2750, den: 1250 });
}

#[test]
fn mean_of_four_values() {
    let xs: Vec<i64> = vec![5, 8, 12, 17];
    let m = mean(&xs).unwrap();
    assert_eq!(m, Ratio { num: 42, den: 4 });
    assert_eq!(ratio_as_f64(m), 10.5);
}

#[test]
fn mean_of_single_value() {
    let xs: Vec<i64> = vec![7];
    assert_eq!(mean(&xs), Some(Ratio { num: 7, den: 1 }));
}

#[test]
fn mean_of_empty_is_none() {
    let xs: Vec<i64> = vec![];
    assert_eq!(mean(&xs), None);
}

#[test]
fn mismatched_lengths_are_none() {
    let xs: Vec<i64> = vec![1, 2, 3];
    let ys: Vec<i64> = vec![1, 2];
    assert_eq!(linear_regression(&xs, &ys), None);
    assert_eq!(linear_regression(&ys, &xs), None);
}

#[test]
fn empty_inputs_are_none() {
    let none: Vec<i64> = vec![];
    let some: Vec<i64> = vec![1, 2, 3];
    assert_eq!(linear_regression(&none, &none), None);
    assert_eq!(linear_regression(&none, &some), None);
    assert_eq!(linear_regression(&some, &none), None);

    let no_pairs: Vec<(i64, i64)> = vec![];
    assert_eq!(linear_regression_of(&no_pairs), None);
}

#[test]
fn single_point_is_none() {
    let point: Vec<(i64, i64)> = vec![(3, 7)];
    assert_eq!(linear_regression_of(&point), None);
}

#[test]
fn constant_x_axis_is_none() {
    let vertical: Vec<(i64, i64)> = vec![(2, 1), (2, 5), (2, 9)];
    assert_eq!(linear_regression_of(&vertical), None);

    let xs: Vec<i64> = vec![4, 4, 4, 4];
    let ys: Vec<i64> = vec![1, 2, 3, 4];
    assert_eq!(linear_regression(&xs, &ys), None);
}

#[test]
fn perfect_line_is_recovered() {
    // y = 2x + 3 exactly
    let xs: Vec<i64> = vec![0, 1, 2];
    let ys: Vec<i64> = vec![3, 5, 7];

    let (slope, intercept) = linear_regression(&xs, &ys).unwrap();
    assert!(same_value(slope, Ratio { num: 2, den: 1 }));
    assert!(same_value(intercept, Ratio { num: 3, den: 1 }));
}

#[test]
fn refitting_regenerated_data_round_trips() {
    let xs: Vec<i64> = vec![0, 1, 2];
    let ys: Vec<i64> = vec![3, 5, 7];

    let (slope, intercept) = linear_regression(&xs, &ys).unwrap();
    assert_eq!(slope.den, intercept.den);

    // Regenerate each y from the fitted line; the fit is exact here, so
    // every regenerated value is a whole number.
    let regenerated: Vec<i64> = xs
        .iter()
        .map(|&x| {
            let num = slope.num * x as i128 + intercept.num;
            assert_eq!(num % slope.den, 0);
            (num / slope.den) as i64
        })
        .collect();
    assert_eq!(regenerated, ys);

    let (slope2, intercept2) = linear_regression(&xs, &regenerated).unwrap();
    assert!(same_value(slope, slope2));
    assert!(same_value(intercept, intercept2));
}

#[test]
fn pairing_is_strictly_positional() {
    // Permuting ys independently of xs changes the fit: the pairing
    // matters, not the multisets of values.
    let xs: Vec<i64> = vec![1, 2, 3, 4, 5];
    let ys: Vec<i64> = vec![2, 4, 5, 4, 5];
    let ys_reversed: Vec<i64> = vec![5, 4, 5, 4, 2];

    let (slope, _) = linear_regression(&xs, &ys).unwrap();
    let (slope_reversed, _) = linear_regression(&xs, &ys_reversed).unwrap();
    assert!(!same_value(slope, slope_reversed));
}

#[test]
fn both_forms_agree() {
    let xs: Vec<i64> = vec![1, 2, 3, 4, 5];
    let ys: Vec<i64> = vec![2, 4, 5, 4, 5];
    let tuples: Vec<(i64, i64)> = xs.iter().cloned().zip(ys.iter().cloned()).collect();

    assert_eq!(linear_regression(&xs, &ys), linear_regression_of(&tuples));

    let xs2: Vec<i64> = vec![-3, 0, 2, 9];
    let ys2: Vec<i64> = vec![14, -1, 7, 6];
    let tuples2: Vec<(i64, i64)> = xs2.iter().cloned().zip(ys2.iter().cloned()).collect();

    assert_eq!(linear_regression(&xs2, &ys2), linear_regression_of(&tuples2));
}

#[test]
fn extreme_coordinates_fit() {
    let steep: Vec<(i64, i64)> = vec![(MAX_COORD, MAX_COORD), (-MAX_COORD, -MAX_COORD)];
    let (slope, intercept) = linear_regression_of(&steep).unwrap();
    assert!(same_value(slope, Ratio { num: 1, den: 1 }));
    assert!(same_value(intercept, Ratio { num: 0, den: 1 }));
}
