use statsctl::correlation::{complete_pairs, correlation_columns, symmetric_matrix};
use statsctl::reader::DataFrame;

#[test]
fn symmetric_matrix_mirrors_pairs() {
    let m = symmetric_matrix(3, 1.0f64, |i, j| (10 * i + j) as f64);
    assert_eq!(m, vec![vec![1.0, 1.0, 2.0], vec![1.0, 1.0, 12.0], vec![2.0, 12.0, 1.0]]);
    let e = symmetric_matrix(0, 1.0f64, |_, _| 0.0);
    assert!(e.is_empty());
}

#[test]
fn symmetric_matrix_keeps_nan_on_both_sides() {
    let m = symmetric_matrix(2, 1.0f64, |_, _| f64::NAN);
    assert!(m[0][1].is_nan() && m[1][0].is_nan());
    assert_eq!(m[0][0], 1.0);
}

#[test]
fn correlation_columns_filters_names() {
    let df = DataFrame {
        headers: vec!["age".to_string(), "name".to_string(), "income".to_string()],
        rows: vec![
            vec!["1".to_string(), "a".to_string(), "10".to_string()],
            vec!["2".to_string(), "b".to_string(), "20".to_string()],
        ],
    };
    assert_eq!(correlation_columns(&df, Some(&["age", "nonexistent_col"])), vec!["age"]);
    assert_eq!(correlation_columns(&df, None), vec!["age", "income"]);
}

#[test]
fn complete_pairs_keep_rows_with_both_values() {
    let x = vec![Some(1.0), None, Some(3.0), Some(4.0), Some(5.0)];
    let y = vec![Some(2.0), Some(4.0), None, Some(8.0), Some(10.0)];
    assert_eq!(complete_pairs(&x, &y), vec![(1.0, 2.0), (4.0, 8.0), (5.0, 10.0)]);
}

#[test]
fn complete_pairs_fewer_than_two() {
    let x = vec![Some(1.0), None, None];
    let y = vec![None, Some(2.0), None];
    assert!(complete_pairs(&x, &y).is_empty());
    let short = vec![Some(1), Some(2)];
    let long = vec![Some(5), None, Some(7)];
    assert_eq!(complete_pairs(&short, &long), vec![(1, 5)]);
}
