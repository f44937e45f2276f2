use statsctl::reader::DataFrame;
use statsctl::types::{infer_types, is_boolean, is_numeric, numeric_columns, ColumnType};

fn frame(headers: &[&str], rows: &[&[&str]]) -> DataFrame {
    DataFrame {
        headers: headers.iter().map(|s| s.to_string()).collect(),
        rows: rows.iter().map(|r| r.iter().map(|s| s.to_string()).collect()).collect(),
    }
}

#[test]
fn test_is_boolean_true_false() {
    assert!(is_boolean(&["true", "false", "true", "false"]));
}

#[test]
fn test_is_boolean_yes_no() {
    assert!(is_boolean(&["yes", "no", "YES", "NO"]));
}

#[test]
fn test_is_boolean_01() {
    assert!(is_boolean(&["0", "1", "1", "0"]));
}

#[test]
fn test_is_boolean_with_missing() {
    assert!(is_boolean(&["true", "NA", "false", ""]));
}

#[test]
fn test_is_boolean_mixed_not_bool() {
    assert!(!is_boolean(&["true", "maybe", "false"]));
}

#[test]
fn test_is_boolean_empty() {
    assert!(!is_boolean(&[]));
}

#[test]
fn test_is_boolean_all_missing() {
    assert!(!is_boolean(&["NA", "", "null"]));
}

#[test]
fn test_is_numeric_integers() {
    assert!(is_numeric(&["1", "2", "3", "100"]));
}

#[test]
fn test_is_numeric_floats() {
    assert!(is_numeric(&["1.5", "2.7", "3.14"]));
}

#[test]
fn test_is_numeric_with_missing() {
    assert!(is_numeric(&["1", "NA", "3", ""]));
}

#[test]
fn test_is_numeric_mostly_numeric() {
    // 80% threshold: 4 out of 5 non-missing are numeric
    assert!(is_numeric(&["1", "2", "3", "4", "hello"]));
}

#[test]
fn is_numeric_below_four_fifths() {
    assert!(!is_numeric(&["1", "2", "3", "x", "y"]));
    assert!(!is_numeric(&["1", "2", "3", "x"]));
}

#[test]
fn test_is_numeric_text() {
    assert!(!is_numeric(&["hello", "world", "foo"]));
}

#[test]
fn test_is_numeric_all_missing() {
    assert!(!is_numeric(&["NA", "", "null"]));
}

#[test]
fn test_column_type_display() {
    assert_eq!(ColumnType::Numeric.to_string(), "Numeric");
    assert_eq!(ColumnType::Boolean.to_string(), "Boolean");
    assert_eq!(ColumnType::Categorical.to_string(), "Categorical");
}

#[test]
fn infer_types_classifies_each_column() {
    let df = frame(
        &["flag", "num", "word", "empty"],
        &[
            &["true", "1.5", "hello", "NA"],
            &["no", "2", "world", ""],
            &["1", "x", "foo", "null"],
            &["YES", "4", "hello", "-"],
            &["0", "5e2", "bar", "."],
        ],
    );
    let t = infer_types(&df);
    assert_eq!(t.len(), 4);
    assert_eq!(t[0].name, "flag");
    assert_eq!(t[0].col_type, ColumnType::Boolean);
    assert_eq!(t[0].unique_count, 5);
    assert_eq!(t[0].levels, vec!["0", "1", "YES", "no", "true"]);
    assert_eq!(t[1].col_type, ColumnType::Numeric);
    assert_eq!(t[1].unique_count, 5);
    assert_eq!(t[1].levels, vec!["-"]);
    assert_eq!(t[2].col_type, ColumnType::Categorical);
    assert_eq!(t[2].unique_count, 4);
    assert_eq!(t[2].levels, vec!["bar", "foo", "hello", "world"]);
    assert_eq!(t[3].col_type, ColumnType::Categorical);
    assert_eq!(t[3].unique_count, 0);
    assert!(t[3].levels.is_empty());
}

#[test]
fn infer_types_many_levels_become_a_placeholder() {
    let cells: Vec<String> = (0..21).map(|i| format!("v{}", i)).collect();
    let rows: Vec<Vec<String>> = cells.iter().map(|c| vec![c.clone()]).collect();
    let df = DataFrame { headers: vec!["id".to_string()], rows };
    let t = infer_types(&df);
    assert_eq!(t[0].col_type, ColumnType::Categorical);
    assert_eq!(t[0].unique_count, 21);
    assert_eq!(t[0].levels, vec!["(21 unique)"]);
}

#[test]
fn numeric_columns_keep_header_order() {
    let df = frame(&["a", "b", "c"], &[&["1", "x", "3"], &["2", "y", "4"]]);
    assert_eq!(numeric_columns(&df), vec!["a", "c"]);
}
