use statsctl::reader::DataFrame;
use statsctl::stats::categorical_summary;

fn frame(headers: &[&str], rows: &[&[&str]]) -> DataFrame {
    DataFrame {
        headers: headers.iter().map(|s| s.to_string()).collect(),
        rows: rows.iter().map(|r| r.iter().map(|s| s.to_string()).collect()).collect(),
    }
}

#[test]
fn categorical_summary_counts_and_orders() {
    let df = frame(
        &["city"],
        &[&["Paris"], &["Lima"], &["NA"], &["Paris"], &[" Lima "], &["Oslo"], &[""], &["Paris"]],
    );
    let s = categorical_summary(&df, "city").unwrap();
    assert_eq!(s.name, "city");
    assert_eq!(s.total, 8);
    assert_eq!(s.missing, 2);
    assert_eq!(s.unique, 3);
    assert_eq!(
        s.top_values,
        vec![("Paris".to_string(), 3), ("Lima".to_string(), 2), ("Oslo".to_string(), 1)]
    );
}

#[test]
fn categorical_summary_keeps_ten_and_breaks_ties_by_first_occurrence() {
    let names = ["k", "j", "i", "h", "g", "f", "e", "d", "c", "b", "a", "l"];
    let mut rows: Vec<Vec<String>> = names.iter().map(|n| vec![n.to_string()]).collect();
    rows.push(vec!["l".to_string()]);
    let df = DataFrame { headers: vec!["c".to_string()], rows };
    let s = categorical_summary(&df, "c").unwrap();
    assert_eq!(s.unique, 12);
    assert_eq!(s.top_values.len(), 10);
    assert_eq!(s.top_values[0], ("l".to_string(), 2));
    assert_eq!(s.top_values[1], ("k".to_string(), 1));
    assert_eq!(s.top_values[9], ("c".to_string(), 1));
}

#[test]
fn categorical_summary_unknown_column() {
    let df = frame(&["a"], &[&["1"]]);
    assert!(categorical_summary(&df, "b").is_none());
}
