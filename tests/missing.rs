use statsctl::missing::{analyze, missing_patterns, only_missing, pattern_tally};
use statsctl::reader::DataFrame;

fn frame(headers: &[&str], rows: &[&[&str]]) -> DataFrame {
    DataFrame {
        headers: headers.iter().map(|s| s.to_string()).collect(),
        rows: rows.iter().map(|r| r.iter().map(|s| s.to_string()).collect()).collect(),
    }
}

fn sample() -> DataFrame {
    frame(
        &["a", "b", "c"],
        &[
            &["1", "NA", "x"],
            &["2", "3", "y"],
            &["", "NA", "z"],
            &["4", "", "w"],
            &["5", "6", "v"],
            &["", "", ""],
        ],
    )
}

#[test]
fn analyze_counts_missing_per_column() {
    let infos = analyze(&sample());
    let counts: Vec<(String, usize, usize)> = infos.iter().map(|m| (m.name.clone(), m.missing, m.total)).collect();
    assert_eq!(
        counts,
        vec![("a".to_string(), 2, 6), ("b".to_string(), 4, 6), ("c".to_string(), 1, 6)]
    );
    let only: Vec<&str> = only_missing(&infos).iter().map(|m| m.name.as_str()).collect();
    assert_eq!(only, vec!["a", "b", "c"]);
}

#[test]
fn only_missing_drops_complete_columns() {
    let infos = analyze(&frame(&["a", "b"], &[&["1", ""], &["2", "3"]]));
    let only: Vec<&str> = only_missing(&infos).iter().map(|m| m.name.as_str()).collect();
    assert_eq!(only, vec!["b"]);
}

#[test]
fn pattern_tally_sums_to_row_count() {
    let df = sample();
    let t = pattern_tally(&df);
    assert_eq!(t.iter().map(|e| e.1).sum::<usize>(), df.nrows());
    assert_eq!(
        t,
        vec![
            (vec![false, true, false], 2),
            (vec![false, false, false], 2),
            (vec![true, true, false], 1),
            (vec![true, true, true], 1),
        ]
    );
}

#[test]
fn missing_patterns_report() {
    let r = missing_patterns(&sample());
    assert_eq!(r.total_rows, 6);
    assert_eq!(r.rows_with_missing, 4);
    assert_eq!(
        r.patterns,
        vec![
            (vec!["b".to_string()], 2),
            (vec!["a".to_string(), "b".to_string()], 1),
            (vec!["a".to_string(), "b".to_string(), "c".to_string()], 1),
        ]
    );
    let listed: usize = r.patterns.iter().map(|p| p.1).sum();
    let complete_rows = 2;
    assert_eq!(listed, r.rows_with_missing);
    assert_eq!(listed + complete_rows, r.total_rows);
}

#[test]
fn missing_patterns_without_missing_values() {
    let r = missing_patterns(&frame(&["a"], &[&["1"], &["2"]]));
    assert_eq!(r.rows_with_missing, 0);
    assert!(r.patterns.is_empty());
    let e = missing_patterns(&frame(&["a"], &[]));
    assert_eq!(e.total_rows, 0);
    assert_eq!(e.rows_with_missing, 0);
}
