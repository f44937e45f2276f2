use statsctl::reader::{detect_delimiter, parse_csv, DataFrame, ParseError};

fn frame(headers: &[&str], rows: &[&[&str]]) -> DataFrame {
    DataFrame {
        headers: headers.iter().map(|s| s.to_string()).collect(),
        rows: rows.iter().map(|r| r.iter().map(|s| s.to_string()).collect()).collect(),
    }
}

#[test]
fn test_detect_delimiter_comma() {
    assert_eq!(detect_delimiter("a,b,c"), b',');
}

#[test]
fn test_detect_delimiter_tab() {
    assert_eq!(detect_delimiter("a\tb\tc"), b'\t');
}

#[test]
fn test_detect_delimiter_mixed_more_tabs() {
    assert_eq!(detect_delimiter("a,b\tc\td\te"), b'\t');
}

#[test]
fn test_detect_delimiter_empty() {
    assert_eq!(detect_delimiter(""), b',');
}

#[test]
fn detect_delimiter_tie_is_comma() {
    assert_eq!(detect_delimiter("a,b\tc"), b',');
}

#[test]
fn test_parse_csv_basic() {
    let data = "name,age,score\nAlice,25,85\nBob,34,72\n";
    let df = parse_csv(data).unwrap();
    assert_eq!(df.headers, vec!["name", "age", "score"]);
    assert_eq!(df.nrows(), 2);
    assert_eq!(df.ncols(), 3);
}

#[test]
fn test_parse_csv_tsv() {
    let data = "name\tage\tscore\nAlice\t25\t85\nBob\t34\t72\n";
    let df = parse_csv(data).unwrap();
    assert_eq!(df.headers, vec!["name", "age", "score"]);
    assert_eq!(df.nrows(), 2);
}

#[test]
fn test_parse_csv_empty() {
    let data = "";
    assert!(parse_csv(data).is_err());
}

#[test]
fn parse_csv_blank_first_line_is_empty() {
    assert_eq!(parse_csv("   \na,b\n").unwrap_err(), ParseError::Empty);
}

#[test]
fn test_parse_csv_headers_only() {
    let data = "name,age,score\n";
    let df = parse_csv(data).unwrap();
    assert_eq!(df.nrows(), 0);
    assert_eq!(df.ncols(), 3);
}

#[test]
fn test_dataframe_column() {
    let data = "name,age\nAlice,25\nBob,34\n";
    let df = parse_csv(data).unwrap();
    let col = df.column("name").unwrap();
    assert_eq!(col, vec!["Alice", "Bob"]);
}

#[test]
fn test_dataframe_missing_column() {
    let data = "name,age\nAlice,25\n";
    let df = parse_csv(data).unwrap();
    assert!(df.column("nonexistent").is_none());
}

#[test]
fn test_short_row_padding() {
    let data = "a,b,c\n1,2\n4,5,6\n";
    let df = parse_csv(data).unwrap();
    assert_eq!(df.rows[0].len(), 3);
    assert_eq!(df.rows[0][2], "");
}

#[test]
fn parse_csv_trims_and_truncates() {
    let df = parse_csv(" a , b \n 1 , 2 , 3\n").unwrap();
    assert_eq!(df.headers, vec!["a", "b"]);
    assert_eq!(df.rows, vec![vec!["1".to_string(), "2".to_string()]]);
}

#[test]
fn col_index_finds_first_match() {
    let df = frame(&["x", "y", "x"], &[]);
    assert_eq!(df.col_index("x"), Some(0));
    assert_eq!(df.col_index("y"), Some(1));
    assert_eq!(df.col_index("z"), None);
}

#[test]
fn column_reads_short_rows_as_empty() {
    let df = frame(&["a", "b"], &[&["1", "2"], &["3"]]);
    assert_eq!(df.column("b").unwrap(), vec!["2", ""]);
}

#[test]
fn select_columns_keeps_requested_order_and_skips_unknown() {
    let df = frame(&["a", "b", "c"], &[&["1", "2", "3"], &["4", "5", "6"]]);
    let s = df.select_columns(&["c", "zz", "a"]);
    assert_eq!(s.headers, vec!["c", "a"]);
    assert_eq!(s.rows, vec![vec!["3".to_string(), "1".to_string()], vec!["6".to_string(), "4".to_string()]]);
}
