use statsctl::args::parse_vars;

#[test]
fn parse_vars_trims_and_drops_empty_names() {
    let v = Some(" age, income,,score , ".to_string());
    assert_eq!(parse_vars(&v), Some(vec!["age".to_string(), "income".to_string(), "score".to_string()]));
}

#[test]
fn parse_vars_edge_cases() {
    assert_eq!(parse_vars(&None), None);
    assert_eq!(parse_vars(&Some(String::new())), Some(Vec::new()));
    assert_eq!(parse_vars(&Some(",,".to_string())), Some(Vec::new()));
    assert_eq!(parse_vars(&Some("x".to_string())), Some(vec!["x".to_string()]));
}
