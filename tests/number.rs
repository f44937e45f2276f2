use statsctl::number::is_number;

#[test]
fn number_syntax_accepts_decimal_forms() {
    for s in ["0", "42", "-7", "+3", "3.14", "1.", ".5", "1e5", "1E-3", "2.5e+10", "-.5e2"] {
        assert!(is_number(s), "{}", s);
    }
}

#[test]
fn number_syntax_accepts_special_words() {
    for s in ["inf", "-inf", "Infinity", "+INFINITY", "nan", "NaN", "-nan"] {
        assert!(is_number(s), "{}", s);
    }
}

#[test]
fn number_syntax_rejects_other_text() {
    for s in ["", ".", "+", "-", "e5", "1e", "1e+", "1.2.3", "1,5", " 1", "1 ", "abc", "0x10", "infin", "1_000", "--1", "1e5.0"] {
        assert!(!is_number(s), "{}", s);
    }
}

#[test]
fn number_syntax_agrees_with_float_parsing() {
    for s in ["12", "1.5e3", ".", "1e", "inf", "nan", "-0", "+.7", "7.e2", "x1", "", "1..2", "Infinity", "NAN", "+INF", "-infinity", "iNf", "nAn", "infinit", "+-1", "1e+5", "1E05", "00.00", "e", "E1", "5e-"] {
        assert_eq!(is_number(s), s.parse::<f64>().is_ok(), "{}", s);
    }
}
