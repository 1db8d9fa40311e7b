use quake_map::number::{is_float_text, parse_i32};

#[test]
fn float_texts_rust_accepts() {
    for t in [
        "0", "1", "-1.5e10", "+2", "inf", "-Infinity", "NaN", ".5", "5.", "1e5", "1E+5", "1e-05",
        "INF", "00.00",
    ] {
        assert!(is_float_text(t.as_bytes()), "{}", t);
        assert!(t.parse::<f64>().is_ok(), "{}", t);
    }
}

#[test]
fn float_texts_rust_refuses() {
    for t in [
        "", ".", "e5", "1e", "1.2.3", "+", "-", "infx", "1 ", " 1", "1e+", "0x10", "in", "1,5",
        "--1", "+inf+",
    ] {
        assert!(!is_float_text(t.as_bytes()), "{}", t);
        assert!(t.parse::<f64>().is_err(), "{}", t);
    }
}

#[test]
fn integer_texts() {
    assert_eq!(parse_i32(b"123"), Some(123));
    assert_eq!(parse_i32(b"+5"), Some(5));
    assert_eq!(parse_i32(b"007"), Some(7));
    assert_eq!(parse_i32(b"-2147483648"), Some(i32::MIN));
    assert_eq!(parse_i32(b"2147483647"), Some(i32::MAX));
    assert_eq!(parse_i32(b"2147483648"), None);
    assert_eq!(parse_i32(b"-2147483649"), None);
    assert_eq!(parse_i32(b"99999999999999999999"), None);
    assert_eq!(parse_i32(b"-"), None);
    assert_eq!(parse_i32(b""), None);
    assert_eq!(parse_i32(b"1.0"), None);
    assert_eq!(parse_i32(b" 1"), None);
}

#[test]
fn integer_texts_agree_with_std() {
    for t in ["0", "-0", "+0", "42", "-42", "2147483647", "2147483648", "-2147483648", "x", "4a"] {
        assert_eq!(parse_i32(t.as_bytes()), t.parse::<i32>().ok(), "{}", t);
    }
}
