use quake_map::error::Line;
use quake_map::{TextParseError, ValidationError, WriteError};

#[test]
fn lexer_and_parser_errors_render_their_line() {
    let e = TextParseError::from_lexer(String::from("Null byte"), 7);
    assert_eq!(e.to_string(), "Line 7: Null byte");
    assert!(matches!(e, TextParseError::Lexer(_)));
    let p = TextParseError::from_parser(String::from("Bad"), 1234567890123);
    assert_eq!(p.to_string(), "Line 1234567890123: Bad");
    assert!(matches!(p, TextParseError::Parser(_)));
}

#[test]
fn eof_has_no_line() {
    let e = TextParseError::eof();
    assert_eq!(e.to_string(), "Unexpected end-of-file");
    match e {
        TextParseError::Parser(l) => assert_eq!(l.line_number, None),
        _ => panic!("expected a parser error"),
    }
}

#[test]
fn line_rendering() {
    let l = Line { message: String::from("m"), line_number: Some(10) };
    assert_eq!(l.to_string(), "Line 10: m");
    let n = Line { message: String::from("m"), line_number: None };
    assert_eq!(n.to_string(), "m");
}

#[test]
fn validation_into_write() {
    let v = ValidationError::from("bad entity");
    assert_eq!(v.to_string(), "bad entity");
    let w = WriteError::from(v);
    assert!(matches!(&w, WriteError::Validation(m) if m == "bad entity"));
    assert_eq!(w.to_string(), "bad entity");
    let s = ValidationError::from(String::from("x"));
    assert_eq!(s.0, "x");
}

#[test]
fn io_error_renders_its_message() {
    let e = TextParseError::Io(String::from("disk gone"));
    assert_eq!(e.to_string(), "disk gone");
}
