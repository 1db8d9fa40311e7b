use quake_map::lexer::{LineToken, Token, TokenIterator};

fn items(src: &[u8]) -> Vec<String> {
    let mut it = TokenIterator::new(src.to_vec());
    let mut out = Vec::new();
    while let Some(item) = it.next() {
        out.push(match item {
            Ok(t) => t.to_string(),
            Err(e) => format!("error: {}", e.to_string()),
        });
    }
    out
}

#[test]
fn punctuation_and_strings() {
    assert_eq!(
        items(b"{ ( ) [ ] } \"key\" bare"),
        vec![
            "{: line 1",
            "(: line 1",
            "): line 1",
            "[: line 1",
            "]: line 1",
            "}: line 1",
            "\"key\": line 1",
            "bare: line 1",
        ]
    );
}

#[test]
fn quoted_string_keeps_spaces() {
    let mut it = TokenIterator::new(b"\"a b\"".to_vec());
    let t = it.next().unwrap().unwrap();
    match t.token {
        Token::QuotedString(s) => assert_eq!(s, b"a b".to_vec()),
        _ => panic!("expected a quoted string"),
    }
    assert!(it.next().is_none());
}

#[test]
fn empty_quoted_string() {
    assert_eq!(items(b"\"\""), vec!["\"\": line 1"]);
}

#[test]
fn adjacent_brackets_form_one_bare_string() {
    let mut it = TokenIterator::new(b"((".to_vec());
    let t = it.next().unwrap().unwrap();
    assert!(matches!(t.token, Token::BareString(_)));
    assert_eq!(t.token.to_string_fast(), "((");
}

#[test]
fn line_numbers() {
    assert_eq!(
        items(b"a\nb\r\nc\rd\n\ne"),
        vec!["a: line 1", "b: line 2", "c: line 3", "d: line 4", "e: line 6"]
    );
}

#[test]
fn comments_are_skipped() {
    assert_eq!(items(b"a // comment { }\nb"), vec!["a: line 1", "b: line 2"]);
    assert_eq!(items(b"// only a comment"), Vec::<String>::new());
}

#[test]
fn slash_inside_a_bare_string_is_kept() {
    assert_eq!(items(b"a//b"), vec!["a//b: line 1"]);
}

#[test]
fn lone_slash_starts_a_bare_string() {
    assert_eq!(items(b"/x y"), vec!["/x: line 1", "y: line 1"]);
    // a slash then a blank: the blank is kept in the text
    assert_eq!(items(b"/ a b"), vec!["/ a: line 1", "b: line 1"]);
    // a slash at the very end yields nothing
    assert_eq!(items(b"a /"), vec!["a: line 1"]);
}

#[test]
fn null_byte_is_an_error() {
    assert_eq!(items(b"\0"), vec!["error: Line 1: Null byte"]);
    assert_eq!(items(b"a\n\0 b"), vec!["a: line 1", "error: Line 2: Null byte", "b: line 2"]);
}

#[test]
fn unclosed_quote_is_an_error() {
    assert_eq!(items(b"x\n\"abc"), vec!["x: line 1", "error: Line 2: Missing closing quote"]);
    assert_eq!(items(b"\""), vec!["error: Line 1: Missing closing quote"]);
}

#[test]
fn iterator_stays_done() {
    let mut it = TokenIterator::new(b"a".to_vec());
    assert!(it.next().is_some());
    assert!(it.next().is_none());
    assert!(it.next().is_none());
}

#[test]
fn from_text_classifies() {
    let t = LineToken::from_text(b"{".to_vec(), 3);
    assert!(matches!(t.token, Token::OpenCurly));
    assert_eq!(t.line_number, 3);
    let q = LineToken::from_text(b"\"abc\"".to_vec(), 1);
    assert!(q.is_quoted());
    assert_eq!(q.into_bare_cstring(), b"abc".to_vec());
    let b = LineToken::from_text(b"\"abc".to_vec(), 1);
    assert!(!b.is_quoted());
    assert_eq!(b.into_bare_cstring(), b"\"abc".to_vec());
    let p = LineToken::from_text(b"]".to_vec(), 1);
    assert_eq!(p.into_bare_cstring(), Vec::<u8>::new());
}

#[test]
fn token_rendering() {
    assert_eq!(Token::OpenSquare.to_string_fast(), "[");
    assert_eq!(Token::QuotedString(b"hi".to_vec()).to_string_fast(), "\"hi\"");
    assert_eq!(Token::BareString(vec![0xe9]).to_string_fast(), "\u{e9}");
    let t = LineToken::from_text(b"x".to_vec(), 12);
    assert_eq!(t.to_string(), "x: line 12");
}

#[test]
fn token_comparison() {
    assert!(Token::OpenParen.same_as(&Token::OpenParen));
    assert!(!Token::OpenParen.same_as(&Token::CloseParen));
    assert!(Token::BareString(b"a".to_vec()).same_as(&Token::BareString(b"a".to_vec())));
    assert!(!Token::BareString(b"a".to_vec()).same_as(&Token::QuotedString(b"a".to_vec())));
    assert!(!Token::BareString(b"a".to_vec()).same_as(&Token::BareString(b"b".to_vec())));
}
