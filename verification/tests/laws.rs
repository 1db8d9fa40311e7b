use quake_map::lexer::{LineToken, Token, TokenIterator};
use quake_map::parse;

fn items(src: &[u8]) -> Vec<String> {
    let mut it = TokenIterator::new(src.to_vec());
    let mut out = Vec::new();
    while let Some(item) = it.next() {
        out.push(match item {
            Ok(t) => t.to_string(),
            Err(e) => format!("error: {}", e.to_string()),
        });
    }
    out
}

const SAMPLE: &[u8] = b"{\n\"classname\" \"worldspawn\" // note\r\n{\n( 0 0 0 ) ( 1 0 0 ) ( 0 1 0 ) \"tex\" [ 1 0 0 0 ] [ 0 1 0 0 ] 0 1 1\r}\n}\n\"open";

#[test]
fn token_lines_start_at_one_and_never_go_back() {
    let mut it = TokenIterator::new(SAMPLE.to_vec());
    let mut last = 1u64;
    let mut count = 0;
    while let Some(item) = it.next() {
        if let Ok(t) = item {
            assert!(t.line_number >= last);
            last = t.line_number;
            count += 1;
        }
    }
    assert!(count > 10);
    assert_eq!(last, 6);
}

#[test]
fn tokens_hold_no_zero_byte() {
    let mut it = TokenIterator::new(b"a\0b \"c\0d\" e".to_vec());
    while let Some(item) = it.next() {
        if let Ok(t) = item {
            assert!(!t.into_bare_cstring().contains(&0));
        }
    }
}

#[test]
fn token_shows_as_its_text() {
    for text in [&b"{"[..], b"]", b"\"quoted text\"", b"bare", b"\"", b"\"\"", b"((", b"x\"", b""] {
        let shown = LineToken::from_text(text.to_vec(), 1).token.to_string_fast();
        let latin1: String = text.iter().map(|&b| b as char).collect();
        assert_eq!(shown, latin1);
    }
}

#[test]
fn leading_blank_changes_nothing() {
    for b in [b' ', b'\t', 0x0c] {
        let mut with = vec![b];
        with.extend_from_slice(SAMPLE);
        assert_eq!(items(&with), items(SAMPLE));
    }
}

#[test]
fn line_comment_reads_as_line_feed() {
    let rest = b"{ \"a\" \"b\" }";
    let mut with = b"// a comment { with tokens }\n".to_vec();
    with.extend_from_slice(rest);
    let mut feed = b"\n".to_vec();
    feed.extend_from_slice(rest);
    assert_eq!(items(&with), items(&feed));
    assert_eq!(items(&with)[0], "{: line 2");
}

#[test]
fn parsed_numbers_read_as_f64_and_names_hold_no_zero() {
    let m = parse(SAMPLE[..SAMPLE.len() - 6].to_vec()).unwrap_or_else(|e| panic!("{}", e.to_string()));
    let s = &m.entities[0].brushes[0][0];
    for n in [&s.half_space.0.x, &s.half_space.2.y, &s.alignment.rotation, &s.q2ext.surface_value] {
        assert!(std::str::from_utf8(n).unwrap().parse::<f64>().is_ok());
    }
    let axes = s.alignment.axes.as_ref().unwrap();
    assert!(std::str::from_utf8(&axes.v.y).unwrap().parse::<f64>().is_ok());
    assert!(!s.texture.contains(&0));
    for (k, v) in &m.entities[0].edict {
        assert!(!k.contains(&0) && !v.contains(&0));
    }
}

#[test]
fn errors_carry_lines_from_one() {
    for src in [&b"}"[..], b"\n\n{ x", b"{ \0", b"{ \"a", b"{ \"k\" v }"] {
        match parse(src.to_vec()) {
            Ok(_) => panic!("expected an error"),
            Err(e) => {
                let line = match e {
                    quake_map::TextParseError::Lexer(l) => l.line_number,
                    quake_map::TextParseError::Parser(l) => l.line_number,
                    quake_map::TextParseError::Io(_) => None,
                };
                if let Some(n) = line {
                    assert!(n >= 1);
                }
            }
        }
    }
}

#[test]
fn token_equality() {
    assert_eq!(Token::OpenCurly, Token::OpenCurly);
    assert_ne!(Token::QuotedString(b"a".to_vec()), Token::BareString(b"a".to_vec()));
    assert_eq!(LineToken::from_text(b"x".to_vec(), 2), LineToken::from_text(b"x".to_vec(), 2));
    assert_ne!(LineToken::from_text(b"x".to_vec(), 2), LineToken::from_text(b"x".to_vec(), 3));
}

#[test]
fn written_token_reads_back() {
    let tokens = vec![
        Token::OpenParen,
        Token::CloseSquare,
        Token::QuotedString(b"a \"b\" c".to_vec()),
        Token::QuotedString(Vec::new()),
        Token::BareString(b"BRICK".to_vec()),
        Token::BareString(b"((".to_vec()),
        Token::BareString(b"\"x".to_vec()),
    ];
    for t in tokens {
        let written: Vec<u8> = t.to_string_fast().chars().map(|c| c as u8).collect();
        assert_eq!(LineToken::from_text(written, 5), LineToken { token: t, line_number: 5 });
    }
}

#[test]
fn plain_text_tokens_are_the_words() {
    let text = "  worldspawn ( 1 2\t3 )\r\n\x0c{ }  ";
    let mut it = TokenIterator::new(text.as_bytes().to_vec());
    let mut shown = Vec::new();
    while let Some(item) = it.next() {
        shown.push(item.unwrap().token.to_string_fast());
    }
    let words: Vec<String> = text.split_ascii_whitespace().map(String::from).collect();
    assert_eq!(shown, words);
}

#[test]
fn bad_text_never_parses() {
    assert!(parse(b"{ \"a\" \"b\" } \0".to_vec()).is_err());
    assert!(parse(b"{ \"a\" \"b\" } \"open".to_vec()).is_err());
    assert!(parse(b"{ \"a\" \"b\" }".to_vec()).is_ok());
}

#[test]
fn number_text_of_tokens() {
    assert_eq!(Token::BareString(b"1.5".to_vec()).as_number_text(), b"1.5".to_vec());
    assert_eq!(Token::BareString(vec![0xff, 0x31]).as_number_text(), Vec::<u8>::new());
    assert_eq!(Token::BareString("é".as_bytes().to_vec()).as_number_text(), "é".as_bytes().to_vec());
    assert_eq!(Token::QuotedString(b"1".to_vec()).as_number_text(), Vec::<u8>::new());
    assert_eq!(Token::OpenParen.as_number_text(), Vec::<u8>::new());
}
