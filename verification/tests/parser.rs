use quake_map::lexer::{Token, TokenIterator};
use quake_map::parser::TokenPeekable;
use quake_map::{parse, QuakeMap};

fn err(src: &str) -> String {
    match parse(src.as_bytes().to_vec()) {
        Ok(_) => panic!("expected an error for {:?}", src),
        Err(e) => e.to_string(),
    }
}

fn ok(src: &str) -> QuakeMap {
    match parse(src.as_bytes().to_vec()) {
        Ok(m) => m,
        Err(e) => panic!("unexpected error {}", e.to_string()),
    }
}

fn text(b: &[u8]) -> String {
    String::from_utf8(b.to_vec()).unwrap()
}

const QUAKE1: &str = "// Game: Quake
{
\"classname\" \"worldspawn\"
\"wad\" \"/gfx/base.wad\"
{
( -64 -64 -16 ) ( -64 -63 -16 ) ( -64 -64 -15 ) BRICK 0 0 0 1 1
( 64 64 16 ) ( 64 64 17 ) ( 64 65 16 ) __TB_empty 0 0 0 1.0 1.0
}
}
{
\"classname\" \"info_player_start\"
\"origin\" \"0 0 24\"
}
";

#[test]
fn empty_text_is_an_empty_map() {
    assert_eq!(ok("").entities.len(), 0);
    assert_eq!(ok(" \n\t// nothing\n").entities.len(), 0);
}

#[test]
fn entity_without_contents() {
    let m = ok("\n {\n }\n ");
    assert_eq!(m.entities.len(), 1);
    assert_eq!(m.entities[0].edict.len(), 0);
    assert_eq!(m.entities[0].brushes.len(), 0);
}

#[test]
fn quake1_map() {
    let m = ok(QUAKE1);
    assert_eq!(m.entities.len(), 2);
    let world = &m.entities[0];
    assert_eq!(world.edict.len(), 2);
    assert_eq!(text(&world.edict[0].0), "classname");
    assert_eq!(text(&world.edict[0].1), "worldspawn");
    assert_eq!(text(&world.edict[1].1), "/gfx/base.wad");
    assert_eq!(world.brushes.len(), 1);
    let brush = &world.brushes[0];
    assert_eq!(brush.len(), 2);
    let s = &brush[0];
    assert_eq!(text(&s.half_space.0.x), "-64");
    assert_eq!(text(&s.half_space.1.y), "-63");
    assert_eq!(text(&s.half_space.2.z), "-15");
    assert_eq!(text(&s.texture), "BRICK");
    assert_eq!(text(&s.alignment.scale_x), "1");
    assert!(s.alignment.axes.is_none());
    assert_eq!(s.q2ext.content_flags, 0);
    assert_eq!(s.q2ext.surface_flags, 0);
    assert_eq!(text(&s.q2ext.surface_value), "0");
    assert_eq!(text(&brush[1].alignment.scale_y), "1.0");
    let start = &m.entities[1];
    assert_eq!(text(&start.edict[1].1), "0 0 24");
    assert_eq!(start.brushes.len(), 0);
}

#[test]
fn valve_alignment_and_quake2_extension() {
    let m = ok("{ { ( 0 0 0 ) ( 1 0 0 ) ( 0 1 0 ) \"my tex\" [ 1 0 0 16 ] [ 0 -1 0 -8 ] 45 0.5 2 7 8 0.25 } }");
    let s = &m.entities[0].brushes[0][0];
    assert_eq!(text(&s.texture), "my tex");
    let axes = s.alignment.axes.as_ref().unwrap();
    assert_eq!(text(&axes.u.x), "1");
    assert_eq!(text(&axes.v.y), "-1");
    assert_eq!(text(&s.alignment.offset_x), "16");
    assert_eq!(text(&s.alignment.offset_y), "-8");
    assert_eq!(text(&s.alignment.rotation), "45");
    assert_eq!(text(&s.alignment.scale_x), "0.5");
    assert_eq!(text(&s.alignment.scale_y), "2");
    assert_eq!(s.q2ext.content_flags, 7);
    assert_eq!(s.q2ext.surface_flags, 8);
    assert_eq!(text(&s.q2ext.surface_value), "0.25");
}

#[test]
fn punctuation_texture_name_is_empty() {
    let m = ok("{ { ( 0 0 0 ) ( 1 0 0 ) ( 0 1 0 ) ] 0 0 0 1 1 } }");
    assert_eq!(m.entities[0].brushes[0][0].texture.len(), 0);
}

#[test]
fn unexpected_token() {
    assert_eq!(err("}"), "Line 1: Expected `{`, got `}`");
    assert_eq!(err("\n\n}"), "Line 3: Expected `{`, got `}`");
    assert_eq!(err("{ \"a\" \"b\" ]"), "Line 1: Expected `}`, got `]`");
}

#[test]
fn unexpected_end() {
    assert_eq!(err("{"), "Unexpected end-of-file");
    assert_eq!(err("{ \"a\""), "Unexpected end-of-file");
    assert_eq!(err("{ { ( 0 0 0 ) ( 1 0 0 ) ( 0 1 0 ) T 0 0 0 1 1"), "Unexpected end-of-file");
    assert_eq!(err("{ { ( 0 0 0 ) ( 1 0 0 ) ( 0 1 0 )"), "Unexpected end-of-file");
}

#[test]
fn value_must_be_quoted() {
    assert_eq!(err("{ \"a\" b }"), "Line 1: Expected quoted, got `b`");
}

#[test]
fn brush_must_close() {
    assert_eq!(err("{ { [ } }"), "Line 1: Expected `(` or `}`, got `[`");
}

#[test]
fn numbers_are_checked() {
    assert_eq!(err("{ { ( 0 0 x ) } }"), "Line 1: Expected number, got `x`");
    assert_eq!(err("{ { ( 0 0 \"1\" ) } }"), "Line 1: Expected number, got `\"1\"`");
    assert_eq!(
        err("{ { ( 0 0 0 ) ( 1 0 0 ) ( 0 1 0 ) T 0 0 0 1 1 x 0 0 } }"),
        "Line 1: Expected integer, got `x`"
    );
    assert_eq!(
        err("{ { ( 0 0 0 ) ( 1 0 0 ) ( 0 1 0 ) T 0 0 0 1 1 1.5 0 0 } }"),
        "Line 1: Expected integer, got `1.5`"
    );
}

#[test]
fn lexer_errors_surface_where_read() {
    assert_eq!(err("{\0}"), "Line 1: Null byte");
    assert_eq!(err("{ \"a\" \"b"), "Line 1: Missing closing quote");
    // a parser error before the bad byte wins
    assert_eq!(err("} \0"), "Line 1: Expected `{`, got `}`");
}

#[test]
fn look_ahead_over_tokens() {
    let mut p = TokenPeekable::new(TokenIterator::new(b"{ \0 x".to_vec()));
    assert!(p.has_next());
    match p.peek_token() {
        Ok(Some(t)) => assert_eq!(t.token, Token::OpenCurly),
        _ => panic!("expected a token"),
    }
    match p.extract() {
        Ok(Some(t)) => assert_eq!(t.line_number, 1),
        _ => panic!("expected a token"),
    }
    match p.peek_token() {
        Err(e) => assert_eq!(e.to_string(), "Line 1: Null byte"),
        _ => panic!("expected the error"),
    }
    match p.extract() {
        Ok(Some(t)) => assert_eq!(t.token, Token::BareString(b"x".to_vec())),
        _ => panic!("expected a token"),
    }
    assert!(!p.has_next());
    assert!(matches!(p.extract(), Ok(None)));
}
