//! Reading a map from its tokens.

use vstd::prelude::*;
use crate::error::{eof_error, parser_error, TextParse, TextParseView};
use crate::lexer::{
    bare_bytes, copy_range, item_view, lex, opt_token_view, token_text, LexItem, LineToken, LineTokenView, Token,
    TokenIterator, TokenView,
};
use crate::repr::{
    brush_view, brushes_view, default_q2ext, edict_view, Alignment, AlignmentView, Brush, Edict, Entity,
    EntityView, Point, PointView, QuakeMap, QuakeMapView, Quake2SurfaceExtension,
    Quake2SurfaceExtensionView, Surface, SurfaceView, TextureAxes, TextureAxesView,
};
use crate::number::{float_text, int_value, is_float_text, parse_i32};
use crate::text::push_char;

verus! {

/// Tokens with one item of look-ahead.
pub struct TokenPeekable {
    iter: TokenIterator,
    peeked: Option<Option<Result<LineToken, TextParse>>>,
}

impl TokenPeekable {
    pub closed spec fn wf(&self) -> bool {
        &&& self.iter.wf()
        &&& (self.peeked matches Some(None) ==> self.iter.items().len() == 0)
        &&& (self.peeked matches Some(Some(Ok(t))) ==> t.line_number >= 1)
    }

    /// The items still to come, the looked-ahead one first.
    pub closed spec fn items(&self) -> Seq<LexItem> {
        match self.peeked {
            Some(Some(it)) => seq![item_view(it)] + self.iter.items(),
            Some(None) => Seq::empty(),
            None => self.iter.items(),
        }
    }

    pub fn new(iter: TokenIterator) -> (p: TokenPeekable)
        requires
            iter.wf(),
        ensures
            p.wf(),
            p.items() == iter.items(),
    {
        TokenPeekable { iter, peeked: None }
    }

    /// Makes sure the next item has been looked ahead at.
    fn fill(&mut self)
        requires
            old(self).wf(),
        ensures
            final(self).wf(),
            final(self).items() == old(self).items(),
            final(self).peeked is Some,
    {
        if self.peeked.is_none() {
            let it = self.iter.next();
            self.peeked = Some(it);
        }
    }

    /// The next item, consumed.
    pub fn next(&mut self) -> (r: Option<Result<LineToken, TextParse>>)
        requires
            old(self).wf(),
        ensures
            final(self).wf(),
            old(self).items().len() == 0 ==> r is None && final(self).items().len() == 0,
            old(self).items().len() > 0 ==> (r matches Some(it) && item_view(it) == old(self).items()[0]
                && final(self).items() == old(self).items().drop_first()),
            r matches Some(Ok(t)) ==> t.line_number >= 1,
    {
        match self.peeked.take() {
            Some(it) => {
                if it.is_none() {
                    self.peeked = Some(None);
                }
                proof {
                    if it is Some {
                        assert(final(self).items() =~= old(self).items().drop_first());
                    }
                }
                it
            },
            None => self.iter.next(),
        }
    }

    /// The next item, consumed: a token or nothing at the end, or the error
    /// that stands next.
    pub fn extract(&mut self) -> (r: Result<Option<LineToken>, TextParse>)
        requires
            old(self).wf(),
        ensures
            final(self).wf(),
            match extract(old(self).items()) {
                Ok((t, rest)) => r matches Ok(rt) && opt_token_view(rt) == t && final(self).items() == rest,
                Err(e) => r matches Err(re) && re@ == e && final(self).items() == old(self).items().drop_first(),
            },
            r matches Ok(Some(t)) ==> t.line_number >= 1,
    {
        match self.next() {
            Some(Ok(t)) => Ok(Some(t)),
            Some(Err(e)) => Err(e),
            None => Ok(None),
        }
    }

    /// Whether any item is still to come.
    pub fn has_next(&mut self) -> (r: bool)
        requires
            old(self).wf(),
        ensures
            final(self).wf(),
            final(self).items() == old(self).items(),
            r == (old(self).items().len() > 0),
    {
        self.fill();
        match &self.peeked {
            Some(Some(_)) => true,
            _ => false,
        }
    }

    /// A look at the next token without consuming it; the error that stands
    /// next is consumed and returned.
    pub fn peek_token(&mut self) -> (r: Result<Option<&LineToken>, TextParse>)
        requires
            old(self).wf(),
        ensures
            final(self).wf(),
            match peek(old(self).items()) {
                Ok(t) => r matches Ok(rt) && opt_ref_token_view(rt) == t
                    && final(self).items() == old(self).items(),
                Err(e) => r matches Err(re) && re@ == e && final(self).items() == old(self).items().drop_first(),
            },
            r matches Ok(Some(t)) ==> t.line_number >= 1,
    {
        self.fill();
        match self.peeked.take() {
            Some(Some(Err(e))) => {
                return Err(e);
            },
            other => {
                self.peeked = other;
            },
        }
        match &self.peeked {
            Some(Some(Ok(t))) => Ok(Some(t)),
            _ => Ok(None),
        }
    }
}

/// Mathematical value of an optional borrowed token.
pub open spec fn opt_ref_token_view(r: Option<&LineToken>) -> Option<LineTokenView> {
    match r {
        Some(t) => Some(t@),
        None => None,
    }
}

/// The next token as a look-ahead sees it: the token, nothing at the end,
/// or the error that stands next.
pub open spec fn peek(s: Seq<LexItem>) -> Result<Option<LineTokenView>, TextParseView> {
    if s.len() == 0 {
        Ok(None)
    } else {
        match s[0] {
            Ok(t) => Ok(Some(t)),
            Err(e) => Err(e),
        }
    }
}

/// The next token consumed: the token and what follows it, nothing at the
/// end, or the error that stands next.
pub open spec fn extract(s: Seq<LexItem>) -> Result<(Option<LineTokenView>, Seq<LexItem>), TextParseView> {
    if s.len() == 0 {
        Ok((None, s))
    } else {
        match s[0] {
            Ok(t) => Ok((Some(t), s.drop_first())),
            Err(e) => Err(e),
        }
    }
}

/// The message `Expected <what>, got `<token>``.
pub open spec fn expected_got(what: Seq<char>, got: TokenView) -> Seq<char> {
    "Expected "@ + what + ", got `"@ + token_text(got) + seq!['`']
}

/// A token between backquotes, as messages name what they expected.
pub open spec fn ticked(t: TokenView) -> Seq<char> {
    seq!['`'] + token_text(t) + seq!['`']
}

/// A byte as a character between backquotes.
pub open spec fn ticked_byte(b: u8) -> Seq<char> {
    seq!['`', b as char, '`']
}

/// The bytes `rest`, each between backquotes, separated by `, `.
pub open spec fn ticked_list(rest: Seq<u8>) -> Seq<char>
    decreases rest.len(),
{
    if rest.len() == 0 {
        Seq::empty()
    } else if rest.len() == 1 {
        ticked_byte(rest[0])
    } else {
        ticked_list(rest.drop_last()) + seq![',', ' '] + ticked_byte(rest.last())
    }
}

/// `Ok` when the token read is `tok`.
pub open spec fn spec_expect_token(o: Option<LineTokenView>, tok: TokenView) -> Result<(), TextParseView> {
    match o {
        Some(p) => if p.token == tok {
            Ok(())
        } else {
            Err(parser_error(expected_got(ticked(tok), p.token), p.line_number))
        },
        None => Err(eof_error()),
    }
}

/// `Ok` when the token read is `tok`; the message on a mismatch names the
/// bytes `rest` as alternatives.
pub open spec fn spec_expect_token_or(
    o: Option<LineTokenView>,
    tok: TokenView,
    rest: Seq<u8>,
) -> Result<(), TextParseView> {
    match o {
        Some(p) => if p.token == tok {
            Ok(())
        } else {
            Err(
                parser_error(
                    expected_got(ticked_list(rest) + " or "@ + ticked(tok), p.token),
                    p.line_number,
                ),
            )
        },
        None => Err(eof_error()),
    }
}

/// `Ok` when the token read is a quoted string.
pub open spec fn spec_expect_quoted(o: Option<LineTokenView>) -> Result<(), TextParseView> {
    match o {
        Some(p) => if p.token is QuotedString {
            Ok(())
        } else {
            Err(parser_error(expected_got("quoted"@, p.token), p.line_number))
        },
        None => Err(eof_error()),
    }
}

/// The number text of the token read: a bare string that Rust reads as an
/// `f64`.
pub open spec fn spec_expect_float(o: Option<LineTokenView>) -> Result<Seq<u8>, TextParseView> {
    match o {
        Some(p) => match p.token {
            TokenView::BareString(s) => if float_text(s) {
                Ok(s)
            } else {
                Err(parser_error(expected_got("number"@, p.token), p.line_number))
            },
            _ => Err(parser_error(expected_got("number"@, p.token), p.line_number)),
        },
        None => Err(eof_error()),
    }
}

/// The integer of the token read: a bare string that Rust reads as an
/// `i32`.
pub open spec fn spec_expect_int(o: Option<LineTokenView>) -> Result<i32, TextParseView> {
    match o {
        Some(p) => match p.token {
            TokenView::BareString(s) => match int_value(s) {
                Some(v) => Ok(v),
                None => Err(parser_error(expected_got("integer"@, p.token), p.line_number)),
            },
            _ => Err(parser_error(expected_got("integer"@, p.token), p.line_number)),
        },
        None => Err(eof_error()),
    }
}

/// Builds the message `Expected <what>, got `<token>``.
fn expected_got_message(what: String, got: &Token) -> (m: String)
    ensures
        m@ == expected_got(what@, got@),
{
    let mut m = String::from_str("Expected ");
    m.append(what.as_str());
    m.append(", got `");
    let t = got.to_string_fast();
    m.append(t.as_str());
    push_char(&mut m, '`');
    m
}

/// Builds `tok` between backquotes.
fn ticked_message(tok: &Token) -> (m: String)
    ensures
        m@ == ticked(tok@),
{
    let mut m = String::new();
    push_char(&mut m, '`');
    let t = tok.to_string_fast();
    m.append(t.as_str());
    push_char(&mut m, '`');
    assert(m@ =~= ticked(tok@));
    m
}

fn expect_token(line_token: &Option<LineToken>, token: Token) -> (r: Result<(), TextParse>)
    requires
        line_token matches Some(t) ==> t.line_number >= 1,
    ensures
        match spec_expect_token(opt_token_view(*line_token), token@) {
            Ok(_) => r is Ok,
            Err(e) => r matches Err(re) && re@ == e,
        },
{
    match line_token {
        Some(payload) => {
            if payload.token == token {
                Ok(())
            } else {
                let what = ticked_message(&token);
                Err(TextParse::from_parser(expected_got_message(what, &payload.token), payload.line_number))
            }
        },
        None => Err(TextParse::eof()),
    }
}

fn expect_token_or(line_token: &Option<LineToken>, token: Token, rest: &[u8]) -> (r: Result<(), TextParse>)
    requires
        line_token matches Some(t) ==> t.line_number >= 1,
    ensures
        match spec_expect_token_or(opt_token_view(*line_token), token@, rest@) {
            Ok(_) => r is Ok,
            Err(e) => r matches Err(re) && re@ == e,
        },
{
    match line_token {
        Some(payload) => {
            if payload.token == token {
                Ok(())
            } else {
                let mut what = String::new();
                let mut i: usize = 0;
                while i < rest.len()
                    invariant
                        i <= rest@.len(),
                        what@ == ticked_list(rest@.take(i as int)),
                    decreases rest.len() - i,
                {
                    if i > 0 {
                        push_char(&mut what, ',');
                        push_char(&mut what, ' ');
                    }
                    push_char(&mut what, '`');
                    push_char(&mut what, rest[i] as char);
                    push_char(&mut what, '`');
                    assert(rest@.take(i + 1).drop_last() =~= rest@.take(i as int));
                    assert(what@ =~= ticked_list(rest@.take(i + 1)));
                    i += 1;
                }
                assert(rest@.take(rest@.len() as int) =~= rest@);
                what.append(" or ");
                let t = ticked_message(&token);
                what.append(t.as_str());
                Err(TextParse::from_parser(expected_got_message(what, &payload.token), payload.line_number))
            }
        },
        None => Err(TextParse::eof()),
    }
}

fn expect_quoted(token: &Option<LineToken>) -> (r: Result<(), TextParse>)
    requires
        token matches Some(t) ==> t.line_number >= 1,
    ensures
        match spec_expect_quoted(opt_token_view(*token)) {
            Ok(_) => r is Ok,
            Err(e) => r matches Err(re) && re@ == e,
        },
{
    match token {
        Some(payload) => {
            if payload.is_quoted() {
                Ok(())
            } else {
                Err(
                    TextParse::from_parser(
                        expected_got_message(String::from_str("quoted"), &payload.token),
                        payload.line_number,
                    ),
                )
            }
        },
        None => Err(TextParse::eof()),
    }
}

/// The number text of the token read; it is a text that Rust reads as an
/// `f64`.
fn expect_float(token: &Option<LineToken>) -> (r: Result<Vec<u8>, TextParse>)
    requires
        token matches Some(t) ==> t.line_number >= 1,
    ensures
        match spec_expect_float(opt_token_view(*token)) {
            Ok(f) => r matches Ok(rf) && rf@ == f,
            Err(e) => r matches Err(re) && re@ == e,
        },
{
    match token {
        Some(payload) => {
            let ok = match &payload.token {
                Token::BareString(s) => is_float_text(s.as_slice()),
                _ => false,
            };
            if ok {
                match &payload.token {
                    Token::BareString(s) => Ok(copy_range(s, 0, s.len())),
                    _ => Err(TextParse::eof()),
                }
            } else {
                Err(
                    TextParse::from_parser(
                        expected_got_message(String::from_str("number"), &payload.token),
                        payload.line_number,
                    ),
                )
            }
        },
        None => Err(TextParse::eof()),
    }
}

fn expect_int(token: &Option<LineToken>) -> (r: Result<i32, TextParse>)
    requires
        token matches Some(t) ==> t.line_number >= 1,
    ensures
        match spec_expect_int(opt_token_view(*token)) {
            Ok(v) => r == Ok::<i32, TextParse>(v),
            Err(e) => r matches Err(re) && re@ == e,
        },
{
    match token {
        Some(payload) => {
            let v = match &payload.token {
                Token::BareString(s) => parse_i32(s.as_slice()),
                _ => None,
            };
            match v {
                Some(n) => Ok(n),
                None => Err(
                    TextParse::from_parser(
                        expected_got_message(String::from_str("integer"), &payload.token),
                        payload.line_number,
                    ),
                ),
            }
        },
        None => Err(TextParse::eof()),
    }
}

/// Reads the token `tok`; what follows it.
pub open spec fn token_step(s: Seq<LexItem>, tok: TokenView) -> Result<Seq<LexItem>, TextParseView> {
    match extract(s) {
        Ok((o, r)) => match spec_expect_token(o, tok) {
            Ok(_) => Ok(r),
            Err(e) => Err(e),
        },
        Err(e) => Err(e),
    }
}

/// Reads a number; its text and what follows it.
pub open spec fn float_step(s: Seq<LexItem>) -> Result<(Seq<u8>, Seq<LexItem>), TextParseView> {
    match extract(s) {
        Ok((o, r)) => match spec_expect_float(o) {
            Ok(f) => Ok((f, r)),
            Err(e) => Err(e),
        },
        Err(e) => Err(e),
    }
}

/// Reads an integer; its value and what follows it.
pub open spec fn int_step(s: Seq<LexItem>) -> Result<(i32, Seq<LexItem>), TextParseView> {
    match extract(s) {
        Ok((o, r)) => match spec_expect_int(o) {
            Ok(v) => Ok((v, r)),
            Err(e) => Err(e),
        },
        Err(e) => Err(e),
    }
}

/// `( x y z )`
#[verifier::opaque]
pub open spec fn spec_parse_point(s: Seq<LexItem>) -> Result<(PointView, Seq<LexItem>), TextParseView> {
    match token_step(s, TokenView::OpenParen) {
        Err(e) => Err(e),
        Ok(s1) => match float_step(s1) {
            Err(e) => Err(e),
            Ok((x, s2)) => match float_step(s2) {
                Err(e) => Err(e),
                Ok((y, s3)) => match float_step(s3) {
                    Err(e) => Err(e),
                    Ok((z, s4)) => match token_step(s4, TokenView::CloseParen) {
                        Err(e) => Err(e),
                        Ok(s5) => Ok((PointView { x, y, z }, s5)),
                    },
                },
            },
        },
    }
}

fn parse_point(tokens: &mut TokenPeekable) -> (r: Result<Point, TextParse>)
    requires
        old(tokens).wf(),
    ensures
        final(tokens).wf(),
        match spec_parse_point(old(tokens).items()) {
            Ok((v, rest)) => r matches Ok(rv) && rv@ == v && final(tokens).items() == rest,
            Err(e) => r matches Err(re) && re@ == e,
        },
{
    proof {
        reveal(spec_parse_point);
    }
    expect_token(&tokens.extract()?, Token::OpenParen)?;
    let x = expect_float(&tokens.extract()?)?;
    let y = expect_float(&tokens.extract()?)?;
    let z = expect_float(&tokens.extract()?)?;
    expect_token(&tokens.extract()?, Token::CloseParen)?;
    Ok(Point { x, y, z })
}

/// The numbers read so far, in order, with what follows them; or the first
/// error.
pub type Fields = Result<(Seq<Seq<u8>>, Seq<LexItem>), TextParseView>;

/// Nothing read yet from `s`.
pub open spec fn start_fields(s: Seq<LexItem>) -> Fields {
    Ok((Seq::empty(), s))
}

/// Then the token `tok`.
pub open spec fn then_token(r: Fields, tok: TokenView) -> Fields {
    match r {
        Ok((n, s)) => match token_step(s, tok) {
            Ok(s1) => Ok((n, s1)),
            Err(e) => Err(e),
        },
        Err(e) => Err(e),
    }
}

/// Then a number.
pub open spec fn then_number(r: Fields) -> Fields {
    match r {
        Ok((n, s)) => match float_step(s) {
            Ok((f, s1)) => Ok((n.push(f), s1)),
            Err(e) => Err(e),
        },
        Err(e) => Err(e),
    }
}

/// `offset_x offset_y rotation scale_x scale_y`
#[verifier::opaque]
pub open spec fn spec_parse_legacy_alignment(s: Seq<LexItem>) -> Result<(AlignmentView, Seq<LexItem>), TextParseView> {
    let r = start_fields(s);
    let r = then_number(r);
    let r = then_number(r);
    let r = then_number(r);
    let r = then_number(r);
    let r = then_number(r);
    match r {
        Ok((n, rest)) => Ok(
            (
                AlignmentView {
                    offset_x: n[0],
                    offset_y: n[1],
                    rotation: n[2],
                    scale_x: n[3],
                    scale_y: n[4],
                    axes: None,
                },
                rest,
            ),
        ),
        Err(e) => Err(e),
    }
}

/// `[ u_x u_y u_z offset_x ] [ v_x v_y v_z offset_y ] rotation scale_x scale_y`
#[verifier::opaque]
pub open spec fn spec_parse_valve_alignment(s: Seq<LexItem>) -> Result<(AlignmentView, Seq<LexItem>), TextParseView> {
    let r = start_fields(s);
    let r = then_token(r, TokenView::OpenSquare);
    let r = then_number(r);
    let r = then_number(r);
    let r = then_number(r);
    let r = then_number(r);
    let r = then_token(r, TokenView::CloseSquare);
    let r = then_token(r, TokenView::OpenSquare);
    let r = then_number(r);
    let r = then_number(r);
    let r = then_number(r);
    let r = then_number(r);
    let r = then_token(r, TokenView::CloseSquare);
    let r = then_number(r);
    let r = then_number(r);
    let r = then_number(r);
    match r {
        Ok((n, rest)) => Ok(
            (
                AlignmentView {
                    offset_x: n[3],
                    offset_y: n[7],
                    rotation: n[8],
                    scale_x: n[9],
                    scale_y: n[10],
                    axes: Some(
                        TextureAxesView {
                            u: PointView { x: n[0], y: n[1], z: n[2] },
                            v: PointView { x: n[4], y: n[5], z: n[6] },
                        },
                    ),
                },
                rest,
            ),
        ),
        Err(e) => Err(e),
    }
}

/// `content_flags surface_flags surface_value`
#[verifier::opaque]
pub open spec fn spec_parse_q2_ext(s: Seq<LexItem>) -> Result<(Quake2SurfaceExtensionView, Seq<LexItem>), TextParseView> {
    match int_step(s) {
        Err(e) => Err(e),
        Ok((content_flags, s1)) => match int_step(s1) {
            Err(e) => Err(e),
            Ok((surface_flags, s2)) => match float_step(s2) {
                Err(e) => Err(e),
                Ok((surface_value, s3)) => Ok(
                    (Quake2SurfaceExtensionView { content_flags, surface_flags, surface_value }, s3),
                ),
            },
        },
    }
}

/// The alignment that follows a texture name: Valve220 when it opens with
/// `[`, legacy otherwise.
pub open spec fn spec_parse_alignment(s: Seq<LexItem>) -> Result<(AlignmentView, Seq<LexItem>), TextParseView> {
    match peek(s) {
        Err(e) => Err(e),
        Ok(None) => Err(eof_error()),
        Ok(Some(t)) => if t.token == TokenView::OpenSquare {
            spec_parse_valve_alignment(s)
        } else {
            spec_parse_legacy_alignment(s)
        },
    }
}

/// The Quake 2 attributes that may follow an alignment: read when a bare
/// string follows, the defaults otherwise. The text may not end here.
pub open spec fn spec_parse_q2_opt(s: Seq<LexItem>) -> Result<(Quake2SurfaceExtensionView, Seq<LexItem>), TextParseView> {
    match peek(s) {
        Err(e) => Err(e),
        Ok(None) => Err(eof_error()),
        Ok(Some(t)) => if t.token is BareString {
            spec_parse_q2_ext(s)
        } else {
            Ok((default_q2ext(), s))
        },
    }
}

/// `point point point texture alignment q2ext?`
pub open spec fn spec_parse_surface(s: Seq<LexItem>) -> Result<(SurfaceView, Seq<LexItem>), TextParseView> {
    match spec_parse_point(s) {
        Err(e) => Err(e),
        Ok((p1, s1)) => match spec_parse_point(s1) {
            Err(e) => Err(e),
            Ok((p2, s2)) => match spec_parse_point(s2) {
                Err(e) => Err(e),
                Ok((p3, s3)) => match extract(s3) {
                    Err(e) => Err(e),
                    Ok((None, _)) => Err(eof_error()),
                    Ok((Some(tex), s4)) => match spec_parse_alignment(s4) {
                        Err(e) => Err(e),
                        Ok((alignment, s5)) => match spec_parse_q2_opt(s5) {
                            Err(e) => Err(e),
                            Ok((q2ext, s6)) => Ok(
                                (
                                    SurfaceView {
                                        half_space: (p1, p2, p3),
                                        texture: bare_bytes(tex.token),
                                        alignment,
                                        q2ext,
                                    },
                                    s6,
                                ),
                            ),
                        },
                    },
                },
            },
        },
    }
}

proof fn lemma_extract_len(s: Seq<LexItem>)
    ensures
        extract(s) matches Ok((o, r)) ==> r.len() <= s.len() && (o is Some ==> r.len() < s.len()),
{
}

proof fn lemma_point_shrinks(s: Seq<LexItem>)
    ensures
        spec_parse_point(s) matches Ok((_, r)) ==> r.len() < s.len(),
{
    reveal(spec_parse_point);
}

/// Reading on from a partial result never lengthens what follows.
proof fn lemma_then_len()
    ensures
        forall|r: Fields, tok: TokenView|
            #[trigger] then_token(r, tok) matches Ok((_, s1)) ==> (r matches Ok((_, s)) && s1.len()
                <= s.len()),
        forall|r: Fields|
            #[trigger] then_number(r) matches Ok((_, s1)) ==> (r matches Ok((_, s)) && s1.len()
                <= s.len()),
{
}

proof fn lemma_alignment_len(s: Seq<LexItem>)
    ensures
        spec_parse_alignment(s) matches Ok((_, r)) ==> r.len() <= s.len(),
{
    reveal(spec_parse_legacy_alignment);
    reveal(spec_parse_valve_alignment);
    lemma_then_len();
}

proof fn lemma_q2_opt_len(s: Seq<LexItem>)
    ensures
        spec_parse_q2_opt(s) matches Ok((_, r)) ==> r.len() <= s.len(),
{
    reveal(spec_parse_q2_ext);
}

pub proof fn lemma_surface_shrinks(s: Seq<LexItem>)
    ensures
        spec_parse_surface(s) matches Ok((_, r)) ==> r.len() < s.len(),
{
    lemma_point_shrinks(s);
    if let Ok((_, s1)) = spec_parse_point(s) {
        lemma_point_shrinks(s1);
        if let Ok((_, s2)) = spec_parse_point(s1) {
            lemma_point_shrinks(s2);
            if let Ok((_, s3)) = spec_parse_point(s2) {
                lemma_extract_len(s3);
                if let Ok((Some(_), s4)) = extract(s3) {
                    lemma_alignment_len(s4);
                    if let Ok((_, s5)) = spec_parse_alignment(s4) {
                        lemma_q2_opt_len(s5);
                    }
                }
            }
        }
    }
}

fn parse_legacy_alignment(tokens: &mut TokenPeekable) -> (r: Result<Alignment, TextParse>)
    requires
        old(tokens).wf(),
    ensures
        final(tokens).wf(),
        match spec_parse_legacy_alignment(old(tokens).items()) {
            Ok((v, rest)) => r matches Ok(rv) && rv@ == v && final(tokens).items() == rest,
            Err(e) => r matches Err(re) && re@ == e,
        },
{
    proof {
        reveal(spec_parse_legacy_alignment);
    }
    let offset_x = expect_float(&tokens.extract()?)?;
    let offset_y = expect_float(&tokens.extract()?)?;
    let rotation = expect_float(&tokens.extract()?)?;
    let scale_x = expect_float(&tokens.extract()?)?;
    let scale_y = expect_float(&tokens.extract()?)?;
    Ok(Alignment { offset_x, offset_y, rotation, scale_x, scale_y, axes: None })
}

fn parse_q2_ext(tokens: &mut TokenPeekable) -> (r: Result<Quake2SurfaceExtension, TextParse>)
    requires
        old(tokens).wf(),
    ensures
        final(tokens).wf(),
        match spec_parse_q2_ext(old(tokens).items()) {
            Ok((v, rest)) => r matches Ok(rv) && rv@ == v && final(tokens).items() == rest,
            Err(e) => r matches Err(re) && re@ == e,
        },
{
    proof {
        reveal(spec_parse_q2_ext);
    }
    let content_flags = expect_int(&tokens.extract()?)?;
    let surface_flags = expect_int(&tokens.extract()?)?;
    let surface_value = expect_float(&tokens.extract()?)?;
    Ok(Quake2SurfaceExtension { content_flags, surface_flags, surface_value })
}

fn parse_valve_alignment(tokens: &mut TokenPeekable) -> (r: Result<Alignment, TextParse>)
    requires
        old(tokens).wf(),
    ensures
        final(tokens).wf(),
        match spec_parse_valve_alignment(old(tokens).items()) {
            Ok((v, rest)) => r matches Ok(rv) && rv@ == v && final(tokens).items() == rest,
            Err(e) => r matches Err(re) && re@ == e,
        },
{
    proof {
        reveal(spec_parse_valve_alignment);
    }
    expect_token(&tokens.extract()?, Token::OpenSquare)?;
    let u_x = expect_float(&tokens.extract()?)?;
    let u_y = expect_float(&tokens.extract()?)?;
    let u_z = expect_float(&tokens.extract()?)?;
    let offset_x = expect_float(&tokens.extract()?)?;
    expect_token(&tokens.extract()?, Token::CloseSquare)?;

    expect_token(&tokens.extract()?, Token::OpenSquare)?;
    let v_x = expect_float(&tokens.extract()?)?;
    let v_y = expect_float(&tokens.extract()?)?;
    let v_z = expect_float(&tokens.extract()?)?;
    let offset_y = expect_float(&tokens.extract()?)?;
    expect_token(&tokens.extract()?, Token::CloseSquare)?;

    let rotation = expect_float(&tokens.extract()?)?;
    let scale_x = expect_float(&tokens.extract()?)?;
    let scale_y = expect_float(&tokens.extract()?)?;

    Ok(Alignment {
        offset_x,
        offset_y,
        rotation,
        scale_x,
        scale_y,
        axes: Some(TextureAxes { u: Point { x: u_x, y: u_y, z: u_z }, v: Point { x: v_x, y: v_y, z: v_z } }),
    })
}

fn parse_surface(tokens: &mut TokenPeekable) -> (r: Result<Surface, TextParse>)
    requires
        old(tokens).wf(),
    ensures
        final(tokens).wf(),
        match spec_parse_surface(old(tokens).items()) {
            Ok((v, rest)) => r matches Ok(rv) && rv@ == v && final(tokens).items() == rest,
            Err(e) => r matches Err(re) && re@ == e,
        },
{
    let pt1 = parse_point(tokens)?;
    let pt2 = parse_point(tokens)?;
    let pt3 = parse_point(tokens)?;

    let half_space = (pt1, pt2, pt3);

    let texture_token = match tokens.extract()? {
        Some(t) => t,
        None => {
            return Err(TextParse::eof());
        },
    };

    let texture = texture_token.into_bare_cstring();

    let valve = match tokens.peek_token()? {
        Some(t) => match &t.token {
            Token::OpenSquare => true,
            _ => false,
        },
        None => {
            return Err(TextParse::eof());
        },
    };
    let alignment = if valve {
        parse_valve_alignment(tokens)?
    } else {
        parse_legacy_alignment(tokens)?
    };

    let bare = match tokens.peek_token()? {
        Some(t) => match &t.token {
            Token::BareString(_) => true,
            _ => false,
        },
        None => {
            return Err(TextParse::eof());
        },
    };
    let q2ext = if bare {
        parse_q2_ext(tokens)?
    } else {
        Quake2SurfaceExtension::default()
    };

    Ok(Surface { half_space, texture, alignment, q2ext })
}

/// The surfaces of a brush: one for each `(` that opens one.
pub open spec fn spec_parse_surfaces(s: Seq<LexItem>) -> Result<(Seq<SurfaceView>, Seq<LexItem>), TextParseView>
    decreases s.len(),
{
    match peek(s) {
        Err(e) => Err(e),
        Ok(Some(t)) => if t.token == TokenView::OpenParen {
            match spec_parse_surface(s) {
                Err(e) => Err(e),
                Ok((surface, s1)) => {
                    proof {
                        lemma_surface_shrinks(s);
                    }
                    match spec_parse_surfaces(s1) {
                        Err(e) => Err(e),
                        Ok((rest, s2)) => Ok((seq![surface] + rest, s2)),
                    }
                },
            }
        } else {
            Ok((Seq::empty(), s))
        },
        Ok(None) => Ok((Seq::empty(), s)),
    }
}

/// `{ surface* }`
pub open spec fn spec_parse_brush(s: Seq<LexItem>) -> Result<(Seq<SurfaceView>, Seq<LexItem>), TextParseView> {
    match token_step(s, TokenView::OpenCurly) {
        Err(e) => Err(e),
        Ok(s1) => match spec_parse_surfaces(s1) {
            Err(e) => Err(e),
            Ok((surfaces, s2)) => match extract(s2) {
                Err(e) => Err(e),
                Ok((o, s3)) => match spec_expect_token_or(o, TokenView::CloseCurly, seq![40u8]) {
                    Err(e) => Err(e),
                    Ok(_) => Ok((surfaces, s3)),
                },
            },
        },
    }
}

proof fn lemma_surfaces_len(s: Seq<LexItem>)
    ensures
        spec_parse_surfaces(s) matches Ok((_, r)) ==> r.len() <= s.len(),
    decreases s.len(),
{
    if let Ok(Some(t)) = peek(s) {
        if t.token == TokenView::OpenParen {
            lemma_surface_shrinks(s);
            if let Ok((_, s1)) = spec_parse_surface(s) {
                lemma_surfaces_len(s1);
            }
        }
    }
}

pub proof fn lemma_brush_shrinks(s: Seq<LexItem>)
    ensures
        spec_parse_brush(s) matches Ok((_, r)) ==> r.len() < s.len(),
{
    if let Ok(s1) = token_step(s, TokenView::OpenCurly) {
        lemma_surfaces_len(s1);
        if let Ok((_, s2)) = spec_parse_surfaces(s1) {
            lemma_extract_len(s2);
        }
    }
}

/// The brushes of an entity: one for each `{` that opens one.
pub open spec fn spec_parse_brushes(s: Seq<LexItem>) -> Result<(Seq<Seq<SurfaceView>>, Seq<LexItem>), TextParseView>
    decreases s.len(),
{
    match peek(s) {
        Err(e) => Err(e),
        Ok(Some(t)) => if t.token == TokenView::OpenCurly {
            match spec_parse_brush(s) {
                Err(e) => Err(e),
                Ok((brush, s1)) => {
                    proof {
                        lemma_brush_shrinks(s);
                    }
                    match spec_parse_brushes(s1) {
                        Err(e) => Err(e),
                        Ok((rest, s2)) => Ok((seq![brush] + rest, s2)),
                    }
                },
            }
        } else {
            Ok((Seq::empty(), s))
        },
        Ok(None) => Ok((Seq::empty(), s)),
    }
}

/// The key-value pairs of an entity: a pair for each quoted string that
/// stands next, which must be followed by a quoted value.
pub open spec fn spec_parse_edict(s: Seq<LexItem>) -> Result<(Seq<(Seq<u8>, Seq<u8>)>, Seq<LexItem>), TextParseView>
    decreases s.len(),
{
    match peek(s) {
        Err(e) => Err(e),
        Ok(Some(t)) => if t.token is QuotedString {
            let s1 = s.drop_first();
            match extract(s1) {
                Err(e) => Err(e),
                Ok((v, s2)) => match spec_expect_quoted(v) {
                    Err(e) => Err(e),
                    Ok(_) => match spec_parse_edict(s2) {
                        Err(e) => Err(e),
                        Ok((rest, s3)) => Ok(
                            (seq![(bare_bytes(t.token), bare_bytes(v.unwrap().token))] + rest, s3),
                        ),
                    },
                },
            }
        } else {
            Ok((Seq::empty(), s))
        },
        Ok(None) => Ok((Seq::empty(), s)),
    }
}

proof fn lemma_edict_len(s: Seq<LexItem>)
    ensures
        spec_parse_edict(s) matches Ok((_, r)) ==> r.len() <= s.len(),
    decreases s.len(),
{
    if let Ok(Some(t)) = peek(s) {
        if t.token is QuotedString {
            lemma_extract_len(s.drop_first());
            if let Ok((_, s2)) = extract(s.drop_first()) {
                lemma_edict_len(s2);
            }
        }
    }
}

proof fn lemma_brushes_len(s: Seq<LexItem>)
    ensures
        spec_parse_brushes(s) matches Ok((_, r)) ==> r.len() <= s.len(),
    decreases s.len(),
{
    if let Ok(Some(t)) = peek(s) {
        if t.token == TokenView::OpenCurly {
            lemma_brush_shrinks(s);
            if let Ok((_, s1)) = spec_parse_brush(s) {
                lemma_brushes_len(s1);
            }
        }
    }
}

/// `{ pair* brush* }`
pub open spec fn spec_parse_entity(s: Seq<LexItem>) -> Result<(EntityView, Seq<LexItem>), TextParseView> {
    match token_step(s, TokenView::OpenCurly) {
        Err(e) => Err(e),
        Ok(s1) => match spec_parse_edict(s1) {
            Err(e) => Err(e),
            Ok((edict, s2)) => match spec_parse_brushes(s2) {
                Err(e) => Err(e),
                Ok((brushes, s3)) => match token_step(s3, TokenView::CloseCurly) {
                    Err(e) => Err(e),
                    Ok(s4) => Ok((EntityView { edict, brushes }, s4)),
                },
            },
        },
    }
}

pub proof fn lemma_entity_shrinks(s: Seq<LexItem>)
    ensures
        spec_parse_entity(s) matches Ok((_, r)) ==> r.len() < s.len(),
{
    if let Ok(s1) = token_step(s, TokenView::OpenCurly) {
        lemma_edict_len(s1);
        if let Ok((_, s2)) = spec_parse_edict(s1) {
            lemma_brushes_len(s2);
        }
    }
}

/// Entities, one after another, up to the end of the items.
pub open spec fn spec_parse_entities(s: Seq<LexItem>) -> Result<Seq<EntityView>, TextParseView>
    decreases s.len(),
{
    if s.len() == 0 {
        Ok(Seq::empty())
    } else {
        match spec_parse_entity(s) {
            Err(e) => Err(e),
            Ok((entity, s1)) => {
                proof {
                    lemma_entity_shrinks(s);
                }
                match spec_parse_entities(s1) {
                    Err(e) => Err(e),
                    Ok(rest) => Ok(seq![entity] + rest),
                }
            },
        }
    }
}

/// The map that the items `s` stand for, or the first error met reading it.
pub open spec fn spec_parse_items(s: Seq<LexItem>) -> Result<QuakeMapView, TextParseView> {
    match spec_parse_entities(s) {
        Ok(entities) => Ok(QuakeMapView { entities }),
        Err(e) => Err(e),
    }
}

/// The map that the text `input` stands for, or the first error met
/// reading it.
pub open spec fn spec_parse(input: Seq<u8>) -> Result<QuakeMapView, TextParseView> {
    spec_parse_items(lex(input))
}

/// Mathematical value of a parse result.
pub open spec fn parse_result_view(r: Result<QuakeMap, TextParse>) -> Result<QuakeMapView, TextParseView> {
    match r {
        Ok(m) => Ok(m@),
        Err(e) => Err(e@),
    }
}

/// Parses a Quake source map.
///
/// Maps must be in the Quake 1 or 2 format (Quake 3 `brushDef`s/`patchDef`s
/// are not supported) but may have texture alignment in either the Valve220
/// format or the legacy one (without texture axes).
pub fn parse(input: Vec<u8>) -> (r: Result<QuakeMap, TextParse>)
    ensures
        parse_result_view(r) == spec_parse(input@),
{
    let mut entities: Vec<Entity> = Vec::new();
    let mut peekable_tokens = TokenPeekable::new(TokenIterator::new(input));
    let ghost s0 = peekable_tokens.items();

    while peekable_tokens.has_next()
        invariant
            peekable_tokens.wf(),
            s0 == lex(input@),
            spec_parse_entities(s0) == match spec_parse_entities(peekable_tokens.items()) {
                Ok(rest) => Ok(entities@.map_values(|e: Entity| e@) + rest),
                Err(e) => Err(e),
            },
        decreases peekable_tokens.items().len(),
    {
        let ghost before = peekable_tokens.items();
        let ghost prev = entities@.map_values(|e: Entity| e@);
        proof {
            lemma_entity_shrinks(before);
        }
        let entity = parse_entity(&mut peekable_tokens)?;
        entities.push(entity);
        proof {
            assert(entities@.map_values(|e: Entity| e@) =~= prev.push(entity@));
            match spec_parse_entities(peekable_tokens.items()) {
                Ok(rest) => {
                    assert(prev + (seq![entity@] + rest) =~= prev.push(entity@) + rest);
                },
                Err(_) => {},
            }
        }
    }
    assert(entities@.map_values(|e: Entity| e@) + Seq::<EntityView>::empty() =~= entities@.map_values(
        |e: Entity| e@,
    ));
    Ok(QuakeMap { entities })
}

fn parse_entity(tokens: &mut TokenPeekable) -> (r: Result<Entity, TextParse>)
    requires
        old(tokens).wf(),
    ensures
        final(tokens).wf(),
        match spec_parse_entity(old(tokens).items()) {
            Ok((v, rest)) => r matches Ok(rv) && rv@ == v && final(tokens).items() == rest,
            Err(e) => r matches Err(re) && re@ == e,
        },
{
    expect_token(&tokens.extract()?, Token::OpenCurly)?;

    let edict = parse_edict(tokens)?;
    let brushes = parse_brushes(tokens)?;

    expect_token(&tokens.extract()?, Token::CloseCurly)?;

    Ok(Entity { edict, brushes })
}

fn parse_edict(tokens: &mut TokenPeekable) -> (r: Result<Edict, TextParse>)
    requires
        old(tokens).wf(),
    ensures
        final(tokens).wf(),
        match spec_parse_edict(old(tokens).items()) {
            Ok((v, rest)) => r matches Ok(rv) && edict_view(rv) == v && final(tokens).items() == rest,
            Err(e) => r matches Err(re) && re@ == e,
        },
{
    let mut edict: Edict = Vec::new();
    let ghost s0 = tokens.items();

    loop
        invariant
            tokens.wf(),
            s0 == old(tokens).items(),
            spec_parse_edict(s0) == match spec_parse_edict(tokens.items()) {
                Ok((rest, r)) => Ok((edict_view(edict) + rest, r)),
                Err(e) => Err(e),
            },
        ensures
            tokens.wf(),
            spec_parse_edict(s0) == Ok::<(Seq<(Seq<u8>, Seq<u8>)>, Seq<LexItem>), TextParseView>(
                (edict_view(edict), tokens.items()),
            ),
        decreases tokens.items().len(),
    {
        let ghost prev = edict_view(edict);
        let quoted = match tokens.peek_token()? {
            Some(t) => t.is_quoted(),
            None => false,
        };
        if !quoted {
            assert(edict_view(edict) + Seq::<(Seq<u8>, Seq<u8>)>::empty() =~= edict_view(edict));
            break;
        }
        let key_token = tokens.extract()?;
        let key = key_token.unwrap().into_bare_cstring();
        let maybe_value = tokens.extract()?;
        expect_quoted(&maybe_value)?;
        let value = maybe_value.unwrap().into_bare_cstring();
        let ghost pair = (key@, value@);
        edict.push((key, value));
        proof {
            assert(edict_view(edict) =~= prev.push(pair));
            match spec_parse_edict(tokens.items()) {
                Ok((rest, r)) => {
                    assert(prev + (seq![pair] + rest) =~= prev.push(pair) + rest);
                },
                Err(_) => {},
            }
        }
    }
    Ok(edict)
}

fn parse_brushes(tokens: &mut TokenPeekable) -> (r: Result<Vec<Brush>, TextParse>)
    requires
        old(tokens).wf(),
    ensures
        final(tokens).wf(),
        match spec_parse_brushes(old(tokens).items()) {
            Ok((v, rest)) => r matches Ok(rv) && brushes_view(rv) == v && final(tokens).items() == rest,
            Err(e) => r matches Err(re) && re@ == e,
        },
{
    let mut brushes: Vec<Brush> = Vec::new();
    let ghost s0 = tokens.items();

    loop
        invariant
            tokens.wf(),
            s0 == old(tokens).items(),
            spec_parse_brushes(s0) == match spec_parse_brushes(tokens.items()) {
                Ok((rest, r)) => Ok((brushes_view(brushes) + rest, r)),
                Err(e) => Err(e),
            },
        ensures
            tokens.wf(),
            spec_parse_brushes(s0) == Ok::<(Seq<Seq<SurfaceView>>, Seq<LexItem>), TextParseView>(
                (brushes_view(brushes), tokens.items()),
            ),
        decreases tokens.items().len(),
    {
        let ghost before = tokens.items();
        let ghost prev = brushes_view(brushes);
        let curly = match tokens.peek_token()? {
            Some(t) => match &t.token {
                Token::OpenCurly => true,
                _ => false,
            },
            None => false,
        };
        if !curly {
            assert(brushes_view(brushes) + Seq::<Seq<SurfaceView>>::empty() =~= brushes_view(brushes));
            break;
        }
        proof {
            lemma_brush_shrinks(before);
        }
        let brush = parse_brush(tokens)?;
        let ghost bv = brush_view(brush);
        brushes.push(brush);
        proof {
            assert(brushes_view(brushes) =~= prev.push(bv));
            match spec_parse_brushes(tokens.items()) {
                Ok((rest, r)) => {
                    assert(prev + (seq![bv] + rest) =~= prev.push(bv) + rest);
                },
                Err(_) => {},
            }
        }
    }
    Ok(brushes)
}

/// Fewest surfaces that a closed brush has.
const MIN_BRUSH_SURFACES: usize = 4;

fn parse_brush(tokens: &mut TokenPeekable) -> (r: Result<Brush, TextParse>)
    requires
        old(tokens).wf(),
    ensures
        final(tokens).wf(),
        match spec_parse_brush(old(tokens).items()) {
            Ok((v, rest)) => r matches Ok(rv) && brush_view(rv) == v && final(tokens).items() == rest,
            Err(e) => r matches Err(re) && re@ == e,
        },
{
    let mut surfaces: Brush = Vec::with_capacity(MIN_BRUSH_SURFACES);
    expect_token(&tokens.extract()?, Token::OpenCurly)?;
    let ghost s1 = tokens.items();

    loop
        invariant
            tokens.wf(),
            token_step(old(tokens).items(), TokenView::OpenCurly) == Ok::<Seq<LexItem>, TextParseView>(s1),
            spec_parse_surfaces(s1) == match spec_parse_surfaces(tokens.items()) {
                Ok((rest, r)) => Ok((brush_view(surfaces) + rest, r)),
                Err(e) => Err(e),
            },
        ensures
            tokens.wf(),
            token_step(old(tokens).items(), TokenView::OpenCurly) == Ok::<Seq<LexItem>, TextParseView>(s1),
            spec_parse_surfaces(s1) == Ok::<(Seq<SurfaceView>, Seq<LexItem>), TextParseView>(
                (brush_view(surfaces), tokens.items()),
            ),
        decreases tokens.items().len(),
    {
        let ghost before = tokens.items();
        let ghost prev = brush_view(surfaces);
        let paren = match tokens.peek_token()? {
            Some(t) => match &t.token {
                Token::OpenParen => true,
                _ => false,
            },
            None => false,
        };
        if !paren {
            assert(brush_view(surfaces) + Seq::<SurfaceView>::empty() =~= brush_view(surfaces));
            break;
        }
        proof {
            lemma_surface_shrinks(before);
        }
        let surface = parse_surface(tokens)?;
        let ghost sv = surface@;
        surfaces.push(surface);
        proof {
            assert(brush_view(surfaces) =~= prev.push(sv));
            match spec_parse_surfaces(tokens.items()) {
                Ok((rest, r)) => {
                    assert(prev + (seq![sv] + rest) =~= prev.push(sv) + rest);
                },
                Err(_) => {},
            }
        }
    }

    let open_paren: [u8; 1] = [40];
    assert(open_paren@ =~= seq![40u8]);
    expect_token_or(&tokens.extract()?, Token::CloseCurly, open_paren.as_slice())?;
    Ok(surfaces)
}

} // verus!
