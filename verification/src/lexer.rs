//! Splitting map text into tokens.
//!
//! The tokeniser is a small state machine fed one byte at a time. Its whole
//! behaviour on a byte string is the spec function [`lex_items`], which the
//! executable [`TokenIterator`] is proved to follow item by item.

use vstd::prelude::*;
use crate::error::{lexer_error, TextParse, TextParseView};
use crate::text::{decimal, push_char, push_decimal};
use vstd::utf8::valid_utf8;
use crate::lex_laws::{law_state_strong_kept, state_strong};

verus! {

/// Bytes buffered for a token before it is known to be complete.
const TEXT_CAPACITY: usize = 32;

/// A token of the map text. String payloads hold no zero byte.
#[derive(Debug, Clone)]
pub enum Token {
    OpenParen,
    CloseParen,
    OpenCurly,
    CloseCurly,
    OpenSquare,
    CloseSquare,
    /// A `"`-delimited string, without its quotes.
    QuotedString(Vec<u8>),
    /// Any other run of bytes.
    BareString(Vec<u8>),
}

/// Mathematical value of a [`Token`].
pub enum TokenView {
    OpenParen,
    CloseParen,
    OpenCurly,
    CloseCurly,
    OpenSquare,
    CloseSquare,
    QuotedString(Seq<u8>),
    BareString(Seq<u8>),
}

impl View for Token {
    type V = TokenView;

    open spec fn view(&self) -> TokenView {
        match self {
            Token::OpenParen => TokenView::OpenParen,
            Token::CloseParen => TokenView::CloseParen,
            Token::OpenCurly => TokenView::OpenCurly,
            Token::CloseCurly => TokenView::CloseCurly,
            Token::OpenSquare => TokenView::OpenSquare,
            Token::CloseSquare => TokenView::CloseSquare,
            Token::QuotedString(s) => TokenView::QuotedString(s@),
            Token::BareString(s) => TokenView::BareString(s@),
        }
    }
}

/// Each byte read as the character of the same number (Latin-1).
pub open spec fn latin1(s: Seq<u8>) -> Seq<char> {
    Seq::new(s.len(), |i: int| s[i] as char)
}

/// How a token is shown in messages: punctuation as itself, a quoted string
/// between `"`s, a bare string as its bytes.
pub open spec fn token_text(t: TokenView) -> Seq<char> {
    match t {
        TokenView::OpenParen => seq!['('],
        TokenView::CloseParen => seq![')'],
        TokenView::OpenCurly => seq!['{'],
        TokenView::CloseCurly => seq!['}'],
        TokenView::OpenSquare => seq!['['],
        TokenView::CloseSquare => seq![']'],
        TokenView::QuotedString(s) => seq!['"'] + latin1(s) + seq!['"'],
        TokenView::BareString(s) => latin1(s),
    }
}

/// The token that the complete text `text` stands for: a single bracket byte
/// is that bracket, text of two or more bytes between `"`s is a quoted string,
/// anything else is a bare string.
pub open spec fn text_token(text: Seq<u8>) -> TokenView {
    if text.len() == 1 {
        let b = text[0];
        if b == 40 {
            TokenView::OpenParen
        } else if b == 41 {
            TokenView::CloseParen
        } else if b == 123 {
            TokenView::OpenCurly
        } else if b == 125 {
            TokenView::CloseCurly
        } else if b == 91 {
            TokenView::OpenSquare
        } else if b == 93 {
            TokenView::CloseSquare
        } else {
            TokenView::BareString(text)
        }
    } else if text.len() >= 2 && text[0] == 34 && text.last() == 34 {
        TokenView::QuotedString(text.subrange(1, text.len() - 1))
    } else {
        TokenView::BareString(text)
    }
}

/// The bytes that a token contributes as a key, value or texture name: the
/// payload of a string token, nothing for punctuation.
pub open spec fn bare_bytes(t: TokenView) -> Seq<u8> {
    match t {
        TokenView::QuotedString(s) => s,
        TokenView::BareString(s) => s,
        _ => Seq::empty(),
    }
}

/// The text a token offers as a number: the bytes of a bare string that are
/// valid UTF-8, and nothing otherwise.
pub open spec fn number_bytes(t: TokenView) -> Seq<u8> {
    match t {
        TokenView::BareString(s) => if valid_utf8(s) {
            s
        } else {
            Seq::empty()
        },
        _ => Seq::empty(),
    }
}

/// Whether `bytes` is valid UTF-8.
///
/// Trusted: calls `std::str::from_utf8`, which std documents as returning
/// `Ok` exactly when the bytes are valid UTF-8.
#[verifier::external_body]
fn is_utf8(bytes: &[u8]) -> (r: bool)
    ensures
        r == valid_utf8(bytes@),
{
    std::str::from_utf8(bytes).is_ok()
}

impl Token {
    /// The bytes of a bare string that is valid UTF-8; no bytes for any other
    /// token.
    pub fn as_number_text(&self) -> (s: Vec<u8>)
        ensures
            s@ == number_bytes(self@),
    {
        match self {
            Token::BareString(b) => if is_utf8(b.as_slice()) {
                copy_range(b, 0, b.len())
            } else {
                Vec::new()
            },
            _ => Vec::new(),
        }
    }

    /// Renders the token as it is shown in messages.
    pub fn to_string_fast(&self) -> (s: String)
        ensures
            s@ == token_text(self@),
    {
        match self {
            Token::OpenParen => {
                proof {
                    reveal_strlit("(");
                }
                let s = String::from_str("(");
                assert(s@ =~= token_text(self@));
                s
            },
            Token::CloseParen => {
                proof {
                    reveal_strlit(")");
                }
                let s = String::from_str(")");
                assert(s@ =~= token_text(self@));
                s
            },
            Token::OpenCurly => {
                proof {
                    reveal_strlit("{");
                }
                let s = String::from_str("{");
                assert(s@ =~= token_text(self@));
                s
            },
            Token::CloseCurly => {
                proof {
                    reveal_strlit("}");
                }
                let s = String::from_str("}");
                assert(s@ =~= token_text(self@));
                s
            },
            Token::OpenSquare => {
                proof {
                    reveal_strlit("[");
                }
                let s = String::from_str("[");
                assert(s@ =~= token_text(self@));
                s
            },
            Token::CloseSquare => {
                proof {
                    reveal_strlit("]");
                }
                let s = String::from_str("]");
                assert(s@ =~= token_text(self@));
                s
            },
            Token::QuotedString(b) => {
                let mut s = String::new();
                push_char(&mut s, '"');
                push_latin1(&mut s, b);
                push_char(&mut s, '"');
                assert(s@ =~= token_text(self@));
                s
            },
            Token::BareString(b) => {
                let mut s = String::new();
                push_latin1(&mut s, b);
                assert(s@ =~= token_text(self@));
                s
            },
        }
    }

    /// Whether two tokens are the same (the comparison the parser makes).
    pub fn same_as(&self, other: &Token) -> (r: bool)
        ensures
            r == (self@ == other@),
    {
        match (self, other) {
            (Token::OpenParen, Token::OpenParen) => true,
            (Token::CloseParen, Token::CloseParen) => true,
            (Token::OpenCurly, Token::OpenCurly) => true,
            (Token::CloseCurly, Token::CloseCurly) => true,
            (Token::OpenSquare, Token::OpenSquare) => true,
            (Token::CloseSquare, Token::CloseSquare) => true,
            (Token::QuotedString(a), Token::QuotedString(b)) => bytes_eq(a, b),
            (Token::BareString(a), Token::BareString(b)) => bytes_eq(a, b),
            _ => false,
        }
    }
}

impl PartialEq for Token {
    fn eq(&self, other: &Token) -> (r: bool) {
        self.same_as(other)
    }
}

impl vstd::std_specs::cmp::PartialEqSpecImpl for Token {
    open spec fn obeys_eq_spec() -> bool {
        true
    }

    open spec fn eq_spec(&self, other: &Token) -> bool {
        self@ == other@
    }
}

impl Eq for Token {
}

impl PartialEq for LineToken {
    fn eq(&self, other: &LineToken) -> (r: bool) {
        self.token.same_as(&other.token) && self.line_number == other.line_number
    }
}

impl vstd::std_specs::cmp::PartialEqSpecImpl for LineToken {
    open spec fn obeys_eq_spec() -> bool {
        true
    }

    open spec fn eq_spec(&self, other: &LineToken) -> bool {
        self@ == other@
    }
}

impl Eq for LineToken {
}

/// Appends each byte of `b` to `s` as its Latin-1 character.
pub fn push_latin1(s: &mut String, b: &Vec<u8>)
    ensures
        final(s)@ == old(s)@ + latin1(b@),
{
    let mut i: usize = 0;
    while i < b.len()
        invariant
            i <= b.len(),
            s@ == old(s)@ + latin1(b@.take(i as int)),
        decreases b.len() - i,
    {
        push_char(s, b[i] as char);
        assert(latin1(b@.take(i + 1)) =~= latin1(b@.take(i as int)).push(b@[i as int] as char));
        i += 1;
    }
    assert(b@.take(b.len() as int) =~= b@);
}

/// Whether two byte vectors hold the same bytes.
pub fn bytes_eq(a: &Vec<u8>, b: &Vec<u8>) -> (r: bool)
    ensures
        r == (a@ == b@),
{
    if a.len() != b.len() {
        return false;
    }
    let mut i: usize = 0;
    while i < a.len()
        invariant
            i <= a.len(),
            a.len() == b.len(),
            a@.take(i as int) == b@.take(i as int),
        decreases a.len() - i,
    {
        if a[i] != b[i] {
            assert(a@[i as int] != b@[i as int]);
            return false;
        }
        assert(a@.take(i + 1) =~= a@.take(i as int).push(a@[i as int]));
        assert(b@.take(i + 1) =~= b@.take(i as int).push(b@[i as int]));
        i += 1;
    }
    assert(a@ =~= a@.take(a.len() as int));
    assert(b@ =~= b@.take(b.len() as int));
    true
}

/// A token with the (1-based) line it ends on.
#[derive(Debug, Clone)]
pub struct LineToken {
    pub token: Token,
    pub line_number: u64,
}

/// Mathematical value of a [`LineToken`].
pub struct LineTokenView {
    pub token: TokenView,
    pub line_number: u64,
}

impl View for LineToken {
    type V = LineTokenView;

    open spec fn view(&self) -> LineTokenView {
        LineTokenView { token: self.token@, line_number: self.line_number }
    }
}

/// How a line token is shown: `<token>: line <n>`.
pub open spec fn line_token_text(t: LineTokenView) -> Seq<char> {
    token_text(t.token) + ": line "@ + decimal(t.line_number as nat)
}

impl LineToken {
    /// The token that the complete text `text` stands for, on line
    /// `line_number`.
    pub fn from_text(text: Vec<u8>, line_number: u64) -> (t: LineToken)
        ensures
            t@ == (LineTokenView { token: text_token(text@), line_number }),
    {
        let token = if text.len() == 1 {
            let b = text[0];
            if b == 40 {
                Token::OpenParen
            } else if b == 41 {
                Token::CloseParen
            } else if b == 123 {
                Token::OpenCurly
            } else if b == 125 {
                Token::CloseCurly
            } else if b == 91 {
                Token::OpenSquare
            } else if b == 93 {
                Token::CloseSquare
            } else {
                Token::BareString(text)
            }
        } else if text.len() >= 2 && text[0] == 34 && text[text.len() - 1] == 34 {
            Token::QuotedString(copy_range(&text, 1, text.len() - 1))
        } else {
            Token::BareString(text)
        };
        LineToken { token, line_number }
    }

    /// The payload bytes of a string token, or no bytes for punctuation.
    pub fn into_bare_cstring(self) -> (s: Vec<u8>)
        ensures
            s@ == bare_bytes(self.token@),
    {
        match self.token {
            Token::BareString(s) => s,
            Token::QuotedString(s) => s,
            _ => Vec::new(),
        }
    }

    pub fn is_quoted(&self) -> (r: bool)
        ensures
            r == (self.token@ is QuotedString),
    {
        match &self.token {
            Token::QuotedString(_) => true,
            _ => false,
        }
    }

    /// Renders the token with its line (what `Display` shows for it).
    pub fn to_string(&self) -> (s: String)
        ensures
            s@ == line_token_text(self@),
    {
        let mut s = self.token.to_string_fast();
        s.append(": line ");
        push_decimal(&mut s, self.line_number);
        s
    }
}

/// The bytes `v[from..to]` as a new vector.
pub fn copy_range(v: &Vec<u8>, from: usize, to: usize) -> (r: Vec<u8>)
    requires
        from <= to <= v.len(),
    ensures
        r@ == v@.subrange(from as int, to as int),
{
    let mut r: Vec<u8> = Vec::with_capacity(to - from);
    let mut i = from;
    while i < to
        invariant
            from <= i <= to <= v.len(),
            r@ == v@.subrange(from as int, i as int),
        decreases to - i,
    {
        r.push(v[i]);
        assert(v@.subrange(from as int, i + 1) =~= v@.subrange(from as int, i as int).push(v@[i as int]));
        i += 1;
    }
    r
}

/// The tokeniser's modes.
#[derive(Clone, Copy, Debug)]
pub enum LexMode {
    /// Between tokens.
    Default,
    /// Inside a `//` comment.
    Comment,
    /// After a `/` that may start a comment.
    MaybeComment,
    /// Inside a `"`-delimited string.
    Quoted,
    /// Inside a bare string.
    Unquoted,
}

/// Mathematical state of the tokeniser between two bytes.
pub struct LexState {
    pub mode: LexMode,
    /// Bytes of the token being read, if one has begun.
    pub text: Option<Seq<u8>>,
    /// The byte read last, if any.
    pub last_byte: Option<u8>,
    /// The line of the byte read next.
    pub line_number: u64,
}

/// An item the tokeniser yields: a token, or an error.
pub type LexItem = Result<LineTokenView, TextParseView>;

/// Mathematical value of an executable item.
pub open spec fn item_view(r: Result<LineToken, TextParse>) -> LexItem {
    match r {
        Ok(t) => Ok(t@),
        Err(e) => Err(e@),
    }
}

/// Mathematical value of an optional token.
pub open spec fn opt_token_view(r: Option<LineToken>) -> Option<LineTokenView> {
    match r {
        Some(t) => Some(t@),
        None => None,
    }
}

/// Space, tab, line feed, form feed and carriage return.
pub open spec fn is_space(b: u8) -> bool {
    b == 32 || b == 9 || b == 10 || b == 12 || b == 13
}

/// Whether `b` is ASCII whitespace (as `u8::is_ascii_whitespace` defines it).
pub fn is_ascii_whitespace(b: u8) -> (r: bool)
    ensures
        r == is_space(b),
{
    b == 32 || b == 9 || b == 10 || b == 12 || b == 13
}

/// The state before the first byte.
pub open spec fn initial_state() -> LexState {
    LexState { mode: LexMode::Default, text: None, last_byte: None, line_number: 1 }
}

/// The states the tokeniser can be in before a byte: a token is buffered
/// exactly in the string modes, and a buffered token is never empty.
pub open spec fn state_ok(st: LexState) -> bool {
    &&& st.line_number >= 1
    &&& (st.text matches Some(t) ==> t.len() > 0)
    &&& (st.mode is Quoted || st.mode is Unquoted) <==> st.text is Some
}

/// What the current mode does with byte `b` (nonzero): the next state, and
/// the token completed by `b`, on the current line.
pub open spec fn mode_step(st: LexState, b: u8) -> (LexState, Option<LineTokenView>) {
    match st.mode {
        LexMode::Default => if is_space(b) {
            (st, None)
        } else if b == 34 {
            (LexState { mode: LexMode::Quoted, text: Some(seq![b]), ..st }, None)
        } else if b == 47 {
            (LexState { mode: LexMode::MaybeComment, ..st }, None)
        } else {
            (LexState { mode: LexMode::Unquoted, text: Some(seq![b]), ..st }, None)
        },
        LexMode::Comment => if b == 13 || b == 10 {
            (LexState { mode: LexMode::Default, ..st }, None)
        } else {
            (st, None)
        },
        LexMode::MaybeComment => if b == 47 {
            (LexState { mode: LexMode::Comment, ..st }, None)
        } else {
            (LexState { mode: LexMode::Unquoted, text: Some(seq![47u8, b]), ..st }, None)
        },
        LexMode::Quoted => {
            let t = st.text.unwrap().push(b);
            if b == 34 {
                (
                    LexState { mode: LexMode::Default, text: None, ..st },
                    Some(LineTokenView { token: text_token(t), line_number: st.line_number }),
                )
            } else {
                (LexState { text: Some(t), ..st }, None)
            }
        },
        LexMode::Unquoted => if is_space(b) {
            (
                LexState { mode: LexMode::Default, text: None, ..st },
                Some(
                    LineTokenView { token: text_token(st.text.unwrap()), line_number: st.line_number },
                ),
            )
        } else {
            (LexState { text: Some(st.text.unwrap().push(b)), ..st }, None)
        },
    }
}

/// The line after byte `b` read in state `st`: one more after a line feed or
/// after a byte that follows a carriage return (never past `u64::MAX`).
pub open spec fn next_line(st: LexState, b: u8) -> u64 {
    if b == 10 || st.last_byte == Some(13u8) {
        if st.line_number == u64::MAX {
            st.line_number
        } else {
            (st.line_number + 1) as u64
        }
    } else {
        st.line_number
    }
}

/// A nonzero byte read in state `st`: the mode's rule, then the line count.
pub open spec fn byte_step(st: LexState, b: u8) -> (LexState, Option<LineTokenView>) {
    let (st1, tok) = mode_step(st, b);
    (LexState { last_byte: Some(b), line_number: next_line(st, b), ..st1 }, tok)
}

/// What the end of the text yields in state `st`: the buffered token, or an
/// error for a quoted string that is not closed.
pub open spec fn eof_items(st: LexState) -> Seq<LexItem> {
    match st.text {
        Some(t) => if t.len() > 0 && t[0] == 34 && (t.last() != 34 || t.len() == 1) {
            seq![Err(lexer_error("Missing closing quote"@, st.line_number))]
        } else {
            seq![Ok(LineTokenView { token: text_token(t), line_number: st.line_number })]
        },
        None => Seq::empty(),
    }
}

/// Every item the tokeniser yields from state `st` on the bytes `rest`, in
/// order: a zero byte yields an error and is otherwise skipped.
pub open spec fn lex_items(st: LexState, rest: Seq<u8>) -> Seq<LexItem>
    decreases rest.len(),
{
    if rest.len() == 0 {
        eof_items(st)
    } else if rest[0] == 0 {
        seq![Err(lexer_error("Null byte"@, st.line_number))] + lex_items(st, rest.drop_first())
    } else {
        let (st2, tok) = byte_step(st, rest[0]);
        match tok {
            Some(t) => seq![Ok(t)] + lex_items(st2, rest.drop_first()),
            None => lex_items(st2, rest.drop_first()),
        }
    }
}

/// The items of a whole text.
pub open spec fn lex(input: Seq<u8>) -> Seq<LexItem> {
    lex_items(initial_state(), input)
}

/// The tokeniser over a text held in memory.
pub struct TokenIterator {
    text: Option<Vec<u8>>,
    state: LexMode,
    byte: Option<u8>,
    last_byte: Option<u8>,
    line_number: u64,
    input: Vec<u8>,
    pos: usize,
}

impl TokenIterator {
    /// The tokeniser's state between two bytes.
    pub closed spec fn lex_state(&self) -> LexState {
        LexState {
            mode: self.state,
            text: match self.text {
                Some(t) => Some(t@),
                None => None,
            },
            last_byte: self.last_byte,
            line_number: self.line_number,
        }
    }

    /// The bytes not read yet.
    pub closed spec fn rest(&self) -> Seq<u8> {
        self.input@.subrange(self.pos as int, self.input@.len() as int)
    }

    pub closed spec fn wf(&self) -> bool {
        &&& self.pos <= self.input@.len()
        &&& (state_strong(self.lex_state()) || (self.pos == self.input@.len() && self.text is None
            && self.line_number >= 1))
    }

    /// The items still to come, in order.
    pub closed spec fn items(&self) -> Seq<LexItem> {
        lex_items(self.lex_state(), self.rest())
    }

    pub fn new(input: Vec<u8>) -> (it: TokenIterator)
        ensures
            it.wf(),
            it.items() == lex(input@),
    {
        let it = TokenIterator {
            text: None,
            state: LexMode::Default,
            byte: None,
            last_byte: None,
            line_number: 1,
            input,
            pos: 0,
        };
        assert(it.rest() =~= input@);
        it
    }

    /// Reads byte `b`: an error for a zero byte, else the token `b`
    /// completes, if any.
    fn byte_read(&mut self, b: u8) -> (r: Result<Option<LineToken>, TextParse>)
        requires
            state_ok(old(self).lex_state()),
        ensures
            final(self).input == old(self).input,
            final(self).pos == old(self).pos,
            b == 0 ==> (r matches Err(e) && e@ == lexer_error("Null byte"@, old(self).line_number)
                && final(self).lex_state() == old(self).lex_state() && final(self).byte == old(self).byte),
            b != 0 ==> (r matches Ok(t) && (final(self).lex_state(), opt_token_view(t)) == byte_step(
                old(self).lex_state(),
                b,
            )),
            state_strong(old(self).lex_state()) ==> state_strong(final(self).lex_state()),
    {
        proof {
            if b != 0 && state_strong(old(self).lex_state()) {
                law_state_strong_kept(old(self).lex_state(), b);
            }
        }
        if b == 0 {
            return Err(TextParse::from_lexer(String::from_str("Null byte"), self.line_number));
        }
        self.byte = Some(b);
        let maybe_token = match self.state {
            LexMode::Default => lex_default(self),
            LexMode::Comment => lex_comment(self),
            LexMode::MaybeComment => lex_maybe_comment(self),
            LexMode::Quoted => lex_quoted(self),
            LexMode::Unquoted => lex_unquoted(self),
        };
        let after_cr = match self.last_byte {
            Some(l) => l == 13,
            None => false,
        };
        if b == 10 || after_cr {
            self.line_number = self.line_number.saturating_add(1);
        }
        self.last_byte = self.byte;
        Ok(maybe_token)
    }

    /// Reads the end of the text: the buffered token, or an error for an
    /// unclosed quoted string.
    fn eof_read(&mut self) -> (r: Result<Option<LineToken>, TextParse>)
        requires
            old(self).wf(),
            old(self).pos == old(self).input@.len(),
        ensures
            final(self).wf(),
            final(self).pos == old(self).pos,
            final(self).input == old(self).input,
            final(self).text is None,
            final(self).state == old(self).state,
            final(self).line_number == old(self).line_number,
            final(self).last_byte == old(self).last_byte,
            final(self).byte == old(self).byte,
            match r {
                Ok(Some(t)) => eof_items(old(self).lex_state()) == seq![Ok::<LineTokenView, TextParseView>(t@)],
                Ok(None) => eof_items(old(self).lex_state()) == Seq::<LexItem>::empty(),
                Err(e) => eof_items(old(self).lex_state()) == seq![Err::<LineTokenView, TextParseView>(e@)],
            },
    {
        match self.text.take() {
            Some(last_text) => {
                if last_text.len() > 0 && last_text[0] == 34 && (last_text[last_text.len() - 1]
                    != 34 || last_text.len() == 1) {
                    Err(TextParse::from_lexer(String::from_str("Missing closing quote"), self.line_number))
                } else {
                    Ok(Some(LineToken::from_text(last_text, self.line_number)))
                }
            },
            None => Ok(None),
        }
    }

    /// The next item: a token or an error; `None` once the text is used up,
    /// and on every call after that.
    pub fn next(&mut self) -> (r: Option<Result<LineToken, TextParse>>)
        requires
            old(self).wf(),
        ensures
            final(self).wf(),
            old(self).items().len() == 0 ==> r is None && final(self).items().len() == 0,
            old(self).items().len() > 0 ==> (r matches Some(it) && item_view(it) == old(self).items()[0]
                && final(self).items() == old(self).items().drop_first()),
            r matches Some(Ok(t)) ==> t.line_number >= 1,
    {
        loop
            invariant
                self.wf(),
                self.items() == old(self).items(),
            decreases self.input@.len() - self.pos,
        {
            if self.pos < self.input.len() {
                let b = self.input[self.pos];
                let ghost rest = self.rest();
                assert(rest[0] == b);
                let r = self.byte_read(b);
                self.pos = self.pos + 1;
                assert(self.rest() =~= rest.drop_first());
                match r {
                    Ok(Some(t)) => {
                        return Some(Ok(t));
                    },
                    Ok(None) => {},
                    Err(e) => {
                        return Some(Err(e));
                    },
                }
            } else {
                let r = self.eof_read();
                assert(self.rest().len() == 0);
                return match r {
                    Ok(Some(t)) => Some(Ok(t)),
                    Ok(None) => None,
                    Err(e) => Some(Err(e)),
                };
            }
        }
    }
}

/// Frame of a mode rule: everything but the mode, the buffer and the current
/// byte stays.
spec fn mode_rule_frame(old_it: TokenIterator, new_it: TokenIterator) -> bool {
    &&& new_it.input == old_it.input
    &&& new_it.pos == old_it.pos
    &&& new_it.byte == old_it.byte
}

/// The rule of the mode that the iterator is in, applied to its current byte.
spec fn mode_rule_ensures(
    old_it: TokenIterator,
    new_it: TokenIterator,
    r: Option<LineToken>,
) -> bool {
    &&& mode_rule_frame(old_it, new_it)
    &&& (new_it.lex_state(), opt_token_view(r)) == mode_step(old_it.lex_state(), old_it.byte.unwrap())
}

fn lex_default(iterator: &mut TokenIterator) -> (r: Option<LineToken>)
    requires
        state_ok(old(iterator).lex_state()),
        old(iterator).lex_state().mode is Default,
        old(iterator).byte matches Some(b) && b != 0,
    ensures
        mode_rule_ensures(*old(iterator), *final(iterator), r),
{
    let b = iterator.byte.unwrap();
    if !is_ascii_whitespace(b) {
        if b == 34 {
            iterator.state = LexMode::Quoted;
            let mut text_bytes: Vec<u8> = Vec::with_capacity(TEXT_CAPACITY);
            text_bytes.push(b);
            iterator.text = Some(text_bytes);
        } else if b == 47 {
            iterator.state = LexMode::MaybeComment;
        } else {
            iterator.state = LexMode::Unquoted;
            let mut text_bytes: Vec<u8> = Vec::with_capacity(TEXT_CAPACITY);
            text_bytes.push(b);
            iterator.text = Some(text_bytes);
        }
    }
    None
}

fn lex_comment(iterator: &mut TokenIterator) -> (r: Option<LineToken>)
    requires
        state_ok(old(iterator).lex_state()),
        old(iterator).lex_state().mode is Comment,
        old(iterator).byte matches Some(b) && b != 0,
    ensures
        mode_rule_ensures(*old(iterator), *final(iterator), r),
{
    let b = iterator.byte.unwrap();
    if b == 13 || b == 10 {
        iterator.state = LexMode::Default;
    }
    None
}

fn lex_maybe_comment(iterator: &mut TokenIterator) -> (r: Option<LineToken>)
    requires
        state_ok(old(iterator).lex_state()),
        old(iterator).lex_state().mode is MaybeComment,
        old(iterator).byte matches Some(b) && b != 0,
    ensures
        mode_rule_ensures(*old(iterator), *final(iterator), r),
{
    let b = iterator.byte.unwrap();
    if b == 47 {
        iterator.state = LexMode::Comment;
    } else {
        let mut text_bytes: Vec<u8> = Vec::with_capacity(TEXT_CAPACITY);
        text_bytes.push(47);
        text_bytes.push(b);
        assert(text_bytes@ =~= seq![47u8, b]);
        iterator.text = Some(text_bytes);
        iterator.state = LexMode::Unquoted;
    }
    None
}

fn lex_quoted(iterator: &mut TokenIterator) -> (r: Option<LineToken>)
    requires
        state_ok(old(iterator).lex_state()),
        old(iterator).lex_state().mode is Quoted,
        old(iterator).byte matches Some(b) && b != 0,
    ensures
        mode_rule_ensures(*old(iterator), *final(iterator), r),
{
    let b = iterator.byte.unwrap();
    let mut text_bytes = iterator.text.take().unwrap();
    text_bytes.push(b);
    if b == 34 {
        iterator.state = LexMode::Default;
        Some(LineToken::from_text(text_bytes, iterator.line_number))
    } else {
        iterator.text = Some(text_bytes);
        None
    }
}

fn lex_unquoted(iterator: &mut TokenIterator) -> (r: Option<LineToken>)
    requires
        state_ok(old(iterator).lex_state()),
        old(iterator).lex_state().mode is Unquoted,
        old(iterator).byte matches Some(b) && b != 0,
    ensures
        mode_rule_ensures(*old(iterator), *final(iterator), r),
{
    let b = iterator.byte.unwrap();
    let mut text_bytes = iterator.text.take().unwrap();
    if is_ascii_whitespace(b) {
        iterator.state = LexMode::Default;
        Some(LineToken::from_text(text_bytes, iterator.line_number))
    } else {
        text_bytes.push(b);
        iterator.text = Some(text_bytes);
        None
    }
}

} // verus!
