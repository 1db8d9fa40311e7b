//! What the tokeniser keeps for every text.

use vstd::prelude::*;
use crate::error::TextParseView;
use crate::lexer::{
    bare_bytes, byte_step, eof_items, initial_state, is_space, latin1, lex, lex_items, mode_step, text_token,
    token_text, LexItem, LexMode, LexState, LineTokenView, TokenView, state_ok,
};

verus! {

/// Every token of `items` is on line `from` or later, and no token is on an
/// earlier line than a token before it.
pub open spec fn lines_ordered(items: Seq<LexItem>, from: u64) -> bool {
    &&& forall|i: int|
        0 <= i < items.len() ==> (#[trigger] items[i] matches Ok(t) ==> from <= t.line_number)
    &&& forall|i: int, j: int|
        0 <= i < j < items.len() ==> (#[trigger] items[i] matches Ok(a) ==> (#[trigger] items[j] matches Ok(
            b,
        ) ==> a.line_number <= b.line_number))
}

proof fn lemma_lines_ordered(st: LexState, rest: Seq<u8>)
    ensures
        lines_ordered(lex_items(st, rest), st.line_number),
    decreases rest.len(),
{
    let items = lex_items(st, rest);
    if rest.len() == 0 {
    } else if rest[0] == 0 {
        lemma_lines_ordered(st, rest.drop_first());
        let tail = lex_items(st, rest.drop_first());
        assert(items == seq![items[0]] + tail);
        assert forall|i: int, j: int|
            0 <= i < j < items.len() implies (#[trigger] items[i] matches Ok(a) ==> (
            #[trigger] items[j] matches Ok(b) ==> a.line_number <= b.line_number)) by {
            if i > 0 {
                assert(items[i] == tail[i - 1] && items[j] == tail[j - 1]);
            }
        }
        assert forall|i: int|
            0 <= i < items.len() implies (#[trigger] items[i] matches Ok(t) ==> st.line_number
            <= t.line_number) by {
            if i > 0 {
                assert(items[i] == tail[i - 1]);
            }
        }
    } else {
        let (st2, tok) = byte_step(st, rest[0]);
        let (st1, tok1) = mode_step(st, rest[0]);
        assert(tok == tok1);
        assert(tok1 matches Some(t) ==> t.line_number == st.line_number);
        assert(st2.line_number >= st.line_number);
        lemma_lines_ordered(st2, rest.drop_first());
        let tail = lex_items(st2, rest.drop_first());
        match tok {
            Some(t) => {
                assert(items == seq![Ok::<_, _>(t)] + tail);
                assert forall|i: int, j: int|
                    0 <= i < j < items.len() implies (#[trigger] items[i] matches Ok(a) ==> (
                    #[trigger] items[j] matches Ok(b) ==> a.line_number <= b.line_number)) by {
                    assert(items[j] == tail[j - 1]);
                    if i > 0 {
                        assert(items[i] == tail[i - 1]);
                    }
                }
                assert forall|i: int|
                    0 <= i < items.len() implies (#[trigger] items[i] matches Ok(t) ==> st.line_number
                    <= t.line_number) by {
                    if i > 0 {
                        assert(items[i] == tail[i - 1]);
                    }
                }
            },
            None => {},
        }
    }
}

/// Tokens are numbered by line from 1, and never on a line before that of an
/// earlier token.
pub proof fn law_token_lines(input: Seq<u8>)
    ensures
        lines_ordered(lex(input), 1),
{
    lemma_lines_ordered(initial_state(), input);
}

/// `s` holds no zero byte.
pub open spec fn no_zero(s: Seq<u8>) -> bool {
    forall|i: int| 0 <= i < s.len() ==> #[trigger] s[i] != 0
}

/// No string token of `items` holds a zero byte.
pub open spec fn tokens_no_zero(items: Seq<LexItem>) -> bool {
    forall|i: int| 0 <= i < items.len() ==> (#[trigger] items[i] matches Ok(t) ==> no_zero(bare_bytes(t.token)))
}

proof fn lemma_text_token_no_zero(t: Seq<u8>)
    requires
        no_zero(t),
    ensures
        no_zero(bare_bytes(text_token(t))),
{
    let b = bare_bytes(text_token(t));
    assert forall|i: int| 0 <= i < b.len() implies #[trigger] b[i] != 0 by {
        if t.len() >= 2 && t[0] == 34 && t.last() == 34 && t.len() != 1 {
            assert(b[i] == t[i + 1]);
        }
    }
}

proof fn lemma_no_zero(st: LexState, rest: Seq<u8>)
    requires
        state_ok(st),
        st.text matches Some(t) ==> no_zero(t),
    ensures
        tokens_no_zero(lex_items(st, rest)),
    decreases rest.len(),
{
    let items = lex_items(st, rest);
    if rest.len() == 0 {
        if let Some(t) = st.text {
            lemma_text_token_no_zero(t);
        }
    } else if rest[0] == 0 {
        lemma_no_zero(st, rest.drop_first());
        let tail = lex_items(st, rest.drop_first());
        assert forall|i: int| 0 <= i < items.len() implies (#[trigger] items[i] matches Ok(t) ==> no_zero(
            bare_bytes(t.token),
        )) by {
            if i > 0 {
                assert(items[i] == tail[i - 1]);
            }
        }
    } else {
        let b = rest[0];
        let (st2, tok) = byte_step(st, b);
        match st.text {
            Some(t) => {
                assert(no_zero(t.push(b)));
                lemma_text_token_no_zero(t);
                lemma_text_token_no_zero(t.push(b));
            },
            None => {},
        }
        assert(no_zero(seq![b]));
        assert(no_zero(seq![47u8, b]));
        assert(state_ok(st2));
        assert(st2.text matches Some(t) ==> no_zero(t));
        lemma_no_zero(st2, rest.drop_first());
        let tail = lex_items(st2, rest.drop_first());
        assert(tok matches Some(t) ==> no_zero(bare_bytes(t.token)));
        assert forall|i: int| 0 <= i < items.len() implies (#[trigger] items[i] matches Ok(t) ==> no_zero(
            bare_bytes(t.token),
        )) by {
            if tok is Some {
                if i > 0 {
                    assert(items[i] == tail[i - 1]);
                }
            } else {
                assert(items[i] == tail[i]);
            }
        }
    }
}

/// No token read from a text holds a zero byte.
pub proof fn law_tokens_no_zero(input: Seq<u8>)
    ensures
        tokens_no_zero(lex(input)),
{
    lemma_no_zero(initial_state(), input);
}

/// A token shows as the text it was read from: rendering the token that a
/// text stands for gives back that text, byte by byte.
pub proof fn law_token_text_roundtrip(t: Seq<u8>)
    ensures
        token_text(text_token(t)) == latin1(t),
{
    if t.len() == 1 {
        assert(token_text(text_token(t)) =~= latin1(t));
    } else if t.len() >= 2 && t[0] == 34 && t.last() == 34 {
        let inner = t.subrange(1, t.len() - 1);
        assert(token_text(text_token(t)) =~= latin1(t));
    } else {
        assert(token_text(text_token(t)) =~= latin1(t));
    }
}

proof fn lemma_last_byte_irrelevant(st: LexState, l: Option<u8>, rest: Seq<u8>)
    requires
        st.last_byte != Some(13u8),
        l != Some(13u8),
    ensures
        lex_items(st, rest) == lex_items(LexState { last_byte: l, ..st }, rest),
    decreases rest.len(),
{
    let st_l = LexState { last_byte: l, ..st };
    if rest.len() == 0 {
    } else if rest[0] == 0 {
        lemma_last_byte_irrelevant(st, l, rest.drop_first());
    } else {
        assert(byte_step(st, rest[0]) == byte_step(st_l, rest[0]));
    }
}

/// Space, tab and form feed: the blanks that do not end a line.
pub open spec fn is_blank(b: u8) -> bool {
    b == 32 || b == 9 || b == 12
}

/// A blank at the start of a text changes nothing of what it yields.
pub proof fn law_leading_blank(b: u8, s: Seq<u8>)
    requires
        is_blank(b),
    ensures
        lex(seq![b] + s) == lex(s),
{
    let t = seq![b] + s;
    assert(t.drop_first() =~= s);
    let (st2, tok) = byte_step(initial_state(), b);
    assert(st2 == LexState { last_byte: Some(b), ..initial_state() });
    lemma_last_byte_irrelevant(initial_state(), Some(b), s);
}

/// Bytes that may stand inside a line comment: anything but a zero byte and
/// the line breaks.
pub open spec fn comment_text(c: Seq<u8>) -> bool {
    forall|i: int| 0 <= i < c.len() ==> #[trigger] c[i] != 0 && c[i] != 10 && c[i] != 13
}

proof fn lemma_comment_body(x: u8, line: u64, c: Seq<u8>, rest: Seq<u8>)
    requires
        comment_text(c),
        x != 13,
    ensures
        lex_items(
            LexState { mode: LexMode::Comment, text: None, last_byte: Some(x), line_number: line },
            c + rest,
        ) == lex_items(
            LexState {
                mode: LexMode::Comment,
                text: None,
                last_byte: Some(if c.len() == 0 { x } else { c.last() }),
                line_number: line,
            },
            rest,
        ),
    decreases c.len(),
{
    if c.len() > 0 {
        let st = LexState { mode: LexMode::Comment, text: None, last_byte: Some(x), line_number: line };
        let b = c[0];
        assert((c + rest)[0] == b);
        assert((c + rest).drop_first() =~= c.drop_first() + rest);
        let (st2, tok) = byte_step(st, b);
        assert(st2 == LexState { last_byte: Some(b), ..st });
        assert(comment_text(c.drop_first()));
        lemma_comment_body(b, line, c.drop_first(), rest);
        if c.len() > 1 {
            assert(c.drop_first().last() == c.last());
        }
    }
}

/// A line comment is read as the line feed that ends it: `//`, then bytes
/// other than line breaks and zero, then a line feed, yields what the line
/// feed alone yields.
pub proof fn law_line_comment(c: Seq<u8>, s: Seq<u8>)
    requires
        comment_text(c),
    ensures
        lex(seq![47u8, 47u8] + c + seq![10u8] + s) == lex(seq![10u8] + s),
{
    let t = seq![47u8, 47u8] + c + seq![10u8] + s;
    let st0 = initial_state();
    assert(t[0] == 47);
    assert(t.drop_first()[0] == 47);
    let st1 = LexState { mode: LexMode::MaybeComment, text: None, last_byte: Some(47u8), line_number: 1 };
    let st2 = LexState { mode: LexMode::Comment, text: None, last_byte: Some(47u8), line_number: 1 };
    assert(byte_step(st0, 47) == (st1, Option::<LineTokenView>::None));
    assert(byte_step(st1, 47) == (st2, Option::<LineTokenView>::None));
    let after = c + (seq![10u8] + s);
    assert(t.drop_first().drop_first() =~= after);
    lemma_comment_body(47, 1, c, seq![10u8] + s);
    let y: u8 = if c.len() == 0 { 47 } else { c.last() };
    let st3 = LexState { mode: LexMode::Comment, text: None, last_byte: Some(y), line_number: 1 };
    let st4 = LexState { mode: LexMode::Default, text: None, last_byte: Some(10u8), line_number: 2 };
    assert(byte_step(st3, 10) == (st4, Option::<LineTokenView>::None));
    assert((seq![10u8] + s).drop_first() =~= s);
    assert(byte_step(st0, 10) == (st4, Option::<LineTokenView>::None));
    assert(lex_items(st0, t) == lex_items(st1, t.drop_first()));
    assert(lex_items(st1, t.drop_first()) == lex_items(st2, after));
    assert(lex_items(st3, seq![10u8] + s) == lex_items(st4, s));
    assert(lex_items(st0, seq![10u8] + s) == lex_items(st4, s));
}

/// The error carries no line number, or one of at least 1.
pub open spec fn error_line_ok(e: TextParseView) -> bool {
    match e {
        TextParseView::Io(_) => true,
        TextParseView::Lexer(l) => l.line_number matches Some(n) ==> n >= 1,
        TextParseView::Parser(l) => l.line_number matches Some(n) ==> n >= 1,
    }
}

/// Every token and every error of `items` carries a line number of at least
/// 1, where it carries one.
pub open spec fn item_lines_ok(items: Seq<LexItem>) -> bool {
    forall|i: int|
        0 <= i < items.len() ==> match #[trigger] items[i] {
            Ok(t) => t.line_number >= 1,
            Err(e) => error_line_ok(e),
        }
}

proof fn lemma_item_lines(st: LexState, rest: Seq<u8>)
    requires
        st.line_number >= 1,
    ensures
        item_lines_ok(lex_items(st, rest)),
    decreases rest.len(),
{
    lemma_lines_ordered(st, rest);
    let items = lex_items(st, rest);
    if rest.len() == 0 {
    } else if rest[0] == 0 {
        lemma_item_lines(st, rest.drop_first());
        let tail = lex_items(st, rest.drop_first());
        assert forall|i: int| 0 <= i < items.len() implies match #[trigger] items[i] {
            Ok(t) => t.line_number >= 1,
            Err(e) => error_line_ok(e),
        } by {
            if i > 0 {
                assert(items[i] == tail[i - 1]);
            }
        }
    } else {
        let (st2, tok) = byte_step(st, rest[0]);
        lemma_item_lines(st2, rest.drop_first());
        let tail = lex_items(st2, rest.drop_first());
        assert forall|i: int| 0 <= i < items.len() implies match #[trigger] items[i] {
            Ok(t) => t.line_number >= 1,
            Err(e) => error_line_ok(e),
        } by {
            if tok is Some {
                if i > 0 {
                    assert(items[i] == tail[i - 1]);
                }
            } else {
                assert(items[i] == tail[i]);
            }
        }
    }
}

/// Tokens and errors of a text carry line numbers of at least 1.
pub proof fn law_item_lines(input: Seq<u8>)
    ensures
        item_lines_ok(lex(input)),
{
    lemma_item_lines(initial_state(), input);
}

/// The tokeniser's full invariant: a buffer is held exactly in the string
/// modes and is never empty; it starts with `"` exactly in the quoted mode;
/// and a quoted buffer holds no `"` after its first byte.
pub open spec fn state_strong(st: LexState) -> bool {
    &&& state_ok(st)
    &&& (st.text matches Some(t) ==> ((t[0] == 34) <==> st.mode is Quoted))
    &&& (st.mode is Quoted && st.text is Some) ==> forall|i: int|
        1 <= i < st.text.unwrap().len() ==> #[trigger] st.text.unwrap()[i] != 34
}

/// The invariant holds before the first byte.
pub proof fn law_initial_state_strong()
    ensures
        state_strong(initial_state()),
{
}

/// Every nonzero byte keeps the invariant (a zero byte leaves the state as
/// it is), so every state the tokeniser reaches satisfies it, and the mode
/// rules always find the buffer they need.
pub proof fn law_state_strong_kept(st: LexState, b: u8)
    requires
        state_strong(st),
        b != 0,
    ensures
        state_strong(byte_step(st, b).0),
{
    let st2 = byte_step(st, b).0;
    if st.mode is Quoted && b != 34 {
        let t = st.text.unwrap();
        let t2 = t.push(b);
        assert forall|i: int| 1 <= i < t2.len() implies #[trigger] t2[i] != 34 by {
            if i < t.len() {
                assert(t2[i] == t[i]);
            }
        }
        assert(st2.text == Some(t2));
    }
    if st.mode is Unquoted && !(b == 32 || b == 9 || b == 10 || b == 12 || b == 13) {
        assert(st.text.unwrap().push(b)[0] == st.text.unwrap()[0]);
    }
}

/// The bytes a token is written as: a bracket as its byte, a quoted string
/// between `"`s, a bare string as its bytes.
pub open spec fn token_bytes(t: TokenView) -> Seq<u8> {
    match t {
        TokenView::OpenParen => seq![40u8],
        TokenView::CloseParen => seq![41u8],
        TokenView::OpenCurly => seq![123u8],
        TokenView::CloseCurly => seq![125u8],
        TokenView::OpenSquare => seq![91u8],
        TokenView::CloseSquare => seq![93u8],
        TokenView::QuotedString(s) => seq![34u8] + s + seq![34u8],
        TokenView::BareString(s) => s,
    }
}

/// One of the six bracket bytes.
pub open spec fn is_bracket(b: u8) -> bool {
    b == 40 || b == 41 || b == 123 || b == 125 || b == 91 || b == 93
}

/// A token whose written form reads back as itself: any but a bare string
/// that is a lone bracket or stands between `"`s.
pub open spec fn reads_back(t: TokenView) -> bool {
    match t {
        TokenView::BareString(s) => !(s.len() == 1 && is_bracket(s[0])) && !(s.len() >= 2 && s[0]
            == 34 && s.last() == 34),
        _ => true,
    }
}

/// A token is shown as the bytes it is written as, and reading those bytes
/// gives the token back.
pub proof fn law_token_read_back(t: TokenView)
    requires
        reads_back(t),
    ensures
        latin1(token_bytes(t)) == token_text(t),
        text_token(token_bytes(t)) == t,
{
    let b = token_bytes(t);
    assert(latin1(b) =~= token_text(t));
    if let TokenView::QuotedString(s) = t {
        assert(b.subrange(1, b.len() - 1) =~= s);
    }
}

/// Text without zero bytes, quotes or slashes: text in which nothing but
/// whitespace separates tokens.
pub open spec fn plain_text(s: Seq<u8>) -> bool {
    forall|i: int| 0 <= i < s.len() ==> #[trigger] s[i] != 0 && s[i] != 34 && s[i] != 47
}

/// The words of `rest`, the first of them continuing `cur`: the maximal runs
/// of bytes that are not ASCII whitespace.
pub open spec fn split_words(cur: Seq<u8>, rest: Seq<u8>) -> Seq<Seq<u8>>
    decreases rest.len(),
{
    if rest.len() == 0 {
        if cur.len() > 0 {
            seq![cur]
        } else {
            Seq::empty()
        }
    } else if is_space(rest[0]) {
        (if cur.len() > 0 {
            seq![cur]
        } else {
            Seq::empty()
        }) + split_words(Seq::empty(), rest.drop_first())
    } else {
        split_words(cur.push(rest[0]), rest.drop_first())
    }
}

/// The whitespace-separated words of `s`.
pub open spec fn words(s: Seq<u8>) -> Seq<Seq<u8>> {
    split_words(Seq::empty(), s)
}

/// The tokens of `items`, `None` standing for an error.
pub open spec fn item_tokens(items: Seq<LexItem>) -> Seq<Option<TokenView>> {
    items.map_values(
        |it: LexItem|
            match it {
                Ok(t) => Some(t.token),
                Err(_) => None,
            },
    )
}

/// The tokens that words stand for.
pub open spec fn word_tokens(ws: Seq<Seq<u8>>) -> Seq<Option<TokenView>> {
    ws.map_values(|w: Seq<u8>| Some(text_token(w)))
}

proof fn lemma_word_tokens_concat(a: Seq<Seq<u8>>, b: Seq<Seq<u8>>)
    ensures
        word_tokens(a + b) == word_tokens(a) + word_tokens(b),
{
    assert(word_tokens(a + b) =~= word_tokens(a) + word_tokens(b));
}

proof fn lemma_item_tokens_cons(x: LexItem, y: Seq<LexItem>)
    ensures
        item_tokens(seq![x] + y) == item_tokens(seq![x]) + item_tokens(y),
{
    assert(item_tokens(seq![x] + y) =~= item_tokens(seq![x]) + item_tokens(y));
}

proof fn lemma_words(st: LexState, rest: Seq<u8>)
    requires
        plain_text(rest),
        (st.mode is Default && st.text is None) || (st.mode is Unquoted && (st.text matches Some(c)
            && c.len() > 0 && plain_text(c))),
    ensures
        item_tokens(lex_items(st, rest)) == word_tokens(
            split_words(
                match st.text {
                    Some(c) => c,
                    None => Seq::empty(),
                },
                rest,
            ),
        ),
    decreases rest.len(),
{
    let cur = match st.text {
        Some(c) => c,
        None => Seq::<u8>::empty(),
    };
    if rest.len() == 0 {
        if let Some(c) = st.text {
            assert(c[0] != 34);
            assert(item_tokens(eof_items(st)) =~= word_tokens(seq![c]));
        } else {
            assert(item_tokens(eof_items(st)) =~= word_tokens(Seq::empty()));
        }
    } else {
        let b = rest[0];
        assert(b != 0 && b != 34 && b != 47);
        let tail = rest.drop_first();
        assert(plain_text(tail)) by {
            assert forall|i: int| 0 <= i < tail.len() implies #[trigger] tail[i] != 0 && tail[i] != 34
                && tail[i] != 47 by {
                assert(tail[i] == rest[i + 1]);
            }
        }
        let (st2, tok) = byte_step(st, b);
        if is_space(b) {
            lemma_words(st2, tail);
            lemma_word_tokens_concat(
                if cur.len() > 0 {
                    seq![cur]
                } else {
                    Seq::empty()
                },
                split_words(Seq::empty(), tail),
            );
            if let Some(t) = tok {
                lemma_item_tokens_cons(Ok(t), lex_items(st2, tail));
                assert(item_tokens(seq![Ok::<LineTokenView, TextParseView>(t)]) =~= word_tokens(
                    seq![cur],
                ));
            } else {
                assert(word_tokens(Seq::<Seq<u8>>::empty()) =~= Seq::<Option<TokenView>>::empty());
                assert(Seq::<Option<TokenView>>::empty() + word_tokens(split_words(Seq::empty(), tail))
                    =~= word_tokens(split_words(Seq::empty(), tail)));
            }
        } else {
            assert(st2.text == Some(cur.push(b)));
            let c2 = cur.push(b);
            assert(plain_text(c2)) by {
                assert forall|i: int| 0 <= i < c2.len() implies #[trigger] c2[i] != 0 && c2[i] != 34
                    && c2[i] != 47 by {
                    if i < cur.len() {
                        assert(c2[i] == cur[i]);
                    }
                }
            }
            lemma_words(st2, tail);
        }
    }
}

/// In text without zero bytes, quotes or slashes, the tokens are exactly the
/// whitespace-separated words, each read as `text_token` reads it, and no
/// error occurs.
pub proof fn law_plain_text_words(input: Seq<u8>)
    requires
        plain_text(input),
    ensures
        item_tokens(lex(input)) == word_tokens(words(input)),
{
    lemma_words(initial_state(), input);
}

/// Every item of `items` is a token.
pub open spec fn all_tokens(items: Seq<LexItem>) -> bool {
    forall|i: int| 0 <= i < items.len() ==> (#[trigger] items[i]) is Ok
}

/// The state after reading all of `rest` from `st` (zero bytes change
/// nothing).
pub open spec fn run(st: LexState, rest: Seq<u8>) -> LexState
    decreases rest.len(),
{
    if rest.len() == 0 {
        st
    } else if rest[0] == 0 {
        run(st, rest.drop_first())
    } else {
        run(byte_step(st, rest[0]).0, rest.drop_first())
    }
}

/// The text ends inside a quoted string.
pub open spec fn ends_in_quote(input: Seq<u8>) -> bool {
    run(initial_state(), input).mode is Quoted && run(initial_state(), input).text is Some
}

proof fn lemma_tail_error(head: Seq<LexItem>, tail: Seq<LexItem>)
    requires
        !all_tokens(tail),
    ensures
        !all_tokens(head + tail),
{
    let j = choose|j: int| 0 <= j < tail.len() && !((#[trigger] tail[j]) is Ok);
    assert((head + tail)[head.len() + j] == tail[j]);
}

proof fn lemma_error_items(st: LexState, rest: Seq<u8>)
    requires
        state_strong(st),
    ensures
        (exists|i: int| 0 <= i < rest.len() && rest[i] == 0) ==> !all_tokens(lex_items(st, rest)),
        (run(st, rest).mode is Quoted && run(st, rest).text is Some) ==> !all_tokens(lex_items(st, rest)),
    decreases rest.len(),
{
    let items = lex_items(st, rest);
    if rest.len() == 0 {
        if st.mode is Quoted && st.text is Some {
            let t = st.text.unwrap();
            if t.len() > 1 {
                assert(t[t.len() - 1] != 34);
            }
            assert(!(items[0] is Ok));
        }
    } else if rest[0] == 0 {
        assert(!(items[0] is Ok));
    } else {
        let tail = rest.drop_first();
        let (st2, tok) = byte_step(st, rest[0]);
        law_state_strong_kept(st, rest[0]);
        lemma_error_items(st2, tail);
        if exists|i: int| 0 <= i < rest.len() && rest[i] == 0 {
            let i = choose|i: int| 0 <= i < rest.len() && rest[i] == 0;
            assert(tail[i - 1] == 0);
        }
        match tok {
            Some(t) => {
                if !all_tokens(lex_items(st2, tail)) {
                    lemma_tail_error(seq![Ok::<LineTokenView, TextParseView>(t)], lex_items(st2, tail));
                }
            },
            None => {},
        }
    }
}

/// A text with a zero byte, or one that ends inside a quoted string, yields
/// an error item.
pub proof fn law_error_items(input: Seq<u8>)
    ensures
        (exists|i: int| 0 <= i < input.len() && input[i] == 0) ==> !all_tokens(lex(input)),
        ends_in_quote(input) ==> !all_tokens(lex(input)),
{
    law_initial_state_strong();
    lemma_error_items(initial_state(), input);
}

} // verus!
