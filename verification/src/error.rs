//! Error values of tokenising, parsing and writing maps.

use vstd::prelude::*;
use crate::text::{decimal, push_decimal};

verus! {

/// A message, optionally tied to the (1-based) line of the map text it is
/// about.
#[derive(Debug, Clone)]
pub struct Line {
    pub message: String,
    pub line_number: Option<u64>,
}

/// Mathematical value of a [`Line`].
pub struct LineView {
    pub message: Seq<char>,
    pub line_number: Option<u64>,
}

impl View for Line {
    type V = LineView;

    open spec fn view(&self) -> LineView {
        LineView { message: self.message@, line_number: self.line_number }
    }
}

/// The text of a [`Line`]: `Line <n>: <message>` when it has a line number,
/// the bare message otherwise.
pub open spec fn line_text(l: LineView) -> Seq<char> {
    match l.line_number {
        Some(n) => "Line "@ + decimal(n as nat) + ": "@ + l.message,
        None => l.message,
    }
}

impl Line {
    /// Renders the line as text (what `Display` shows for it).
    pub fn to_string(&self) -> (s: String)
        ensures
            s@ == line_text(self@),
    {
        match self.line_number {
            Some(n) => {
                let mut s = String::from_str("Line ");
                push_decimal(&mut s, n);
                s.append(": ");
                s.append(self.message.as_str());
                s
            },
            None => self.message.clone(),
        }
    }
}

/// Failure of reading a map from text.
#[derive(Debug)]
pub enum TextParse {
    /// The bytes could not be read; holds the reader's message.
    Io(String),
    /// The text could not be split into tokens.
    Lexer(Line),
    /// The tokens do not form a map.
    Parser(Line),
}

/// Mathematical value of a [`TextParse`].
pub enum TextParseView {
    Io(Seq<char>),
    Lexer(LineView),
    Parser(LineView),
}

impl View for TextParse {
    type V = TextParseView;

    open spec fn view(&self) -> TextParseView {
        match self {
            TextParse::Io(m) => TextParseView::Io(m@),
            TextParse::Lexer(l) => TextParseView::Lexer(l@),
            TextParse::Parser(l) => TextParseView::Parser(l@),
        }
    }
}

/// The tokeniser error with `message` at line `line_number`.
pub open spec fn lexer_error(message: Seq<char>, line_number: u64) -> TextParseView {
    TextParseView::Lexer(LineView { message, line_number: Some(line_number) })
}

/// The parser error with `message` at line `line_number`.
pub open spec fn parser_error(message: Seq<char>, line_number: u64) -> TextParseView {
    TextParseView::Parser(LineView { message, line_number: Some(line_number) })
}

/// The error for text that ends where more tokens were expected.
pub open spec fn eof_error() -> TextParseView {
    TextParseView::Parser(LineView { message: "Unexpected end-of-file"@, line_number: None })
}

/// The text of a [`TextParse`] error.
pub open spec fn text_parse_text(e: TextParseView) -> Seq<char> {
    match e {
        TextParseView::Io(m) => m,
        TextParseView::Lexer(l) => line_text(l),
        TextParseView::Parser(l) => line_text(l),
    }
}

impl TextParse {
    pub fn from_lexer(message: String, line_number: u64) -> (e: TextParse)
        requires
            1 <= line_number,
        ensures
            e@ == lexer_error(message@, line_number),
    {
        TextParse::Lexer(Line { message, line_number: Some(line_number) })
    }

    pub fn from_parser(message: String, line_number: u64) -> (e: TextParse)
        requires
            1 <= line_number,
        ensures
            e@ == parser_error(message@, line_number),
    {
        TextParse::Parser(Line { message, line_number: Some(line_number) })
    }

    pub fn eof() -> (e: TextParse)
        ensures
            e@ == eof_error(),
    {
        TextParse::Parser(Line { message: String::from_str("Unexpected end-of-file"), line_number: None })
    }

    /// Renders the error as text (what `Display` shows for it).
    pub fn to_string(&self) -> (s: String)
        ensures
            s@ == text_parse_text(self@),
    {
        match self {
            TextParse::Io(m) => m.clone(),
            TextParse::Lexer(l) => l.to_string(),
            TextParse::Parser(l) => l.to_string(),
        }
    }
}

/// Failure of writing a map.
#[derive(Debug)]
pub enum Write {
    /// The map cannot be written; holds why.
    Validation(String),
    /// The writer failed; holds its message.
    Io(String),
}

/// The text of a [`Write`] error: its message.
pub open spec fn write_text(w: Write) -> Seq<char> {
    match w {
        Write::Validation(m) => m@,
        Write::Io(m) => m@,
    }
}

impl Write {
    /// Renders the error as text (what `Display` shows for it).
    pub fn to_string(&self) -> (s: String)
        ensures
            s@ == write_text(*self),
    {
        match self {
            Write::Validation(m) => m.clone(),
            Write::Io(m) => m.clone(),
        }
    }
}

/// A map item that cannot be written, with the reason.
#[derive(Debug, PartialEq, Eq)]
pub struct Validation(pub String);

impl Validation {
    /// Renders the error as text (what `Display` shows for it).
    pub fn to_string(&self) -> (s: String)
        ensures
            s@ == self.0@,
    {
        self.0.clone()
    }
}

impl From<String> for Validation {
    fn from(s: String) -> (v: Validation) {
        Validation(s)
    }
}

impl vstd::std_specs::convert::FromSpecImpl<String> for Validation {
    open spec fn obeys_from_spec() -> bool {
        true
    }

    open spec fn from_spec(s: String) -> Validation {
        Validation(s)
    }
}

impl<'a> From<&'a str> for Validation {
    fn from(s: &'a str) -> (v: Validation)
        ensures
            v.0@ == s@,
    {
        Validation(String::from_str(s))
    }
}

impl<'a> vstd::std_specs::convert::FromSpecImpl<&'a str> for Validation {
    /// A `String` with given contents cannot be named in spec code, so the
    /// contents are stated in the `ensures` of `from` instead.
    open spec fn obeys_from_spec() -> bool {
        false
    }

    open spec fn from_spec(s: &'a str) -> Validation {
        arbitrary()
    }
}

impl From<Validation> for Write {
    fn from(val_err: Validation) -> (w: Write) {
        Write::Validation(val_err.0)
    }
}

impl vstd::std_specs::convert::FromSpecImpl<Validation> for Write {
    open spec fn obeys_from_spec() -> bool {
        true
    }

    open spec fn from_spec(val_err: Validation) -> Write {
        Write::Validation(val_err.0)
    }
}

/// A validation error turned into a write error reads as it did.
pub proof fn law_validation_write_text(v: Validation)
    ensures
        write_text(<Write as vstd::std_specs::convert::FromSpec<Validation>>::from_spec(v)) == v.0@,
{
}

/// Result of checking that map items can be written.
pub type ValidationResult = Result<(), Validation>;

/// Result of reading a map from text.
pub type TextParseResult<T> = Result<T, TextParse>;

/// Result of writing a map.
pub type WriteResult = Result<(), Write>;

} // verus!
