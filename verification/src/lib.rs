//! Quake source map tokenising and parsing, with the textual grammar proved
//! against a functional specification.
//!
//! [`parse`] reads a map from its bytes. The whole behaviour of reading is a
//! spec function of the bytes ([`parser::spec_parse`]), built on the
//! tokeniser's ([`lexer::lex`]); the executable code is proved to follow it.
//! Numbers are returned as the text they were written with, each a text that
//! Rust reads as an `f64`.

pub mod text;
pub mod error;
pub mod lexer;
pub mod lex_laws;
pub mod number;
pub mod number_laws;
pub mod repr;
pub mod parser;
pub mod parse_laws;
pub mod field_laws;

pub use error::TextParse as TextParseError;
pub use error::TextParseResult;
pub use error::Validation as ValidationError;
pub use error::ValidationResult;
pub use error::Write as WriteError;
pub use error::WriteResult;
pub use parser::parse;
pub use repr::{
    Alignment, Brush, Edict, Entity, Point, Quake2SurfaceExtension, QuakeMap, Surface, TextureAxes,
};
