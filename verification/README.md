# quake_map

Reading Quake source maps (`.map` text: entities, key-value pairs, brushes
and their surfaces, in the Quake 1 and 2 formats, with legacy or Valve220
texture alignment), verified with Verus.

* `src/lexer.rs` — the tokeniser: a byte-at-a-time state machine whose whole
  behaviour on a text is the spec function `lex`; `TokenIterator::next` is
  proved to yield exactly those items, one per call.
* `src/parser.rs` — the grammar of maps over the token items (`spec_parse`),
  and the recursive-descent reader `parse`, proved to return exactly what the
  spec gives, error messages and line numbers included.
* `src/number.rs` — which texts Rust reads as an `f64` (the documented grammar
  of `f64::from_str`) and what it reads as an `i32`.
* `src/error.rs`, `src/repr.rs`, `src/text.rs` — error values and their text,
  the map as read (numbers kept as text), and message building.
* `src/lex_laws.rs`, `src/parse_laws.rs` — properties proved of every text:
  the tokeniser's state invariant, token line numbers start at 1 and never
  go back, tokens hold no zero byte, a token shows as its text and its
  written form reads back as the token, plain text splits into its
  whitespace-separated words, leading blanks and line comments are
  insignificant, a text that parses yields no error item (so one with a zero
  byte or an unclosed quote never parses), and every number of a parsed map
  reads as an `f64`.
* `app/` — reading from any `std::io::Read`, and the map with `f64`
  coordinates, `CString` names and std's error traits.
