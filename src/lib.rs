//! Lexer and node parser for a small template language: literal text
//! interleaved with `{{ expr }}` render blocks and `{% stmt %}` control blocks.
pub mod error;
pub mod lex;
pub mod lookahead;
pub mod parse;
pub mod text;
