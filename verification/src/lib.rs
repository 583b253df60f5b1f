//! Lexical front end for a small, indentation-sensitive, line-oriented
//! language.
//!
//! The tokenizer walks one source text, physical line by physical line,
//! classifying character runs into [`token::Token`] values.  Changes in a
//! line's leading indentation synthesize `BlockEnd` tokens, one per closed
//! level, so block structure needs no closing delimiter in the source.
//!
//! The meaning of every operation is fixed by the ghost model in [`model`]:
//! a small state machine whose [`model::step`] function produces one token at
//! a time and whose [`model::stream`] function is the full token sequence.
//! The executable [`lexer::Lexer`] is proved to follow that model exactly,
//! and [`laws`] proves the library-wide guarantees on top of it.

pub mod chars;
pub mod laws;
pub mod lexer;
pub mod model;
pub mod token;

pub use crate::lexer::Lexer;
pub use crate::token::Token;
