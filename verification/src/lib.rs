//! A lexical scanner for a small scripting language.
//!
//! The scanner turns a buffer of characters into a flat sequence of typed
//! tokens that always ends with a single end-of-input token. What each scan
//! produces is defined in [`grammar`], as functions of the input; the
//! executable [`Lexer`] is proved to compute exactly that, and [`lemmas`]
//! holds the facts that follow for every input.

pub mod chars;
pub mod grammar;
pub mod lemmas;
pub mod lexer;
pub mod token;

pub use crate::grammar::WordState;
pub use crate::lexer::{tokenize, Lexer, LexerView};
pub use crate::token::{Token, TokenKind, TokenView};
