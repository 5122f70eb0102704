//! A lexical scanner for a small programming language.
//!
//! A [`Lexer`] owns its input text and hands out one classified [`Token`] per
//! call of [`Lexer::next_token`], until the token that marks the end of the
//! input; [`Lexer::tokenize`] collects them all.
//!
//! The language has the one-character tokens `= + ( ) { } , ;`, the keywords
//! `fn` and `let`, identifiers made of alphabetic characters and `_`, and
//! integers made of decimal digits. Space, tab, newline and carriage return
//! separate tokens. Any other character is a token of its own, of the kind
//! `ILLEGAL`: the scanner never fails.
//!
//! Every function is verified against the lexical grammar in [`grammar`],
//! which is stated over sequences of characters. What holds of scanning as a
//! whole is proved in [`theorems`].

pub mod chars;
pub mod grammar;
pub mod lexer;
pub mod theorems;
pub mod token;

pub use lexer::Lexer;
pub use token::{Token, TokenType, TokenView};
