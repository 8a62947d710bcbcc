//! Lexical front end for a line-oriented lightweight markup language.
//!
//! The lexer turns text into a sequence of tokens (headings, breaks, code
//! fences, line terminators and plain text runs), each carrying the range of
//! character offsets it covers in the input.
pub mod lexer;
pub mod model;
pub mod next_while;
pub mod token;

pub use lexer::{tokenize, Lexer, LexerIntoIterator};
pub use next_while::{Cursor, NextWhile};
pub use token::{NewLineType, Token, TokenContent};
