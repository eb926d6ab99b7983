//! The front end of a small language: a tokenizer that turns a source text
//! into tokens, and a parser that turns tokens into the syntax trees of
//! sums.
//!
//! `scan` and `grammar` say what tokenizing and parsing mean, over
//! sequences of characters and of tokens; `lexer` and `ast` hold the
//! `Lexer` and the `Parser` that are proved to do it.

pub mod ast;
pub mod chars;
pub mod grammar;
pub mod lexer;
pub mod round_trip;
pub mod scan;
pub mod token;
