//! Lexical scanner for a small expression language.
//!
//! The scanner walks an input text once, left to right, and classifies each
//! maximal lexeme: punctuation and operator symbols (including the
//! two-character operators `=>`, `!=`, `<=`, `<-` and `>=`), runs of ASCII
//! digits, runs of ASCII letters, and single unrecognized characters.
//! Whitespace separates lexemes and belongs to no token.

pub mod token;
pub mod tokenizer;
