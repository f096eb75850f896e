//! Token values handed out by the scanner, and their mathematical image.

use vstd::prelude::*;

verus! {

/// Lexical category of a token.
///
/// `To`, `Iff` and `Error` are reserved variants: no classification rule
/// produces them today. They are kept so that the shape of the enumeration
/// is stable for consumers that match on it exhaustively.
#[derive(Clone, Copy, PartialEq, Eq, Structural, Debug)]
pub enum TokenKind {
    // Single-character punctuation and grouping
    Comma,
    Colon,
    Semicolon,
    Pound,
    Dollar,
    At,
    Underscore,
    Lparen,
    Rparen,
    Lsquare,
    Rsquare,
    Lcurly,
    Rcurly,
    Dot,
    // Arithmetic operators
    Add,
    Sub,
    Mul,
    Div,
    // Relational and logical operators
    Bang,
    Eq,
    To,
    Gets,
    Implies,
    Iff,
    Neq,
    Gt,
    Lt,
    Ge,
    Le,
    // Literal classes
    Number,
    Ident,
    // Sentinels and diagnostics
    Error,
    Eof,
    Unknown,
}

/// A classified lexeme: its category, the exact source text it spans (an
/// owned copy), and the half-open interval `[start, end)` of character
/// offsets it occupies in the original input.
#[derive(Debug)]
pub struct Token {
    pub kind: TokenKind,
    pub raw: String,
    pub start: usize,
    pub end: usize,
}

/// Mathematical image of a [`Token`]: the category, the spanned text as a
/// sequence of characters, and the offsets as unbounded integers.
pub ghost struct TokenModel {
    pub kind: TokenKind,
    pub raw: Seq<char>,
    pub start: int,
    pub end: int,
}

impl View for Token {
    type V = TokenModel;

    open spec fn view(&self) -> TokenModel {
        TokenModel {
            kind: self.kind,
            raw: self.raw@,
            start: self.start as int,
            end: self.end as int,
        }
    }
}

} // verus!

