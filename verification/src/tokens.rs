//! The tokens a lexer produces, the errors it can report, and their
//! mathematical models.

use vstd::prelude::*;

verus! {

/// A literal value embedded in the source text.
#[derive(Debug, Clone, PartialEq, Eq)]
pub enum Literal {
    /// A run of decimal digits, parsed as a signed 32-bit integer.
    Integer(i32),
    /// The contents between two double quotes, taken verbatim.
    Str(String),
}

/// The classification of one token.
#[derive(Debug, Clone, PartialEq, Eq)]
pub enum TokenKind {
    /// A single carriage-return or line-feed character.
    EndLine,
    /// An integer or string literal.
    Literal(Literal),
    /// A fixed operator or punctuation token: `<-` or `=`.
    Symbol(String),
    /// A name of shape `[_A-Za-z][_A-Za-z0-9]*`.
    Identifier(String),
}

/// One classified token, tagged with the line count at the moment it was
/// produced. The count starts at 1 and is incremented as each `EndLine`
/// token is made, so an `EndLine` token already carries the new line
/// number; a token that a skipped comment deferred to carries the count
/// as of its own pull, like any other token.
#[derive(Debug, Clone, PartialEq, Eq)]
pub struct Token {
    pub kind: TokenKind,
    /// Wide enough that incrementing it cannot overflow for any input that
    /// fits in memory.
    pub line: u128,
}

/// A failure surfaced by a pull. After a failure the tokenizer is not
/// meant to be pulled again.
#[derive(Debug, Clone, PartialEq, Eq)]
pub enum LexError {
    /// A digit run that does not fit in a signed 32-bit integer; carries
    /// the offending text.
    InvalidInteger(String),
    /// No lexical rule matches; carries the one character consumed.
    UnexpectedToken(char),
}

/// Model of a `TokenKind`: the same classification over `Seq<char>`.
pub ghost enum KindModel {
    EndLine,
    Integer(i32),
    Str(Seq<char>),
    Symbol(Seq<char>),
    Identifier(Seq<char>),
}

/// Model of a `LexError`.
pub ghost enum ErrorModel {
    InvalidInteger(Seq<char>),
    UnexpectedToken(char),
}

impl View for TokenKind {
    type V = KindModel;

    open spec fn view(&self) -> KindModel {
        match self {
            TokenKind::EndLine => KindModel::EndLine,
            TokenKind::Literal(Literal::Integer(i)) => KindModel::Integer(*i),
            TokenKind::Literal(Literal::Str(s)) => KindModel::Str(s@),
            TokenKind::Symbol(s) => KindModel::Symbol(s@),
            TokenKind::Identifier(s) => KindModel::Identifier(s@),
        }
    }
}

impl View for LexError {
    type V = ErrorModel;

    open spec fn view(&self) -> ErrorModel {
        match self {
            LexError::InvalidInteger(s) => ErrorModel::InvalidInteger(s@),
            LexError::UnexpectedToken(c) => ErrorModel::UnexpectedToken(*c),
        }
    }
}

} // verus!
