//! The closed set of token kinds produced by the lexer.

use vstd::prelude::*;

verus! {

/// Kind of a lexical token: punctuation and operators, keywords,
/// literal classes, and the synthetic end-of-input marker.
///
/// Token equality throughout the crate is defined by kind alone.
#[derive(Debug, Clone, Copy, PartialEq, Eq, Structural)]
pub enum TokenType {
    // one- and two-character punctuation and operators
    Opus,
    Perc,
    Amp,
    ParenL,
    ParenR,
    Aster,
    Plus,
    Comma,
    Minus,
    Period,
    Slash,
    Colon,
    SemiColon,
    Less,
    Assign,
    Greater,
    BracketL,
    BracketR,
    Hat,
    BraceL,
    Bar,
    BraceR,
    Tilda,
    // keywords
    And,
    Break,
    Do,
    Else,
    Elseif,
    End,
    False,
    For,
    Function,
    Goto,
    If,
    In,
    Local,
    Nil,
    Not,
    Or,
    Repeat,
    Return,
    Then,
    True,
    Until,
    While,
    // multi-character operators
    IDiv,
    Concat,
    Dots,
    Eql,
    Ge,
    Le,
    Ne,
    ShL,
    ShR,
    DbColon,
    Eof,
    // literal classes
    Float,
    Int,
    Name,
    StringLit,
    // line comments, collected apart from the token stream
    Comment,
}

} // verus!
