//! Lexical tokens: a token kind, the lexeme text and the 1-based source line
//! the token started on.

use vstd::prelude::*;

verus! {

/// The kinds of token the lexer produces.
#[derive(Debug, Clone, Copy, PartialEq, Eq, Structural)]
pub enum TokenType {
    Semicolon,
    Plus,
    Minus,
    Asterisk,
    Slash,
    Percent,
    Bang,
    Equal,

    Let,
    Print,
    Empty,
    True,
    False,

    Number,
    Str,
    Identifier,

    Error,
    Eof,
}

/// One lexical token with its source-line metadata.
pub struct Token {
    pub kind: TokenType,
    pub lexeme: String,
    pub line: u64,
}

impl Token {
    /// Builds a token from its parts.
    pub fn new(kind: TokenType, lexeme: String, line: u64) -> (r: Token)
        ensures
            r.kind == kind,
            r.lexeme@ == lexeme@,
            r.line == line,
    {
        Token { kind, lexeme, line }
    }
}

} // verus!
