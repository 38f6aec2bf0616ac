use crate::token_type::TokenType;
use vstd::prelude::*;

verus! {

/// A token: its kind, the exact source text it came from, and the
/// 1-based source line on which it started. For `Error` tokens the
/// lexeme carries a human-readable message instead of source text.
pub struct Token {
    pub ttype: TokenType,
    pub lexeme: String,
    pub line: usize,
}

impl Token {
    pub fn new(ttype: TokenType, lexeme: String, line: usize) -> (t: Token)
        ensures
            t.ttype == ttype,
            t.lexeme == lexeme,
            t.line == line,
    {
        Token { ttype, lexeme, line }
    }

    pub fn is(&self, ttype: TokenType) -> (r: bool)
        ensures
            r == (self.ttype == ttype),
    {
        self.ttype == ttype
    }

    pub fn token_type(&self) -> (r: TokenType)
        ensures
            r == self.ttype,
    {
        self.ttype
    }

    pub fn as_string(&self) -> (r: String)
        ensures
            r@ == self.lexeme@,
    {
        self.lexeme.clone()
    }

    pub fn eof(line: usize) -> (t: Token)
        ensures
            t.ttype == TokenType::Eof,
            t.lexeme@ == Seq::<char>::empty(),
            t.line == line,
    {
        Token { ttype: TokenType::Eof, lexeme: String::new(), line }
    }

    /// The token a parser starts from, before any input was read.
    pub fn undefined() -> (t: Token)
        ensures
            t.ttype == TokenType::Undefined,
            t.lexeme@ == Seq::<char>::empty(),
            t.line == 0,
    {
        Token { ttype: TokenType::Undefined, lexeme: String::new(), line: 0 }
    }

    /// An explicit copy; `lexeme` is an owned string, so tokens are not `Copy`.
    pub fn duplicate(&self) -> (t: Token)
        ensures
            t.ttype == self.ttype,
            t.lexeme == self.lexeme,
            t.line == self.line,
    {
        Token { ttype: self.ttype, lexeme: self.lexeme.clone(), line: self.line }
    }
}

} // verus!
