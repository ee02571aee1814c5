//! Tokens: the classified units of input text that the lexer produces.

use crate::semantics::SpecToken;
use crate::semantics::all_digits;
use vstd::prelude::*;

verus! {

/// The kind of a token.
#[derive(Debug, Clone, Copy, PartialEq, Eq, Structural)]
pub enum TokenType {
    Integer,
    Plus,
    Minus,
    Eof,
}

/// A classified unit of input text: a kind and, for all kinds but `Eof`,
/// the matched literal text.
#[derive(Debug, Clone)]
pub struct Token {
    pub token_type: TokenType,
    pub value: Option<String>,
}

/// The invariant of every token the lexer produces: an `Integer` token's
/// literal text holds at least one character, all of them decimal digits.
pub open spec fn token_wf(t: Token) -> bool {
    t.token_type == TokenType::Integer ==> match t.value {
        Some(v) => v@.len() >= 1 && all_digits(v@),
        None => false,
    }
}

/// Holds when the executable token `t` is the one the model names `st`.
pub open spec fn token_matches(t: Token, st: SpecToken) -> bool {
    match st {
        SpecToken::Integer(ds) => t.token_type == TokenType::Integer && (t.value matches Some(v)
            && v@ == ds),
        SpecToken::Plus => t.token_type == TokenType::Plus && (t.value matches Some(v) && v@
            == seq!['+']),
        SpecToken::Minus => t.token_type == TokenType::Minus && (t.value matches Some(v) && v@
            == seq!['-']),
        SpecToken::End => t.token_type == TokenType::Eof && t.value is None,
        SpecToken::Invalid => false,
    }
}

impl Token {
    pub fn new(token_type: TokenType, value: Option<String>) -> (t: Token)
        ensures
            t.token_type == token_type,
            t.value == value,
    {
        Token { token_type, value }
    }
}

} // verus!
