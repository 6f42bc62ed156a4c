use vstd::prelude::*;
use crate::token_type::TokenType;

verus! {

/// One lexical token: its kind together with the exact source text it was
/// scanned from.
#[derive(Debug, PartialEq)]
pub struct Token {
    pub token_type: TokenType,
    pub lexeme: String,
}

/// The mathematical image of a token: its kind and the characters of its
/// lexeme.
pub ghost struct TokenView {
    pub token_type: TokenType,
    pub lexeme: Seq<char>,
}

impl View for Token {
    type V = TokenView;

    open spec fn view(&self) -> TokenView {
        TokenView { token_type: self.token_type, lexeme: self.lexeme@ }
    }
}

impl Clone for Token {
    fn clone(&self) -> (r: Self)
        ensures
            r == *self,
    {
        Token { token_type: self.token_type, lexeme: self.lexeme.clone() }
    }
}

impl Token {
    pub fn new(token_type: TokenType, lexeme: String) -> (t: Token)
        ensures
            t@ == (TokenView { token_type, lexeme: lexeme@ }),
    {
        Token { token_type, lexeme }
    }
}

/// A literal operand: a boolean, or an unsigned number whose truthiness is
/// "nonzero".
#[derive(Debug, Clone, Copy, PartialEq, Eq, Structural)]
pub enum Literal {
    Boolean(bool),
    Number(u64),
}

impl Literal {
    /// Truthiness of a literal: a boolean is itself, a number is true iff it
    /// is nonzero.
    pub open spec fn spec_evaluate(&self) -> bool {
        match self {
            Literal::Boolean(b) => *b,
            Literal::Number(n) => *n != 0,
        }
    }

    #[verifier::when_used_as_spec(spec_evaluate)]
    pub fn evaluate(&self) -> (r: bool)
        ensures
            r == self.spec_evaluate(),
    {
        match self {
            Literal::Boolean(b) => *b,
            Literal::Number(n) => *n != 0,
        }
    }
}

} // verus!
