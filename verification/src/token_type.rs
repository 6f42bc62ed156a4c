use vstd::prelude::*;

verus! {

/// The kind of a lexical token.
///
/// `+` and `|` both scan to `Or`; `*` and `&` both scan to `And`. `Not` is the
/// postfix negation `'`, `PreNot` the prefix negation `!`.
#[derive(Debug, Clone, Copy, PartialEq, Eq, Structural)]
pub enum TokenType {
    Or,
    And,
    Not,
    PreNot,
    Equals,
    LeftParen,
    RightParen,
    True,
    False,
    Num,
    Identifier,
    Eof,
    Semicolon,
}

} // verus!
