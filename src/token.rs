use vstd::prelude::*;

verus! {

/// What a token is: a one-character operator or a number literal.
#[derive(Clone, Copy, Debug, PartialEq, Eq, Structural)]
pub enum TokenKind {
    Reserved(char),
    Number(i32),
}

#[derive(Clone, Copy, Debug, PartialEq, Eq, Structural)]
pub struct Token {
    pub kind: TokenKind,
}

} // verus!
