use vstd::prelude::*;
use vstd::string::StrSliceExecFns;

use crate::error::CompileError;
use crate::lexer::{
    is_digit_char, is_whitespace_char, lemma_digit_run, lex, lex_from, prefix_tokens, scan_number,
};
use crate::token::{Token, TokenKind};

verus! {

/// The tokens of an input and a cursor into them, which only moves forward,
/// one token per token consumed.
pub struct Tokenizer<'a> {
    pub input: &'a str,
    pub tokens: Vec<Token>,
    pub current: usize,
}

/// Whether the token at `i` exists and is the operator `op`.
pub open spec fn is_operator_at(tokens: Seq<Token>, i: int, op: char) -> bool {
    0 <= i < tokens.len() && tokens[i].kind == TokenKind::Reserved(op)
}

impl<'a> Tokenizer<'a> {
    /// Tokenizes `input`; the cursor starts at the first token.
    pub fn new(input: &'a str) -> (r: Result<Tokenizer<'a>, CompileError>)
        ensures
            match lex(input@) {
                Ok(toks) => r matches Ok(t) && t.input == input && t.tokens@ == toks && t.current
                    == 0,
                Err(e) => r == Err::<Tokenizer<'a>, CompileError>(e),
            },
    {
        let mut tokenizer = Tokenizer { input, tokens: Vec::new(), current: 0 };
        match tokenizer.tokenize() {
            Ok(()) => {
                assert(tokenizer.tokens@ =~= Seq::<Token>::empty() + lex(input@)->Ok_0);
                Ok(tokenizer)
            },
            Err(e) => Err(e),
        }
    }

    /// Appends the tokens of the input to `tokens`. On an error nothing is
    /// appended.
    pub fn tokenize(&mut self) -> (r: Result<(), CompileError>)
        ensures
            final(self).input == old(self).input,
            final(self).current == old(self).current,
            match lex(old(self).input@) {
                Ok(toks) => r is Ok && final(self).tokens@ == old(self).tokens@ + toks,
                Err(e) => r == Err::<(), CompileError>(e) && final(self).tokens@ == old(
                    self,
                ).tokens@,
            },
    {
        let p = self.input;
        let n = p.unicode_len();
        let mut toks: Vec<Token> = Vec::new();
        let mut pos: usize = 0;
        proof {
            assert(toks@ + Seq::<Token>::empty() =~= Seq::<Token>::empty());
        }
        while pos < n
            invariant
                n == p@.len(),
                p == self.input,
                pos <= n,
                prefix_tokens(toks@, lex_from(p@, pos as int)) == lex(p@),
            decreases n - pos,
        {
            let c = p.get_char(pos);
            if is_whitespace_char(c) {
                pos = pos + 1;
            } else if c == '+' || c == '-' {
                let t = Token { kind: TokenKind::Reserved(c) };
                proof {
                    let rest = lex_from(p@, pos + 1);
                    if rest is Ok {
                        assert(toks@.push(t) + rest->Ok_0 =~= toks@ + (seq![t] + rest->Ok_0));
                    }
                }
                toks.push(t);
                pos = pos + 1;
            } else if is_digit_char(c) {
                match scan_number(p, pos) {
                    Ok((v, end)) => {
                        let t = Token { kind: TokenKind::Number(v) };
                        proof {
                            lemma_digit_run(p@, pos as int);
                            let rest = lex_from(p@, end as int);
                            if rest is Ok {
                                assert(toks@.push(t) + rest->Ok_0 =~= toks@ + (seq![t]
                                    + rest->Ok_0));
                            }
                        }
                        toks.push(t);
                        pos = end;
                    },
                    Err(e) => {
                        return Err(e);
                    },
                }
            } else {
                return Err(CompileError::UnexpectedChar { ch: c, pos });
            }
        }
        proof {
            assert(toks@ + Seq::<Token>::empty() =~= toks@);
        }
        self.tokens.append(&mut toks);
        Ok(())
    }

    /// Moves past the next token when it is the operator `op`.
    pub fn consume(&mut self, op: char) -> (r: bool)
        ensures
            r == is_operator_at(old(self).tokens@, old(self).current as int, op),
            final(self).current == if r {
                old(self).current + 1
            } else {
                old(self).current as int
            },
            final(self).tokens@ == old(self).tokens@,
            final(self).input == old(self).input,
    {
        if self.current < self.tokens.len() && self.tokens[self.current].kind
            == TokenKind::Reserved(op) {
            self.current = self.current + 1;
            true
        } else {
            false
        }
    }

    /// Moves past the next token, which must be the operator `op`.
    pub fn expect(&mut self, op: char) -> (r: Result<(), CompileError>)
        ensures
            (r is Ok) == is_operator_at(old(self).tokens@, old(self).current as int, op),
            r is Err ==> r == Err::<(), CompileError>(
                CompileError::ExpectedOperator { op, index: old(self).current },
            ),
            final(self).current == if r is Ok {
                old(self).current + 1
            } else {
                old(self).current as int
            },
            final(self).tokens@ == old(self).tokens@,
            final(self).input == old(self).input,
    {
        if self.current < self.tokens.len() && self.tokens[self.current].kind
            == TokenKind::Reserved(op) {
            self.current = self.current + 1;
            Ok(())
        } else {
            Err(CompileError::ExpectedOperator { op, index: self.current })
        }
    }

    /// Moves past the next token, which must be a number, and gives its value.
    pub fn expect_number(&mut self) -> (r: Result<i32, CompileError>)
        ensures
            match r {
                Ok(n) => old(self).current < old(self).tokens@.len() && old(self).tokens@[old(
                    self,
                ).current as int].kind == TokenKind::Number(n) && final(self).current == old(
                    self,
                ).current + 1,
                Err(e) => !(old(self).current < old(self).tokens@.len() && old(self).tokens@[old(
                    self,
                ).current as int].kind is Number) && e == CompileError::ExpectedNumber {
                    index: old(self).current,
                } && final(self).current == old(self).current,
            },
            final(self).tokens@ == old(self).tokens@,
            final(self).input == old(self).input,
    {
        if self.current < self.tokens.len() {
            if let TokenKind::Number(num) = self.tokens[self.current].kind {
                self.current = self.current + 1;
                return Ok(num);
            }
        }
        Err(CompileError::ExpectedNumber { index: self.current })
    }

    /// Whether every token has been consumed.
    pub fn at_eof(&self) -> (r: bool)
        ensures
            r == (self.current >= self.tokens@.len()),
    {
        self.current >= self.tokens.len()
    }
}

} // verus!
