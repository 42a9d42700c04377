use vstd::prelude::*;

use crate::error::CompileError;
use crate::lexer::lex;
use crate::listing::{
    append_instr, header_string, instr_text, lines_text, program_text, Instr,
};
use crate::token::Token;
use crate::tokenizer::{is_operator_at, Tokenizer};

verus! {

/// The instructions for the `(operator, number)` pairs from token `i` on:
/// `+` gives an `add`, `-` a `sub`. Any other token where an operator
/// belongs fails with `-` expected; an operator without a number after it
/// fails with a number expected.
pub open spec fn emit_rest(toks: Seq<Token>, i: int) -> Result<Seq<Instr>, CompileError>
    decreases toks.len() - i,
{
    if i < 0 || i >= toks.len() {
        Ok(seq![])
    } else if !is_operator_at(toks, i, '+') && !is_operator_at(toks, i, '-') {
        Err(CompileError::ExpectedOperator { op: '-', index: i as usize })
    } else if i + 1 < toks.len() && toks[i + 1].kind is Number {
        let n = toks[i + 1].kind->Number_0;
        let ins = if is_operator_at(toks, i, '+') {
            Instr::Add(n)
        } else {
            Instr::Sub(n)
        };
        prefix_instrs(seq![ins], emit_rest(toks, i + 2))
    } else {
        Err(CompileError::ExpectedNumber { index: (i + 1) as usize })
    }
}

/// `p` in front of the instructions of `r`, or the error of `r`.
pub open spec fn prefix_instrs(p: Seq<Instr>, r: Result<Seq<Instr>, CompileError>) -> Result<
    Seq<Instr>,
    CompileError,
> {
    match r {
        Ok(rest) => Ok(p + rest),
        Err(e) => Err(e),
    }
}

/// `p`, then the instructions of `r`, then `ret`; or the error of `r`.
pub open spec fn finish_instrs(p: Seq<Instr>, r: Result<Seq<Instr>, CompileError>) -> Result<
    Seq<Instr>,
    CompileError,
> {
    match r {
        Ok(rest) => Ok(p + rest + seq![Instr::Ret]),
        Err(e) => Err(e),
    }
}

/// The program for the tokens from `i` on: a number loaded into the
/// accumulator, then the operator/number pairs, then `ret`.
pub open spec fn emit_from(toks: Seq<Token>, i: int) -> Result<Seq<Instr>, CompileError> {
    if 0 <= i < toks.len() && toks[i].kind is Number {
        finish_instrs(seq![Instr::Mov(toks[i].kind->Number_0)], emit_rest(toks, i + 1))
    } else {
        Err(CompileError::ExpectedNumber { index: i as usize })
    }
}

/// The program for a whole token sequence.
pub open spec fn emit(toks: Seq<Token>) -> Result<Seq<Instr>, CompileError> {
    emit_from(toks, 0)
}

/// The assembly text for an expression, or the first error met.
pub open spec fn compile_text(s: Seq<char>) -> Result<Seq<char>, CompileError> {
    match lex(s) {
        Err(e) => Err(e),
        Ok(toks) => match emit(toks) {
            Ok(is) => Ok(program_text(is)),
            Err(e) => Err(e),
        },
    }
}

impl<'a> Tokenizer<'a> {
    /// Consumes the tokens from the cursor on and gives the whole program
    /// text. The text is built in memory, so on an error no partial program
    /// is handed out.
    pub fn generate(&mut self) -> (r: Result<String, CompileError>)
        ensures
            final(self).tokens@ == old(self).tokens@,
            final(self).input == old(self).input,
            match emit_from(old(self).tokens@, old(self).current as int) {
                Ok(is) => r matches Ok(s) && s@ == program_text(is),
                Err(e) => r == Err::<String, CompileError>(e),
            },
    {
        let ghost toks = self.tokens@;
        let ghost start = self.current as int;
        let mut out = header_string();
        let n0 = match self.expect_number() {
            Ok(n) => n,
            Err(e) => {
                return Err(e);
            },
        };
        append_instr(&mut out, Instr::Mov(n0));
        let ghost mut done: Seq<Instr> = seq![Instr::Mov(n0)];
        proof {
            assert(done.drop_last() =~= Seq::<Instr>::empty());
            assert(lines_text(Seq::<Instr>::empty()) == Seq::<char>::empty());
            assert(lines_text(done) =~= instr_text(Instr::Mov(n0)));
            assert(program_text(done) =~= out@);
        }
        while !self.at_eof()
            invariant
                toks == old(self).tokens@,
                start == old(self).current as int,
                self.tokens@ == toks,
                self.input == old(self).input,
                out@ == program_text(done),
                finish_instrs(done, emit_rest(toks, self.current as int)) == emit_from(
                    toks,
                    start,
                ),
            decreases toks.len() - self.current,
        {
            let ghost before = done;
            let ghost at = self.current as int;
            let ins;
            if self.consume('+') {
                let n = match self.expect_number() {
                    Ok(n) => n,
                    Err(e) => {
                        return Err(e);
                    },
                };
                ins = Instr::Add(n);
            } else {
                match self.expect('-') {
                    Ok(()) => {},
                    Err(e) => {
                        assert(emit_rest(toks, at) == Err::<Seq<Instr>, CompileError>(e));
                        return Err(e);
                    },
                }
                let n = match self.expect_number() {
                    Ok(n) => n,
                    Err(e) => {
                        return Err(e);
                    },
                };
                ins = Instr::Sub(n);
            }
            append_instr(&mut out, ins);
            proof {
                done = done.push(ins);
                assert(done.drop_last() =~= before);
                assert(self.current == at + 2);
                let rest = emit_rest(toks, at + 2);
                if rest is Ok {
                    assert(before + (seq![ins] + rest->Ok_0) + seq![Instr::Ret] =~= done
                        + rest->Ok_0 + seq![Instr::Ret]);
                }
            }
        }
        append_instr(&mut out, Instr::Ret);
        proof {
            let fin = done.push(Instr::Ret);
            assert(fin.drop_last() =~= done);
            assert(done + Seq::<Instr>::empty() + seq![Instr::Ret] =~= fin);
            assert(out@ =~= program_text(fin));
        }
        Ok(out)
    }
}

/// Compiles an expression into an assembly program. The program is complete
/// or there is none: an error hands out no text.
pub fn compile(input: &str) -> (r: Result<String, CompileError>)
    ensures
        match compile_text(input@) {
            Ok(t) => r matches Ok(s) && s@ == t,
            Err(e) => r == Err::<String, CompileError>(e),
        },
{
    let mut tokenizer = match Tokenizer::new(input) {
        Ok(t) => t,
        Err(e) => {
            return Err(e);
        },
    };
    tokenizer.generate()
}

/// Compiles the one expression that a command line holds. Any other number
/// of arguments is an error that names the count.
pub fn run(args: &Vec<String>) -> (r: Result<String, CompileError>)
    ensures
        args.len() != 1 ==> r == Err::<String, CompileError>(
            CompileError::ArgumentCount { given: args.len() },
        ),
        args.len() == 1 ==> match compile_text(args[0]@) {
            Ok(t) => r matches Ok(s) && s@ == t,
            Err(e) => r == Err::<String, CompileError>(e),
        },
{
    if args.len() != 1 {
        return Err(CompileError::ArgumentCount { given: args.len() });
    }
    compile(args[0].as_str())
}

} // verus!
