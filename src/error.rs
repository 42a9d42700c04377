use vstd::prelude::*;

verus! {

/// Why an expression could not be compiled. Lexical errors carry a character
/// position in the input; grammar errors carry an index into the tokens.
#[derive(Clone, Copy, Debug, PartialEq, Eq, Structural)]
pub enum CompileError {
    /// A character that is neither whitespace, an operator nor a digit.
    UnexpectedChar { ch: char, pos: usize },
    /// The digit run that starts at `pos` does not fit in an `i32`.
    NumberOutOfRange { pos: usize },
    /// A number was required at token `index` (or the tokens ran out there).
    ExpectedNumber { index: usize },
    /// The operator `op` was required at token `index`.
    ExpectedOperator { op: char, index: usize },
    /// The command line did not hold exactly one expression.
    ArgumentCount { given: usize },
}

} // verus!
