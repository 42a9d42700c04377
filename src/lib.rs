//! A compiler for `+`/`-` arithmetic over non-negative integers that emits
//! x86-64 assembly in Intel syntax, with the lexer, the emitter and the
//! output text all verified against mathematical models.

mod listing;
mod codegen;
mod error;
mod laws;
mod lexer;
mod token;
mod tokenizer;

pub use listing::{
    accumulator, append_decimal, append_instr, append_int, decimal, digit_char, header,
    header_string, instr_text, int_text, lines_text, program_text, Instr,
};
pub use codegen::{
    compile, compile_text, emit, emit_from, emit_rest, finish_instrs, prefix_instrs, run,
};
pub use error::CompileError;
pub use laws::{
    eval_left, expr_instrs, expr_text, law_left_to_right, law_same_input_same_output,
    law_whitespace_insensitive, removable_space, same_tokens, term_instr, terms_text, terms_tokens,
    valid_terms,
};
pub use lexer::{
    digit_run_end, digit_value, digits_value, is_digit, is_digit_char, is_space,
    is_whitespace_char, lex, lex_from, prefix_tokens, scan_number, with_token, I32_MAX,
};
pub use token::{Token, TokenKind};
pub use tokenizer::{is_operator_at, Tokenizer};
