use vstd::prelude::*;

use crate::codegen::{compile_text, emit_rest};
use crate::error::CompileError;
use crate::lexer::{
    digit_run_end, digit_value, digits_value, is_digit, is_space, lemma_digit_run, lemma_run_end_at,
    lex, lex_from, with_token, I32_MAX,
};
use crate::listing::{accumulator, decimal, digit_char, program_text, Instr};
use crate::token::{Token, TokenKind};

verus! {

/// Each pair is an operator, `+` or `-`, and a number that fits in an `i32`.
pub open spec fn valid_terms(terms: Seq<(char, nat)>) -> bool {
    forall|k: int|
        0 <= k < terms.len() ==> ((#[trigger] terms[k]).0 == '+' || terms[k].0 == '-') && terms[k].1
            <= I32_MAX
}

/// The text of the pairs, each as its operator followed by its number's digits.
pub open spec fn terms_text(terms: Seq<(char, nat)>) -> Seq<char>
    decreases terms.len(),
{
    if terms.len() == 0 {
        Seq::empty()
    } else {
        seq![terms[0].0] + decimal(terms[0].1) + terms_text(terms.drop_first())
    }
}

/// The expression `n0 op1 n1 ... opk nk`, written without whitespace.
pub open spec fn expr_text(n0: nat, terms: Seq<(char, nat)>) -> Seq<char> {
    decimal(n0) + terms_text(terms)
}

/// The tokens of the pairs: an operator, then a number, for each.
pub open spec fn terms_tokens(terms: Seq<(char, nat)>) -> Seq<Token>
    decreases terms.len(),
{
    if terms.len() == 0 {
        Seq::empty()
    } else {
        seq![
            Token { kind: TokenKind::Reserved(terms[0].0) },
            Token { kind: TokenKind::Number(terms[0].1 as i32) },
        ] + terms_tokens(terms.drop_first())
    }
}

/// The instruction that one pair becomes.
pub open spec fn term_instr(t: (char, nat)) -> Instr {
    if t.0 == '+' {
        Instr::Add(t.1 as i32)
    } else {
        Instr::Sub(t.1 as i32)
    }
}

/// The instructions of the expression `n0 op1 n1 ... opk nk`.
pub open spec fn expr_instrs(n0: nat, terms: Seq<(char, nat)>) -> Seq<Instr> {
    seq![Instr::Mov(n0 as i32)] + terms.map_values(|t: (char, nat)| term_instr(t)) + seq![
        Instr::Ret,
    ]
}

/// The value of `n0 op1 n1 ... opk nk`, evaluated left to right.
pub open spec fn eval_left(n0: nat, terms: Seq<(char, nat)>) -> int
    decreases terms.len(),
{
    if terms.len() == 0 {
        n0 as int
    } else {
        let acc = eval_left(n0, terms.drop_last());
        if terms.last().0 == '+' {
            acc + terms.last().1
        } else {
            acc - terms.last().1
        }
    }
}

proof fn lemma_digit_char(d: nat)
    requires
        d < 10,
    ensures
        is_digit(digit_char(d)),
        digit_value(digit_char(d)) == d,
        !is_space(digit_char(d)),
{
}

/// The digits of `n` are digits, and read back as `n`.
proof fn lemma_decimal(n: nat)
    ensures
        decimal(n).len() >= 1,
        forall|k: int| 0 <= k < decimal(n).len() ==> is_digit(#[trigger] decimal(n)[k]),
        digits_value(decimal(n)) == n,
    decreases n,
{
    if n < 10 {
        lemma_digit_char(n);
        assert(decimal(n).drop_last() =~= Seq::<char>::empty());
        assert(digits_value(Seq::<char>::empty()) == 0);
    } else {
        lemma_decimal(n / 10);
        lemma_digit_char(n % 10);
        let d = decimal(n);
        assert(d.drop_last() =~= decimal(n / 10));
        assert(d.last() == digit_char(n % 10));
        assert(digits_value(d) == digits_value(decimal(n / 10)) * 10 + digit_value(
            digit_char(n % 10),
        ));
        assert(n == (n / 10) * 10 + n % 10);
        assert(digits_value(d) == (n / 10) * 10 + n % 10);
        assert forall|k: int| 0 <= k < d.len() implies is_digit(#[trigger] d[k]) by {
            if k < d.len() - 1 {
                assert(d[k] == decimal(n / 10)[k]);
            }
        }
    }
}

/// Lexing from `i`, where the digits of `n` stand and no digit follows them,
/// gives the number `n` and then whatever follows.
proof fn lemma_lex_number(s: Seq<char>, i: int, n: nat)
    requires
        n <= I32_MAX,
        0 <= i,
        i + decimal(n).len() <= s.len(),
        s.subrange(i, i + decimal(n).len()) == decimal(n),
        i + decimal(n).len() == s.len() || !is_digit(s[i + decimal(n).len()]),
    ensures
        lex_from(s, i) == with_token(
            Token { kind: TokenKind::Number(n as i32) },
            lex_from(s, i + decimal(n).len()),
        ),
{
    let j = i + decimal(n).len();
    lemma_decimal(n);
    assert forall|m: int| i <= m < j implies is_digit(#[trigger] s[m]) by {
        assert(s[m] == s.subrange(i, j)[m - i]);
    }
    lemma_run_end_at(s, i, j);
    assert(s[i] == decimal(n)[0]);
    lemma_digit_char_not_space(s[i]);
}

proof fn lemma_digit_char_not_space(c: char)
    requires
        is_digit(c),
    ensures
        !is_space(c),
        c != '+',
        c != '-',
{
}

/// Lexing from `i`, where the text of `terms` fills the rest of the input,
/// gives the tokens of `terms`.
proof fn lemma_lex_terms(s: Seq<char>, i: int, terms: Seq<(char, nat)>)
    requires
        0 <= i <= s.len(),
        valid_terms(terms),
        s.subrange(i, s.len() as int) == terms_text(terms),
    ensures
        lex_from(s, i) == Ok::<Seq<Token>, CompileError>(terms_tokens(terms)),
    decreases terms.len(),
{
    if terms.len() == 0 {
        assert(s.subrange(i, s.len() as int).len() == 0);
    } else {
        let op = terms[0].0;
        let n = terms[0].1;
        let d = decimal(n);
        let rest = terms.drop_first();
        let j = i + 1 + d.len();
        assert(valid_terms(rest)) by {
            assert forall|k: int| 0 <= k < rest.len() implies ((#[trigger] rest[k]).0 == '+'
                || rest[k].0 == '-') && rest[k].1 <= I32_MAX by {
                assert(rest[k] == terms[k + 1]);
            }
        }
        assert(terms[0] == terms[0]);
        let tail = s.subrange(i, s.len() as int);
        assert(terms_text(terms) == seq![op] + d + terms_text(rest));
        assert(tail.len() == 1 + d.len() + terms_text(rest).len());
        assert(tail[0] == op);
        assert(s[i] == op);
        assert(s.subrange(i + 1, j) =~= d) by {
            assert forall|m: int| 0 <= m < d.len() implies s.subrange(i + 1, j)[m] == d[m] by {
                assert(s[i + 1 + m] == tail[1 + m]);
            }
        }
        assert(s.subrange(j, s.len() as int) =~= terms_text(rest)) by {
            assert forall|m: int| 0 <= m < s.len() - j implies s.subrange(j, s.len() as int)[m]
                == terms_text(rest)[m] by {
                assert(s[j + m] == tail[1 + d.len() + m]);
            }
        }
        if j < s.len() {
            assert(terms_text(rest).len() > 0);
            assert(s[j] == s.subrange(j, s.len() as int)[0]);
            assert(rest[0] == terms[1]);
            assert(s[j] == rest[0].0);
        }
        lemma_lex_number(s, i + 1, n);
        lemma_lex_terms(s, j, rest);
        assert(seq![Token { kind: TokenKind::Reserved(op) }] + (seq![
            Token { kind: TokenKind::Number(n as i32) },
        ] + terms_tokens(rest)) =~= terms_tokens(terms));
    }
}

/// Emitting from `i`, where the tokens of `terms` fill the rest, gives one
/// instruction per pair.
proof fn lemma_emit_terms(toks: Seq<Token>, i: int, terms: Seq<(char, nat)>)
    requires
        0 <= i <= toks.len(),
        valid_terms(terms),
        toks.subrange(i, toks.len() as int) == terms_tokens(terms),
    ensures
        emit_rest(toks, i) == Ok::<Seq<Instr>, CompileError>(
            terms.map_values(|t: (char, nat)| term_instr(t)),
        ),
    decreases terms.len(),
{
    let tail = toks.subrange(i, toks.len() as int);
    if terms.len() == 0 {
        assert(tail.len() == 0);
        assert(terms.map_values(|t: (char, nat)| term_instr(t)) =~= Seq::<Instr>::empty());
    } else {
        let rest = terms.drop_first();
        assert(valid_terms(rest)) by {
            assert forall|k: int| 0 <= k < rest.len() implies ((#[trigger] rest[k]).0 == '+'
                || rest[k].0 == '-') && rest[k].1 <= I32_MAX by {
                assert(rest[k] == terms[k + 1]);
            }
        }
        assert(terms[0] == terms[0]);
        assert(terms_tokens(terms) == seq![
            Token { kind: TokenKind::Reserved(terms[0].0) },
            Token { kind: TokenKind::Number(terms[0].1 as i32) },
        ] + terms_tokens(rest));
        assert(tail.len() == 2 + terms_tokens(rest).len());
        assert(toks[i] == tail[0]);
        assert(toks[i + 1] == tail[1]);
        assert(toks.subrange(i + 2, toks.len() as int) =~= terms_tokens(rest)) by {
            assert forall|m: int| 0 <= m < toks.len() - (i + 2) implies toks.subrange(
                i + 2,
                toks.len() as int,
            )[m] == terms_tokens(rest)[m] by {
                assert(toks[i + 2 + m] == tail[2 + m]);
            }
        }
        lemma_emit_terms(toks, i + 2, rest);
        assert(seq![term_instr(terms[0])] + rest.map_values(|t: (char, nat)| term_instr(t))
            =~= terms.map_values(|t: (char, nat)| term_instr(t)));
    }
}

/// Running the instructions of an expression leaves its left-to-right value
/// in the accumulator.
proof fn lemma_accumulator(n0: nat, terms: Seq<(char, nat)>)
    requires
        n0 <= I32_MAX,
        valid_terms(terms),
    ensures
        accumulator(seq![Instr::Mov(n0 as i32)] + terms.map_values(
            |t: (char, nat)| term_instr(t),
        )) == eval_left(n0, terms),
    decreases terms.len(),
{
    let is = seq![Instr::Mov(n0 as i32)] + terms.map_values(|t: (char, nat)| term_instr(t));
    if terms.len() == 0 {
        assert(is.drop_last() =~= Seq::<Instr>::empty());
    } else {
        let init = terms.drop_last();
        assert(valid_terms(init)) by {
            assert forall|k: int| 0 <= k < init.len() implies ((#[trigger] init[k]).0 == '+'
                || init[k].0 == '-') && init[k].1 <= I32_MAX by {
                assert(init[k] == terms[k]);
            }
        }
        lemma_accumulator(n0, init);
        assert(is.drop_last() =~= seq![Instr::Mov(n0 as i32)] + init.map_values(
            |t: (char, nat)| term_instr(t),
        ));
        assert(terms[terms.len() - 1] == terms.last());
    }
}

/// An expression `n0 op1 n1 ... opk nk` of numbers that fit in an `i32`
/// compiles to a program whose accumulator, run through the `mov` and each
/// `add` or `sub` in turn, ends at `((n0 op1 n1) op2 n2) ... opk nk`.
pub proof fn law_left_to_right(n0: nat, terms: Seq<(char, nat)>)
    requires
        n0 <= I32_MAX,
        valid_terms(terms),
    ensures
        compile_text(expr_text(n0, terms)) == Ok::<Seq<char>, CompileError>(
            program_text(expr_instrs(n0, terms)),
        ),
        accumulator(expr_instrs(n0, terms)) == eval_left(n0, terms),
{
    let s = expr_text(n0, terms);
    let d = decimal(n0);
    assert(s.subrange(0, d.len() as int) =~= d);
    assert(s.subrange(d.len() as int, s.len() as int) =~= terms_text(terms));
    if d.len() < s.len() {
        assert(terms.len() > 0);
        assert(terms[0] == terms[0]);
        assert(s[d.len() as int] == terms[0].0);
    }
    lemma_lex_number(s, 0, n0);
    lemma_lex_terms(s, d.len() as int, terms);
    let toks = seq![Token { kind: TokenKind::Number(n0 as i32) }] + terms_tokens(terms);
    assert(toks.subrange(1, toks.len() as int) =~= terms_tokens(terms));
    lemma_emit_terms(toks, 1, terms);
    lemma_accumulator(n0, terms);
    let is = seq![Instr::Mov(n0 as i32)] + terms.map_values(|t: (char, nat)| term_instr(t));
    let e = expr_instrs(n0, terms);
    assert(e.drop_last() =~= is);
    assert(e.last() == Instr::Ret);
    assert(accumulator(e) == accumulator(is));
}

/// Compiling is a function of the input text alone: the same input always
/// gives the same program, or the same error.
pub proof fn law_same_input_same_output(a: Seq<char>, b: Seq<char>)
    requires
        a == b,
    ensures
        compile_text(a) == compile_text(b),
{
}

/// Both results are errors, or both are the same tokens.
pub open spec fn same_tokens(
    a: Result<Seq<Token>, CompileError>,
    b: Result<Seq<Token>, CompileError>,
) -> bool {
    &&& (a is Ok <==> b is Ok)
    &&& (a is Ok ==> a == b)
}

/// Position `i` holds whitespace that does not stand between two digits.
pub open spec fn removable_space(s: Seq<char>, i: int) -> bool {
    &&& 0 <= i < s.len()
    &&& is_space(s[i])
    &&& !(0 < i && i + 1 < s.len() && is_digit(s[i - 1]) && is_digit(s[i + 1]))
}

/// After the removed whitespace, lexing `s` from `k` and lexing `t` from
/// `k - 1` meet the same characters.
proof fn lemma_lex_shifted(s: Seq<char>, i: int, k: int)
    requires
        removable_space(s, i),
        i + 1 <= k <= s.len(),
    ensures
        same_tokens(lex_from(s, k), lex_from(s.remove(i), k - 1)),
    decreases s.len() - k,
{
    let t = s.remove(i);
    if k < s.len() {
        let c = s[k];
        assert(t[k - 1] == c);
        if is_space(c) || c == '+' || c == '-' {
            lemma_lex_shifted(s, i, k + 1);
        } else if is_digit(c) {
            lemma_digit_run(s, k);
            let e = digit_run_end(s, k);
            assert forall|m: int| k - 1 <= m < e - 1 implies is_digit(#[trigger] t[m]) by {
                assert(t[m] == s[m + 1]);
            }
            if e < s.len() {
                assert(t[e - 1] == s[e]);
            }
            lemma_run_end_at(t, k - 1, e - 1);
            assert(s.subrange(k, e) =~= t.subrange(k - 1, e - 1));
            lemma_lex_shifted(s, i, e);
        }
    }
}

/// Before the removed whitespace, lexing `s` and lexing `t` from `k` give
/// the same tokens, or both fail.
proof fn lemma_lex_before_space(s: Seq<char>, i: int, k: int)
    requires
        removable_space(s, i),
        0 <= k <= i,
    ensures
        same_tokens(lex_from(s, k), lex_from(s.remove(i), k)),
    decreases i - k,
{
    let t = s.remove(i);
    if k == i {
        lemma_lex_shifted(s, i, i + 1);
    } else {
        let c = s[k];
        assert(t[k] == c);
        if is_space(c) || c == '+' || c == '-' {
            lemma_lex_before_space(s, i, k + 1);
        } else if is_digit(c) {
            lemma_digit_run(s, k);
            let e = digit_run_end(s, k);
            if is_digit(s[i]) {
                lemma_digit_char_not_space(s[i]);
            }
            assert(e <= i) by {
                if e > i {
                    assert(is_digit(s[i]));
                }
            }
            assert forall|m: int| k <= m < e implies is_digit(#[trigger] t[m]) by {
                assert(t[m] == s[m]);
            }
            if e < i {
                assert(t[e] == s[e]);
            } else if i < t.len() {
                assert(is_digit(s[i - 1]));
                assert(t[i] == s[i + 1]);
            }
            lemma_run_end_at(t, k, e);
            assert(s.subrange(k, e) =~= t.subrange(k, e));
            lemma_lex_before_space(s, i, e);
        }
    }
}

/// Whitespace that does not stand between two digits changes nothing that
/// lexing finds: removing it leaves the tokens as they were, or leaves the
/// input rejected, and a program compiled from the tokens is the same.
pub proof fn law_whitespace_insensitive(s: Seq<char>, i: int)
    requires
        removable_space(s, i),
    ensures
        same_tokens(lex(s), lex(s.remove(i))),
        lex(s) is Ok ==> compile_text(s.remove(i)) == compile_text(s),
{
    lemma_lex_before_space(s, i, 0);
}

} // verus!
