use vstd::prelude::*;
use vstd::string::StrSliceExecFns;

use crate::error::CompileError;
use crate::token::{Token, TokenKind};

verus! {

/// The largest value a number literal may have.
pub const I32_MAX: u64 = 0x7fff_ffff;

/// The characters that `char::is_whitespace` accepts: those with the
/// Unicode `White_Space` property.
pub open spec fn is_space(c: char) -> bool {
    let u = c as u32;
    ||| 0x09 <= u <= 0x0d
    ||| u == 0x20
    ||| u == 0x85
    ||| u == 0xa0
    ||| u == 0x1680
    ||| 0x2000 <= u <= 0x200a
    ||| u == 0x2028
    ||| u == 0x2029
    ||| u == 0x202f
    ||| u == 0x205f
    ||| u == 0x3000
}

/// An ASCII decimal digit.
pub open spec fn is_digit(c: char) -> bool {
    '0' <= c <= '9'
}

pub open spec fn digit_value(c: char) -> nat {
    (c as u32 - '0' as u32) as nat
}

/// The base-10 value of a run of digits.
pub open spec fn digits_value(d: Seq<char>) -> nat
    decreases d.len(),
{
    if d.len() == 0 {
        0
    } else {
        digits_value(d.drop_last()) * 10 + digit_value(d.last())
    }
}

/// The end of the maximal run of digits that starts at `i`.
pub open spec fn digit_run_end(s: Seq<char>, i: int) -> int
    decreases s.len() - i,
{
    if 0 <= i < s.len() && is_digit(s[i]) {
        digit_run_end(s, i + 1)
    } else {
        i
    }
}

/// `t` in front of the tokens of `r`, or the error of `r`.
pub open spec fn with_token(t: Token, r: Result<Seq<Token>, CompileError>) -> Result<
    Seq<Token>,
    CompileError,
> {
    prefix_tokens(seq![t], r)
}

/// `p` in front of the tokens of `r`, or the error of `r`.
pub open spec fn prefix_tokens(p: Seq<Token>, r: Result<Seq<Token>, CompileError>) -> Result<
    Seq<Token>,
    CompileError,
> {
    match r {
        Ok(rest) => Ok(p + rest),
        Err(e) => Err(e),
    }
}

/// The tokens of `s` from position `i` on, scanned left to right: whitespace
/// is skipped, `+` and `-` are operators, a maximal run of digits is one
/// number, and anything else is an error at its position.
pub open spec fn lex_from(s: Seq<char>, i: int) -> Result<Seq<Token>, CompileError>
    decreases s.len() - i,
{
    if i < 0 || i >= s.len() {
        Ok(seq![])
    } else if is_space(s[i]) {
        lex_from(s, i + 1)
    } else if s[i] == '+' || s[i] == '-' {
        with_token(Token { kind: TokenKind::Reserved(s[i]) }, lex_from(s, i + 1))
    } else if is_digit(s[i]) {
        let j = digit_run_end(s, i);
        let v = digits_value(s.subrange(i, j));
        proof {
            lemma_digit_run(s, i);
        }
        if v <= I32_MAX {
            with_token(Token { kind: TokenKind::Number(v as i32) }, lex_from(s, j))
        } else {
            Err(CompileError::NumberOutOfRange { pos: i as usize })
        }
    } else {
        Err(CompileError::UnexpectedChar { ch: s[i], pos: i as usize })
    }
}

/// The tokens of a whole input.
pub open spec fn lex(s: Seq<char>) -> Result<Seq<Token>, CompileError> {
    lex_from(s, 0)
}

/// A digit run lies inside the input, holds only digits, and is followed by
/// the end of the input or by a character that is no digit.
pub proof fn lemma_digit_run(s: Seq<char>, i: int)
    requires
        0 <= i <= s.len(),
    ensures
        i <= digit_run_end(s, i) <= s.len(),
        forall|k: int| i <= k < digit_run_end(s, i) ==> is_digit(#[trigger] s[k]),
        digit_run_end(s, i) < s.len() ==> !is_digit(s[digit_run_end(s, i)]),
        i < s.len() && is_digit(s[i]) ==> i < digit_run_end(s, i),
    decreases s.len() - i,
{
    if i < s.len() && is_digit(s[i]) {
        lemma_digit_run(s, i + 1);
    }
}

/// A run of digits that ends where a non-digit (or the input's end) begins
/// is the maximal run.
pub proof fn lemma_run_end_at(s: Seq<char>, i: int, k: int)
    requires
        0 <= i <= k <= s.len(),
        forall|m: int| i <= m < k ==> is_digit(#[trigger] s[m]),
        k == s.len() || !is_digit(s[k]),
    ensures
        digit_run_end(s, i) == k,
    decreases k - i,
{
    if i < k {
        lemma_run_end_at(s, i + 1, k);
    }
}

/// Extending a run of digits never lowers its value.
pub proof fn lemma_value_grows(s: Seq<char>, i: int, k: int, m: int)
    requires
        0 <= i <= k <= m <= s.len(),
        forall|j: int| i <= j < m ==> is_digit(#[trigger] s[j]),
    ensures
        digits_value(s.subrange(i, k)) <= digits_value(s.subrange(i, m)),
    decreases m - k,
{
    if k < m {
        lemma_value_grows(s, i, k, m - 1);
        assert(s.subrange(i, m).drop_last() =~= s.subrange(i, m - 1));
    }
}

/// Whether `c` is whitespace, as `is_space` states it.
pub fn is_whitespace_char(c: char) -> (r: bool)
    ensures
        r == is_space(c),
{
    let u = c as u32;
    (0x09 <= u && u <= 0x0d) || u == 0x20 || u == 0x85 || u == 0xa0 || u == 0x1680 || (0x2000
        <= u && u <= 0x200a) || u == 0x2028 || u == 0x2029 || u == 0x202f || u == 0x205f || u
        == 0x3000
}

/// Whether `c` is an ASCII decimal digit.
pub fn is_digit_char(c: char) -> (r: bool)
    ensures
        r == is_digit(c),
{
    '0' <= c && c <= '9'
}

/// Reads the maximal run of digits that starts at `start`, giving its value
/// and its end, or the out-of-range error when the value exceeds `I32_MAX`.
pub fn scan_number(p: &str, start: usize) -> (r: Result<(i32, usize), CompileError>)
    requires
        start < p@.len(),
        is_digit(p@[start as int]),
    ensures
        match r {
            Ok((v, end)) => {
                &&& end == digit_run_end(p@, start as int)
                &&& v as int == digits_value(p@.subrange(start as int, end as int))
                &&& digits_value(p@.subrange(start as int, end as int)) <= I32_MAX
            },
            Err(e) => {
                &&& e == CompileError::NumberOutOfRange { pos: start }
                &&& digits_value(p@.subrange(start as int, digit_run_end(p@, start as int)))
                    > I32_MAX
            },
        },
{
    let n = p.unicode_len();
    let mut v: u64 = 0;
    let mut k: usize = start;
    proof {
        lemma_digit_run(p@, start as int);
        assert(p@.subrange(start as int, start as int) =~= Seq::<char>::empty());
    }
    while k < n && is_digit_char(p.get_char(k))
        invariant
            n == p@.len(),
            start <= k <= n,
            v <= I32_MAX,
            v == digits_value(p@.subrange(start as int, k as int)),
            forall|j: int| start <= j < k ==> is_digit(#[trigger] p@[j]),
        decreases n - k,
    {
        let c = p.get_char(k);
        let d = c as u32 - '0' as u32;
        proof {
            assert(p@.subrange(start as int, k + 1).drop_last() =~= p@.subrange(
                start as int,
                k as int,
            ));
        }
        v = v * 10 + d as u64;
        k = k + 1;
        if v > I32_MAX {
            proof {
                let e = digit_run_end(p@, start as int);
                lemma_digit_run(p@, start as int);
                lemma_digit_run(p@, k as int);
                assert(digit_run_end(p@, start as int) == digit_run_end(p@, k as int)) by {
                    lemma_run_end_at(p@, start as int, e);
                    lemma_run_end_at(p@, k as int, e);
                }
                lemma_value_grows(p@, start as int, k as int, e);
            }
            return Err(CompileError::NumberOutOfRange { pos: start });
        }
    }
    proof {
        lemma_run_end_at(p@, start as int, k as int);
    }
    Ok((v as i32, k))
}

} // verus!
