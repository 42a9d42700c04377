use vstd::prelude::*;
use vstd::string::StringExecFns;

verus! {

/// One emitted instruction; `rax` is the accumulator.
#[derive(Clone, Copy, Debug, PartialEq, Eq, Structural)]
pub enum Instr {
    Mov(i32),
    Add(i32),
    Sub(i32),
    Ret,
}

/// The value left in the accumulator after running `is` from the start.
pub open spec fn accumulator(is: Seq<Instr>) -> int
    decreases is.len(),
{
    if is.len() == 0 {
        0
    } else {
        let acc = accumulator(is.drop_last());
        match is.last() {
            Instr::Mov(n) => n as int,
            Instr::Add(n) => acc + n,
            Instr::Sub(n) => acc - n,
            Instr::Ret => acc,
        }
    }
}

pub open spec fn digit_char(d: nat) -> char {
    ((d + 48) as u8) as char
}

/// The base-10 digits of `n`, most significant first, without leading zeros.
pub open spec fn decimal(n: nat) -> Seq<char>
    decreases n,
{
    if n < 10 {
        seq![digit_char(n)]
    } else {
        decimal(n / 10).push(digit_char(n % 10))
    }
}

/// `n` in base 10, with a minus sign when negative.
pub open spec fn int_text(n: int) -> Seq<char> {
    if n < 0 {
        "-"@ + decimal((-n) as nat)
    } else {
        decimal(n as nat)
    }
}

/// The line that `i` is printed as, newline included.
pub open spec fn instr_text(i: Instr) -> Seq<char> {
    match i {
        Instr::Mov(n) => "  mov rax, "@ + int_text(n as int) + "\n"@,
        Instr::Add(n) => "  add rax, "@ + int_text(n as int) + "\n"@,
        Instr::Sub(n) => "  sub rax, "@ + int_text(n as int) + "\n"@,
        Instr::Ret => "  ret\n"@,
    }
}

/// The lines of `is`, in order.
pub open spec fn lines_text(is: Seq<Instr>) -> Seq<char>
    decreases is.len(),
{
    if is.len() == 0 {
        Seq::empty()
    } else {
        lines_text(is.drop_last()) + instr_text(is.last())
    }
}

/// The directives and the entry label that open every program.
pub open spec fn header() -> Seq<char> {
    ".intel_syntax noprefix\n.globl main\nmain:\n"@
}

/// The whole assembly program whose instructions are `is`.
pub open spec fn program_text(is: Seq<Instr>) -> Seq<char> {
    header() + lines_text(is)
}

fn digit_str(d: u64) -> (r: &'static str)
    requires
        d < 10,
    ensures
        r@ == seq![digit_char(d as nat)],
{
    proof {
        reveal_strlit("0");
        reveal_strlit("1");
        reveal_strlit("2");
        reveal_strlit("3");
        reveal_strlit("4");
        reveal_strlit("5");
        reveal_strlit("6");
        reveal_strlit("7");
        reveal_strlit("8");
        reveal_strlit("9");
    }
    match d {
        0 => "0",
        1 => "1",
        2 => "2",
        3 => "3",
        4 => "4",
        5 => "5",
        6 => "6",
        7 => "7",
        8 => "8",
        _ => "9",
    }
}

/// Appends the base-10 digits of `n`.
pub fn append_decimal(out: &mut String, n: u64)
    ensures
        final(out)@ == old(out)@ + decimal(n as nat),
    decreases n,
{
    if n >= 10 {
        append_decimal(out, n / 10);
    }
    out.append(digit_str(n % 10));
    assert(final(out)@ =~= old(out)@ + decimal(n as nat));
}

/// Appends `n` in base 10, with a minus sign when negative.
pub fn append_int(out: &mut String, n: i32)
    ensures
        final(out)@ == old(out)@ + int_text(n as int),
{
    if n < 0 {
        out.append("-");
        let m: i64 = n as i64;
        append_decimal(out, (-m) as u64);
        assert(final(out)@ =~= old(out)@ + int_text(n as int));
    } else {
        append_decimal(out, n as u64);
    }
}

/// Appends the line that `i` is printed as.
pub fn append_instr(out: &mut String, i: Instr)
    ensures
        final(out)@ == old(out)@ + instr_text(i),
{
    match i {
        Instr::Mov(n) => {
            out.append("  mov rax, ");
            append_int(out, n);
            out.append("\n");
        },
        Instr::Add(n) => {
            out.append("  add rax, ");
            append_int(out, n);
            out.append("\n");
        },
        Instr::Sub(n) => {
            out.append("  sub rax, ");
            append_int(out, n);
            out.append("\n");
        },
        Instr::Ret => {
            out.append("  ret\n");
        },
    }
    assert(final(out)@ =~= old(out)@ + instr_text(i));
}

/// A string that holds the program header.
pub fn header_string() -> (r: String)
    ensures
        r@ == header(),
{
    String::from_str(".intel_syntax noprefix\n.globl main\nmain:\n")
}

} // verus!
