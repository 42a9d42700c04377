use addsub::{compile, run, CompileError};

const HEADER: &str = ".intel_syntax noprefix\n.globl main\nmain:\n";

fn program(lines: &[&str]) -> String {
    let mut s = String::from(HEADER);
    for l in lines {
        s.push_str(l);
        s.push('\n');
    }
    s
}

/// Runs the emitted instructions on a 64-bit accumulator.
fn simulate(text: &str) -> i64 {
    let mut acc: i64 = 0;
    for line in text.lines() {
        let line = line.trim();
        if let Some(n) = line.strip_prefix("mov rax, ") {
            acc = n.parse().unwrap();
        } else if let Some(n) = line.strip_prefix("add rax, ") {
            acc += n.parse::<i64>().unwrap();
        } else if let Some(n) = line.strip_prefix("sub rax, ") {
            acc -= n.parse::<i64>().unwrap();
        }
    }
    acc
}

#[test]
fn end_to_end_example() {
    assert_eq!(
        compile("1+2-3").unwrap(),
        ".intel_syntax noprefix\n.globl main\nmain:\n  mov rax, 1\n  add rax, 2\n  sub rax, 3\n  ret\n"
    );
}

#[test]
fn single_number() {
    assert_eq!(compile("42").unwrap(), program(&["  mov rax, 42", "  ret"]));
}

#[test]
fn whitespace_is_ignored() {
    assert_eq!(compile("1 + 2-3").unwrap(), compile("1+2-3").unwrap());
    assert_eq!(compile(" \t1\n+ 2 -\u{3000}3 ").unwrap(), compile("1+2-3").unwrap());
}

#[test]
fn whitespace_between_digits_splits_numbers() {
    assert_eq!(
        compile("1 2"),
        Err(CompileError::ExpectedOperator { op: '-', index: 1 })
    );
}

#[test]
fn same_input_same_output() {
    let a = compile("5 - 20 + 7");
    let b = compile("5 - 20 + 7");
    assert_eq!(a, b);
    assert_eq!(compile("1*2"), compile("1*2"));
}

#[test]
fn left_to_right_value() {
    let text = compile("10-3+5-2").unwrap();
    assert_eq!(
        text,
        program(&["  mov rax, 10", "  sub rax, 3", "  add rax, 5", "  sub rax, 2", "  ret"])
    );
    assert_eq!(simulate(&text), 10);
    let text = compile("1-2-3").unwrap();
    assert_eq!(simulate(&text), -4);
    let text = compile("2147483647+2147483647-0").unwrap();
    assert_eq!(simulate(&text), 4294967294);
}

#[test]
fn trailing_operator_fails() {
    assert_eq!(compile("1+"), Err(CompileError::ExpectedNumber { index: 2 }));
    assert_eq!(compile("1-"), Err(CompileError::ExpectedNumber { index: 2 }));
}

#[test]
fn unrecognized_character_fails() {
    assert_eq!(
        compile("1*2"),
        Err(CompileError::UnexpectedChar { ch: '*', pos: 1 })
    );
    assert_eq!(
        compile("1+x"),
        Err(CompileError::UnexpectedChar { ch: 'x', pos: 2 })
    );
    assert_eq!(
        compile("\u{663}"),
        Err(CompileError::UnexpectedChar { ch: '\u{663}', pos: 0 })
    );
}

#[test]
fn empty_input_fails() {
    assert_eq!(compile(""), Err(CompileError::ExpectedNumber { index: 0 }));
    assert_eq!(compile("   "), Err(CompileError::ExpectedNumber { index: 0 }));
}

#[test]
fn leading_operator_fails() {
    assert_eq!(compile("+1"), Err(CompileError::ExpectedNumber { index: 0 }));
    assert_eq!(compile("-1"), Err(CompileError::ExpectedNumber { index: 0 }));
}

#[test]
fn doubled_operator_fails() {
    assert_eq!(compile("1++2"), Err(CompileError::ExpectedNumber { index: 2 }));
    assert_eq!(compile("1-+2"), Err(CompileError::ExpectedNumber { index: 2 }));
}

#[test]
fn largest_number() {
    assert_eq!(
        compile("2147483647").unwrap(),
        program(&["  mov rax, 2147483647", "  ret"])
    );
    assert_eq!(
        compile("0002147483647").unwrap(),
        program(&["  mov rax, 2147483647", "  ret"])
    );
}

#[test]
fn number_out_of_range_fails() {
    assert_eq!(
        compile("2147483648"),
        Err(CompileError::NumberOutOfRange { pos: 0 })
    );
    assert_eq!(
        compile("1 + 99999999999999999999999"),
        Err(CompileError::NumberOutOfRange { pos: 4 })
    );
}

#[test]
fn lexical_error_comes_before_grammar_error() {
    assert_eq!(
        compile("+ 1 *"),
        Err(CompileError::UnexpectedChar { ch: '*', pos: 4 })
    );
}

#[test]
fn leading_zeros_and_zero() {
    assert_eq!(
        compile("007-0").unwrap(),
        program(&["  mov rax, 7", "  sub rax, 0", "  ret"])
    );
}

#[test]
fn argument_count_is_checked() {
    let none: Vec<String> = vec![];
    assert_eq!(run(&none), Err(CompileError::ArgumentCount { given: 0 }));
    let two = vec![String::from("1"), String::from("2")];
    assert_eq!(run(&two), Err(CompileError::ArgumentCount { given: 2 }));
    let one = vec![String::from("1+2-3")];
    assert_eq!(run(&one), compile("1+2-3"));
    let bad = vec![String::from("1*2")];
    assert_eq!(run(&bad), Err(CompileError::UnexpectedChar { ch: '*', pos: 1 }));
}
