use addsub::{
    append_decimal, append_instr, append_int, header_string, is_digit_char, is_whitespace_char,
    scan_number, Instr, Token, TokenKind, Tokenizer,
};

fn num(n: i32) -> Token {
    Token { kind: TokenKind::Number(n) }
}

fn op(c: char) -> Token {
    Token { kind: TokenKind::Reserved(c) }
}

#[test]
fn tokenizer_new_lexes_input() {
    let t = Tokenizer::new(" 12+ 3 -45").unwrap();
    assert_eq!(t.tokens, vec![num(12), op('+'), num(3), op('-'), num(45)]);
    assert_eq!(t.current, 0);
}

#[test]
fn tokenize_appends_only_on_success() {
    let mut t = Tokenizer { input: "1+2", tokens: vec![num(9)], current: 0 };
    assert_eq!(t.tokenize(), Ok(()));
    assert_eq!(t.tokens, vec![num(9), num(1), op('+'), num(2)]);
    let mut bad = Tokenizer { input: "1+?", tokens: vec![num(9)], current: 0 };
    assert!(bad.tokenize().is_err());
    assert_eq!(bad.tokens, vec![num(9)]);
}

#[test]
fn cursor_operations() {
    let mut t = Tokenizer::new("7-8").unwrap();
    assert!(!t.at_eof());
    assert!(!t.consume('-'));
    assert_eq!(t.current, 0);
    assert_eq!(t.expect_number(), Ok(7));
    assert_eq!(t.current, 1);
    assert!(!t.consume('+'));
    assert_eq!(
        t.expect('+'),
        Err(addsub::CompileError::ExpectedOperator { op: '+', index: 1 })
    );
    assert!(t.consume('-'));
    assert_eq!(t.current, 2);
    assert_eq!(t.expect_number(), Ok(8));
    assert!(t.at_eof());
    assert!(!t.consume('-'));
    assert_eq!(
        t.expect_number(),
        Err(addsub::CompileError::ExpectedNumber { index: 3 })
    );
    assert_eq!(
        t.expect('-'),
        Err(addsub::CompileError::ExpectedOperator { op: '-', index: 3 })
    );
}

#[test]
fn generate_from_cursor() {
    let mut t = Tokenizer::new("1+2-3").unwrap();
    t.current = 2;
    assert_eq!(
        t.generate().unwrap(),
        ".intel_syntax noprefix\n.globl main\nmain:\n  mov rax, 2\n  sub rax, 3\n  ret\n"
    );
}

#[test]
fn decimal_text() {
    let mut s = String::from("x");
    append_decimal(&mut s, 0);
    assert_eq!(s, "x0");
    let mut s = String::new();
    append_decimal(&mut s, 1234567890);
    assert_eq!(s, "1234567890");
    let mut s = String::new();
    append_decimal(&mut s, u64::MAX);
    assert_eq!(s, "18446744073709551615");
    let mut s = String::new();
    append_int(&mut s, -2147483648);
    assert_eq!(s, "-2147483648");
    let mut s = String::new();
    append_int(&mut s, 305);
    assert_eq!(s, "305");
}

#[test]
fn instruction_lines() {
    let mut s = header_string();
    append_instr(&mut s, Instr::Mov(5));
    append_instr(&mut s, Instr::Add(6));
    append_instr(&mut s, Instr::Sub(7));
    append_instr(&mut s, Instr::Ret);
    assert_eq!(
        s,
        ".intel_syntax noprefix\n.globl main\nmain:\n  mov rax, 5\n  add rax, 6\n  sub rax, 7\n  ret\n"
    );
}

#[test]
fn character_classes() {
    for c in [' ', '\t', '\n', '\r', '\u{b}', '\u{c}', '\u{85}', '\u{a0}', '\u{2003}', '\u{3000}'] {
        assert!(is_whitespace_char(c), "{:?}", c);
        assert_eq!(is_whitespace_char(c), c.is_whitespace());
    }
    for c in ['a', '0', '+', '\u{200b}', '\u{180e}'] {
        assert_eq!(is_whitespace_char(c), c.is_whitespace(), "{:?}", c);
    }
    assert!(is_digit_char('0') && is_digit_char('9'));
    assert!(!is_digit_char('a') && !is_digit_char('\u{663}'));
}

#[test]
fn scan_number_reads_the_run() {
    assert_eq!(scan_number("ab123+4", 2), Ok((123, 5)));
    assert_eq!(scan_number("9", 0), Ok((9, 1)));
    assert_eq!(
        scan_number("x4294967296", 1),
        Err(addsub::CompileError::NumberOutOfRange { pos: 1 })
    );
}
