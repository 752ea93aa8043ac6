//! The whole pipeline as text in, assembly text out.

use minicc::{compile, CompileError};

#[test]
fn test_compile_literal_text() {
    // The exact assembly of the simplest program.
    let text = compile("0;").unwrap();
    assert_eq!(
        text,
        "  .globl main\n\
         main:\n\
         \x20 push %rbp\n\
         \x20 mov %rsp, %rbp\n\
         \x20 sub $0, %rsp\n\
         \x20 mov $0, %rax\n\
         .L.return:\n\
         \x20 mov %rbp, %rsp\n\
         \x20 pop %rbp\n\
         \x20 ret\n"
    );
}

#[test]
fn test_compile_variable_slots() {
    // Two distinct identifiers get distinct, dense eight-byte slots and
    // a frame rounded up to sixteen bytes.
    let text = compile("a = 1; b = 2;").unwrap();
    assert!(text.contains("  sub $16, %rsp\n"));
    assert!(text.contains("  lea -8(%rbp), %rax\n"));
    assert!(text.contains("  lea -16(%rbp), %rax\n"));
}

#[test]
fn test_compile_deterministic() {
    // Separate invocations on the same text give byte-identical output.
    let src = "if (1==2) { a = 5; } else { a = 10; } a;";
    let first = compile(src).unwrap();
    let second = compile(src).unwrap();
    assert_eq!(first, second);
}

#[test]
fn test_compile_if_labels() {
    let text = compile("if (1) { 2; } if (3) { 4; }").unwrap();
    // Two if statements, label pairs numbered 1 and 2 in source order.
    assert!(text.contains("  je  .L.else.1\n"));
    assert!(text.contains(".L.else.1:\n"));
    assert!(text.contains(".L.end.1:\n"));
    assert!(text.contains("  je  .L.else.2\n"));
    assert!(text.contains(".L.else.2:\n"));
    assert!(text.contains(".L.end.2:\n"));
}

#[test]
fn test_compile_lex_error() {
    match compile("1 + #") {
        Err(CompileError::Lex(e)) => {
            assert_eq!(e.pos, 4);
            assert_eq!(e.text, "#");
        }
        other => panic!("expected a lexing failure, got {:?}", other),
    }
}

#[test]
fn test_compile_parse_error() {
    match compile("1 + ;") {
        Err(CompileError::Parse(e)) => {
            assert_eq!(e.pos, 2);
            assert_eq!(e.kind, minicc::parser::ParseErrorKind::ExpectedNumber);
        }
        other => panic!("expected a parse failure, got {:?}", other),
    }
}

#[test]
fn test_compile_not_an_lvalue() {
    match compile("5 = 3;") {
        Err(CompileError::NotAnLvalue) => {}
        other => panic!("expected the lvalue failure, got {:?}", other),
    }
}

#[test]
fn test_empty_statement_rejected() {
    // The grammar has no null statement: a bare semicolon is not an
    // expression statement.
    assert!(matches!(compile("{ ;;; return 5; }"), Err(CompileError::Parse(_))));
}

#[test]
fn test_reserved_keywords_not_wired() {
    // `while` and `for` are lexed but reach no production.
    assert!(matches!(compile("while (1) 2;"), Err(CompileError::Parse(_))));
    assert!(matches!(compile("for;"), Err(CompileError::Parse(_))));
}
