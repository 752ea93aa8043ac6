//! Runs compiled programs on a small interpreter of the emitted
//! instruction sequence and checks the value each program leaves in the
//! accumulator at its single exit.

use std::collections::HashMap;

use minicc::codegen::{Generator, Instr};
use minicc::node::Program;
use minicc::parser::Parser;
use minicc::tokenizer::Tokenizer;

/// Executes the instruction sequence of one compiled program and returns
/// the accumulator at `ret`.
fn execute(instrs: &[Instr]) -> i64 {
    let find = |pred: &dyn Fn(&Instr) -> bool| -> usize {
        instrs
            .iter()
            .position(|i| pred(i))
            .expect("jump target must exist")
    };
    let mut pc: usize = 0;
    let mut rax: i64 = 0;
    let mut rdi: i64 = 0;
    let mut al: u8 = 0;
    let mut zf = false;
    let mut lt = false;
    let mut stack: Vec<i64> = Vec::new();
    let mut mem: HashMap<i64, i64> = HashMap::new();
    loop {
        match instrs[pc] {
            Instr::MovImm(v) => rax = v as i64,
            Instr::Lea(idx) => rax = -8 * (idx as i64 + 1),
            Instr::Load => rax = *mem.get(&rax).expect("read of an unwritten slot"),
            Instr::Push => stack.push(rax),
            Instr::Pop => rdi = stack.pop().expect("pop from an empty stack"),
            Instr::Store => {
                mem.insert(rdi, rax);
            }
            Instr::Add => rax = rax.wrapping_add(rdi),
            Instr::Sub => rax = rax.wrapping_sub(rdi),
            Instr::Mul => rax = rax.wrapping_mul(rdi),
            Instr::Cqo => {}
            Instr::Idiv => rax = rax / rdi,
            Instr::Cmp => {
                zf = rax == rdi;
                lt = rax < rdi;
            }
            Instr::Sete => al = if zf { 1 } else { 0 },
            Instr::Setne => al = if zf { 0 } else { 1 },
            Instr::Setl => al = if lt { 1 } else { 0 },
            Instr::Setle => al = if lt || zf { 1 } else { 0 },
            Instr::Movzb => rax = al as i64,
            Instr::CmpZero => {
                zf = rax == 0;
                lt = rax < 0;
            }
            Instr::Je(n) => {
                if zf {
                    pc = find(&|i: &Instr| *i == Instr::ElseLabel(n));
                }
            }
            Instr::Jmp(n) => pc = find(&|i: &Instr| *i == Instr::EndLabel(n)),
            Instr::ElseLabel(_) | Instr::EndLabel(_) => {}
            Instr::JmpReturn => pc = find(&|i: &Instr| *i == Instr::ReturnLabel),
            Instr::Globl
            | Instr::MainLabel
            | Instr::PushRbp
            | Instr::MovRspRbp
            | Instr::SubRsp(_)
            | Instr::ReturnLabel
            | Instr::MovRbpRsp
            | Instr::PopRbp => {}
            Instr::Ret => return rax,
        }
        pc += 1;
    }
}

/// Compiles and runs one source program.
fn run(src: &str) -> i64 {
    let mut tokenizer = Tokenizer::new(src);
    let tokens = tokenizer.tokenize().expect("lexing failed");
    let mut parser = Parser::new(tokens);
    let (body, locals) = parser.parse().expect("parsing failed");
    let program = Program { body, locals };
    let mut generator = Generator::new();
    let instrs = generator.instructions(&program);
    execute(&instrs)
}

#[test]
fn test_numbers() {
    assert_eq!(run("{ 0; }"), 0);
    assert_eq!(run("{ 42; }"), 42);
}

#[test]
fn test_add_sub() {
    assert_eq!(run("{ 5+20-4; }"), 21);
}

#[test]
fn test_with_space() {
    assert_eq!(run(" { 12 + 34 -  5 ;  }"), 41);
}

#[test]
fn test_mul() {
    assert_eq!(run("{ 5+6*7; }"), 47);
}

#[test]
fn test_primary() {
    assert_eq!(run("{5*(9-6);}"), 15);
    assert_eq!(run("{(3+5)/2;}"), 4);
}

#[test]
fn test_unary() {
    assert_eq!(run("{-10+20;}"), 10);
}

#[test]
fn test_eq() {
    assert_eq!(run("{0==1;}"), 0);
    assert_eq!(run("{42==42;}"), 1);
    assert_eq!(run("{0!=1;}"), 1);
    assert_eq!(run("{42!=42;}"), 0);
}

#[test]
fn test_greater_than() {
    assert_eq!(run("{0<1;}"), 1);
    assert_eq!(run("{1<1;}"), 0);
    assert_eq!(run("{2<1;}"), 0);
}

#[test]
fn test_greater_eq_than() {
    assert_eq!(run("{0<=1;}"), 1);
    assert_eq!(run("{1<=1;}"), 1);
    assert_eq!(run("{2<=1;}"), 0);
}

#[test]
fn test_less_than() {
    assert_eq!(run("{1>0;}"), 1);
    assert_eq!(run("{1>1;}"), 0);
    assert_eq!(run("{1>2;}"), 0);
}

#[test]
fn test_less_eq_than() {
    assert_eq!(run("{1>=0;}"), 1);
    assert_eq!(run("{1>=1;}"), 1);
    assert_eq!(run("{1>=2;}"), 0);
}

#[test]
fn test_multiple_statements() {
    assert_eq!(run("{1; 2; 3;}"), 3);
}

#[test]
fn test_single_letter_var() {
    assert_eq!(run("{a = 5;}"), 5);
    assert_eq!(run("{k = 40;}"), 40);
    assert_eq!(run("{a = 12; b = 3; a * b;}"), 36);
}

#[test]
fn test_multi_letter_var() {
    assert_eq!(run("{test = 5;}"), 5);
    assert_eq!(run("{returnx = 5;}"), 5);
    assert_eq!(run("{r906 = 96;}"), 96);
    assert_eq!(run("{r_906 = 5;}"), 5);
    assert_eq!(run("{pi = 3; r = 5; r * r * pi;}"), 75);
}

#[test]
fn test_return_statement() {
    assert_eq!(run("{42; return 30; 4;}"), 30);
    assert_eq!(run("{return a = 5;}"), 5);
    assert_eq!(run("{a = 10; b = 12; return a * b - b; 42;}"), 108);
}

#[test]
fn test_if_statement() {
    assert_eq!(
        run("
            {
                if (1==2) {
                    a = 5;
                } else {
                    a = 10;
                }

                if (2==2) {
                    b = 10;
                } else {
                    b = 0;
                }

                return a*b;
            }
            "),
        100
    );
}

#[test]
fn test_top_level_statements() {
    // The grammar takes statements directly at the top level; the braces
    // are one grouping statement, not the program frame.
    assert_eq!(run("0;"), 0);
    assert_eq!(run("42;"), 42);
    assert_eq!(run("a = 5; a + 1;"), 6);
    assert_eq!(run("if (1==2) { a = 5; } else { a = 10; } a;"), 10);
}

#[test]
fn test_nested_if_labels() {
    // Nested ifs draw distinct, strictly increasing label indices.
    assert_eq!(
        run("if (1) { if (0) { a = 1; } else { a = 2; } } else { a = 3; } a;"),
        2
    );
}

#[test]
fn test_comparison_ordering() {
    // Signed ordering across signs, through the operand-swap
    // normalization of > and >=.
    assert_eq!(run("0-5 < 3;"), 1);
    assert_eq!(run("3 > 0-5;"), 1);
    assert_eq!(run("0-5 > 3;"), 0);
    assert_eq!(run("0-7 >= 0-7;"), 1);
    assert_eq!(run("0-8 <= 0-9;"), 0);
}
