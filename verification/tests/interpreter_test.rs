use mini_compiler::code_generator::{
    Address, AddressCode, AddressMode, CodeGenerator, IntermediateRepresentation, OpCode,
};
use mini_compiler::interpreter::{compute_value, ExecError, Interpreter};
use mini_compiler::lexer::Scanner;
use mini_compiler::parser::Parser;

fn machine_for(s: &str) -> Interpreter {
    let mut cg = CodeGenerator::new(Parser::new(Scanner::new_static(String::from(s))));
    cg.generate_code().unwrap();
    Interpreter::new(cg.into_code())
}

fn run(s: &str) -> Interpreter {
    let mut m = machine_for(s);
    assert_eq!(m.execute(100000), Ok(true));
    m
}

fn var(m: &Interpreter, offset: i32) -> i32 {
    m.read(Address { mode: AddressMode::FramePointer, place: offset }).unwrap()
}

fn reg(r: i32) -> Address {
    Address { mode: AddressMode::Register, place: r }
}

fn fp(offset: i32) -> Address {
    Address { mode: AddressMode::FramePointer, place: offset }
}

fn num(x: i32) -> Address {
    Address::new_constant(x)
}

fn lbl(i: i32) -> Address {
    Address { mode: AddressMode::Label, place: i }
}

fn machine(list: Vec<(OpCode, Address, Address, Address)>) -> Interpreter {
    let mut code = IntermediateRepresentation::new();
    for (i, (op, res, x, y)) in list.into_iter().enumerate() {
        code.append(AddressCode { id: i as i32, op, res, x, y });
    }
    Interpreter::new(code)
}

#[test]
fn if_else_leaves_two() {
    let m = run("{int x; x=1; if (x==1) x=2; else x=3;}");
    assert_eq!(var(&m, 0), 2);
    let m = run("{int x; x=5; if (x==1) x=2; else x=3;}");
    assert_eq!(var(&m, 0), 3);
}

#[test]
fn if_skips_or_runs_its_branch_once() {
    let m = run("{int c; int n; c = 0; if (c) n = n + 1; n = n + 10;}");
    assert_eq!(var(&m, 4), 10);
    let m = run("{int c; int n; c = 7; if (c) n = n + 1; n = n + 10;}");
    assert_eq!(var(&m, 4), 11);
}

#[test]
fn conditional_jump_of_an_if() {
    // 0: Add sp   1: JmpZ -> 3   2: Mov x, 2   3: Mov y, 3   4: Sub sp
    let text = "{int x; int y; if (x) x = 2; y = 3;}";
    let mut m = machine_for(text);
    assert_eq!(m.step(), Ok(()));
    assert_eq!(m.pc(), 1);
    // x is 0: the branch is skipped
    assert_eq!(m.step(), Ok(()));
    assert_eq!(m.pc(), 3);
    assert_eq!(m.execute(10), Ok(true));
    assert_eq!(var(&m, 0), 0);
    assert_eq!(var(&m, 4), 3);
    // x is not 0: the branch runs once
    let mut m = machine(vec![
        (OpCode::Mov, fp(0), num(7), num(7)),
        (OpCode::JmpZ, lbl(3), fp(0), fp(0)),
        (OpCode::Add, fp(4), fp(4), num(1)),
        (OpCode::Mov, fp(8), num(3), num(3)),
    ]);
    assert_eq!(m.execute(2), Ok(false));
    assert_eq!(m.pc(), 2);
    assert_eq!(m.execute(10), Ok(true));
    assert_eq!(var(&m, 4), 1);
    assert_eq!(var(&m, 8), 3);
}

#[test]
fn comparisons() {
    let value = |text: &str| {
        let m = run(&format!("{{int r; r = {};}}", text));
        var(&m, 0)
    };
    assert_eq!(value("5 == 5"), 1);
    assert_eq!(value("5 > 3"), 1);
    assert_eq!(value("5 < 3"), 0);
    assert_eq!(value("3 != 5"), 1);
    assert_eq!(value("5 == 3"), 0);
    assert_eq!(value("5 != 5"), 0);
    assert_eq!(value("3 > 5"), 0);
    assert_eq!(value("5 > 5"), 0);
    assert_eq!(value("3 < 5"), 1);
    assert_eq!(value("5 >= 5"), 1);
    assert_eq!(value("5 >= 3"), 1);
    assert_eq!(value("3 >= 5"), 0);
    assert_eq!(value("5 <= 5"), 1);
    assert_eq!(value("3 <= 5"), 1);
    assert_eq!(value("5 <= 3"), 0);
    assert_eq!(value("0-3 < 0-2"), 1);
}

#[test]
fn arithmetic() {
    let value = |text: &str| {
        let m = run(&format!("{{int r; r = {};}}", text));
        var(&m, 0)
    };
    assert_eq!(value("1+3-2*5/3"), 1);
    assert_eq!(value("-7/2"), -3);
    assert_eq!(value("7/-2"), -3);
    assert_eq!(value("-7/-2"), 3);
    assert_eq!(value("(1+2)*3"), 9);
    assert_eq!(value("!0"), 1);
    assert_eq!(value("!1"), 0);
    assert_eq!(value("!5"), 1);
    assert_eq!(value("True && True"), 1);
    assert_eq!(value("True && False"), 0);
    assert_eq!(value("False || True"), 1);
    assert_eq!(value("False || False"), 0);
    assert_eq!(value("2 && 1"), 0);
}

#[test]
fn loops_and_breaks() {
    // the sum of 1 to 10
    let m = run("{int i; int s; i = 10; while (i > 0) { s = s + i; i = i - 1; } }");
    assert_eq!(var(&m, 4), 55);
    assert_eq!(var(&m, 0), 0);
    // leave at 4
    let m = run("{int i; i = 0; while (True) { if (i == 4) break; i = i + 1; } i = i * 10;}");
    assert_eq!(var(&m, 0), 40);
    // a break leaves the inner loop only
    let m = run(
        "{int i; int n; i = 0; while (i < 3) { while (True) { n = n + 1; break; } i = i + 1; } }",
    );
    assert_eq!(var(&m, 4), 3);
}

#[test]
fn arrays() {
    let m = run(
        "{int i; int[2][3] a; i = 0; while (i < 3) { a[1][i] = i * i; a[0][i] = 7; i = i + 1; } i = a[1][2] + a[0][1];}",
    );
    assert_eq!(var(&m, 0), 11);
    // a[0][0..3] at 4, 8, 12 and a[1][0..3] at 16, 20, 24
    assert_eq!(var(&m, 4), 7);
    assert_eq!(var(&m, 12), 7);
    assert_eq!(var(&m, 16), 0);
    assert_eq!(var(&m, 20), 1);
    assert_eq!(var(&m, 24), 4);
}

#[test]
fn nested_blocks_have_their_own_storage() {
    let m = run("{int x; x = 1; { int y; y = 2; } { int z; z = z + 3; } }");
    assert_eq!(var(&m, 0), 1);
    // y and z share the bytes behind x
    assert_eq!(var(&m, 4), 5);
    // the stack pointer is back where it was
    assert_eq!(m.read(reg(1)), Ok(0));
}

#[test]
fn step_budget() {
    let mut m = machine_for("{int x; while (True) x = x + 1;}");
    assert_eq!(m.execute(1000), Ok(false));
    assert!(!m.halted());
    assert!(var(&m, 0) > 0);
    let mut m = machine_for("{}");
    assert_eq!(m.execute(0), Ok(false));
    assert_eq!(m.execute(1), Ok(false));
    assert_eq!(m.execute(1), Ok(true));
    assert_eq!(m.execute(5), Ok(true));
    assert!(m.halted());
}

#[test]
fn single_steps() {
    let mut m = machine(vec![
        (OpCode::Mov, reg(3), num(5), num(5)),
        (OpCode::JmpZ, lbl(0), reg(3), reg(3)),
        (OpCode::JmpZ, lbl(4), reg(0), reg(0)),
        (OpCode::Mov, reg(3), num(6), num(6)),
        (OpCode::Goto, lbl(9), num(0), num(0)),
    ]);
    assert_eq!(m.step(), Ok(()));
    assert_eq!(m.read(reg(3)), Ok(5));
    assert_eq!(m.read(reg(2)), Ok(0));
    assert_eq!(m.step(), Ok(()));
    assert_eq!(m.step(), Ok(()));
    assert!(!m.halted());
    assert_eq!(m.step(), Ok(()));
    assert!(m.halted());
    assert_eq!(m.read(reg(3)), Ok(5));
    assert_eq!(m.step(), Ok(()));
    assert!(m.halted());
}

#[test]
fn operations() {
    assert_eq!(compute_value(OpCode::Mov, 4, 9), Ok(4));
    assert_eq!(compute_value(OpCode::And, 1, 1), Ok(1));
    assert_eq!(compute_value(OpCode::And, 1, 2), Ok(0));
    assert_eq!(compute_value(OpCode::Or, 0, 1), Ok(1));
    assert_eq!(compute_value(OpCode::Or, 0, 2), Ok(0));
    assert_eq!(compute_value(OpCode::Not, 1, 0), Ok(0));
    assert_eq!(compute_value(OpCode::Not, 0, 0), Ok(1));
    assert_eq!(compute_value(OpCode::Not, -1, 0), Ok(1));
    assert_eq!(compute_value(OpCode::IsPos, 3, 0), Ok(1));
    assert_eq!(compute_value(OpCode::IsPos, 0, 0), Ok(0));
    assert_eq!(compute_value(OpCode::IsNeg, -3, 0), Ok(1));
    assert_eq!(compute_value(OpCode::IsNeg, 0, 0), Ok(0));
    assert_eq!(compute_value(OpCode::Add, 2, 3), Ok(5));
    assert_eq!(compute_value(OpCode::Sub, 2, 3), Ok(-1));
    assert_eq!(compute_value(OpCode::Mul, -2, 3), Ok(-6));
    assert_eq!(compute_value(OpCode::Div, 7, 2), Ok(3));
    assert_eq!(compute_value(OpCode::Div, -7, 2), Ok(-3));
    assert_eq!(compute_value(OpCode::Minus, 7, 0), Ok(-7));
    assert_eq!(compute_value(OpCode::Minus, i32::MAX, 0), Ok(i32::MIN + 1));
}

#[test]
fn failing_operations() {
    assert_eq!(compute_value(OpCode::Add, i32::MAX, 1), Err(ExecError::Overflow));
    assert_eq!(compute_value(OpCode::Sub, i32::MIN, 1), Err(ExecError::Overflow));
    assert_eq!(compute_value(OpCode::Mul, 65536, 65536), Err(ExecError::Overflow));
    assert_eq!(compute_value(OpCode::Div, i32::MIN, -1), Err(ExecError::Overflow));
    assert_eq!(compute_value(OpCode::Minus, i32::MIN, 0), Err(ExecError::Overflow));
    assert_eq!(compute_value(OpCode::Div, 1, 0), Err(ExecError::DivisionByZero));
    let mut m = machine_for("{int x; x = 1 / x;}");
    assert_eq!(m.execute(100), Err(ExecError::DivisionByZero));
    let mut m = machine_for("{int x; x = 2147483647; x = x + 1;}");
    assert_eq!(m.execute(100), Err(ExecError::Overflow));
    assert_eq!(var(&m, 0), 2147483647);
}

#[test]
fn bad_addresses() {
    let mut m = machine(vec![(OpCode::Mov, reg(-1), num(1), num(1))]);
    assert_eq!(m.step(), Err(ExecError::BadAddress));
    assert!(!m.halted());
    let mut m = machine(vec![(OpCode::Mov, reg(0), fp(2), fp(2))]);
    assert_eq!(m.step(), Err(ExecError::BadAddress));
    let mut m = machine(vec![(OpCode::Mov, fp(-4), num(1), num(1))]);
    assert_eq!(m.step(), Err(ExecError::BadAddress));
    let mut m = machine(vec![(OpCode::Mov, num(3), num(1), num(1))]);
    assert_eq!(m.step(), Err(ExecError::BadOperand));
    let mut m = machine(vec![(OpCode::Add, reg(0), num(1), lbl(0))]);
    assert_eq!(m.step(), Err(ExecError::BadOperand));
    // a unary operation does not read its second operand
    let mut m = machine(vec![(OpCode::Minus, reg(0), num(1), lbl(0))]);
    assert_eq!(m.step(), Ok(()));
    assert_eq!(m.read(reg(0)), Ok(-1));
    let mut m = machine(vec![(OpCode::Goto, reg(0), num(1), num(1))]);
    assert_eq!(m.step(), Err(ExecError::BadJump));
    let mut m = machine(vec![(OpCode::Goto, lbl(-1), num(1), num(1))]);
    assert_eq!(m.step(), Err(ExecError::BadJump));
    assert_eq!(m.read(lbl(0)), Err(ExecError::BadOperand));
}

#[test]
fn pointers() {
    let p = Address { mode: AddressMode::Pointer, place: 2 };
    let mut m = machine(vec![
        (OpCode::Mov, reg(2), num(8), num(8)),
        (OpCode::Mov, p, num(42), num(42)),
        (OpCode::Mov, reg(2), num(6), num(6)),
        (OpCode::Mov, reg(3), p, p),
    ]);
    assert_eq!(m.execute(3), Ok(false));
    assert_eq!(m.read(fp(8)), Ok(42));
    assert_eq!(m.read(fp(4)), Ok(0));
    assert_eq!(m.step(), Err(ExecError::BadAddress));
}
