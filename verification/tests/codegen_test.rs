use mini_compiler::ast::expression::{BoolExpr, Loc, NumExpr};
use mini_compiler::ast::statement::{Block, Program, Statement};
use mini_compiler::code_generator::{
    Address, AddressCode, AddressMode, CodeGenError, CodeGenerator, CompileError, Label, OpCode,
};
use mini_compiler::lexer::{Scanner, Tag};
use mini_compiler::parser::{Expected, ParseError, Parser};

fn generator_for(s: &str) -> CodeGenerator {
    CodeGenerator::new(Parser::new(Scanner::new_static(String::from(s))))
}

fn compile(s: &str) -> Vec<AddressCode> {
    let mut cg = generator_for(s);
    cg.generate_code().unwrap();
    cg.into_code().instructions
}

fn failure_of(s: &str) -> CompileError {
    let mut cg = generator_for(s);
    cg.generate_code().unwrap_err()
}

fn reg(r: i32) -> Address {
    Address { mode: AddressMode::Register, place: r }
}

fn fp(offset: i32) -> Address {
    Address { mode: AddressMode::FramePointer, place: offset }
}

fn ptr(r: i32) -> Address {
    Address { mode: AddressMode::Pointer, place: r }
}

fn num(x: i32) -> Address {
    Address::new_constant(x)
}

fn lbl(i: i32) -> Address {
    Address { mode: AddressMode::Label, place: i }
}

fn null() -> Address {
    Address::null_address()
}

fn code(list: Vec<(OpCode, Address, Address, Address)>) -> Vec<AddressCode> {
    let mut out = vec![];
    for (i, (op, res, x, y)) in list.into_iter().enumerate() {
        out.push(AddressCode { id: i as i32, op, res, x, y });
    }
    out
}

#[test]
fn addresses() {
    assert_eq!(Address::null_address(), Address { mode: AddressMode::Label, place: 0 });
    assert_eq!(Address::new_constant(-5), Address { mode: AddressMode::Constant, place: -5 });
}

#[test]
fn empty_program() {
    assert_eq!(
        compile("{}"),
        code(vec![
            (OpCode::Add, reg(1), reg(1), num(0)),
            (OpCode::Sub, reg(1), reg(1), num(0)),
        ])
    );
}

#[test]
fn frame_width_in_the_stack_pointer_adjustment() {
    let c = compile("{int a; int b; float[3] v;}");
    assert_eq!(
        c,
        code(vec![
            (OpCode::Add, reg(1), reg(1), num(20)),
            (OpCode::Sub, reg(1), reg(1), num(20)),
        ])
    );
}

#[test]
fn assignment_and_arithmetic() {
    assert_eq!(
        compile("{int x; int y; x = 1 + 2 * y - -x / 3;}"),
        code(vec![
            (OpCode::Add, reg(1), reg(1), num(8)),
            (OpCode::Mul, reg(2), num(2), fp(4)),
            (OpCode::Add, reg(3), num(1), reg(2)),
            (OpCode::Minus, reg(4), fp(0), fp(0)),
            (OpCode::Div, reg(5), reg(4), num(3)),
            (OpCode::Sub, reg(6), reg(3), reg(5)),
            (OpCode::Mov, fp(0), reg(6), reg(6)),
            (OpCode::Sub, reg(1), reg(1), num(8)),
        ])
    );
}

#[test]
fn literals_emit_nothing() {
    assert_eq!(
        compile("{int x; x = True; x = False; x = (7);}"),
        code(vec![
            (OpCode::Add, reg(1), reg(1), num(4)),
            (OpCode::Mov, fp(0), num(1), num(1)),
            (OpCode::Mov, fp(0), num(0), num(0)),
            (OpCode::Mov, fp(0), num(7), num(7)),
            (OpCode::Sub, reg(1), reg(1), num(4)),
        ])
    );
}

#[test]
fn logical_operators_evaluate_both_operands() {
    assert_eq!(
        compile("{int x; x = !x && (x + 1) || x;}"),
        code(vec![
            (OpCode::Add, reg(1), reg(1), num(4)),
            (OpCode::Not, reg(2), fp(0), fp(0)),
            (OpCode::Add, reg(3), fp(0), num(1)),
            (OpCode::And, reg(4), reg(2), reg(3)),
            (OpCode::Or, reg(5), reg(4), fp(0)),
            (OpCode::Mov, fp(0), reg(5), reg(5)),
            (OpCode::Sub, reg(1), reg(1), num(4)),
        ])
    );
}

#[test]
fn comparisons_are_composed_of_sign_tests() {
    let body = |c: &Vec<AddressCode>| c[1..c.len() - 2].to_vec();
    let sub = (OpCode::Sub, reg(2), fp(0), num(5));
    let strip = |list: Vec<(OpCode, Address, Address, Address)>| {
        let mut all = vec![(OpCode::Add, reg(1), reg(1), num(4))];
        all.extend(list);
        code(all)[1..].to_vec()
    };
    assert_eq!(
        body(&compile("{int x; x = x > 5;}")),
        strip(vec![sub, (OpCode::IsPos, reg(3), reg(2), reg(2))])
    );
    assert_eq!(
        body(&compile("{int x; x = x < 5;}")),
        strip(vec![sub, (OpCode::IsNeg, reg(3), reg(2), reg(2))])
    );
    assert_eq!(
        body(&compile("{int x; x = x >= 5;}")),
        strip(vec![
            sub,
            (OpCode::IsNeg, reg(3), reg(2), reg(2)),
            (OpCode::Not, reg(4), reg(3), reg(3)),
        ])
    );
    assert_eq!(
        body(&compile("{int x; x = x <= 5;}")),
        strip(vec![
            sub,
            (OpCode::IsPos, reg(3), reg(2), reg(2)),
            (OpCode::Not, reg(4), reg(3), reg(3)),
        ])
    );
    assert_eq!(
        body(&compile("{int x; x = x == 5;}")),
        strip(vec![
            sub,
            (OpCode::IsPos, reg(3), reg(2), reg(2)),
            (OpCode::Not, reg(4), reg(3), reg(3)),
            (OpCode::IsNeg, reg(5), reg(2), reg(2)),
            (OpCode::Not, reg(6), reg(5), reg(5)),
            (OpCode::And, reg(7), reg(4), reg(6)),
        ])
    );
    assert_eq!(
        body(&compile("{int x; x = x != 5;}")),
        strip(vec![
            sub,
            (OpCode::IsPos, reg(3), reg(2), reg(2)),
            (OpCode::IsNeg, reg(4), reg(2), reg(2)),
            (OpCode::Or, reg(5), reg(3), reg(4)),
        ])
    );
}

#[test]
fn if_else_scenario() {
    assert_eq!(
        compile("{int x; x=1; if (x==1) x=2; else x=3;}"),
        code(vec![
            (OpCode::Add, reg(1), reg(1), num(4)),
            (OpCode::Mov, fp(0), num(1), num(1)),
            (OpCode::Sub, reg(2), fp(0), num(1)),
            (OpCode::IsPos, reg(3), reg(2), reg(2)),
            (OpCode::Not, reg(4), reg(3), reg(3)),
            (OpCode::IsNeg, reg(5), reg(2), reg(2)),
            (OpCode::Not, reg(6), reg(5), reg(5)),
            (OpCode::And, reg(7), reg(4), reg(6)),
            (OpCode::JmpZ, lbl(11), reg(7), reg(7)),
            (OpCode::Mov, fp(0), num(2), num(2)),
            (OpCode::Goto, lbl(12), null(), null()),
            (OpCode::Mov, fp(0), num(3), num(3)),
            (OpCode::Sub, reg(1), reg(1), num(4)),
        ])
    );
}

#[test]
fn if_jumps_over_its_branch() {
    assert_eq!(
        compile("{int x; if (x) x=2; x=3;}"),
        code(vec![
            (OpCode::Add, reg(1), reg(1), num(4)),
            (OpCode::JmpZ, lbl(3), fp(0), fp(0)),
            (OpCode::Mov, fp(0), num(2), num(2)),
            (OpCode::Mov, fp(0), num(3), num(3)),
            (OpCode::Sub, reg(1), reg(1), num(4)),
        ])
    );
}

#[test]
fn while_jumps_back_and_out() {
    assert_eq!(
        compile("{int x; while (x) x = x - 1;}"),
        code(vec![
            (OpCode::Add, reg(1), reg(1), num(4)),
            (OpCode::JmpZ, lbl(5), fp(0), fp(0)),
            (OpCode::Sub, reg(2), fp(0), num(1)),
            (OpCode::Mov, fp(0), reg(2), reg(2)),
            (OpCode::Goto, lbl(1), null(), null()),
            (OpCode::Sub, reg(1), reg(1), num(4)),
        ])
    );
}

#[test]
fn breaks_jump_behind_their_loop() {
    // three breaks of the outer loop, through a branch, both branches of an
    // if-else and a block, and one break of an inner loop
    let c = compile(
        "{int x; while (x) { if (x) break; if (x) break; else { break; } while (x) break; x = 1; } x = 2;}",
    );
    let gotos: Vec<(usize, i32)> = c
        .iter()
        .enumerate()
        .filter(|(_, i)| i.op == OpCode::Goto)
        .map(|(k, i)| (k, i.res.place))
        .collect();
    // index of the first instruction behind the outer loop
    let after = c.iter().position(|i| i.op == OpCode::Mov && i.x == num(2)).unwrap() as i32;
    // the inner loop: its condition, its break, its back jump
    let inner_back = gotos[gotos.len() - 2];
    let inner_break = gotos[gotos.len() - 3];
    assert_eq!(inner_break.1 as usize, inner_back.0 + 1);
    // the back jump of the outer loop goes to its condition
    assert_eq!(gotos[gotos.len() - 1].1, 1);
    assert_eq!(gotos[gotos.len() - 1].0 as i32 + 1, after);
    // the jump over the else branch is no break
    let over_else = gotos[2];
    assert_ne!(over_else.1, after);
    let breaks = vec![gotos[0], gotos[1], gotos[3]];
    for (_, target) in breaks {
        assert_eq!(target, after);
    }
    assert_eq!(gotos.len(), 7);
    assert_eq!(c[1].op, OpCode::JmpZ);
    assert_eq!(c[1].res, lbl(after));
}

#[test]
fn break_outside_a_loop() {
    assert_eq!(failure_of("{break;}"), CompileError::CodeGen(CodeGenError::BreakOutsideLoop));
    assert_eq!(
        failure_of("{int x; while (x) x = 1; if (x) break;}"),
        CompileError::CodeGen(CodeGenError::BreakOutsideLoop)
    );
}

#[test]
fn undeclared_and_redeclared() {
    assert_eq!(failure_of("{x = 1;}"), CompileError::CodeGen(CodeGenError::Undeclared));
    assert_eq!(failure_of("{int x; x = y;}"), CompileError::CodeGen(CodeGenError::Undeclared));
    assert_eq!(failure_of("{int x; x[1] = y;}"), CompileError::CodeGen(CodeGenError::BadIndex));
    assert_eq!(failure_of("{y[1] = 2;}"), CompileError::CodeGen(CodeGenError::Undeclared));
    assert_eq!(
        failure_of("{int x; float x;}"),
        CompileError::CodeGen(CodeGenError::Redeclared)
    );
    // a name of an enclosing block is visible in a nested one
    assert_eq!(compile("{int x; { x = 1; } }")[2].res, fp(0));
    // and may be declared again there, which hides the outer one
    assert_eq!(compile("{int x; { int x; x = 1; } x = 2; }")[2].res, fp(4));
    assert_eq!(compile("{int x; { int x; x = 1; } x = 2; }")[4].res, fp(0));
    // a name of a block that is closed is gone
    assert_eq!(
        failure_of("{ { int y; } y = 1; }"),
        CompileError::CodeGen(CodeGenError::Undeclared)
    );
}

#[test]
fn syntax_error_is_reported_first() {
    assert_eq!(
        failure_of("{x = ;}"),
        CompileError::Parse(ParseError::Unexpected { expected: Expected::Factor, found: Tag::SemiColon })
    );
}

#[test]
fn constant_too_large() {
    assert_eq!(
        failure_of("{int x; x = 2147483648;}"),
        CompileError::CodeGen(CodeGenError::ConstantTooLarge)
    );
    assert_eq!(compile("{int x; x = 2147483647;}")[1].x, num(2147483647));
}

#[test]
fn array_elements() {
    assert_eq!(
        compile("{int x; int[2][3] a; a[x][2] = a[1][x+1];}"),
        code(vec![
            (OpCode::Add, reg(1), reg(1), num(28)),
            // the target: 4 + x*12 + 2*4
            (OpCode::Mul, reg(2), fp(0), num(12)),
            (OpCode::Add, reg(3), num(4), reg(2)),
            (OpCode::Mul, reg(4), num(2), num(4)),
            (OpCode::Add, reg(5), reg(3), reg(4)),
            (OpCode::Mov, reg(6), reg(5), reg(5)),
            // the source: 4 + 1*12 + (x+1)*4
            (OpCode::Mul, reg(7), num(1), num(12)),
            (OpCode::Add, reg(8), num(4), reg(7)),
            (OpCode::Add, reg(9), fp(0), num(1)),
            (OpCode::Mul, reg(10), reg(9), num(4)),
            (OpCode::Add, reg(11), reg(8), reg(10)),
            (OpCode::Mov, reg(12), reg(11), reg(11)),
            (OpCode::Mov, ptr(6), ptr(12), ptr(12)),
            (OpCode::Sub, reg(1), reg(1), num(28)),
        ])
    );
}

#[test]
fn too_many_indices() {
    assert_eq!(
        failure_of("{int[2] a; a[0][1] = 1;}"),
        CompileError::CodeGen(CodeGenError::BadIndex)
    );
    // fewer indices than dimensions address the start of a row
    let c = compile("{int[2][3] a; a[1] = 1;}");
    assert_eq!(c[1], AddressCode { id: 1, op: OpCode::Mul, res: reg(2), x: num(1), y: num(12) });
}

#[test]
fn low_level_emission() {
    let mut cg = generator_for("");
    assert_eq!(cg.emit_label(), Label { place: 0 });
    assert_eq!(cg.new_temp(), Ok(reg(2)));
    assert_eq!(cg.new_pointer(), Ok(ptr(3)));
    assert_eq!(cg.emit(OpCode::Add, reg(2), num(1), num(2)), Ok(()));
    assert_eq!(cg.emit_label(), Label { place: 1 });
    assert_eq!(cg.emit_jump(OpCode::JmpZ, Label { place: 0 }, reg(2)), Ok(1));
    assert_eq!(cg.emit_jump(OpCode::Goto, Label { place: 9 }, null()), Ok(2));
    cg.patch_jump(1, Label { place: 3 });
    assert_eq!(
        cg.code().instructions,
        code(vec![
            (OpCode::Add, reg(2), num(1), num(2)),
            (OpCode::JmpZ, lbl(3), reg(2), reg(2)),
            (OpCode::Goto, lbl(9), null(), null()),
        ])
    );
    assert_eq!(cg.code().get_last(), 2);
}

#[test]
fn frames_of_the_generator() {
    let mut cg = generator_for("");
    cg.push_frame();
    assert_eq!(
        cg.declare(
            String::from("x"),
            mini_compiler::ast::statement::Type {
                basic_type: mini_compiler::ast::statement::BasicType::Int,
                element_width: 4,
                dim_width: vec![]
            }
        ),
        Ok(fp(0))
    );
    assert_eq!(cg.resolve("x").unwrap().address, fp(0));
    assert!(cg.resolve("y").is_none());
    assert_eq!(cg.reserve_frame(), Ok(()));
    assert_eq!(cg.pop_frame(), Ok(()));
    assert!(cg.resolve("x").is_none());
    assert_eq!(
        cg.code().instructions,
        code(vec![
            (OpCode::Add, reg(1), reg(1), num(4)),
            (OpCode::Sub, reg(1), reg(1), num(4)),
        ])
    );
}

#[test]
fn nodes_generate_code_on_their_own() {
    let mut cg = generator_for("");
    let one = Box::new(NumExpr::Num(1));
    let two = Box::new(NumExpr::Num(2));
    let sum = NumExpr::Add(one, two);
    assert_eq!(sum.generate_code(&mut cg).unwrap().place, reg(2));
    let cond = BoolExpr::NumExpr(Box::new(NumExpr::True));
    assert_eq!(cond.generate_code(&mut cg).unwrap().place, num(1));
    // outside every block no name is known
    let x = Loc::Ide(String::from("x"));
    assert_eq!(x.generate_code(&mut cg), Err(CodeGenError::Undeclared));
    let brk = Statement::Break;
    assert_eq!(brk.generate_code(&mut cg).unwrap().break_list, vec![1]);
    let program = Program { block: Box::new(Block { decls: vec![], stmts: vec![Box::new(brk)] }) };
    assert_eq!(program.generate_code(&mut cg), Err(CodeGenError::BreakOutsideLoop));
}

#[test]
fn the_generator_stops_where_the_error_is_found() {
    let mut cg = generator_for("{int x; x = 1; x = y; x = 2;}");
    assert_eq!(cg.generate_code(), Err(CompileError::CodeGen(CodeGenError::Undeclared)));
    assert_eq!(
        cg.code().instructions,
        code(vec![
            (OpCode::Add, reg(1), reg(1), num(4)),
            (OpCode::Mov, fp(0), num(1), num(1)),
        ])
    );
    // the frame of the block is still open
    assert_eq!(cg.resolve("x").unwrap().address, fp(0));
    let mut cg = generator_for("{int x; x = 1 + 2147483648;}");
    assert_eq!(cg.generate_code(), Err(CompileError::CodeGen(CodeGenError::ConstantTooLarge)));
    assert_eq!(cg.code().instructions.len(), 1);
    let mut cg = generator_for("{int x; x = ; }");
    assert!(cg.generate_code().is_err());
    assert!(cg.code().instructions.is_empty());
}
