//! The code of each kind of node: the instructions that it appends, as a
//! function of the node and of the generator's state.

use vstd::prelude::*;
use crate::ast::expression::{BoolExprView, LocView, NumExprView, Relop};
use crate::ast::statement::{BlockView, DeclView, ProgramView, StatementView};
use crate::code_generator::{
    Address, AddressMode, CodeGenerator, CodeGenError, Emitted, Gen, GenView, Label, OpCode,
};
use crate::symbol_table::{declare, resolve};

verus! {

/// The six comparisons of two values.
#[derive(PartialEq, Eq, Debug, Clone, Copy, Structural)]
pub enum Relation {
    Equal,
    NotEqual,
    GreaterOrEqual,
    Greater,
    LessOrEqual,
    Less,
}

impl Relation {
    /// The comparison that an order operator stands for.
    pub open spec fn of(r: Relop) -> Relation {
        match r {
            Relop::Ge => Relation::GreaterOrEqual,
            Relop::Gr => Relation::Greater,
            Relop::Leq => Relation::LessOrEqual,
            Relop::Les => Relation::Less,
        }
    }
}

/// A fresh register receives `op(x, y)`.
pub open spec fn gen_op(st: GenView, op: OpCode, x: Address, y: Address) -> Gen<Address> {
    match st.new_temp() {
        Err(e) => Err(e),
        Ok((t, s1)) => match s1.emit(op, t, x, y) {
            Err(e) => Err(e),
            Ok(s2) => Ok((t, s2)),
        },
    }
}

/// A fresh register receives `op(x)`, and then another `then(op(x))`.
pub open spec fn gen_op_then(st: GenView, op: OpCode, then: OpCode, x: Address) -> Gen<Address> {
    match gen_op(st, op, x, x) {
        Err(e) => Err(e),
        Ok((t, s1)) => gen_op(s1, then, t, t),
    }
}

/// The comparison of `x` with `y`. The difference `d = x - y` goes to a
/// fresh register, and the sign tests are composed on it, each step into a
/// fresh register:
/// `>` is `IsPos(d)`, `<` is `IsNeg(d)`, `>=` is `Not(IsNeg(d))`, `<=` is
/// `Not(IsPos(d))`, `==` is `And(Not(IsPos(d)), Not(IsNeg(d)))` and `!=` is
/// `Or(IsPos(d), IsNeg(d))`.
pub open spec fn gen_relation(st: GenView, rel: Relation, x: Address, y: Address) -> Gen<Address> {
    match gen_op(st, OpCode::Sub, x, y) {
        Err(e) => Err(e),
        Ok((d, s1)) => match rel {
            Relation::Greater => gen_op(s1, OpCode::IsPos, d, d),
            Relation::Less => gen_op(s1, OpCode::IsNeg, d, d),
            Relation::GreaterOrEqual => gen_op_then(s1, OpCode::IsNeg, OpCode::Not, d),
            Relation::LessOrEqual => gen_op_then(s1, OpCode::IsPos, OpCode::Not, d),
            Relation::Equal => match gen_op_then(s1, OpCode::IsPos, OpCode::Not, d) {
                Err(e) => Err(e),
                Ok((p, s2)) => match gen_op_then(s2, OpCode::IsNeg, OpCode::Not, d) {
                    Err(e) => Err(e),
                    Ok((n, s3)) => gen_op(s3, OpCode::And, p, n),
                },
            },
            Relation::NotEqual => match gen_op(s1, OpCode::IsPos, d, d) {
                Err(e) => Err(e),
                Ok((p, s2)) => match gen_op(s2, OpCode::IsNeg, d, d) {
                    Err(e) => Err(e),
                    Ok((n, s3)) => gen_op(s3, OpCode::Or, p, n),
                },
            },
        },
    }
}

/// The address of the literal `x`; nothing is emitted for it.
pub open spec fn gen_literal(st: GenView, x: u32) -> Gen<Address> {
    if x > i32::MAX {
        Err((CodeGenError::ConstantTooLarge, st))
    } else {
        Ok((Address::constant(x as int), st))
    }
}

/// The code of a numeric expression: the address of its value and the
/// state after its instructions. Operands are evaluated from left to right,
/// and the result of an operation goes to a fresh register.
pub open spec fn gen_num(e: NumExprView, st: GenView) -> Gen<Address>
    decreases e,
{
    match e {
        NumExprView::Add(a, b) => match gen_num(*a, st) {
            Err(e) => Err(e),
            Ok((x, s1)) => match gen_num(*b, s1) {
                Err(e) => Err(e),
                Ok((y, s2)) => gen_op(s2, OpCode::Add, x, y),
            },
        },
        NumExprView::Sub(a, b) => match gen_num(*a, st) {
            Err(e) => Err(e),
            Ok((x, s1)) => match gen_num(*b, s1) {
                Err(e) => Err(e),
                Ok((y, s2)) => gen_op(s2, OpCode::Sub, x, y),
            },
        },
        NumExprView::Mul(a, b) => match gen_num(*a, st) {
            Err(e) => Err(e),
            Ok((x, s1)) => match gen_num(*b, s1) {
                Err(e) => Err(e),
                Ok((y, s2)) => gen_op(s2, OpCode::Mul, x, y),
            },
        },
        NumExprView::Div(a, b) => match gen_num(*a, st) {
            Err(e) => Err(e),
            Ok((x, s1)) => match gen_num(*b, s1) {
                Err(e) => Err(e),
                Ok((y, s2)) => gen_op(s2, OpCode::Div, x, y),
            },
        },
        NumExprView::Not(a) => match gen_num(*a, st) {
            Err(e) => Err(e),
            Ok((x, s1)) => gen_op(s1, OpCode::Not, x, x),
        },
        NumExprView::Minus(a) => match gen_num(*a, st) {
            Err(e) => Err(e),
            Ok((x, s1)) => gen_op(s1, OpCode::Minus, x, x),
        },
        NumExprView::Expr(b) => gen_bool(*b, st),
        NumExprView::Loc(l) => gen_loc(l, st),
        NumExprView::Num(x) => gen_literal(st, x),
        NumExprView::True => Ok((Address::constant(1), st)),
        NumExprView::False => Ok((Address::constant(0), st)),
    }
}

/// The code of a boolean expression. Both operands of `&&` and of
/// `||` are always evaluated.
pub open spec fn gen_bool(e: BoolExprView, st: GenView) -> Gen<Address>
    decreases e,
{
    match e {
        BoolExprView::Or(a, b) => match gen_bool(*a, st) {
            Err(e) => Err(e),
            Ok((x, s1)) => match gen_bool(*b, s1) {
                Err(e) => Err(e),
                Ok((y, s2)) => gen_op(s2, OpCode::Or, x, y),
            },
        },
        BoolExprView::And(a, b) => match gen_bool(*a, st) {
            Err(e) => Err(e),
            Ok((x, s1)) => match gen_bool(*b, s1) {
                Err(e) => Err(e),
                Ok((y, s2)) => gen_op(s2, OpCode::And, x, y),
            },
        },
        BoolExprView::Eq(a, b) => match gen_bool(*a, st) {
            Err(e) => Err(e),
            Ok((x, s1)) => match gen_bool(*b, s1) {
                Err(e) => Err(e),
                Ok((y, s2)) => gen_relation(s2, Relation::Equal, x, y),
            },
        },
        BoolExprView::Neq(a, b) => match gen_bool(*a, st) {
            Err(e) => Err(e),
            Ok((x, s1)) => match gen_bool(*b, s1) {
                Err(e) => Err(e),
                Ok((y, s2)) => gen_relation(s2, Relation::NotEqual, x, y),
            },
        },
        BoolExprView::Relop(r, a, b) => match gen_num(*a, st) {
            Err(e) => Err(e),
            Ok((x, s1)) => match gen_num(*b, s1) {
                Err(e) => Err(e),
                Ok((y, s2)) => gen_relation(s2, Relation::of(r), x, y),
            },
        },
        BoolExprView::NumExpr(a) => gen_num(*a, st),
    }
}

/// The offset of an array element: to `acc` is added, for each index in
/// turn, the index times the stride of its dimension. Each product and each
/// sum goes to a fresh register.
pub open spec fn gen_indices(
    indices: Seq<BoolExprView>,
    strides: Seq<u32>,
    acc: Address,
    st: GenView,
) -> Gen<Address>
    recommends
        indices.len() <= strides.len(),
    decreases indices,
{
    if indices.len() == 0 {
        Ok((acc, st))
    } else {
        match gen_bool(indices[0], st) {
            Err(e) => Err(e),
            Ok((i, s1)) => if strides[0] > i32::MAX {
                Err((CodeGenError::ConstantTooLarge, s1))
            } else {
                match gen_op(s1, OpCode::Mul, i, Address::constant(strides[0] as int)) {
                    Err(e) => Err(e),
                    Ok((m, s2)) => match gen_op(s2, OpCode::Add, acc, m) {
                        Err(e) => Err(e),
                        Ok((sum, s3)) => gen_indices(
                            indices.drop_first(),
                            strides.drop_first(),
                            sum,
                            s3,
                        ),
                    },
                }
            },
        }
    }
}

/// A fresh register receives the offset `offset`; the address returned
/// stands for the place in the stack that the register points to.
pub open spec fn gen_pointer(offset: Address, st: GenView) -> Gen<Address> {
    match st.new_pointer() {
        Err(e) => Err(e),
        Ok((p, s1)) => match s1.emit(
            OpCode::Mov,
            Address::register(p.place as int),
            offset,
            offset,
        ) {
            Err(e) => Err(e),
            Ok(s2) => Ok((p, s2)),
        },
    }
}

/// The code of a location. A name stands for its declaration in the nearest
/// enclosing block. A plain identifier has the address that it was declared
/// with, and nothing is emitted. For an element of an array
/// the offset of the element is computed from the offset of the array, and
/// put into a fresh register; the address stands for the place in the stack
/// that the register points to.
pub open spec fn gen_loc(l: LocView, st: GenView) -> Gen<Address>
    decreases l,
{
    match l {
        LocView::Ide(name) => match resolve(st.frames, name) {
            None => Err((CodeGenError::Undeclared, st)),
            Some(info) => Ok((info.address, st)),
        },
        LocView::Index(name, indices) => match resolve(st.frames, name) {
            None => Err((CodeGenError::Undeclared, st)),
            Some(info) => if info.address.mode != AddressMode::FramePointer || indices.len()
                >= info.typeinfo.dim_width.len() {
                Err((CodeGenError::BadIndex, st))
            } else {
                match gen_indices(
                    indices,
                    info.typeinfo.dim_width.drop_first(),
                    Address::constant(info.address.place as int),
                    st,
                ) {
                    Err(e) => Err(e),
                    Ok((offset, s1)) => gen_pointer(offset, s1),
                }
            },
        },
    }
}

/// The jumps at the indices `breaks` go to `lbl`.
pub open spec fn patch_all(st: GenView, breaks: Seq<usize>, lbl: Label) -> GenView
    decreases breaks.len(),
{
    if breaks.len() == 0 {
        st
    } else {
        patch_all(st, breaks.drop_last(), lbl).patch_jump(breaks.last(), lbl)
    }
}

/// Each declaration in turn is registered in the innermost frame. Nothing
/// is emitted.
pub open spec fn gen_decls(decls: Seq<DeclView>, st: GenView) -> Emitted
    decreases decls.len(),
{
    if decls.len() == 0 {
        Ok(st)
    } else {
        match declare(st.frames, decls[0].id, decls[0].type_id) {
            Err(e) => Err((e, st)),
            Ok((_, frames)) => gen_decls(decls.drop_first(), GenView { frames, ..st }),
        }
    }
}

/// The condition of a branch or of a loop: the instructions that evaluate
/// `c`, and behind them a jump that is taken when the value is 0. The target
/// of the jump is set later; until then it is the label `begin`. The result
/// is the index of the jump.
pub open spec fn gen_condition(c: BoolExprView, begin: Label, st: GenView) -> Gen<usize> {
    match gen_bool(c, st) {
        Err(e) => Err(e),
        Ok((cond, s1)) => s1.emit_jump(OpCode::JmpZ, begin, cond),
    }
}

/// The end of an `if`: behind the branch, whose code is `branch`, is
/// where the jump of the condition goes.
pub open spec fn finish_if(jump: usize, branch: Gen<Seq<usize>>)
    -> Gen<Seq<usize>> {
    match branch {
        Err(e) => Err(e),
        Ok((breaks, s1)) => Ok((breaks, s1.patch_jump(jump, s1.label()))),
    }
}

/// The middle of an `if`-`else`: behind the first branch, whose code
/// is `branch`, stands a jump over the second, and behind that jump is where
/// the jump of the condition goes. The result holds the pending jumps of
/// the first branch and the index of the jump over the second.
pub open spec fn begin_else(
    begin: Label,
    to_else: usize,
    branch: Gen<Seq<usize>>,
) -> Result<(Seq<usize>, usize, GenView), (CodeGenError, GenView)> {
    match branch {
        Err(e) => Err(e),
        Ok((breaks, s1)) => match s1.emit_jump(OpCode::Goto, begin, Address::null()) {
            Err(e) => Err(e),
            Ok((to_end, s2)) => Ok((breaks, to_end, s2.patch_jump(to_else, s2.label()))),
        },
    }
}

/// The end of an `if`-`else`: behind the second branch, whose code
/// is `branch`, is where the jump over it goes. The pending jumps of both
/// branches stay pending.
pub open spec fn finish_else(
    breaks: Seq<usize>,
    to_end: usize,
    branch: Gen<Seq<usize>>,
) -> Gen<Seq<usize>> {
    match branch {
        Err(e) => Err(e),
        Ok((more, s1)) => Ok((breaks + more, s1.patch_jump(to_end, s1.label()))),
    }
}

/// The end of a `while`: behind the body, whose code is `body`,
/// stands a jump back to `begin`, where the condition starts. Behind that
/// jump is where the jump of the condition goes, and every pending jump of
/// the body. None is left pending.
pub open spec fn finish_while(
    begin: Label,
    to_after: usize,
    body: Gen<Seq<usize>>,
) -> Gen<Seq<usize>> {
    match body {
        Err(e) => Err(e),
        Ok((breaks, s1)) => match s1.emit_jump(OpCode::Goto, begin, Address::null()) {
            Err(e) => Err(e),
            Ok((_, s2)) => Ok(
                (
                    Seq::empty(),
                    patch_all(s2, breaks, s2.label()).patch_jump(to_after, s2.label()),
                ),
            ),
        },
    }
}

/// An assignment: the location, then the expression, then the instruction
/// that moves the value of the expression to the location.
pub open spec fn gen_assign(l: LocView, e: BoolExprView, st: GenView) -> Gen<Seq<usize>> {
    match gen_loc(l, st) {
        Err(e) => Err(e),
        Ok((place, s1)) => match gen_bool(e, s1) {
            Err(e) => Err(e),
            Ok((value, s2)) => match s2.emit(OpCode::Mov, place, value, value) {
                Err(e) => Err(e),
                Ok(s3) => Ok((Seq::empty(), s3)),
            },
        },
    }
}

/// A `break`: a jump whose target is set by the loop around it. Until then
/// it is the jump's own index.
pub open spec fn gen_break(st: GenView) -> Gen<Seq<usize>> {
    match st.emit_jump(OpCode::Goto, st.label(), Address::null()) {
        Err(e) => Err(e),
        Ok((jump, s1)) => Ok((seq![jump], s1)),
    }
}

/// The code of a statement: the indices of the jumps that its `break`
/// statements emitted and that wait for a target, and the state after its
/// instructions.
///
/// - An assignment moves the value of the expression to the location.
/// - `if` jumps over its branch when the condition is 0.
/// - `if`-`else` jumps to the second branch when the condition is 0, and
///   from the end of the first branch over the second.
/// - `while` jumps behind the loop when the condition is 0, and from the end
///   of the body back to the condition. The pending jumps of the body go
///   behind the loop, and none is left pending.
/// - `break` is a jump that is left pending.
pub open spec fn gen_statement(s: StatementView, st: GenView) -> Gen<Seq<usize>>
    decreases s,
{
    let begin = st.label();
    match s {
        StatementView::Assign(l, e) => gen_assign(l, e, st),
        StatementView::If(c, a) => match gen_condition(c, begin, st) {
            Err(e) => Err(e),
            Ok((jump, s1)) => finish_if(jump, gen_statement(*a, s1)),
        },
        StatementView::IfElse(c, a, b) => match gen_condition(c, begin, st) {
            Err(e) => Err(e),
            Ok((to_else, s1)) => match begin_else(begin, to_else, gen_statement(*a, s1)) {
                Err(e) => Err(e),
                Ok((breaks, to_end, s2)) => finish_else(breaks, to_end, gen_statement(*b, s2)),
            },
        },
        StatementView::While(c, a) => match gen_condition(c, begin, st) {
            Err(e) => Err(e),
            Ok((to_after, s1)) => finish_while(begin, to_after, gen_statement(*a, s1)),
        },
        StatementView::Break => gen_break(st),
        StatementView::BlockStmt(b) => gen_block(b, st),
    }
}

/// The code of a list of statements, one after the other; the
/// pending jumps of each are added to `breaks`.
pub open spec fn gen_statements(stmts: Seq<StatementView>, breaks: Seq<usize>, st: GenView)
    -> Gen<Seq<usize>>
    decreases stmts,
{
    if stmts.len() == 0 {
        Ok((breaks, st))
    } else {
        match gen_statement(stmts[0], st) {
            Err(e) => Err(e),
            Ok((more, s1)) => gen_statements(stmts.drop_first(), breaks + more, s1),
        }
    }
}

/// The start of a block: a frame is opened, the declarations are
/// registered in it, and the stack pointer moves up by the width that the
/// frame then has.
pub open spec fn open_block(decls: Seq<DeclView>, st: GenView) -> Emitted {
    match gen_decls(decls, st.push_frame()) {
        Err(e) => Err(e),
        Ok(s1) => s1.reserve_frame(),
    }
}

/// The end of a block: behind the statements, whose code is
/// `stmts`, the frame is closed and the stack pointer moves down again.
pub open spec fn close_block(stmts: Gen<Seq<usize>>) -> Gen<Seq<usize>> {
    match stmts {
        Err(e) => Err(e),
        Ok((breaks, s1)) => match s1.pop_frame() {
            Err(e) => Err(e),
            Ok(s2) => Ok((breaks, s2)),
        },
    }
}

/// The code of a block: its frame is opened, its statements follow,
/// and its frame is closed. The pending jumps of the statements stay
/// pending.
pub open spec fn gen_block(b: BlockView, st: GenView) -> Gen<Seq<usize>>
    decreases b,
{
    match open_block(b.decls, st) {
        Err(e) => Err(e),
        Ok(s1) => close_block(gen_statements(b.stmts, Seq::empty(), s1)),
    }
}

/// The code of a program: that of its block, in which no jump may be
/// left pending.
pub open spec fn gen_program(p: ProgramView, st: GenView) -> Emitted {
    match gen_block(p.block, st) {
        Err(e) => Err(e),
        Ok((breaks, s1)) => if breaks.len() > 0 {
            Err((CodeGenError::BreakOutsideLoop, s1))
        } else {
            Ok(s1)
        },
    }
}

impl Relation {
    /// The comparison that an order operator stands for.
    pub fn from_relop(r: Relop) -> (rel: Relation)
        ensures
            rel == Relation::of(r),
    {
        match r {
            Relop::Ge => Relation::GreaterOrEqual,
            Relop::Gr => Relation::Greater,
            Relop::Leq => Relation::LessOrEqual,
            Relop::Les => Relation::Less,
        }
    }
}

/// Emits `t = op(x, y)` for a fresh register `t`, and returns `t`.
pub fn emit_op(cg: &mut CodeGenerator, op: OpCode, x: Address, y: Address) -> (r: Result<
    Address,
    CodeGenError,
>)
    requires
        old(cg).wf(),
    ensures
        final(cg).wf(),
        final(cg).parser() == old(cg).parser(),
        match gen_op(old(cg)@, op, x, y) {
            Ok((t, after)) => r == Ok::<Address, CodeGenError>(t) && final(cg)@ == after,
            Err((e, after)) => r == Err::<Address, CodeGenError>(e) && final(cg)@ == after,
        },
{
    let t = cg.new_temp()?;
    match cg.emit(op, t, x, y) {
        Ok(()) => Ok(t),
        Err(e) => Err(e),
    }
}

/// Emits `t = op(x)` and `u = then(t)` for fresh registers `t` and `u`, and
/// returns `u`.
pub fn emit_op_then(cg: &mut CodeGenerator, op: OpCode, then: OpCode, x: Address) -> (r: Result<
    Address,
    CodeGenError,
>)
    requires
        old(cg).wf(),
    ensures
        final(cg).wf(),
        final(cg).parser() == old(cg).parser(),
        match gen_op_then(old(cg)@, op, then, x) {
            Ok((t, after)) => r == Ok::<Address, CodeGenError>(t) && final(cg)@ == after,
            Err((e, after)) => r == Err::<Address, CodeGenError>(e) && final(cg)@ == after,
        },
{
    let t = emit_op(cg, op, x, x)?;
    emit_op(cg, then, t, t)
}

/// Emits the comparison of `x` with `y`, and returns the register that
/// receives 1 if it holds and 0 if it does not.
pub fn emit_relation(cg: &mut CodeGenerator, rel: Relation, x: Address, y: Address) -> (r: Result<
    Address,
    CodeGenError,
>)
    requires
        old(cg).wf(),
    ensures
        final(cg).wf(),
        final(cg).parser() == old(cg).parser(),
        match gen_relation(old(cg)@, rel, x, y) {
            Ok((t, after)) => r == Ok::<Address, CodeGenError>(t) && final(cg)@ == after,
            Err((e, after)) => r == Err::<Address, CodeGenError>(e) && final(cg)@ == after,
        },
{
    let d = emit_op(cg, OpCode::Sub, x, y)?;
    match rel {
        Relation::Greater => emit_op(cg, OpCode::IsPos, d, d),
        Relation::Less => emit_op(cg, OpCode::IsNeg, d, d),
        Relation::GreaterOrEqual => emit_op_then(cg, OpCode::IsNeg, OpCode::Not, d),
        Relation::LessOrEqual => emit_op_then(cg, OpCode::IsPos, OpCode::Not, d),
        Relation::Equal => {
            let p = emit_op_then(cg, OpCode::IsPos, OpCode::Not, d)?;
            let n = emit_op_then(cg, OpCode::IsNeg, OpCode::Not, d)?;
            emit_op(cg, OpCode::And, p, n)
        },
        Relation::NotEqual => {
            let p = emit_op(cg, OpCode::IsPos, d, d)?;
            let n = emit_op(cg, OpCode::IsNeg, d, d)?;
            emit_op(cg, OpCode::Or, p, n)
        },
    }
}

} // verus!
