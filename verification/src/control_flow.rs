//! What the code of every node keeps: the instructions emitted before it, the
//! frames of the symbol table, and the order of its pending jumps.

use vstd::prelude::*;
use crate::ast::expression::{BoolExprView, LocView, NumExprView};
use crate::ast::statement::{BlockView, DeclView, ProgramView, StatementView};
use crate::code_generator::{Address, AddressCode, AddressMode, GenView, Label, OpCode};
use crate::emission::{
    begin_else, close_block, finish_else, finish_if, finish_while, gen_block, gen_bool,
    gen_condition, gen_decls, gen_indices, gen_loc, gen_num, gen_op, gen_op_then, gen_pointer,
    gen_program, gen_relation, gen_statement, gen_statements, open_block, patch_all, Relation,
};
use crate::interpreter::{ExecError, MachineView};
use crate::symbol_table::{declare, resolve, total_width};

verus! {

/// The state `b` continues the state `a`: the instructions of `a` stand
/// unchanged at the front of those of `b`, no register of `a` is allocated
/// again, and the frames and the stack pointer are the same. If anything
/// was emitted, a label can still name the end of the code.
pub open spec fn continues(a: GenView, b: GenView) -> bool {
    &&& a.code.len() <= b.code.len()
    &&& forall|i: int| 0 <= i < a.code.len() ==> b.code[i] == a.code[i]
    &&& b.frames == a.frames
    &&& b.stack_pointer == a.stack_pointer
    &&& a.temp_num <= b.temp_num
    &&& b.code.len() == a.code.len() || b.code.len() <= i32::MAX
}

/// Whether `op` is one of the two jumps.
pub open spec fn is_jump(op: OpCode) -> bool {
    op == OpCode::Goto || op == OpCode::JmpZ
}

/// The state `b` continues the state `a`, and none of the instructions
/// that it adds is a jump.
pub open spec fn computes(a: GenView, b: GenView) -> bool {
    &&& continues(a, b)
    &&& forall|i: int| a.code.len() <= i < b.code.len() ==> !is_jump(#[trigger] b.code[i].op)
}

/// The jumps at `breaks` are pending in `st`: they are unconditional jumps
/// emitted at or after the index `from`, listed in the order of emission.
pub open spec fn pending(breaks: Seq<usize>, from: int, st: GenView) -> bool {
    &&& forall|k: int|
        0 <= k < breaks.len() ==> from <= #[trigger] breaks[k] < st.code.len()
            && st.code[breaks[k] as int].op == OpCode::Goto
            && st.code[breaks[k] as int].res.mode == AddressMode::Label
    &&& forall|j: int, k: int| 0 <= j < k < breaks.len() ==> breaks[j] < breaks[k]
}

/// The number of `break` statements in `s` that belong to a loop around `s`:
/// those inside branches and blocks, but not those inside a loop of `s`.
pub open spec fn break_count(s: StatementView) -> nat
    decreases s,
{
    match s {
        StatementView::Assign(_, _) => 0,
        StatementView::If(_, a) => break_count(*a),
        StatementView::IfElse(_, a, b) => break_count(*a) + break_count(*b),
        StatementView::While(_, _) => 0,
        StatementView::Break => 1,
        StatementView::BlockStmt(b) => break_count_all(b.stmts),
    }
}

/// The sum of [`break_count`] over a list of statements.
pub open spec fn break_count_all(stmts: Seq<StatementView>) -> nat
    decreases stmts,
{
    if stmts.len() == 0 {
        0
    } else {
        break_count(stmts[0]) + break_count_all(stmts.drop_first())
    }
}

/// An operation into a fresh register appends one instruction.
pub proof fn lemma_gen_op(st: GenView, op: OpCode, x: Address, y: Address)
    ensures
        gen_op(st, op, x, y) matches Ok((t, after)) ==> continues(st, after) && after.code.len()
            == st.code.len() + 1 && after.code.last().op == op && after.code.last().res == t
            && after.code.last().x == x && after.code.last().y == y && (!is_jump(op) ==> computes(
            st,
            after,
        )),
{
}

/// What continues a computation with a computation is a computation.
pub proof fn lemma_computes_trans(a: GenView, b: GenView, c: GenView)
    requires
        computes(a, b),
        computes(b, c),
    ensures
        computes(a, c),
{
    assert forall|i: int| a.code.len() <= i < c.code.len() implies !is_jump(
        #[trigger] c.code[i].op,
    ) by {
        if i < b.code.len() {
            assert(c.code[i] == b.code[i]);
        }
    }
}

/// A comparison only appends instructions, and none of them is a jump.
pub proof fn lemma_gen_relation(st: GenView, rel: Relation, x: Address, y: Address)
    ensures
        gen_relation(st, rel, x, y) matches Ok((t, after)) ==> computes(st, after),
{
    if let Ok((d, s1)) = gen_op(st, OpCode::Sub, x, y) {
        lemma_gen_op(st, OpCode::Sub, x, y);
        match rel {
            Relation::Greater => {
                lemma_gen_op(s1, OpCode::IsPos, d, d);
                if let Ok((_, s2)) = gen_op(s1, OpCode::IsPos, d, d) {
                    lemma_computes_trans(st, s1, s2);
                }
            },
            Relation::Less => {
                lemma_gen_op(s1, OpCode::IsNeg, d, d);
                if let Ok((_, s2)) = gen_op(s1, OpCode::IsNeg, d, d) {
                    lemma_computes_trans(st, s1, s2);
                }
            },
            Relation::GreaterOrEqual => {
                lemma_gen_op_then(s1, OpCode::IsNeg, OpCode::Not, d);
                if let Ok((_, s2)) = gen_op_then(s1, OpCode::IsNeg, OpCode::Not, d) {
                    lemma_computes_trans(st, s1, s2);
                }
            },
            Relation::LessOrEqual => {
                lemma_gen_op_then(s1, OpCode::IsPos, OpCode::Not, d);
                if let Ok((_, s2)) = gen_op_then(s1, OpCode::IsPos, OpCode::Not, d) {
                    lemma_computes_trans(st, s1, s2);
                }
            },
            Relation::Equal => {
                lemma_gen_op_then(s1, OpCode::IsPos, OpCode::Not, d);
                if let Ok((p, s2)) = gen_op_then(s1, OpCode::IsPos, OpCode::Not, d) {
                    lemma_computes_trans(st, s1, s2);
                    lemma_gen_op_then(s2, OpCode::IsNeg, OpCode::Not, d);
                    if let Ok((n, s3)) = gen_op_then(s2, OpCode::IsNeg, OpCode::Not, d) {
                        lemma_computes_trans(st, s2, s3);
                        lemma_gen_op(s3, OpCode::And, p, n);
                        if let Ok((_, s4)) = gen_op(s3, OpCode::And, p, n) {
                            lemma_computes_trans(st, s3, s4);
                        }
                    }
                }
            },
            Relation::NotEqual => {
                lemma_gen_op(s1, OpCode::IsPos, d, d);
                if let Ok((p, s2)) = gen_op(s1, OpCode::IsPos, d, d) {
                    lemma_computes_trans(st, s1, s2);
                    lemma_gen_op(s2, OpCode::IsNeg, d, d);
                    if let Ok((n, s3)) = gen_op(s2, OpCode::IsNeg, d, d) {
                        lemma_computes_trans(st, s2, s3);
                        lemma_gen_op(s3, OpCode::Or, p, n);
                        if let Ok((_, s4)) = gen_op(s3, OpCode::Or, p, n) {
                            lemma_computes_trans(st, s3, s4);
                        }
                    }
                }
            },
        }
    }
}

/// Two operations in a row append two instructions.
pub proof fn lemma_gen_op_then(st: GenView, op: OpCode, then: OpCode, x: Address)
    ensures
        gen_op_then(st, op, then, x) matches Ok((t, after)) ==> continues(st, after) && (!is_jump(
            op,
        ) && !is_jump(then) ==> computes(st, after)),
{
    lemma_gen_op(st, op, x, x);
    if let Ok((t, s1)) = gen_op(st, op, x, x) {
        lemma_gen_op(s1, then, t, t);
        if let Ok((_, s2)) = gen_op(s1, then, t, t) {
            if !is_jump(op) && !is_jump(then) {
                lemma_computes_trans(st, s1, s2);
            }
        }
    }
}

/// The code of a numeric expression only appends instructions, and none of
/// them is a jump.
pub proof fn lemma_gen_num(e: NumExprView, st: GenView)
    ensures
        gen_num(e, st) matches Ok((a, after)) ==> computes(st, after),
    decreases e,
{
    match e {
        NumExprView::Add(a, b) | NumExprView::Sub(a, b) | NumExprView::Mul(a, b)
        | NumExprView::Div(a, b) => {
            lemma_gen_num(*a, st);
            if let Ok((x, s1)) = gen_num(*a, st) {
                lemma_gen_num(*b, s1);
                if let Ok((y, s2)) = gen_num(*b, s1) {
                    lemma_computes_trans(st, s1, s2);
                    lemma_binary(st, s2, OpCode::Add, x, y);
                    lemma_binary(st, s2, OpCode::Sub, x, y);
                    lemma_binary(st, s2, OpCode::Mul, x, y);
                    lemma_binary(st, s2, OpCode::Div, x, y);
                }
            }
        },
        NumExprView::Not(a) | NumExprView::Minus(a) => {
            lemma_gen_num(*a, st);
            if let Ok((x, s1)) = gen_num(*a, st) {
                lemma_binary(st, s1, OpCode::Not, x, x);
                lemma_binary(st, s1, OpCode::Minus, x, x);
            }
        },
        NumExprView::Expr(b) => {
            lemma_gen_bool(*b, st);
        },
        NumExprView::Loc(l) => {
            lemma_gen_loc(l, st);
        },
        _ => {},
    }
}

/// An operation behind a computation makes a computation.
proof fn lemma_binary(st: GenView, s1: GenView, op: OpCode, x: Address, y: Address)
    requires
        computes(st, s1),
        !is_jump(op),
    ensures
        gen_op(s1, op, x, y) matches Ok((_, after)) ==> computes(st, after),
{
    lemma_gen_op(s1, op, x, y);
    if let Ok((_, after)) = gen_op(s1, op, x, y) {
        lemma_computes_trans(st, s1, after);
    }
}

/// A comparison behind a computation makes a computation.
proof fn lemma_relation(st: GenView, s1: GenView, rel: Relation, x: Address, y: Address)
    requires
        computes(st, s1),
    ensures
        gen_relation(s1, rel, x, y) matches Ok((_, after)) ==> computes(st, after),
{
    lemma_gen_relation(s1, rel, x, y);
    if let Ok((_, after)) = gen_relation(s1, rel, x, y) {
        lemma_computes_trans(st, s1, after);
    }
}

/// The code of a boolean expression only appends instructions, and none of
/// them is a jump.
pub proof fn lemma_gen_bool(e: BoolExprView, st: GenView)
    ensures
        gen_bool(e, st) matches Ok((a, after)) ==> computes(st, after),
    decreases e,
{
    match e {
        BoolExprView::Or(a, b) | BoolExprView::And(a, b) | BoolExprView::Eq(a, b)
        | BoolExprView::Neq(a, b) => {
            lemma_gen_bool(*a, st);
            if let Ok((x, s1)) = gen_bool(*a, st) {
                lemma_gen_bool(*b, s1);
                if let Ok((y, s2)) = gen_bool(*b, s1) {
                    lemma_computes_trans(st, s1, s2);
                    lemma_binary(st, s2, OpCode::Or, x, y);
                    lemma_binary(st, s2, OpCode::And, x, y);
                    lemma_relation(st, s2, Relation::Equal, x, y);
                    lemma_relation(st, s2, Relation::NotEqual, x, y);
                }
            }
        },
        BoolExprView::Relop(r, a, b) => {
            lemma_gen_num(*a, st);
            if let Ok((x, s1)) = gen_num(*a, st) {
                lemma_gen_num(*b, s1);
                if let Ok((y, s2)) = gen_num(*b, s1) {
                    lemma_computes_trans(st, s1, s2);
                    lemma_relation(st, s2, Relation::of(r), x, y);
                }
            }
        },
        BoolExprView::NumExpr(a) => {
            lemma_gen_num(*a, st);
        },
    }
}

/// The code of a list of indices only appends instructions, and none of
/// them is a jump.
pub proof fn lemma_gen_indices(
    indices: Seq<BoolExprView>,
    strides: Seq<u32>,
    acc: Address,
    st: GenView,
)
    ensures
        gen_indices(indices, strides, acc, st) matches Ok((a, after)) ==> computes(st, after),
    decreases indices,
{
    if indices.len() > 0 {
        lemma_gen_bool(indices[0], st);
        if let Ok((i, s1)) = gen_bool(indices[0], st) {
            let c = Address::constant(strides[0] as int);
            lemma_binary(st, s1, OpCode::Mul, i, c);
            if let Ok((m, s2)) = gen_op(s1, OpCode::Mul, i, c) {
                lemma_binary(st, s2, OpCode::Add, acc, m);
                if let Ok((sum, s3)) = gen_op(s2, OpCode::Add, acc, m) {
                    lemma_gen_indices(indices.drop_first(), strides.drop_first(), sum, s3);
                    if let Ok((_, s4)) = gen_indices(
                        indices.drop_first(),
                        strides.drop_first(),
                        sum,
                        s3,
                    ) {
                        lemma_computes_trans(st, s3, s4);
                    }
                }
            }
        }
    }
}

/// The code of a location only appends instructions, and none of them is a
/// jump.
pub proof fn lemma_gen_loc(l: LocView, st: GenView)
    ensures
        gen_loc(l, st) matches Ok((a, after)) ==> computes(st, after),
    decreases l,
{
    match l {
        LocView::Ide(_) => {},
        LocView::Index(name, indices) => {
            if let Some(info) = resolve(st.frames, name) {
                let base = Address::constant(info.address.place as int);
                lemma_gen_indices(indices, info.typeinfo.dim_width.drop_first(), base, st);
                if let Ok((offset, s1)) = gen_indices(
                    indices,
                    info.typeinfo.dim_width.drop_first(),
                    base,
                    st,
                ) {
                    if let Ok((_, s2)) = gen_pointer(offset, s1) {
                        assert(computes(s1, s2));
                        lemma_computes_trans(st, s1, s2);
                    }
                }
            }
        },
    }
}

/// Whether the index `i` is in the list `breaks`.
pub open spec fn listed(breaks: Seq<usize>, i: int) -> bool {
    exists|k: int| 0 <= k < breaks.len() && #[trigger] breaks[k] == i
}

/// What continues a continuation of a state continues that state.
pub proof fn lemma_continues_trans(a: GenView, b: GenView, c: GenView)
    requires
        continues(a, b),
        continues(b, c),
    ensures
        continues(a, c),
{
}

/// A jump is appended like any other instruction, and its index is the
/// number of instructions before it.
pub proof fn lemma_emit_jump(st: GenView, op: OpCode, lbl: Label, x: Address)
    ensures
        st.emit_jump(op, lbl, x) matches Ok((jump, after)) ==> continues(st, after) && jump
            == st.code.len() && after.code.len() == st.code.len() + 1 && after.code[jump as int].op
            == op && after.code[jump as int].res == Address::label(lbl.place as int)
            && after.code[jump as int].x == x,
{
}

/// Setting the target of a jump changes the place of its result and nothing
/// else.
pub proof fn lemma_patch_jump(st: GenView, addr: usize, lbl: Label)
    requires
        addr < st.code.len(),
    ensures
        st.patch_jump(addr, lbl).code.len() == st.code.len(),
        st.patch_jump(addr, lbl).frames == st.frames,
        st.patch_jump(addr, lbl).temp_num == st.temp_num,
        st.patch_jump(addr, lbl).stack_pointer == st.stack_pointer,
        forall|i: int|
            0 <= i < st.code.len() && i != addr ==> st.patch_jump(addr, lbl).code[i] == st.code[i],
        st.patch_jump(addr, lbl).code[addr as int].op == st.code[addr as int].op,
        st.patch_jump(addr, lbl).code[addr as int].x == st.code[addr as int].x,
        st.patch_jump(addr, lbl).code[addr as int].y == st.code[addr as int].y,
        st.patch_jump(addr, lbl).code[addr as int].id == st.code[addr as int].id,
        st.patch_jump(addr, lbl).code[addr as int].res.mode == st.code[addr as int].res.mode,
        st.patch_jump(addr, lbl).code[addr as int].res.place == lbl.place,
{
}

/// Setting the target of a jump that `a` does not hold leaves a continuation
/// of `a` one.
pub proof fn lemma_patch_continues(a: GenView, st: GenView, addr: usize, lbl: Label)
    requires
        continues(a, st),
        a.code.len() <= addr < st.code.len(),
    ensures
        continues(a, st.patch_jump(addr, lbl)),
{
    lemma_patch_jump(st, addr, lbl);
}

/// Setting the target of a jump leaves pending jumps pending.
pub proof fn lemma_patch_pending(breaks: Seq<usize>, from: int, st: GenView, addr: usize, lbl: Label)
    requires
        pending(breaks, from, st),
        addr < st.code.len(),
    ensures
        pending(breaks, from, st.patch_jump(addr, lbl)),
{
    lemma_patch_jump(st, addr, lbl);
}

/// Pending jumps stay pending in a continuation.
pub proof fn lemma_pending_continues(breaks: Seq<usize>, from: int, low: int, a: GenView, b: GenView)
    requires
        pending(breaks, from, a),
        continues(a, b),
        low <= from,
    ensures
        pending(breaks, low, b),
{
}

/// Two lists of pending jumps, the second emitted after the first, make one.
pub proof fn lemma_pending_concat(
    first: Seq<usize>,
    second: Seq<usize>,
    from: int,
    mid: int,
    st: GenView,
)
    requires
        pending(first, from, st),
        pending(second, mid, st),
        from <= mid,
        forall|k: int| 0 <= k < first.len() ==> #[trigger] first[k] < mid,
    ensures
        pending(first + second, from, st),
{
    let all = first + second;
    assert forall|k: int| 0 <= k < all.len() implies from <= #[trigger] all[k] < st.code.len()
        && st.code[all[k] as int].op == OpCode::Goto && st.code[all[k] as int].res.mode
        == AddressMode::Label by {
        if k < first.len() {
            assert(all[k] == first[k]);
        } else {
            assert(all[k] == second[k - first.len()]);
        }
    }
    assert forall|j: int, k: int| 0 <= j < k < all.len() implies all[j] < all[k] by {
        if j < first.len() {
            assert(all[j] == first[j]);
        } else {
            assert(all[j] == second[j - first.len()]);
        }
        if k < first.len() {
            assert(all[k] == first[k]);
        } else {
            assert(all[k] == second[k - first.len()]);
        }
    }
}

/// Setting the targets of a list of jumps changes the places of their
/// results and nothing else.
pub proof fn lemma_patch_all(st: GenView, breaks: Seq<usize>, lbl: Label)
    requires
        forall|k: int| 0 <= k < breaks.len() ==> #[trigger] breaks[k] < st.code.len(),
    ensures
        patch_all(st, breaks, lbl).code.len() == st.code.len(),
        patch_all(st, breaks, lbl).frames == st.frames,
        patch_all(st, breaks, lbl).temp_num == st.temp_num,
        patch_all(st, breaks, lbl).stack_pointer == st.stack_pointer,
        forall|i: int|
            0 <= i < st.code.len() ==> {
                let before = #[trigger] st.code[i];
                let after = patch_all(st, breaks, lbl).code[i];
                &&& after.op == before.op
                &&& after.x == before.x
                &&& after.y == before.y
                &&& after.id == before.id
                &&& after.res.mode == before.res.mode
                &&& after.res.place == if listed(breaks, i) {
                    lbl.place
                } else {
                    before.res.place
                }
            },
    decreases breaks.len(),
{
    if breaks.len() > 0 {
        let front = breaks.drop_last();
        lemma_patch_all(st, front, lbl);
        let mid = patch_all(st, front, lbl);
        lemma_patch_jump(mid, breaks.last(), lbl);
        let done = patch_all(st, breaks, lbl);
        assert forall|i: int| 0 <= i < st.code.len() implies ({
            let before = #[trigger] st.code[i];
            let after = done.code[i];
            &&& after.op == before.op
            &&& after.x == before.x
            &&& after.y == before.y
            &&& after.id == before.id
            &&& after.res.mode == before.res.mode
            &&& after.res.place == if listed(breaks, i) {
                lbl.place
            } else {
                before.res.place
            }
        }) by {
            if listed(front, i) {
                let k = choose|k: int| 0 <= k < front.len() && #[trigger] front[k] == i;
                assert(breaks[k] == i);
            }
            if i == breaks.last() {
                assert(breaks[breaks.len() - 1] == i);
            }
            if listed(breaks, i) && i != breaks.last() {
                let k = choose|k: int| 0 <= k < breaks.len() && #[trigger] breaks[k] == i;
                assert(front[k] == i);
            }
        }
    } else {
        assert forall|i: int| 0 <= i < st.code.len() implies !listed(breaks, i) by {}
    }
}

/// Setting the targets of jumps that `a` does not hold leaves a continuation
/// of `a` one.
pub proof fn lemma_patch_all_continues(a: GenView, st: GenView, breaks: Seq<usize>, lbl: Label)
    requires
        continues(a, st),
        forall|k: int| 0 <= k < breaks.len() ==> a.code.len() <= #[trigger] breaks[k] < st.code.len(),
    ensures
        continues(a, patch_all(st, breaks, lbl)),
{
    lemma_patch_all(st, breaks, lbl);
    let done = patch_all(st, breaks, lbl);
    assert forall|i: int| 0 <= i < a.code.len() implies done.code[i] == a.code[i] by {
        let before = st.code[i];
        if listed(breaks, i) {
            let k = choose|k: int| 0 <= k < breaks.len() && #[trigger] breaks[k] == i;
            assert(false);
        }
    }
}

/// Declarations emit nothing. They change the innermost frame and no other.
pub proof fn lemma_gen_decls(decls: Seq<DeclView>, st: GenView)
    requires
        st.frames.len() > 0,
    ensures
        gen_decls(decls, st) matches Ok(after) ==> after.code == st.code && after.temp_num
            == st.temp_num && after.stack_pointer == st.stack_pointer && after.frames.len()
            == st.frames.len() && after.frames.drop_last() == st.frames.drop_last(),
    decreases decls.len(),
{
    if decls.len() > 0 {
        if let Ok((_, frames)) = declare(st.frames, decls[0].id, decls[0].type_id) {
            assert(frames.drop_last() == st.frames.drop_last());
            lemma_gen_decls(decls.drop_first(), GenView { frames, ..st });
        }
    }
}

/// The bytes that the types of `decls` occupy together.
pub open spec fn declared_width(decls: Seq<DeclView>) -> nat
    decreases decls.len(),
{
    if decls.len() == 0 {
        0
    } else {
        decls[0].type_id.width() + declared_width(decls.drop_first())
    }
}

/// The width of a frame is the sum of the widths of the types that are
/// declared in it: registering declarations makes the innermost frame wider
/// by the bytes that their types occupy, and the stack of frames as well.
pub proof fn lemma_declared_width(decls: Seq<DeclView>, st: GenView)
    requires
        st.frames.len() > 0,
    ensures
        gen_decls(decls, st) matches Ok(after) ==> after.frames.last().width
            == st.frames.last().width + declared_width(decls) && total_width(after.frames)
            == total_width(st.frames) + declared_width(decls),
    decreases decls.len(),
{
    if decls.len() > 0 {
        if let Ok((_, frames)) = declare(st.frames, decls[0].id, decls[0].type_id) {
            assert(frames.drop_last() == st.frames.drop_last());
            lemma_declared_width(decls.drop_first(), GenView { frames, ..st });
        }
    }
}

/// What holds of the code of a statement that starts in `st` and
/// ends in `after` with the pending jumps `breaks`: what was emitted before
/// stands, the frames are as they were, and the pending jumps are the
/// statement's own.
pub open spec fn emitted(st: GenView, breaks: Seq<usize>, after: GenView) -> bool {
    continues(st, after) && pending(breaks, st.code.len() as int, after)
}

/// The condition of a branch or of a loop only appends instructions, the
/// last of them the jump.
pub proof fn lemma_gen_condition(c: BoolExprView, begin: Label, st: GenView)
    ensures
        gen_condition(c, begin, st) matches Ok((jump, after)) ==> continues(st, after)
            && st.code.len() <= jump == after.code.len() - 1 && after.code[jump as int].op
            == OpCode::JmpZ && after.code[jump as int].res.mode == AddressMode::Label
            && after.code[jump as int].x == gen_bool(c, st)->Ok_0.0,
{
    lemma_gen_bool(c, st);
    if let Ok((cond, s1)) = gen_bool(c, st) {
        lemma_emit_jump(s1, OpCode::JmpZ, begin, cond);
    }
}

/// An `if` is emitted as [`emitted`] says, if its branch is.
pub proof fn lemma_finish_if(
    st: GenView,
    jump: usize,
    s1: GenView,
    breaks: Seq<usize>,
    s2: GenView,
)
    requires
        continues(st, s1),
        st.code.len() <= jump < s1.code.len(),
        emitted(s1, breaks, s2),
    ensures
        finish_if(jump, Ok((breaks, s2))) matches Ok((left, after)) && left == breaks
            && emitted(st, left, after) && after.code.len() == s2.code.len(),
{
    lemma_continues_trans(st, s1, s2);
    lemma_patch_continues(st, s2, jump, s2.label());
    lemma_pending_continues(breaks, s1.code.len() as int, st.code.len() as int, s2, s2);
    lemma_patch_pending(breaks, st.code.len() as int, s2, jump, s2.label());
}

/// The first half of an `if`-`else` is emitted as [`emitted`] says, if
/// its first branch is.
pub proof fn lemma_begin_else(
    st: GenView,
    begin: Label,
    to_else: usize,
    s1: GenView,
    breaks: Seq<usize>,
    s2: GenView,
)
    requires
        continues(st, s1),
        st.code.len() <= to_else < s1.code.len(),
        emitted(s1, breaks, s2),
    ensures
        begin_else(begin, to_else, Ok((breaks, s2))) matches Ok((left, to_end, after)) ==> left
            == breaks && emitted(st, left, after) && to_end == s2.code.len() && after.code.len()
            == s2.code.len() + 1,
{
    if let Ok((to_end, s3)) = s2.emit_jump(OpCode::Goto, begin, Address::null()) {
        let from = st.code.len() as int;
        lemma_emit_jump(s2, OpCode::Goto, begin, Address::null());
        lemma_continues_trans(st, s1, s2);
        lemma_continues_trans(st, s2, s3);
        lemma_patch_continues(st, s3, to_else, s3.label());
        lemma_pending_continues(breaks, s1.code.len() as int, from, s2, s3);
        lemma_patch_pending(breaks, from, s3, to_else, s3.label());
    }
}

/// An `if`-`else` is emitted as [`emitted`] says, if its second branch
/// is and its first half was.
pub proof fn lemma_finish_else(
    st: GenView,
    breaks: Seq<usize>,
    to_end: usize,
    s1: GenView,
    more: Seq<usize>,
    s2: GenView,
)
    requires
        emitted(st, breaks, s1),
        st.code.len() <= to_end < s1.code.len(),
        emitted(s1, more, s2),
    ensures
        finish_else(breaks, to_end, Ok((more, s2))) matches Ok((left, after)) && left == breaks
            + more && emitted(st, left, after),
{
    let from = st.code.len() as int;
    let mid = s1.code.len() as int;
    let after = s2.patch_jump(to_end, s2.label());
    lemma_continues_trans(st, s1, s2);
    lemma_patch_continues(st, s2, to_end, s2.label());
    lemma_pending_continues(breaks, from, from, s1, s2);
    lemma_patch_pending(breaks, from, s2, to_end, s2.label());
    lemma_patch_pending(more, mid, s2, to_end, s2.label());
    lemma_pending_concat(breaks, more, from, mid, after);
}

/// A `while` is emitted as [`emitted`] says, if its body is. Every
/// pending jump of the body, and the jump of the condition, goes behind the
/// loop: to the index at which the next instruction will be emitted.
pub proof fn lemma_finish_while(
    st: GenView,
    begin: Label,
    to_after: usize,
    s1: GenView,
    breaks: Seq<usize>,
    s2: GenView,
)
    requires
        continues(st, s1),
        st.code.len() <= to_after < s1.code.len(),
        s1.code[to_after as int].res.mode == AddressMode::Label,
        emitted(s1, breaks, s2),
    ensures
        finish_while(begin, to_after, Ok((breaks, s2))) matches Ok((left, after)) ==> left.len()
            == 0 && emitted(st, left, after) && after.code.len() == s2.code.len() + 1
            && after.code.len() <= i32::MAX
            && after.code[to_after as int].op == s1.code[to_after as int].op
            && after.code[to_after as int].x == s1.code[to_after as int].x
            && after.code[to_after as int].res == Address::label(after.code.len() as int)
            && after.code.last().op == OpCode::Goto && after.code.last().res == Address::label(
            begin.place as int,
        ) && (forall|k: int|
            0 <= k < breaks.len() ==> after.code[(#[trigger] breaks[k]) as int].op == OpCode::Goto
                && after.code[breaks[k] as int].res == Address::label(after.code.len() as int)),
{
    if let Ok((back, s3)) = s2.emit_jump(OpCode::Goto, begin, Address::null()) {
        lemma_emit_jump(s2, OpCode::Goto, begin, Address::null());
        lemma_continues_trans(st, s1, s2);
        lemma_continues_trans(st, s2, s3);
        lemma_patch_all(s3, breaks, s3.label());
        lemma_patch_all_continues(st, s3, breaks, s3.label());
        let s4 = patch_all(s3, breaks, s3.label());
        lemma_patch_continues(st, s4, to_after, s3.label());
        lemma_patch_jump(s4, to_after, s3.label());
        let after = s4.patch_jump(to_after, s3.label());
        assert(s3.code[to_after as int] == s1.code[to_after as int]);
        assert(s4.code[to_after as int].op == s3.code[to_after as int].op);
        assert(s4.code[back as int].op == s3.code[back as int].op);
        assert(!listed(breaks, back as int));
        assert(after.code[back as int] == s4.code[back as int]);
        assert forall|k: int| 0 <= k < breaks.len() implies after.code[(
        #[trigger] breaks[k]) as int].op == OpCode::Goto && after.code[breaks[k] as int].res
            == Address::label(after.code.len() as int) by {
            let i = breaks[k] as int;
            assert(listed(breaks, i));
            assert(s3.code[i] == s2.code[i]);
            assert(s4.code[i].op == s3.code[i].op);
        }
    }
}

/// The code of a statement keeps what was emitted before it and
/// leaves the frames as they were. Its pending jumps are its own, one for
/// each `break` that belongs to a loop around the statement.
pub proof fn lemma_gen_statement(s: StatementView, st: GenView)
    ensures
        gen_statement(s, st) matches Ok((breaks, after)) ==> emitted(st, breaks, after)
            && breaks.len() == break_count(s),
    decreases s,
{
    let begin = st.label();
    match s {
        StatementView::Assign(l, e) => {
            lemma_gen_loc(l, st);
            if let Ok((place, s1)) = gen_loc(l, st) {
                lemma_gen_bool(e, s1);
            }
        },
        StatementView::If(c, a) => {
            lemma_gen_condition(c, begin, st);
            if let Ok((jump, s1)) = gen_condition(c, begin, st) {
                lemma_gen_statement(*a, s1);
                if let Ok((breaks, s2)) = gen_statement(*a, s1) {
                    lemma_finish_if(st, jump, s1, breaks, s2);
                }
            }
        },
        StatementView::IfElse(c, a, b) => {
            lemma_gen_condition(c, begin, st);
            if let Ok((to_else, s1)) = gen_condition(c, begin, st) {
                lemma_gen_statement(*a, s1);
                if let Ok((breaks_a, s2)) = gen_statement(*a, s1) {
                    lemma_begin_else(st, begin, to_else, s1, breaks_a, s2);
                    if let Ok((breaks, to_end, s3)) = begin_else(
                        begin,
                        to_else,
                        Ok((breaks_a, s2)),
                    ) {
                        lemma_gen_statement(*b, s3);
                        if let Ok((more, s4)) = gen_statement(*b, s3) {
                            lemma_finish_else(st, breaks, to_end, s3, more, s4);
                        }
                    }
                }
            }
        },
        StatementView::While(c, a) => {
            lemma_gen_condition(c, begin, st);
            if let Ok((to_after, s1)) = gen_condition(c, begin, st) {
                lemma_gen_statement(*a, s1);
                if let Ok((breaks, s2)) = gen_statement(*a, s1) {
                    lemma_finish_while(st, begin, to_after, s1, breaks, s2);
                }
            }
        },
        StatementView::Break => {
            lemma_emit_jump(st, OpCode::Goto, begin, Address::null());
        },
        StatementView::BlockStmt(b) => {
            lemma_gen_block(b, st);
        },
    }
}

/// A list that starts with `breaks` and `more` is `breaks`, then `more`,
/// then the rest.
proof fn lemma_split_breaks(all: Seq<usize>, breaks: Seq<usize>, more: Seq<usize>)
    requires
        all.len() >= breaks.len() + more.len(),
        all.take((breaks.len() + more.len()) as int) == breaks + more,
    ensures
        all.take(breaks.len() as int) == breaks,
        all.skip(breaks.len() as int) == more + all.skip((breaks.len() + more.len()) as int),
{
    let n = breaks.len() as int;
    let m = more.len() as int;
    assert forall|k: int| 0 <= k < n + m implies all[k] == (breaks + more)[k] by {
        assert(all.take(n + m)[k] == all[k]);
    }
    assert(all.take(n) =~= breaks) by {
        assert forall|k: int| 0 <= k < n implies all.take(n)[k] == breaks[k] by {
            assert((breaks + more)[k] == breaks[k]);
        }
    }
    assert(all.skip(n) =~= more + all.skip(n + m)) by {
        assert forall|k: int| 0 <= k < all.len() - n implies all.skip(n)[k] == (more + all.skip(
            n + m,
        ))[k] by {
            if k < m {
                assert((breaks + more)[n + k] == more[k]);
            }
        }
    }
}

/// The code of a list of statements keeps what was emitted before it
/// and leaves the frames as they were. To the pending jumps that it is given
/// it adds its own.
pub proof fn lemma_gen_statements(stmts: Seq<StatementView>, breaks: Seq<usize>, st: GenView)
    ensures
        gen_statements(stmts, breaks, st) matches Ok((all, after)) ==> all.len() == breaks.len()
            + break_count_all(stmts) && all.take(breaks.len() as int) == breaks && emitted(
            st,
            all.skip(breaks.len() as int),
            after,
        ),
    decreases stmts,
{
    if stmts.len() == 0 {
        assert(breaks.take(breaks.len() as int) == breaks);
        assert(breaks.skip(breaks.len() as int) == Seq::<usize>::empty());
    } else {
        lemma_gen_statement(stmts[0], st);
        if let Ok((more, s1)) = gen_statement(stmts[0], st) {
            lemma_gen_statements(stmts.drop_first(), breaks + more, s1);
            if let Ok((all, after)) = gen_statements(stmts.drop_first(), breaks + more, s1) {
                let from = st.code.len() as int;
                let rest = all.skip((breaks.len() + more.len()) as int);
                lemma_split_breaks(all, breaks, more);
                lemma_continues_trans(st, s1, after);
                lemma_pending_continues(more, from, from, s1, after);
                lemma_pending_continues(rest, s1.code.len() as int, s1.code.len() as int, after, after);
                lemma_pending_concat(more, rest, from, s1.code.len() as int, after);
            }
        }
    }
}

/// The start of a block emits one instruction and opens one frame.
pub proof fn lemma_open_block(decls: Seq<DeclView>, st: GenView)
    ensures
        open_block(decls, st) matches Ok(after) ==> after.code.len() == st.code.len() + 1
            && continues(GenView { frames: after.frames, ..st }, after) && after.frames.len()
            == st.frames.len() + 1 && after.frames.drop_last() == st.frames,
{
    let s0 = st.push_frame();
    lemma_gen_decls(decls, s0);
    assert(s0.frames.drop_last() == st.frames);
}

/// The end of a block emits one instruction and closes one frame.
pub proof fn lemma_close_block(st: GenView, s1: GenView, breaks: Seq<usize>, s2: GenView)
    requires
        continues(GenView { frames: s1.frames, ..st }, s1),
        s1.frames.len() > 0,
        s1.frames.drop_last() == st.frames,
        emitted(s1, breaks, s2),
    ensures
        close_block(Ok((breaks, s2))) matches Ok((left, after)) ==> left == breaks && emitted(
            st,
            left,
            after,
        ),
{
    if let Ok(s3) = s2.pop_frame() {
        let closed = GenView { frames: st.frames, ..s2 };
        assert(continues(closed, s3));
        assert(continues(st, closed));
        assert(pending(breaks, st.code.len() as int, closed));
        lemma_pending_continues(breaks, st.code.len() as int, st.code.len() as int, closed, s3);
    }
}

/// The code of a block keeps what was emitted before it and leaves
/// the frames as they were: the frame that it opens, it closes.
pub proof fn lemma_gen_block(b: BlockView, st: GenView)
    ensures
        gen_block(b, st) matches Ok((breaks, after)) ==> emitted(st, breaks, after)
            && breaks.len() == break_count_all(b.stmts),
    decreases b,
{
    lemma_open_block(b.decls, st);
    if let Ok(s1) = open_block(b.decls, st) {
        lemma_gen_statements(b.stmts, Seq::empty(), s1);
        if let Ok((breaks, s2)) = gen_statements(b.stmts, Seq::empty(), s1) {
            assert(breaks.skip(0) == breaks);
            lemma_close_block(st, s1, breaks, s2);
        }
    }
}

/// In the code of a loop every `break` of the body that belongs to
/// the loop jumps behind the loop, and so does the loop when its condition
/// is 0; no jump is left pending. The last instruction of the loop jumps
/// back to its first, where the condition starts. The body has [`break_count`] such jumps,
/// each an instruction of its own, at the indices that its own code
/// reports. Behind the loop is the index at which the next instruction will
/// be emitted.
pub proof fn lemma_while_resolves_breaks(c: BoolExprView, body: StatementView, st: GenView)
    requires
        gen_statement(StatementView::While(c, Box::new(body)), st) is Ok,
    ensures
        ({
            let (left, after) = gen_statement(StatementView::While(c, Box::new(body)), st)->Ok_0;
            let (to_after, s1) = gen_condition(c, st.label(), st)->Ok_0;
            let (breaks, s2) = gen_statement(body, s1)->Ok_0;
            &&& left.len() == 0
            &&& breaks.len() == break_count(body)
            &&& forall|j: int, k: int| 0 <= j < k < breaks.len() ==> breaks[j] < breaks[k]
            &&& forall|k: int|
                0 <= k < breaks.len() ==> s1.code.len() <= #[trigger] breaks[k] < after.code.len()
                    && after.code[breaks[k] as int].op == OpCode::Goto
                    && after.code[breaks[k] as int].res == Address::label(
                    after.code.len() as int,
                )
            &&& after.code[to_after as int].op == OpCode::JmpZ
            &&& after.code[to_after as int].res == Address::label(after.code.len() as int)
            &&& after.code.last().op == OpCode::Goto
            &&& after.code.last().res == Address::label(st.code.len() as int)
            &&& after.code.len() <= i32::MAX
        }),
{
    let begin = st.label();
    lemma_gen_condition(c, begin, st);
    let (to_after, s1) = gen_condition(c, begin, st)->Ok_0;
    lemma_gen_statement(body, s1);
    let (breaks, s2) = gen_statement(body, s1)->Ok_0;
    lemma_finish_while(st, begin, to_after, s1, breaks, s2);
}

/// The code of `if (c) S` is the code of `c`, one conditional jump, and
/// the code of `S`, with nothing behind it. The jump reads the value of `c`
/// and goes behind the code of `S`.
pub proof fn lemma_if_code(c: BoolExprView, s: StatementView, st: GenView)
    requires
        gen_statement(StatementView::If(c, Box::new(s)), st) is Ok,
    ensures
        ({
            let (_, after) = gen_statement(StatementView::If(c, Box::new(s)), st)->Ok_0;
            let (cond, s1) = gen_bool(c, st)->Ok_0;
            let (jump, s2) = gen_condition(c, st.label(), st)->Ok_0;
            let (_, s3) = gen_statement(s, s2)->Ok_0;
            &&& st.code.len() <= s1.code.len() == jump
            &&& s2.code.len() == jump + 1
            &&& jump < after.code.len() == s3.code.len() <= i32::MAX
            &&& forall|i: int| jump < i < after.code.len() ==> after.code[i] == s3.code[i]
            &&& after.code[jump as int].op == OpCode::JmpZ
            &&& after.code[jump as int].x == cond
            &&& after.code[jump as int].res == Address::label(after.code.len() as int)
        }),
{
    let begin = st.label();
    lemma_gen_bool(c, st);
    lemma_gen_condition(c, begin, st);
    let (cond, s1) = gen_bool(c, st)->Ok_0;
    let (jump, s2) = gen_condition(c, begin, st)->Ok_0;
    lemma_emit_jump(s1, OpCode::JmpZ, begin, cond);
    lemma_gen_statement(s, s2);
    let (breaks, s3) = gen_statement(s, s2)->Ok_0;
    lemma_finish_if(st, jump, s2, breaks, s3);
    lemma_patch_jump(s3, jump, s3.label());
    assert(s3.code[jump as int] == s2.code[jump as int]);
}

/// A machine at a conditional jump to the label `target` goes on at
/// `target` if the operand of the jump is 0, and with the next instruction
/// if not. Nothing else changes.
pub proof fn lemma_jump_if_zero(m: MachineView, code: Seq<AddressCode>, target: nat)
    requires
        m.pc < code.len(),
        code[m.pc as int].op == OpCode::JmpZ,
        code[m.pc as int].res == Address::label(target as int),
        target <= i32::MAX,
        m.read(code[m.pc as int].x) is Ok,
    ensures
        m.step(code) == Ok::<MachineView, ExecError>(
            MachineView {
                pc: if m.read(code[m.pc as int].x)->Ok_0 == 0 {
                    target
                } else {
                    m.pc + 1
                },
                ..m
            },
        ),
{
}

/// For `if (c) S`, a machine that stands at the jump behind the code of `c`
/// goes on behind the code of `S` if the value of `c` is 0, and so skips
/// all of `S`; if not, it goes on with the first instruction of `S`. The
/// jump changes neither a register nor the stack.
pub proof fn lemma_if_skips_branch(c: BoolExprView, s: StatementView, st: GenView, m: MachineView)
    requires
        gen_statement(StatementView::If(c, Box::new(s)), st) is Ok,
        m.pc == gen_bool(c, st)->Ok_0.1.code.len(),
        m.read(gen_bool(c, st)->Ok_0.0) is Ok,
    ensures
        ({
            let (_, after) = gen_statement(StatementView::If(c, Box::new(s)), st)->Ok_0;
            let (cond, s1) = gen_bool(c, st)->Ok_0;
            m.step(after.code) == Ok::<MachineView, ExecError>(
                MachineView {
                    pc: if m.read(cond)->Ok_0 == 0 {
                        after.code.len()
                    } else {
                        m.pc + 1
                    },
                    ..m
                },
            )
        }),
{
    lemma_if_code(c, s, st);
    let (_, after) = gen_statement(StatementView::If(c, Box::new(s)), st)->Ok_0;
    lemma_jump_if_zero(m, after.code, after.code.len());
}

/// A machine at a jump to the label `target` goes on at `target`. Nothing
/// else changes.
pub proof fn lemma_goto(m: MachineView, code: Seq<AddressCode>, target: nat)
    requires
        m.pc < code.len(),
        code[m.pc as int].op == OpCode::Goto,
        code[m.pc as int].res == Address::label(target as int),
        target <= i32::MAX,
    ensures
        m.step(code) == Ok::<MachineView, ExecError>(MachineView { pc: target, ..m }),
{
}

/// The code of `if (c) A else B` is the code of `c`, a conditional jump,
/// the code of `A`, a jump, and the code of `B`, with nothing behind it.
/// The conditional jump reads the value of `c` and goes to the start of the
/// code of `B`; the jump behind `A` goes behind the code of `B`.
pub proof fn lemma_if_else_code(
    c: BoolExprView,
    a: StatementView,
    b: StatementView,
    st: GenView,
)
    requires
        gen_statement(StatementView::IfElse(c, Box::new(a), Box::new(b)), st) is Ok,
    ensures
        ({
            let (_, after) = gen_statement(
                StatementView::IfElse(c, Box::new(a), Box::new(b)),
                st,
            )->Ok_0;
            let (cond, _) = gen_bool(c, st)->Ok_0;
            let (to_else, s1) = gen_condition(c, st.label(), st)->Ok_0;
            let (breaks, s2) = gen_statement(a, s1)->Ok_0;
            let (_, to_end, s3) = begin_else(st.label(), to_else, Ok((breaks, s2)))->Ok_0;
            let (_, s4) = gen_statement(b, s3)->Ok_0;
            &&& st.code.len() <= to_else == s1.code.len() - 1
            &&& s1.code.len() <= to_end == s2.code.len()
            &&& s3.code.len() == to_end + 1
            &&& to_end < after.code.len() == s4.code.len() <= i32::MAX
            &&& after.code[to_else as int].op == OpCode::JmpZ
            &&& after.code[to_else as int].x == cond
            &&& after.code[to_else as int].res == Address::label(to_end + 1)
            &&& after.code[to_end as int].op == OpCode::Goto
            &&& after.code[to_end as int].res == Address::label(after.code.len() as int)
        }),
{
    let begin = st.label();
    lemma_gen_condition(c, begin, st);
    let (to_else, s1) = gen_condition(c, begin, st)->Ok_0;
    lemma_gen_statement(a, s1);
    let (breaks, s2) = gen_statement(a, s1)->Ok_0;
    lemma_begin_else(st, begin, to_else, s1, breaks, s2);
    let (to_end, s2j) = s2.emit_jump(OpCode::Goto, begin, Address::null())->Ok_0;
    lemma_emit_jump(s2, OpCode::Goto, begin, Address::null());
    lemma_patch_jump(s2j, to_else, s2j.label());
    let s3 = s2j.patch_jump(to_else, s2j.label());
    assert(s2j.code[to_else as int] == s1.code[to_else as int]);
    lemma_gen_statement(b, s3);
    let (more, s4) = gen_statement(b, s3)->Ok_0;
    lemma_patch_jump(s4, to_end, s4.label());
    assert(s4.code[to_else as int] == s3.code[to_else as int]);
    assert(s4.code[to_end as int] == s3.code[to_end as int]);
}

/// Every jump of `st` goes to a label, and the label is the index of an
/// instruction of `st` or the index behind the last.
pub open spec fn jumps_in_range(st: GenView) -> bool {
    &&& st.code.len() <= i32::MAX
    &&& forall|i: int|
        0 <= i < st.code.len() && is_jump(#[trigger] st.code[i].op) ==> st.code[i].res.mode
            == AddressMode::Label && 0 <= st.code[i].res.place <= st.code.len()
}

/// Instructions that are no jumps leave the jumps in range.
pub proof fn lemma_computes_in_range(a: GenView, b: GenView)
    requires
        jumps_in_range(a),
        computes(a, b),
    ensures
        jumps_in_range(b),
{
    assert forall|i: int| 0 <= i < b.code.len() && is_jump(#[trigger] b.code[i].op) implies b.code[i].res.mode
        == AddressMode::Label && 0 <= b.code[i].res.place <= b.code.len() by {
        assert(b.code[i] == a.code[i]);
    }
}

/// A jump to a label in range leaves the jumps in range.
pub proof fn lemma_emit_jump_in_range(st: GenView, op: OpCode, lbl: Label, x: Address)
    requires
        jumps_in_range(st),
        0 <= lbl.place <= st.code.len(),
    ensures
        st.emit_jump(op, lbl, x) matches Ok((_, after)) ==> jumps_in_range(after),
{
    if let Ok((_, after)) = st.emit_jump(op, lbl, x) {
        assert forall|i: int|
            0 <= i < after.code.len() && is_jump(
                #[trigger] after.code[i].op,
            ) implies after.code[i].res.mode == AddressMode::Label && 0 <= after.code[i].res.place
            <= after.code.len() by {
            if i < st.code.len() {
                assert(after.code[i] == st.code[i]);
            }
        }
    }
}

/// A target in range leaves the jumps in range.
pub proof fn lemma_patch_in_range(st: GenView, addr: usize, lbl: Label)
    requires
        jumps_in_range(st),
        addr < st.code.len(),
        0 <= lbl.place <= st.code.len(),
    ensures
        jumps_in_range(st.patch_jump(addr, lbl)),
{
    lemma_patch_jump(st, addr, lbl);
    let after = st.patch_jump(addr, lbl);
    assert forall|i: int|
        0 <= i < after.code.len() && is_jump(
            #[trigger] after.code[i].op,
        ) implies after.code[i].res.mode == AddressMode::Label && 0 <= after.code[i].res.place
        <= after.code.len() by {
        if i != addr {
            assert(after.code[i] == st.code[i]);
        }
    }
}

/// A target in range for a list of jumps leaves the jumps in range.
pub proof fn lemma_patch_all_in_range(st: GenView, breaks: Seq<usize>, lbl: Label)
    requires
        jumps_in_range(st),
        forall|k: int| 0 <= k < breaks.len() ==> #[trigger] breaks[k] < st.code.len(),
        0 <= lbl.place <= st.code.len(),
    ensures
        jumps_in_range(patch_all(st, breaks, lbl)),
    decreases breaks.len(),
{
    if breaks.len() > 0 {
        lemma_patch_all_in_range(st, breaks.drop_last(), lbl);
        lemma_patch_all(st, breaks.drop_last(), lbl);
        lemma_patch_in_range(patch_all(st, breaks.drop_last(), lbl), breaks.last(), lbl);
    }
}

/// The code of a statement leaves the jumps in range: a jump that waits for
/// its target goes to its own statement for the time being.
pub proof fn lemma_statement_in_range(s: StatementView, st: GenView)
    requires
        jumps_in_range(st),
    ensures
        gen_statement(s, st) matches Ok((_, after)) ==> jumps_in_range(after),
    decreases s,
{
    let begin = st.label();
    lemma_gen_statement(s, st);
    match s {
        StatementView::Assign(l, e) => {
            lemma_gen_loc(l, st);
            if let Ok((place, s1)) = gen_loc(l, st) {
                lemma_gen_bool(e, s1);
                if let Ok((value, s2)) = gen_bool(e, s1) {
                    lemma_computes_trans(st, s1, s2);
                    if let Ok(s3) = s2.emit(OpCode::Mov, place, value, value) {
                        assert(computes(s2, s3));
                        lemma_computes_trans(st, s2, s3);
                        lemma_computes_in_range(st, s3);
                    }
                }
            }
        },
        StatementView::If(c, a) => {
            lemma_condition_in_range(c, st);
            if let Ok((jump, s1)) = gen_condition(c, begin, st) {
                lemma_gen_condition(c, begin, st);
                lemma_statement_in_range(*a, s1);
                lemma_gen_statement(*a, s1);
                if let Ok((breaks, s2)) = gen_statement(*a, s1) {
                    lemma_patch_in_range(s2, jump, s2.label());
                }
            }
        },
        StatementView::IfElse(c, a, b) => {
            lemma_condition_in_range(c, st);
            if let Ok((to_else, s1)) = gen_condition(c, begin, st) {
                lemma_gen_condition(c, begin, st);
                lemma_statement_in_range(*a, s1);
                lemma_gen_statement(*a, s1);
                if let Ok((breaks, s2)) = gen_statement(*a, s1) {
                    lemma_continues_trans(st, s1, s2);
                    lemma_emit_jump_in_range(s2, OpCode::Goto, begin, Address::null());
                    lemma_emit_jump(s2, OpCode::Goto, begin, Address::null());
                    if let Ok((to_end, s2j)) = s2.emit_jump(OpCode::Goto, begin, Address::null()) {
                        lemma_patch_in_range(s2j, to_else, s2j.label());
                        let s3 = s2j.patch_jump(to_else, s2j.label());
                        lemma_statement_in_range(*b, s3);
                        lemma_gen_statement(*b, s3);
                        if let Ok((more, s4)) = gen_statement(*b, s3) {
                            lemma_patch_in_range(s4, to_end, s4.label());
                        }
                    }
                }
            }
        },
        StatementView::While(c, a) => {
            lemma_condition_in_range(c, st);
            if let Ok((to_after, s1)) = gen_condition(c, begin, st) {
                lemma_gen_condition(c, begin, st);
                lemma_statement_in_range(*a, s1);
                lemma_gen_statement(*a, s1);
                if let Ok((breaks, s2)) = gen_statement(*a, s1) {
                    lemma_continues_trans(st, s1, s2);
                    lemma_emit_jump_in_range(s2, OpCode::Goto, begin, Address::null());
                    lemma_emit_jump(s2, OpCode::Goto, begin, Address::null());
                    if let Ok((back, s3)) = s2.emit_jump(OpCode::Goto, begin, Address::null()) {
                        lemma_patch_all_in_range(s3, breaks, s3.label());
                        lemma_patch_all(s3, breaks, s3.label());
                        lemma_patch_in_range(
                            patch_all(s3, breaks, s3.label()),
                            to_after,
                            s3.label(),
                        );
                    }
                }
            }
        },
        StatementView::Break => {
            lemma_emit_jump_in_range(st, OpCode::Goto, begin, Address::null());
        },
        StatementView::BlockStmt(b) => {
            lemma_block_in_range(b, st);
        },
    }
}

/// The code of a condition leaves the jumps in range.
proof fn lemma_condition_in_range(c: BoolExprView, st: GenView)
    requires
        jumps_in_range(st),
    ensures
        gen_condition(c, st.label(), st) matches Ok((_, after)) ==> jumps_in_range(after),
{
    lemma_gen_bool(c, st);
    if let Ok((cond, s1)) = gen_bool(c, st) {
        lemma_computes_in_range(st, s1);
        lemma_emit_jump_in_range(s1, OpCode::JmpZ, st.label(), cond);
    }
}

/// The code of a list of statements leaves the jumps in range.
pub proof fn lemma_statements_in_range(stmts: Seq<StatementView>, breaks: Seq<usize>, st: GenView)
    requires
        jumps_in_range(st),
    ensures
        gen_statements(stmts, breaks, st) matches Ok((_, after)) ==> jumps_in_range(after),
    decreases stmts,
{
    if stmts.len() > 0 {
        lemma_statement_in_range(stmts[0], st);
        if let Ok((more, s1)) = gen_statement(stmts[0], st) {
            lemma_statements_in_range(stmts.drop_first(), breaks + more, s1);
        }
    }
}

/// The code of a block leaves the jumps in range.
pub proof fn lemma_block_in_range(b: BlockView, st: GenView)
    requires
        jumps_in_range(st),
    ensures
        gen_block(b, st) matches Ok((_, after)) ==> jumps_in_range(after),
    decreases b,
{
    lemma_open_block(b.decls, st);
    if let Ok(s1) = open_block(b.decls, st) {
        lemma_computes_in_range(GenView { frames: s1.frames, ..st }, s1);
        lemma_statements_in_range(b.stmts, Seq::empty(), s1);
        if let Ok((breaks, s2)) = gen_statements(b.stmts, Seq::empty(), s1) {
            if let Ok(s3) = s2.pop_frame() {
                lemma_computes_in_range(GenView { frames: s3.frames, ..s2 }, s3);
            }
        }
    }
}

/// In the code of a whole program every jump goes to an instruction of the
/// program or behind its last instruction, and no jump is left without its
/// target: a machine that runs the code never finds a jump that it cannot
/// take.
pub proof fn lemma_program_jumps(p: ProgramView, st: GenView, m: MachineView)
    requires
        jumps_in_range(st),
        gen_program(p, st) is Ok,
    ensures
        jumps_in_range(gen_program(p, st)->Ok_0),
        m.step(gen_program(p, st)->Ok_0.code) != Err::<MachineView, ExecError>(ExecError::BadJump),
{
    lemma_block_in_range(p.block, st);
}

} // verus!
