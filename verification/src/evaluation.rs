//! What the code of a comparison computes when the machine runs it.

use vstd::prelude::*;
use crate::code_generator::{Address, AddressCode, AddressMode, GenView, OpCode};
use crate::emission::{gen_op, gen_op_then, gen_relation, Relation};
use crate::interpreter::{compute, ExecError, is_binary, load, MachineView, store, truth};

verus! {

/// Whether the comparison `rel` holds of `a` and `b`.
pub open spec fn holds(rel: Relation, a: int, b: int) -> bool {
    match rel {
        Relation::Equal => a == b,
        Relation::NotEqual => a != b,
        Relation::GreaterOrEqual => a >= b,
        Relation::Greater => a > b,
        Relation::LessOrEqual => a <= b,
        Relation::Less => a < b,
    }
}

/// Whether what stands at the address `a` is the same whatever the
/// registers above `limit` hold: a constant, a place in the stack, or a
/// register up to `limit` or what it points to.
pub open spec fn stable(a: Address, limit: int) -> bool {
    match a.mode {
        AddressMode::Constant | AddressMode::FramePointer => true,
        AddressMode::Register | AddressMode::Pointer => 0 <= a.place <= limit,
        AddressMode::Label => false,
    }
}

/// What was stored at an index is loaded from it, and every other index
/// holds what it held.
pub proof fn lemma_load_store(mem: Seq<i32>, i: nat, v: i32, j: nat)
    ensures
        load(store(mem, i, v), j) == if i == j {
            v
        } else {
            load(mem, j)
        },
{
}

/// The second operand that an operation on `x` and `y` uses: `y` if it has
/// two operands, else `x` again.
pub open spec fn second(op: OpCode, x: i32, y: Result<i32, ExecError>) -> Result<i32, ExecError> {
    if is_binary(op) {
        y
    } else {
        Ok(x)
    }
}

/// A machine that stands at an operation into a register above `limit`
/// puts the result there and goes on with the next instruction. The stack
/// stays as it is, and so does all that is stable up to `limit`.
pub proof fn lemma_operation_step(m: MachineView, code: Seq<AddressCode>, limit: int, v: i32)
    requires
        m.pc < code.len(),
        code[m.pc as int].op != OpCode::Goto,
        code[m.pc as int].op != OpCode::JmpZ,
        code[m.pc as int].res.mode == AddressMode::Register,
        0 <= limit < code[m.pc as int].res.place,
        m.read(code[m.pc as int].x) is Ok,
        second(
            code[m.pc as int].op,
            m.read(code[m.pc as int].x)->Ok_0,
            m.read(code[m.pc as int].y),
        ) is Ok,
        compute(
            code[m.pc as int].op,
            m.read(code[m.pc as int].x)->Ok_0,
            second(
                code[m.pc as int].op,
                m.read(code[m.pc as int].x)->Ok_0,
                m.read(code[m.pc as int].y),
            )->Ok_0,
        ) == Ok::<i32, ExecError>(v),
    ensures
        m.step(code) is Ok,
        m.step(code)->Ok_0.pc == m.pc + 1,
        m.step(code)->Ok_0.stack == m.stack,
        m.step(code)->Ok_0.read(code[m.pc as int].res) == Ok::<i32, ExecError>(v),
        forall|a: Address|
            stable(a, limit) ==> #[trigger] m.step(code)->Ok_0.read(a) == m.read(a),
{
    let instr = code[m.pc as int];
    let t = instr.res.place as nat;
    let after = m.step(code)->Ok_0;
    assert(after.regs == store(m.regs, t, v));
    assert forall|a: Address| stable(a, limit) implies #[trigger] after.read(a) == m.read(a) by {
        if a.mode == AddressMode::Register || a.mode == AddressMode::Pointer {
            lemma_load_store(m.regs, t, v, a.place as nat);
        }
    }
    lemma_load_store(m.regs, t, v, t);
}

/// The machine runs the instruction of an operation into a fresh register
/// as [`lemma_operation_step`] says.
pub proof fn lemma_gen_op_step(
    st: GenView,
    op: OpCode,
    x: Address,
    y: Address,
    code: Seq<AddressCode>,
    m: MachineView,
    v: i32,
)
    requires
        gen_op(st, op, x, y) is Ok,
        st.temp_num >= 0,
        op != OpCode::Goto,
        op != OpCode::JmpZ,
        st.code.len() < code.len(),
        code[st.code.len() as int] == gen_op(st, op, x, y)->Ok_0.1.code.last(),
        m.pc == st.code.len(),
        m.read(x) is Ok,
        second(op, m.read(x)->Ok_0, m.read(y)) is Ok,
        compute(op, m.read(x)->Ok_0, second(op, m.read(x)->Ok_0, m.read(y))->Ok_0) == Ok::<
            i32,
            ExecError,
        >(v),
    ensures
        m.step(code) is Ok,
        m.step(code)->Ok_0.pc == m.pc + 1,
        m.step(code)->Ok_0.stack == m.stack,
        m.step(code)->Ok_0.read(gen_op(st, op, x, y)->Ok_0.0) == Ok::<i32, ExecError>(v),
        forall|a: Address|
            stable(a, st.temp_num) ==> #[trigger] m.step(code)->Ok_0.read(a) == m.read(a),
        stable(gen_op(st, op, x, y)->Ok_0.0, gen_op(st, op, x, y)->Ok_0.1.temp_num),
        gen_op(st, op, x, y)->Ok_0.1.temp_num == st.temp_num + 1,
        gen_op(st, op, x, y)->Ok_0.1.code == st.code.push(code[st.code.len() as int]),
{
    lemma_operation_step(m, code, st.temp_num, v);
}

/// What a machine finds after it has run the code of a comparison: it
/// stands at `pc`, the register `result` holds `value`, and the stack and
/// all that is stable up to `limit` are as they were in `before`.
pub open spec fn compared(
    before: MachineView,
    after: MachineView,
    pc: nat,
    result: Address,
    value: i32,
    limit: int,
) -> bool {
    &&& after.pc == pc
    &&& after.stack == before.stack
    &&& after.read(result) == Ok::<i32, ExecError>(value)
    &&& forall|a: Address| stable(a, limit) ==> #[trigger] after.read(a) == before.read(a)
}

/// The machine runs the two instructions of a sign test and its negation
/// one after the other.
proof fn lemma_gen_op_then_steps(
    st: GenView,
    op: OpCode,
    x: Address,
    code: Seq<AddressCode>,
    m: MachineView,
)
    requires
        gen_op_then(st, op, OpCode::Not, x) is Ok,
        op == OpCode::IsPos || op == OpCode::IsNeg,
        st.temp_num >= 0,
        st.code.len() + 1 < code.len(),
        code[st.code.len() as int] == gen_op(st, op, x, x)->Ok_0.1.code.last(),
        code[st.code.len() as int + 1] == gen_op_then(st, op, OpCode::Not, x)->Ok_0.1.code.last(),
        m.pc == st.code.len(),
        stable(x, st.temp_num),
        m.read(x) is Ok,
    ensures
        m.step(code) is Ok,
        m.step(code)->Ok_0.step(code) is Ok,
        compared(
            m,
            m.step(code)->Ok_0.step(code)->Ok_0,
            m.pc + 2,
            gen_op_then(st, op, OpCode::Not, x)->Ok_0.0,
            truth(compute(op, m.read(x)->Ok_0, 0)->Ok_0 != 1),
            st.temp_num,
        ),
        stable(
            gen_op_then(st, op, OpCode::Not, x)->Ok_0.0,
            gen_op_then(st, op, OpCode::Not, x)->Ok_0.1.temp_num,
        ),
        gen_op_then(st, op, OpCode::Not, x)->Ok_0.1.temp_num == st.temp_num + 2,
        gen_op_then(st, op, OpCode::Not, x)->Ok_0.1.code == st.code.push(
            code[st.code.len() as int],
        ).push(code[st.code.len() as int + 1]),
{
    let vx = m.read(x)->Ok_0;
    let v1 = compute(op, vx, vx)->Ok_0;
    lemma_gen_op_step(st, op, x, x, code, m, v1);
    let (t, s1) = gen_op(st, op, x, x)->Ok_0;
    let m1 = m.step(code)->Ok_0;
    let v2 = truth(v1 != 1);
    lemma_gen_op_step(s1, OpCode::Not, t, t, code, m1, v2);
    let m2 = m1.step(code)->Ok_0;
    assert forall|a: Address| stable(a, st.temp_num) implies #[trigger] m2.read(a) == m.read(
        a,
    ) by {
        assert(stable(a, s1.temp_num));
        assert(m2.read(a) == m1.read(a));
    }
}

/// The code of a comparison computes the comparison. A machine that stands
/// at the start of the code, and in which the difference of the operands
/// fits in 32 bits, runs through the code to its end. Then the register of
/// the result holds 1 if the comparison holds of the operands and 0 if it
/// does not; the stack is as it was, and so is every register that was
/// allocated before.
pub proof fn lemma_relation_value(
    st: GenView,
    rel: Relation,
    x: Address,
    y: Address,
    m: MachineView,
)
    requires
        gen_relation(st, rel, x, y) is Ok,
        st.temp_num >= 0,
        m.pc == st.code.len(),
        stable(x, st.temp_num),
        stable(y, st.temp_num),
        m.read(x) is Ok,
        m.read(y) is Ok,
        i32::MIN <= m.read(x)->Ok_0 - m.read(y)->Ok_0 <= i32::MAX,
    ensures
        ({
            let (t, after) = gen_relation(st, rel, x, y)->Ok_0;
            let steps = (after.code.len() - st.code.len()) as nat;
            &&& m.run(after.code, steps).1 is Ok
            &&& compared(
                m,
                m.run(after.code, steps).0,
                after.code.len(),
                t,
                truth(holds(rel, m.read(x)->Ok_0 as int, m.read(y)->Ok_0 as int)),
                st.temp_num,
            )
        }),
{
    let (t, after) = gen_relation(st, rel, x, y)->Ok_0;
    let code = after.code;
    let a = m.read(x)->Ok_0;
    let b = m.read(y)->Ok_0;
    let diff = (a - b) as i32;
    let (d, s1) = gen_op(st, OpCode::Sub, x, y)->Ok_0;
    assert(code[st.code.len() as int] == s1.code.last());
    lemma_gen_op_step(st, OpCode::Sub, x, y, code, m, diff);
    let m1 = m.step(code)->Ok_0;
    reveal_with_fuel(MachineView::run, 8);
    match rel {
        Relation::Greater | Relation::Less => {
            let op = if rel == Relation::Greater {
                OpCode::IsPos
            } else {
                OpCode::IsNeg
            };
            lemma_gen_op_step(s1, op, d, d, code, m1, compute(op, diff, diff)->Ok_0);
            let m2 = m1.step(code)->Ok_0;
            assert forall|a: Address| stable(a, st.temp_num) implies #[trigger] m2.read(a)
                == m.read(a) by {
                assert(stable(a, s1.temp_num));
                assert(m2.read(a) == m1.read(a));
            }
            assert(m.run(code, 2) == (m2, Ok::<(), ExecError>(())));
        },
        Relation::GreaterOrEqual | Relation::LessOrEqual => {
            let op = if rel == Relation::GreaterOrEqual {
                OpCode::IsNeg
            } else {
                OpCode::IsPos
            };
            lemma_gen_op_then_steps(s1, op, d, code, m1);
            let m3 = m1.step(code)->Ok_0.step(code)->Ok_0;
            assert forall|a: Address| stable(a, st.temp_num) implies #[trigger] m3.read(a)
                == m.read(a) by {
                assert(stable(a, s1.temp_num));
                assert(m3.read(a) == m1.read(a));
            }
            assert(m.run(code, 3) == (m3, Ok::<(), ExecError>(())));
        },
        Relation::Equal => {
            lemma_gen_op_then_steps(s1, OpCode::IsPos, d, code, m1);
            let (p, s3) = gen_op_then(s1, OpCode::IsPos, OpCode::Not, d)->Ok_0;
            let m3 = m1.step(code)->Ok_0.step(code)->Ok_0;
            assert(stable(d, s3.temp_num));
            assert(m3.read(d) == m1.read(d));
            lemma_gen_op_then_steps(s3, OpCode::IsNeg, d, code, m3);
            let (n, s5) = gen_op_then(s3, OpCode::IsNeg, OpCode::Not, d)->Ok_0;
            let m5 = m3.step(code)->Ok_0.step(code)->Ok_0;
            assert(stable(p, s5.temp_num));
            assert(m5.read(p) == m3.read(p));
            let vp = truth(!(diff > 0));
            let vn = truth(!(diff < 0));
            lemma_gen_op_step(s5, OpCode::And, p, n, code, m5, truth(vp == 1 && vn == 1));
            let m6 = m5.step(code)->Ok_0;
            assert forall|a: Address| stable(a, st.temp_num) implies #[trigger] m6.read(a)
                == m.read(a) by {
                assert(stable(a, s1.temp_num));
                assert(stable(a, s3.temp_num));
                assert(stable(a, s5.temp_num));
                assert(m3.read(a) == m1.read(a));
                assert(m5.read(a) == m3.read(a));
                assert(m6.read(a) == m5.read(a));
            }
            assert(m.run(code, 6) == (m6, Ok::<(), ExecError>(())));
        },
        Relation::NotEqual => {
            lemma_gen_op_step(s1, OpCode::IsPos, d, d, code, m1, truth(diff > 0));
            let (p, s2) = gen_op(s1, OpCode::IsPos, d, d)->Ok_0;
            let m2 = m1.step(code)->Ok_0;
            assert(stable(d, s2.temp_num));
            assert(m2.read(d) == m1.read(d));
            lemma_gen_op_step(s2, OpCode::IsNeg, d, d, code, m2, truth(diff < 0));
            let (n, s3) = gen_op(s2, OpCode::IsNeg, d, d)->Ok_0;
            let m3 = m2.step(code)->Ok_0;
            assert(stable(p, s3.temp_num));
            assert(m3.read(p) == m2.read(p));
            let vp = truth(diff > 0);
            let vn = truth(diff < 0);
            lemma_gen_op_step(s3, OpCode::Or, p, n, code, m3, truth(vp == 1 || vn == 1));
            let m4 = m3.step(code)->Ok_0;
            assert forall|a: Address| stable(a, st.temp_num) implies #[trigger] m4.read(a)
                == m.read(a) by {
                assert(stable(a, s1.temp_num));
                assert(stable(a, s2.temp_num));
                assert(stable(a, s3.temp_num));
                assert(m2.read(a) == m1.read(a));
                assert(m3.read(a) == m2.read(a));
                assert(m4.read(a) == m3.read(a));
            }
            assert(m.run(code, 4) == (m4, Ok::<(), ExecError>(())));
        },
    }
}

} // verus!
