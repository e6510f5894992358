//! A machine that runs three-address code: a register file, a stack of
//! four-byte cells, and a program counter.

use vstd::prelude::*;
use crate::code_generator::{Address, AddressCode, AddressMode, IntermediateRepresentation, OpCode};

verus! {

/// Why the machine stopped before the end of its code.
#[derive(PartialEq, Eq, Debug, Clone, Copy, Structural)]
pub enum ExecError {
    /// A result does not fit in 32 bits.
    Overflow,
    /// A division by zero.
    DivisionByZero,
    /// A register with a negative number, or a place in the stack whose
    /// offset is negative or no multiple of four.
    BadAddress,
    /// A label that is read, or a constant or a label that is written.
    BadOperand,
    /// A jump to an address that is no label, or to a negative index.
    BadJump,
}

/// The mathematical value of the machine's state. Registers and cells that
/// the sequences do not reach hold 0.
pub struct MachineView {
    /// The index of the instruction that runs next.
    pub pc: nat,
    pub regs: Seq<i32>,
    pub stack: Seq<i32>,
}

/// The value at index `i` of a memory: 0 where the memory does not reach.
pub open spec fn load(mem: Seq<i32>, i: nat) -> i32 {
    if i < mem.len() {
        mem[i as int]
    } else {
        0
    }
}

/// The memory with `v` at index `i`; it grows by zeros as far as needed.
pub open spec fn store(mem: Seq<i32>, i: nat, v: i32) -> Seq<i32> {
    if i < mem.len() {
        mem.update(i as int, v)
    } else {
        Seq::new(
            i + 1,
            |k: int|
                if k < mem.len() {
                    mem[k]
                } else if k == i {
                    v
                } else {
                    0
                },
        )
    }
}

/// The cell of the stack at the offset of `offset` bytes, if there is one.
pub open spec fn cell(offset: int) -> Option<nat> {
    if offset >= 0 && offset % 4 == 0 {
        Some((offset / 4) as nat)
    } else {
        None
    }
}

/// The quotient of `x` by `d`, rounded towards zero.
pub open spec fn quotient(x: int, d: int) -> int
    recommends
        d != 0,
{
    if x == 0 {
        0
    } else if x > 0 && d > 0 {
        x / d
    } else if x < 0 && d < 0 {
        (x * -1) / (d * -1)
    } else if x < 0 {
        ((x * -1) / d) * -1
    } else {
        (x / (d * -1)) * -1
    }
}

/// A number, if it fits in 32 bits.
pub open spec fn fit(v: int) -> Result<i32, ExecError> {
    if i32::MIN <= v <= i32::MAX {
        Ok(v as i32)
    } else {
        Err(ExecError::Overflow)
    }
}

/// 1 for true and 0 for false.
pub open spec fn truth(b: bool) -> i32 {
    if b {
        1
    } else {
        0
    }
}

/// Whether `op` reads its second operand.
pub open spec fn is_binary(op: OpCode) -> bool {
    op == OpCode::And || op == OpCode::Or || op == OpCode::Add || op == OpCode::Sub || op
        == OpCode::Mul || op == OpCode::Div
}

/// The result of the operation `op` on the values `x` and `y`. The logical
/// operations take 1 for true and every other value for false.
pub open spec fn compute(op: OpCode, x: i32, y: i32) -> Result<i32, ExecError> {
    match op {
        OpCode::Mov => Ok(x),
        OpCode::And => Ok(truth(x == 1 && y == 1)),
        OpCode::Or => Ok(truth(x == 1 || y == 1)),
        OpCode::Not => Ok(truth(x != 1)),
        OpCode::IsPos => Ok(truth(x > 0)),
        OpCode::IsNeg => Ok(truth(x < 0)),
        OpCode::Add => fit(x + y),
        OpCode::Sub => fit(x - y),
        OpCode::Mul => fit(x * y),
        OpCode::Div => if y == 0 {
            Err(ExecError::DivisionByZero)
        } else {
            fit(quotient(x as int, y as int))
        },
        OpCode::Minus => fit(-x),
        OpCode::Goto => Ok(x),
        OpCode::JmpZ => Ok(x),
    }
}

impl MachineView {
    /// The value at the address `a`.
    pub open spec fn read(self, a: Address) -> Result<i32, ExecError> {
        match a.mode {
            AddressMode::Constant => Ok(a.place),
            AddressMode::Register => if a.place >= 0 {
                Ok(load(self.regs, a.place as nat))
            } else {
                Err(ExecError::BadAddress)
            },
            AddressMode::FramePointer => match cell(a.place as int) {
                Some(c) => Ok(load(self.stack, c)),
                None => Err(ExecError::BadAddress),
            },
            AddressMode::Pointer => if a.place >= 0 {
                match cell(load(self.regs, a.place as nat) as int) {
                    Some(c) => Ok(load(self.stack, c)),
                    None => Err(ExecError::BadAddress),
                }
            } else {
                Err(ExecError::BadAddress)
            },
            AddressMode::Label => Err(ExecError::BadOperand),
        }
    }

    /// The state with the value `v` at the address `a`.
    pub open spec fn write(self, a: Address, v: i32) -> Result<MachineView, ExecError> {
        match a.mode {
            AddressMode::Register => if a.place >= 0 {
                Ok(MachineView { regs: store(self.regs, a.place as nat, v), ..self })
            } else {
                Err(ExecError::BadAddress)
            },
            AddressMode::FramePointer => match cell(a.place as int) {
                Some(c) => Ok(MachineView { stack: store(self.stack, c, v), ..self }),
                None => Err(ExecError::BadAddress),
            },
            AddressMode::Pointer => if a.place >= 0 {
                match cell(load(self.regs, a.place as nat) as int) {
                    Some(c) => Ok(MachineView { stack: store(self.stack, c, v), ..self }),
                    None => Err(ExecError::BadAddress),
                }
            } else {
                Err(ExecError::BadAddress)
            },
            _ => Err(ExecError::BadOperand),
        }
    }

    /// The state after a jump to `target`.
    pub open spec fn jump(self, target: Address) -> Result<MachineView, ExecError> {
        if target.mode == AddressMode::Label && target.place >= 0 {
            Ok(MachineView { pc: target.place as nat, ..self })
        } else {
            Err(ExecError::BadJump)
        }
    }

    /// The state after the instruction `instr`. `Goto` jumps to its result;
    /// `JmpZ` jumps to its result if its first operand is 0 and goes on with
    /// the next instruction if not. Every other instruction reads its
    /// operands, the second only if the operation has two, writes what it
    /// computes to its result and goes on with the next instruction.
    pub open spec fn execute(self, instr: AddressCode) -> Result<MachineView, ExecError> {
        let next = MachineView { pc: self.pc + 1, ..self };
        match instr.op {
            OpCode::Goto => self.jump(instr.res),
            OpCode::JmpZ => match self.read(instr.x) {
                Err(e) => Err(e),
                Ok(x) => if x == 0 {
                    self.jump(instr.res)
                } else {
                    Ok(next)
                },
            },
            op => match self.read(instr.x) {
                Err(e) => Err(e),
                Ok(x) => match (if is_binary(op) {
                    self.read(instr.y)
                } else {
                    Ok(x)
                }) {
                    Err(e) => Err(e),
                    Ok(y) => match compute(op, x, y) {
                        Err(e) => Err(e),
                        Ok(v) => next.write(instr.res, v),
                    },
                },
            },
        }
    }

    /// Whether the machine has run off the end of `code`.
    pub open spec fn halted(self, code: Seq<AddressCode>) -> bool {
        self.pc >= code.len()
    }

    /// The state after one step: a machine that has halted stays as it is.
    pub open spec fn step(self, code: Seq<AddressCode>) -> Result<MachineView, ExecError> {
        if self.halted(code) {
            Ok(self)
        } else {
            self.execute(code[self.pc as int])
        }
    }

    /// The state in which the machine stops after at most `steps` steps,
    /// and why it stops. It stops without an error when it has halted or
    /// when the steps are used up; it stops with an error in front of the
    /// first instruction that fails.
    pub open spec fn run(self, code: Seq<AddressCode>, steps: nat) -> (
        MachineView,
        Result<(), ExecError>,
    )
        decreases steps,
    {
        if steps == 0 || self.halted(code) {
            (self, Ok(()))
        } else {
            match self.step(code) {
                Err(e) => (self, Err(e)),
                Ok(next) => next.run(code, (steps - 1) as nat),
            }
        }
    }
}

/// A machine with its code.
pub struct Interpreter {
    code: Vec<AddressCode>,
    stack: Vec<i32>,
    regs: Vec<i32>,
    pc: usize,
}

impl View for Interpreter {
    type V = MachineView;

    closed spec fn view(&self) -> MachineView {
        MachineView { pc: self.pc as nat, regs: self.regs@, stack: self.stack@ }
    }
}

/// The value at index `i` of `mem`.
fn load_cell(mem: &Vec<i32>, i: usize) -> (v: i32)
    ensures
        v == load(mem@, i as nat),
{
    if i < mem.len() {
        mem[i]
    } else {
        0
    }
}

/// Puts `v` at index `i` of `mem`.
fn store_cell(mem: &mut Vec<i32>, i: usize, v: i32)
    requires
        i < usize::MAX,
    ensures
        final(mem)@ == store(old(mem)@, i as nat, v),
{
    if i < mem.len() {
        mem.set(i, v);
    } else {
        while mem.len() < i
            invariant
                old(mem).len() <= mem.len() <= i,
                forall|k: int| 0 <= k < old(mem).len() ==> mem[k] == old(mem)[k],
                forall|k: int| old(mem).len() <= k < mem.len() ==> mem[k] == 0,
            decreases i - mem.len(),
        {
            mem.push(0);
        }
        mem.push(v);
        assert(mem@ =~= store(old(mem)@, i as nat, v));
    }
}

/// The index of the cell at the offset of `offset` bytes.
fn cell_index(offset: i32) -> (r: Result<usize, ExecError>)
    ensures
        match cell(offset as int) {
            Some(c) => r == Ok::<usize, ExecError>(c as usize) && c < i32::MAX,
            None => r == Err::<usize, ExecError>(ExecError::BadAddress),
        },
{
    if offset < 0 {
        return Err(ExecError::BadAddress);
    }
    let o = offset as u32;
    if o % 4 != 0 {
        return Err(ExecError::BadAddress);
    }
    Ok((o / 4) as usize)
}

/// The number `v`, if it fits in 32 bits.
fn fit_value(v: Option<i32>) -> (r: Result<i32, ExecError>)
    ensures
        r == match v {
            Some(x) => Ok::<i32, ExecError>(x),
            None => Err::<i32, ExecError>(ExecError::Overflow),
        },
{
    match v {
        Some(x) => Ok(x),
        None => Err(ExecError::Overflow),
    }
}

/// The result of the operation `op` on the values `x` and `y`.
pub fn compute_value(op: OpCode, x: i32, y: i32) -> (r: Result<i32, ExecError>)
    ensures
        r == compute(op, x, y),
{
    match op {
        OpCode::Mov => Ok(x),
        OpCode::And => Ok(Interpreter::and(x, y)),
        OpCode::Or => Ok(Interpreter::or(x, y)),
        OpCode::Not => Ok(Interpreter::not(x)),
        OpCode::IsPos => Ok(if x > 0 { 1 } else { 0 }),
        OpCode::IsNeg => Ok(if x < 0 { 1 } else { 0 }),
        OpCode::Add => fit_value(x.checked_add(y)),
        OpCode::Sub => fit_value(x.checked_sub(y)),
        OpCode::Mul => fit_value(x.checked_mul(y)),
        OpCode::Div => {
            if y == 0 {
                Err(ExecError::DivisionByZero)
            } else {
                fit_value(x.checked_div(y))
            }
        },
        OpCode::Minus => {
            let zero: i32 = 0;
            fit_value(zero.checked_sub(x))
        },
        OpCode::Goto => Ok(x),
        OpCode::JmpZ => Ok(x),
    }
}

impl Interpreter {
    /// The instructions that the machine runs.
    pub closed spec fn code(&self) -> Seq<AddressCode> {
        self.code@
    }

    /// The conjunction of `x` and `y`, where 1 is true and every other
    /// value is false.
    pub fn and(x: i32, y: i32) -> (r: i32)
        ensures
            r == truth(x == 1 && y == 1),
    {
        if x == 1 && y == 1 {
            1
        } else {
            0
        }
    }

    /// The disjunction of `x` and `y`, where 1 is true and every other
    /// value is false.
    pub fn or(x: i32, y: i32) -> (r: i32)
        ensures
            r == truth(x == 1 || y == 1),
    {
        if x == 1 || y == 1 {
            1
        } else {
            0
        }
    }

    /// The negation of `x`, where 1 is true and every other value is false.
    pub fn not(x: i32) -> (r: i32)
        ensures
            r == truth(x != 1),
    {
        if x == 1 {
            0
        } else {
            1
        }
    }

    /// A machine at the start of `code`, with every register and every cell
    /// of the stack at 0.
    pub fn new(code: IntermediateRepresentation) -> (machine: Interpreter)
        ensures
            machine.code() == code@,
            machine@ == (MachineView { pc: 0, regs: Seq::empty(), stack: Seq::empty() }),
    {
        Interpreter { code: code.instructions, stack: Vec::new(), regs: Vec::new(), pc: 0 }
    }

    /// The index of the instruction that runs next.
    pub fn pc(&self) -> (pc: usize)
        ensures
            pc == self@.pc,
    {
        self.pc
    }

    /// Whether the machine has run off the end of its code.
    pub fn halted(&self) -> (b: bool)
        ensures
            b == self@.halted(self.code()),
    {
        self.pc >= self.code.len()
    }

    /// The value at the address `a`.
    pub fn read(&self, a: Address) -> (r: Result<i32, ExecError>)
        ensures
            r == self@.read(a),
    {
        match a.mode {
            AddressMode::Constant => Ok(a.place),
            AddressMode::Register => {
                if a.place >= 0 {
                    Ok(load_cell(&self.regs, a.place as usize))
                } else {
                    Err(ExecError::BadAddress)
                }
            },
            AddressMode::FramePointer => {
                let c = cell_index(a.place)?;
                Ok(load_cell(&self.stack, c))
            },
            AddressMode::Pointer => {
                if a.place >= 0 {
                    let c = cell_index(load_cell(&self.regs, a.place as usize))?;
                    Ok(load_cell(&self.stack, c))
                } else {
                    Err(ExecError::BadAddress)
                }
            },
            AddressMode::Label => Err(ExecError::BadOperand),
        }
    }

    /// Puts the value `v` at the address `a`.
    fn write(&mut self, a: Address, v: i32) -> (r: Result<(), ExecError>)
        ensures
            final(self).code() == old(self).code(),
            match old(self)@.write(a, v) {
                Ok(after) => r is Ok && final(self)@ == after,
                Err(e) => r == Err::<(), ExecError>(e) && final(self)@ == old(self)@,
            },
    {
        match a.mode {
            AddressMode::Register => {
                if a.place >= 0 {
                    store_cell(&mut self.regs, a.place as usize, v);
                    Ok(())
                } else {
                    Err(ExecError::BadAddress)
                }
            },
            AddressMode::FramePointer => {
                let c = cell_index(a.place)?;
                store_cell(&mut self.stack, c, v);
                Ok(())
            },
            AddressMode::Pointer => {
                if a.place >= 0 {
                    let c = cell_index(load_cell(&self.regs, a.place as usize))?;
                    store_cell(&mut self.stack, c, v);
                    Ok(())
                } else {
                    Err(ExecError::BadAddress)
                }
            },
            _ => Err(ExecError::BadOperand),
        }
    }

    /// Jumps to `target`.
    fn jump(&mut self, target: Address) -> (r: Result<(), ExecError>)
        ensures
            final(self).code() == old(self).code(),
            match old(self)@.jump(target) {
                Ok(after) => r is Ok && final(self)@ == after,
                Err(e) => r == Err::<(), ExecError>(e) && final(self)@ == old(self)@,
            },
    {
        if target.mode == AddressMode::Label && target.place >= 0 {
            self.pc = target.place as usize;
            Ok(())
        } else {
            Err(ExecError::BadJump)
        }
    }

    /// Runs one instruction. A machine that has halted stays as it is, and
    /// so does one whose instruction fails.
    pub fn step(&mut self) -> (r: Result<(), ExecError>)
        ensures
            final(self).code() == old(self).code(),
            match old(self)@.step(old(self).code()) {
                Ok(after) => r is Ok && final(self)@ == after,
                Err(e) => r == Err::<(), ExecError>(e) && final(self)@ == old(self)@,
            },
    {
        if self.pc >= self.code.len() {
            return Ok(());
        }
        let instr = self.code[self.pc];
        match instr.op {
            OpCode::Goto => self.jump(instr.res),
            OpCode::JmpZ => {
                let x = self.read(instr.x)?;
                if x == 0 {
                    self.jump(instr.res)
                } else {
                    self.pc = self.pc + 1;
                    Ok(())
                }
            },
            op => {
                let x = self.read(instr.x)?;
                let binary = op == OpCode::And || op == OpCode::Or || op == OpCode::Add || op
                    == OpCode::Sub || op == OpCode::Mul || op == OpCode::Div;
                let y = if binary {
                    self.read(instr.y)?
                } else {
                    x
                };
                let v = compute_value(op, x, y)?;
                self.write(instr.res, v)?;
                self.pc = self.pc + 1;
                Ok(())
            },
        }
    }

    /// Runs the machine until it has halted, until an instruction fails, or
    /// until `max_steps` instructions have run. Returns whether the machine
    /// has halted. After an error the machine stands in front of the
    /// instruction that failed.
    pub fn execute(&mut self, max_steps: u64) -> (r: Result<bool, ExecError>)
        ensures
            final(self).code() == old(self).code(),
            final(self)@ == old(self)@.run(old(self).code(), max_steps as nat).0,
            match old(self)@.run(old(self).code(), max_steps as nat).1 {
                Ok(()) => r == Ok::<bool, ExecError>(final(self)@.halted(old(self).code())),
                Err(e) => r == Err::<bool, ExecError>(e),
            },
    {
        let mut left = max_steps;
        while left > 0 && !self.halted()
            invariant
                self.code() == old(self).code(),
                self@.run(self.code(), left as nat) == old(self)@.run(
                    old(self).code(),
                    max_steps as nat,
                ),
            decreases left,
        {
            self.step()?;
            left = left - 1;
        }
        Ok(self.halted())
    }
}

} // verus!
