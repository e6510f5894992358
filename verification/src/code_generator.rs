//! Three-address code and the generator's state: the instructions emitted so
//! far, the counter of temporaries and the symbol table.

use vstd::prelude::*;
use crate::ast::statement::Type;
use crate::emission::gen_program;
use crate::grammar::parse_program;
use crate::parser::{ParseError, Parser};
use crate::symbol_table::{declare, FrameView, IdeInfo, resolve, SymbolTable};

verus! {

/// The operations of the intermediate code.
#[derive(PartialEq, Eq, Debug, Clone, Copy, Structural)]
pub enum OpCode {
    Mov,
    And,
    Or,
    Not,
    IsPos,
    IsNeg,
    Add,
    Sub,
    Mul,
    Div,
    Minus,
    Goto,
    JmpZ,
}

/// How the place of an [`Address`] is read.
#[derive(PartialEq, Eq, Debug, Clone, Copy, Structural)]
pub enum AddressMode {
    /// The place is the number of a register that holds the value.
    Register,
    /// The place is the offset in bytes of the value in the stack.
    FramePointer,
    /// The place is the value.
    Constant,
    /// The place is the index of an instruction.
    Label,
    /// The place is the number of a register that holds the offset in bytes
    /// of the value in the stack.
    Pointer,
}

/// Where a value lives, or where a jump goes.
#[derive(PartialEq, Eq, Debug, Clone, Copy, Structural)]
pub struct Address {
    pub mode: AddressMode,
    pub place: i32,
}

/// The index of an instruction that may not have been emitted yet.
#[derive(PartialEq, Eq, Debug, Clone, Copy, Structural)]
pub struct Label {
    pub place: i32,
}

/// One instruction: `res = op(x, y)`, or a jump to `res`.
#[derive(PartialEq, Eq, Debug, Clone, Copy, Structural)]
pub struct AddressCode {
    /// The number of the instruction in order of emission, from 0.
    pub id: i32,
    pub op: OpCode,
    pub res: Address,
    pub x: Address,
    pub y: Address,
}

/// Why a syntax tree has no code.
#[derive(PartialEq, Eq, Debug, Clone, Copy, Structural)]
pub enum CodeGenError {
    /// A name is used that no open frame holds.
    Undeclared,
    /// A name is declared twice in one block.
    Redeclared,
    /// A `break` stands outside every loop.
    BreakOutsideLoop,
    /// A location has more indices than its type has dimensions, or its
    /// address is not one in the stack.
    BadIndex,
    /// A literal or a stride does not fit the place of an address.
    ConstantTooLarge,
    /// The declared identifiers need more bytes than an address can reach.
    FrameTooLarge,
    /// The numbers of instructions or of temporaries are used up.
    CapacityExceeded,
}

/// Why a text has no code.
#[derive(PartialEq, Eq, Debug, Clone, Copy, Structural)]
pub enum CompileError {
    Parse(ParseError),
    CodeGen(CodeGenError),
}

impl Address {
    /// The address that stands where none is needed: the label 0.
    pub fn null_address() -> (a: Address)
        ensures
            a == Address::null(),
    {
        Address { mode: AddressMode::Label, place: 0 }
    }

    /// The address of the constant `x`.
    pub fn new_constant(x: i32) -> (a: Address)
        ensures
            a == Address::constant(x as int),
    {
        Address { mode: AddressMode::Constant, place: x }
    }

    /// The address that stands where none is needed.
    pub open spec fn null() -> Address {
        Address { mode: AddressMode::Label, place: 0 }
    }

    /// The address of the constant `x`.
    pub open spec fn constant(x: int) -> Address {
        Address { mode: AddressMode::Constant, place: x as i32 }
    }

    /// The address of the register `r`.
    pub open spec fn register(r: int) -> Address {
        Address { mode: AddressMode::Register, place: r as i32 }
    }

    /// The address of the place in the stack that the register `r` points to.
    pub open spec fn pointer(r: int) -> Address {
        Address { mode: AddressMode::Pointer, place: r as i32 }
    }

    /// The address of the instruction at index `i`.
    pub open spec fn label(i: int) -> Address {
        Address { mode: AddressMode::Label, place: i as i32 }
    }
}

/// A list of instructions. Instructions are only ever appended, and the
/// target of a jump may be set after it is emitted.
pub struct IntermediateRepresentation {
    pub instructions: Vec<AddressCode>,
}

impl View for IntermediateRepresentation {
    type V = Seq<AddressCode>;

    open spec fn view(&self) -> Seq<AddressCode> {
        self.instructions@
    }
}

impl IntermediateRepresentation {
    /// An empty list of instructions.
    pub fn new() -> (code: IntermediateRepresentation)
        ensures
            code@ == Seq::<AddressCode>::empty(),
    {
        IntermediateRepresentation { instructions: Vec::new() }
    }

    /// Appends one instruction.
    pub fn append(&mut self, addr_code: AddressCode)
        ensures
            final(self)@ == old(self)@.push(addr_code),
    {
        self.instructions.push(addr_code);
    }

    /// The index of the last instruction.
    pub fn get_last(&self) -> (i: usize)
        requires
            self@.len() > 0,
        ensures
            i == self@.len() - 1,
    {
        let n = self.instructions.len();
        n - 1
    }
}

/// What emitting code yields: a value and the state after it, or the first
/// error and the state in which it was found.
pub type Gen<T> = Result<(T, GenView), (CodeGenError, GenView)>;

/// What emitting code without a value yields: the state after it, or the
/// first error and the state in which it was found.
pub type Emitted = Result<GenView, (CodeGenError, GenView)>;

/// The mathematical value of a [`CodeGenerator`].
pub struct GenView {
    /// The instructions emitted so far.
    pub code: Seq<AddressCode>,
    /// The number of the temporary allocated last.
    pub temp_num: int,
    /// The open frames of the symbol table, the innermost last.
    pub frames: Seq<FrameView>,
    /// The register that follows the top of the stack.
    pub stack_pointer: Address,
}

impl GenView {
    /// The label of the instruction that will be emitted next.
    pub open spec fn label(self) -> Label {
        Label { place: self.code.len() as i32 }
    }

    /// Allocates a register that nothing uses yet.
    pub open spec fn new_temp(self) -> Gen<Address> {
        if self.temp_num >= i32::MAX {
            Err((CodeGenError::CapacityExceeded, self))
        } else {
            Ok(
                (
                    Address::register(self.temp_num + 1),
                    GenView { temp_num: self.temp_num + 1, ..self },
                ),
            )
        }
    }

    /// Allocates a register that nothing uses yet, to hold an offset into the
    /// stack.
    pub open spec fn new_pointer(self) -> Gen<Address> {
        if self.temp_num >= i32::MAX {
            Err((CodeGenError::CapacityExceeded, self))
        } else {
            Ok(
                (
                    Address::pointer(self.temp_num + 1),
                    GenView { temp_num: self.temp_num + 1, ..self },
                ),
            )
        }
    }

    /// Appends the instruction `res = op(x, y)`.
    pub open spec fn emit(self, op: OpCode, res: Address, x: Address, y: Address) -> Emitted {
        if self.code.len() >= i32::MAX {
            Err((CodeGenError::CapacityExceeded, self))
        } else {
            Ok(
                GenView {
                    code: self.code.push(
                        AddressCode { id: self.code.len() as i32, op, res, x, y },
                    ),
                    ..self
                },
            )
        }
    }

    /// Appends a jump to `lbl` that reads `addr`, and gives its index.
    pub open spec fn emit_jump(self, op: OpCode, lbl: Label, addr: Address) -> Gen<usize> {
        match self.emit(op, Address::label(lbl.place as int), addr, addr) {
            Ok(after) => Ok((self.code.len() as usize, after)),
            Err(e) => Err(e),
        }
    }

    /// Makes the jump at index `addr` go to `lbl`.
    pub open spec fn patch_jump(self, addr: usize, lbl: Label) -> GenView
        recommends
            addr < self.code.len(),
    {
        let old = self.code[addr as int];
        GenView {
            code: self.code.update(
                addr as int,
                AddressCode { res: Address { mode: old.res.mode, place: lbl.place }, ..old },
            ),
            ..self
        }
    }

    /// Opens a frame in the symbol table.
    pub open spec fn push_frame(self) -> GenView {
        GenView { frames: self.frames.push(FrameView::empty()), ..self }
    }

    /// Appends the instruction that moves the stack pointer up by the width
    /// of the innermost frame.
    pub open spec fn reserve_frame(self) -> Emitted
        recommends
            self.frames.len() > 0,
    {
        let w = self.frames.last().width;
        if w > i32::MAX {
            Err((CodeGenError::ConstantTooLarge, self))
        } else {
            self.emit(
                OpCode::Add,
                self.stack_pointer,
                self.stack_pointer,
                Address::constant(w as int),
            )
        }
    }

    /// Closes the innermost frame and appends the instruction that moves the
    /// stack pointer down by its width.
    pub open spec fn pop_frame(self) -> Emitted
        recommends
            self.frames.len() > 0,
    {
        let w = self.frames.last().width;
        if w > i32::MAX {
            Err((CodeGenError::ConstantTooLarge, self))
        } else {
            GenView { frames: self.frames.drop_last(), ..self }.emit(
                OpCode::Sub,
                self.stack_pointer,
                self.stack_pointer,
                Address::constant(w as int),
            )
        }
    }
}

/// Turns a syntax tree into a list of instructions.
pub struct CodeGenerator {
    pub sym_table: SymbolTable,
    parser: Parser,
    code: IntermediateRepresentation,
    temp_num: i32,
    instr_num: i32,
    stack_pointer: Address,
}

impl View for CodeGenerator {
    type V = GenView;

    closed spec fn view(&self) -> GenView {
        GenView {
            code: self.code@,
            temp_num: self.temp_num as int,
            frames: self.sym_table@,
            stack_pointer: self.stack_pointer,
        }
    }
}

impl CodeGenerator {
    /// The counters agree with what has been emitted and allocated.
    pub closed spec fn wf(&self) -> bool {
        &&& self.instr_num == self.code@.len()
        &&& self.temp_num >= 0
    }

    /// The parser that the generator reads its program from.
    pub closed spec fn parser(&self) -> Parser {
        self.parser
    }

    /// A generator that has emitted nothing. Its first register is the stack
    /// pointer.
    pub fn new(parser: Parser) -> (cg: CodeGenerator)
        ensures
            cg.wf(),
            cg.parser() == parser,
            cg@ == (GenView {
                code: Seq::empty(),
                temp_num: 1,
                frames: Seq::empty(),
                stack_pointer: Address::register(1),
            }),
    {
        CodeGenerator {
            parser,
            sym_table: SymbolTable::new(),
            code: IntermediateRepresentation::new(),
            temp_num: 1,
            instr_num: 0,
            stack_pointer: Address { mode: AddressMode::Register, place: 1 },
        }
    }

    /// The instructions emitted so far.
    pub fn code(&self) -> (code: &IntermediateRepresentation)
        ensures
            code@ == self@.code,
    {
        &self.code
    }

    /// Gives up the generator for the instructions that it has emitted.
    pub fn into_code(self) -> (code: IntermediateRepresentation)
        ensures
            code@ == self@.code,
    {
        self.code
    }

    /// Appends the instruction `res = op(x, y)`.
    pub fn emit(&mut self, op: OpCode, res: Address, x: Address, y: Address) -> (r: Result<
        (),
        CodeGenError,
    >)
        requires
            old(self).wf(),
        ensures
            final(self).wf(),
            final(self).parser() == old(self).parser(),
            match old(self)@.emit(op, res, x, y) {
                Ok(after) => r is Ok && final(self)@ == after,
                Err((e, after)) => r == Err::<(), CodeGenError>(e) && final(self)@ == after,
            },
    {
        if self.instr_num == i32::MAX {
            return Err(CodeGenError::CapacityExceeded);
        }
        let instr = AddressCode { op, res, x, y, id: self.instr_num };
        self.instr_num = self.instr_num + 1;
        self.code.append(instr);
        Ok(())
    }

    /// Opens a frame in the symbol table. Nothing is emitted: how far the
    /// stack pointer has to move is known only when the declarations of the
    /// block are registered, and [`CodeGenerator::reserve_frame`] emits the
    /// move then.
    pub fn push_frame(&mut self)
        requires
            old(self).wf(),
        ensures
            final(self).wf(),
            final(self).parser() == old(self).parser(),
            final(self)@ == old(self)@.push_frame(),
    {
        self.sym_table.push_frame();
    }

    /// Appends the instruction that moves the stack pointer up by the width
    /// of the innermost frame.
    pub fn reserve_frame(&mut self) -> (r: Result<(), CodeGenError>)
        requires
            old(self).wf(),
            old(self)@.frames.len() > 0,
        ensures
            final(self).wf(),
            final(self).parser() == old(self).parser(),
            match old(self)@.reserve_frame() {
                Ok(after) => r is Ok && final(self)@ == after,
                Err((e, after)) => r == Err::<(), CodeGenError>(e) && final(self)@ == after,
            },
    {
        let w = self.sym_table.get_frame_width();
        if w > i32::MAX as u32 {
            return Err(CodeGenError::ConstantTooLarge);
        }
        let stp = self.stack_pointer;
        self.emit(OpCode::Add, stp, stp, Address::new_constant(w as i32))
    }

    /// Closes the innermost frame and appends the instruction that moves the
    /// stack pointer down by its width.
    pub fn pop_frame(&mut self) -> (r: Result<(), CodeGenError>)
        requires
            old(self).wf(),
            old(self)@.frames.len() > 0,
        ensures
            final(self).wf(),
            final(self).parser() == old(self).parser(),
            match old(self)@.pop_frame() {
                Ok(after) => r is Ok && final(self)@ == after,
                Err((e, after)) => r == Err::<(), CodeGenError>(e) && final(self)@ == after,
            },
    {
        let w = self.sym_table.get_frame_width();
        if w > i32::MAX as u32 {
            return Err(CodeGenError::ConstantTooLarge);
        }
        let stp = self.stack_pointer;
        self.sym_table.pop_frame();
        self.emit(OpCode::Sub, stp, stp, Address::new_constant(w as i32))
    }

    /// The label of the instruction that will be emitted next.
    pub fn emit_label(&self) -> (lbl: Label)
        requires
            self.wf(),
        ensures
            lbl == self@.label(),
    {
        Label { place: self.instr_num }
    }

    /// Appends a jump to `lbl` that reads `addr`, and returns its index, by
    /// which its target can be set later.
    pub fn emit_jump(&mut self, op: OpCode, lbl: Label, addr: Address) -> (r: Result<
        usize,
        CodeGenError,
    >)
        requires
            old(self).wf(),
        ensures
            final(self).wf(),
            final(self).parser() == old(self).parser(),
            match old(self)@.emit_jump(op, lbl, addr) {
                Ok((index, after)) => r == Ok::<usize, CodeGenError>(index) && final(self)@
                    == after,
                Err((e, after)) => r == Err::<usize, CodeGenError>(e) && final(self)@ == after,
            },
    {
        let jump = Address { mode: AddressMode::Label, place: lbl.place };
        match self.emit(op, jump, addr, addr) {
            Ok(()) => Ok(self.code.get_last()),
            Err(e) => Err(e),
        }
    }

    /// Makes the jump at index `addr` go to `lbl`.
    pub fn patch_jump(&mut self, addr: usize, lbl: Label)
        requires
            old(self).wf(),
            addr < old(self)@.code.len(),
        ensures
            final(self).wf(),
            final(self).parser() == old(self).parser(),
            final(self)@ == old(self)@.patch_jump(addr, lbl),
    {
        let old_instr = self.code.instructions[addr];
        let instr = AddressCode {
            id: old_instr.id,
            op: old_instr.op,
            res: Address { mode: old_instr.res.mode, place: lbl.place },
            x: old_instr.x,
            y: old_instr.y,
        };
        self.code.instructions.set(addr, instr);
    }

    /// Parses the program in front of the parser and emits its instructions.
    /// The tokens behind the program stay in front of the parser.
    pub fn generate_code(&mut self) -> (r: Result<(), CompileError>)
        requires
            old(self).wf(),
        ensures
            final(self).wf(),
            match parse_program(old(self).parser().tokens()) {
                Err((e, rest)) => r == Err::<(), CompileError>(CompileError::Parse(e))
                    && final(self)@ == old(self)@ && final(self).parser().tokens() == rest,
                Ok((program, rest)) => final(self).parser().tokens() == rest && match gen_program(
                    program,
                    old(self)@,
                ) {
                    Err((e, after)) => r == Err::<(), CompileError>(CompileError::CodeGen(e))
                        && final(self)@ == after,
                    Ok(after) => r is Ok && final(self)@ == after,
                },
            },
    {
        match self.parser.parse() {
            Err(e) => {
                return Err(CompileError::Parse(e));
            },
            Ok(()) => {},
        }
        let root = self.parser.get_root();
        match root.generate_code(self) {
            Err(e) => Err(CompileError::CodeGen(e)),
            Ok(()) => Ok(()),
        }
    }

    /// What the symbol table knows of `name`, searched from the innermost
    /// frame outwards: a copy of it.
    pub fn resolve(&self, name: &str) -> (r: Option<IdeInfo>)
        ensures
            match resolve(self@.frames, name@) {
                Some(info) => r is Some && r->0@ == info,
                None => r is None,
            },
    {
        match self.sym_table.resolve(name) {
            Some(info) => Some(
                IdeInfo { typeinfo: info.typeinfo.duplicate(), address: info.address },
            ),
            None => None,
        }
    }

    /// Gives `name` the next free bytes of the stack and registers it in the
    /// innermost frame.
    pub fn declare(&mut self, name: String, typeinfo: Type) -> (r: Result<Address, CodeGenError>)
        requires
            old(self).wf(),
            old(self)@.frames.len() > 0,
        ensures
            final(self).wf(),
            final(self).parser() == old(self).parser(),
            match declare(old(self)@.frames, name@, typeinfo@) {
                Ok((address, frames)) => r == Ok::<Address, CodeGenError>(address) && final(self)@
                    == (GenView { frames, ..old(self)@ }),
                Err(e) => r == Err::<Address, CodeGenError>(e) && final(self)@ == old(self)@,
            },
    {
        self.sym_table.declare(name, typeinfo)
    }

    /// Allocates a register that nothing uses yet.
    pub fn new_temp(&mut self) -> (r: Result<Address, CodeGenError>)
        requires
            old(self).wf(),
        ensures
            final(self).wf(),
            final(self).parser() == old(self).parser(),
            match old(self)@.new_temp() {
                Ok((a, after)) => r == Ok::<Address, CodeGenError>(a) && final(self)@ == after,
                Err((e, after)) => r == Err::<Address, CodeGenError>(e) && final(self)@ == after,
            },
    {
        if self.temp_num == i32::MAX {
            return Err(CodeGenError::CapacityExceeded);
        }
        self.temp_num = self.temp_num + 1;
        Ok(Address { mode: AddressMode::Register, place: self.temp_num })
    }

    /// Allocates a register that nothing uses yet, to hold an offset into the
    /// stack; the address returned stands for the place in the stack.
    pub fn new_pointer(&mut self) -> (r: Result<Address, CodeGenError>)
        requires
            old(self).wf(),
        ensures
            final(self).wf(),
            final(self).parser() == old(self).parser(),
            match old(self)@.new_pointer() {
                Ok((a, after)) => r == Ok::<Address, CodeGenError>(a) && final(self)@ == after,
                Err((e, after)) => r == Err::<Address, CodeGenError>(e) && final(self)@ == after,
            },
    {
        if self.temp_num == i32::MAX {
            return Err(CodeGenError::CapacityExceeded);
        }
        self.temp_num = self.temp_num + 1;
        Ok(Address { mode: AddressMode::Pointer, place: self.temp_num })
    }
}

} // verus!
