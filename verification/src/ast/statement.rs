//! Programs, blocks, declarations, types and statements.

use vstd::pervasive::unreached;
use vstd::prelude::*;
use crate::ast::expression::{bool_view, BoolExpr, BoolExprView, Loc, loc_view, LocView};
use crate::code_generator::{Address, CodeGenerator, CodeGenError, GenView, Label, OpCode};
use crate::control_flow::{
    lemma_begin_else, lemma_gen_condition, lemma_gen_statement, lemma_gen_statements,
    lemma_open_block, lemma_patch_all,
};
use crate::emission::{
    gen_assign, gen_block, gen_break, gen_condition, gen_decls, gen_program, gen_statement,
    gen_statements, open_block, patch_all,
};
use crate::grammar::{
    block_items, Failure, finish_type, lemma_parse_condition_shrinks, lemma_parse_decl_shrinks,
    lemma_parse_statement_shrinks, lemma_stride_table, make_type, parse_assign, parse_block,
    parse_condition, parse_decl, parse_program, parse_statement, parse_type, Parsed, stride_table,
    type_dims,
};
use crate::lexer::{Tag, TokenInfo, TokenView};
use crate::parser::{Expected, ParseError, ParseNode, Parser, peek};
use crate::symbol_table::declare;

verus! {

/// The element types of the language.
#[derive(PartialEq, Eq, Debug, Clone, Copy, Structural)]
pub enum BasicType {
    Int,
    Float,
}

/// A declared type. For a scalar `dim_width` is empty. For an array with
/// the extents `d[0]`, ..., `d[n-1]` it has `n + 1` entries, computed from
/// the right: the last is the width of an element, and each other entry is
/// its extent times the entry after it. So entry `i + 1` is the distance in
/// bytes between neighbours along dimension `i`, and entry `0` is the size of
/// the whole array.
#[derive(PartialEq, Debug, Clone)]
pub struct Type {
    pub basic_type: BasicType,
    pub element_width: u32,
    pub dim_width: Vec<u32>,
}

/// A declaration of one identifier.
#[derive(PartialEq, Debug)]
pub struct Decl {
    pub type_id: Box<Type>,
    pub id: Box<String>,
}

/// A statement.
#[derive(PartialEq, Debug)]
pub enum Statement {
    Assign(Box<Loc>, Box<BoolExpr>),
    If(Box<BoolExpr>, Box<Statement>),
    IfElse(Box<BoolExpr>, Box<Statement>, Box<Statement>),
    While(Box<BoolExpr>, Box<Statement>),
    Break,
    BlockStmt(Box<Block>),
}

/// A block: its declarations and its statements, each list in source order.
#[derive(PartialEq, Debug)]
pub struct Block {
    pub decls: Vec<Box<Decl>>,
    pub stmts: Vec<Box<Statement>>,
}

/// A whole program: one block.
#[derive(PartialEq, Debug)]
pub struct Program {
    pub block: Box<Block>,
}

/// The mathematical value of a [`Type`].
pub struct TypeView {
    pub basic_type: BasicType,
    pub element_width: u32,
    pub dim_width: Seq<u32>,
}

/// The mathematical value of a [`Decl`].
pub struct DeclView {
    pub type_id: TypeView,
    pub id: Seq<char>,
}

/// The mathematical value of a [`Statement`].
pub enum StatementView {
    Assign(LocView, BoolExprView),
    If(BoolExprView, Box<StatementView>),
    IfElse(BoolExprView, Box<StatementView>, Box<StatementView>),
    While(BoolExprView, Box<StatementView>),
    Break,
    BlockStmt(BlockView),
}

/// The mathematical value of a [`Block`].
pub struct BlockView {
    pub decls: Seq<DeclView>,
    pub stmts: Seq<StatementView>,
}

/// The mathematical value of a [`Program`].
pub struct ProgramView {
    pub block: BlockView,
}

impl TypeView {
    /// The number of bytes that a value of the type occupies: the width of
    /// an element for a scalar, the size of the whole array for an array.
    pub open spec fn width(self) -> nat {
        if self.dim_width.len() == 0 {
            self.element_width as nat
        } else {
            self.dim_width[0] as nat
        }
    }
}

impl View for Type {
    type V = TypeView;

    open spec fn view(&self) -> TypeView {
        TypeView {
            basic_type: self.basic_type,
            element_width: self.element_width,
            dim_width: self.dim_width@,
        }
    }
}

impl Type {
    /// A copy of the type.
    pub fn duplicate(&self) -> (t: Type)
        ensures
            t@ == self@,
    {
        let mut dim_width: Vec<u32> = Vec::new();
        let mut i: usize = 0;
        while i < self.dim_width.len()
            invariant
                i <= self.dim_width.len(),
                dim_width@ == self.dim_width@.take(i as int),
            decreases self.dim_width.len() - i,
        {
            dim_width.push(self.dim_width[i]);
            i = i + 1;
        }
        assert(self.dim_width@.take(i as int) == self.dim_width@);
        Type { basic_type: self.basic_type, element_width: self.element_width, dim_width }
    }
}

impl View for Decl {
    type V = DeclView;

    open spec fn view(&self) -> DeclView {
        DeclView { type_id: self.type_id@, id: self.id@ }
    }
}

/// The values of a list of declarations.
pub open spec fn decls_view(v: Vec<Box<Decl>>) -> Seq<DeclView> {
    Seq::new(v.len() as nat, |i: int| v[i]@)
}

/// The value of a statement.
pub open spec fn statement_view(s: Statement) -> StatementView
    decreases s,
{
    match s {
        Statement::Assign(l, e) => StatementView::Assign(loc_view(*l), bool_view(*e)),
        Statement::If(c, a) => StatementView::If(bool_view(*c), Box::new(statement_view(*a))),
        Statement::IfElse(c, a, b) => StatementView::IfElse(
            bool_view(*c),
            Box::new(statement_view(*a)),
            Box::new(statement_view(*b)),
        ),
        Statement::While(c, a) => StatementView::While(
            bool_view(*c),
            Box::new(statement_view(*a)),
        ),
        Statement::Break => StatementView::Break,
        Statement::BlockStmt(b) => StatementView::BlockStmt(block_view(*b)),
    }
}

/// The values of a list of statements.
pub open spec fn statements_view(v: Vec<Box<Statement>>) -> Seq<StatementView>
    decreases v,
{
    Seq::new(
        v.len() as nat,
        |i: int|
            if 0 <= i < v.len() {
                statement_view(*v[i])
            } else {
                arbitrary()
            },
    )
}

/// The value of a block.
pub open spec fn block_view(b: Block) -> BlockView
    decreases b,
{
    BlockView { decls: decls_view(b.decls), stmts: statements_view(b.stmts) }
}

impl View for Statement {
    type V = StatementView;

    open spec fn view(&self) -> StatementView {
        statement_view(*self)
    }
}

impl View for Block {
    type V = BlockView;

    open spec fn view(&self) -> BlockView {
        block_view(*self)
    }
}

impl View for Program {
    type V = ProgramView;

    open spec fn view(&self) -> ProgramView {
        ProgramView { block: self.block@ }
    }
}

/// What the code generation of a statement yields: the indices of the jumps
/// that its `break` statements emitted and whose targets are not set yet.
pub struct StatementAttributes {
    pub break_list: Vec<usize>,
}

/// Makes each of the jumps at `breaks` go to `lbl`.
pub fn patch_jumps(code_gen: &mut CodeGenerator, breaks: &Vec<usize>, lbl: Label)
    requires
        old(code_gen).wf(),
        forall|k: int| 0 <= k < breaks.len() ==> #[trigger] breaks[k] < old(code_gen)@.code.len(),
    ensures
        final(code_gen).wf(),
        final(code_gen).parser() == old(code_gen).parser(),
        final(code_gen)@ == patch_all(old(code_gen)@, breaks@, lbl),
{
    let mut k: usize = 0;
    while k < breaks.len()
        invariant
            k <= breaks.len(),
            code_gen.wf(),
            code_gen.parser() == old(code_gen).parser(),
            code_gen@ == patch_all(old(code_gen)@, breaks@.take(k as int), lbl),
            code_gen@.code.len() == old(code_gen)@.code.len(),
            forall|k: int|
                0 <= k < breaks.len() ==> #[trigger] breaks[k] < old(code_gen)@.code.len(),
        decreases breaks.len() - k,
    {
        assert(breaks@.take(k + 1).drop_last() == breaks@.take(k as int));
        code_gen.patch_jump(breaks[k], lbl);
        k = k + 1;
    }
    assert(breaks@.take(k as int) == breaks@);
}

impl Decl {
    /// Registers the identifier in the innermost frame, at the next free
    /// bytes of the stack. No instruction is emitted.
    pub fn generate_code(&self, code_gen: &mut CodeGenerator) -> (r: Result<(), CodeGenError>)
        requires
            old(code_gen).wf(),
            old(code_gen)@.frames.len() > 0,
        ensures
            final(code_gen).wf(),
            final(code_gen).parser() == old(code_gen).parser(),
            match declare(old(code_gen)@.frames, self@.id, self@.type_id) {
                Ok((_, frames)) => r is Ok && final(code_gen)@ == (GenView {
                    frames,
                    ..old(code_gen)@
                }),
                Err(e) => r == Err::<(), CodeGenError>(e) && final(code_gen)@ == old(code_gen)@,
            },
    {
        let name = (*self.id).clone();
        let typeinfo = self.type_id.duplicate();
        code_gen.declare(name, typeinfo)?;
        Ok(())
    }
}

impl Statement {
    /// Emits the instructions of the statement, and returns the jumps of
    /// its `break` statements that wait for the end of a loop around it.
    pub fn generate_code(&self, code_gen: &mut CodeGenerator) -> (r: Result<
        StatementAttributes,
        CodeGenError,
    >)
        requires
            old(code_gen).wf(),
        ensures
            final(code_gen).wf(),
            final(code_gen).parser() == old(code_gen).parser(),
            match gen_statement(self@, old(code_gen)@) {
                Ok((breaks, after)) => r is Ok && r->Ok_0.break_list@ == breaks
                    && final(code_gen)@ == after,
                Err((e, after)) => r == Err::<StatementAttributes, CodeGenError>(e)
                    && final(code_gen)@ == after,
            },
        decreases self, 1nat,
    {
        match self {
            Statement::Assign(l, be) => Statement::assign_code(l, be, code_gen),
            Statement::If(_, _) => self.if_code(code_gen),
            Statement::IfElse(_, _, _) => self.if_else_code(code_gen),
            Statement::While(_, _) => self.while_code(code_gen),
            Statement::Break => Statement::break_code(code_gen),
            Statement::BlockStmt(block) => block.generate_code(code_gen),
        }
    }

    /// The code of an assignment of `be` to `l`.
    fn assign_code(l: &Loc, be: &BoolExpr, code_gen: &mut CodeGenerator) -> (r: Result<
        StatementAttributes,
        CodeGenError,
    >)
        requires
            old(code_gen).wf(),
        ensures
            final(code_gen).wf(),
            final(code_gen).parser() == old(code_gen).parser(),
            match gen_assign(l@, be@, old(code_gen)@) {
                Ok((breaks, after)) => r is Ok && r->Ok_0.break_list@ == breaks
                    && final(code_gen)@ == after,
                Err((e, after)) => r == Err::<StatementAttributes, CodeGenError>(e)
                    && final(code_gen)@ == after,
            },
    {
        let place = l.generate_code(code_gen)?;
        let battr = be.generate_code(code_gen)?;
        code_gen.emit(OpCode::Mov, place.place, battr.place, battr.place)?;
        Ok(StatementAttributes { break_list: Vec::new() })
    }

    /// The code of a `break`.
    fn break_code(code_gen: &mut CodeGenerator) -> (r: Result<StatementAttributes, CodeGenError>)
        requires
            old(code_gen).wf(),
        ensures
            final(code_gen).wf(),
            final(code_gen).parser() == old(code_gen).parser(),
            match gen_break(old(code_gen)@) {
                Ok((breaks, after)) => r is Ok && r->Ok_0.break_list@ == breaks
                    && final(code_gen)@ == after,
                Err((e, after)) => r == Err::<StatementAttributes, CodeGenError>(e)
                    && final(code_gen)@ == after,
            },
    {
        let lblbegin = code_gen.emit_label();
        let addr = code_gen.emit_jump(OpCode::Goto, lblbegin, Address::null_address())?;
        let mut break_list = Vec::new();
        break_list.push(addr);
        assert(break_list@ == seq![addr]);
        Ok(StatementAttributes { break_list })
    }

    /// The code of the condition `be`, with the jump that is taken when its
    /// value is 0. Returns the index of the jump.
    fn condition_code(be: &BoolExpr, lblbegin: Label, code_gen: &mut CodeGenerator) -> (r: Result<
        usize,
        CodeGenError,
    >)
        requires
            old(code_gen).wf(),
        ensures
            final(code_gen).wf(),
            final(code_gen).parser() == old(code_gen).parser(),
            match gen_condition(be@, lblbegin, old(code_gen)@) {
                Ok((jump, after)) => r == Ok::<usize, CodeGenError>(jump) && final(code_gen)@
                    == after,
                Err((e, after)) => r == Err::<usize, CodeGenError>(e)
                    && final(code_gen)@ == after,
            },
    {
        let battr = be.generate_code(code_gen)?;
        code_gen.emit_jump(OpCode::JmpZ, lblbegin, battr.place)
    }

    /// The code of an `if` without `else`.
    fn if_code(&self, code_gen: &mut CodeGenerator) -> (r: Result<
        StatementAttributes,
        CodeGenError,
    >)
        requires
            old(code_gen).wf(),
            self is If,
        ensures
            final(code_gen).wf(),
            final(code_gen).parser() == old(code_gen).parser(),
            match gen_statement(self@, old(code_gen)@) {
                Ok((breaks, after)) => r is Ok && r->Ok_0.break_list@ == breaks
                    && final(code_gen)@ == after,
                Err((e, after)) => r == Err::<StatementAttributes, CodeGenError>(e)
                    && final(code_gen)@ == after,
            },
        decreases self, 0nat,
    {
        let lblbegin = code_gen.emit_label();
        let ghost st = code_gen@;
        match self {
            Statement::If(be, stmt) => {
                let instr = Statement::condition_code(be, lblbegin, code_gen)?;
                let ghost s1 = code_gen@;
                let sa = stmt.generate_code(code_gen)?;
                proof {
                    lemma_gen_condition(be@, lblbegin, st);
                    lemma_gen_statement(stmt@, s1);
                }
                let lblafter = code_gen.emit_label();
                code_gen.patch_jump(instr, lblafter);
                Ok(sa)
            },
            _ => unreached(),
        }
    }

    /// The code of an `if` with `else`.
    fn if_else_code(&self, code_gen: &mut CodeGenerator) -> (r: Result<
        StatementAttributes,
        CodeGenError,
    >)
        requires
            old(code_gen).wf(),
            self is IfElse,
        ensures
            final(code_gen).wf(),
            final(code_gen).parser() == old(code_gen).parser(),
            match gen_statement(self@, old(code_gen)@) {
                Ok((breaks, after)) => r is Ok && r->Ok_0.break_list@ == breaks
                    && final(code_gen)@ == after,
                Err((e, after)) => r == Err::<StatementAttributes, CodeGenError>(e)
                    && final(code_gen)@ == after,
            },
        decreases self, 0nat,
    {
        let lblbegin = code_gen.emit_label();
        let ghost st = code_gen@;
        match self {
            Statement::IfElse(be, st1, st2) => {
                let instr = Statement::condition_code(be, lblbegin, code_gen)?;
                let ghost s1 = code_gen@;
                let sa1 = st1.generate_code(code_gen)?;
                let ghost s2 = code_gen@;
                let jmpendif = code_gen.emit_jump(OpCode::Goto, lblbegin, Address::null_address())?;
                proof {
                    lemma_gen_condition(be@, lblbegin, st);
                    lemma_gen_statement(st1@, s1);
                    lemma_begin_else(st, lblbegin, instr, s1, sa1.break_list@, s2);
                }
                let lblelse = code_gen.emit_label();
                code_gen.patch_jump(instr, lblelse);
                let ghost s3 = code_gen@;
                let mut break_list = sa1.break_list;
                let mut sa2 = st2.generate_code(code_gen)?;
                proof {
                    lemma_gen_statement(st2@, s3);
                }
                break_list.append(&mut sa2.break_list);
                let lblendelse = code_gen.emit_label();
                code_gen.patch_jump(jmpendif, lblendelse);
                Ok(StatementAttributes { break_list })
            },
            _ => unreached(),
        }
    }

    /// The code of a `while`.
    fn while_code(&self, code_gen: &mut CodeGenerator) -> (r: Result<
        StatementAttributes,
        CodeGenError,
    >)
        requires
            old(code_gen).wf(),
            self is While,
        ensures
            final(code_gen).wf(),
            final(code_gen).parser() == old(code_gen).parser(),
            match gen_statement(self@, old(code_gen)@) {
                Ok((breaks, after)) => r is Ok && r->Ok_0.break_list@ == breaks
                    && final(code_gen)@ == after,
                Err((e, after)) => r == Err::<StatementAttributes, CodeGenError>(e)
                    && final(code_gen)@ == after,
            },
        decreases self, 0nat,
    {
        let lblbegin = code_gen.emit_label();
        let ghost st = code_gen@;
        match self {
            Statement::While(be, stmt) => {
                let jmp = Statement::condition_code(be, lblbegin, code_gen)?;
                let ghost s1 = code_gen@;
                let sa = stmt.generate_code(code_gen)?;
                code_gen.emit_jump(OpCode::Goto, lblbegin, Address::null_address())?;
                proof {
                    lemma_gen_condition(be@, lblbegin, st);
                    lemma_gen_statement(stmt@, s1);
                }
                let lblafter = code_gen.emit_label();
                patch_jumps(code_gen, &sa.break_list, lblafter);
                proof {
                    lemma_patch_all(
                        gen_statement(stmt@, s1)->Ok_0.1.emit_jump(
                            OpCode::Goto,
                            lblbegin,
                            Address::null(),
                        )->Ok_0.1,
                        sa.break_list@,
                        lblafter,
                    );
                }
                code_gen.patch_jump(jmp, lblafter);
                Ok(StatementAttributes { break_list: Vec::new() })
            },
            _ => unreached(),
        }
    }
}

impl Block {
    /// Emits the instructions of the block, and returns the jumps of its
    /// `break` statements that wait for the end of a loop around it.
    pub fn generate_code(&self, code_gen: &mut CodeGenerator) -> (r: Result<
        StatementAttributes,
        CodeGenError,
    >)
        requires
            old(code_gen).wf(),
        ensures
            final(code_gen).wf(),
            final(code_gen).parser() == old(code_gen).parser(),
            match gen_block(self@, old(code_gen)@) {
                Ok((breaks, after)) => r is Ok && r->Ok_0.break_list@ == breaks
                    && final(code_gen)@ == after,
                Err((e, after)) => r == Err::<StatementAttributes, CodeGenError>(e)
                    && final(code_gen)@ == after,
            },
        decreases self, 1nat,
    {
        let ghost st = code_gen@;
        let ghost decls = self@.decls;
        let ghost stmts = self@.stmts;
        let mut break_list: Vec<usize> = Vec::new();
        code_gen.push_frame();
        let ghost s0 = code_gen@;
        let mut i: usize = 0;
        assert(decls.skip(0) == decls);
        while i < self.decls.len()
            invariant
                i <= self.decls.len(),
                decls == self@.decls,
                code_gen.wf(),
                code_gen.parser() == old(code_gen).parser(),
                code_gen@.frames.len() > 0,
                gen_decls(decls.skip(i as int), code_gen@) == gen_decls(decls, s0),
                s0 == st.push_frame(),
                st == old(code_gen)@,
            decreases self.decls.len() - i,
        {
            proof {
                assert(decls.skip(i as int).drop_first() == decls.skip(i + 1));
                assert(decls.skip(i as int)[0] == self.decls[i as int]@);
            }
            self.decls[i].generate_code(code_gen)?;
            i = i + 1;
        }
        code_gen.reserve_frame()?;
        let ghost s1 = code_gen@;
        assert(open_block(decls, st) == Ok::<GenView, (CodeGenError, GenView)>(s1));
        let mut j: usize = 0;
        assert(stmts.skip(0) == stmts);
        while j < self.stmts.len()
            invariant
                j <= self.stmts.len(),
                stmts == self@.stmts,
                code_gen.wf(),
                code_gen.parser() == old(code_gen).parser(),
                gen_statements(stmts.skip(j as int), break_list@, code_gen@) == gen_statements(
                    stmts,
                    Seq::empty(),
                    s1,
                ),
                open_block(self@.decls, old(code_gen)@) == Ok::<GenView, (CodeGenError, GenView)>(s1),
            decreases self.stmts.len() - j,
        {
            proof {
                assert(stmts.skip(j as int).drop_first() == stmts.skip(j + 1));
                assert(stmts.skip(j as int)[0] == self.stmts[j as int]@);
            }
            let mut sa = self.stmts[j].generate_code(code_gen)?;
            break_list.append(&mut sa.break_list);
            j = j + 1;
        }
        proof {
            lemma_open_block(decls, st);
            lemma_gen_statements(stmts, Seq::empty(), s1);
        }
        code_gen.pop_frame()?;
        Ok(StatementAttributes { break_list })
    }
}

impl Program {
    /// Emits the instructions of the program. A `break` outside every loop
    /// is an error.
    pub fn generate_code(&self, code_gen: &mut CodeGenerator) -> (r: Result<(), CodeGenError>)
        requires
            old(code_gen).wf(),
        ensures
            final(code_gen).wf(),
            final(code_gen).parser() == old(code_gen).parser(),
            match gen_program(self@, old(code_gen)@) {
                Ok(after) => r is Ok && final(code_gen)@ == after,
                Err((e, after)) => r == Err::<(), CodeGenError>(e)
                    && final(code_gen)@ == after,
            },
    {
        let sa = self.block.generate_code(code_gen)?;
        if sa.break_list.len() > 0 {
            Err(CodeGenError::BreakOutsideLoop)
        } else {
            Ok(())
        }
    }
}

/// The values of a list of declarations with one more at its end.
pub proof fn lemma_decls_view_push(v: Vec<Box<Decl>>, w: Vec<Box<Decl>>, d: Box<Decl>)
    requires
        w@ == v@.push(d),
    ensures
        decls_view(w) == decls_view(v).push(d@),
{
    assert(decls_view(w) =~= decls_view(v).push(d@));
}

/// The values of a list of statements with one more at its end.
pub proof fn lemma_statements_view_push(
    v: Vec<Box<Statement>>,
    w: Vec<Box<Statement>>,
    s: Box<Statement>,
)
    requires
        w@ == v@.push(s),
    ensures
        statements_view(w) == statements_view(v).push(s@),
{
    assert(statements_view(w) =~= statements_view(v).push(s@));
}

impl Type {
    /// Turns the extents of an array into its table, from the right: each
    /// entry becomes its extent times the entry after it, and the width of
    /// an element is appended. A scalar has no table.
    fn strides(extents: Vec<u32>) -> (r: Option<Vec<u32>>)
        ensures
            match make_type(BasicType::Int, extents@) {
                Some(t) => r is Some && r->0@ == t.dim_width,
                None => r is None,
            },
    {
        let base_dim: u32 = 4;
        let ghost table = stride_table(extents@, base_dim as nat);
        let mut w = extents;
        let n = w.len();
        let mut i = n;
        let mut dim = base_dim;
        proof {
            lemma_stride_table(extents@, base_dim as nat, n as int);
        }
        while i > 0
            invariant
                i <= n,
                n == w.len(),
                n == extents.len(),
                base_dim == 4,
                table == stride_table(extents@, base_dim as nat),
                table.len() == n + 1,
                dim == table[i as int],
                table[n as int] == base_dim,
                forall|j: int| 0 <= j < i ==> w[j] == extents[j],
                forall|j: int| i <= j < n ==> #[trigger] w[j] == table[j],
            decreases i,
        {
            i = i - 1;
            proof {
                lemma_stride_table(extents@, base_dim as nat, i as int);
                lemma_stride_table(extents@, base_dim as nat, i + 1);
            }
            match w[i].checked_mul(dim) {
                None => {
                    assert(table[i as int] > u32::MAX);
                    return None;
                },
                Some(p) => {
                    w.set(i, p);
                    dim = p;
                },
            }
        }
        assert forall|k: int| 0 <= k < table.len() implies table[k] <= u32::MAX by {
            if k < n {
                assert(w[k] == table[k]);
            }
        }
        if n > 0 {
            w.push(base_dim);
            assert(w@ =~= Seq::new(table.len(), |i: int| table[i] as u32));
        } else {
            assert(w@ =~= Seq::<u32>::empty());
        }
        Some(w)
    }

    /// Parses a type: `int` or `float`, with any number of extents in
    /// brackets.
    pub fn parse(parser: &mut Parser) -> (r: Result<Box<Type>, ParseError>)
        ensures
            final(parser).ast_root == old(parser).ast_root,
            match parse_type(old(parser).tokens()) {
                Ok((t, rest)) => r is Ok && r->Ok_0@ == t && final(parser).tokens() == rest,
                Err((e, rest)) => r == Err::<Box<Type>, ParseError>(e)
                    && final(parser).tokens() == rest,
            },
    {
        let found = parser.peek_tag();
        let wrong = ParseError::Unexpected { expected: Expected::Tag(Tag::Type), found };
        if found != Tag::Type {
            return Err(wrong);
        }
        let base = match &parser.peek().info {
            TokenInfo::Int => BasicType::Int,
            TokenInfo::Float => BasicType::Float,
            _ => {
                return Err(wrong);
            },
        };
        parser.shift_lookahead();
        let mut w: Vec<u32> = Vec::new();
        while parser.peek_tag() == Tag::LArrParen
            invariant
                parser.ast_root == old(parser).ast_root,
                finish_type(base, type_dims(w@, parser.tokens())) == parse_type(
                    old(parser).tokens(),
                ),
            decreases parser.tokens().len(),
        {
            parser.shift_lookahead();
            let n = parser.take_number()?;
            parser.match_lookahead(Tag::RArrParen)?;
            w.push(n);
        }
        proof {
            let basic = BasicType::Int;
            assert(make_type(base, w@) is Some <==> make_type(basic, w@) is Some);
            assert(make_type(base, w@) is Some ==> make_type(base, w@)->0.dim_width == make_type(
                basic,
                w@,
            )->0.dim_width);
        }
        match Type::strides(w) {
            None => Err(ParseError::ArrayTooLarge),
            Some(dim_width) => Ok(
                Box::new(Type { basic_type: base, element_width: 4, dim_width }),
            ),
        }
    }
}

impl Decl {
    /// Parses a declaration: a type, an identifier and a semicolon.
    pub fn parse(parser: &mut Parser) -> (r: Result<Box<Decl>, ParseError>)
        ensures
            final(parser).ast_root == old(parser).ast_root,
            match parse_decl(old(parser).tokens()) {
                Ok((d, rest)) => r is Ok && r->Ok_0@ == d && final(parser).tokens() == rest,
                Err((e, rest)) => r == Err::<Box<Decl>, ParseError>(e)
                    && final(parser).tokens() == rest,
            },
    {
        let tid = Type::parse(parser)?;
        let s = parser.take_identifier()?;
        parser.match_lookahead(Tag::SemiColon)?;
        Ok(Box::new(Decl { type_id: tid, id: Box::new(s) }))
    }
}

impl Statement {
    /// Parses a statement.
    pub fn parse(parser: &mut Parser) -> (r: Result<Box<Statement>, ParseError>)
        ensures
            final(parser).ast_root == old(parser).ast_root,
            match parse_statement(old(parser).tokens()) {
                Ok((s, rest)) => r is Ok && r->Ok_0@ == s && final(parser).tokens() == rest,
                Err((e, rest)) => r == Err::<Box<Statement>, ParseError>(e)
                    && final(parser).tokens() == rest,
            },
        decreases old(parser).tokens().len(), 2nat,
    {
        match parser.peek_tag() {
            Tag::Ide => Statement::assignment(parser),
            Tag::If => Statement::branch(parser),
            Tag::While => Statement::repetition(parser),
            Tag::Break => Statement::interruption(parser),
            Tag::OpenBlock => Statement::nested(parser),
            found => Err(ParseError::Unexpected { expected: Expected::Statement, found }),
        }
    }

    /// Parses a `break`.
    fn interruption(parser: &mut Parser) -> (r: Result<Box<Statement>, ParseError>)
        requires
            peek(old(parser).tokens()).tag == Tag::Break,
        ensures
            final(parser).ast_root == old(parser).ast_root,
            match parse_statement(old(parser).tokens()) {
                Ok((s, rest)) => r is Ok && r->Ok_0@ == s && final(parser).tokens() == rest,
                Err((e, rest)) => r == Err::<Box<Statement>, ParseError>(e)
                    && final(parser).tokens() == rest,
            },
    {
        parser.shift_lookahead();
        parser.match_lookahead(Tag::SemiColon)?;
        Ok(Box::new(Statement::Break))
    }

    /// Parses a block that stands as a statement.
    fn nested(parser: &mut Parser) -> (r: Result<Box<Statement>, ParseError>)
        requires
            peek(old(parser).tokens()).tag == Tag::OpenBlock,
        ensures
            final(parser).ast_root == old(parser).ast_root,
            match parse_statement(old(parser).tokens()) {
                Ok((s, rest)) => r is Ok && r->Ok_0@ == s && final(parser).tokens() == rest,
                Err((e, rest)) => r == Err::<Box<Statement>, ParseError>(e)
                    && final(parser).tokens() == rest,
            },
        decreases old(parser).tokens().len(), 1nat,
    {
        let block = Block::parse(parser)?;
        Ok(Box::new(Statement::BlockStmt(block)))
    }

    /// Parses an `if`, with or without `else`.
    fn branch(parser: &mut Parser) -> (r: Result<Box<Statement>, ParseError>)
        requires
            peek(old(parser).tokens()).tag == Tag::If,
        ensures
            final(parser).ast_root == old(parser).ast_root,
            match parse_statement(old(parser).tokens()) {
                Ok((s, rest)) => r is Ok && r->Ok_0@ == s && final(parser).tokens() == rest,
                Err((e, rest)) => r == Err::<Box<Statement>, ParseError>(e)
                    && final(parser).tokens() == rest,
            },
        decreases old(parser).tokens().len(), 0nat,
    {
        let ghost ts = parser.tokens();
        parser.shift_lookahead();
        let b = Statement::condition(parser)?;
        let ghost rest = parser.tokens();
        proof {
            lemma_parse_condition_shrinks(ts.drop_first());
        }
        let s = Statement::parse(parser)?;
        proof {
            lemma_parse_statement_shrinks(rest);
        }
        if parser.peek_tag() == Tag::Else {
            parser.shift_lookahead();
            let s2 = Statement::parse(parser)?;
            Ok(Box::new(Statement::IfElse(b, s, s2)))
        } else {
            Ok(Box::new(Statement::If(b, s)))
        }
    }

    /// Parses a `while`.
    fn repetition(parser: &mut Parser) -> (r: Result<Box<Statement>, ParseError>)
        requires
            peek(old(parser).tokens()).tag == Tag::While,
        ensures
            final(parser).ast_root == old(parser).ast_root,
            match parse_statement(old(parser).tokens()) {
                Ok((s, rest)) => r is Ok && r->Ok_0@ == s && final(parser).tokens() == rest,
                Err((e, rest)) => r == Err::<Box<Statement>, ParseError>(e)
                    && final(parser).tokens() == rest,
            },
        decreases old(parser).tokens().len(), 0nat,
    {
        let ghost ts = parser.tokens();
        parser.shift_lookahead();
        let b = Statement::condition(parser)?;
        proof {
            lemma_parse_condition_shrinks(ts.drop_first());
        }
        let s = Statement::parse(parser)?;
        Ok(Box::new(Statement::While(b, s)))
    }

    /// Parses an assignment: a location, `=`, an expression and a semicolon.
    fn assignment(parser: &mut Parser) -> (r: Result<Box<Statement>, ParseError>)
        ensures
            final(parser).ast_root == old(parser).ast_root,
            match parse_assign(old(parser).tokens()) {
                Ok((s, rest)) => r is Ok && r->Ok_0@ == s && final(parser).tokens() == rest,
                Err((e, rest)) => r == Err::<Box<Statement>, ParseError>(e)
                    && final(parser).tokens() == rest,
            },
    {
        let l = Loc::parse(parser)?;
        parser.match_lookahead(Tag::Assign)?;
        let b = BoolExpr::parse(parser)?;
        parser.match_lookahead(Tag::SemiColon)?;
        Ok(Box::new(Statement::Assign(l, b)))
    }

    /// Parses the condition of a branch or of a loop, in its parentheses.
    fn condition(parser: &mut Parser) -> (r: Result<Box<BoolExpr>, ParseError>)
        ensures
            final(parser).ast_root == old(parser).ast_root,
            match parse_condition(old(parser).tokens()) {
                Ok((b, rest)) => r is Ok && r->Ok_0@ == b && final(parser).tokens() == rest,
                Err((e, rest)) => r == Err::<Box<BoolExpr>, ParseError>(e)
                    && final(parser).tokens() == rest,
            },
    {
        parser.match_lookahead(Tag::LParen)?;
        let b = BoolExpr::parse(parser)?;
        parser.match_lookahead(Tag::RParen)?;
        Ok(b)
    }
}

impl Block {
    /// Parses a block: declarations and statements, in any order, between
    /// braces.
    pub fn parse(parser: &mut Parser) -> (r: Result<Box<Block>, ParseError>)
        ensures
            final(parser).ast_root == old(parser).ast_root,
            match parse_block(old(parser).tokens()) {
                Ok((b, rest)) => r is Ok && r->Ok_0@ == b && final(parser).tokens() == rest,
                Err((e, rest)) => r == Err::<Box<Block>, ParseError>(e)
                    && final(parser).tokens() == rest,
            },
        decreases old(parser).tokens().len(), 0nat,
    {
        let mut decls: Vec<Box<Decl>> = Vec::new();
        let mut stmts: Vec<Box<Statement>> = Vec::new();
        parser.match_lookahead(Tag::OpenBlock)?;
        let ghost mut block = BlockView { decls: Seq::empty(), stmts: Seq::empty() };
        assert(decls_view(decls) =~= block.decls);
        assert(statements_view(stmts) =~= block.stmts);
        loop
            invariant
                parser.ast_root == old(parser).ast_root,
                parser.tokens().len() < old(parser).tokens().len(),
                block.decls == decls_view(decls),
                block.stmts == statements_view(stmts),
                block_items(block, parser.tokens()) == parse_block(old(parser).tokens()),
            ensures
                parser.ast_root == old(parser).ast_root,
                block.decls == decls_view(decls),
                block.stmts == statements_view(stmts),
                parse_block(old(parser).tokens()) == Ok::<(BlockView, Seq<TokenView>), Failure>(
                    (block, parser.tokens().drop_first()),
                ),
                parser.tokens().len() > 0,
                parser.tokens()[0].tag == Tag::CloseBlock,
            decreases parser.tokens().len(),
        {
            let ghost ts = parser.tokens();
            match parser.peek_tag() {
                Tag::Type => {
                    let d = Decl::parse(parser)?;
                    let ghost before = decls;
                    let ghost item = d;
                    decls.push(d);
                    proof {
                        lemma_parse_decl_shrinks(ts);
                        lemma_decls_view_push(before, decls, item);
                        block = BlockView { decls: block.decls.push(item@), ..block };
                    }
                },
                Tag::CloseBlock => {
                    break;
                },
                _ => {
                    let s = Statement::parse(parser)?;
                    let ghost before = stmts;
                    let ghost item = s;
                    stmts.push(s);
                    proof {
                        lemma_parse_statement_shrinks(ts);
                        lemma_statements_view_push(before, stmts, item);
                        block = BlockView { stmts: block.stmts.push(item@), ..block };
                    }
                },
            }
        }
        parser.match_lookahead(Tag::CloseBlock)?;
        Ok(Box::new(Block { decls, stmts }))
    }
}

impl Program {
    /// Parses a program: one block.
    pub fn parse(parser: &mut Parser) -> (r: Result<Box<Program>, ParseError>)
        ensures
            final(parser).ast_root == old(parser).ast_root,
            match parse_program(old(parser).tokens()) {
                Ok((p, rest)) => r is Ok && r->Ok_0@ == p && final(parser).tokens() == rest,
                Err((e, rest)) => r == Err::<Box<Program>, ParseError>(e)
                    && final(parser).tokens() == rest,
            },
    {
        let block = Block::parse(parser)?;
        Ok(Box::new(Program { block }))
    }
}

impl ParseNode for Type {
    type Tree = TypeView;

    open spec fn tree(&self) -> TypeView {
        self@
    }

    open spec fn grammar(ts: Seq<TokenView>) -> Parsed<TypeView> {
        parse_type(ts)
    }

    fn parse(parser: &mut Parser) -> (r: Result<Box<Type>, ParseError>) {
        Type::parse(parser)
    }
}

impl ParseNode for Decl {
    type Tree = DeclView;

    open spec fn tree(&self) -> DeclView {
        self@
    }

    open spec fn grammar(ts: Seq<TokenView>) -> Parsed<DeclView> {
        parse_decl(ts)
    }

    fn parse(parser: &mut Parser) -> (r: Result<Box<Decl>, ParseError>) {
        Decl::parse(parser)
    }
}

impl ParseNode for Statement {
    type Tree = StatementView;

    open spec fn tree(&self) -> StatementView {
        self@
    }

    open spec fn grammar(ts: Seq<TokenView>) -> Parsed<StatementView> {
        parse_statement(ts)
    }

    fn parse(parser: &mut Parser) -> (r: Result<Box<Statement>, ParseError>) {
        Statement::parse(parser)
    }
}

impl ParseNode for Block {
    type Tree = BlockView;

    open spec fn tree(&self) -> BlockView {
        self@
    }

    open spec fn grammar(ts: Seq<TokenView>) -> Parsed<BlockView> {
        parse_block(ts)
    }

    fn parse(parser: &mut Parser) -> (r: Result<Box<Block>, ParseError>) {
        Block::parse(parser)
    }
}

impl ParseNode for Program {
    type Tree = ProgramView;

    open spec fn tree(&self) -> ProgramView {
        self@
    }

    open spec fn grammar(ts: Seq<TokenView>) -> Parsed<ProgramView> {
        parse_program(ts)
    }

    fn parse(parser: &mut Parser) -> (r: Result<Box<Program>, ParseError>) {
        Program::parse(parser)
    }
}

} // verus!
