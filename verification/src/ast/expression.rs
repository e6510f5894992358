//! Expressions and locations.

use vstd::prelude::*;
use crate::code_generator::{Address, AddressMode, CodeGenerator, CodeGenError, OpCode};
use crate::emission::{emit_op, emit_relation, gen_bool, gen_indices, gen_loc, gen_num, Relation};
use crate::grammar::{
    bool_tail, Failure, equality_tail, join_tail, lemma_parse_equality_shrinks, lemma_parse_index_shrinks,
    lemma_parse_join_shrinks, lemma_parse_numexpr_shrinks, lemma_parse_rel_shrinks,
    lemma_parse_term_shrinks, lemma_parse_unary_shrinks, loc_tail, make_loc, numexpr_tail,
    parse_bool, parse_equality, parse_factor, parse_index, parse_join, parse_loc, parse_numexpr,
    parse_parenthesized, parse_rel, parse_term, parse_unary, Parsed, term_tail,
};
use crate::lexer::{Symbol, Tag, TokenView};
use crate::parser::{Expected, ParseError, ParseNode, Parser};

verus! {

/// The four order comparisons.
#[derive(PartialEq, Eq, Debug, Clone, Copy, Structural)]
pub enum Relop {
    Ge,
    Gr,
    Leq,
    Les,
}

/// A boolean expression. Every operand is evaluated; nothing is skipped.
#[derive(PartialEq, Debug)]
pub enum BoolExpr {
    Or(Box<BoolExpr>, Box<BoolExpr>),
    And(Box<BoolExpr>, Box<BoolExpr>),
    Eq(Box<BoolExpr>, Box<BoolExpr>),
    Neq(Box<BoolExpr>, Box<BoolExpr>),
    Relop(Relop, Box<NumExpr>, Box<NumExpr>),
    NumExpr(Box<NumExpr>),
}

/// A numeric expression.
#[derive(PartialEq, Debug)]
pub enum NumExpr {
    Add(Box<NumExpr>, Box<NumExpr>),
    Sub(Box<NumExpr>, Box<NumExpr>),
    Mul(Box<NumExpr>, Box<NumExpr>),
    Div(Box<NumExpr>, Box<NumExpr>),
    Not(Box<NumExpr>),
    Minus(Box<NumExpr>),
    /// A boolean expression in parentheses.
    Expr(Box<BoolExpr>),
    Loc(Box<Loc>),
    Num(u32),
    True,
    False,
}

/// A location: a variable, or an element of an array.
#[derive(PartialEq, Debug)]
pub enum Loc {
    Index(String, Vec<Box<BoolExpr>>),
    Ide(String),
}

/// The mathematical value of a [`BoolExpr`].
pub enum BoolExprView {
    Or(Box<BoolExprView>, Box<BoolExprView>),
    And(Box<BoolExprView>, Box<BoolExprView>),
    Eq(Box<BoolExprView>, Box<BoolExprView>),
    Neq(Box<BoolExprView>, Box<BoolExprView>),
    Relop(Relop, Box<NumExprView>, Box<NumExprView>),
    NumExpr(Box<NumExprView>),
}

/// The mathematical value of a [`NumExpr`].
pub enum NumExprView {
    Add(Box<NumExprView>, Box<NumExprView>),
    Sub(Box<NumExprView>, Box<NumExprView>),
    Mul(Box<NumExprView>, Box<NumExprView>),
    Div(Box<NumExprView>, Box<NumExprView>),
    Not(Box<NumExprView>),
    Minus(Box<NumExprView>),
    Expr(Box<BoolExprView>),
    Loc(LocView),
    Num(u32),
    True,
    False,
}

/// The mathematical value of a [`Loc`]: names are sequences of characters.
pub enum LocView {
    Index(Seq<char>, Seq<BoolExprView>),
    Ide(Seq<char>),
}

/// The value of a boolean expression.
pub open spec fn bool_view(e: BoolExpr) -> BoolExprView
    decreases e,
{
    match e {
        BoolExpr::Or(a, b) => BoolExprView::Or(Box::new(bool_view(*a)), Box::new(bool_view(*b))),
        BoolExpr::And(a, b) => BoolExprView::And(Box::new(bool_view(*a)), Box::new(bool_view(*b))),
        BoolExpr::Eq(a, b) => BoolExprView::Eq(Box::new(bool_view(*a)), Box::new(bool_view(*b))),
        BoolExpr::Neq(a, b) => BoolExprView::Neq(Box::new(bool_view(*a)), Box::new(bool_view(*b))),
        BoolExpr::Relop(r, a, b) => BoolExprView::Relop(
            r,
            Box::new(num_view(*a)),
            Box::new(num_view(*b)),
        ),
        BoolExpr::NumExpr(a) => BoolExprView::NumExpr(Box::new(num_view(*a))),
    }
}

/// The value of a numeric expression.
pub open spec fn num_view(e: NumExpr) -> NumExprView
    decreases e,
{
    match e {
        NumExpr::Add(a, b) => NumExprView::Add(Box::new(num_view(*a)), Box::new(num_view(*b))),
        NumExpr::Sub(a, b) => NumExprView::Sub(Box::new(num_view(*a)), Box::new(num_view(*b))),
        NumExpr::Mul(a, b) => NumExprView::Mul(Box::new(num_view(*a)), Box::new(num_view(*b))),
        NumExpr::Div(a, b) => NumExprView::Div(Box::new(num_view(*a)), Box::new(num_view(*b))),
        NumExpr::Not(a) => NumExprView::Not(Box::new(num_view(*a))),
        NumExpr::Minus(a) => NumExprView::Minus(Box::new(num_view(*a))),
        NumExpr::Expr(a) => NumExprView::Expr(Box::new(bool_view(*a))),
        NumExpr::Loc(l) => NumExprView::Loc(loc_view(*l)),
        NumExpr::Num(x) => NumExprView::Num(x),
        NumExpr::True => NumExprView::True,
        NumExpr::False => NumExprView::False,
    }
}

/// The values of a list of index expressions.
pub open spec fn indices_view(v: Vec<Box<BoolExpr>>) -> Seq<BoolExprView>
    decreases v,
{
    Seq::new(
        v.len() as nat,
        |i: int|
            if 0 <= i < v.len() {
                bool_view(*v[i])
            } else {
                arbitrary()
            },
    )
}

/// The value of a location.
pub open spec fn loc_view(l: Loc) -> LocView
    decreases l,
{
    match l {
        Loc::Index(s, v) => LocView::Index(s@, indices_view(v)),
        Loc::Ide(s) => LocView::Ide(s@),
    }
}

impl View for BoolExpr {
    type V = BoolExprView;

    open spec fn view(&self) -> BoolExprView {
        bool_view(*self)
    }
}

impl View for NumExpr {
    type V = NumExprView;

    open spec fn view(&self) -> NumExprView {
        num_view(*self)
    }
}

impl View for Loc {
    type V = LocView;

    open spec fn view(&self) -> LocView {
        loc_view(*self)
    }
}

/// What the code generation of an expression yields: the address of its value.
#[derive(PartialEq, Eq, Debug, Clone, Copy, Structural)]
pub struct ExprAttributes {
    pub place: Address,
}

impl ExprAttributes {
    /// The attributes of an expression whose value is at `addr`.
    pub fn new(addr: Address) -> (attr: ExprAttributes)
        ensures
            attr.place == addr,
    {
        ExprAttributes { place: addr }
    }
}

impl BoolExpr {
    /// Emits the instructions that evaluate the expression, and returns the
    /// address of its value.
    pub fn generate_code(&self, code_gen: &mut CodeGenerator) -> (r: Result<
        ExprAttributes,
        CodeGenError,
    >)
        requires
            old(code_gen).wf(),
        ensures
            final(code_gen).wf(),
            final(code_gen).parser() == old(code_gen).parser(),
            match gen_bool(self@, old(code_gen)@) {
                Ok((place, after)) => r == Ok::<ExprAttributes, CodeGenError>(
                    ExprAttributes { place },
                ) && final(code_gen)@ == after,
                Err((e, after)) => r == Err::<ExprAttributes, CodeGenError>(e)
                    && final(code_gen)@ == after,
            },
        decreases self,
    {
        match self {
            BoolExpr::Or(e1, e2) => {
                let a1 = e1.generate_code(code_gen)?;
                let a2 = e2.generate_code(code_gen)?;
                let tmp = emit_op(code_gen, OpCode::Or, a1.place, a2.place)?;
                Ok(ExprAttributes::new(tmp))
            },
            BoolExpr::And(e1, e2) => {
                let a1 = e1.generate_code(code_gen)?;
                let a2 = e2.generate_code(code_gen)?;
                let tmp = emit_op(code_gen, OpCode::And, a1.place, a2.place)?;
                Ok(ExprAttributes::new(tmp))
            },
            BoolExpr::Eq(e1, e2) => {
                let a1 = e1.generate_code(code_gen)?;
                let a2 = e2.generate_code(code_gen)?;
                let tmp = emit_relation(code_gen, Relation::Equal, a1.place, a2.place)?;
                Ok(ExprAttributes::new(tmp))
            },
            BoolExpr::Neq(e1, e2) => {
                let a1 = e1.generate_code(code_gen)?;
                let a2 = e2.generate_code(code_gen)?;
                let tmp = emit_relation(code_gen, Relation::NotEqual, a1.place, a2.place)?;
                Ok(ExprAttributes::new(tmp))
            },
            BoolExpr::Relop(rel, e1, e2) => {
                let a1 = e1.generate_code(code_gen)?;
                let a2 = e2.generate_code(code_gen)?;
                let tmp = emit_relation(
                    code_gen,
                    Relation::from_relop(*rel),
                    a1.place,
                    a2.place,
                )?;
                Ok(ExprAttributes::new(tmp))
            },
            BoolExpr::NumExpr(e1) => e1.generate_code(code_gen),
        }
    }
}

impl NumExpr {
    /// Emits the instructions that evaluate the expression, and returns the
    /// address of its value.
    pub fn generate_code(&self, code_gen: &mut CodeGenerator) -> (r: Result<
        ExprAttributes,
        CodeGenError,
    >)
        requires
            old(code_gen).wf(),
        ensures
            final(code_gen).wf(),
            final(code_gen).parser() == old(code_gen).parser(),
            match gen_num(self@, old(code_gen)@) {
                Ok((place, after)) => r == Ok::<ExprAttributes, CodeGenError>(
                    ExprAttributes { place },
                ) && final(code_gen)@ == after,
                Err((e, after)) => r == Err::<ExprAttributes, CodeGenError>(e)
                    && final(code_gen)@ == after,
            },
        decreases self,
    {
        match self {
            NumExpr::Add(e1, e2) => {
                let a1 = e1.generate_code(code_gen)?;
                let a2 = e2.generate_code(code_gen)?;
                let tmp = emit_op(code_gen, OpCode::Add, a1.place, a2.place)?;
                Ok(ExprAttributes::new(tmp))
            },
            NumExpr::Sub(e1, e2) => {
                let a1 = e1.generate_code(code_gen)?;
                let a2 = e2.generate_code(code_gen)?;
                let tmp = emit_op(code_gen, OpCode::Sub, a1.place, a2.place)?;
                Ok(ExprAttributes::new(tmp))
            },
            NumExpr::Mul(e1, e2) => {
                let a1 = e1.generate_code(code_gen)?;
                let a2 = e2.generate_code(code_gen)?;
                let tmp = emit_op(code_gen, OpCode::Mul, a1.place, a2.place)?;
                Ok(ExprAttributes::new(tmp))
            },
            NumExpr::Div(e1, e2) => {
                let a1 = e1.generate_code(code_gen)?;
                let a2 = e2.generate_code(code_gen)?;
                let tmp = emit_op(code_gen, OpCode::Div, a1.place, a2.place)?;
                Ok(ExprAttributes::new(tmp))
            },
            NumExpr::Not(e1) => {
                let a1 = e1.generate_code(code_gen)?;
                let tmp = emit_op(code_gen, OpCode::Not, a1.place, a1.place)?;
                Ok(ExprAttributes::new(tmp))
            },
            NumExpr::Minus(e1) => {
                let a1 = e1.generate_code(code_gen)?;
                let tmp = emit_op(code_gen, OpCode::Minus, a1.place, a1.place)?;
                Ok(ExprAttributes::new(tmp))
            },
            NumExpr::Expr(e1) => e1.generate_code(code_gen),
            NumExpr::Loc(l) => l.generate_code(code_gen),
            NumExpr::Num(x) => {
                if *x > i32::MAX as u32 {
                    Err(CodeGenError::ConstantTooLarge)
                } else {
                    Ok(ExprAttributes::new(Address::new_constant(*x as i32)))
                }
            },
            NumExpr::True => Ok(ExprAttributes::new(Address::new_constant(1))),
            NumExpr::False => Ok(ExprAttributes::new(Address::new_constant(0))),
        }
    }
}

impl Loc {
    /// Emits the instructions that add to `base`, for each index in turn,
    /// the index times the stride of its dimension, and returns the address
    /// of the sum. The stride of the first index is `strides[1]`.
    pub fn index_code(
        v: &Vec<Box<BoolExpr>>,
        strides: &Vec<u32>,
        base: Address,
        code_gen: &mut CodeGenerator,
    ) -> (r: Result<Address, CodeGenError>)
        requires
            old(code_gen).wf(),
            v.len() < strides.len(),
        ensures
            final(code_gen).wf(),
            final(code_gen).parser() == old(code_gen).parser(),
            match gen_indices(indices_view(*v), strides@.drop_first(), base, old(code_gen)@) {
                Ok((offset, after)) => r == Ok::<Address, CodeGenError>(offset)
                    && final(code_gen)@ == after,
                Err((e, after)) => r == Err::<Address, CodeGenError>(e)
                    && final(code_gen)@ == after,
            },
        decreases v,
    {
        let ghost indices = indices_view(*v);
        let ghost goal = gen_indices(indices, strides@.drop_first(), base, code_gen@);
        proof {
            lemma_indices_view(*v);
        }
        let mut acc = base;
        let mut i: usize = 0;
        assert(indices.skip(0) == indices);
        assert(strides@.skip(1) == strides@.drop_first());
        while i < v.len()
            invariant
                i <= v.len() < strides.len(),
                indices == indices_view(*v),
                indices.len() == v.len(),
                forall|k: int| 0 <= k < v.len() ==> #[trigger] indices[k] == v[k]@,
                code_gen.wf(),
                code_gen.parser() == old(code_gen).parser(),
                goal == gen_indices(indices, strides@.drop_first(), base, old(code_gen)@),
                gen_indices(indices.skip(i as int), strides@.skip(i + 1), acc, code_gen@) == goal,
            decreases v.len() - i,
        {
            proof {
                assert(indices.skip(i as int).drop_first() == indices.skip(i + 1));
                assert(strides@.skip(i + 1).drop_first() == strides@.skip(i + 2));
                assert(indices.skip(i as int)[0] == v[i as int]@);
                assert(strides@.skip(i + 1)[0] == strides[i + 1]);
            }
            let a = v[i].generate_code(code_gen)?;
            let stride = strides[i + 1];
            if stride > i32::MAX as u32 {
                return Err(CodeGenError::ConstantTooLarge);
            }
            let m = emit_op(code_gen, OpCode::Mul, a.place, Address::new_constant(stride as i32))?;
            acc = emit_op(code_gen, OpCode::Add, acc, m)?;
            i = i + 1;
        }
        Ok(acc)
    }

    /// Returns the address of the location. For an element of an array the
    /// instructions that compute its offset are emitted first.
    pub fn generate_code(&self, code_gen: &mut CodeGenerator) -> (r: Result<
        ExprAttributes,
        CodeGenError,
    >)
        requires
            old(code_gen).wf(),
        ensures
            final(code_gen).wf(),
            final(code_gen).parser() == old(code_gen).parser(),
            match gen_loc(self@, old(code_gen)@) {
                Ok((place, after)) => r == Ok::<ExprAttributes, CodeGenError>(
                    ExprAttributes { place },
                ) && final(code_gen)@ == after,
                Err((e, after)) => r == Err::<ExprAttributes, CodeGenError>(e)
                    && final(code_gen)@ == after,
            },
        decreases self,
    {
        match self {
            Loc::Index(s, v) => {
                let info = match code_gen.resolve(s.as_str()) {
                    Some(info) => info,
                    None => {
                        return Err(CodeGenError::Undeclared);
                    },
                };
                let strides = info.typeinfo.dim_width;
                if info.address.mode != AddressMode::FramePointer || v.len() >= strides.len() {
                    return Err(CodeGenError::BadIndex);
                }
                let base = Address::new_constant(info.address.place);
                let offset = Loc::index_code(v, &strides, base, code_gen)?;
                let p = code_gen.new_pointer()?;
                code_gen.emit(
                    OpCode::Mov,
                    Address { mode: AddressMode::Register, place: p.place },
                    offset,
                    offset,
                )?;
                Ok(ExprAttributes::new(p))
            },
            Loc::Ide(s) => {
                match code_gen.resolve(s.as_str()) {
                    Some(info) => Ok(ExprAttributes::new(info.address)),
                    None => Err(CodeGenError::Undeclared),
                }
            },
        }
    }
}

impl BoolExpr {
    /// Parses a boolean expression: a chain of `||`.
    pub fn parse(parser: &mut Parser) -> (r: Result<Box<BoolExpr>, ParseError>)
        ensures
            final(parser).ast_root == old(parser).ast_root,
            match parse_bool(old(parser).tokens()) {
                Ok((e, rest)) => r is Ok && r->Ok_0@ == e && final(parser).tokens() == rest,
                Err((e, rest)) => r == Err::<Box<BoolExpr>, ParseError>(e)
                    && final(parser).tokens() == rest,
            },
        decreases old(parser).tokens().len(), 20nat,
    {
        let ghost start = parser.tokens();
        let mut x = BoolExpr::join(parser)?;
        proof {
            lemma_parse_join_shrinks(start);
        }
        while parser.peek_symbol() == Symbol::Or
            invariant
                parser.ast_root == old(parser).ast_root,
                parser.tokens().len() <= old(parser).tokens().len(),
                bool_tail(x@, parser.tokens()) == parse_bool(old(parser).tokens()),
            decreases parser.tokens().len(),
        {
            let ghost ts = parser.tokens();
            parser.shift_lookahead();
            let y = BoolExpr::join(parser)?;
            proof {
                lemma_parse_join_shrinks(ts.drop_first());
            }
            x = Box::new(BoolExpr::Or(x, y));
        }
        Ok(x)
    }

    /// Parses a chain of `&&`.
    pub fn join(parser: &mut Parser) -> (r: Result<Box<BoolExpr>, ParseError>)
        ensures
            final(parser).ast_root == old(parser).ast_root,
            match parse_join(old(parser).tokens()) {
                Ok((e, rest)) => r is Ok && r->Ok_0@ == e && final(parser).tokens() == rest,
                Err((e, rest)) => r == Err::<Box<BoolExpr>, ParseError>(e)
                    && final(parser).tokens() == rest,
            },
        decreases old(parser).tokens().len(), 18nat,
    {
        let ghost start = parser.tokens();
        let mut x = BoolExpr::equality(parser)?;
        proof {
            lemma_parse_equality_shrinks(start);
        }
        while parser.peek_symbol() == Symbol::And
            invariant
                parser.ast_root == old(parser).ast_root,
                parser.tokens().len() <= old(parser).tokens().len(),
                join_tail(x@, parser.tokens()) == parse_join(old(parser).tokens()),
            decreases parser.tokens().len(),
        {
            let ghost ts = parser.tokens();
            parser.shift_lookahead();
            let y = BoolExpr::equality(parser)?;
            proof {
                lemma_parse_equality_shrinks(ts.drop_first());
            }
            x = Box::new(BoolExpr::And(x, y));
        }
        Ok(x)
    }

    /// Parses a chain of `==` and `!=`.
    pub fn equality(parser: &mut Parser) -> (r: Result<Box<BoolExpr>, ParseError>)
        ensures
            final(parser).ast_root == old(parser).ast_root,
            match parse_equality(old(parser).tokens()) {
                Ok((e, rest)) => r is Ok && r->Ok_0@ == e && final(parser).tokens() == rest,
                Err((e, rest)) => r == Err::<Box<BoolExpr>, ParseError>(e)
                    && final(parser).tokens() == rest,
            },
        decreases old(parser).tokens().len(), 16nat,
    {
        let ghost start = parser.tokens();
        let mut x = BoolExpr::rel(parser)?;
        proof {
            lemma_parse_rel_shrinks(start);
        }
        loop
            invariant
                parser.ast_root == old(parser).ast_root,
                parser.tokens().len() <= old(parser).tokens().len(),
                equality_tail(x@, parser.tokens()) == parse_equality(old(parser).tokens()),
            ensures
                parser.ast_root == old(parser).ast_root,
                Ok::<(BoolExprView, Seq<TokenView>), Failure>(
                    (x@, parser.tokens()),
                ) == parse_equality(old(parser).tokens()),
            decreases parser.tokens().len(),
        {
            let op = parser.peek_symbol();
            if op != Symbol::Equ && op != Symbol::Neq {
                break;
            }
            let ghost ts = parser.tokens();
            parser.shift_lookahead();
            let y = BoolExpr::rel(parser)?;
            proof {
                lemma_parse_rel_shrinks(ts.drop_first());
            }
            if op == Symbol::Equ {
                x = Box::new(BoolExpr::Eq(x, y));
            } else {
                x = Box::new(BoolExpr::Neq(x, y));
            }
        }
        Ok(x)
    }

    /// Parses a boolean expression in parentheses.
    pub fn parenthesized(parser: &mut Parser) -> (r: Result<Box<BoolExpr>, ParseError>)
        ensures
            final(parser).ast_root == old(parser).ast_root,
            match parse_parenthesized(old(parser).tokens()) {
                Ok((e, rest)) => r is Ok && r->Ok_0@ == e && final(parser).tokens() == rest,
                Err((e, rest)) => r == Err::<Box<BoolExpr>, ParseError>(e)
                    && final(parser).tokens() == rest,
            },
        decreases old(parser).tokens().len(), 4nat,
    {
        parser.match_lookahead(Tag::LParen)?;
        let b = BoolExpr::parse(parser)?;
        parser.match_lookahead(Tag::RParen)?;
        Ok(b)
    }

    /// Parses a boolean expression in brackets.
    pub fn index(parser: &mut Parser) -> (r: Result<Box<BoolExpr>, ParseError>)
        ensures
            final(parser).ast_root == old(parser).ast_root,
            match parse_index(old(parser).tokens()) {
                Ok((e, rest)) => r is Ok && r->Ok_0@ == e && final(parser).tokens() == rest,
                Err((e, rest)) => r == Err::<Box<BoolExpr>, ParseError>(e)
                    && final(parser).tokens() == rest,
            },
        decreases old(parser).tokens().len(), 4nat,
    {
        parser.match_lookahead(Tag::LArrParen)?;
        let b = BoolExpr::parse(parser)?;
        parser.match_lookahead(Tag::RArrParen)?;
        Ok(b)
    }

    /// Parses a numeric expression, or one comparison of two.
    pub fn rel(parser: &mut Parser) -> (r: Result<Box<BoolExpr>, ParseError>)
        ensures
            final(parser).ast_root == old(parser).ast_root,
            match parse_rel(old(parser).tokens()) {
                Ok((e, rest)) => r is Ok && r->Ok_0@ == e && final(parser).tokens() == rest,
                Err((e, rest)) => r == Err::<Box<BoolExpr>, ParseError>(e)
                    && final(parser).tokens() == rest,
            },
        decreases old(parser).tokens().len(), 14nat,
    {
        let ghost start = parser.tokens();
        let x = NumExpr::parse(parser)?;
        proof {
            lemma_parse_numexpr_shrinks(start);
        }
        let op = match parser.peek_symbol() {
            Symbol::Ge => Relop::Ge,
            Symbol::Gr => Relop::Gr,
            Symbol::Leq => Relop::Leq,
            Symbol::Les => Relop::Les,
            _ => {
                return Ok(Box::new(BoolExpr::NumExpr(x)));
            },
        };
        parser.shift_lookahead();
        let y = NumExpr::parse(parser)?;
        Ok(Box::new(BoolExpr::Relop(op, x, y)))
    }
}

impl NumExpr {
    /// Parses a numeric expression: a chain of `+` and `-`.
    pub fn parse(parser: &mut Parser) -> (r: Result<Box<NumExpr>, ParseError>)
        ensures
            final(parser).ast_root == old(parser).ast_root,
            match parse_numexpr(old(parser).tokens()) {
                Ok((e, rest)) => r is Ok && r->Ok_0@ == e && final(parser).tokens() == rest,
                Err((e, rest)) => r == Err::<Box<NumExpr>, ParseError>(e)
                    && final(parser).tokens() == rest,
            },
        decreases old(parser).tokens().len(), 12nat,
    {
        let ghost start = parser.tokens();
        let mut x = NumExpr::term(parser)?;
        proof {
            lemma_parse_term_shrinks(start);
        }
        loop
            invariant
                parser.ast_root == old(parser).ast_root,
                parser.tokens().len() <= old(parser).tokens().len(),
                numexpr_tail(x@, parser.tokens()) == parse_numexpr(old(parser).tokens()),
            ensures
                parser.ast_root == old(parser).ast_root,
                Ok::<(NumExprView, Seq<TokenView>), Failure>(
                    (x@, parser.tokens()),
                ) == parse_numexpr(old(parser).tokens()),
            decreases parser.tokens().len(),
        {
            let op = parser.peek_symbol();
            if op != Symbol::Add && op != Symbol::Sub {
                break;
            }
            let ghost ts = parser.tokens();
            parser.shift_lookahead();
            let y = NumExpr::term(parser)?;
            proof {
                lemma_parse_term_shrinks(ts.drop_first());
            }
            if op == Symbol::Add {
                x = Box::new(NumExpr::Add(x, y));
            } else {
                x = Box::new(NumExpr::Sub(x, y));
            }
        }
        Ok(x)
    }

    /// Parses a chain of `*` and `/`.
    pub fn term(parser: &mut Parser) -> (r: Result<Box<NumExpr>, ParseError>)
        ensures
            final(parser).ast_root == old(parser).ast_root,
            match parse_term(old(parser).tokens()) {
                Ok((e, rest)) => r is Ok && r->Ok_0@ == e && final(parser).tokens() == rest,
                Err((e, rest)) => r == Err::<Box<NumExpr>, ParseError>(e)
                    && final(parser).tokens() == rest,
            },
        decreases old(parser).tokens().len(), 10nat,
    {
        let ghost start = parser.tokens();
        let mut x = NumExpr::unary(parser)?;
        proof {
            lemma_parse_unary_shrinks(start);
        }
        loop
            invariant
                parser.ast_root == old(parser).ast_root,
                parser.tokens().len() <= old(parser).tokens().len(),
                term_tail(x@, parser.tokens()) == parse_term(old(parser).tokens()),
            ensures
                parser.ast_root == old(parser).ast_root,
                Ok::<(NumExprView, Seq<TokenView>), Failure>(
                    (x@, parser.tokens()),
                ) == parse_term(old(parser).tokens()),
            decreases parser.tokens().len(),
        {
            let op = parser.peek_symbol();
            if op != Symbol::Mul && op != Symbol::Div {
                break;
            }
            let ghost ts = parser.tokens();
            parser.shift_lookahead();
            let y = NumExpr::unary(parser)?;
            proof {
                lemma_parse_unary_shrinks(ts.drop_first());
            }
            if op == Symbol::Mul {
                x = Box::new(NumExpr::Mul(x, y));
            } else {
                x = Box::new(NumExpr::Div(x, y));
            }
        }
        Ok(x)
    }

    /// Parses a factor behind any number of `-` and `!`.
    pub fn unary(parser: &mut Parser) -> (r: Result<Box<NumExpr>, ParseError>)
        ensures
            final(parser).ast_root == old(parser).ast_root,
            match parse_unary(old(parser).tokens()) {
                Ok((e, rest)) => r is Ok && r->Ok_0@ == e && final(parser).tokens() == rest,
                Err((e, rest)) => r == Err::<Box<NumExpr>, ParseError>(e)
                    && final(parser).tokens() == rest,
            },
        decreases old(parser).tokens().len(), 8nat,
    {
        match parser.peek_symbol() {
            Symbol::Sub => {
                parser.shift_lookahead();
                let x = NumExpr::unary(parser)?;
                Ok(Box::new(NumExpr::Minus(x)))
            },
            Symbol::Not => {
                parser.shift_lookahead();
                let x = NumExpr::unary(parser)?;
                Ok(Box::new(NumExpr::Not(x)))
            },
            _ => NumExpr::factor(parser),
        }
    }

    /// Parses a location, a literal, or an expression in parentheses.
    pub fn factor(parser: &mut Parser) -> (r: Result<Box<NumExpr>, ParseError>)
        ensures
            final(parser).ast_root == old(parser).ast_root,
            match parse_factor(old(parser).tokens()) {
                Ok((e, rest)) => r is Ok && r->Ok_0@ == e && final(parser).tokens() == rest,
                Err((e, rest)) => r == Err::<Box<NumExpr>, ParseError>(e)
                    && final(parser).tokens() == rest,
            },
        decreases old(parser).tokens().len(), 7nat,
    {
        match parser.peek_tag() {
            Tag::Ide => {
                let l = Loc::parse(parser)?;
                Ok(Box::new(NumExpr::Loc(l)))
            },
            Tag::Num => {
                let x = parser.take_number()?;
                Ok(Box::new(NumExpr::Num(x)))
            },
            Tag::True => {
                parser.shift_lookahead();
                Ok(Box::new(NumExpr::True))
            },
            Tag::False => {
                parser.shift_lookahead();
                Ok(Box::new(NumExpr::False))
            },
            Tag::LParen => {
                let b = BoolExpr::parenthesized(parser)?;
                Ok(Box::new(NumExpr::Expr(b)))
            },
            found => Err(ParseError::Unexpected { expected: Expected::Factor, found }),
        }
    }
}

/// The values of a list of indices with one more at its end.
pub proof fn lemma_indices_view_push(v: Vec<Box<BoolExpr>>, w: Vec<Box<BoolExpr>>, b: Box<BoolExpr>)
    requires
        w@ == v@.push(b),
    ensures
        indices_view(w) == indices_view(v).push(b@),
{
    assert(indices_view(w) =~= indices_view(v).push(b@));
}

/// The values of a list of indices are the values of its members.
pub proof fn lemma_indices_view(v: Vec<Box<BoolExpr>>)
    ensures
        indices_view(v).len() == v.len(),
        forall|i: int| 0 <= i < v.len() ==> #[trigger] indices_view(v)[i] == v[i]@,
{
}

impl Loc {
    /// Parses an identifier with any number of indices in brackets.
    pub fn parse(parser: &mut Parser) -> (r: Result<Box<Loc>, ParseError>)
        ensures
            final(parser).ast_root == old(parser).ast_root,
            match parse_loc(old(parser).tokens()) {
                Ok((l, rest)) => r is Ok && r->Ok_0@ == l && final(parser).tokens() == rest,
                Err((e, rest)) => r == Err::<Box<Loc>, ParseError>(e)
                    && final(parser).tokens() == rest,
            },
        decreases old(parser).tokens().len(), 6nat,
    {
        let s = parser.take_identifier()?;
        let mut v: Vec<Box<BoolExpr>> = Vec::new();
        let ghost mut indices: Seq<BoolExprView> = Seq::empty();
        assert(indices_view(v) =~= indices);
        while parser.peek_tag() == Tag::LArrParen
            invariant
                parser.ast_root == old(parser).ast_root,
                parser.tokens().len() < old(parser).tokens().len(),
                indices == indices_view(v),
                make_loc(s@, loc_tail(indices, parser.tokens())) == parse_loc(
                    old(parser).tokens(),
                ),
            decreases parser.tokens().len(),
        {
            let ghost ts = parser.tokens();
            let b = BoolExpr::index(parser)?;
            let ghost before = v;
            let ghost index = b;
            v.push(b);
            proof {
                lemma_parse_index_shrinks(ts);
                lemma_indices_view_push(before, v, index);
                indices = indices.push(index@);
            }
        }
        if v.len() > 0 {
            Ok(Box::new(Loc::Index(s, v)))
        } else {
            Ok(Box::new(Loc::Ide(s)))
        }
    }
}

impl ParseNode for BoolExpr {
    type Tree = BoolExprView;

    open spec fn tree(&self) -> BoolExprView {
        self@
    }

    open spec fn grammar(ts: Seq<TokenView>) -> Parsed<BoolExprView> {
        parse_bool(ts)
    }

    fn parse(parser: &mut Parser) -> (r: Result<Box<BoolExpr>, ParseError>) {
        BoolExpr::parse(parser)
    }
}

impl ParseNode for NumExpr {
    type Tree = NumExprView;

    open spec fn tree(&self) -> NumExprView {
        self@
    }

    open spec fn grammar(ts: Seq<TokenView>) -> Parsed<NumExprView> {
        parse_numexpr(ts)
    }

    fn parse(parser: &mut Parser) -> (r: Result<Box<NumExpr>, ParseError>) {
        NumExpr::parse(parser)
    }
}

impl ParseNode for Loc {
    type Tree = LocView;

    open spec fn tree(&self) -> LocView {
        self@
    }

    open spec fn grammar(ts: Seq<TokenView>) -> Parsed<LocView> {
        parse_loc(ts)
    }

    fn parse(parser: &mut Parser) -> (r: Result<Box<Loc>, ParseError>) {
        Loc::parse(parser)
    }
}

} // verus!
