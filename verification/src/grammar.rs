//! The grammar of the language, as functions from a sequence of tokens to
//! a syntax tree and the tokens that are left.
//!
//! From the lowest precedence to the highest:
//!
//! ```text
//! bool       := join ( '||' join )*
//! join       := equality ( '&&' equality )*
//! equality   := relational ( ('==' | '!=') relational )*
//! relational := numexpr ( ('>=' | '>' | '<=' | '<') numexpr )?
//! numexpr    := term ( ('+' | '-') term )*
//! term       := unary ( ('*' | '/') unary )*
//! unary      := ('-' | '!') unary | factor
//! factor     := loc | number | 'True' | 'False' | '(' bool ')'
//! loc        := identifier ( '[' bool ']' )*
//! type       := ('int' | 'float') ( '[' number ']' )*
//! decl       := type identifier ';'
//! statement  := loc '=' bool ';' | 'if' '(' bool ')' statement ( 'else' statement )?
//!             | 'while' '(' bool ')' statement | 'break' ';' | block
//! block      := '{' ( decl | statement )* '}'
//! program    := block
//! ```
//!
//! A chain of operators of one level leans to the left. Behind the last token
//! of a sequence stands `Eof`.
//!
//! Where one of these functions goes on with the tokens that another has
//! left, it first compares their number with the number that it was given.
//! The comparison is there to show that the functions end, and it never
//! fails: whatever is parsed uses up at least one token, as the lemmas at
//! the end of this file show.

use vstd::prelude::*;
use crate::ast::expression::{BoolExprView, LocView, NumExprView, Relop};
use crate::ast::statement::{BasicType, BlockView, DeclView, ProgramView, StatementView, TypeView};
use crate::lexer::{Symbol, Tag, TokenInfoView, TokenView};
use crate::parser::{Expected, next_symbol, ParseError, peek};

verus! {

/// Where parsing stops: the first error, and the tokens in front of which
/// it was found.
pub type Failure = (ParseError, Seq<TokenView>);

/// What parsing yields: a value and the tokens behind it, or the first
/// error and the tokens in front of which it was found.
pub type Parsed<T> = Result<(T, Seq<TokenView>), Failure>;

/// The error of a token sequence that does not start with `expected`. The
/// token that is found stays where it is.
pub open spec fn unexpected(expected: Expected, ts: Seq<TokenView>) -> Failure {
    (ParseError::Unexpected { expected, found: peek(ts).tag }, ts)
}

/// The tokens behind the first, which must have the tag `tag`.
pub open spec fn expect(tag: Tag, ts: Seq<TokenView>) -> Result<Seq<TokenView>, Failure> {
    if ts.len() > 0 && ts[0].tag == tag {
        Ok(ts.drop_first())
    } else {
        Err(unexpected(Expected::Tag(tag), ts))
    }
}

/// The name of the identifier that `ts` starts with.
pub open spec fn expect_identifier(ts: Seq<TokenView>) -> Parsed<Seq<char>> {
    if ts.len() > 0 && ts[0].tag == Tag::Ide {
        match ts[0].info {
            TokenInfoView::Ide(name) => Ok((name, ts.drop_first())),
            _ => Err(unexpected(Expected::Tag(Tag::Ide), ts)),
        }
    } else {
        Err(unexpected(Expected::Tag(Tag::Ide), ts))
    }
}

/// The value of the number that `ts` starts with.
pub open spec fn expect_number(ts: Seq<TokenView>) -> Parsed<u32> {
    if ts.len() > 0 && ts[0].tag == Tag::Num {
        match ts[0].info {
            TokenInfoView::Num(x) => Ok((x, ts.drop_first())),
            _ => Err(unexpected(Expected::Tag(Tag::Num), ts)),
        }
    } else {
        Err(unexpected(Expected::Tag(Tag::Num), ts))
    }
}

/// `bool := join ( '||' join )*`
pub open spec fn parse_bool(ts: Seq<TokenView>) -> Parsed<BoolExprView>
    decreases ts.len(), 20nat,
{
    match parse_join(ts) {
        Err(e) => Err(e),
        Ok((x, rest)) => if rest.len() <= ts.len() {
            bool_tail(x, rest)
        } else {
            Ok((x, rest))
        },
    }
}

/// `( '||' join )*` behind the operand `lhs`.
pub open spec fn bool_tail(lhs: BoolExprView, ts: Seq<TokenView>) -> Parsed<BoolExprView>
    decreases ts.len(), 19nat,
{
    if next_symbol(ts) == Symbol::Or {
        match parse_join(ts.drop_first()) {
            Err(e) => Err(e),
            Ok((rhs, rest)) => {
                let x = BoolExprView::Or(Box::new(lhs), Box::new(rhs));
                if rest.len() < ts.len() {
                    bool_tail(x, rest)
                } else {
                    Ok((x, rest))
                }
            },
        }
    } else {
        Ok((lhs, ts))
    }
}

/// `join := equality ( '&&' equality )*`
pub open spec fn parse_join(ts: Seq<TokenView>) -> Parsed<BoolExprView>
    decreases ts.len(), 18nat,
{
    match parse_equality(ts) {
        Err(e) => Err(e),
        Ok((x, rest)) => if rest.len() <= ts.len() {
            join_tail(x, rest)
        } else {
            Ok((x, rest))
        },
    }
}

/// `( '&&' equality )*` behind the operand `lhs`.
pub open spec fn join_tail(lhs: BoolExprView, ts: Seq<TokenView>) -> Parsed<BoolExprView>
    decreases ts.len(), 17nat,
{
    if next_symbol(ts) == Symbol::And {
        match parse_equality(ts.drop_first()) {
            Err(e) => Err(e),
            Ok((rhs, rest)) => {
                let x = BoolExprView::And(Box::new(lhs), Box::new(rhs));
                if rest.len() < ts.len() {
                    join_tail(x, rest)
                } else {
                    Ok((x, rest))
                }
            },
        }
    } else {
        Ok((lhs, ts))
    }
}

/// `equality := relational ( ('==' | '!=') relational )*`
pub open spec fn parse_equality(ts: Seq<TokenView>) -> Parsed<BoolExprView>
    decreases ts.len(), 16nat,
{
    match parse_rel(ts) {
        Err(e) => Err(e),
        Ok((x, rest)) => if rest.len() <= ts.len() {
            equality_tail(x, rest)
        } else {
            Ok((x, rest))
        },
    }
}

/// `( ('==' | '!=') relational )*` behind the operand `lhs`.
pub open spec fn equality_tail(lhs: BoolExprView, ts: Seq<TokenView>) -> Parsed<BoolExprView>
    decreases ts.len(), 15nat,
{
    let op = next_symbol(ts);
    if op == Symbol::Equ || op == Symbol::Neq {
        match parse_rel(ts.drop_first()) {
            Err(e) => Err(e),
            Ok((rhs, rest)) => {
                let x = if op == Symbol::Equ {
                    BoolExprView::Eq(Box::new(lhs), Box::new(rhs))
                } else {
                    BoolExprView::Neq(Box::new(lhs), Box::new(rhs))
                };
                if rest.len() < ts.len() {
                    equality_tail(x, rest)
                } else {
                    Ok((x, rest))
                }
            },
        }
    } else {
        Ok((lhs, ts))
    }
}

/// The order comparison that a token stands for.
pub open spec fn relop_of(s: Symbol) -> Option<Relop> {
    match s {
        Symbol::Ge => Some(Relop::Ge),
        Symbol::Gr => Some(Relop::Gr),
        Symbol::Leq => Some(Relop::Leq),
        Symbol::Les => Some(Relop::Les),
        _ => None,
    }
}

/// `relational := numexpr ( ('>=' | '>' | '<=' | '<') numexpr )?`
///
/// Comparisons do not chain: at most one operator is taken.
pub open spec fn parse_rel(ts: Seq<TokenView>) -> Parsed<BoolExprView>
    decreases ts.len(), 14nat,
{
    match parse_numexpr(ts) {
        Err(e) => Err(e),
        Ok((x, rest)) => match relop_of(next_symbol(rest)) {
            None => Ok((BoolExprView::NumExpr(Box::new(x)), rest)),
            Some(op) => if rest.len() <= ts.len() {
                match parse_numexpr(rest.drop_first()) {
                    Err(e) => Err(e),
                    Ok((y, rest2)) => Ok((BoolExprView::Relop(op, Box::new(x), Box::new(y)), rest2)),
                }
            } else {
                Ok((BoolExprView::NumExpr(Box::new(x)), rest))
            },
        },
    }
}

/// `numexpr := term ( ('+' | '-') term )*`
pub open spec fn parse_numexpr(ts: Seq<TokenView>) -> Parsed<NumExprView>
    decreases ts.len(), 12nat,
{
    match parse_term(ts) {
        Err(e) => Err(e),
        Ok((x, rest)) => if rest.len() <= ts.len() {
            numexpr_tail(x, rest)
        } else {
            Ok((x, rest))
        },
    }
}

/// `( ('+' | '-') term )*` behind the operand `lhs`.
pub open spec fn numexpr_tail(lhs: NumExprView, ts: Seq<TokenView>) -> Parsed<NumExprView>
    decreases ts.len(), 11nat,
{
    let op = next_symbol(ts);
    if op == Symbol::Add || op == Symbol::Sub {
        match parse_term(ts.drop_first()) {
            Err(e) => Err(e),
            Ok((rhs, rest)) => {
                let x = if op == Symbol::Add {
                    NumExprView::Add(Box::new(lhs), Box::new(rhs))
                } else {
                    NumExprView::Sub(Box::new(lhs), Box::new(rhs))
                };
                if rest.len() < ts.len() {
                    numexpr_tail(x, rest)
                } else {
                    Ok((x, rest))
                }
            },
        }
    } else {
        Ok((lhs, ts))
    }
}

/// `term := unary ( ('*' | '/') unary )*`
pub open spec fn parse_term(ts: Seq<TokenView>) -> Parsed<NumExprView>
    decreases ts.len(), 10nat,
{
    match parse_unary(ts) {
        Err(e) => Err(e),
        Ok((x, rest)) => if rest.len() <= ts.len() {
            term_tail(x, rest)
        } else {
            Ok((x, rest))
        },
    }
}

/// `( ('*' | '/') unary )*` behind the operand `lhs`.
pub open spec fn term_tail(lhs: NumExprView, ts: Seq<TokenView>) -> Parsed<NumExprView>
    decreases ts.len(), 9nat,
{
    let op = next_symbol(ts);
    if op == Symbol::Mul || op == Symbol::Div {
        match parse_unary(ts.drop_first()) {
            Err(e) => Err(e),
            Ok((rhs, rest)) => {
                let x = if op == Symbol::Mul {
                    NumExprView::Mul(Box::new(lhs), Box::new(rhs))
                } else {
                    NumExprView::Div(Box::new(lhs), Box::new(rhs))
                };
                if rest.len() < ts.len() {
                    term_tail(x, rest)
                } else {
                    Ok((x, rest))
                }
            },
        }
    } else {
        Ok((lhs, ts))
    }
}

/// `unary := ('-' | '!') unary | factor`
pub open spec fn parse_unary(ts: Seq<TokenView>) -> Parsed<NumExprView>
    decreases ts.len(), 8nat,
{
    let op = next_symbol(ts);
    if op == Symbol::Sub || op == Symbol::Not {
        match parse_unary(ts.drop_first()) {
            Err(e) => Err(e),
            Ok((x, rest)) => if op == Symbol::Sub {
                Ok((NumExprView::Minus(Box::new(x)), rest))
            } else {
                Ok((NumExprView::Not(Box::new(x)), rest))
            },
        }
    } else {
        parse_factor(ts)
    }
}

/// `'(' bool ')'`
pub open spec fn parse_parenthesized(ts: Seq<TokenView>) -> Parsed<BoolExprView>
    decreases ts.len(), 4nat,
{
    if peek(ts).tag == Tag::LParen {
        match parse_bool(ts.drop_first()) {
            Err(e) => Err(e),
            Ok((b, rest)) => match expect(Tag::RParen, rest) {
                Err(e) => Err(e),
                Ok(rest2) => Ok((b, rest2)),
            },
        }
    } else {
        Err(unexpected(Expected::Tag(Tag::LParen), ts))
    }
}

/// `factor := loc | number | 'True' | 'False' | '(' bool ')'`
pub open spec fn parse_factor(ts: Seq<TokenView>) -> Parsed<NumExprView>
    decreases ts.len(), 7nat,
{
    match peek(ts).tag {
        Tag::Ide => match parse_loc(ts) {
            Err(e) => Err(e),
            Ok((l, rest)) => Ok((NumExprView::Loc(l), rest)),
        },
        Tag::Num => match expect_number(ts) {
            Err(e) => Err(e),
            Ok((x, rest)) => Ok((NumExprView::Num(x), rest)),
        },
        Tag::True => Ok((NumExprView::True, ts.drop_first())),
        Tag::False => Ok((NumExprView::False, ts.drop_first())),
        Tag::LParen => match parse_parenthesized(ts) {
            Err(e) => Err(e),
            Ok((b, rest)) => Ok((NumExprView::Expr(Box::new(b)), rest)),
        },
        _ => Err(unexpected(Expected::Factor, ts)),
    }
}

/// The location of the name `name` with the indices that were parsed: an
/// element of an array if there are any, else a plain identifier.
pub open spec fn make_loc(name: Seq<char>, indices: Parsed<Seq<BoolExprView>>) -> Parsed<LocView> {
    match indices {
        Err(e) => Err(e),
        Ok((indices, rest)) => if indices.len() > 0 {
            Ok((LocView::Index(name, indices), rest))
        } else {
            Ok((LocView::Ide(name), rest))
        },
    }
}

/// `loc := identifier ( '[' bool ']' )*`
pub open spec fn parse_loc(ts: Seq<TokenView>) -> Parsed<LocView>
    decreases ts.len(), 6nat,
{
    match expect_identifier(ts) {
        Err(e) => Err(e),
        Ok((name, rest)) => make_loc(name, loc_tail(Seq::empty(), rest)),
    }
}

/// `'[' bool ']'`
pub open spec fn parse_index(ts: Seq<TokenView>) -> Parsed<BoolExprView>
    decreases ts.len(), 4nat,
{
    if peek(ts).tag == Tag::LArrParen {
        match parse_bool(ts.drop_first()) {
            Err(e) => Err(e),
            Ok((b, rest)) => match expect(Tag::RArrParen, rest) {
                Err(e) => Err(e),
                Ok(rest2) => Ok((b, rest2)),
            },
        }
    } else {
        Err(unexpected(Expected::Tag(Tag::LArrParen), ts))
    }
}

/// `( '[' bool ']' )*` behind the indices `indices`.
pub open spec fn loc_tail(indices: Seq<BoolExprView>, ts: Seq<TokenView>) -> Parsed<
    Seq<BoolExprView>,
>
    decreases ts.len(), 5nat,
{
    if peek(ts).tag == Tag::LArrParen {
        match parse_index(ts) {
            Err(e) => Err(e),
            Ok((b, rest)) => if rest.len() < ts.len() {
                loc_tail(indices.push(b), rest)
            } else {
                Ok((indices.push(b), rest))
            },
        }
    } else {
        Ok((indices, ts))
    }
}

/// The table of a type with the extents `extents` and elements of `width`
/// bytes, computed from the right: the last entry is `width`, and each other
/// entry is its extent times the entry after it.
pub open spec fn stride_table(extents: Seq<u32>, width: nat) -> Seq<nat>
    decreases extents.len(),
{
    if extents.len() == 0 {
        seq![width]
    } else {
        let inner = stride_table(extents.drop_first(), width);
        seq![extents[0] as nat * inner[0]] + inner
    }
}

/// The width in bytes of every element.
pub open spec fn element_width() -> u32 {
    4
}

/// The type with the element type `basic` and the extents `extents`; none
/// for an array whose table does not fit in 32 bits.
pub open spec fn make_type(basic: BasicType, extents: Seq<u32>) -> Option<TypeView> {
    let table = stride_table(extents, element_width() as nat);
    if extents.len() == 0 {
        Some(
            TypeView {
                basic_type: basic,
                element_width: element_width(),
                dim_width: Seq::empty(),
            },
        )
    } else if forall|i: int| 0 <= i < table.len() ==> table[i] <= u32::MAX {
        Some(
            TypeView {
                basic_type: basic,
                element_width: element_width(),
                dim_width: Seq::new(table.len(), |i: int| table[i] as u32),
            },
        )
    } else {
        None
    }
}

/// `( '[' number ']' )*` behind the extents `extents`.
pub open spec fn type_dims(extents: Seq<u32>, ts: Seq<TokenView>) -> Parsed<Seq<u32>>
    decreases ts.len(),
{
    if peek(ts).tag == Tag::LArrParen {
        match expect_number(ts.drop_first()) {
            Err(e) => Err(e),
            Ok((x, rest)) => match expect(Tag::RArrParen, rest) {
                Err(e) => Err(e),
                Ok(rest2) => type_dims(extents.push(x), rest2),
            },
        }
    } else {
        Ok((extents, ts))
    }
}

/// The element type that `ts` starts with.
pub open spec fn expect_basic_type(ts: Seq<TokenView>) -> Parsed<BasicType> {
    if ts.len() > 0 && ts[0].tag == Tag::Type {
        match ts[0].info {
            TokenInfoView::Int => Ok((BasicType::Int, ts.drop_first())),
            TokenInfoView::Float => Ok((BasicType::Float, ts.drop_first())),
            _ => Err(unexpected(Expected::Tag(Tag::Type), ts)),
        }
    } else {
        Err(unexpected(Expected::Tag(Tag::Type), ts))
    }
}

/// The type with the element type `basic` and the extents that were
/// parsed.
pub open spec fn finish_type(basic: BasicType, extents: Parsed<Seq<u32>>) -> Parsed<TypeView> {
    match extents {
        Err(e) => Err(e),
        Ok((extents, rest)) => match make_type(basic, extents) {
            None => Err((ParseError::ArrayTooLarge, rest)),
            Some(t) => Ok((t, rest)),
        },
    }
}

/// `type := ('int' | 'float') ( '[' number ']' )*`
pub open spec fn parse_type(ts: Seq<TokenView>) -> Parsed<TypeView> {
    match expect_basic_type(ts) {
        Err(e) => Err(e),
        Ok((basic, rest)) => finish_type(basic, type_dims(Seq::empty(), rest)),
    }
}

/// `decl := type identifier ';'`
pub open spec fn parse_decl(ts: Seq<TokenView>) -> Parsed<DeclView> {
    match parse_type(ts) {
        Err(e) => Err(e),
        Ok((type_id, rest)) => match expect_identifier(rest) {
            Err(e) => Err(e),
            Ok((id, rest2)) => match expect(Tag::SemiColon, rest2) {
                Err(e) => Err(e),
                Ok(rest3) => Ok((DeclView { type_id, id }, rest3)),
            },
        },
    }
}

/// `loc '=' bool ';'`
pub open spec fn parse_assign(ts: Seq<TokenView>) -> Parsed<StatementView> {
    match parse_loc(ts) {
        Err(e) => Err(e),
        Ok((l, rest)) => match expect(Tag::Assign, rest) {
            Err(e) => Err(e),
            Ok(rest2) => match parse_bool(rest2) {
                Err(e) => Err(e),
                Ok((b, rest3)) => match expect(Tag::SemiColon, rest3) {
                    Err(e) => Err(e),
                    Ok(rest4) => Ok((StatementView::Assign(l, b), rest4)),
                },
            },
        },
    }
}

/// `'(' bool ')'`: the condition of a branch or of a loop.
pub open spec fn parse_condition(ts: Seq<TokenView>) -> Parsed<BoolExprView> {
    match expect(Tag::LParen, ts) {
        Err(e) => Err(e),
        Ok(rest) => match parse_bool(rest) {
            Err(e) => Err(e),
            Ok((b, rest2)) => match expect(Tag::RParen, rest2) {
                Err(e) => Err(e),
                Ok(rest3) => Ok((b, rest3)),
            },
        },
    }
}

/// ```text
/// statement := loc '=' bool ';' | 'if' '(' bool ')' statement ( 'else' statement )?
///            | 'while' '(' bool ')' statement | 'break' ';' | block
/// ```
///
/// An `else` belongs to the nearest `if`.
pub open spec fn parse_statement(ts: Seq<TokenView>) -> Parsed<StatementView>
    decreases ts.len(), 2nat,
{
    match peek(ts).tag {
        Tag::Ide => parse_assign(ts),
        Tag::If => match parse_condition(ts.drop_first()) {
            Err(e) => Err(e),
            Ok((c, rest)) => if rest.len() < ts.len() {
                match parse_statement(rest) {
                    Err(e) => Err(e),
                    Ok((a, rest2)) => if peek(rest2).tag == Tag::Else && rest2.len() <= ts.len() {
                        match parse_statement(rest2.drop_first()) {
                            Err(e) => Err(e),
                            Ok((b, rest3)) => Ok(
                                (StatementView::IfElse(c, Box::new(a), Box::new(b)), rest3),
                            ),
                        }
                    } else {
                        Ok((StatementView::If(c, Box::new(a)), rest2))
                    },
                }
            } else {
                Err(unexpected(Expected::Statement, rest))
            },
        },
        Tag::While => match parse_condition(ts.drop_first()) {
            Err(e) => Err(e),
            Ok((c, rest)) => if rest.len() < ts.len() {
                match parse_statement(rest) {
                    Err(e) => Err(e),
                    Ok((a, rest2)) => Ok((StatementView::While(c, Box::new(a)), rest2)),
                }
            } else {
                Err(unexpected(Expected::Statement, rest))
            },
        },
        Tag::Break => match expect(Tag::SemiColon, ts.drop_first()) {
            Err(e) => Err(e),
            Ok(rest) => Ok((StatementView::Break, rest)),
        },
        Tag::OpenBlock => match parse_block(ts) {
            Err(e) => Err(e),
            Ok((b, rest)) => Ok((StatementView::BlockStmt(b), rest)),
        },
        _ => Err(unexpected(Expected::Statement, ts)),
    }
}

/// `block := '{' ( decl | statement )* '}'`
pub open spec fn parse_block(ts: Seq<TokenView>) -> Parsed<BlockView>
    decreases ts.len(), 1nat,
{
    match expect(Tag::OpenBlock, ts) {
        Err(e) => Err(e),
        Ok(rest) => block_items(BlockView { decls: Seq::empty(), stmts: Seq::empty() }, rest),
    }
}

/// `( decl | statement )* '}'` behind the declarations and statements of
/// `block`. Declarations and statements may alternate; each list keeps the
/// order of the text.
pub open spec fn block_items(block: BlockView, ts: Seq<TokenView>) -> Parsed<BlockView>
    decreases ts.len(), 3nat,
{
    match peek(ts).tag {
        Tag::Type => match parse_decl(ts) {
            Err(e) => Err(e),
            Ok((d, rest)) => if rest.len() < ts.len() {
                block_items(BlockView { decls: block.decls.push(d), ..block }, rest)
            } else {
                Err(unexpected(Expected::Tag(Tag::CloseBlock), rest))
            },
        },
        Tag::CloseBlock => Ok((block, ts.drop_first())),
        _ => match parse_statement(ts) {
            Err(e) => Err(e),
            Ok((s, rest)) => if rest.len() < ts.len() {
                block_items(BlockView { stmts: block.stmts.push(s), ..block }, rest)
            } else {
                Err(unexpected(Expected::Tag(Tag::CloseBlock), rest))
            },
        },
    }
}

/// `program := block`
pub open spec fn parse_program(ts: Seq<TokenView>) -> Parsed<ProgramView> {
    match parse_block(ts) {
        Err(e) => Err(e),
        Ok((block, rest)) => Ok((ProgramView { block }, rest)),
    }
}

/// An expression uses up at least one token.
pub proof fn lemma_parse_bool_shrinks(ts: Seq<TokenView>)
    ensures
        parse_bool(ts) matches Ok((_, rest)) ==> rest.len() < ts.len(),
    decreases ts.len(), 20nat,
{
    lemma_parse_join_shrinks(ts);
    if let Ok((x, rest)) = parse_join(ts) {
        lemma_bool_tail_shrinks(x, rest);
    }
}

/// A chain of operators leaves no more tokens than it was given.
pub proof fn lemma_bool_tail_shrinks(lhs: BoolExprView, ts: Seq<TokenView>)
    ensures
        bool_tail(lhs, ts) matches Ok((_, rest)) ==> rest.len() <= ts.len(),
    decreases ts.len(), 19nat,
{
    if next_symbol(ts) == Symbol::Or {
        lemma_parse_join_shrinks(ts.drop_first());
        if let Ok((rhs, rest)) = parse_join(ts.drop_first()) {
            lemma_bool_tail_shrinks(BoolExprView::Or(Box::new(lhs), Box::new(rhs)), rest);
        }
    }
}

/// An expression uses up at least one token.
pub proof fn lemma_parse_join_shrinks(ts: Seq<TokenView>)
    ensures
        parse_join(ts) matches Ok((_, rest)) ==> rest.len() < ts.len(),
    decreases ts.len(), 18nat,
{
    lemma_parse_equality_shrinks(ts);
    if let Ok((x, rest)) = parse_equality(ts) {
        lemma_join_tail_shrinks(x, rest);
    }
}

/// A chain of operators leaves no more tokens than it was given.
pub proof fn lemma_join_tail_shrinks(lhs: BoolExprView, ts: Seq<TokenView>)
    ensures
        join_tail(lhs, ts) matches Ok((_, rest)) ==> rest.len() <= ts.len(),
    decreases ts.len(), 17nat,
{
    if next_symbol(ts) == Symbol::And {
        lemma_parse_equality_shrinks(ts.drop_first());
        if let Ok((rhs, rest)) = parse_equality(ts.drop_first()) {
            lemma_join_tail_shrinks(BoolExprView::And(Box::new(lhs), Box::new(rhs)), rest);
        }
    }
}

/// An expression uses up at least one token.
pub proof fn lemma_parse_equality_shrinks(ts: Seq<TokenView>)
    ensures
        parse_equality(ts) matches Ok((_, rest)) ==> rest.len() < ts.len(),
    decreases ts.len(), 16nat,
{
    lemma_parse_rel_shrinks(ts);
    if let Ok((x, rest)) = parse_rel(ts) {
        lemma_equality_tail_shrinks(x, rest);
    }
}

/// A chain of operators leaves no more tokens than it was given.
pub proof fn lemma_equality_tail_shrinks(lhs: BoolExprView, ts: Seq<TokenView>)
    ensures
        equality_tail(lhs, ts) matches Ok((_, rest)) ==> rest.len() <= ts.len(),
    decreases ts.len(), 15nat,
{
    let op = next_symbol(ts);
    if op == Symbol::Equ || op == Symbol::Neq {
        lemma_parse_rel_shrinks(ts.drop_first());
        if let Ok((rhs, rest)) = parse_rel(ts.drop_first()) {
            let x = if op == Symbol::Equ {
                BoolExprView::Eq(Box::new(lhs), Box::new(rhs))
            } else {
                BoolExprView::Neq(Box::new(lhs), Box::new(rhs))
            };
            lemma_equality_tail_shrinks(x, rest);
        }
    }
}

/// An expression uses up at least one token.
pub proof fn lemma_parse_rel_shrinks(ts: Seq<TokenView>)
    ensures
        parse_rel(ts) matches Ok((_, rest)) ==> rest.len() < ts.len(),
    decreases ts.len(), 14nat,
{
    lemma_parse_numexpr_shrinks(ts);
    if let Ok((x, rest)) = parse_numexpr(ts) {
        if relop_of(next_symbol(rest)) is Some {
            lemma_parse_numexpr_shrinks(rest.drop_first());
        }
    }
}

/// An expression uses up at least one token.
pub proof fn lemma_parse_numexpr_shrinks(ts: Seq<TokenView>)
    ensures
        parse_numexpr(ts) matches Ok((_, rest)) ==> rest.len() < ts.len(),
    decreases ts.len(), 12nat,
{
    lemma_parse_term_shrinks(ts);
    if let Ok((x, rest)) = parse_term(ts) {
        lemma_numexpr_tail_shrinks(x, rest);
    }
}

/// A chain of operators leaves no more tokens than it was given.
pub proof fn lemma_numexpr_tail_shrinks(lhs: NumExprView, ts: Seq<TokenView>)
    ensures
        numexpr_tail(lhs, ts) matches Ok((_, rest)) ==> rest.len() <= ts.len(),
    decreases ts.len(), 11nat,
{
    let op = next_symbol(ts);
    if op == Symbol::Add || op == Symbol::Sub {
        lemma_parse_term_shrinks(ts.drop_first());
        if let Ok((rhs, rest)) = parse_term(ts.drop_first()) {
            let x = if op == Symbol::Add {
                NumExprView::Add(Box::new(lhs), Box::new(rhs))
            } else {
                NumExprView::Sub(Box::new(lhs), Box::new(rhs))
            };
            lemma_numexpr_tail_shrinks(x, rest);
        }
    }
}

/// An expression uses up at least one token.
pub proof fn lemma_parse_term_shrinks(ts: Seq<TokenView>)
    ensures
        parse_term(ts) matches Ok((_, rest)) ==> rest.len() < ts.len(),
    decreases ts.len(), 10nat,
{
    lemma_parse_unary_shrinks(ts);
    if let Ok((x, rest)) = parse_unary(ts) {
        lemma_term_tail_shrinks(x, rest);
    }
}

/// A chain of operators leaves no more tokens than it was given.
pub proof fn lemma_term_tail_shrinks(lhs: NumExprView, ts: Seq<TokenView>)
    ensures
        term_tail(lhs, ts) matches Ok((_, rest)) ==> rest.len() <= ts.len(),
    decreases ts.len(), 9nat,
{
    let op = next_symbol(ts);
    if op == Symbol::Mul || op == Symbol::Div {
        lemma_parse_unary_shrinks(ts.drop_first());
        if let Ok((rhs, rest)) = parse_unary(ts.drop_first()) {
            let x = if op == Symbol::Mul {
                NumExprView::Mul(Box::new(lhs), Box::new(rhs))
            } else {
                NumExprView::Div(Box::new(lhs), Box::new(rhs))
            };
            lemma_term_tail_shrinks(x, rest);
        }
    }
}

/// An expression uses up at least one token.
pub proof fn lemma_parse_unary_shrinks(ts: Seq<TokenView>)
    ensures
        parse_unary(ts) matches Ok((_, rest)) ==> rest.len() < ts.len(),
    decreases ts.len(), 8nat,
{
    let op = next_symbol(ts);
    if op == Symbol::Sub || op == Symbol::Not {
        lemma_parse_unary_shrinks(ts.drop_first());
    } else {
        lemma_parse_factor_shrinks(ts);
    }
}

/// An expression in parentheses uses up at least one token.
pub proof fn lemma_parse_parenthesized_shrinks(ts: Seq<TokenView>)
    ensures
        parse_parenthesized(ts) matches Ok((_, rest)) ==> rest.len() < ts.len(),
    decreases ts.len(), 4nat,
{
    if peek(ts).tag == Tag::LParen {
        lemma_parse_bool_shrinks(ts.drop_first());
    }
}

/// A factor uses up at least one token.
pub proof fn lemma_parse_factor_shrinks(ts: Seq<TokenView>)
    ensures
        parse_factor(ts) matches Ok((_, rest)) ==> rest.len() < ts.len(),
    decreases ts.len(), 7nat,
{
    match peek(ts).tag {
        Tag::Ide => {
            lemma_parse_loc_shrinks(ts);
        },
        Tag::LParen => {
            lemma_parse_parenthesized_shrinks(ts);
        },
        _ => {},
    }
}

/// A location uses up at least one token.
pub proof fn lemma_parse_loc_shrinks(ts: Seq<TokenView>)
    ensures
        parse_loc(ts) matches Ok((_, rest)) ==> rest.len() < ts.len(),
    decreases ts.len(), 6nat,
{
    if let Ok((name, rest)) = expect_identifier(ts) {
        lemma_loc_tail_shrinks(Seq::empty(), rest);
    }
}

/// An index in brackets uses up at least one token.
pub proof fn lemma_parse_index_shrinks(ts: Seq<TokenView>)
    ensures
        parse_index(ts) matches Ok((_, rest)) ==> rest.len() < ts.len(),
    decreases ts.len(), 4nat,
{
    if peek(ts).tag == Tag::LArrParen {
        lemma_parse_bool_shrinks(ts.drop_first());
    }
}

/// A list of indices leaves no more tokens than it was given.
pub proof fn lemma_loc_tail_shrinks(indices: Seq<BoolExprView>, ts: Seq<TokenView>)
    ensures
        loc_tail(indices, ts) matches Ok((_, rest)) ==> rest.len() <= ts.len(),
    decreases ts.len(), 5nat,
{
    if peek(ts).tag == Tag::LArrParen {
        lemma_parse_index_shrinks(ts);
        if let Ok((b, rest)) = parse_index(ts) {
            lemma_loc_tail_shrinks(indices.push(b), rest);
        }
    }
}

/// A list of extents leaves no more tokens than it was given.
pub proof fn lemma_type_dims_shrinks(extents: Seq<u32>, ts: Seq<TokenView>)
    ensures
        type_dims(extents, ts) matches Ok((_, rest)) ==> rest.len() <= ts.len(),
    decreases ts.len(),
{
    if peek(ts).tag == Tag::LArrParen {
        if let Ok((x, rest)) = expect_number(ts.drop_first()) {
            if let Ok(rest2) = expect(Tag::RArrParen, rest) {
                lemma_type_dims_shrinks(extents.push(x), rest2);
            }
        }
    }
}

/// A declaration uses up at least one token.
pub proof fn lemma_parse_decl_shrinks(ts: Seq<TokenView>)
    ensures
        parse_decl(ts) matches Ok((_, rest)) ==> rest.len() < ts.len(),
{
    if let Ok((basic, rest)) = expect_basic_type(ts) {
        lemma_type_dims_shrinks(Seq::empty(), rest);
    }
}

/// A condition uses up at least one token.
pub proof fn lemma_parse_condition_shrinks(ts: Seq<TokenView>)
    ensures
        parse_condition(ts) matches Ok((_, rest)) ==> rest.len() < ts.len(),
{
    if let Ok(rest) = expect(Tag::LParen, ts) {
        lemma_parse_bool_shrinks(rest);
    }
}

/// A statement uses up at least one token.
pub proof fn lemma_parse_statement_shrinks(ts: Seq<TokenView>)
    ensures
        parse_statement(ts) matches Ok((_, rest)) ==> rest.len() < ts.len(),
    decreases ts.len(), 2nat,
{
    match peek(ts).tag {
        Tag::Ide => {
            lemma_parse_loc_shrinks(ts);
            if let Ok((l, rest)) = parse_loc(ts) {
                if let Ok(rest2) = expect(Tag::Assign, rest) {
                    lemma_parse_bool_shrinks(rest2);
                }
            }
        },
        Tag::If => {
            lemma_parse_condition_shrinks(ts.drop_first());
            if let Ok((c, rest)) = parse_condition(ts.drop_first()) {
                lemma_parse_statement_shrinks(rest);
                if let Ok((a, rest2)) = parse_statement(rest) {
                    if peek(rest2).tag == Tag::Else {
                        lemma_parse_statement_shrinks(rest2.drop_first());
                    }
                }
            }
        },
        Tag::While => {
            lemma_parse_condition_shrinks(ts.drop_first());
            if let Ok((c, rest)) = parse_condition(ts.drop_first()) {
                lemma_parse_statement_shrinks(rest);
            }
        },
        Tag::OpenBlock => {
            lemma_parse_block_shrinks(ts);
        },
        _ => {},
    }
}

/// A block uses up at least one token.
pub proof fn lemma_parse_block_shrinks(ts: Seq<TokenView>)
    ensures
        parse_block(ts) matches Ok((_, rest)) ==> rest.len() < ts.len(),
    decreases ts.len(), 1nat,
{
    if let Ok(rest) = expect(Tag::OpenBlock, ts) {
        lemma_block_items_shrinks(BlockView { decls: Seq::empty(), stmts: Seq::empty() }, rest);
    }
}

/// The items of a block and its closing brace use up at least one token.
pub proof fn lemma_block_items_shrinks(block: BlockView, ts: Seq<TokenView>)
    ensures
        block_items(block, ts) matches Ok((_, rest)) ==> rest.len() < ts.len(),
    decreases ts.len(), 3nat,
{
    match peek(ts).tag {
        Tag::Type => {
            lemma_parse_decl_shrinks(ts);
            if let Ok((d, rest)) = parse_decl(ts) {
                lemma_block_items_shrinks(
                    BlockView { decls: block.decls.push(d), ..block },
                    rest,
                );
            }
        },
        Tag::CloseBlock => {},
        _ => {
            lemma_parse_statement_shrinks(ts);
            if let Ok((s, rest)) = parse_statement(ts) {
                lemma_block_items_shrinks(
                    BlockView { stmts: block.stmts.push(s), ..block },
                    rest,
                );
            }
        },
    }
}

/// The table of a type has one entry more than the type has extents, and
/// its entry `k` is the first entry of the table of the extents from `k` on.
pub proof fn lemma_stride_table(extents: Seq<u32>, width: nat, k: int)
    requires
        0 <= k <= extents.len(),
    ensures
        stride_table(extents, width).len() == extents.len() + 1,
        stride_table(extents, width)[k] == stride_table(extents.skip(k), width)[0],
        stride_table(extents.skip(k), width)[0] == if k < extents.len() {
            extents[k] as nat * stride_table(extents.skip(k + 1), width)[0]
        } else {
            width
        },
    decreases extents.len(),
{
    if extents.len() == 0 {
        assert(extents.skip(k) == extents);
    } else {
        let inner = extents.drop_first();
        lemma_stride_table(inner, width, 0);
        if k == 0 {
            assert(extents.skip(0) == extents);
            assert(extents.skip(1) == inner);
            assert(inner.skip(0) == inner);
        } else {
            lemma_stride_table(inner, width, k - 1);
            assert(inner.skip(k - 1) == extents.skip(k));
            if k < extents.len() {
                assert(inner.skip(k) == extents.skip(k + 1));
            }
        }
    }
}

} // verus!
