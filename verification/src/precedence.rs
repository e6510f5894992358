//! The shape of the trees that the grammar yields: each operator has for
//! operands only what binds at least as tightly as itself.

use vstd::prelude::*;
use crate::ast::expression::{BoolExprView, LocView, NumExprView};
use crate::grammar::{
    bool_tail, equality_tail, expect_identifier, join_tail, loc_tail, numexpr_tail, parse_bool,
    parse_equality, parse_factor, parse_index, parse_join, parse_loc, parse_numexpr,
    parse_parenthesized, parse_rel, parse_term, parse_unary, relop_of, term_tail,
};
use crate::lexer::{Symbol, Tag, TokenView};
use crate::parser::{next_symbol, peek};

verus! {

/// A chain of `||` that leans to the left, over chains of `&&`.
pub open spec fn bool_shape(e: BoolExprView) -> bool
    decreases e, 4nat,
{
    match e {
        BoolExprView::Or(a, b) => bool_shape(*a) && join_shape(*b),
        _ => join_shape(e),
    }
}

/// A chain of `&&` that leans to the left, over chains of `==` and `!=`.
pub open spec fn join_shape(e: BoolExprView) -> bool
    decreases e, 3nat,
{
    match e {
        BoolExprView::And(a, b) => join_shape(*a) && equality_shape(*b),
        _ => equality_shape(e),
    }
}

/// A chain of `==` and `!=` that leans to the left, over comparisons.
pub open spec fn equality_shape(e: BoolExprView) -> bool
    decreases e, 2nat,
{
    match e {
        BoolExprView::Eq(a, b) | BoolExprView::Neq(a, b) => equality_shape(*a) && rel_shape(*b),
        _ => rel_shape(e),
    }
}

/// One comparison of two sums, or a sum.
pub open spec fn rel_shape(e: BoolExprView) -> bool
    decreases e, 1nat,
{
    match e {
        BoolExprView::Relop(_, x, y) => sum_shape(*x) && sum_shape(*y),
        BoolExprView::NumExpr(x) => sum_shape(*x),
        _ => false,
    }
}

/// A chain of `+` and `-` that leans to the left, over products: no operand
/// of `*` or `/` is a sum, unless it stands in parentheses.
pub open spec fn sum_shape(e: NumExprView) -> bool
    decreases e, 4nat,
{
    match e {
        NumExprView::Add(a, b) | NumExprView::Sub(a, b) => sum_shape(*a) && term_shape(*b),
        _ => term_shape(e),
    }
}

/// A chain of `*` and `/` that leans to the left, over unary expressions.
pub open spec fn term_shape(e: NumExprView) -> bool
    decreases e, 3nat,
{
    match e {
        NumExprView::Mul(a, b) | NumExprView::Div(a, b) => term_shape(*a) && unary_shape(*b),
        _ => unary_shape(e),
    }
}

/// Any number of `-` and `!` in front of a factor: no operand of a unary
/// operator is a sum or a product, unless it stands in parentheses.
pub open spec fn unary_shape(e: NumExprView) -> bool
    decreases e, 2nat,
{
    match e {
        NumExprView::Minus(a) | NumExprView::Not(a) => unary_shape(*a),
        _ => factor_shape(e),
    }
}

/// A location, a literal, or any expression in parentheses.
pub open spec fn factor_shape(e: NumExprView) -> bool
    decreases e, 1nat,
{
    match e {
        NumExprView::Expr(b) => bool_shape(*b),
        NumExprView::Loc(l) => loc_shape(l),
        NumExprView::Num(_) | NumExprView::True | NumExprView::False => true,
        _ => false,
    }
}

/// A name, or a name with at least one index, each index any expression.
pub open spec fn loc_shape(l: LocView) -> bool
    decreases l, 0nat,
{
    match l {
        LocView::Ide(_) => true,
        LocView::Index(_, indices) => indices.len() > 0 && indices_shape(indices),
    }
}

/// Every index has the shape of a boolean expression.
pub open spec fn indices_shape(indices: Seq<BoolExprView>) -> bool
    decreases indices, 0nat,
{
    indices.len() == 0 || (bool_shape(indices.last()) && indices_shape(indices.drop_last()))
}

/// What binds tighter may stand where what binds looser may.
pub proof fn lemma_shapes_nest(e: NumExprView)
    ensures
        factor_shape(e) ==> unary_shape(e),
        unary_shape(e) ==> term_shape(e),
        term_shape(e) ==> sum_shape(e),
{
    reveal_with_fuel(sum_shape, 4);
    reveal_with_fuel(term_shape, 4);
    reveal_with_fuel(unary_shape, 4);
    reveal_with_fuel(factor_shape, 4);
}

/// What binds tighter may stand where what binds looser may.
pub proof fn lemma_bool_shapes_nest(e: BoolExprView)
    ensures
        rel_shape(e) ==> equality_shape(e),
        equality_shape(e) ==> join_shape(e),
        join_shape(e) ==> bool_shape(e),
{
    reveal_with_fuel(bool_shape, 4);
    reveal_with_fuel(join_shape, 4);
    reveal_with_fuel(equality_shape, 4);
    reveal_with_fuel(rel_shape, 4);
}

/// A boolean expression has the shape of its grammar.
pub proof fn lemma_parse_bool_shape(ts: Seq<TokenView>)
    ensures
        parse_bool(ts) matches Ok((e, _)) ==> bool_shape(e),
    decreases ts.len(), 20nat,
{
    lemma_parse_join_shape(ts);
    if let Ok((x, rest)) = parse_join(ts) {
        lemma_bool_shapes_nest(x);
        if rest.len() <= ts.len() {
            lemma_bool_tail_shape(x, rest);
        }
    }
}

/// A chain of `||` behind an operand of its shape has that shape.
pub proof fn lemma_bool_tail_shape(lhs: BoolExprView, ts: Seq<TokenView>)
    requires
        bool_shape(lhs),
    ensures
        bool_tail(lhs, ts) matches Ok((e, _)) ==> bool_shape(e),
    decreases ts.len(), 19nat,
{
    if next_symbol(ts) == Symbol::Or {
        lemma_parse_join_shape(ts.drop_first());
        if let Ok((rhs, rest)) = parse_join(ts.drop_first()) {
            if rest.len() < ts.len() {
                lemma_bool_tail_shape(BoolExprView::Or(Box::new(lhs), Box::new(rhs)), rest);
            }
        }
    }
}

/// A chain of `&&` has the shape of its grammar.
pub proof fn lemma_parse_join_shape(ts: Seq<TokenView>)
    ensures
        parse_join(ts) matches Ok((e, _)) ==> join_shape(e),
    decreases ts.len(), 18nat,
{
    lemma_parse_equality_shape(ts);
    if let Ok((x, rest)) = parse_equality(ts) {
        lemma_bool_shapes_nest(x);
        if rest.len() <= ts.len() {
            lemma_join_tail_shape(x, rest);
        }
    }
}

/// A chain of `&&` behind an operand of its shape has that shape.
pub proof fn lemma_join_tail_shape(lhs: BoolExprView, ts: Seq<TokenView>)
    requires
        join_shape(lhs),
    ensures
        join_tail(lhs, ts) matches Ok((e, _)) ==> join_shape(e),
    decreases ts.len(), 17nat,
{
    if next_symbol(ts) == Symbol::And {
        lemma_parse_equality_shape(ts.drop_first());
        if let Ok((rhs, rest)) = parse_equality(ts.drop_first()) {
            if rest.len() < ts.len() {
                lemma_join_tail_shape(BoolExprView::And(Box::new(lhs), Box::new(rhs)), rest);
            }
        }
    }
}

/// A chain of `==` and `!=` has the shape of its grammar.
pub proof fn lemma_parse_equality_shape(ts: Seq<TokenView>)
    ensures
        parse_equality(ts) matches Ok((e, _)) ==> equality_shape(e),
    decreases ts.len(), 16nat,
{
    lemma_parse_rel_shape(ts);
    if let Ok((x, rest)) = parse_rel(ts) {
        lemma_bool_shapes_nest(x);
        if rest.len() <= ts.len() {
            lemma_equality_tail_shape(x, rest);
        }
    }
}

/// A chain of `==` and `!=` behind an operand of its shape has that shape.
pub proof fn lemma_equality_tail_shape(lhs: BoolExprView, ts: Seq<TokenView>)
    requires
        equality_shape(lhs),
    ensures
        equality_tail(lhs, ts) matches Ok((e, _)) ==> equality_shape(e),
    decreases ts.len(), 15nat,
{
    let op = next_symbol(ts);
    if op == Symbol::Equ || op == Symbol::Neq {
        lemma_parse_rel_shape(ts.drop_first());
        if let Ok((rhs, rest)) = parse_rel(ts.drop_first()) {
            let x = if op == Symbol::Equ {
                BoolExprView::Eq(Box::new(lhs), Box::new(rhs))
            } else {
                BoolExprView::Neq(Box::new(lhs), Box::new(rhs))
            };
            if rest.len() < ts.len() {
                lemma_equality_tail_shape(x, rest);
            }
        }
    }
}

/// A comparison has the shape of its grammar.
pub proof fn lemma_parse_rel_shape(ts: Seq<TokenView>)
    ensures
        parse_rel(ts) matches Ok((e, _)) ==> rel_shape(e),
    decreases ts.len(), 14nat,
{
    lemma_parse_numexpr_shape(ts);
    if let Ok((x, rest)) = parse_numexpr(ts) {
        if relop_of(next_symbol(rest)) is Some && rest.len() <= ts.len() {
            lemma_parse_numexpr_shape(rest.drop_first());
        }
    }
}

/// A numeric expression has the shape of its grammar: `*` and `/` bind
/// tighter than `+` and `-`, unary operators bind tighter than binary ones,
/// chains lean to the left, and parentheses override all of it.
pub proof fn lemma_parse_numexpr_shape(ts: Seq<TokenView>)
    ensures
        parse_numexpr(ts) matches Ok((e, _)) ==> sum_shape(e),
    decreases ts.len(), 12nat,
{
    lemma_parse_term_shape(ts);
    if let Ok((x, rest)) = parse_term(ts) {
        lemma_shapes_nest(x);
        if rest.len() <= ts.len() {
            lemma_numexpr_tail_shape(x, rest);
        }
    }
}

/// A chain of `+` and `-` behind an operand of its shape has that shape.
pub proof fn lemma_numexpr_tail_shape(lhs: NumExprView, ts: Seq<TokenView>)
    requires
        sum_shape(lhs),
    ensures
        numexpr_tail(lhs, ts) matches Ok((e, _)) ==> sum_shape(e),
    decreases ts.len(), 11nat,
{
    let op = next_symbol(ts);
    if op == Symbol::Add || op == Symbol::Sub {
        lemma_parse_term_shape(ts.drop_first());
        if let Ok((rhs, rest)) = parse_term(ts.drop_first()) {
            let x = if op == Symbol::Add {
                NumExprView::Add(Box::new(lhs), Box::new(rhs))
            } else {
                NumExprView::Sub(Box::new(lhs), Box::new(rhs))
            };
            if rest.len() < ts.len() {
                lemma_numexpr_tail_shape(x, rest);
            }
        }
    }
}

/// A chain of `*` and `/` has the shape of its grammar.
pub proof fn lemma_parse_term_shape(ts: Seq<TokenView>)
    ensures
        parse_term(ts) matches Ok((e, _)) ==> term_shape(e),
    decreases ts.len(), 10nat,
{
    lemma_parse_unary_shape(ts);
    if let Ok((x, rest)) = parse_unary(ts) {
        lemma_shapes_nest(x);
        if rest.len() <= ts.len() {
            lemma_term_tail_shape(x, rest);
        }
    }
}

/// A chain of `*` and `/` behind an operand of its shape has that shape.
pub proof fn lemma_term_tail_shape(lhs: NumExprView, ts: Seq<TokenView>)
    requires
        term_shape(lhs),
    ensures
        term_tail(lhs, ts) matches Ok((e, _)) ==> term_shape(e),
    decreases ts.len(), 9nat,
{
    let op = next_symbol(ts);
    if op == Symbol::Mul || op == Symbol::Div {
        lemma_parse_unary_shape(ts.drop_first());
        if let Ok((rhs, rest)) = parse_unary(ts.drop_first()) {
            let x = if op == Symbol::Mul {
                NumExprView::Mul(Box::new(lhs), Box::new(rhs))
            } else {
                NumExprView::Div(Box::new(lhs), Box::new(rhs))
            };
            if rest.len() < ts.len() {
                lemma_term_tail_shape(x, rest);
            }
        }
    }
}

/// A unary expression has the shape of its grammar.
pub proof fn lemma_parse_unary_shape(ts: Seq<TokenView>)
    ensures
        parse_unary(ts) matches Ok((e, _)) ==> unary_shape(e),
    decreases ts.len(), 8nat,
{
    let op = next_symbol(ts);
    if op == Symbol::Sub || op == Symbol::Not {
        lemma_parse_unary_shape(ts.drop_first());
    } else {
        lemma_parse_factor_shape(ts);
        if let Ok((x, _)) = parse_factor(ts) {
            lemma_shapes_nest(x);
        }
    }
}

/// A factor has the shape of its grammar.
pub proof fn lemma_parse_factor_shape(ts: Seq<TokenView>)
    ensures
        parse_factor(ts) matches Ok((e, _)) ==> factor_shape(e),
    decreases ts.len(), 7nat,
{
    match peek(ts).tag {
        Tag::Ide => {
            lemma_parse_loc_shape(ts);
        },
        Tag::LParen => {
            lemma_parse_parenthesized_shape(ts);
        },
        _ => {},
    }
}

/// An expression in parentheses has the shape of a boolean expression.
pub proof fn lemma_parse_parenthesized_shape(ts: Seq<TokenView>)
    ensures
        parse_parenthesized(ts) matches Ok((e, _)) ==> bool_shape(e),
    decreases ts.len(), 4nat,
{
    if peek(ts).tag == Tag::LParen {
        lemma_parse_bool_shape(ts.drop_first());
    }
}

/// A location has the shape of its grammar.
pub proof fn lemma_parse_loc_shape(ts: Seq<TokenView>)
    ensures
        parse_loc(ts) matches Ok((l, _)) ==> loc_shape(l),
    decreases ts.len(), 6nat,
{
    if let Ok((name, rest)) = expect_identifier(ts) {
        lemma_loc_tail_shape(Seq::empty(), rest);
    }
}

/// An index in brackets has the shape of a boolean expression.
pub proof fn lemma_parse_index_shape(ts: Seq<TokenView>)
    ensures
        parse_index(ts) matches Ok((e, _)) ==> bool_shape(e),
    decreases ts.len(), 4nat,
{
    if peek(ts).tag == Tag::LArrParen {
        lemma_parse_bool_shape(ts.drop_first());
    }
}

/// Indices behind indices of their shape have that shape.
pub proof fn lemma_loc_tail_shape(indices: Seq<BoolExprView>, ts: Seq<TokenView>)
    requires
        indices_shape(indices),
    ensures
        loc_tail(indices, ts) matches Ok((all, _)) ==> indices_shape(all),
    decreases ts.len(), 5nat,
{
    if peek(ts).tag == Tag::LArrParen {
        lemma_parse_index_shape(ts);
        if let Ok((b, rest)) = parse_index(ts) {
            assert(indices.push(b).drop_last() == indices);
            if rest.len() < ts.len() {
                lemma_loc_tail_shape(indices.push(b), rest);
            }
        }
    }
}

} // verus!
