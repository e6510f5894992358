//! The text of the trees that the grammar yields: the tokens of a tree, in
//! order, are the tokens that it was parsed from.

use vstd::prelude::*;
use crate::ast::expression::{BoolExprView, LocView, NumExprView, Relop};
use crate::grammar::{
    bool_tail, equality_tail, expect, expect_identifier, expect_number, join_tail, loc_tail,
    numexpr_tail, parse_bool, parse_equality, parse_factor, parse_index, parse_join, parse_loc,
    parse_numexpr, parse_parenthesized, parse_rel, parse_term, parse_unary, relop_of, term_tail,
};
use crate::lexer::{all_canonical, lemma_operator_symbol, Symbol, Tag, TokenInfoView, TokenView};
use crate::parser::{next_symbol, peek};

verus! {

/// The token of an order comparison.
pub open spec fn relop_token(r: Relop) -> TokenView {
    match r {
        Relop::Ge => TokenView::operator(Symbol::Ge),
        Relop::Gr => TokenView::operator(Symbol::Gr),
        Relop::Leq => TokenView::operator(Symbol::Leq),
        Relop::Les => TokenView::operator(Symbol::Les),
    }
}

/// The tokens of a boolean expression, operands and operators in the order
/// of the text. Parentheses are written only where the tree has them.
pub open spec fn bool_tokens(e: BoolExprView) -> Seq<TokenView>
    decreases e,
{
    match e {
        BoolExprView::Or(a, b) => bool_tokens(*a) + seq![TokenView::operator(Symbol::Or)]
            + bool_tokens(*b),
        BoolExprView::And(a, b) => bool_tokens(*a) + seq![TokenView::operator(Symbol::And)]
            + bool_tokens(*b),
        BoolExprView::Eq(a, b) => bool_tokens(*a) + seq![TokenView::operator(Symbol::Equ)]
            + bool_tokens(*b),
        BoolExprView::Neq(a, b) => bool_tokens(*a) + seq![TokenView::operator(Symbol::Neq)]
            + bool_tokens(*b),
        BoolExprView::Relop(r, x, y) => num_tokens(*x) + seq![relop_token(r)] + num_tokens(*y),
        BoolExprView::NumExpr(x) => num_tokens(*x),
    }
}

/// The tokens of a numeric expression.
pub open spec fn num_tokens(e: NumExprView) -> Seq<TokenView>
    decreases e,
{
    match e {
        NumExprView::Add(a, b) => num_tokens(*a) + seq![TokenView::operator(Symbol::Add)]
            + num_tokens(*b),
        NumExprView::Sub(a, b) => num_tokens(*a) + seq![TokenView::operator(Symbol::Sub)]
            + num_tokens(*b),
        NumExprView::Mul(a, b) => num_tokens(*a) + seq![TokenView::operator(Symbol::Mul)]
            + num_tokens(*b),
        NumExprView::Div(a, b) => num_tokens(*a) + seq![TokenView::operator(Symbol::Div)]
            + num_tokens(*b),
        NumExprView::Not(a) => seq![TokenView::operator(Symbol::Not)] + num_tokens(*a),
        NumExprView::Minus(a) => seq![TokenView::operator(Symbol::Sub)] + num_tokens(*a),
        NumExprView::Expr(b) => seq![TokenView::plain(Tag::LParen)] + bool_tokens(*b) + seq![
            TokenView::plain(Tag::RParen),
        ],
        NumExprView::Loc(l) => loc_tokens(l),
        NumExprView::Num(x) => seq![TokenView { tag: Tag::Num, info: TokenInfoView::Num(x) }],
        NumExprView::True => seq![TokenView::plain(Tag::True)],
        NumExprView::False => seq![TokenView::plain(Tag::False)],
    }
}

/// The token of the identifier `name`.
pub open spec fn name_token(name: Seq<char>) -> TokenView {
    TokenView { tag: Tag::Ide, info: TokenInfoView::Ide(name) }
}

/// The tokens of a location.
pub open spec fn loc_tokens(l: LocView) -> Seq<TokenView>
    decreases l,
{
    match l {
        LocView::Ide(name) => seq![name_token(name)],
        LocView::Index(name, indices) => seq![name_token(name)] + indices_tokens(indices),
    }
}

/// The tokens of a list of indices, each in its brackets.
pub open spec fn indices_tokens(indices: Seq<BoolExprView>) -> Seq<TokenView>
    decreases indices,
{
    if indices.len() == 0 {
        Seq::empty()
    } else {
        indices_tokens(indices.drop_last()) + seq![TokenView::plain(Tag::LArrParen)] + bool_tokens(
            indices.last(),
        ) + seq![TokenView::plain(Tag::RArrParen)]
    }
}

/// What stands behind canonical tokens in a canonical sequence is
/// canonical.
pub proof fn lemma_canonical_rest(ts: Seq<TokenView>, front: Seq<TokenView>, rest: Seq<TokenView>)
    requires
        all_canonical(ts),
        ts == front + rest,
    ensures
        all_canonical(rest),
{
    assert forall|i: int| 0 <= i < rest.len() implies (#[trigger] rest[i]).canonical() by {
        assert(rest[i] == ts[front.len() + i]);
    }
}

/// A canonical sequence that starts with a token with the tag `tag`, which
/// has no payload, starts with the plain token of that tag.
proof fn lemma_expect_plain(tag: Tag, ts: Seq<TokenView>)
    requires
        all_canonical(ts),
        TokenView::plain(tag).canonical(),
    ensures
        expect(tag, ts) matches Ok(rest) ==> ts == seq![TokenView::plain(tag)] + rest,
{
    if let Ok(rest) = expect(tag, ts) {
        assert(ts[0].canonical());
        assert(ts =~= seq![TokenView::plain(tag)] + rest);
    }
}

/// A sequence that starts with an operator starts with the token of that
/// operator.
proof fn lemma_next_operator(ts: Seq<TokenView>)
    requires
        next_symbol(ts) != Symbol::Other,
    ensures
        ts == seq![TokenView::operator(next_symbol(ts))] + ts.drop_first(),
{
    lemma_operator_symbol(ts[0]);
    assert(ts =~= seq![ts[0]] + ts.drop_first());
}

/// The tokens of a chain: `lhs op rhs` in front of `rest`.
proof fn lemma_chain(
    lhs: Seq<TokenView>,
    op: TokenView,
    ts: Seq<TokenView>,
    rhs: Seq<TokenView>,
    rest: Seq<TokenView>,
)
    requires
        ts.len() > 0,
        ts == seq![op] + ts.drop_first(),
        ts.drop_first() == rhs + rest,
    ensures
        lhs + ts == (lhs + seq![op] + rhs) + rest,
{
    assert(lhs + ts =~= (lhs + seq![op] + rhs) + rest);
}

/// A boolean expression is made of the tokens that were read for it: the
/// tokens of the tree, in order, followed by the tokens that are left, are
/// the tokens that were given.
pub proof fn lemma_parse_bool_text(ts: Seq<TokenView>)
    requires
        all_canonical(ts),
    ensures
        parse_bool(ts) matches Ok((e, rest)) ==> ts == bool_tokens(e) + rest,
    decreases ts.len(), 20nat,
{
    lemma_parse_join_text(ts);
    if let Ok((x, rest)) = parse_join(ts) {
        lemma_canonical_rest(ts, bool_tokens(x), rest);
        if rest.len() <= ts.len() {
            lemma_bool_tail_text(x, rest);
        }
    }
}

/// A chain of `||` is made of the tokens that were read for it.
pub proof fn lemma_bool_tail_text(lhs: BoolExprView, ts: Seq<TokenView>)
    requires
        all_canonical(ts),
    ensures
        bool_tail(lhs, ts) matches Ok((e, rest)) ==> bool_tokens(lhs) + ts == bool_tokens(e)
            + rest,
    decreases ts.len(), 19nat,
{
    if next_symbol(ts) == Symbol::Or {
        let after = ts.drop_first();
        lemma_next_operator(ts);
        lemma_canonical_rest(ts, seq![ts[0]], after);
        lemma_parse_join_text(after);
        if let Ok((rhs, rest)) = parse_join(after) {
            let x = BoolExprView::Or(Box::new(lhs), Box::new(rhs));
            lemma_canonical_rest(after, bool_tokens(rhs), rest);
            lemma_chain(bool_tokens(lhs), ts[0], ts, bool_tokens(rhs), rest);
            if rest.len() < ts.len() {
                lemma_bool_tail_text(x, rest);
            }
        }
    }
}

/// A chain of `&&` is made of the tokens that were read for it.
pub proof fn lemma_parse_join_text(ts: Seq<TokenView>)
    requires
        all_canonical(ts),
    ensures
        parse_join(ts) matches Ok((e, rest)) ==> ts == bool_tokens(e) + rest,
    decreases ts.len(), 18nat,
{
    lemma_parse_equality_text(ts);
    if let Ok((x, rest)) = parse_equality(ts) {
        lemma_canonical_rest(ts, bool_tokens(x), rest);
        if rest.len() <= ts.len() {
            lemma_join_tail_text(x, rest);
        }
    }
}

/// A chain of `&&` is made of the tokens that were read for it.
pub proof fn lemma_join_tail_text(lhs: BoolExprView, ts: Seq<TokenView>)
    requires
        all_canonical(ts),
    ensures
        join_tail(lhs, ts) matches Ok((e, rest)) ==> bool_tokens(lhs) + ts == bool_tokens(e)
            + rest,
    decreases ts.len(), 17nat,
{
    if next_symbol(ts) == Symbol::And {
        let after = ts.drop_first();
        lemma_next_operator(ts);
        lemma_canonical_rest(ts, seq![ts[0]], after);
        lemma_parse_equality_text(after);
        if let Ok((rhs, rest)) = parse_equality(after) {
            let x = BoolExprView::And(Box::new(lhs), Box::new(rhs));
            lemma_canonical_rest(after, bool_tokens(rhs), rest);
            lemma_chain(bool_tokens(lhs), ts[0], ts, bool_tokens(rhs), rest);
            if rest.len() < ts.len() {
                lemma_join_tail_text(x, rest);
            }
        }
    }
}

/// A chain of `==` and `!=` is made of the tokens that were read for it.
pub proof fn lemma_parse_equality_text(ts: Seq<TokenView>)
    requires
        all_canonical(ts),
    ensures
        parse_equality(ts) matches Ok((e, rest)) ==> ts == bool_tokens(e) + rest,
    decreases ts.len(), 16nat,
{
    lemma_parse_rel_text(ts);
    if let Ok((x, rest)) = parse_rel(ts) {
        lemma_canonical_rest(ts, bool_tokens(x), rest);
        if rest.len() <= ts.len() {
            lemma_equality_tail_text(x, rest);
        }
    }
}

/// A chain of `==` and `!=` is made of the tokens that were read for it.
pub proof fn lemma_equality_tail_text(lhs: BoolExprView, ts: Seq<TokenView>)
    requires
        all_canonical(ts),
    ensures
        equality_tail(lhs, ts) matches Ok((e, rest)) ==> bool_tokens(lhs) + ts == bool_tokens(e)
            + rest,
    decreases ts.len(), 15nat,
{
    let op = next_symbol(ts);
    if op == Symbol::Equ || op == Symbol::Neq {
        let after = ts.drop_first();
        lemma_next_operator(ts);
        lemma_canonical_rest(ts, seq![ts[0]], after);
        lemma_parse_rel_text(after);
        if let Ok((rhs, rest)) = parse_rel(after) {
            let x = if op == Symbol::Equ {
                BoolExprView::Eq(Box::new(lhs), Box::new(rhs))
            } else {
                BoolExprView::Neq(Box::new(lhs), Box::new(rhs))
            };
            lemma_canonical_rest(after, bool_tokens(rhs), rest);
            lemma_chain(bool_tokens(lhs), ts[0], ts, bool_tokens(rhs), rest);
            if rest.len() < ts.len() {
                lemma_equality_tail_text(x, rest);
            }
        }
    }
}

/// The tokens of a comparison: its operands with its operator between
/// them.
proof fn lemma_compare(
    ts: Seq<TokenView>,
    x: NumExprView,
    rest: Seq<TokenView>,
    r: Relop,
    y: NumExprView,
    rest2: Seq<TokenView>,
)
    requires
        ts == num_tokens(x) + rest,
        rest.len() > 0,
        rest[0] == relop_token(r),
        rest.drop_first() == num_tokens(y) + rest2,
    ensures
        ts == bool_tokens(BoolExprView::Relop(r, Box::new(x), Box::new(y))) + rest2,
{
    assert(rest =~= seq![rest[0]] + rest.drop_first());
    assert(ts =~= (num_tokens(x) + seq![relop_token(r)] + num_tokens(y)) + rest2);
}

/// The token of an order comparison is the token of its operator.
proof fn lemma_relop_token(t: TokenView)
    requires
        relop_of(t.symbol()) is Some,
    ensures
        t == relop_token(relop_of(t.symbol())->0),
{
    lemma_operator_symbol(t);
}

/// A comparison is made of the tokens that were read for it.
pub proof fn lemma_parse_rel_text(ts: Seq<TokenView>)
    requires
        all_canonical(ts),
    ensures
        parse_rel(ts) matches Ok((e, rest)) ==> ts == bool_tokens(e) + rest,
    decreases ts.len(), 14nat,
{
    lemma_parse_numexpr_text(ts);
    if let Ok((x, rest)) = parse_numexpr(ts) {
        lemma_canonical_rest(ts, num_tokens(x), rest);
        if relop_of(next_symbol(rest)) is Some && rest.len() <= ts.len() {
            let r = relop_of(next_symbol(rest))->0;
            let after = rest.drop_first();
            lemma_relop_token(rest[0]);
            assert(rest =~= seq![rest[0]] + after);
            lemma_canonical_rest(rest, seq![rest[0]], after);
            lemma_parse_numexpr_text(after);
            if let Ok((y, rest2)) = parse_numexpr(after) {
                lemma_compare(ts, x, rest, r, y, rest2);
            }
        }
    }
}

/// A numeric expression is made of the tokens that were read for it.
pub proof fn lemma_parse_numexpr_text(ts: Seq<TokenView>)
    requires
        all_canonical(ts),
    ensures
        parse_numexpr(ts) matches Ok((e, rest)) ==> ts == num_tokens(e) + rest,
    decreases ts.len(), 12nat,
{
    lemma_parse_term_text(ts);
    if let Ok((x, rest)) = parse_term(ts) {
        lemma_canonical_rest(ts, num_tokens(x), rest);
        if rest.len() <= ts.len() {
            lemma_numexpr_tail_text(x, rest);
        }
    }
}

/// A chain of `+` and `-` is made of the tokens that were read for it.
pub proof fn lemma_numexpr_tail_text(lhs: NumExprView, ts: Seq<TokenView>)
    requires
        all_canonical(ts),
    ensures
        numexpr_tail(lhs, ts) matches Ok((e, rest)) ==> num_tokens(lhs) + ts == num_tokens(e)
            + rest,
    decreases ts.len(), 11nat,
{
    let op = next_symbol(ts);
    if op == Symbol::Add || op == Symbol::Sub {
        let after = ts.drop_first();
        lemma_next_operator(ts);
        lemma_canonical_rest(ts, seq![ts[0]], after);
        lemma_parse_term_text(after);
        if let Ok((rhs, rest)) = parse_term(after) {
            let x = if op == Symbol::Add {
                NumExprView::Add(Box::new(lhs), Box::new(rhs))
            } else {
                NumExprView::Sub(Box::new(lhs), Box::new(rhs))
            };
            lemma_canonical_rest(after, num_tokens(rhs), rest);
            lemma_chain(num_tokens(lhs), ts[0], ts, num_tokens(rhs), rest);
            if rest.len() < ts.len() {
                lemma_numexpr_tail_text(x, rest);
            }
        }
    }
}

/// A chain of `*` and `/` is made of the tokens that were read for it.
pub proof fn lemma_parse_term_text(ts: Seq<TokenView>)
    requires
        all_canonical(ts),
    ensures
        parse_term(ts) matches Ok((e, rest)) ==> ts == num_tokens(e) + rest,
    decreases ts.len(), 10nat,
{
    lemma_parse_unary_text(ts);
    if let Ok((x, rest)) = parse_unary(ts) {
        lemma_canonical_rest(ts, num_tokens(x), rest);
        if rest.len() <= ts.len() {
            lemma_term_tail_text(x, rest);
        }
    }
}

/// A chain of `*` and `/` is made of the tokens that were read for it.
pub proof fn lemma_term_tail_text(lhs: NumExprView, ts: Seq<TokenView>)
    requires
        all_canonical(ts),
    ensures
        term_tail(lhs, ts) matches Ok((e, rest)) ==> num_tokens(lhs) + ts == num_tokens(e) + rest,
    decreases ts.len(), 9nat,
{
    let op = next_symbol(ts);
    if op == Symbol::Mul || op == Symbol::Div {
        let after = ts.drop_first();
        lemma_next_operator(ts);
        lemma_canonical_rest(ts, seq![ts[0]], after);
        lemma_parse_unary_text(after);
        if let Ok((rhs, rest)) = parse_unary(after) {
            let x = if op == Symbol::Mul {
                NumExprView::Mul(Box::new(lhs), Box::new(rhs))
            } else {
                NumExprView::Div(Box::new(lhs), Box::new(rhs))
            };
            lemma_canonical_rest(after, num_tokens(rhs), rest);
            lemma_chain(num_tokens(lhs), ts[0], ts, num_tokens(rhs), rest);
            if rest.len() < ts.len() {
                lemma_term_tail_text(x, rest);
            }
        }
    }
}

/// A unary expression is made of the tokens that were read for it.
pub proof fn lemma_parse_unary_text(ts: Seq<TokenView>)
    requires
        all_canonical(ts),
    ensures
        parse_unary(ts) matches Ok((e, rest)) ==> ts == num_tokens(e) + rest,
    decreases ts.len(), 8nat,
{
    let op = next_symbol(ts);
    if op == Symbol::Sub || op == Symbol::Not {
        let after = ts.drop_first();
        lemma_next_operator(ts);
        lemma_canonical_rest(ts, seq![ts[0]], after);
        lemma_parse_unary_text(after);
        if let Ok((x, rest)) = parse_unary(after) {
            assert(ts =~= (seq![ts[0]] + num_tokens(x)) + rest);
        }
    } else {
        lemma_parse_factor_text(ts);
    }
}

/// A factor is made of the tokens that were read for it.
pub proof fn lemma_parse_factor_text(ts: Seq<TokenView>)
    requires
        all_canonical(ts),
    ensures
        parse_factor(ts) matches Ok((e, rest)) ==> ts == num_tokens(e) + rest,
    decreases ts.len(), 7nat,
{
    let tag = peek(ts).tag;
    if tag == Tag::Ide {
        lemma_parse_loc_text(ts);
    } else if tag == Tag::Num {
        if let Ok((x, rest)) = expect_number(ts) {
            assert(ts =~= seq![ts[0]] + rest);
        }
    } else if tag == Tag::True {
        lemma_expect_plain(Tag::True, ts);
    } else if tag == Tag::False {
        lemma_expect_plain(Tag::False, ts);
    } else if tag == Tag::LParen {
        lemma_parse_parenthesized_text(ts);
        if let Ok((b, rest)) = parse_parenthesized(ts) {
            let e = NumExprView::Expr(Box::new(b));
            assert(num_tokens(e) == seq![TokenView::plain(Tag::LParen)] + bool_tokens(b) + seq![
                TokenView::plain(Tag::RParen),
            ]);
        }
    }
}

/// An expression in parentheses is made of the tokens that were read for
/// it.
pub proof fn lemma_parse_parenthesized_text(ts: Seq<TokenView>)
    requires
        all_canonical(ts),
    ensures
        parse_parenthesized(ts) matches Ok((e, rest)) ==> ts == seq![
            TokenView::plain(Tag::LParen),
        ] + bool_tokens(e) + seq![TokenView::plain(Tag::RParen)] + rest,
    decreases ts.len(), 4nat,
{
    if peek(ts).tag == Tag::LParen {
        let after = ts.drop_first();
        lemma_expect_plain(Tag::LParen, ts);
        lemma_canonical_rest(ts, seq![ts[0]], after);
        lemma_parse_bool_text(after);
        if let Ok((b, rest)) = parse_bool(after) {
            lemma_canonical_rest(after, bool_tokens(b), rest);
            lemma_expect_plain(Tag::RParen, rest);
            if let Ok(rest2) = expect(Tag::RParen, rest) {
                assert(ts =~= seq![TokenView::plain(Tag::LParen)] + bool_tokens(b) + seq![
                    TokenView::plain(Tag::RParen),
                ] + rest2);
            }
        }
    }
}

/// A location is made of the tokens that were read for it.
pub proof fn lemma_parse_loc_text(ts: Seq<TokenView>)
    requires
        all_canonical(ts),
    ensures
        parse_loc(ts) matches Ok((l, rest)) ==> ts == loc_tokens(l) + rest,
    decreases ts.len(), 6nat,
{
    if let Ok((name, after)) = expect_identifier(ts) {
        assert(ts =~= seq![name_token(name)] + after);
        lemma_canonical_rest(ts, seq![ts[0]], after);
        lemma_loc_tail_text(Seq::empty(), after);
        if let Ok((indices, rest)) = loc_tail(Seq::empty(), after) {
            assert(indices_tokens(Seq::empty()) + after == after);
            assert(ts =~= seq![name_token(name)] + indices_tokens(indices) + rest);
            if indices.len() == 0 {
                assert(indices_tokens(indices) =~= Seq::<TokenView>::empty());
                assert(ts =~= seq![name_token(name)] + rest);
            }
        }
    }
}

/// An index in brackets is made of the tokens that were read for it.
pub proof fn lemma_parse_index_text(ts: Seq<TokenView>)
    requires
        all_canonical(ts),
    ensures
        parse_index(ts) matches Ok((e, rest)) ==> ts == seq![TokenView::plain(Tag::LArrParen)]
            + bool_tokens(e) + seq![TokenView::plain(Tag::RArrParen)] + rest,
    decreases ts.len(), 4nat,
{
    if peek(ts).tag == Tag::LArrParen {
        let after = ts.drop_first();
        lemma_expect_plain(Tag::LArrParen, ts);
        lemma_canonical_rest(ts, seq![ts[0]], after);
        lemma_parse_bool_text(after);
        if let Ok((b, rest)) = parse_bool(after) {
            lemma_canonical_rest(after, bool_tokens(b), rest);
            lemma_expect_plain(Tag::RArrParen, rest);
            if let Ok(rest2) = expect(Tag::RArrParen, rest) {
                assert(ts =~= seq![TokenView::plain(Tag::LArrParen)] + bool_tokens(b) + seq![
                    TokenView::plain(Tag::RArrParen),
                ] + rest2);
            }
        }
    }
}

/// A list of indices is made of the tokens that were read for it.
pub proof fn lemma_loc_tail_text(indices: Seq<BoolExprView>, ts: Seq<TokenView>)
    requires
        all_canonical(ts),
    ensures
        loc_tail(indices, ts) matches Ok((all, rest)) ==> indices_tokens(indices) + ts
            == indices_tokens(all) + rest,
    decreases ts.len(), 5nat,
{
    if peek(ts).tag == Tag::LArrParen {
        lemma_parse_index_text(ts);
        if let Ok((b, rest)) = parse_index(ts) {
            let more = indices.push(b);
            let index = seq![TokenView::plain(Tag::LArrParen)] + bool_tokens(b) + seq![
                TokenView::plain(Tag::RArrParen),
            ];
            assert(more.drop_last() == indices);
            assert(indices_tokens(more) =~= indices_tokens(indices) + index);
            lemma_canonical_rest(ts, index, rest);
            assert(indices_tokens(indices) + ts =~= indices_tokens(more) + rest);
            if rest.len() < ts.len() {
                lemma_loc_tail_text(more, rest);
            }
        }
    }
}

} // verus!
