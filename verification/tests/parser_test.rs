use mini_compiler::ast::expression::{BoolExpr as B, Loc, NumExpr as N, Relop};
use mini_compiler::ast::statement::{BasicType, Block, Decl as D, Program, Statement as S, Type};
use mini_compiler::lexer::{Scanner, Tag};
use mini_compiler::parser::{Expected, ParseError, ParseNode, Parser};

type BAst = Box<B>;
type NAst = Box<N>;

fn parser_for(s: &str) -> Parser {
    let scanner = Scanner::new_static(String::from(s));
    Parser::new(scanner)
}

fn parse_string(s: &str) -> Option<Box<Program>> {
    let mut parser = parser_for(s);
    parser.parse().unwrap();
    parser.ast_root
}

fn parse_stmt(s: &str) -> Box<S> {
    S::parse(&mut parser_for(s)).unwrap()
}

fn parse_bool(s: &str) -> BAst {
    B::parse(&mut parser_for(s)).unwrap()
}

fn parse_expr(s: &str) -> NAst {
    N::parse(&mut parser_for(s)).unwrap()
}

fn parse_decl(s: &str) -> Box<D> {
    D::parse(&mut parser_for(s)).unwrap()
}

fn nbox<T>(x: T) -> Box<T> {
    Box::new(x)
}

fn ast_ide(s: &str) -> NAst {
    Box::new(N::Loc(Box::new(Loc::Ide(String::from(s)))))
}

fn ast_num(x: u32) -> NAst {
    Box::new(N::Num(x))
}

fn bnumexpr(x: NAst) -> BAst {
    nbox(B::NumExpr(x))
}

fn btrue() -> BAst {
    nbox(B::NumExpr(nbox(N::True)))
}

fn assign() -> Box<S> {
    nbox(S::Assign(nbox(Loc::Ide(String::from("y"))), bnumexpr(ast_ide("x"))))
}

fn prog(decls: Vec<Box<D>>, stmts: Vec<Box<S>>) -> Option<Box<Program>> {
    Some(nbox(Program { block: Box::new(Block { decls, stmts }) }))
}

fn int_type() -> Type {
    Type { basic_type: BasicType::Int, element_width: 4, dim_width: vec![] }
}

fn unexpected(expected: Expected, found: Tag) -> ParseError {
    ParseError::Unexpected { expected, found }
}

#[test]
fn numexpr_test() {
    let s = "1+3"; // Add
    let ast = nbox(N::Add(ast_num(1), ast_num(3)));
    assert_eq!(ast, parse_expr(s));

    let s = "-1*y"; // Mul, Minus
    let ast = nbox(N::Mul(nbox(N::Minus(ast_num(1))), ast_ide("y")));
    assert_eq!(ast, parse_expr(s));

    let s = "(1/!y)"; // Not, Div, SubExpr
    let ast = nbox(N::Expr(nbox(B::NumExpr(nbox(N::Div(
        ast_num(1),
        nbox(N::Not(ast_ide("y"))),
    ))))));
    assert_eq!(ast, parse_expr(s));
}

#[test]
fn bool_test() {
    let btrue = nbox(B::NumExpr(nbox(N::True)));
    let bfalse = nbox(B::NumExpr(nbox(N::False)));

    // True, False, Or
    let s = "True || False";
    let ast = nbox(B::Or(btrue, bfalse));
    assert_eq!(ast, parse_bool(s));

    // And, Eq
    let s = "y && (3==5)";
    let ast = nbox(B::And(
        bnumexpr(ast_ide("y")),
        bnumexpr(nbox(N::Expr(nbox(B::Eq(bnumexpr(ast_num(3)), bnumexpr(ast_num(5))))))),
    ));
    assert_eq!(ast, parse_bool(s));

    // Neq, Leq
    let s = "(3!=5) <= y";
    let ast = nbox(B::Relop(
        Relop::Leq,
        nbox(N::Expr(nbox(B::Neq(bnumexpr(ast_num(3)), bnumexpr(ast_num(5)))))),
        ast_ide("y"),
    ));
    assert_eq!(ast, parse_bool(s));
}

#[test]
fn decl_test() {
    let s = "int x;";
    let ast = nbox(D { type_id: nbox(int_type()), id: nbox(String::from("x")) });
    assert_eq!(ast, parse_decl(s));

    let s = "float[3] x;";
    let ast = nbox(D {
        type_id: nbox(Type {
            basic_type: BasicType::Float,
            element_width: 4,
            dim_width: vec![12, 4],
        }),
        id: nbox(String::from("x")),
    });
    assert_eq!(ast, parse_decl(s));
}

#[test]
fn stmt_test() {
    // Assign
    let s = "y=x;";
    let ast = assign();
    assert_eq!(ast, parse_stmt(s));

    // IfThenElse
    let s = "if(True) y=x; else y=x;";
    let ast = nbox(S::IfElse(btrue(), assign(), assign()));
    assert_eq!(ast, parse_stmt(s));

    // While
    let s = "while(True) y=x;";
    let ast = nbox(S::While(btrue(), assign()));
    assert_eq!(ast, parse_stmt(s));
}

#[test]
fn prog_test() {
    let s = "{int x; y=x;}";
    let ast = prog(
        vec![nbox(D { type_id: nbox(int_type()), id: nbox(String::from("x")) })],
        vec![nbox(S::Assign(nbox(Loc::Ide(String::from("y"))), bnumexpr(ast_ide("x"))))],
    );
    assert_eq!(ast, parse_string(s));
}

#[test]
fn operators_of_one_level_lean_left() {
    // ((1+3) - ((x*y)/543))
    let ast = nbox(N::Sub(
        nbox(N::Add(ast_num(1), ast_num(3))),
        nbox(N::Div(nbox(N::Mul(ast_ide("x"), ast_ide("y"))), ast_num(543))),
    ));
    assert_eq!(ast, parse_expr("1+3-x*y/543"));
    let ast = nbox(N::Sub(nbox(N::Sub(ast_num(1), ast_num(2))), ast_num(3)));
    assert_eq!(ast, parse_expr("1-2-3"));
}

#[test]
fn multiplication_binds_tighter_than_addition() {
    let ast = nbox(N::Add(ast_num(1), nbox(N::Mul(ast_num(2), ast_num(3)))));
    assert_eq!(ast, parse_expr("1+2*3"));
    let ast = nbox(N::Add(nbox(N::Mul(ast_num(1), ast_num(2))), ast_num(3)));
    assert_eq!(ast, parse_expr("1*2+3"));
}

#[test]
fn unary_binds_tighter_than_binary() {
    let ast = nbox(N::Add(nbox(N::Minus(ast_ide("x"))), ast_ide("y")));
    assert_eq!(ast, parse_expr("-x+y"));
    let ast = nbox(N::Minus(nbox(N::Not(nbox(N::Minus(ast_ide("x")))))));
    assert_eq!(ast, parse_expr("-!-x"));
}

#[test]
fn parentheses_override_precedence() {
    let sum = nbox(N::Expr(bnumexpr(nbox(N::Add(ast_num(1), ast_num(2))))));
    let ast = nbox(N::Mul(sum, ast_num(3)));
    assert_eq!(ast, parse_expr("(1+2)*3"));
}

#[test]
fn boolean_levels() {
    // a || b && c == d  is  a || (b && (c == d))
    let eq = nbox(B::Eq(bnumexpr(ast_ide("c")), bnumexpr(ast_ide("d"))));
    let and = nbox(B::And(bnumexpr(ast_ide("b")), eq));
    let ast = nbox(B::Or(bnumexpr(ast_ide("a")), and));
    assert_eq!(ast, parse_bool("a || b && c == d"));
    // equalities chain to the left
    let first = nbox(B::Eq(bnumexpr(ast_ide("a")), bnumexpr(ast_ide("b"))));
    let ast = nbox(B::Neq(first, bnumexpr(ast_ide("c"))));
    assert_eq!(ast, parse_bool("a == b != c"));
}

#[test]
fn comparisons_do_not_chain() {
    let mut parser = parser_for("a < b < c");
    let ast = nbox(B::Relop(Relop::Les, ast_ide("a"), ast_ide("b")));
    assert_eq!(B::parse(&mut parser).unwrap(), ast);
    assert_eq!(parser.lookahead.tag, Tag::RelOp);
    assert_eq!(
        S::parse(&mut parser_for("x = a < b < c;")),
        Err(unexpected(Expected::Tag(Tag::SemiColon), Tag::RelOp))
    );
}

#[test]
fn each_relational_operator() {
    for (text, op) in [(">=", Relop::Ge), (">", Relop::Gr), ("<=", Relop::Leq), ("<", Relop::Les)] {
        let ast = nbox(B::Relop(op, ast_num(1), ast_num(2)));
        assert_eq!(ast, parse_bool(&format!("1 {} 2", text)));
    }
}

#[test]
fn indexed_location() {
    let ast = nbox(Loc::Index(
        String::from("a"),
        vec![bnumexpr(ast_ide("i")), bnumexpr(nbox(N::Add(ast_ide("j"), ast_num(1))))],
    ));
    assert_eq!(Loc::parse(&mut parser_for("a[i][j+1]")).unwrap(), ast);
    assert_eq!(
        Loc::parse(&mut parser_for("a")).unwrap(),
        nbox(Loc::Ide(String::from("a")))
    );
    // an index is a full boolean expression
    let ast = nbox(Loc::Index(
        String::from("a"),
        vec![nbox(B::Relop(Relop::Gr, ast_ide("i"), ast_num(0)))],
    ));
    assert_eq!(Loc::parse(&mut parser_for("a[i>0]")).unwrap(), ast);
}

#[test]
fn array_types() {
    let t = Type::parse(&mut parser_for("int[2][3]")).unwrap();
    assert_eq!(*t, Type { basic_type: BasicType::Int, element_width: 4, dim_width: vec![24, 12, 4] });
    let t = Type::parse(&mut parser_for("float")).unwrap();
    assert_eq!(*t, Type { basic_type: BasicType::Float, element_width: 4, dim_width: vec![] });
    let t = Type::parse(&mut parser_for("int[0]")).unwrap();
    assert_eq!(*t, Type { basic_type: BasicType::Int, element_width: 4, dim_width: vec![0, 4] });
}

#[test]
fn array_too_large() {
    assert_eq!(
        Type::parse(&mut parser_for("int[1073741824]")),
        Err(ParseError::ArrayTooLarge)
    );
    assert_eq!(
        Type::parse(&mut parser_for("int[65536][65536]")),
        Err(ParseError::ArrayTooLarge)
    );
    // the largest that fits
    let t = Type::parse(&mut parser_for("int[1073741823]")).unwrap();
    assert_eq!(t.dim_width, vec![4294967292, 4]);
}

#[test]
fn array_extent_must_be_a_literal() {
    assert_eq!(
        Type::parse(&mut parser_for("int[n]")),
        Err(unexpected(Expected::Tag(Tag::Num), Tag::Ide))
    );
    assert_eq!(
        Type::parse(&mut parser_for("int[3")),
        Err(unexpected(Expected::Tag(Tag::RArrParen), Tag::Eof))
    );
}

#[test]
fn if_without_else_and_dangling_else() {
    let ast = nbox(S::If(btrue(), assign()));
    assert_eq!(ast, parse_stmt("if (True) y=x;"));
    let inner = nbox(S::IfElse(btrue(), assign(), assign()));
    let ast = nbox(S::If(btrue(), inner));
    assert_eq!(ast, parse_stmt("if (True) if (True) y=x; else y=x;"));
}

#[test]
fn break_and_nested_block() {
    assert_eq!(nbox(S::Break), parse_stmt("break;"));
    let block = nbox(Block { decls: vec![], stmts: vec![nbox(S::Break), assign()] });
    assert_eq!(nbox(S::BlockStmt(block)), parse_stmt("{ break; y=x; }"));
}

#[test]
fn declarations_and_statements_interleave() {
    let ast = prog(
        vec![
            nbox(D { type_id: nbox(int_type()), id: nbox(String::from("x")) }),
            nbox(D { type_id: nbox(int_type()), id: nbox(String::from("y")) }),
        ],
        vec![assign(), assign()],
    );
    assert_eq!(ast, parse_string("{int x; y=x; int y; y=x;}"));
}

#[test]
fn tokens_behind_the_program_are_left() {
    let mut parser = parser_for("{} x");
    parser.parse().unwrap();
    assert_eq!(parser.lookahead.tag, Tag::Ide);
    assert_eq!(*parser.get_root(), Program { block: nbox(Block { decls: vec![], stmts: vec![] }) });
    assert!(parser.ast_root.is_none());
}

#[test]
fn syntax_errors() {
    assert_eq!(
        N::parse(&mut parser_for("1 + ;")),
        Err(unexpected(Expected::Factor, Tag::SemiColon))
    );
    assert_eq!(N::parse(&mut parser_for("")), Err(unexpected(Expected::Factor, Tag::Eof)));
    assert_eq!(
        N::parse(&mut parser_for("(1")),
        Err(unexpected(Expected::Tag(Tag::RParen), Tag::Eof))
    );
    assert_eq!(
        S::parse(&mut parser_for("y x;")),
        Err(unexpected(Expected::Tag(Tag::Assign), Tag::Ide))
    );
    assert_eq!(
        S::parse(&mut parser_for("y = x")),
        Err(unexpected(Expected::Tag(Tag::SemiColon), Tag::Eof))
    );
    assert_eq!(
        S::parse(&mut parser_for("if True) y=x;")),
        Err(unexpected(Expected::Tag(Tag::LParen), Tag::True))
    );
    assert_eq!(S::parse(&mut parser_for("; ")), Err(unexpected(Expected::Statement, Tag::SemiColon)));
    assert_eq!(
        D::parse(&mut parser_for("int 3;")),
        Err(unexpected(Expected::Tag(Tag::Ide), Tag::Num))
    );
    assert_eq!(
        D::parse(&mut parser_for("x;")),
        Err(unexpected(Expected::Tag(Tag::Type), Tag::Ide))
    );
    assert_eq!(
        Loc::parse(&mut parser_for("3")),
        Err(unexpected(Expected::Tag(Tag::Ide), Tag::Num))
    );
    assert_eq!(
        parser_for("int x;").parse(),
        Err(unexpected(Expected::Tag(Tag::OpenBlock), Tag::Type))
    );
    assert_eq!(parser_for("{ y=x; ").parse(), Err(unexpected(Expected::Statement, Tag::Eof)));
    assert_eq!(
        parser_for("{ a & b; }").parse(),
        Err(unexpected(Expected::Tag(Tag::Assign), Tag::Error))
    );
}

#[test]
fn match_and_shift() {
    let mut parser = parser_for("x ;");
    assert_eq!(
        parser.match_lookahead(Tag::SemiColon),
        Err(unexpected(Expected::Tag(Tag::SemiColon), Tag::Ide))
    );
    assert_eq!(parser.lookahead.tag, Tag::Ide);
    let tok = parser.match_lookahead(Tag::Ide).unwrap();
    assert_eq!(tok.tag, Tag::Ide);
    assert_eq!(parser.shift_lookahead().tag, Tag::SemiColon);
    assert_eq!(parser.shift_lookahead().tag, Tag::Eof);
    assert_eq!(parser.shift_lookahead().tag, Tag::Eof);
}

#[test]
fn nodes_parse_through_the_trait() {
    let ast = <N as ParseNode>::parse(&mut parser_for("1+3")).unwrap();
    assert_eq!(ast, nbox(N::Add(ast_num(1), ast_num(3))));
    let ast = <S as ParseNode>::parse(&mut parser_for("break;")).unwrap();
    assert_eq!(ast, nbox(S::Break));
    assert_eq!(
        <D as ParseNode>::parse(&mut parser_for("int;")),
        Err(unexpected(Expected::Tag(Tag::Ide), Tag::SemiColon))
    );
}

#[test]
fn the_parser_stops_in_front_of_the_error() {
    let mut parser = parser_for("x = 1 + * 2;");
    assert_eq!(S::parse(&mut parser), Err(unexpected(Expected::Factor, Tag::NumOp)));
    assert_eq!(parser.lookahead.to_cow_string(), "*");
    let mut parser = parser_for("int[3 x;");
    assert_eq!(
        D::parse(&mut parser),
        Err(unexpected(Expected::Tag(Tag::RArrParen), Tag::Ide))
    );
    assert_eq!(parser.lookahead.to_cow_string(), "x");
    // an array that is too large is found behind its last bracket
    let mut parser = parser_for("int[65536][65536] big;");
    assert_eq!(D::parse(&mut parser), Err(ParseError::ArrayTooLarge));
    assert_eq!(parser.lookahead.to_cow_string(), "big");
    let mut parser = parser_for("{ y = 1; ) }");
    assert_eq!(parser.parse(), Err(unexpected(Expected::Statement, Tag::RParen)));
    assert_eq!(parser.lookahead.tag, Tag::RParen);
    assert!(parser.ast_root.is_none());
}
