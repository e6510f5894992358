//! The parser's state: one token of lookahead in front of the scanner.

use vstd::pervasive::unreached;
use vstd::prelude::*;
use crate::ast::statement::Program;
use crate::grammar::{expect, expect_identifier, expect_number, parse_program, Parsed};
use crate::lexer::{
    all_canonical, lemma_scan_canonical, lemma_tokens_canonical, Scanner, Symbol, Tag, Token,
    TokenInfo, TokenView,
};

verus! {

/// What the parser was looking for when it stopped.
#[derive(PartialEq, Eq, Debug, Clone, Copy, Structural)]
pub enum Expected {
    /// A token with this tag.
    Tag(Tag),
    /// The start of a statement.
    Statement,
    /// The start of a factor: an identifier, a number, `True`, `False` or an
    /// opening parenthesis.
    Factor,
}

/// Why a text is not a program. Parsing stops at the first error.
#[derive(PartialEq, Eq, Debug, Clone, Copy, Structural)]
pub enum ParseError {
    /// A token with the tag `found` stands where `expected` had to stand.
    Unexpected { expected: Expected, found: Tag },
    /// An array type whose size in bytes does not fit in 32 bits.
    ArrayTooLarge,
}

/// A kind of node of the syntax tree that can be parsed.
pub trait ParseNode: Sized {
    /// The mathematical value of a node.
    type Tree;

    /// The value of this node.
    spec fn tree(&self) -> Self::Tree;

    /// The grammar of the node: the tree that a sequence of tokens starts
    /// with and the tokens behind it, or the first error.
    spec fn grammar(ts: Seq<TokenView>) -> Parsed<Self::Tree>;

    /// Parses a node from the tokens in front of the parser.
    fn parse(parser: &mut Parser) -> (r: Result<Box<Self>, ParseError>)
        ensures
            final(parser).ast_root == old(parser).ast_root,
            match Self::grammar(old(parser).tokens()) {
                Ok((tree, rest)) => r is Ok && r->Ok_0.tree() == tree && final(parser).tokens()
                    == rest,
                Err((e, rest)) => r == Err::<Box<Self>, ParseError>(e) && final(parser).tokens()
                    == rest,
            },
    ;
}

/// A parser over the tokens of a scanner.
pub struct Parser {
    pub lookahead: Token,
    pub scanner: Scanner,
    pub ast_root: Option<Box<Program>>,
}

/// The first token of `ts`; behind the last token stands `Eof`.
pub open spec fn peek(ts: Seq<TokenView>) -> TokenView {
    if ts.len() > 0 {
        ts[0]
    } else {
        TokenView::eof()
    }
}

/// The operator that `ts` starts with.
pub open spec fn next_symbol(ts: Seq<TokenView>) -> Symbol {
    if ts.len() > 0 {
        ts[0].symbol()
    } else {
        Symbol::Other
    }
}

impl Parser {
    /// The tokens in front of the parser: the lookahead and what the scanner
    /// will produce, up to the first `Eof`, which is left out.
    pub closed spec fn tokens(&self) -> Seq<TokenView> {
        if self.lookahead@.tag == Tag::Eof {
            Seq::empty()
        } else {
            seq![self.lookahead@] + self.scanner@.tokens()
        }
    }

    /// The tokens in front of a parser whose lookahead came from a scanner
    /// are canonical.
    pub proof fn lemma_tokens_canonical(&self)
        requires
            self.lookahead@.canonical(),
        ensures
            all_canonical(self.tokens()),
    {
        lemma_tokens_canonical(self.scanner@);
        let rest = self.scanner@.tokens();
        assert forall|i: int| 0 <= i < self.tokens().len() implies (
        #[trigger] self.tokens()[i]).canonical() by {
            if i > 0 {
                assert(self.tokens()[i] == rest[i - 1]);
            }
        }
    }

    /// A parser at the first token of `scanner`.
    pub fn new(scanner: Scanner) -> (parser: Parser)
        ensures
            parser.lookahead@ == scanner@.scan().0,
            parser.scanner@ == scanner@.scan().1,
            parser.ast_root is None,
            parser.tokens() == scanner@.tokens(),
            parser.lookahead@.canonical(),
    {
        let mut scanner = scanner;
        proof {
            lemma_scan_canonical(scanner@);
        }
        let lookahead = scanner.scan();
        Parser { lookahead, scanner, ast_root: None }
    }

    /// Parses a program and keeps its syntax tree. The tokens behind the
    /// program are left where they are.
    pub fn parse(&mut self) -> (r: Result<(), ParseError>)
        ensures
            match parse_program(old(self).tokens()) {
                Ok((program, rest)) => r is Ok && final(self).ast_root is Some
                    && final(self).ast_root->0@ == program && final(self).tokens() == rest,
                Err((e, rest)) => r == Err::<(), ParseError>(e) && final(self).tokens() == rest
                    && final(self).ast_root == old(self).ast_root,
            },
    {
        let root = Program::parse(self)?;
        self.ast_root = Some(root);
        Ok(())
    }

    /// Takes the syntax tree out of the parser.
    pub fn get_root(&mut self) -> (root: Box<Program>)
        requires
            old(self).ast_root is Some,
        ensures
            Some(root) == old(self).ast_root,
            final(self).ast_root is None,
            final(self).lookahead == old(self).lookahead,
            final(self).scanner == old(self).scanner,
            final(self).tokens() == old(self).tokens(),
    {
        self.ast_root.take().unwrap()
    }

    /// The lookahead. It is the first of the tokens in front of the parser,
    /// if there is one.
    pub fn peek(&self) -> (tok: &Token)
        ensures
            *tok == self.lookahead,
            self.tokens().len() > 0 ==> tok@ == self.tokens()[0],
    {
        &self.lookahead
    }

    /// The tag of the lookahead.
    pub fn peek_tag(&self) -> (tag: Tag)
        ensures
            tag == peek(self.tokens()).tag,
            tag == self.lookahead.tag,
            tag != Tag::Eof ==> self.tokens().len() > 0,
    {
        self.lookahead.tag
    }

    /// The operator that the lookahead stands for.
    pub fn peek_symbol(&self) -> (s: Symbol)
        ensures
            s == next_symbol(self.tokens()),
            s != Symbol::Other ==> self.tokens().len() > 0,
    {
        proof {
            reveal(TokenView::symbol);
        }
        self.lookahead.symbol()
    }

    /// Consumes the identifier that the lookahead must be, and returns its
    /// name; any other token is an error and stays where it is.
    pub fn take_identifier(&mut self) -> (r: Result<String, ParseError>)
        ensures
            final(self).ast_root == old(self).ast_root,
            match expect_identifier(old(self).tokens()) {
                Ok((name, rest)) => r is Ok && r->Ok_0@ == name && final(self).tokens() == rest,
                Err((e, rest)) => r == Err::<String, ParseError>(e) && final(self).tokens()
                    == rest,
            },
    {
        let found = self.lookahead.tag;
        let e = ParseError::Unexpected { expected: Expected::Tag(Tag::Ide), found };
        if found != Tag::Ide {
            return Err(e);
        }
        match &self.lookahead.info {
            TokenInfo::Ide(_) => {},
            _ => {
                return Err(e);
            },
        }
        match self.shift_lookahead().info {
            TokenInfo::Ide(name) => Ok(name),
            _ => unreached(),
        }
    }

    /// Consumes the number that the lookahead must be, and returns its
    /// value; any other token is an error and stays where it is.
    pub fn take_number(&mut self) -> (r: Result<u32, ParseError>)
        ensures
            final(self).ast_root == old(self).ast_root,
            match expect_number(old(self).tokens()) {
                Ok((x, rest)) => r == Ok::<u32, ParseError>(x) && final(self).tokens() == rest,
                Err((e, rest)) => r == Err::<u32, ParseError>(e) && final(self).tokens() == rest,
            },
    {
        let found = self.lookahead.tag;
        let e = ParseError::Unexpected { expected: Expected::Tag(Tag::Num), found };
        if found != Tag::Num {
            return Err(e);
        }
        match &self.lookahead.info {
            TokenInfo::Num(_) => {},
            _ => {
                return Err(e);
            },
        }
        match self.shift_lookahead().info {
            TokenInfo::Num(x) => Ok(x),
            _ => unreached(),
        }
    }

    /// Consumes the lookahead if its tag is `tag`, and returns it; any other
    /// token is an error and stays where it is.
    pub fn match_lookahead(&mut self, tag: Tag) -> (r: Result<Token, ParseError>)
        ensures
            tag != Tag::Eof ==> match expect(tag, old(self).tokens()) {
                Ok(rest) => r is Ok && final(self).tokens() == rest,
                Err((e, rest)) => r == Err::<Token, ParseError>(e) && final(self).tokens() == rest,
            },
            old(self).lookahead.tag == tag ==> r == Ok::<Token, ParseError>(old(self).lookahead)
                && final(self).lookahead@ == old(self).scanner@.scan().0 && final(self).scanner@
                == old(self).scanner@.scan().1,
            old(self).lookahead.tag != tag ==> r == Err::<Token, ParseError>(
                ParseError::Unexpected {
                    expected: Expected::Tag(tag),
                    found: old(self).lookahead.tag,
                },
            ) && final(self).lookahead == old(self).lookahead && final(self).scanner == old(
                self,
            ).scanner,
            final(self).ast_root == old(self).ast_root,
    {
        if self.lookahead.tag == tag {
            Ok(self.shift_lookahead())
        } else {
            Err(ParseError::Unexpected { expected: Expected::Tag(tag), found: self.lookahead.tag })
        }
    }

    /// Consumes the lookahead, whatever it is, and returns it; the next token
    /// of the scanner takes its place.
    pub fn shift_lookahead(&mut self) -> (out: Token)
        ensures
            out == old(self).lookahead,
            final(self).lookahead@ == old(self).scanner@.scan().0,
            final(self).scanner@ == old(self).scanner@.scan().1,
            final(self).ast_root == old(self).ast_root,
            old(self).tokens().len() > 0 ==> out@ == old(self).tokens()[0] && final(self).tokens()
                == old(self).tokens().drop_first(),
    {
        let mut next = self.scanner.scan();
        core::mem::swap(&mut self.lookahead, &mut next);
        next
    }
}

} // verus!
