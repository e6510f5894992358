//! Tokens and the scanner that produces them from program text.

use vstd::prelude::*;
use vstd::string::*;

verus! {

/// The category of a token.
#[derive(PartialEq, Eq, Hash, Debug, Clone, Copy, Structural)]
pub enum Tag {
    /// End of the input.
    Eof,
    /// A character sequence that forms no token.
    Error,
    If,
    Else,
    While,
    Break,
    CloseBlock,
    OpenBlock,
    SemiColon,
    LArrParen,
    RArrParen,
    LParen,
    RParen,
    Assign,
    BoolOp,
    RelOp,
    Unary,
    NumOp,
    Type,
    Ide,
    Num,
    True,
    False,
}

/// What a token carries besides its tag: which operator or type it is, the
/// value of a number, the name of an identifier.
#[derive(PartialEq, Debug)]
pub enum TokenInfo {
    NoInfo,
    Or,
    And,
    Ge,
    Gr,
    Leq,
    Les,
    Equ,
    Neq,
    Not,
    Add,
    Sub,
    Mul,
    Div,
    Int,
    Float,
    Num(u32),
    Ide(String),
}

/// A token as the scanner hands it to the parser.
#[derive(PartialEq, Debug)]
pub struct Token {
    pub tag: Tag,
    pub info: TokenInfo,
}

/// The mathematical value of a [`TokenInfo`]: an identifier is its sequence of
/// characters.
pub enum TokenInfoView {
    NoInfo,
    Or,
    And,
    Ge,
    Gr,
    Leq,
    Les,
    Equ,
    Neq,
    Not,
    Add,
    Sub,
    Mul,
    Div,
    Int,
    Float,
    Num(u32),
    Ide(Seq<char>),
}

/// The mathematical value of a [`Token`].
pub struct TokenView {
    pub tag: Tag,
    pub info: TokenInfoView,
}

impl View for TokenInfo {
    type V = TokenInfoView;

    open spec fn view(&self) -> TokenInfoView {
        match *self {
            TokenInfo::NoInfo => TokenInfoView::NoInfo,
            TokenInfo::Or => TokenInfoView::Or,
            TokenInfo::And => TokenInfoView::And,
            TokenInfo::Ge => TokenInfoView::Ge,
            TokenInfo::Gr => TokenInfoView::Gr,
            TokenInfo::Leq => TokenInfoView::Leq,
            TokenInfo::Les => TokenInfoView::Les,
            TokenInfo::Equ => TokenInfoView::Equ,
            TokenInfo::Neq => TokenInfoView::Neq,
            TokenInfo::Not => TokenInfoView::Not,
            TokenInfo::Add => TokenInfoView::Add,
            TokenInfo::Sub => TokenInfoView::Sub,
            TokenInfo::Mul => TokenInfoView::Mul,
            TokenInfo::Div => TokenInfoView::Div,
            TokenInfo::Int => TokenInfoView::Int,
            TokenInfo::Float => TokenInfoView::Float,
            TokenInfo::Num(x) => TokenInfoView::Num(x),
            TokenInfo::Ide(s) => TokenInfoView::Ide(s@),
        }
    }
}

impl View for Token {
    type V = TokenView;

    open spec fn view(&self) -> TokenView {
        TokenView { tag: self.tag, info: self.info@ }
    }
}

/// The character that writes the decimal digit `d`.
pub open spec fn digit_char(d: nat) -> char {
    if d == 0 {
        '0'
    } else if d == 1 {
        '1'
    } else if d == 2 {
        '2'
    } else if d == 3 {
        '3'
    } else if d == 4 {
        '4'
    } else if d == 5 {
        '5'
    } else if d == 6 {
        '6'
    } else if d == 7 {
        '7'
    } else if d == 8 {
        '8'
    } else {
        '9'
    }
}

/// The decimal numeral of `n`, without leading zeros.
pub open spec fn decimal_digits(n: nat) -> Seq<char>
    decreases n,
{
    if n < 10 {
        seq![digit_char(n)]
    } else {
        decimal_digits(n / 10).push(digit_char(n % 10))
    }
}

impl TokenView {
    /// The token that ends every token stream.
    pub open spec fn eof() -> TokenView {
        TokenView { tag: Tag::Eof, info: TokenInfoView::NoInfo }
    }

    /// Whether the token's tag and payload fit together well enough for the
    /// token to have a text: an operator names one of its kind, a type names
    /// a type, an identifier has a name and a number a value.
    pub open spec fn has_text(self) -> bool {
        match self.tag {
            Tag::BoolOp => self.info is And || self.info is Or,
            Tag::RelOp => self.info is Ge || self.info is Gr || self.info is Leq
                || self.info is Les || self.info is Equ || self.info is Neq,
            Tag::NumOp => self.info is Add || self.info is Sub || self.info is Mul
                || self.info is Div,
            Tag::Type => self.info is Int || self.info is Float,
            Tag::Ide => self.info is Ide,
            Tag::Num => self.info is Num,
            _ => true,
        }
    }

    /// The text of the token.
    pub open spec fn text(self) -> Seq<char>
        recommends
            self.has_text(),
    {
        match self.tag {
            Tag::Eof => "EOF"@,
            Tag::Error => "error"@,
            Tag::If => "if"@,
            Tag::Else => "else"@,
            Tag::While => "while"@,
            Tag::Break => "break"@,
            Tag::CloseBlock => "}"@,
            Tag::OpenBlock => "{"@,
            Tag::SemiColon => ";"@,
            Tag::LArrParen => "["@,
            Tag::RArrParen => "]"@,
            Tag::LParen => "("@,
            Tag::RParen => ")"@,
            Tag::Assign => "="@,
            Tag::BoolOp => match self.info {
                TokenInfoView::And => "&&"@,
                _ => "||"@,
            },
            Tag::RelOp => match self.info {
                TokenInfoView::Ge => ">="@,
                TokenInfoView::Gr => ">"@,
                TokenInfoView::Leq => "<="@,
                TokenInfoView::Les => "<"@,
                TokenInfoView::Equ => "=="@,
                _ => "!="@,
            },
            Tag::Unary => "!"@,
            Tag::NumOp => match self.info {
                TokenInfoView::Add => "+"@,
                TokenInfoView::Sub => "-"@,
                TokenInfoView::Mul => "*"@,
                _ => "/"@,
            },
            Tag::Type => match self.info {
                TokenInfoView::Int => "type(int)"@,
                _ => "type(float)"@,
            },
            Tag::Ide => match self.info {
                TokenInfoView::Ide(s) => s,
                _ => Seq::empty(),
            },
            Tag::Num => match self.info {
                TokenInfoView::Num(x) => decimal_digits(x as nat),
                _ => Seq::empty(),
            },
            Tag::True => "True"@,
            Tag::False => "False"@,
        }
    }
}

/// The one-character text of a decimal digit.
fn digit_str(d: u32) -> (s: &'static str)
    requires
        d < 10,
    ensures
        s@ == seq![digit_char(d as nat)],
{
    proof {
        reveal_strlit("0");
        reveal_strlit("1");
        reveal_strlit("2");
        reveal_strlit("3");
        reveal_strlit("4");
        reveal_strlit("5");
        reveal_strlit("6");
        reveal_strlit("7");
        reveal_strlit("8");
        reveal_strlit("9");
    }
    if d == 0 {
        "0"
    } else if d == 1 {
        "1"
    } else if d == 2 {
        "2"
    } else if d == 3 {
        "3"
    } else if d == 4 {
        "4"
    } else if d == 5 {
        "5"
    } else if d == 6 {
        "6"
    } else if d == 7 {
        "7"
    } else if d == 8 {
        "8"
    } else {
        "9"
    }
}

/// Writes `x` in decimal.
pub fn decimal_string(x: u32) -> (s: String)
    ensures
        s@ == decimal_digits(x as nat),
    decreases x,
{
    if x < 10 {
        String::from_str(digit_str(x))
    } else {
        let mut s = decimal_string(x / 10);
        s.append(digit_str(x % 10));
        s
    }
}

/// The operator that a token stands for.
#[derive(PartialEq, Eq, Debug, Clone, Copy, Structural)]
pub enum Symbol {
    Or,
    And,
    Ge,
    Gr,
    Leq,
    Les,
    Equ,
    Neq,
    Not,
    Add,
    Sub,
    Mul,
    Div,
    /// The token is no operator.
    Other,
}

impl TokenView {
    /// The operator that the token stands for: its tag says of which kind
    /// it is, and its payload which one of that kind.
    #[verifier::opaque]
    pub open spec fn symbol(self) -> Symbol {
        match (self.tag, self.info) {
            (Tag::BoolOp, TokenInfoView::Or) => Symbol::Or,
            (Tag::BoolOp, TokenInfoView::And) => Symbol::And,
            (Tag::RelOp, TokenInfoView::Ge) => Symbol::Ge,
            (Tag::RelOp, TokenInfoView::Gr) => Symbol::Gr,
            (Tag::RelOp, TokenInfoView::Leq) => Symbol::Leq,
            (Tag::RelOp, TokenInfoView::Les) => Symbol::Les,
            (Tag::RelOp, TokenInfoView::Equ) => Symbol::Equ,
            (Tag::RelOp, TokenInfoView::Neq) => Symbol::Neq,
            (Tag::Unary, TokenInfoView::Not) => Symbol::Not,
            (Tag::NumOp, TokenInfoView::Add) => Symbol::Add,
            (Tag::NumOp, TokenInfoView::Sub) => Symbol::Sub,
            (Tag::NumOp, TokenInfoView::Mul) => Symbol::Mul,
            (Tag::NumOp, TokenInfoView::Div) => Symbol::Div,
            _ => Symbol::Other,
        }
    }
}

impl Token {
    /// The operator that the token stands for.
    pub fn symbol(&self) -> (s: Symbol)
        ensures
            s == self@.symbol(),
            s != Symbol::Other ==> self.tag != Tag::Eof,
    {
        reveal(TokenView::symbol);
        match self.tag {
            Tag::BoolOp => match &self.info {
                TokenInfo::Or => Symbol::Or,
                TokenInfo::And => Symbol::And,
                _ => Symbol::Other,
            },
            Tag::RelOp => match &self.info {
                TokenInfo::Ge => Symbol::Ge,
                TokenInfo::Gr => Symbol::Gr,
                TokenInfo::Leq => Symbol::Leq,
                TokenInfo::Les => Symbol::Les,
                TokenInfo::Equ => Symbol::Equ,
                TokenInfo::Neq => Symbol::Neq,
                _ => Symbol::Other,
            },
            Tag::Unary => match &self.info {
                TokenInfo::Not => Symbol::Not,
                _ => Symbol::Other,
            },
            Tag::NumOp => match &self.info {
                TokenInfo::Add => Symbol::Add,
                TokenInfo::Sub => Symbol::Sub,
                TokenInfo::Mul => Symbol::Mul,
                TokenInfo::Div => Symbol::Div,
                _ => Symbol::Other,
            },
            _ => Symbol::Other,
        }
    }

    /// A token with the tag `tag` and the payload `info`.
    pub fn new(tag: Tag, info: TokenInfo) -> (tok: Token)
        ensures
            tok.tag == tag,
            tok.info == info,
    {
        Token { tag, info }
    }

    /// The text of the token, as it would be written in a program.
    pub fn to_cow_string(&self) -> (s: String)
        requires
            self@.has_text(),
        ensures
            s@ == self@.text(),
    {
        match self.tag {
            Tag::Eof => String::from_str("EOF"),
            Tag::Error => String::from_str("error"),
            Tag::If => String::from_str("if"),
            Tag::Else => String::from_str("else"),
            Tag::While => String::from_str("while"),
            Tag::Break => String::from_str("break"),
            Tag::CloseBlock => String::from_str("}"),
            Tag::OpenBlock => String::from_str("{"),
            Tag::SemiColon => String::from_str(";"),
            Tag::LArrParen => String::from_str("["),
            Tag::RArrParen => String::from_str("]"),
            Tag::LParen => String::from_str("("),
            Tag::RParen => String::from_str(")"),
            Tag::Assign => String::from_str("="),
            Tag::BoolOp => match &self.info {
                TokenInfo::And => String::from_str("&&"),
                _ => String::from_str("||"),
            },
            Tag::RelOp => match &self.info {
                TokenInfo::Ge => String::from_str(">="),
                TokenInfo::Gr => String::from_str(">"),
                TokenInfo::Leq => String::from_str("<="),
                TokenInfo::Les => String::from_str("<"),
                TokenInfo::Equ => String::from_str("=="),
                _ => String::from_str("!="),
            },
            Tag::Unary => String::from_str("!"),
            Tag::NumOp => match &self.info {
                TokenInfo::Add => String::from_str("+"),
                TokenInfo::Sub => String::from_str("-"),
                TokenInfo::Mul => String::from_str("*"),
                _ => String::from_str("/"),
            },
            Tag::Type => match &self.info {
                TokenInfo::Int => String::from_str("type(int)"),
                _ => String::from_str("type(float)"),
            },
            Tag::Ide => match &self.info {
                TokenInfo::Ide(x) => x.clone(),
                _ => String::new(),
            },
            Tag::Num => match &self.info {
                TokenInfo::Num(x) => decimal_string(*x),
                _ => String::new(),
            },
            Tag::True => String::from_str("True"),
            Tag::False => String::from_str("False"),
        }
    }
}

/// Whether `c` separates tokens without being one.
pub open spec fn is_space(c: char) -> bool {
    c == ' ' || c == '\t' || c == '\n'
}

/// Whether `c` is one of the ten decimal digits.
pub open spec fn is_digit(c: char) -> bool {
    '0' <= c && c <= '9'
}

/// Whether `c` is an unaccented Latin letter.
pub open spec fn is_letter(c: char) -> bool {
    ('a' <= c && c <= 'z') || ('A' <= c && c <= 'Z')
}

/// Whether the Unicode tables class `c` as a letter or a number.
pub uninterp spec fn unicode_alphanumeric(c: char) -> bool;

/// Whether `c` can continue an identifier or a keyword: a letter or a digit,
/// of any script.
pub open spec fn is_word_char(c: char) -> bool {
    if c <= '\u{7f}' {
        is_digit(c) || is_letter(c)
    } else {
        unicode_alphanumeric(c)
    }
}

/// The value of the decimal digit `c`.
pub open spec fn digit_value(c: char) -> nat
    recommends
        is_digit(c),
{
    (c as u32 - '0' as u32) as nat
}

/// The token that the single character `c` forms, if it forms one by itself.
pub open spec fn single_char_token(c: char) -> Option<TokenView> {
    if c == '+' {
        Some(TokenView { tag: Tag::NumOp, info: TokenInfoView::Add })
    } else if c == '-' {
        Some(TokenView { tag: Tag::NumOp, info: TokenInfoView::Sub })
    } else if c == '*' {
        Some(TokenView { tag: Tag::NumOp, info: TokenInfoView::Mul })
    } else if c == '/' {
        Some(TokenView { tag: Tag::NumOp, info: TokenInfoView::Div })
    } else if c == '(' {
        Some(TokenView { tag: Tag::LParen, info: TokenInfoView::NoInfo })
    } else if c == ')' {
        Some(TokenView { tag: Tag::RParen, info: TokenInfoView::NoInfo })
    } else if c == '[' {
        Some(TokenView { tag: Tag::LArrParen, info: TokenInfoView::NoInfo })
    } else if c == ']' {
        Some(TokenView { tag: Tag::RArrParen, info: TokenInfoView::NoInfo })
    } else if c == '{' {
        Some(TokenView { tag: Tag::OpenBlock, info: TokenInfoView::NoInfo })
    } else if c == '}' {
        Some(TokenView { tag: Tag::CloseBlock, info: TokenInfoView::NoInfo })
    } else if c == ';' {
        Some(TokenView { tag: Tag::SemiColon, info: TokenInfoView::NoInfo })
    } else {
        None
    }
}

/// The token that a whole word forms: a keyword, a type name, or else an
/// identifier.
pub open spec fn word_token(w: Seq<char>) -> TokenView {
    if w == "if"@ {
        TokenView { tag: Tag::If, info: TokenInfoView::NoInfo }
    } else if w == "else"@ {
        TokenView { tag: Tag::Else, info: TokenInfoView::NoInfo }
    } else if w == "while"@ {
        TokenView { tag: Tag::While, info: TokenInfoView::NoInfo }
    } else if w == "break"@ {
        TokenView { tag: Tag::Break, info: TokenInfoView::NoInfo }
    } else if w == "True"@ {
        TokenView { tag: Tag::True, info: TokenInfoView::NoInfo }
    } else if w == "False"@ {
        TokenView { tag: Tag::False, info: TokenInfoView::NoInfo }
    } else if w == "int"@ {
        TokenView { tag: Tag::Type, info: TokenInfoView::Int }
    } else if w == "float"@ {
        TokenView { tag: Tag::Type, info: TokenInfoView::Float }
    } else {
        TokenView { tag: Tag::Ide, info: TokenInfoView::Ide(w) }
    }
}

/// The state of a scanner: the character it looks at and the text behind it.
/// The character `'\0'` stands for the end of the text.
pub struct ScannerView {
    pub lookahead: char,
    pub rest: Seq<char>,
}

impl ScannerView {
    /// The state after the next character of the text has become the
    /// lookahead.
    pub open spec fn advance(self) -> ScannerView {
        if self.rest.len() == 0 {
            ScannerView { lookahead: '\0', rest: self.rest }
        } else {
            ScannerView { lookahead: self.rest[0], rest: self.rest.drop_first() }
        }
    }

    /// The state after a token that ends with the lookahead: the lookahead is
    /// used up, and a blank takes its place.
    pub open spec fn consumed(self) -> ScannerView {
        ScannerView { lookahead: ' ', rest: self.rest }
    }

    /// The value of the longest run of digits at the front, read as a decimal
    /// numeral after the digits that gave `acc`, and the state behind the run.
    pub open spec fn digits(self, acc: nat) -> (nat, ScannerView)
        decreases self.rest.len(), (if is_digit(self.lookahead) { 1nat } else { 0nat }),
    {
        if is_digit(self.lookahead) {
            self.advance().digits(acc * 10 + digit_value(self.lookahead))
        } else {
            (acc, self)
        }
    }

    /// The longest run of word characters at the front, appended to `acc`,
    /// and the state behind the run.
    pub open spec fn word(self, acc: Seq<char>) -> (Seq<char>, ScannerView)
        decreases self.rest.len(), (if is_word_char(self.lookahead) { 1nat } else { 0nat }),
    {
        if is_word_char(self.lookahead) {
            self.advance().word(acc.push(self.lookahead))
        } else {
            (acc, self)
        }
    }

    /// The number at the front: a numeral too large for 32 bits is an error
    /// token.
    pub open spec fn scan_number(self) -> (TokenView, ScannerView) {
        let (v, s) = self.digits(0);
        if v <= u32::MAX {
            (TokenView { tag: Tag::Num, info: TokenInfoView::Num(v as u32) }, s)
        } else {
            (TokenView { tag: Tag::Error, info: TokenInfoView::NoInfo }, s)
        }
    }

    /// The keyword, type name or identifier at the front.
    pub open spec fn scan_iden_keyword(self) -> (TokenView, ScannerView) {
        let (w, s) = self.word(Seq::empty());
        (word_token(w), s)
    }

    /// The token that starts with `=`, `!`, `<` or `>`: a comparison, a
    /// negation or an assignment.
    pub open spec fn scan_relop(self) -> (TokenView, ScannerView) {
        let c = self.lookahead;
        let s = self.advance();
        let d = s.lookahead;
        if d == '=' {
            let info = if c == '=' {
                TokenInfoView::Equ
            } else if c == '!' {
                TokenInfoView::Neq
            } else if c == '<' {
                TokenInfoView::Leq
            } else {
                TokenInfoView::Ge
            };
            (TokenView { tag: Tag::RelOp, info }, s.consumed())
        } else if c == '>' {
            (TokenView { tag: Tag::RelOp, info: TokenInfoView::Gr }, s)
        } else if c == '<' {
            (TokenView { tag: Tag::RelOp, info: TokenInfoView::Les }, s)
        } else if c == '!' {
            (TokenView { tag: Tag::Unary, info: TokenInfoView::Not }, s)
        } else {
            (TokenView { tag: Tag::Assign, info: TokenInfoView::NoInfo }, s)
        }
    }

    /// The token that starts with `|` or `&`: the character doubled is an
    /// operator, alone it is an error.
    pub open spec fn scan_boolop(self) -> (TokenView, ScannerView) {
        let c = self.lookahead;
        let s = self.advance();
        if c == '|' && s.lookahead == '|' {
            (TokenView { tag: Tag::BoolOp, info: TokenInfoView::Or }, s.consumed())
        } else if c == '&' && s.lookahead == '&' {
            (TokenView { tag: Tag::BoolOp, info: TokenInfoView::And }, s.consumed())
        } else {
            (TokenView { tag: Tag::Error, info: TokenInfoView::NoInfo }, s)
        }
    }

    /// The next token and the state behind it. Blanks, tabs and newlines are
    /// skipped. At the end of the text, and at a character that starts no
    /// token, the token is `Eof` and the state stays as it is.
    pub open spec fn scan(self) -> (TokenView, ScannerView)
        decreases self.rest.len(), (if is_space(self.lookahead) { 1nat } else { 0nat }),
    {
        let c = self.lookahead;
        if is_space(c) {
            self.advance().scan()
        } else if is_digit(c) {
            self.scan_number()
        } else if is_letter(c) {
            self.scan_iden_keyword()
        } else if c == '=' || c == '!' || c == '<' || c == '>' {
            self.scan_relop()
        } else if c == '|' || c == '&' {
            self.scan_boolop()
        } else {
            match single_char_token(c) {
                Some(t) => (t, self.consumed()),
                None => (TokenView::eof(), self),
            }
        }
    }
}

/// Turns program text into tokens, one at a time.
pub struct Scanner {
    buffer: Vec<char>,
    pos: usize,
    lookahead: char,
}

impl View for Scanner {
    type V = ScannerView;

    closed spec fn view(&self) -> ScannerView {
        ScannerView {
            lookahead: self.lookahead,
            rest: if self.pos <= self.buffer.len() {
                self.buffer@.skip(self.pos as int)
            } else {
                Seq::empty()
            },
        }
    }
}

/// `char::is_alphanumeric` of the standard library: whether the Unicode
/// tables class `c` as a letter or a number. The answer is a function of `c`
/// alone and is only given a name here.
#[verifier::external_body]
fn char_is_alphanumeric(c: char) -> (r: bool)
    ensures
        r == unicode_alphanumeric(c),
{
    c.is_alphanumeric()
}

/// `String::push` of the standard library: appends `c` to `s`.
#[verifier::external_body]
fn string_push(s: &mut String, c: char)
    ensures
        final(s)@ == old(s)@.push(c),
{
    s.push(c)
}

/// Whether `c` is a blank, a tab or a newline.
fn is_space_char(c: char) -> (r: bool)
    ensures
        r == is_space(c),
{
    c == ' ' || c == '\t' || c == '\n'
}

/// Whether `c` is a decimal digit.
fn is_digit_char(c: char) -> (r: bool)
    ensures
        r == is_digit(c),
{
    '0' <= c && c <= '9'
}

/// Whether `c` is an unaccented Latin letter.
fn is_letter_char(c: char) -> (r: bool)
    ensures
        r == is_letter(c),
{
    ('a' <= c && c <= 'z') || ('A' <= c && c <= 'Z')
}

/// Whether `c` can continue an identifier or a keyword.
fn is_word(c: char) -> (r: bool)
    ensures
        r == is_word_char(c),
{
    if c <= '\u{7f}' {
        is_digit_char(c) || is_letter_char(c)
    } else {
        char_is_alphanumeric(c)
    }
}

/// Whether the word `s` is spelled `k`.
fn spells(s: &String, k: &str) -> (r: bool)
    ensures
        r == (s@ == k@),
{
    let w = String::from_str(k);
    *s == w
}

impl Scanner {
    /// A scanner at the start of the text `s`.
    pub fn new_static(s: String) -> (scanner: Scanner)
        ensures
            scanner@ == (ScannerView { lookahead: ' ', rest: s@ }),
    {
        let text = s.as_str();
        let mut buffer: Vec<char> = Vec::new();
        for c in chars: text.chars()
            invariant
                buffer@ == chars.seq().take(chars.index() as int),
                chars.seq() == text@,
        {
            buffer.push(c);
        }
        assert(buffer@ =~= text@);
        Scanner { buffer, pos: 0, lookahead: ' ' }
    }

    /// Scans the next token.
    pub fn scan(&mut self) -> (tok: Token)
        ensures
            tok@ == old(self)@.scan().0,
            final(self)@ == old(self)@.scan().1,
        decreases old(self)@.rest.len(), (if is_space(old(self)@.lookahead) { 1nat } else { 0nat }),
    {
        let c = self.lookahead;
        if is_space_char(c) {
            self.lookahead = self.read_char();
            self.scan()
        } else if is_digit_char(c) {
            self.scan_number()
        } else if is_letter_char(c) {
            self.scan_iden_keyword()
        } else if c == '=' || c == '!' || c == '<' || c == '>' {
            self.scan_relop()
        } else if c == '|' || c == '&' {
            self.scan_boolop()
        } else if c == '+' {
            self.single_token(Token::new(Tag::NumOp, TokenInfo::Add))
        } else if c == '-' {
            self.single_token(Token::new(Tag::NumOp, TokenInfo::Sub))
        } else if c == '*' {
            self.single_token(Token::new(Tag::NumOp, TokenInfo::Mul))
        } else if c == '/' {
            self.single_token(Token::new(Tag::NumOp, TokenInfo::Div))
        } else if c == '(' {
            self.single_token(Token::new(Tag::LParen, TokenInfo::NoInfo))
        } else if c == ')' {
            self.single_token(Token::new(Tag::RParen, TokenInfo::NoInfo))
        } else if c == '[' {
            self.single_token(Token::new(Tag::LArrParen, TokenInfo::NoInfo))
        } else if c == ']' {
            self.single_token(Token::new(Tag::RArrParen, TokenInfo::NoInfo))
        } else if c == '{' {
            self.single_token(Token::new(Tag::OpenBlock, TokenInfo::NoInfo))
        } else if c == '}' {
            self.single_token(Token::new(Tag::CloseBlock, TokenInfo::NoInfo))
        } else if c == ';' {
            self.single_token(Token::new(Tag::SemiColon, TokenInfo::NoInfo))
        } else {
            Token::new(Tag::Eof, TokenInfo::NoInfo)
        }
    }

    /// Uses up the lookahead as the last character of `tok`.
    fn single_token(&mut self, tok: Token) -> (out: Token)
        ensures
            out == tok,
            final(self)@ == old(self)@.consumed(),
    {
        self.lookahead = ' ';
        tok
    }

    /// Scans the number that starts at the lookahead.
    fn scan_number(&mut self) -> (tok: Token)
        ensures
            tok@ == old(self)@.scan_number().0,
            final(self)@ == old(self)@.scan_number().1,
    {
        let mut v: u32 = 0;
        let mut fits = true;
        let ghost mut acc: nat = 0;
        while is_digit_char(self.lookahead)
            invariant
                fits ==> v == acc,
                !fits ==> acc > u32::MAX,
                self@.digits(acc) == old(self)@.digits(0),
            decreases self@.rest.len(), (if is_digit(self@.lookahead) { 1nat } else { 0nat }),
        {
            let c = self.lookahead;
            let d: u32 = (c as u32) - ('0' as u32);
            proof {
                acc = acc * 10 + digit_value(c);
            }
            if fits && v <= (u32::MAX - d) / 10 {
                v = v * 10 + d;
            } else {
                fits = false;
            }
            self.lookahead = self.read_char();
        }
        if fits {
            Token::new(Tag::Num, TokenInfo::Num(v))
        } else {
            Token::new(Tag::Error, TokenInfo::NoInfo)
        }
    }

    /// Scans the keyword, type name or identifier that starts at the lookahead.
    fn scan_iden_keyword(&mut self) -> (tok: Token)
        ensures
            tok@ == old(self)@.scan_iden_keyword().0,
            final(self)@ == old(self)@.scan_iden_keyword().1,
    {
        let mut s = String::new();
        while is_word(self.lookahead)
            invariant
                self@.word(s@) == old(self)@.word(Seq::empty()),
            decreases self@.rest.len(), (if is_word_char(self@.lookahead) { 1nat } else { 0nat }),
        {
            string_push(&mut s, self.lookahead);
            self.lookahead = self.read_char();
        }
        if spells(&s, "if") {
            Token::new(Tag::If, TokenInfo::NoInfo)
        } else if spells(&s, "else") {
            Token::new(Tag::Else, TokenInfo::NoInfo)
        } else if spells(&s, "while") {
            Token::new(Tag::While, TokenInfo::NoInfo)
        } else if spells(&s, "break") {
            Token::new(Tag::Break, TokenInfo::NoInfo)
        } else if spells(&s, "True") {
            Token::new(Tag::True, TokenInfo::NoInfo)
        } else if spells(&s, "False") {
            Token::new(Tag::False, TokenInfo::NoInfo)
        } else if spells(&s, "int") {
            Token::new(Tag::Type, TokenInfo::Int)
        } else if spells(&s, "float") {
            Token::new(Tag::Type, TokenInfo::Float)
        } else {
            Token::new(Tag::Ide, TokenInfo::Ide(s))
        }
    }

    /// Scans the comparison, negation or assignment that starts at the
    /// lookahead.
    fn scan_relop(&mut self) -> (tok: Token)
        ensures
            tok@ == old(self)@.scan_relop().0,
            final(self)@ == old(self)@.scan_relop().1,
    {
        let c = self.lookahead;
        self.lookahead = self.read_char();
        let d = self.lookahead;
        if d == '=' {
            let info = if c == '=' {
                TokenInfo::Equ
            } else if c == '!' {
                TokenInfo::Neq
            } else if c == '<' {
                TokenInfo::Leq
            } else {
                TokenInfo::Ge
            };
            self.single_token(Token::new(Tag::RelOp, info))
        } else if c == '>' {
            Token::new(Tag::RelOp, TokenInfo::Gr)
        } else if c == '<' {
            Token::new(Tag::RelOp, TokenInfo::Les)
        } else if c == '!' {
            Token::new(Tag::Unary, TokenInfo::Not)
        } else {
            Token::new(Tag::Assign, TokenInfo::NoInfo)
        }
    }

    /// Scans the `&&` or `||` that starts at the lookahead.
    fn scan_boolop(&mut self) -> (tok: Token)
        ensures
            tok@ == old(self)@.scan_boolop().0,
            final(self)@ == old(self)@.scan_boolop().1,
    {
        let c = self.lookahead;
        self.lookahead = self.read_char();
        if c == '|' && self.lookahead == '|' {
            self.single_token(Token::new(Tag::BoolOp, TokenInfo::Or))
        } else if c == '&' && self.lookahead == '&' {
            self.single_token(Token::new(Tag::BoolOp, TokenInfo::And))
        } else {
            Token::new(Tag::Error, TokenInfo::NoInfo)
        }
    }

    /// Takes the next character off the text; `'\0'` when none is left.
    fn read_char(&mut self) -> (c: char)
        ensures
            c == old(self)@.advance().lookahead,
            final(self)@.rest == old(self)@.advance().rest,
            final(self)@.lookahead == old(self)@.lookahead,
    {
        if self.pos >= self.buffer.len() {
            '\0'
        } else {
            let c = self.buffer[self.pos];
            self.pos = self.pos + 1;
            c
        }
    }
}

impl ScannerView {
    /// A bound on the work left: it shrinks with every token but `Eof`.
    pub open spec fn measure(self) -> nat {
        2 * self.rest.len() + if self.lookahead == '\0' {
            0nat
        } else if is_space(self.lookahead) {
            1nat
        } else {
            2nat
        }
    }

    /// The tokens that the scanner will produce from this state on, up to
    /// the first `Eof`, which is left out.
    pub open spec fn tokens(self) -> Seq<TokenView>
        decreases self.measure(),
    {
        let (t, s) = self.scan();
        if t.tag == Tag::Eof {
            Seq::empty()
        } else {
            proof {
                lemma_scan_measure(self);
            }
            seq![t] + s.tokens()
        }
    }
}

/// Reading a character never adds work.
pub proof fn lemma_advance_measure(s: ScannerView)
    ensures
        s.advance().measure() <= 2 * s.rest.len(),
        s.advance().measure() <= s.measure(),
{
}

/// Behind a run of digits no more work is left than before it.
pub proof fn lemma_digits_measure(s: ScannerView, acc: nat)
    ensures
        s.digits(acc).1.measure() <= s.measure(),
        is_digit(s.lookahead) ==> s.digits(acc).1.measure() <= 2 * s.rest.len(),
    decreases s.rest.len(), (if is_digit(s.lookahead) { 1nat } else { 0nat }),
{
    if is_digit(s.lookahead) {
        lemma_advance_measure(s);
        lemma_digits_measure(s.advance(), acc * 10 + digit_value(s.lookahead));
    }
}

/// Behind a word no more work is left than before it.
pub proof fn lemma_word_measure(s: ScannerView, acc: Seq<char>)
    ensures
        s.word(acc).1.measure() <= s.measure(),
        is_word_char(s.lookahead) ==> s.word(acc).1.measure() <= 2 * s.rest.len(),
    decreases s.rest.len(), (if is_word_char(s.lookahead) { 1nat } else { 0nat }),
{
    if is_word_char(s.lookahead) {
        lemma_advance_measure(s);
        lemma_word_measure(s.advance(), acc.push(s.lookahead));
    }
}

/// Scanning never adds work, and a token other than `Eof` uses some up.
pub proof fn lemma_scan_measure(s: ScannerView)
    ensures
        s.scan().1.measure() <= s.measure(),
        s.scan().0.tag != Tag::Eof ==> s.scan().1.measure() < s.measure(),
    decreases s.rest.len(), (if is_space(s.lookahead) { 1nat } else { 0nat }),
{
    let c = s.lookahead;
    lemma_advance_measure(s);
    if is_space(c) {
        lemma_scan_measure(s.advance());
    } else if is_digit(c) {
        lemma_digits_measure(s, 0);
    } else if is_letter(c) {
        lemma_word_measure(s, Seq::empty());
    } else {
    }
}

/// The tokens whose text is always the same: the keywords, the punctuation
/// and the operators.
pub open spec fn fixed_lexicon(t: TokenView) -> bool {
    match t.tag {
        Tag::If | Tag::Else | Tag::While | Tag::Break | Tag::True | Tag::False | Tag::CloseBlock
        | Tag::OpenBlock | Tag::SemiColon | Tag::LArrParen | Tag::RArrParen | Tag::LParen
        | Tag::RParen | Tag::Assign => t.info is NoInfo,
        Tag::BoolOp => t.info is And || t.info is Or,
        Tag::RelOp => t.info is Ge || t.info is Gr || t.info is Leq || t.info is Les
            || t.info is Equ || t.info is Neq,
        Tag::Unary => t.info is Not,
        Tag::NumOp => t.info is Add || t.info is Sub || t.info is Mul || t.info is Div,
        _ => false,
    }
}

/// The scanner at the start of the text `text`.
pub open spec fn scanner_at(text: Seq<char>) -> ScannerView {
    ScannerView { lookahead: ' ', rest: text }
}

/// Every token that the scanner produces has a text.
pub proof fn lemma_scan_has_text(s: ScannerView)
    ensures
        s.scan().0.has_text(),
    decreases s.rest.len(), (if is_space(s.lookahead) { 1nat } else { 0nat }),
{
    if is_space(s.lookahead) {
        lemma_scan_has_text(s.advance());
    }
}

/// The round trip of the tokens of one character that end with it.
proof fn lemma_punctuation_round_trip(t: TokenView)
    requires
        fixed_lexicon(t),
        t.tag == Tag::CloseBlock || t.tag == Tag::OpenBlock || t.tag == Tag::SemiColon || t.tag
            == Tag::LArrParen || t.tag == Tag::RArrParen || t.tag == Tag::LParen || t.tag
            == Tag::RParen || t.tag == Tag::NumOp,
    ensures
        scanner_at(t.text()).tokens() == seq![t],
{
    reveal_strlit("}");
    reveal_strlit("{");
    reveal_strlit(";");
    reveal_strlit("[");
    reveal_strlit("]");
    reveal_strlit("(");
    reveal_strlit(")");
    reveal_strlit("+");
    reveal_strlit("-");
    reveal_strlit("*");
    reveal_strlit("/");
    reveal_with_fuel(ScannerView::scan, 3);
    reveal_with_fuel(ScannerView::tokens, 2);
    let s = scanner_at(t.text());
    assert(s.advance().rest == Seq::<char>::empty());
    assert(s.scan().0 == t);
    assert(s.scan().1.tokens() == Seq::<TokenView>::empty());
    assert(s.tokens() == seq![t] + Seq::<TokenView>::empty());
}

/// The round trip of the tokens that start with `=`, `!`, `<`, `>`, `&` or
/// `|`.
proof fn lemma_operator_round_trip(t: TokenView)
    requires
        fixed_lexicon(t),
        t.tag == Tag::BoolOp || t.tag == Tag::RelOp || t.tag == Tag::Unary || t.tag == Tag::Assign,
    ensures
        scanner_at(t.text()).tokens() == seq![t],
{
    reveal_strlit("&&");
    reveal_strlit("||");
    reveal_strlit(">=");
    reveal_strlit(">");
    reveal_strlit("<=");
    reveal_strlit("<");
    reveal_strlit("==");
    reveal_strlit("!=");
    reveal_strlit("!");
    reveal_strlit("=");
    reveal_with_fuel(ScannerView::scan, 3);
    reveal_with_fuel(ScannerView::tokens, 2);
    let s = scanner_at(t.text());
    let first = s.advance();
    let second = first.advance();
    assert(first.lookahead == t.text()[0]);
    if t.text().len() == 2 {
        assert(first.rest.len() == 1);
        assert(second.lookahead == t.text()[1]);
        assert(second.rest == Seq::<char>::empty());
    } else {
        assert(first.rest == Seq::<char>::empty());
    }
    assert(s.scan().0 == t);
    assert(s.scan().1.tokens() == Seq::<TokenView>::empty());
    assert(s.tokens() == seq![t] + Seq::<TokenView>::empty());
}

/// A word of letters alone at the end of a text is scanned whole.
proof fn lemma_word_alone(s: ScannerView, acc: Seq<char>)
    requires
        forall|i: int| 0 <= i < s.rest.len() ==> is_letter(#[trigger] s.rest[i]),
        is_letter(s.lookahead),
    ensures
        s.word(acc).0 == acc + seq![s.lookahead] + s.rest,
        s.word(acc).1 == (ScannerView { lookahead: '\0', rest: Seq::empty() }),
    decreases s.rest.len(),
{
    let next = s.advance();
    if s.rest.len() == 0 {
        assert(s.rest =~= Seq::<char>::empty());
        assert(next.word(acc.push(s.lookahead)).0 == acc.push(s.lookahead));
        assert(acc.push(s.lookahead) =~= acc + seq![s.lookahead] + s.rest);
    } else {
        assert forall|i: int| 0 <= i < next.rest.len() implies is_letter(
            #[trigger] next.rest[i],
        ) by {
            assert(next.rest[i] == s.rest[i + 1]);
        }
        lemma_word_alone(next, acc.push(s.lookahead));
        assert(acc.push(s.lookahead) + seq![next.lookahead] + next.rest =~= acc + seq![
            s.lookahead,
        ] + s.rest);
    }
}

/// The round trip of the keywords.
proof fn lemma_keyword_round_trip(t: TokenView)
    requires
        fixed_lexicon(t),
        t.tag == Tag::If || t.tag == Tag::Else || t.tag == Tag::While || t.tag == Tag::Break
            || t.tag == Tag::True || t.tag == Tag::False,
    ensures
        scanner_at(t.text()).tokens() == seq![t],
{
    reveal_strlit("if");
    reveal_strlit("else");
    reveal_strlit("while");
    reveal_strlit("break");
    reveal_strlit("True");
    reveal_strlit("False");
    reveal_strlit("int");
    reveal_strlit("float");
    reveal_with_fuel(ScannerView::scan, 3);
    reveal_with_fuel(ScannerView::tokens, 2);
    let s = scanner_at(t.text());
    let first = s.advance();
    let text = t.text();
    assert(first.lookahead == text[0]);
    assert forall|i: int| 0 <= i < first.rest.len() implies is_letter(
        #[trigger] first.rest[i],
    ) by {
        assert(first.rest[i] == text[i + 1]);
    }
    lemma_word_alone(first, Seq::empty());
    assert(Seq::<char>::empty() + seq![first.lookahead] + first.rest =~= text);
    assert(s.scan().0 == t);
    assert(s.scan().1.tokens() == Seq::<TokenView>::empty());
    assert(s.tokens() == seq![t] + Seq::<TokenView>::empty());
}

/// The text of a keyword, of a punctuation mark or of an operator is
/// scanned as that token and nothing else: writing such a token out and
/// scanning it again loses nothing.
pub proof fn lemma_lexicon_round_trip(t: TokenView)
    requires
        fixed_lexicon(t),
    ensures
        scanner_at(t.text()).tokens() == seq![t],
{
    match t.tag {
        Tag::CloseBlock | Tag::OpenBlock | Tag::SemiColon | Tag::LArrParen | Tag::RArrParen
        | Tag::LParen | Tag::RParen | Tag::NumOp => {
            lemma_punctuation_round_trip(t);
        },
        Tag::BoolOp | Tag::RelOp | Tag::Unary | Tag::Assign => {
            lemma_operator_round_trip(t);
        },
        _ => {
            lemma_keyword_round_trip(t);
        },
    }
}

/// Two tokens of the fixed lexicon with the same text are the same token.
pub proof fn lemma_lexicon_text_is_lossless(t: TokenView, u: TokenView)
    requires
        fixed_lexicon(t),
        fixed_lexicon(u),
        t.text() == u.text(),
    ensures
        t == u,
{
    lemma_lexicon_round_trip(t);
    lemma_lexicon_round_trip(u);
    assert(seq![t][0] == seq![u][0]);
}

impl TokenView {
    /// Whether the token is one that the scanner can produce: its payload
    /// is what its tag calls for, and nothing where its tag calls for none.
    pub open spec fn canonical(self) -> bool {
        match self.tag {
            Tag::BoolOp => self.info is And || self.info is Or,
            Tag::RelOp => self.info is Ge || self.info is Gr || self.info is Leq
                || self.info is Les || self.info is Equ || self.info is Neq,
            Tag::NumOp => self.info is Add || self.info is Sub || self.info is Mul
                || self.info is Div,
            Tag::Unary => self.info is Not,
            Tag::Type => self.info is Int || self.info is Float,
            Tag::Ide => self.info is Ide,
            Tag::Num => self.info is Num,
            _ => self.info is NoInfo,
        }
    }

    /// The token of the operator `s`.
    pub open spec fn operator(s: Symbol) -> TokenView {
        match s {
            Symbol::Or => TokenView { tag: Tag::BoolOp, info: TokenInfoView::Or },
            Symbol::And => TokenView { tag: Tag::BoolOp, info: TokenInfoView::And },
            Symbol::Ge => TokenView { tag: Tag::RelOp, info: TokenInfoView::Ge },
            Symbol::Gr => TokenView { tag: Tag::RelOp, info: TokenInfoView::Gr },
            Symbol::Leq => TokenView { tag: Tag::RelOp, info: TokenInfoView::Leq },
            Symbol::Les => TokenView { tag: Tag::RelOp, info: TokenInfoView::Les },
            Symbol::Equ => TokenView { tag: Tag::RelOp, info: TokenInfoView::Equ },
            Symbol::Neq => TokenView { tag: Tag::RelOp, info: TokenInfoView::Neq },
            Symbol::Not => TokenView { tag: Tag::Unary, info: TokenInfoView::Not },
            Symbol::Add => TokenView { tag: Tag::NumOp, info: TokenInfoView::Add },
            Symbol::Sub => TokenView { tag: Tag::NumOp, info: TokenInfoView::Sub },
            Symbol::Mul => TokenView { tag: Tag::NumOp, info: TokenInfoView::Mul },
            Symbol::Div => TokenView { tag: Tag::NumOp, info: TokenInfoView::Div },
            Symbol::Other => TokenView::eof(),
        }
    }

    /// The token with the tag `tag` and no payload.
    pub open spec fn plain(tag: Tag) -> TokenView {
        TokenView { tag, info: TokenInfoView::NoInfo }
    }
}

/// The token of an operator stands for that operator and no other token
/// does.
pub proof fn lemma_operator_symbol(t: TokenView)
    ensures
        t.symbol() != Symbol::Other ==> t == TokenView::operator(t.symbol()),
        forall|s: Symbol| s != Symbol::Other ==> (#[trigger] TokenView::operator(s)).symbol() == s,
{
    reveal(TokenView::symbol);
}

/// Whether every token of `ts` is canonical.
pub open spec fn all_canonical(ts: Seq<TokenView>) -> bool {
    forall|i: int| 0 <= i < ts.len() ==> (#[trigger] ts[i]).canonical()
}

/// Every token that the scanner produces is canonical.
pub proof fn lemma_scan_canonical(s: ScannerView)
    ensures
        s.scan().0.canonical(),
    decreases s.rest.len(), (if is_space(s.lookahead) { 1nat } else { 0nat }),
{
    if is_space(s.lookahead) {
        lemma_scan_canonical(s.advance());
    }
}

/// Every token of the stream that the scanner produces is canonical.
pub proof fn lemma_tokens_canonical(s: ScannerView)
    ensures
        all_canonical(s.tokens()),
    decreases s.measure(),
{
    let (t, next) = s.scan();
    if t.tag != Tag::Eof {
        lemma_scan_measure(s);
        lemma_scan_canonical(s);
        lemma_tokens_canonical(next);
        assert forall|i: int| 0 <= i < s.tokens().len() implies (#[trigger] s.tokens()[i]).canonical() by {
            if i > 0 {
                assert(s.tokens()[i] == next.tokens()[i - 1]);
            }
        }
    }
}

} // verus!
