use mini_compiler::lexer::{Scanner, Tag, Token, TokenInfo};

fn scan_all(s: &str) -> Vec<Token> {
    let mut scanner = Scanner::new_static(String::from(s));
    let mut v = vec![];
    let mut tok = scanner.scan();
    while tok.tag != Tag::Eof {
        v.push(tok);
        tok = scanner.scan();
    }
    v
}

fn scan_string(s: String) -> String {
    let mut out = String::new();
    for el in scan_all(&s) {
        out.push_str(&el.to_cow_string());
    }
    out
}

#[test]
fn basic_test() {
    let s = "(1+3-x*y/543);";
    let res = scan_string(String::from(s));
    assert!(res == String::from(s));

    let s = "{if;while;()[]else;break}";
    let res = scan_string(String::from(s));
    assert!(res == String::from(s));
}

#[test]
fn blanks_are_skipped() {
    assert_eq!(scan_string(String::from("  x \t= \n 1 ;  ")), "x=1;");
}

#[test]
fn keywords_and_types() {
    let toks = scan_all("if else while break True False int float foo int2");
    let tags: Vec<Tag> = toks.iter().map(|t| t.tag).collect();
    assert_eq!(
        tags,
        vec![
            Tag::If,
            Tag::Else,
            Tag::While,
            Tag::Break,
            Tag::True,
            Tag::False,
            Tag::Type,
            Tag::Type,
            Tag::Ide,
            Tag::Ide
        ]
    );
    assert_eq!(toks[6].info, TokenInfo::Int);
    assert_eq!(toks[7].info, TokenInfo::Float);
    assert_eq!(toks[8].info, TokenInfo::Ide(String::from("foo")));
    assert_eq!(toks[9].info, TokenInfo::Ide(String::from("int2")));
}

#[test]
fn type_tokens_have_their_own_text() {
    assert_eq!(scan_string(String::from("int float")), "type(int)type(float)");
}

#[test]
fn relational_operators() {
    let toks = scan_all(">= > <= < == != ! =");
    let infos: Vec<&TokenInfo> = toks.iter().map(|t| &t.info).collect();
    assert_eq!(
        infos,
        vec![
            &TokenInfo::Ge,
            &TokenInfo::Gr,
            &TokenInfo::Leq,
            &TokenInfo::Les,
            &TokenInfo::Equ,
            &TokenInfo::Neq,
            &TokenInfo::Not,
            &TokenInfo::NoInfo
        ]
    );
    assert_eq!(toks[6].tag, Tag::Unary);
    assert_eq!(toks[7].tag, Tag::Assign);
    assert_eq!(scan_string(String::from("a>=b>c<=d<e==f!=g")), "a>=b>c<=d<e==f!=g");
}

#[test]
fn boolean_operators() {
    let toks = scan_all("a&&b||c");
    assert_eq!(toks[1].tag, Tag::BoolOp);
    assert_eq!(toks[1].info, TokenInfo::And);
    assert_eq!(toks[3].tag, Tag::BoolOp);
    assert_eq!(toks[3].info, TokenInfo::Or);
}

#[test]
fn single_ampersand_is_an_error_token() {
    let toks = scan_all("a & b");
    assert_eq!(toks[1].tag, Tag::Error);
    assert_eq!(toks[1].to_cow_string(), "error");
    assert_eq!(toks[2].info, TokenInfo::Ide(String::from("b")));
}

#[test]
fn numbers() {
    let toks = scan_all("0 7 543 007 4294967295");
    let values: Vec<&TokenInfo> = toks.iter().map(|t| &t.info).collect();
    assert_eq!(
        values,
        vec![
            &TokenInfo::Num(0),
            &TokenInfo::Num(7),
            &TokenInfo::Num(543),
            &TokenInfo::Num(7),
            &TokenInfo::Num(4294967295)
        ]
    );
    assert_eq!(toks[4].to_cow_string(), "4294967295");
    assert_eq!(toks[0].to_cow_string(), "0");
}

#[test]
fn number_too_large_is_an_error_token() {
    let toks = scan_all("4294967296 1");
    assert_eq!(toks[0].tag, Tag::Error);
    assert_eq!(toks[1].info, TokenInfo::Num(1));
    let toks = scan_all("99999999999999999999999;");
    assert_eq!(toks[0].tag, Tag::Error);
    assert_eq!(toks[1].tag, Tag::SemiColon);
}

#[test]
fn unknown_character_ends_the_stream() {
    let mut scanner = Scanner::new_static(String::from("a # b"));
    assert_eq!(scanner.scan().tag, Tag::Ide);
    assert_eq!(scanner.scan().tag, Tag::Eof);
    assert_eq!(scanner.scan().tag, Tag::Eof);
}

#[test]
fn end_of_text_is_eof_for_ever() {
    let mut scanner = Scanner::new_static(String::from(""));
    assert_eq!(scanner.scan().tag, Tag::Eof);
    assert_eq!(scanner.scan().tag, Tag::Eof);
    assert_eq!(Token::new(Tag::Eof, TokenInfo::NoInfo).to_cow_string(), "EOF");
}

#[test]
fn identifiers_may_hold_letters_of_any_script() {
    let toks = scan_all("caf\u{e9} x");
    assert_eq!(toks[0].info, TokenInfo::Ide(String::from("caf\u{e9}")));
    assert_eq!(toks[1].info, TokenInfo::Ide(String::from("x")));
}

#[test]
fn fixed_lexicon_round_trip() {
    let lexicon = [
        "if", "else", "while", "break", "True", "False", "{", "}", ";", "[", "]", "(", ")", "=",
        "&&", "||", ">=", ">", "<=", "<", "==", "!=", "!", "+", "-", "*", "/",
    ];
    for text in lexicon {
        let toks = scan_all(text);
        assert_eq!(toks.len(), 1);
        assert_eq!(toks[0].to_cow_string(), text);
    }
}

#[test]
fn characters_that_are_no_letters_end_a_word() {
    // an em dash is neither a letter nor a digit, and starts no token
    let toks = scan_all("ab\u{2014}cd");
    assert_eq!(toks.len(), 1);
    assert_eq!(toks[0].info, TokenInfo::Ide(String::from("ab")));
    // letters and digits of other scripts continue a word
    let toks = scan_all("x\u{3b1}\u{663}+1");
    assert_eq!(toks[0].info, TokenInfo::Ide(String::from("x\u{3b1}\u{663}")));
    assert_eq!(toks[1].info, TokenInfo::Add);
}
