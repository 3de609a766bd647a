use rlox::scanner::{Scanner, Token, TokenKind};

fn scan_all(source: &str) -> Vec<(TokenKind, String, u16)> {
    let mut scanner = Scanner::new();
    scanner.update_source(source);
    let mut out = Vec::new();
    loop {
        let t = scanner.scan_token();
        out.push((t.kind, t.lexeme.to_string(), t.line));
        if t.kind == TokenKind::Eof {
            return out;
        }
    }
}

fn kinds(source: &str) -> Vec<TokenKind> {
    scan_all(source).into_iter().map(|t| t.0).collect()
}

#[test]
fn scans_arithmetic_expression() {
    let tokens = scan_all("1 + 2 * 3");
    let expected = vec![
        (TokenKind::Number, "1".to_string(), 1),
        (TokenKind::Plus, "+".to_string(), 1),
        (TokenKind::Number, "2".to_string(), 1),
        (TokenKind::Star, "*".to_string(), 1),
        (TokenKind::Number, "3".to_string(), 1),
        (TokenKind::Eof, "".to_string(), 1),
    ];
    assert_eq!(tokens, expected);
}

#[test]
fn eof_repeats() {
    let mut scanner = Scanner::new();
    scanner.update_source("x");
    assert_eq!(scanner.scan_token().kind, TokenKind::Identifier);
    for _ in 0..3 {
        let t = scanner.scan_token();
        assert_eq!(t.kind, TokenKind::Eof);
        assert_eq!(t.lexeme, "");
        assert_eq!(t.line, 1);
    }
}

#[test]
fn empty_source_is_eof() {
    assert_eq!(scan_all(""), vec![(TokenKind::Eof, "".to_string(), 1)]);
    assert_eq!(scan_all(" \t\r"), vec![(TokenKind::Eof, "".to_string(), 1)]);
}

#[test]
fn two_character_operators_use_maximal_munch() {
    assert_eq!(
        kinds("! != = == < <= > >="),
        vec![
            TokenKind::Bang,
            TokenKind::BangEqual,
            TokenKind::Equal,
            TokenKind::EqualEqual,
            TokenKind::Less,
            TokenKind::LessEqual,
            TokenKind::Greater,
            TokenKind::GreaterEqual,
            TokenKind::Eof,
        ]
    );
    let t = scan_all("<=>");
    assert_eq!(t[0], (TokenKind::LessEqual, "<=".to_string(), 1));
    assert_eq!(t[1], (TokenKind::Greater, ">".to_string(), 1));
}

#[test]
fn punctuation() {
    assert_eq!(
        kinds("(){};,.-+/*"),
        vec![
            TokenKind::LeftParen,
            TokenKind::RightParen,
            TokenKind::LeftBrace,
            TokenKind::RightBrace,
            TokenKind::Semicolon,
            TokenKind::Comma,
            TokenKind::Dot,
            TokenKind::Minus,
            TokenKind::Plus,
            TokenKind::Slash,
            TokenKind::Star,
            TokenKind::Eof,
        ]
    );
}

#[test]
fn keywords_and_identifiers() {
    assert_eq!(
        kinds("and class else false for fun if nil or print return super this true var while"),
        vec![
            TokenKind::And,
            TokenKind::Class,
            TokenKind::Else,
            TokenKind::False,
            TokenKind::For,
            TokenKind::Fun,
            TokenKind::If,
            TokenKind::Nil,
            TokenKind::Or,
            TokenKind::Print,
            TokenKind::Return,
            TokenKind::Super,
            TokenKind::This,
            TokenKind::True,
            TokenKind::Var,
            TokenKind::While,
            TokenKind::Eof,
        ]
    );
    // Near misses are identifiers.
    let words = "andy an classy f fo fa th t tr truex _var var1 orchid i iff";
    let ks = kinds(words);
    assert_eq!(ks.len(), 16);
    assert!(ks[..15].iter().all(|k| *k == TokenKind::Identifier));
    let t = scan_all("_foo9 Bar");
    assert_eq!(t[0], (TokenKind::Identifier, "_foo9".to_string(), 1));
    assert_eq!(t[1], (TokenKind::Identifier, "Bar".to_string(), 1));
}

#[test]
fn numbers_take_digits_and_dots() {
    let t = scan_all("12.5 1.2.3 7.");
    assert_eq!(t[0], (TokenKind::Number, "12.5".to_string(), 1));
    assert_eq!(t[1], (TokenKind::Number, "1.2.3".to_string(), 1));
    assert_eq!(t[2], (TokenKind::Number, "7.".to_string(), 1));
    // A leading dot is punctuation.
    assert_eq!(kinds(".5"), vec![TokenKind::Dot, TokenKind::Number, TokenKind::Eof]);
}

#[test]
fn strings_keep_quotes_and_count_lines() {
    let t = scan_all("\"hi\" \"a\nb\" x");
    assert_eq!(t[0], (TokenKind::String, "\"hi\"".to_string(), 1));
    assert_eq!(t[1], (TokenKind::String, "\"a\nb\"".to_string(), 2));
    assert_eq!(t[2], (TokenKind::Identifier, "x".to_string(), 2));
}

#[test]
fn unterminated_string_is_an_error_token() {
    let t = scan_all("\"abc");
    assert_eq!(t[0], (TokenKind::Error, "Unterminated string".to_string(), 1));
    assert_eq!(t[1].0, TokenKind::Eof);
    let t = scan_all("\"a\nbc");
    assert_eq!(t[0], (TokenKind::Error, "Unterminated string".to_string(), 2));
}

#[test]
fn invalid_character_is_an_error_token() {
    let t = scan_all("@ 1");
    assert_eq!(t[0], (TokenKind::Error, "Invalid syntax".to_string(), 1));
    assert_eq!(t[1], (TokenKind::Number, "1".to_string(), 1));
}

#[test]
fn newlines_and_comments_advance_lines() {
    let t = scan_all("a\nb // note ; ignored\n\nc // last");
    assert_eq!(t[0], (TokenKind::Identifier, "a".to_string(), 1));
    assert_eq!(t[1], (TokenKind::Identifier, "b".to_string(), 2));
    assert_eq!(t[2], (TokenKind::Identifier, "c".to_string(), 4));
    assert_eq!(t[3], (TokenKind::Eof, "".to_string(), 4));
    assert_eq!(t.len(), 4);
}

#[test]
fn unicode_inside_strings() {
    let t = scan_all("\"héllo\" é");
    assert_eq!(t[0], (TokenKind::String, "\"héllo\"".to_string(), 1));
    assert_eq!(t[1], (TokenKind::Error, "Invalid syntax".to_string(), 1));
}

#[test]
fn token_constructors() {
    let t = Token::new(TokenKind::Plus, "+", 3);
    assert_eq!((t.kind, t.lexeme, t.line), (TokenKind::Plus, "+", 3));
    let d = Token::default();
    assert_eq!((d.kind, d.lexeme, d.line), (TokenKind::Eof, "", 0));
}
