//! Tests of the scanner and the text helpers.
use slang::atom::Atom;
use slang::scanner::{scan_tokens, skip_comment};
use slang::token::{Token, TokenType};

fn fparse(s: &Vec<char>) -> Option<u64> {
    let t: String = s.iter().collect();
    t.parse::<f64>().ok().map(|f| f.to_bits())
}

fn string(s: &str) -> Token {
    Token::new(
        TokenType::Literal(Atom::Str(s.chars().collect())),
        s.chars().collect(),
        0,
    )
}

fn identifier(n: &str) -> Token {
    Token::new(TokenType::Identifier, n.chars().collect(), 0)
}

#[test]
fn test_lexer() {
    assert_eq!(
        scan_tokens("()", &fparse),
        [TokenType::LParen, TokenType::RParen]
            .into_iter()
            .map(Token::from_ty)
            .collect::<Vec<Token>>()
    );
    assert_eq!(
        scan_tokens("(  ) \"asdf\" ", &fparse),
        vec![
            Token::from_ty(TokenType::LParen),
            Token::from_ty(TokenType::RParen),
            string("asdf"),
        ]
    );
    assert_eq!(
        scan_tokens(
            ">= \"hello#notcomment\" identifier_here # yes comment",
            &fparse
        ),
        vec![
            Token::from_ty(TokenType::GreaterEqual),
            string("hello#notcomment"),
            identifier("identifier_here"),
        ]
    );
}

#[test]
fn numbers_scan_as_int_or_float_literals() {
    assert_eq!(
        scan_tokens("12", &fparse),
        vec![Token::new(TokenType::Literal(Atom::Int(12)), "12".chars().collect(), 0)]
    );
    assert_eq!(
        scan_tokens("4.25", &fparse),
        vec![Token::new(
            TokenType::Literal(Atom::Float(4.25f64.to_bits())),
            "4.25".chars().collect(),
            0
        )]
    );
}

#[test]
fn malformed_number_is_unknown() {
    let toks = scan_tokens("1.2.3", &fparse);
    assert_eq!(toks[0].ty, TokenType::Unknown);
}

#[test]
fn unterminated_string_is_unknown() {
    let toks = scan_tokens("\"open", &fparse);
    assert_eq!(toks.len(), 1);
    assert_eq!(toks[0].ty, TokenType::Unknown);
}

#[test]
fn lines_are_counted() {
    let toks = scan_tokens("+\n+", &fparse);
    assert_eq!(toks[0].line, 0);
    assert_eq!(toks[2].line, 1);
}

#[test]
fn skip_comment_drops_to_line_break() {
    let src: Vec<char> = "ab\ncd".chars().collect();
    let rest = skip_comment(&src);
    assert_eq!(rest, "\ncd".chars().collect::<Vec<char>>());
    let all: Vec<char> = "abc".chars().collect();
    assert_eq!(skip_comment(&all), Vec::<char>::new());
}

#[test]
fn keywords_scan_to_their_token_types() {
    assert_eq!(
        scan_tokens("let while fn break print", &fparse),
        vec![
            Token::from_ty(TokenType::Let),
            Token::from_ty(TokenType::While),
            Token::from_ty(TokenType::Function),
            Token::from_ty(TokenType::Break),
            Token::from_ty(TokenType::Print),
        ]
    );
}
