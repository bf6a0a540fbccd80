//! Tests of the scanner's parts: the token constructors and the cursor
//! methods of `Scanner`.

use rbeer::scanner::{Scanner, TokenVec};
use rbeer::tokens::{LiteralType, Token, TokenType};

#[test]
fn token_new_keeps_its_parts() {
    let t = Token::new(
        TokenType::STRING,
        "\"hi\"".to_string(),
        LiteralType::STRING("hi".to_string()),
        7,
    );
    assert_eq!(t.token_type, TokenType::STRING);
    assert_eq!(t.lexeme, "\"hi\"");
    assert_eq!(t.literal, LiteralType::STRING("hi".to_string()));
    assert_eq!(t.line, 7);
}

#[test]
fn lexeme_length_counts_characters() {
    let t = Token::new(TokenType::IDENTIFIER, "abcde".to_string(), LiteralType::NONE, 1);
    assert_eq!(t.lexeme_length(), 5);
    let empty = Token::new(TokenType::EOF, String::new(), LiteralType::NONE, 1);
    assert_eq!(empty.lexeme_length(), 0);
}

#[test]
fn token_vec_push_appends() {
    let mut tv = TokenVec::new();
    assert!(tv.tokens.is_empty());
    tv.push(Token::new(TokenType::PLUS, "+".to_string(), LiteralType::NONE, 1));
    tv.push(Token::new(TokenType::MINUS, "-".to_string(), LiteralType::NONE, 1));
    assert_eq!(tv.tokens.len(), 2);
    assert_eq!(tv.tokens[0].token_type, TokenType::PLUS);
    assert_eq!(tv.tokens[1].token_type, TokenType::MINUS);
}

#[test]
fn new_scanner_starts_at_line_one() {
    let s = Scanner::new("abc".to_string());
    assert_eq!(s.current, 0);
    assert_eq!(s.start, 0);
    assert_eq!(s.line, 1);
    assert!(s.errors.is_empty());
}

#[test]
fn advance_consumes_in_order() {
    let mut s = Scanner::new("ab".to_string());
    assert_eq!(s.advance(), Some('a'));
    assert_eq!(s.advance(), Some('b'));
    assert!(s.is_end());
    assert_eq!(s.advance(), None);
}

#[test]
fn peek_does_not_consume() {
    let s = Scanner::new("x".to_string());
    assert_eq!(s.peek(), Some('x'));
    assert_eq!(s.peek(), Some('x'));
    assert_eq!(s.current, 0);
    let end = Scanner::new(String::new());
    assert_eq!(end.peek(), None);
}

#[test]
fn match_next_consumes_only_on_match() {
    let mut s = Scanner::new("=!".to_string());
    assert!(s.match_next('='));
    assert_eq!(s.current, 1);
    assert!(!s.match_next('='));
    assert_eq!(s.current, 1);
    assert!(s.match_next('!'));
    assert!(!s.match_next('!'));
}

#[test]
fn sync_moves_the_window_start() {
    let mut s = Scanner::new("abc".to_string());
    s.forward();
    s.forward();
    assert_eq!(s.start, 0);
    s.sync();
    assert_eq!(s.start, 2);
}

#[test]
fn is_end_on_empty_source() {
    let s = Scanner::new(String::new());
    assert!(s.is_end());
}

#[test]
fn scan_token_emits_one_token() {
    let mut s = Scanner::new("<=".to_string());
    let c = s.advance();
    let t = s.scan_token(&c);
    let t = t.unwrap();
    assert_eq!(t.token_type, TokenType::LESSEQUAL);
    assert_eq!(t.lexeme, "<=");
    assert_eq!(t.line, 1);
    assert!(s.is_end());
}

#[test]
fn scan_token_discards_whitespace() {
    let mut s = Scanner::new(" ".to_string());
    let c = s.advance();
    assert!(s.scan_token(&c).is_none());
    assert!(s.errors.is_empty());
}

#[test]
fn scan_token_records_stray_character() {
    let mut s = Scanner::new("^".to_string());
    let c = s.advance();
    assert!(s.scan_token(&c).is_none());
    let errs = s.into_errors();
    assert_eq!(errs.len(), 1);
}
