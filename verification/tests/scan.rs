//! End-to-end tests of `scan_tokens`: the scenario inputs, edge cases,
//! and the laws checked on concrete values.

use rbeer::scanner::scan_tokens;
use rbeer::tokens::{LexError, LiteralType, Token, TokenType};

fn kinds(tokens: &[Token]) -> Vec<TokenType> {
    tokens.iter().map(|t| t.token_type).collect()
}

#[test]
fn parens_and_braces() {
    let (tv, errs) = scan_tokens("(( )){}".to_string());
    assert_eq!(
        kinds(&tv.tokens),
        vec![
            TokenType::LEFTPAREN,
            TokenType::LEFTPAREN,
            TokenType::RIGHTPAREN,
            TokenType::RIGHTPAREN,
            TokenType::LEFTBRACE,
            TokenType::RIGHTBRACE,
            TokenType::EOF,
        ]
    );
    assert!(errs.is_empty());
    for t in &tv.tokens {
        assert_eq!(t.line, 1);
    }
}

#[test]
fn compound_operators() {
    let (tv, errs) = scan_tokens("!= == <= >=".to_string());
    assert_eq!(
        kinds(&tv.tokens),
        vec![
            TokenType::BANGEQUAL,
            TokenType::EQUALEQUAL,
            TokenType::LESSEQUAL,
            TokenType::GREATEREQUAL,
            TokenType::EOF,
        ]
    );
    assert!(errs.is_empty());
}

#[test]
fn single_operators() {
    let (tv, errs) = scan_tokens("! = < > + - * / ; , .".to_string());
    assert_eq!(
        kinds(&tv.tokens),
        vec![
            TokenType::BANG,
            TokenType::EQUAL,
            TokenType::LESS,
            TokenType::GREATER,
            TokenType::PLUS,
            TokenType::MINUS,
            TokenType::STAR,
            TokenType::SLASH,
            TokenType::SEMICOLON,
            TokenType::COMMA,
            TokenType::DOT,
            TokenType::EOF,
        ]
    );
    assert!(errs.is_empty());
}

#[test]
fn string_literal() {
    let (tv, errs) = scan_tokens("\"hello\"".to_string());
    assert!(errs.is_empty());
    assert_eq!(tv.tokens.len(), 2);
    let t = &tv.tokens[0];
    assert_eq!(t.token_type, TokenType::STRING);
    assert_eq!(t.lexeme, "\"hello\"");
    assert_eq!(t.literal, LiteralType::STRING("hello".to_string()));
    assert_eq!(t.line, 1);
}

#[test]
fn number_literal() {
    let (tv, errs) = scan_tokens("123.45".to_string());
    assert!(errs.is_empty());
    assert_eq!(tv.tokens.len(), 2);
    let t = &tv.tokens[0];
    assert_eq!(t.token_type, TokenType::NUMBER);
    assert_eq!(t.lexeme, "123.45");
    match &t.literal {
        LiteralType::NUMBER(digits) => {
            assert_eq!(digits, "123.45");
            let value: f64 = digits.parse().unwrap();
            assert_eq!(value, 123.45);
        }
        other => panic!("expected a number payload, got {:?}", other),
    }
}

#[test]
fn keywords_not_identifiers() {
    let (tv, errs) = scan_tokens("and or class".to_string());
    assert_eq!(
        kinds(&tv.tokens),
        vec![TokenType::AND, TokenType::OR, TokenType::CLASS, TokenType::EOF]
    );
    assert!(errs.is_empty());
}

#[test]
fn every_keyword() {
    let source = "and class else false fun for if nil or print return super this true var while";
    let (tv, errs) = scan_tokens(source.to_string());
    assert!(errs.is_empty());
    assert_eq!(
        kinds(&tv.tokens),
        vec![
            TokenType::AND,
            TokenType::CLASS,
            TokenType::ELSE,
            TokenType::FALSE,
            TokenType::FUN,
            TokenType::FOR,
            TokenType::IF,
            TokenType::NIL,
            TokenType::OR,
            TokenType::PRINT,
            TokenType::RETURN,
            TokenType::SUPER,
            TokenType::THIS,
            TokenType::TRUE,
            TokenType::VAR,
            TokenType::WHILE,
            TokenType::EOF,
        ]
    );
}

#[test]
fn keyword_prefix_is_identifier() {
    let (tv, errs) = scan_tokens("forest fortune _if if0".to_string());
    assert!(errs.is_empty());
    assert_eq!(
        kinds(&tv.tokens),
        vec![
            TokenType::IDENTIFIER,
            TokenType::IDENTIFIER,
            TokenType::IDENTIFIER,
            TokenType::IDENTIFIER,
            TokenType::EOF,
        ]
    );
    assert_eq!(tv.tokens[0].lexeme, "forest");
}

#[test]
fn unterminated_string() {
    let (tv, errs) = scan_tokens("\"unterminated".to_string());
    assert_eq!(kinds(&tv.tokens), vec![TokenType::EOF]);
    assert_eq!(errs, vec![LexError::UnterminatedString { line: 1 }]);
}

#[test]
fn unterminated_string_reports_start_line() {
    // The string starts on line 2 and runs over a newline to the end of
    // input: the error carries the start line, the end marker the final
    // line count.
    let (tv, errs) = scan_tokens("+\n\"one\ntwo".to_string());
    assert_eq!(kinds(&tv.tokens), vec![TokenType::PLUS, TokenType::EOF]);
    assert_eq!(errs, vec![LexError::UnterminatedString { line: 2 }]);
    assert_eq!(tv.tokens[1].line, 3);
}

#[test]
fn unexpected_character() {
    let (tv, errs) = scan_tokens("@".to_string());
    assert_eq!(kinds(&tv.tokens), vec![TokenType::EOF]);
    assert_eq!(errs, vec![LexError::UnexpectedCharacter { ch: '@', line: 1 }]);
}

#[test]
fn scan_continues_after_error() {
    let (tv, errs) = scan_tokens("@+#".to_string());
    assert_eq!(kinds(&tv.tokens), vec![TokenType::PLUS, TokenType::EOF]);
    assert_eq!(
        errs,
        vec![
            LexError::UnexpectedCharacter { ch: '@', line: 1 },
            LexError::UnexpectedCharacter { ch: '#', line: 1 },
        ]
    );
}

#[test]
fn empty_input() {
    let (tv, errs) = scan_tokens(String::new());
    assert!(errs.is_empty());
    assert_eq!(tv.tokens.len(), 1);
    assert_eq!(tv.tokens[0].token_type, TokenType::EOF);
    assert_eq!(tv.tokens[0].lexeme, "");
    assert_eq!(tv.tokens[0].literal, LiteralType::NONE);
    assert_eq!(tv.tokens[0].line, 1);
}

#[test]
fn comment_runs_to_end_of_line() {
    let (tv, errs) = scan_tokens("+ // rest is ignored @ \"\n-".to_string());
    assert!(errs.is_empty());
    assert_eq!(kinds(&tv.tokens), vec![TokenType::PLUS, TokenType::MINUS, TokenType::EOF]);
    assert_eq!(tv.tokens[0].line, 1);
    assert_eq!(tv.tokens[1].line, 2);
}

#[test]
fn comment_at_end_of_input() {
    let (tv, errs) = scan_tokens("// only a comment".to_string());
    assert!(errs.is_empty());
    assert_eq!(kinds(&tv.tokens), vec![TokenType::EOF]);
}

#[test]
fn number_with_trailing_dot() {
    // The dot is not part of the number: it becomes a DOT token.
    let (tv, errs) = scan_tokens("123.".to_string());
    assert!(errs.is_empty());
    assert_eq!(kinds(&tv.tokens), vec![TokenType::NUMBER, TokenType::DOT, TokenType::EOF]);
    assert_eq!(tv.tokens[0].lexeme, "123");
    assert_eq!(tv.tokens[0].literal, LiteralType::NUMBER("123".to_string()));
}

#[test]
fn minus_is_not_part_of_number() {
    let (tv, errs) = scan_tokens("-7".to_string());
    assert!(errs.is_empty());
    assert_eq!(kinds(&tv.tokens), vec![TokenType::MINUS, TokenType::NUMBER, TokenType::EOF]);
    assert_eq!(tv.tokens[1].lexeme, "7");
}

#[test]
fn multi_line_string_counts_lines() {
    let (tv, errs) = scan_tokens("\"a\nb\"\n+".to_string());
    assert!(errs.is_empty());
    assert_eq!(kinds(&tv.tokens), vec![TokenType::STRING, TokenType::PLUS, TokenType::EOF]);
    // The string token carries the line where it started.
    assert_eq!(tv.tokens[0].line, 1);
    assert_eq!(tv.tokens[0].literal, LiteralType::STRING("a\nb".to_string()));
    assert_eq!(tv.tokens[1].line, 3);
    assert_eq!(tv.tokens[2].line, 3);
}

#[test]
fn last_token_is_always_end_marker() {
    for source in ["", "@", "\"open", "var x = 1;", "((("] {
        let (tv, _) = scan_tokens(source.to_string());
        let last = tv.tokens.last().unwrap();
        assert_eq!(last.token_type, TokenType::EOF);
        assert_eq!(last.lexeme, "");
    }
}

#[test]
fn end_marker_carries_final_line_count() {
    let (tv, errs) = scan_tokens("a\nb\nc".to_string());
    assert!(errs.is_empty());
    assert_eq!(tv.tokens.last().unwrap().line, 3);
    let (only_newlines, _) = scan_tokens("\n\n\n".to_string());
    assert_eq!(only_newlines.tokens.last().unwrap().line, 4);
}

#[test]
fn clean_input_has_no_errors() {
    let source = "var pi = 3.14; // close enough\nprint (pi >= 3) != false;";
    let (_, errs) = scan_tokens(source.to_string());
    assert!(errs.is_empty());
}

#[test]
fn token_lines_non_decreasing() {
    let source = "a\nb b\n\n\"s\ntill\"\nc // x\nd @\ne";
    let (tv, _) = scan_tokens(source.to_string());
    let mut previous = 0;
    for t in &tv.tokens {
        assert!(t.line >= previous);
        previous = t.line;
    }
}

#[test]
fn scanning_twice_is_identical() {
    let source = "fun f(n) { return n * 2; } // doubles\nprint f(21) == 42;";
    let (tv1, errs1) = scan_tokens(source.to_string());
    let (tv2, errs2) = scan_tokens(source.to_string());
    assert_eq!(tv1.tokens, tv2.tokens);
    assert_eq!(errs1, errs2);
}

#[test]
fn lexemes_reproduce_significant_characters() {
    let source = "var x = 10; // note\nprint x;";
    let (tv, errs) = scan_tokens(source.to_string());
    assert!(errs.is_empty());
    let joined: String = tv.tokens.iter().map(|t| t.lexeme.as_str()).collect();
    assert_eq!(joined, "varx=10;printx;");
}

#[test]
fn string_lexeme_keeps_quotes_payload_strips_them() {
    let (tv, _) = scan_tokens("\"a b\"".to_string());
    let t = &tv.tokens[0];
    assert_eq!(t.lexeme, "\"a b\"");
    assert_eq!(t.literal, LiteralType::STRING("a b".to_string()));
}
