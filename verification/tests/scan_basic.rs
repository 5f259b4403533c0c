use lox_scanner::Scanner;
use lox_scanner::TokenType;

fn scan(src: &str) -> Scanner {
    let mut sc = Scanner::new(src.to_string());
    sc.scan_tokens();
    sc
}

fn kinds(sc: &Scanner) -> Vec<TokenType> {
    sc.tokens.iter().map(|t| t.token_type).collect()
}

fn assert_eof_exactly_once(sc: &Scanner) {
    let ks = kinds(sc);
    assert!(!ks.is_empty());
    assert_eq!(*ks.last().unwrap(), TokenType::EOF);
    let eofs = ks.iter().filter(|k| **k == TokenType::EOF).count();
    assert_eq!(eofs, 1);
}

#[test]
fn empty_input_yields_only_eof() {
    let sc = scan("");
    assert_eq!(kinds(&sc), vec![TokenType::EOF]);
    assert_eq!(sc.tokens[0].line, 1);
    assert!(sc.diagnostics.is_empty());
    assert!(!sc.had_error());
}

#[test]
fn punctuation_single_chars() {
    let sc = scan("(){}[],.-+;*");
    assert_eq!(
        kinds(&sc),
        vec![
            TokenType::LeftParen,
            TokenType::RightParen,
            TokenType::LeftBrace,
            TokenType::RightBrace,
            TokenType::LeftSqrBrace,
            TokenType::RightSqrBrace,
            TokenType::COMMA,
            TokenType::DOT,
            TokenType::MINUS,
            TokenType::PLUS,
            TokenType::SEMICOLON,
            TokenType::STAR,
            TokenType::EOF,
        ]
    );
    assert!(sc.diagnostics.is_empty());
}

#[test]
fn operators_one_and_two_char() {
    let sc = scan("! != = == < <= > >= /");
    assert_eq!(
        kinds(&sc),
        vec![
            TokenType::BANG,
            TokenType::BangEqual,
            TokenType::EQUAL,
            TokenType::EqualEqual,
            TokenType::LESS,
            TokenType::LessEqual,
            TokenType::GREATER,
            TokenType::GreaterEqual,
            TokenType::SLASH,
            TokenType::EOF,
        ]
    );
    assert!(sc.diagnostics.is_empty());
}

#[test]
fn bang_equal_is_one_token() {
    let sc = scan("!=");
    assert_eq!(kinds(&sc), vec![TokenType::BangEqual, TokenType::EOF]);
}

#[test]
fn bang_then_identifier_keeps_lookahead() {
    let sc = scan("!x");
    assert_eq!(
        kinds(&sc),
        vec![TokenType::BANG, TokenType::IDENTIFIER, TokenType::EOF]
    );
    match &sc.tokens[1].literal {
        Some(lox_scanner::Literal::Text(s)) => assert_eq!(s, "x"),
        other => panic!("expected identifier literal, got {:?}", other),
    }
}

#[test]
fn comment_then_number_yields_exactly_two_tokens() {
    let sc = scan("// ignored\n42");
    assert_eq!(sc.tokens.len(), 2);
    assert_eq!(sc.tokens[0].token_type, TokenType::NUMBER);
    match &sc.tokens[0].literal {
        Some(lox_scanner::Literal::Number(s)) => assert_eq!(s, "42"),
        other => panic!("expected number literal, got {:?}", other),
    }
    assert_eq!(sc.tokens[0].line, 2);
    assert_eq!(sc.tokens[1].token_type, TokenType::EOF);
    assert!(sc.diagnostics.is_empty());
}

#[test]
fn comment_at_end_of_input() {
    let sc = scan("// nothing after");
    assert_eq!(kinds(&sc), vec![TokenType::EOF]);
    assert!(sc.diagnostics.is_empty());
}

#[test]
fn whitespace_is_skipped() {
    let sc = scan(" \t\r42");
    assert_eq!(kinds(&sc), vec![TokenType::NUMBER, TokenType::EOF]);
}

#[test]
fn newline_increments_line() {
    let sc = scan("a\nb");
    assert_eq!(sc.tokens[0].line, 1);
    assert_eq!(sc.tokens[1].line, 2);
    assert_eq!(sc.tokens[2].line, 2);
    assert_eq!(
        kinds(&sc),
        vec![TokenType::IDENTIFIER, TokenType::IDENTIFIER, TokenType::EOF]
    );
}

#[test]
fn eof_is_final_and_unique_across_inputs() {
    for src in ["", "1 + 2", "\"open", "@@@", "var x = 10;\n// c\nprint x;"] {
        let sc = scan(src);
        assert_eof_exactly_once(&sc);
    }
}

#[test]
fn scanning_twice_is_identical() {
    let src = "var x = 1; // note\n\"s\" @ 3.5";
    let a = scan(src);
    let b = scan(src);
    assert_eq!(a.tokens, b.tokens);
    assert_eq!(a.diagnostics, b.diagnostics);
}
