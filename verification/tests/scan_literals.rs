use lox_scanner::Literal;
use lox_scanner::Scanner;
use lox_scanner::TokenType;

fn scan(src: &str) -> Scanner {
    let mut sc = Scanner::new(src.to_string());
    sc.scan_tokens();
    sc
}

fn kinds(sc: &Scanner) -> Vec<TokenType> {
    sc.tokens.iter().map(|t| t.token_type).collect()
}

fn number_literal(sc: &Scanner, idx: usize) -> String {
    match &sc.tokens[idx].literal {
        Some(Literal::Number(s)) => s.clone(),
        other => panic!("expected number literal, got {:?}", other),
    }
}

fn text_literal(sc: &Scanner, idx: usize) -> String {
    match &sc.tokens[idx].literal {
        Some(Literal::Text(s)) => s.clone(),
        other => panic!("expected text literal, got {:?}", other),
    }
}

#[test]
fn number_integer() {
    let sc = scan("42");
    assert_eq!(kinds(&sc), vec![TokenType::NUMBER, TokenType::EOF]);
    let lit = number_literal(&sc, 0);
    assert_eq!(lit, "42");
    let value: f64 = lit.parse().unwrap();
    assert_eq!(value, 42.0);
}

#[test]
fn number_fractional() {
    let sc = scan("3.14");
    assert_eq!(kinds(&sc), vec![TokenType::NUMBER, TokenType::EOF]);
    let lit = number_literal(&sc, 0);
    assert_eq!(lit, "3.14");
    let value: f64 = lit.parse().unwrap();
    assert_eq!(value, 3.14);
}

#[test]
fn number_values_match_float_parse() {
    for lexeme in ["0", "007", "10.5", "123456789", "0.0001"] {
        let sc = scan(lexeme);
        assert_eq!(kinds(&sc), vec![TokenType::NUMBER, TokenType::EOF]);
        let lit = number_literal(&sc, 0);
        assert_eq!(lit, lexeme);
        let value: f64 = lit.parse().unwrap();
        let expected: f64 = lexeme.parse().unwrap();
        assert_eq!(value, expected);
    }
}

#[test]
fn trailing_dot_is_not_part_of_number() {
    let sc = scan("3.");
    assert_eq!(
        kinds(&sc),
        vec![TokenType::NUMBER, TokenType::DOT, TokenType::EOF]
    );
    assert_eq!(number_literal(&sc, 0), "3");
}

#[test]
fn second_dot_ends_number() {
    let sc = scan("3.14.5");
    assert_eq!(
        kinds(&sc),
        vec![
            TokenType::NUMBER,
            TokenType::DOT,
            TokenType::NUMBER,
            TokenType::EOF,
        ]
    );
    assert_eq!(number_literal(&sc, 0), "3.14");
    assert_eq!(number_literal(&sc, 2), "5");
}

#[test]
fn number_stops_at_letter() {
    let sc = scan("123abc");
    assert_eq!(
        kinds(&sc),
        vec![TokenType::NUMBER, TokenType::IDENTIFIER, TokenType::EOF]
    );
    assert_eq!(number_literal(&sc, 0), "123");
    assert_eq!(text_literal(&sc, 1), "abc");
}

#[test]
fn string_quotes_are_stripped() {
    let sc = scan("\"hi\"");
    assert_eq!(kinds(&sc), vec![TokenType::STRING, TokenType::EOF]);
    assert_eq!(text_literal(&sc, 0), "hi");
    assert_eq!(sc.tokens[0].line, 1);
}

#[test]
fn string_empty() {
    let sc = scan("\"\"");
    assert_eq!(kinds(&sc), vec![TokenType::STRING, TokenType::EOF]);
    assert_eq!(text_literal(&sc, 0), "");
}

#[test]
fn multiline_string_advances_line_counter() {
    let sc = scan("x \"a\nb\" y");
    assert_eq!(
        kinds(&sc),
        vec![
            TokenType::IDENTIFIER,
            TokenType::STRING,
            TokenType::IDENTIFIER,
            TokenType::EOF,
        ]
    );
    assert_eq!(text_literal(&sc, 1), "a\nb");
    let before = sc.tokens[0].line;
    let after = sc.tokens[2].line;
    assert_eq!(after, before + 1);
}

#[test]
fn all_sixteen_keywords() {
    let cases = [
        ("and", TokenType::AND),
        ("class", TokenType::CLASS),
        ("else", TokenType::ELSE),
        ("false", TokenType::FALSE),
        ("fun", TokenType::FUN),
        ("for", TokenType::FOR),
        ("if", TokenType::IF),
        ("nil", TokenType::NIL),
        ("or", TokenType::OR),
        ("print", TokenType::PRINT),
        ("return", TokenType::RETURN),
        ("super", TokenType::SUPER),
        ("this", TokenType::THIS),
        ("true", TokenType::TRUE),
        ("var", TokenType::VAR),
        ("while", TokenType::WHILE),
    ];
    for (word, kind) in cases {
        let sc = scan(word);
        assert_eq!(kinds(&sc), vec![kind, TokenType::EOF], "keyword {}", word);
        assert!(sc.tokens[0].literal.is_none(), "keyword {}", word);
    }
}

#[test]
fn near_keywords_are_identifiers() {
    for word in ["andx", "Fun", "whiles", "nilly", "clas"] {
        let sc = scan(word);
        assert_eq!(
            kinds(&sc),
            vec![TokenType::IDENTIFIER, TokenType::EOF],
            "word {}",
            word
        );
        assert_eq!(text_literal(&sc, 0), word);
    }
}

#[test]
fn identifier_with_underscore_and_digits() {
    let sc = scan("a_1b");
    assert_eq!(kinds(&sc), vec![TokenType::IDENTIFIER, TokenType::EOF]);
    assert_eq!(text_literal(&sc, 0), "a_1b");
}

#[test]
fn keyword_inside_longer_run_is_identifier() {
    let sc = scan("forever");
    assert_eq!(kinds(&sc), vec![TokenType::IDENTIFIER, TokenType::EOF]);
    assert_eq!(text_literal(&sc, 0), "forever");
}
