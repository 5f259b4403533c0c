use lox_scanner::Lox;
use lox_scanner::Scanner;
use lox_scanner::TokenType;

fn scan(src: &str) -> Scanner {
    let mut sc = Scanner::new(src.to_string());
    sc.scan_tokens();
    sc
}

fn kinds(sc: &Scanner) -> Vec<TokenType> {
    sc.tokens.iter().map(|t| t.token_type).collect()
}

#[test]
fn unterminated_string_reports_and_still_ends_with_eof() {
    let sc = scan("\"abc");
    assert_eq!(sc.diagnostics.len(), 1);
    assert_eq!(sc.diagnostics[0].message, "unterminated string");
    assert_eq!(sc.diagnostics[0].line, 1);
    assert_eq!(kinds(&sc), vec![TokenType::EOF]);
    assert!(sc.had_error());
}

#[test]
fn unterminated_string_line_counts_embedded_newlines() {
    let sc = scan("\"a\nb");
    assert_eq!(sc.diagnostics.len(), 1);
    assert_eq!(sc.diagnostics[0].message, "unterminated string");
    assert_eq!(sc.diagnostics[0].line, 2);
}

#[test]
fn unrecognized_character_is_reported() {
    let sc = scan("@");
    assert_eq!(sc.diagnostics.len(), 1);
    assert_eq!(sc.diagnostics[0].message, "unrecognized character");
    assert_eq!(sc.diagnostics[0].line, 1);
    assert_eq!(kinds(&sc), vec![TokenType::EOF]);
}

#[test]
fn nul_character_is_unrecognized() {
    let sc = scan("\0");
    assert_eq!(sc.diagnostics.len(), 1);
    assert_eq!(sc.diagnostics[0].message, "unrecognized character");
    assert_eq!(kinds(&sc), vec![TokenType::EOF]);
}

#[test]
fn scanning_resumes_after_error() {
    let sc = scan("@1");
    assert_eq!(sc.diagnostics.len(), 1);
    assert_eq!(kinds(&sc), vec![TokenType::NUMBER, TokenType::EOF]);
}

#[test]
fn several_errors_in_one_scan() {
    let sc = scan("@ # 1");
    assert_eq!(sc.diagnostics.len(), 2);
    assert_eq!(sc.diagnostics[0].message, "unrecognized character");
    assert_eq!(sc.diagnostics[1].message, "unrecognized character");
    assert_eq!(kinds(&sc), vec![TokenType::NUMBER, TokenType::EOF]);
}

#[test]
fn error_on_later_line_is_recorded_there() {
    let sc = scan("ok\n@");
    assert_eq!(sc.diagnostics.len(), 1);
    assert_eq!(sc.diagnostics[0].line, 2);
}

#[test]
fn had_error_is_false_on_clean_scan() {
    let sc = scan("var x = 1;");
    assert!(!sc.had_error());
    assert!(sc.diagnostics.is_empty());
}

#[test]
fn lox_session_records_errors() {
    let mut lox = Lox::new();
    assert!(!lox.had_error_);
    assert!(lox.reports.is_empty());
    lox.error(3, "unterminated string".to_string());
    assert!(lox.had_error_);
    assert_eq!(lox.reports.len(), 1);
    assert_eq!(lox.reports[0].line, 3);
    assert_eq!(lox.reports[0].message, "unterminated string");
    lox.error(5, "unrecognized character".to_string());
    assert_eq!(lox.reports.len(), 2);
    assert_eq!(lox.reports[1].line, 5);
}
