//! The mathematical model of scanning: a step relation that consumes one
//! lexeme (or skips one piece of trivia) from a given offset, and its
//! transitive closure over a whole source buffer. The executable scanner
//! is proved to produce exactly the token and diagnostic sequences this
//! model defines.

use vstd::prelude::*;

use crate::token::SpecDiagnostic;
use crate::token::SpecLiteral;
use crate::token::SpecToken;
use crate::token::TokenType;

verus! {

/// ASCII decimal digit.
pub open spec fn is_digit(c: char) -> bool {
    '0' <= c && c <= '9'
}

/// ASCII letter, the only characters that may open an identifier.
pub open spec fn is_alpha(c: char) -> bool {
    ('a' <= c && c <= 'z') || ('A' <= c && c <= 'Z')
}

/// Characters that may continue an identifier: letters, digits and `_`.
pub open spec fn is_ident_char(c: char) -> bool {
    is_alpha(c) || is_digit(c) || c == '_'
}

/// The first offset at or after `i` that does not hold a digit, or the
/// buffer's length when digits run to the end.
pub open spec fn digit_run_end(src: Seq<char>, i: int) -> int
    decreases src.len() - i,
{
    if i < 0 || i >= src.len() {
        src.len() as int
    } else if is_digit(src[i]) {
        digit_run_end(src, i + 1)
    } else {
        i
    }
}

/// The first offset at or after `i` that does not hold an identifier
/// character, or the buffer's length.
pub open spec fn ident_run_end(src: Seq<char>, i: int) -> int
    decreases src.len() - i,
{
    if i < 0 || i >= src.len() {
        src.len() as int
    } else if is_ident_char(src[i]) {
        ident_run_end(src, i + 1)
    } else {
        i
    }
}

/// The offset of the first `"` at or after `i`, or the buffer's length
/// when no closing quote exists.
pub open spec fn string_close(src: Seq<char>, i: int) -> int
    decreases src.len() - i,
{
    if i < 0 || i >= src.len() {
        src.len() as int
    } else if src[i] == '"' {
        i
    } else {
        string_close(src, i + 1)
    }
}

/// The offset of the first newline at or after `i`, or the buffer's
/// length: where a line comment stops discarding (the newline itself is
/// not consumed).
pub open spec fn comment_end(src: Seq<char>, i: int) -> int
    decreases src.len() - i,
{
    if i < 0 || i >= src.len() {
        src.len() as int
    } else if src[i] == '\n' {
        i
    } else {
        comment_end(src, i + 1)
    }
}

/// How many newlines `src` holds in the half-open range `[i, j)`.
pub open spec fn newlines_in(src: Seq<char>, i: int, j: int) -> int
    decreases j - i,
{
    if i >= j {
        0
    } else {
        (if src[i] == '\n' { 1int } else { 0int }) + newlines_in(src, i + 1, j)
    }
}

/// The kind a single-character punctuation lexeme maps to, if any.
pub open spec fn single_char_kind(c: char) -> Option<TokenType> {
    if c == '(' { Some(TokenType::LeftParen) }
    else if c == ')' { Some(TokenType::RightParen) }
    else if c == '{' { Some(TokenType::LeftBrace) }
    else if c == '}' { Some(TokenType::RightBrace) }
    else if c == '[' { Some(TokenType::LeftSqrBrace) }
    else if c == ']' { Some(TokenType::RightSqrBrace) }
    else if c == ',' { Some(TokenType::COMMA) }
    else if c == '.' { Some(TokenType::DOT) }
    else if c == '-' { Some(TokenType::MINUS) }
    else if c == '+' { Some(TokenType::PLUS) }
    else if c == ';' { Some(TokenType::SEMICOLON) }
    else if c == '*' { Some(TokenType::STAR) }
    else { None }
}

/// The keyword kind a whole lexeme spells, if any.
pub open spec fn keyword_kind(s: Seq<char>) -> Option<TokenType> {
    if s == "and"@ { Some(TokenType::AND) }
    else if s == "class"@ { Some(TokenType::CLASS) }
    else if s == "else"@ { Some(TokenType::ELSE) }
    else if s == "false"@ { Some(TokenType::FALSE) }
    else if s == "fun"@ { Some(TokenType::FUN) }
    else if s == "for"@ { Some(TokenType::FOR) }
    else if s == "if"@ { Some(TokenType::IF) }
    else if s == "nil"@ { Some(TokenType::NIL) }
    else if s == "or"@ { Some(TokenType::OR) }
    else if s == "print"@ { Some(TokenType::PRINT) }
    else if s == "return"@ { Some(TokenType::RETURN) }
    else if s == "super"@ { Some(TokenType::SUPER) }
    else if s == "this"@ { Some(TokenType::THIS) }
    else if s == "true"@ { Some(TokenType::TRUE) }
    else if s == "var"@ { Some(TokenType::VAR) }
    else if s == "while"@ { Some(TokenType::WHILE) }
    else { None }
}

/// The message recorded for a string literal that never closes.
pub open spec fn unterminated_string_msg() -> Seq<char> {
    "unterminated string"@
}

/// The message recorded for a character no rule recognizes.
pub open spec fn unrecognized_char_msg() -> Seq<char> {
    "unrecognized character"@
}

/// What one dispatch step does from offset `i` on line `line`: where the
/// cursor lands, what the line counter becomes, and the at most one token
/// and at most one diagnostic it emits.
pub ghost struct ScanStep {
    pub next: int,
    pub line_next: int,
    pub token: Option<SpecToken>,
    pub diag: Option<SpecDiagnostic>,
}

/// A step that only moves the cursor.
pub open spec fn skip_step(next: int, line_next: int) -> ScanStep {
    ScanStep { next, line_next, token: None, diag: None }
}

/// A step that emits one token.
pub open spec fn token_step(next: int, line_next: int, t: SpecToken) -> ScanStep {
    ScanStep { next, line_next, token: Some(t), diag: None }
}

/// A step that records one diagnostic.
pub open spec fn diag_step(next: int, line_next: int, d: SpecDiagnostic) -> ScanStep {
    ScanStep { next, line_next, token: None, diag: Some(d) }
}

/// A token with no literal payload.
pub open spec fn plain_token(kind: TokenType, line: int) -> SpecToken {
    SpecToken { token_type: kind, literal: None, line }
}

/// The EOF token appended once scanning is exhausted.
pub open spec fn eof_token(line: int) -> SpecToken {
    plain_token(TokenType::EOF, line)
}

/// One dispatch step of the scanning engine at offset `i` (which must be
/// in range) on line `line`. Maximal munch: two-character operators,
/// digit runs, identifier runs and string bodies are consumed whole.
pub open spec fn scan_step(src: Seq<char>, i: int, line: int) -> ScanStep {
    let c = src[i];
    if single_char_kind(c) is Some {
        token_step(i + 1, line, plain_token(single_char_kind(c)->Some_0, line))
    } else if c == '!' || c == '=' || c == '<' || c == '>' {
        if i + 1 < src.len() && src[i + 1] == '=' {
            let kind = if c == '!' { TokenType::BangEqual }
                else if c == '=' { TokenType::EqualEqual }
                else if c == '<' { TokenType::LessEqual }
                else { TokenType::GreaterEqual };
            token_step(i + 2, line, plain_token(kind, line))
        } else {
            let kind = if c == '!' { TokenType::BANG }
                else if c == '=' { TokenType::EQUAL }
                else if c == '<' { TokenType::LESS }
                else { TokenType::GREATER };
            token_step(i + 1, line, plain_token(kind, line))
        }
    } else if c == '/' {
        if i + 1 < src.len() && src[i + 1] == '/' {
            skip_step(comment_end(src, i + 2), line)
        } else {
            token_step(i + 1, line, plain_token(TokenType::SLASH, line))
        }
    } else if c == ' ' || c == '\r' || c == '\t' {
        skip_step(i + 1, line)
    } else if c == '\n' {
        skip_step(i + 1, line + 1)
    } else if c == '"' {
        let close = string_close(src, i + 1);
        let line_after = line + newlines_in(src, i + 1, close);
        if close >= src.len() {
            diag_step(src.len() as int, line_after,
                SpecDiagnostic { line: line_after, message: unterminated_string_msg() })
        } else {
            token_step(close + 1, line_after,
                SpecToken {
                    token_type: TokenType::STRING,
                    literal: Some(SpecLiteral::Text(src.subrange(i + 1, close))),
                    line,
                })
        }
    } else if is_digit(c) {
        let whole = digit_run_end(src, i);
        let end = if whole < src.len() && src[whole] == '.'
            && whole + 1 < src.len() && is_digit(src[whole + 1]) {
            digit_run_end(src, whole + 1)
        } else {
            whole
        };
        token_step(end, line,
            SpecToken {
                token_type: TokenType::NUMBER,
                literal: Some(SpecLiteral::Number(src.subrange(i, end))),
                line,
            })
    } else if is_alpha(c) {
        let end = ident_run_end(src, i);
        let lexeme = src.subrange(i, end);
        match keyword_kind(lexeme) {
            Some(kind) => token_step(end, line, plain_token(kind, line)),
            None => token_step(end, line,
                SpecToken {
                    token_type: TokenType::IDENTIFIER,
                    literal: Some(SpecLiteral::Text(lexeme)),
                    line,
                }),
        }
    } else {
        diag_step(i + 1, line,
            SpecDiagnostic { line, message: unrecognized_char_msg() })
    }
}

/// Everything one scan produces: the token sequence (ending in EOF) and
/// the diagnostics, in order of appearance.
pub ghost struct ScanResult {
    pub tokens: Seq<SpecToken>,
    pub diags: Seq<SpecDiagnostic>,
}

/// The result of scanning from offset `i` on line `line` to the end of
/// the buffer and then appending the one EOF token. The bound on `next`
/// only serves termination; `lemma_scan_step_next` shows it never binds.
pub open spec fn scan_from(src: Seq<char>, i: int, line: int) -> ScanResult
    decreases src.len() - i,
{
    if i < 0 || i >= src.len() {
        ScanResult { tokens: seq![eof_token(line)], diags: Seq::empty() }
    } else {
        let step = scan_step(src, i, line);
        let next = if i < step.next <= src.len() { step.next } else { i + 1 };
        let rest = scan_from(src, next, step.line_next);
        ScanResult {
            tokens: match step.token {
                Some(t) => seq![t] + rest.tokens,
                None => rest.tokens,
            },
            diags: match step.diag {
                Some(d) => seq![d] + rest.diags,
                None => rest.diags,
            },
        }
    }
}

/// The whole scan of a source buffer, from its first character on line 1.
pub open spec fn spec_scan(src: Seq<char>) -> ScanResult {
    scan_from(src, 0, 1)
}

/// A digit run's end lies between its start and the buffer's end, every
/// character before it is a digit, and the character at it (if any) is
/// not.
pub proof fn lemma_digit_run_end(src: Seq<char>, i: int)
    requires
        0 <= i <= src.len(),
    ensures
        i <= digit_run_end(src, i) <= src.len(),
        forall|k: int| i <= k < digit_run_end(src, i) ==> is_digit(src[k]),
        digit_run_end(src, i) < src.len() ==> !is_digit(src[digit_run_end(src, i)]),
    decreases src.len() - i,
{
    if i < src.len() && is_digit(src[i]) {
        lemma_digit_run_end(src, i + 1);
    }
}

/// As `lemma_digit_run_end`, for identifier runs.
pub proof fn lemma_ident_run_end(src: Seq<char>, i: int)
    requires
        0 <= i <= src.len(),
    ensures
        i <= ident_run_end(src, i) <= src.len(),
        forall|k: int| i <= k < ident_run_end(src, i) ==> is_ident_char(src[k]),
        ident_run_end(src, i) < src.len() ==> !is_ident_char(src[ident_run_end(src, i)]),
    decreases src.len() - i,
{
    if i < src.len() && is_ident_char(src[i]) {
        lemma_ident_run_end(src, i + 1);
    }
}

/// The closing quote's offset lies in range, nothing before it is a
/// quote, and it holds a quote unless the buffer ran out.
pub proof fn lemma_string_close(src: Seq<char>, i: int)
    requires
        0 <= i <= src.len(),
    ensures
        i <= string_close(src, i) <= src.len(),
        forall|k: int| i <= k < string_close(src, i) ==> src[k] != '"',
        string_close(src, i) < src.len() ==> src[string_close(src, i)] == '"',
    decreases src.len() - i,
{
    if i < src.len() && src[i] != '"' {
        lemma_string_close(src, i + 1);
    }
}

/// The comment end's offset lies in range, nothing before it is a
/// newline, and it holds a newline unless the buffer ran out.
pub proof fn lemma_comment_end(src: Seq<char>, i: int)
    requires
        0 <= i <= src.len(),
    ensures
        i <= comment_end(src, i) <= src.len(),
        forall|k: int| i <= k < comment_end(src, i) ==> src[k] != '\n',
        comment_end(src, i) < src.len() ==> src[comment_end(src, i)] == '\n',
    decreases src.len() - i,
{
    if i < src.len() && src[i] != '\n' {
        lemma_comment_end(src, i + 1);
    }
}

/// Newline counts are non-negative and bounded by the range's width.
pub proof fn lemma_newlines_in_bounds(src: Seq<char>, i: int, j: int)
    requires
        i <= j,
    ensures
        0 <= newlines_in(src, i, j) <= j - i,
    decreases j - i,
{
    if i < j {
        lemma_newlines_in_bounds(src, i + 1, j);
    }
}

/// Splitting a range splits its newline count.
pub proof fn lemma_newlines_in_split(src: Seq<char>, i: int, m: int, j: int)
    requires
        i <= m <= j,
    ensures
        newlines_in(src, i, j) == newlines_in(src, i, m) + newlines_in(src, m, j),
    decreases m - i,
{
    if i < m {
        lemma_newlines_in_split(src, i + 1, m, j);
    }
}

/// Every dispatch step moves the cursor forward and never past the end,
/// so the guarded recursion in `scan_from` follows the step exactly; the
/// line counter never moves backwards and grows by at most the characters
/// consumed.
pub proof fn lemma_scan_step_next(src: Seq<char>, i: int, line: int)
    requires
        0 <= i < src.len(),
    ensures
        i < scan_step(src, i, line).next <= src.len(),
        line <= scan_step(src, i, line).line_next <= line + (scan_step(src, i, line).next - i),
{
    let c = src[i];
    if single_char_kind(c) is Some {
    } else if c == '!' || c == '=' || c == '<' || c == '>' {
    } else if c == '/' {
        if i + 1 < src.len() && src[i + 1] == '/' {
            lemma_comment_end(src, i + 2);
        }
    } else if c == ' ' || c == '\r' || c == '\t' {
    } else if c == '\n' {
    } else if c == '"' {
        lemma_string_close(src, i + 1);
        lemma_newlines_in_bounds(src, i + 1, string_close(src, i + 1));
    } else if is_digit(c) {
        lemma_digit_run_end(src, i);
        let whole = digit_run_end(src, i);
        if whole < src.len() && src[whole] == '.' && whole + 1 < src.len() && is_digit(
            src[whole + 1],
        ) {
            lemma_digit_run_end(src, whole + 1);
        }
    } else if is_alpha(c) {
        lemma_ident_run_end(src, i);
    } else {
    }
}

/// Unfolds `scan_from` one step at an in-range offset, with the
/// termination guard discharged.
pub proof fn lemma_scan_from_unfold(src: Seq<char>, i: int, line: int)
    requires
        0 <= i < src.len(),
    ensures
        ({
            let step = scan_step(src, i, line);
            let rest = scan_from(src, step.next, step.line_next);
            scan_from(src, i, line) == (ScanResult {
                tokens: match step.token {
                    Some(t) => seq![t] + rest.tokens,
                    None => rest.tokens,
                },
                diags: match step.diag {
                    Some(d) => seq![d] + rest.diags,
                    None => rest.diags,
                },
            })
        }),
{
    lemma_scan_step_next(src, i, line);
}

} // verus!
