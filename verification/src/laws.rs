//! The scanner's global laws, proved once and for all over the model
//! that `Scanner::scan_tokens` is proved to implement.

use vstd::prelude::*;

use crate::scan_spec::digit_run_end;
use crate::scan_spec::eof_token;
use crate::scan_spec::ident_run_end;
use crate::scan_spec::is_alpha;
use crate::scan_spec::is_digit;
use crate::scan_spec::keyword_kind;
use crate::scan_spec::lemma_digit_run_end;
use crate::scan_spec::lemma_ident_run_end;
use crate::scan_spec::lemma_scan_from_unfold;
use crate::scan_spec::lemma_scan_step_next;
use crate::scan_spec::plain_token;
use crate::scan_spec::scan_from;
use crate::scan_spec::scan_step;
use crate::scan_spec::spec_scan;
use crate::token::SpecDiagnostic;
use crate::token::SpecLiteral;
use crate::token::SpecToken;
use crate::token::TokenType;

verus! {

/// A dispatch step never emits the EOF kind: EOF is appended only once
/// the input is exhausted.
proof fn lemma_step_not_eof(src: Seq<char>, i: int, line: int)
    requires
        0 <= i < src.len(),
    ensures
        scan_step(src, i, line).token is Some ==> scan_step(
            src,
            i,
            line,
        ).token->Some_0.token_type != TokenType::EOF,
{
}

/// From any offset, the remaining scan yields at least the final EOF
/// token, EOF is its last token, and no earlier token is EOF.
proof fn lemma_scan_from_eof(src: Seq<char>, i: int, line: int)
    ensures
        scan_from(src, i, line).tokens.len() >= 1,
        scan_from(src, i, line).tokens.last().token_type == TokenType::EOF,
        forall|k: int|
            0 <= k < scan_from(src, i, line).tokens.len() - 1 ==> scan_from(
                src,
                i,
                line,
            ).tokens[k].token_type != TokenType::EOF,
    decreases src.len() - i,
{
    if i < 0 || i >= src.len() {
    } else {
        let step = scan_step(src, i, line);
        let next = if i < step.next <= src.len() {
            step.next
        } else {
            i + 1
        };
        lemma_scan_from_eof(src, next, step.line_next);
        lemma_step_not_eof(src, i, line);
    }
}

/// In every scan the final token is EOF, and EOF occurs exactly once.
pub proof fn lemma_eof_unique_and_final(src: Seq<char>)
    ensures
        spec_scan(src).tokens.len() >= 1,
        spec_scan(src).tokens.last().token_type == TokenType::EOF,
        forall|k: int|
            0 <= k < spec_scan(src).tokens.len() - 1 ==> spec_scan(
                src,
            ).tokens[k].token_type != TokenType::EOF,
{
    lemma_scan_from_eof(src, 0, 1);
}

/// From any offset and line, every token of the remaining scan records
/// that line or a later one, and the recorded lines never decrease along
/// the output.
proof fn lemma_scan_from_lines(src: Seq<char>, i: int, line: int)
    ensures
        forall|k: int|
            0 <= k < scan_from(src, i, line).tokens.len() ==> scan_from(
                src,
                i,
                line,
            ).tokens[k].line >= line,
        forall|k1: int, k2: int|
            0 <= k1 <= k2 < scan_from(src, i, line).tokens.len() ==> scan_from(
                src,
                i,
                line,
            ).tokens[k1].line <= scan_from(src, i, line).tokens[k2].line,
    decreases src.len() - i,
{
    if i < 0 || i >= src.len() {
    } else {
        let step = scan_step(src, i, line);
        let next = if i < step.next <= src.len() {
            step.next
        } else {
            i + 1
        };
        lemma_scan_from_lines(src, next, step.line_next);
        lemma_scan_step_next(src, i, line);
        let rest = scan_from(src, next, step.line_next);
        match step.token {
            Some(t) => {
                assert(t.line == line);
                assert(scan_from(src, i, line).tokens == seq![t] + rest.tokens);
                assert forall|k: int| 1 <= k < 1 + rest.tokens.len() implies (seq![t]
                    + rest.tokens)[k].line >= line by {
                    assert((seq![t] + rest.tokens)[k] == rest.tokens[k - 1]);
                }
            },
            None => {
            },
        }
    }
}

/// Every token records a line of at least 1 — the line of its first
/// character — and the recorded lines never decrease along the output.
pub proof fn lemma_token_lines_monotonic(src: Seq<char>)
    ensures
        forall|k: int|
            0 <= k < spec_scan(src).tokens.len() ==> spec_scan(src).tokens[k].line >= 1,
        forall|k1: int, k2: int|
            0 <= k1 <= k2 < spec_scan(src).tokens.len() ==> spec_scan(src).tokens[k1].line
                <= spec_scan(src).tokens[k2].line,
{
    lemma_scan_from_lines(src, 0, 1);
}

/// Scanning identical source text yields identical token sequences and
/// identical diagnostics: the model is a function of the text alone, so
/// a second scan of the same text repeats the first.
pub proof fn lemma_scan_deterministic(src1: Seq<char>, src2: Seq<char>)
    requires
        src1 == src2,
    ensures
        spec_scan(src1) == spec_scan(src2),
{
}

/// Exactly the strings of the shape `digit+ ('.' digit+)?`.
pub open spec fn is_number_lexeme(s: Seq<char>) -> bool {
    &&& s.len() > 0
    &&& is_digit(s[0])
    &&& {
        let whole = digit_run_end(s, 0);
        ||| whole == s.len()
        ||| (whole < s.len() && s[whole] == '.' && whole + 1 < s.len() && is_digit(s[whole + 1])
            && digit_run_end(s, whole + 1) == s.len())
    }
}

/// Scanning a whole string of the shape `digit+ ('.' digit+)?` yields
/// exactly one NUMBER token whose literal is that exact substring, on
/// line 1, followed by EOF, and no diagnostics.
pub proof fn lemma_number_scan(s: Seq<char>)
    requires
        is_number_lexeme(s),
    ensures
        spec_scan(s).tokens == seq![
            (SpecToken {
                token_type: TokenType::NUMBER,
                literal: Some(SpecLiteral::Number(s)),
                line: 1,
            }),
            eof_token(1),
        ],
        spec_scan(s).diags == Seq::<SpecDiagnostic>::empty(),
{
    lemma_digit_run_end(s, 0);
    let whole = digit_run_end(s, 0);
    if whole < s.len() {
        lemma_digit_run_end(s, whole + 1);
    }
    lemma_scan_step_next(s, 0, 1);
    lemma_scan_from_unfold(s, 0, 1);
    let step = scan_step(s, 0, 1);
    assert(step.next == s.len());
    assert(s.subrange(0, s.len() as int) =~= s);
    assert(spec_scan(s).tokens =~= seq![
        (SpecToken {
            token_type: TokenType::NUMBER,
            literal: Some(SpecLiteral::Number(s)),
            line: 1,
        }),
        eof_token(1),
    ]);
    assert(spec_scan(s).diags =~= Seq::<SpecDiagnostic>::empty());
}

/// Exactly the maximal identifier-shaped runs: a leading letter, then
/// letters, digits and underscores to the end.
pub open spec fn is_word_lexeme(s: Seq<char>) -> bool {
    &&& s.len() > 0
    &&& is_alpha(s[0])
    &&& ident_run_end(s, 0) == s.len()
}

/// Scanning a whole identifier-shaped run yields exactly one token,
/// followed by EOF, and no diagnostics: the matching keyword kind for
/// each of the sixteen fixed spellings — never IDENTIFIER — and
/// otherwise IDENTIFIER with the run itself as its literal.
pub proof fn lemma_word_scan(s: Seq<char>)
    requires
        is_word_lexeme(s),
    ensures
        spec_scan(s).tokens == seq![
            (match keyword_kind(s) {
                Some(kind) => plain_token(kind, 1),
                None => SpecToken {
                    token_type: TokenType::IDENTIFIER,
                    literal: Some(SpecLiteral::Text(s)),
                    line: 1,
                },
            }),
            eof_token(1),
        ],
        spec_scan(s).diags == Seq::<SpecDiagnostic>::empty(),
{
    lemma_ident_run_end(s, 0);
    lemma_scan_step_next(s, 0, 1);
    lemma_scan_from_unfold(s, 0, 1);
    let step = scan_step(s, 0, 1);
    assert(step.next == s.len());
    assert(s.subrange(0, s.len() as int) =~= s);
    match keyword_kind(s) {
        Some(kind) => {
            assert(spec_scan(s).tokens =~= seq![plain_token(kind, 1), eof_token(1)]);
        },
        None => {
            assert(spec_scan(s).tokens =~= seq![
                (SpecToken {
                    token_type: TokenType::IDENTIFIER,
                    literal: Some(SpecLiteral::Text(s)),
                    line: 1,
                }),
                eof_token(1),
            ]);
        },
    }
    assert(spec_scan(s).diags =~= Seq::<SpecDiagnostic>::empty());
}

} // verus!

