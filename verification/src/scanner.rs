//! The executable scanning engine, proved to emit exactly the token and
//! diagnostic sequences of the mathematical model in `scan_spec`.

use vstd::prelude::*;

use crate::scan_spec::comment_end;
use crate::scan_spec::digit_run_end;
use crate::scan_spec::eof_token;
use crate::scan_spec::ident_run_end;
use crate::scan_spec::is_alpha;
use crate::scan_spec::is_digit;
use crate::scan_spec::is_ident_char;
use crate::scan_spec::keyword_kind;
use crate::scan_spec::scan_from;
use crate::scan_spec::scan_step;
use crate::scan_spec::single_char_kind;
use crate::scan_spec::spec_scan;
use crate::scan_spec::string_close;
use crate::scan_spec::lemma_scan_from_unfold;
use crate::scan_spec::lemma_scan_step_next;
use crate::scan_spec::lemma_comment_end;
use crate::scan_spec::lemma_digit_run_end;
use crate::scan_spec::lemma_ident_run_end;
use crate::scan_spec::lemma_string_close;
use crate::token::Diagnostic;
use crate::token::Literal;
use crate::token::SpecDiagnostic;
use crate::token::SpecToken;
use crate::token::Token;
use crate::token::TokenType;

verus! {

/// The views of a sequence of token records.
pub open spec fn view_tokens(ts: Seq<Token>) -> Seq<SpecToken> {
    ts.map_values(|t: Token| t@)
}

/// The views of a sequence of diagnostic records.
pub open spec fn view_diags(ds: Seq<Diagnostic>) -> Seq<SpecDiagnostic> {
    ds.map_values(|d: Diagnostic| d@)
}

proof fn lemma_push_as_concat<A>(s: Seq<A>, x: A)
    ensures
        s.push(x) == s + seq![x],
{
    assert(s.push(x) =~= s + seq![x]);
}

proof fn lemma_concat_empty<A>(s: Seq<A>)
    ensures
        s + Seq::<A>::empty() == s,
        Seq::<A>::empty() + s == s,
{
    assert(s + Seq::<A>::empty() =~= s);
    assert(Seq::<A>::empty() + s =~= s);
}

proof fn lemma_concat_assoc<A>(a: Seq<A>, b: Seq<A>, c: Seq<A>)
    ensures
        (a + b) + c == a + (b + c),
{
    assert((a + b) + c =~= a + (b + c));
}

/// Appending one record appends its view.
proof fn lemma_view_tokens_push(ts: Seq<Token>, t: Token)
    ensures
        view_tokens(ts.push(t)) == view_tokens(ts).push(t@),
{
    assert(view_tokens(ts.push(t)) =~= view_tokens(ts).push(t@));
}

/// Appending one record appends its view.
proof fn lemma_view_diags_push(ds: Seq<Diagnostic>, d: Diagnostic)
    ensures
        view_diags(ds.push(d)) == view_diags(ds).push(d@),
{
    assert(view_diags(ds.push(d)) =~= view_diags(ds).push(d@));
}

/// The characters of a string slice, in order, as a vector.
fn chars_of(s: &str) -> (r: Vec<char>)
    ensures
        r@ == s@,
{
    let n = s.unicode_len();
    let mut r: Vec<char> = Vec::new();
    let mut k: usize = 0;
    while k < n
        invariant
            0 <= k <= n,
            n == s@.len(),
            r@ == s@.subrange(0, k as int),
        decreases n - k,
    {
        r.push(s.get_char(k));
        k += 1;
        proof {
            assert(r@ =~= s@.subrange(0, k as int));
        }
    }
    proof {
        assert(r@ =~= s@);
    }
    r
}

/// Relies on `FromIterator for String` (`collect` on a character
/// iterator): builds the string holding exactly the given characters, in
/// order.
#[verifier::external_body]
fn chars_to_string(v: &Vec<char>) -> (r: String)
    ensures
        r@ == v@,
{
    v.iter().collect()
}

/// A copy of the characters of `src` in the half-open range `[from, to)`.
fn copy_range(src: &Vec<char>, from: usize, to: usize) -> (r: Vec<char>)
    requires
        from <= to <= src@.len(),
    ensures
        r@ == src@.subrange(from as int, to as int),
{
    let mut r: Vec<char> = Vec::new();
    let mut k: usize = from;
    while k < to
        invariant
            from <= k <= to <= src@.len(),
            r@ == src@.subrange(from as int, k as int),
        decreases to - k,
    {
        r.push(src[k]);
        k += 1;
        proof {
            assert(r@ =~= src@.subrange(from as int, k as int));
        }
    }
    r
}

/// Decides `is_digit`.
fn is_digit_exec(c: char) -> (r: bool)
    ensures
        r == is_digit(c),
{
    '0' <= c && c <= '9'
}

/// Decides `is_alpha`.
fn is_alpha_exec(c: char) -> (r: bool)
    ensures
        r == is_alpha(c),
{
    ('a' <= c && c <= 'z') || ('A' <= c && c <= 'Z')
}

/// Decides `is_ident_char`.
fn is_ident_char_exec(c: char) -> (r: bool)
    ensures
        r == is_ident_char(c),
{
    is_alpha_exec(c) || is_digit_exec(c) || c == '_'
}

/// Decides whether a lexeme spells a given word.
fn lexeme_is(lex: &Vec<char>, word: &str) -> (r: bool)
    ensures
        r == (lex@ == word@),
{
    let n = word.unicode_len();
    if lex.len() != n {
        return false;
    }
    let mut k: usize = 0;
    while k < n
        invariant
            0 <= k <= n,
            n == word@.len(),
            lex@.len() == n,
            forall|m: int| 0 <= m < k ==> lex@[m] == word@[m],
        decreases n - k,
    {
        if lex[k] != word.get_char(k) {
            return false;
        }
        k += 1;
    }
    proof {
        assert(lex@ =~= word@);
    }
    true
}

/// Decides `single_char_kind`.
fn single_char_kind_exec(c: char) -> (r: Option<TokenType>)
    ensures
        r == single_char_kind(c),
{
    if c == '(' { Some(TokenType::LeftParen) }
    else if c == ')' { Some(TokenType::RightParen) }
    else if c == '{' { Some(TokenType::LeftBrace) }
    else if c == '}' { Some(TokenType::RightBrace) }
    else if c == '[' { Some(TokenType::LeftSqrBrace) }
    else if c == ']' { Some(TokenType::RightSqrBrace) }
    else if c == ',' { Some(TokenType::COMMA) }
    else if c == '.' { Some(TokenType::DOT) }
    else if c == '-' { Some(TokenType::MINUS) }
    else if c == '+' { Some(TokenType::PLUS) }
    else if c == ';' { Some(TokenType::SEMICOLON) }
    else if c == '*' { Some(TokenType::STAR) }
    else { None }
}

/// Decides `keyword_kind`.
fn keyword_kind_exec(lex: &Vec<char>) -> (r: Option<TokenType>)
    ensures
        r == keyword_kind(lex@),
{
    if lexeme_is(lex, "and") { Some(TokenType::AND) }
    else if lexeme_is(lex, "class") { Some(TokenType::CLASS) }
    else if lexeme_is(lex, "else") { Some(TokenType::ELSE) }
    else if lexeme_is(lex, "false") { Some(TokenType::FALSE) }
    else if lexeme_is(lex, "fun") { Some(TokenType::FUN) }
    else if lexeme_is(lex, "for") { Some(TokenType::FOR) }
    else if lexeme_is(lex, "if") { Some(TokenType::IF) }
    else if lexeme_is(lex, "nil") { Some(TokenType::NIL) }
    else if lexeme_is(lex, "or") { Some(TokenType::OR) }
    else if lexeme_is(lex, "print") { Some(TokenType::PRINT) }
    else if lexeme_is(lex, "return") { Some(TokenType::RETURN) }
    else if lexeme_is(lex, "super") { Some(TokenType::SUPER) }
    else if lexeme_is(lex, "this") { Some(TokenType::THIS) }
    else if lexeme_is(lex, "true") { Some(TokenType::TRUE) }
    else if lexeme_is(lex, "var") { Some(TokenType::VAR) }
    else if lexeme_is(lex, "while") { Some(TokenType::WHILE) }
    else { None }
}

/// The scanning engine: the source buffer, the growing token and
/// diagnostic lists, and the cursor state.
pub struct Scanner {
    pub source: Vec<char>,
    pub tokens: Vec<Token>,
    pub diagnostics: Vec<Diagnostic>,
    pub current: usize,
    pub start: usize,
    pub line: usize,
}

impl Scanner {
    /// The scanner's internal invariant: the cursor stays in bounds, a
    /// token's start never passes the cursor, and the line counter stays
    /// small enough that counting one more newline cannot overflow.
    pub open spec fn wf(self) -> bool {
        &&& self.current <= self.source@.len()
        &&& self.start <= self.current
        &&& self.source@.len() < usize::MAX
        &&& 1 <= self.line
        &&& self.line <= 1 + self.current
    }

    /// Builds a fresh scanner over one complete source text, ready for a
    /// single scan from the first character on line 1.
    pub fn new(src: String) -> (s: Scanner)
        requires
            src@.len() < usize::MAX,
        ensures
            s.source@ == src@,
            s.tokens@ == Seq::<Token>::empty(),
            s.diagnostics@ == Seq::<Diagnostic>::empty(),
            s.current == 0,
            s.start == 0,
            s.line == 1,
            s.wf(),
    {
        Scanner {
            source: chars_of(src.as_str()),
            tokens: Vec::new(),
            diagnostics: Vec::new(),
            current: 0,
            start: 0,
            line: 1,
        }
    }

    /// True once every character has been consumed.
    fn at_end(&self) -> (r: bool)
        ensures
            r == (self.current >= self.source@.len()),
    {
        self.current >= self.source.len()
    }

    /// The character under the cursor, or the NUL sentinel once the
    /// buffer is exhausted; never consumes.
    fn peek(&self) -> (c: char)
        ensures
            c == if self.current < self.source@.len() {
                self.source@[self.current as int]
            } else {
                '\0'
            },
    {
        if self.current >= self.source.len() {
            '\0'
        } else {
            self.source[self.current]
        }
    }

    /// The character one past the cursor, or the NUL sentinel when out of
    /// range; never consumes.
    fn peek_next(&self) -> (c: char)
        requires
            self.current <= self.source@.len(),
            self.source@.len() < usize::MAX,
        ensures
            c == if self.current + 1 < self.source@.len() {
                self.source@[self.current + 1]
            } else {
                '\0'
            },
    {
        if self.current >= self.source.len() {
            '\0'
        } else if self.current + 1 >= self.source.len() {
            '\0'
        } else {
            self.source[self.current + 1]
        }
    }

    /// Consumes and returns the character under the cursor.
    fn advance(&mut self) -> (c: char)
        requires
            old(self).current < old(self).source@.len(),
            old(self).source@.len() < usize::MAX,
        ensures
            c == old(self).source@[old(self).current as int],
            final(self).current == old(self).current + 1,
            final(self).source == old(self).source,
            final(self).tokens == old(self).tokens,
            final(self).diagnostics == old(self).diagnostics,
            final(self).start == old(self).start,
            final(self).line == old(self).line,
    {
        let c = self.source[self.current];
        self.current = self.current + 1;
        c
    }

    /// Appends a token without a literal payload, on the current line.
    fn add_token(&mut self, token_type: TokenType)
        ensures
            view_tokens(final(self).tokens@) == view_tokens(old(self).tokens@).push(
                SpecToken { token_type, literal: None, line: old(self).line as int },
            ),
            final(self).source == old(self).source,
            final(self).diagnostics == old(self).diagnostics,
            final(self).current == old(self).current,
            final(self).start == old(self).start,
            final(self).line == old(self).line,
    {
        self.add_token_literal(token_type, None);
    }

    /// Appends a token carrying a literal payload, on the current line.
    fn add_token_literal(&mut self, token_type: TokenType, literal: Option<Literal>)
        ensures
            view_tokens(final(self).tokens@) == view_tokens(old(self).tokens@).push(
                (SpecToken {
                    token_type,
                    literal: match literal {
                        Some(l) => Some(l@),
                        None => None,
                    },
                    line: old(self).line as int,
                }),
            ),
            final(self).source == old(self).source,
            final(self).diagnostics == old(self).diagnostics,
            final(self).current == old(self).current,
            final(self).start == old(self).start,
            final(self).line == old(self).line,
    {
        let line = self.line;
        proof {
            lemma_view_tokens_push(self.tokens@, Token { token_type, literal, line });
        }
        self.tokens.push(Token::new(token_type, literal, line));
    }

    /// Scans the rest of a number literal, entered with the cursor just
    /// past an already-consumed leading digit: consumes the remaining
    /// digits, then a fractional part only when a `.` is directly
    /// followed by a digit, and emits one NUMBER token whose literal is
    /// the exact matched substring.
    fn get_token_number(&mut self)
        requires
            old(self).wf(),
            old(self).current == old(self).start + 1,
            old(self).start < old(self).source@.len(),
            is_digit(old(self).source@[old(self).start as int]),
        ensures
            final(self).wf(),
            final(self).source == old(self).source,
            final(self).start == old(self).start,
            final(self).diagnostics == old(self).diagnostics,
            ({
                let step = scan_step(
                    old(self).source@,
                    old(self).start as int,
                    old(self).line as int,
                );
                &&& final(self).current == step.next
                &&& final(self).line == step.line_next
                &&& step.token is Some
                &&& view_tokens(final(self).tokens@) == view_tokens(old(self).tokens@).push(
                    step.token->Some_0,
                )
            }),
    {
        let ghost src = self.source@;
        let ghost i = self.start as int;
        let ghost line0 = self.line as int;
        let ghost toks0 = self.tokens@;
        proof {
            lemma_digit_run_end(src, i);
        }
        while is_digit_exec(self.peek())
            invariant
                self.wf(),
                self.source == old(self).source,
                self.source@ == src,
                self.start == old(self).start,
                self.tokens == old(self).tokens,
                self.diagnostics == old(self).diagnostics,
                self.line == old(self).line,
                i + 1 <= self.current <= src.len(),
                digit_run_end(src, self.current as int) == digit_run_end(src, i),
            decreases src.len() - self.current,
        {
            proof {
                lemma_digit_run_end(src, self.current as int);
            }
            self.advance();
        }
        proof {
            assert(self.current as int == digit_run_end(src, i));
        }
        let ghost whole = digit_run_end(src, i);
        if self.peek() == '.' && is_digit_exec(self.peek_next()) {
            self.advance();
            proof {
                lemma_digit_run_end(src, whole + 1);
                assert(digit_run_end(src, self.current as int) == digit_run_end(src, whole + 1));
            }
            while is_digit_exec(self.peek())
                invariant
                    self.wf(),
                    self.source == old(self).source,
                    self.source@ == src,
                    self.start == old(self).start,
                    self.tokens == old(self).tokens,
                    self.diagnostics == old(self).diagnostics,
                    self.line == old(self).line,
                    whole + 1 <= self.current <= src.len(),
                    digit_run_end(src, self.current as int) == digit_run_end(src, whole + 1),
                decreases src.len() - self.current,
            {
                proof {
                    lemma_digit_run_end(src, self.current as int);
                }
                self.advance();
            }
            proof {
                assert(self.current as int == digit_run_end(src, whole + 1));
            }
        }
        let lexeme = copy_range(&self.source, self.start, self.current);
        let text = chars_to_string(&lexeme);
        self.add_token_literal(TokenType::NUMBER, Some(Literal::Number(text)));
    }

    /// Scans the rest of a string literal, entered with the cursor just
    /// past the opening quote: consumes characters up to the closing
    /// quote, counting embedded newlines, and emits one STRING token
    /// whose literal excludes both quotes and whose line is the opening
    /// quote's; an unclosed literal records an "unterminated string"
    /// diagnostic and emits nothing.
    fn get_token_string(&mut self)
        requires
            old(self).wf(),
            old(self).current == old(self).start + 1,
            old(self).start < old(self).source@.len(),
            old(self).source@[old(self).start as int] == '"',
        ensures
            final(self).wf(),
            final(self).source == old(self).source,
            final(self).start == old(self).start,
            ({
                let step = scan_step(
                    old(self).source@,
                    old(self).start as int,
                    old(self).line as int,
                );
                &&& final(self).current == step.next
                &&& final(self).line == step.line_next
                &&& view_tokens(final(self).tokens@) == view_tokens(old(self).tokens@) + (
                    match step.token {
                        Some(t) => seq![t],
                        None => Seq::<SpecToken>::empty(),
                    }
                )
                &&& view_diags(final(self).diagnostics@) == view_diags(old(self).diagnostics@) + (
                    match step.diag {
                        Some(d) => seq![d],
                        None => Seq::<SpecDiagnostic>::empty(),
                    }
                )
            }),
    {
        let ghost src = self.source@;
        let ghost i = self.start as int;
        let ghost line0 = self.line as int;
        let ghost toks0 = self.tokens@;
        let ghost diags0 = self.diagnostics@;
        let ghost close = string_close(src, i + 1);
        let line_start = self.line;
        proof {
            lemma_string_close(src, i + 1);
            crate::scan_spec::lemma_newlines_in_bounds(src, i + 1, close);
        }
        while self.peek() != '"' && !self.at_end()
            invariant
                self.wf(),
                self.source == old(self).source,
                self.source@ == src,
                self.start == old(self).start,
                self.tokens == old(self).tokens,
                self.diagnostics == old(self).diagnostics,
                i + 1 <= self.current <= close <= src.len(),
                string_close(src, self.current as int) == close,
                self.line as int == line0 + crate::scan_spec::newlines_in(
                    src,
                    i + 1,
                    self.current as int,
                ),
                line0 == old(self).line,
            decreases src.len() - self.current,
        {
            let ghost cur = self.current as int;
            proof {
                lemma_string_close(src, cur);
                crate::scan_spec::lemma_newlines_in_split(src, i + 1, cur, cur + 1);
                assert(crate::scan_spec::newlines_in(src, cur, cur + 1) == (
                    if src[cur] == '\n' { 1int } else { 0int }
                ) + crate::scan_spec::newlines_in(src, cur + 1, cur + 1));
            }
            if self.peek() == '\n' {
                self.line = self.line + 1;
            }
            self.advance();
        }
        if self.at_end() {
            proof {
                assert(self.current as int == close);
            }
            self.add_diagnostic(String::from_str("unterminated string"));
            proof {
                assert(view_diags(self.diagnostics@) =~= view_diags(diags0) + seq![
                    SpecDiagnostic {
                        line: self.line as int,
                        message: crate::scan_spec::unterminated_string_msg(),
                    },
                ]);
                assert(view_tokens(self.tokens@) =~= view_tokens(toks0)
                    + Seq::<SpecToken>::empty());
            }
            return;
        }
        proof {
            assert(self.current as int == close);
        }
        self.advance();
        let lexeme = copy_range(&self.source, self.start + 1, self.current - 1);
        let text = chars_to_string(&lexeme);
        proof {
            lemma_view_tokens_push(
                self.tokens@,
                Token {
                    token_type: TokenType::STRING,
                    literal: Some(Literal::Text(text)),
                    line: line_start,
                },
            );
        }
        self.tokens.push(Token::new(TokenType::STRING, Some(Literal::Text(text)), line_start));
        proof {
            assert(view_tokens(self.tokens@) =~= view_tokens(toks0) + seq![
                SpecToken {
                    token_type: TokenType::STRING,
                    literal: Some(crate::token::SpecLiteral::Text(src.subrange(i + 1, close))),
                    line: line0,
                },
            ]);
            assert(view_diags(self.diagnostics@) =~= view_diags(diags0)
                + Seq::<SpecDiagnostic>::empty());
        }
    }

    /// Scans the rest of an identifier, entered with the cursor just past
    /// an already-consumed leading letter: consumes the remaining
    /// letters, digits and underscores, then emits the matching keyword
    /// kind for one of the sixteen fixed spellings, or an IDENTIFIER
    /// token carrying the lexeme.
    fn scan_token_literal_and_keywords(&mut self)
        requires
            old(self).wf(),
            old(self).current == old(self).start + 1,
            old(self).start < old(self).source@.len(),
            is_alpha(old(self).source@[old(self).start as int]),
        ensures
            final(self).wf(),
            final(self).source == old(self).source,
            final(self).start == old(self).start,
            final(self).diagnostics == old(self).diagnostics,
            ({
                let step = scan_step(
                    old(self).source@,
                    old(self).start as int,
                    old(self).line as int,
                );
                &&& final(self).current == step.next
                &&& final(self).line == step.line_next
                &&& step.token is Some
                &&& view_tokens(final(self).tokens@) == view_tokens(old(self).tokens@).push(
                    step.token->Some_0,
                )
            }),
    {
        let ghost src = self.source@;
        let ghost i = self.start as int;
        let ghost toks0 = self.tokens@;
        proof {
            lemma_ident_run_end(src, i);
        }
        while is_ident_char_exec(self.peek())
            invariant
                self.wf(),
                self.source == old(self).source,
                self.source@ == src,
                self.start == old(self).start,
                self.tokens == old(self).tokens,
                self.diagnostics == old(self).diagnostics,
                self.line == old(self).line,
                i + 1 <= self.current <= src.len(),
                ident_run_end(src, self.current as int) == ident_run_end(src, i),
            decreases src.len() - self.current,
        {
            proof {
                lemma_ident_run_end(src, self.current as int);
            }
            self.advance();
        }
        proof {
            assert(self.current as int == ident_run_end(src, i));
        }
        let lexeme = copy_range(&self.source, self.start, self.current);
        match keyword_kind_exec(&lexeme) {
            Some(kind) => {
                self.add_token(kind);
            },
            None => {
                let text = chars_to_string(&lexeme);
                self.add_token_literal(TokenType::IDENTIFIER, Some(Literal::Text(text)));
            },
        }
    }

    /// Records one recoverable lexical error on the current line.
    fn add_diagnostic(&mut self, message: String)
        ensures
            view_diags(final(self).diagnostics@) == view_diags(old(self).diagnostics@).push(
                (SpecDiagnostic { line: old(self).line as int, message: message@ }),
            ),
            final(self).source == old(self).source,
            final(self).tokens == old(self).tokens,
            final(self).current == old(self).current,
            final(self).start == old(self).start,
            final(self).line == old(self).line,
    {
        let line = self.line;
        proof {
            lemma_view_diags_push(self.diagnostics@, Diagnostic { line, message });
        }
        self.diagnostics.push(Diagnostic { line, message });
    }

    /// One dispatch cycle: consumes one lexeme or one piece of trivia
    /// starting at the marked token-start position, and emits at most one
    /// token and at most one diagnostic, exactly as `scan_step`
    /// prescribes.
    fn scan_token(&mut self)
        requires
            old(self).wf(),
            old(self).start == old(self).current,
            old(self).current < old(self).source@.len(),
        ensures
            final(self).wf(),
            final(self).source == old(self).source,
            ({
                let step = scan_step(
                    old(self).source@,
                    old(self).current as int,
                    old(self).line as int,
                );
                &&& final(self).current == step.next
                &&& final(self).line == step.line_next
                &&& view_tokens(final(self).tokens@) == view_tokens(old(self).tokens@) + (
                    match step.token {
                        Some(t) => seq![t],
                        None => Seq::<SpecToken>::empty(),
                    }
                )
                &&& view_diags(final(self).diagnostics@) == view_diags(old(self).diagnostics@)
                    + (match step.diag {
                        Some(d) => seq![d],
                        None => Seq::<SpecDiagnostic>::empty(),
                    })
            }),
    {
        let ghost src = self.source@;
        let ghost i = self.current as int;
        let ghost line0 = self.line as int;
        let ghost toks0 = self.tokens@;
        let ghost diags0 = self.diagnostics@;
        let c = self.advance();
        match single_char_kind_exec(c) {
            Some(kind) => {
                self.add_token(kind);
            },
            None => {
                if c == '!' || c == '=' || c == '<' || c == '>' {
                    if self.peek() == '=' {
                        self.advance();
                        let kind = if c == '!' {
                            TokenType::BangEqual
                        } else if c == '=' {
                            TokenType::EqualEqual
                        } else if c == '<' {
                            TokenType::LessEqual
                        } else {
                            TokenType::GreaterEqual
                        };
                        self.add_token(kind);
                    } else {
                        let kind = if c == '!' {
                            TokenType::BANG
                        } else if c == '=' {
                            TokenType::EQUAL
                        } else if c == '<' {
                            TokenType::LESS
                        } else {
                            TokenType::GREATER
                        };
                        self.add_token(kind);
                    }
                } else if c == '/' {
                    if self.peek() == '/' {
                        self.advance();
                        while self.peek() != '\n' && !self.at_end()
                            invariant
                                self.wf(),
                                self.source == old(self).source,
                                self.source@ == src,
                                self.start == old(self).start,
                                self.tokens == old(self).tokens,
                                self.diagnostics == old(self).diagnostics,
                                self.line == old(self).line,
                                i + 2 <= self.current <= src.len(),
                                comment_end(src, self.current as int) == comment_end(src, i + 2),
                            decreases src.len() - self.current,
                        {
                            proof {
                                lemma_comment_end(src, self.current as int);
                            }
                            self.advance();
                        }
                        proof {
                            lemma_comment_end(src, i + 2);
                            assert(self.current as int == comment_end(src, i + 2));
                        }
                    } else {
                        self.add_token(TokenType::SLASH);
                    }
                } else if c == ' ' || c == '\r' || c == '\t' {
                } else if c == '\n' {
                    self.line = self.line + 1;
                } else if c == '"' {
                    self.get_token_string();
                } else if is_digit_exec(c) {
                    self.get_token_number();
                } else if is_alpha_exec(c) {
                    self.scan_token_literal_and_keywords();
                } else {
                    self.add_diagnostic(String::from_str("unrecognized character"));
                }
            },
        }
        proof {
            let step = scan_step(src, i, line0);
            if step.token is Some {
                lemma_push_as_concat(view_tokens(toks0), step.token->Some_0);
            }
            if step.diag is Some {
                lemma_push_as_concat(view_diags(diags0), step.diag->Some_0);
            }
            lemma_concat_empty(view_tokens(toks0));
            lemma_concat_empty(view_diags(diags0));
        }
    }

    /// Scans the whole source: repeatedly marks the token-start position
    /// and runs one dispatch cycle until the input is exhausted, then
    /// appends the one EOF token. The tokens and diagnostics are exactly
    /// those of the model, `spec_scan`.
    pub fn scan_tokens(&mut self) -> (r: &Vec<Token>)
        requires
            old(self).wf(),
            old(self).current == 0,
            old(self).start == 0,
            old(self).line == 1,
            old(self).tokens@ == Seq::<Token>::empty(),
            old(self).diagnostics@ == Seq::<Diagnostic>::empty(),
        ensures
            final(self).source == old(self).source,
            view_tokens(final(self).tokens@) == spec_scan(old(self).source@).tokens,
            view_diags(final(self).diagnostics@) == spec_scan(old(self).source@).diags,
            r@ == final(self).tokens@,
    {
        let ghost src = self.source@;
        proof {
            lemma_concat_empty(spec_scan(src).tokens);
            lemma_concat_empty(spec_scan(src).diags);
            assert(view_tokens(Seq::<Token>::empty()) =~= Seq::<SpecToken>::empty());
            assert(view_diags(Seq::<Diagnostic>::empty()) =~= Seq::<SpecDiagnostic>::empty());
        }
        while !self.at_end()
            invariant
                self.wf(),
                self.source == old(self).source,
                self.source@ == src,
                spec_scan(src).tokens == view_tokens(self.tokens@) + scan_from(
                    src,
                    self.current as int,
                    self.line as int,
                ).tokens,
                spec_scan(src).diags == view_diags(self.diagnostics@) + scan_from(
                    src,
                    self.current as int,
                    self.line as int,
                ).diags,
            decreases src.len() - self.current,
        {
            let ghost cur = self.current as int;
            let ghost line_before = self.line as int;
            let ghost toks_before = view_tokens(self.tokens@);
            let ghost diags_before = view_diags(self.diagnostics@);
            self.start = self.current;
            self.scan_token();
            proof {
                lemma_scan_step_next(src, cur, line_before);
                lemma_scan_from_unfold(src, cur, line_before);
                let step = scan_step(src, cur, line_before);
                let rest = scan_from(src, step.next, step.line_next);
                match step.token {
                    Some(t) => {
                        lemma_concat_assoc(toks_before, seq![t], rest.tokens);
                    },
                    None => {
                        lemma_concat_empty(toks_before);
                        lemma_concat_assoc(toks_before, Seq::<SpecToken>::empty(), rest.tokens);
                    },
                }
                match step.diag {
                    Some(d) => {
                        lemma_concat_assoc(diags_before, seq![d], rest.diags);
                    },
                    None => {
                        lemma_concat_empty(diags_before);
                        lemma_concat_assoc(diags_before, Seq::<SpecDiagnostic>::empty(), rest.diags);
                    },
                }
            }
        }
        proof {
            lemma_push_as_concat(view_tokens(self.tokens@), eof_token(self.line as int));
        }
        self.add_token(TokenType::EOF);
        proof {
            lemma_concat_empty(view_diags(self.diagnostics@));
        }
        &self.tokens
    }

    /// True once this scan has recorded at least one diagnostic.
    pub fn had_error(&self) -> (r: bool)
        ensures
            r == (self.diagnostics@.len() > 0),
    {
        self.diagnostics.len() > 0
    }
}

} // verus!
