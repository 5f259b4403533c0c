//! The token data model: token kinds, literal payloads, and the immutable
//! token records the scanner emits, together with their mathematical views.

use vstd::prelude::*;

verus! {

/// The closed set of token kinds: single-character punctuation, one- or
/// two-character operators, literal kinds, the fixed keywords, and the
/// terminal EOF kind.
#[derive(Clone, Copy, Debug, PartialEq, Eq, Structural)]
pub enum TokenType {
    // single-character punctuation
    LeftParen,
    RightParen,
    LeftBrace,
    RightBrace,
    LeftSqrBrace,
    RightSqrBrace,
    COMMA,
    DOT,
    MINUS,
    PLUS,
    SEMICOLON,
    SLASH,
    STAR,
    // one- or two-character operators
    BANG,
    BangEqual,
    EQUAL,
    EqualEqual,
    GREATER,
    GreaterEqual,
    LESS,
    LessEqual,
    // literals
    IDENTIFIER,
    STRING,
    NUMBER,
    // keywords
    AND,
    CLASS,
    ELSE,
    FALSE,
    FUN,
    FOR,
    IF,
    NIL,
    OR,
    PRINT,
    RETURN,
    SUPER,
    THIS,
    TRUE,
    VAR,
    WHILE,
    // terminal sentinel
    EOF,
}

/// A literal payload carried by IDENTIFIER, STRING and NUMBER tokens.
///
/// A NUMBER carries the exact matched substring (`digit+ ('.' digit+)?`);
/// converting it to a machine float is left to the consumer, keeping the
/// scanner's contract exact.
#[derive(Debug, PartialEq)]
pub enum Literal {
    /// The text of an identifier, or of a string literal with the
    /// delimiting quotes stripped.
    Text(String),
    /// The matched numeric substring.
    Number(String),
}

/// Mathematical view of a `Literal`.
pub ghost enum SpecLiteral {
    Text(Seq<char>),
    Number(Seq<char>),
}

impl View for Literal {
    type V = SpecLiteral;

    open spec fn view(&self) -> SpecLiteral {
        match self {
            Literal::Text(s) => SpecLiteral::Text(s@),
            Literal::Number(s) => SpecLiteral::Number(s@),
        }
    }
}

/// One immutable token record: its kind, its optional literal payload, and
/// the line of its first character.
#[derive(Debug, PartialEq)]
pub struct Token {
    pub token_type: TokenType,
    pub literal: Option<Literal>,
    pub line: usize,
}

/// Mathematical view of a `Token`.
pub ghost struct SpecToken {
    pub token_type: TokenType,
    pub literal: Option<SpecLiteral>,
    pub line: int,
}

impl View for Token {
    type V = SpecToken;

    open spec fn view(&self) -> SpecToken {
        SpecToken {
            token_type: self.token_type,
            literal: match self.literal {
                Some(l) => Some(l@),
                None => None,
            },
            line: self.line as int,
        }
    }
}

impl Token {
    /// Builds a token record from its parts.
    pub fn new(token_type: TokenType, literal: Option<Literal>, line: usize) -> (t: Token)
        ensures
            t == (Token { token_type, literal, line }),
    {
        Token { token_type, literal, line }
    }
}

/// One recoverable lexical error: the line it was noticed on and a fixed
/// message.
#[derive(Debug, PartialEq)]
pub struct Diagnostic {
    pub line: usize,
    pub message: String,
}

/// Mathematical view of a `Diagnostic`.
pub ghost struct SpecDiagnostic {
    pub line: int,
    pub message: Seq<char>,
}

impl View for Diagnostic {
    type V = SpecDiagnostic;

    open spec fn view(&self) -> SpecDiagnostic {
        SpecDiagnostic { line: self.line as int, message: self.message@ }
    }
}

} // verus!
