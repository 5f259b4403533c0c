//! A verified scanner for a small dynamically typed scripting language.
//!
//! The library turns raw source text into an ordered sequence of lexical
//! tokens, tracking line numbers for diagnostics and recovering from
//! lexical errors without halting. The scanning engine is specified by a
//! mathematical model of the token stream (`scan_spec`) and the executable
//! scanner is proved to produce exactly that stream.

pub mod laws;
pub mod lox;
pub mod scan_spec;
pub mod scanner;
pub mod token;

pub use lox::Lox;
pub use scanner::Scanner;
pub use token::Diagnostic;
pub use token::Literal;
pub use token::Token;
pub use token::TokenType;
