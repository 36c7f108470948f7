//! Lexical analysis for a small source language: a byte-level scanner that
//! turns source text into a flat sequence of tokens, with every scanning rule
//! stated as a specification and proved of the executable code.

pub mod token;
pub mod scan;
pub mod lexer;
pub mod laws;
mod text;

pub use lexer::Lexer;
pub use token::{LexingError, LexingErrorKind, Token, TokenModel};
