use vstd::prelude::*;

verus! {

/// A lexical token. Keyword variants carry no data; the others carry the
/// text or the decoded bytes they were scanned from.
#[derive(Debug, PartialEq)]
pub enum Token {
    EOF,

    Fn,
    Let,
    Var,
    Undefined,
    If,
    Elif,
    Else,
    Mod,
    Struct,

    Sign(&'static str),
    Paren(char),

    NumLit(String),
    CharLit(u8),
    StrLit(Vec<u8>),

    Ident(String),
}

/// The mathematical value of a token: strings are seen as sequences.
pub enum TokenModel {
    EOF,

    Fn,
    Let,
    Var,
    Undefined,
    If,
    Elif,
    Else,
    Mod,
    Struct,

    Sign(Seq<char>),
    Paren(char),

    NumLit(Seq<char>),
    CharLit(u8),
    StrLit(Seq<u8>),

    Ident(Seq<char>),
}

impl View for Token {
    type V = TokenModel;

    open spec fn view(&self) -> TokenModel {
        match self {
            Token::EOF => TokenModel::EOF,
            Token::Fn => TokenModel::Fn,
            Token::Let => TokenModel::Let,
            Token::Var => TokenModel::Var,
            Token::Undefined => TokenModel::Undefined,
            Token::If => TokenModel::If,
            Token::Elif => TokenModel::Elif,
            Token::Else => TokenModel::Else,
            Token::Mod => TokenModel::Mod,
            Token::Struct => TokenModel::Struct,
            Token::Sign(s) => TokenModel::Sign(s@),
            Token::Paren(c) => TokenModel::Paren(*c),
            Token::NumLit(s) => TokenModel::NumLit(s@),
            Token::CharLit(b) => TokenModel::CharLit(*b),
            Token::StrLit(v) => TokenModel::StrLit(v@),
            Token::Ident(s) => TokenModel::Ident(s@),
        }
    }
}

/// What went wrong when scanning stopped.
#[derive(Debug, Clone, Copy, PartialEq, Eq, Structural)]
pub enum LexingErrorKind {
    /// The byte does not start any token.
    IllegalCharacter,
    /// The end of the input came before the closing `"` of a string.
    UnterminatedStringLiteral,
    /// A character literal was not closed by `'` right after its character.
    InvalidCharacterLiteral,
    /// A backslash was followed by a byte that names no escape.
    InvalidEscapeSequence,
}

/// The first error met while scanning, with the byte offset where it was
/// detected.
#[derive(Debug, Clone, Copy, PartialEq, Eq, Structural)]
pub struct LexingError {
    pub kind: LexingErrorKind,
    pub position: usize,
}

impl View for LexingError {
    type V = (LexingErrorKind, int);

    open spec fn view(&self) -> (LexingErrorKind, int) {
        (self.kind, self.position as int)
    }
}

pub open spec fn kind_message(kind: LexingErrorKind) -> Seq<char> {
    match kind {
        LexingErrorKind::IllegalCharacter => "Illegal Character"@,
        LexingErrorKind::UnterminatedStringLiteral => "String Literal Has No End"@,
        LexingErrorKind::InvalidCharacterLiteral => "Invalid Character Literal"@,
        LexingErrorKind::InvalidEscapeSequence => "Invalid Escape Sequence"@,
    }
}

impl LexingError {
    /// A human-readable description of the error's kind.
    pub fn message(&self) -> (r: &'static str)
        ensures
            r@ == kind_message(self.kind),
    {
        match self.kind {
            LexingErrorKind::IllegalCharacter => "Illegal Character",
            LexingErrorKind::UnterminatedStringLiteral => "String Literal Has No End",
            LexingErrorKind::InvalidCharacterLiteral => "Invalid Character Literal",
            LexingErrorKind::InvalidEscapeSequence => "Invalid Escape Sequence",
        }
    }
}

} // verus!
