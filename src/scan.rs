//! The scanning rules, stated over the source bytes. Every position is an
//! `int`; a read outside the buffer sees `NUL`, so the end of the buffer and
//! an explicit zero byte both end the input.
use vstd::prelude::*;
use vstd::string::StringSliceAdditionalSpecFns;
use crate::token::{LexingErrorKind, TokenModel};

verus! {

pub const NUL: u8 = 0x00;
pub const TAB: u8 = 0x09;
pub const LF: u8 = 0x0a;
pub const FF: u8 = 0x0c;
pub const CR: u8 = 0x0d;
pub const SPACE: u8 = 0x20;
pub const BANG: u8 = 0x21;
pub const QUOTE: u8 = 0x22;
pub const DOLLAR: u8 = 0x24;
pub const PERCENT: u8 = 0x25;
pub const AMPERSAND: u8 = 0x26;
pub const APOSTROPHE: u8 = 0x27;
pub const LEFT_PAREN: u8 = 0x28;
pub const RIGHT_PAREN: u8 = 0x29;
pub const STAR: u8 = 0x2a;
pub const PLUS: u8 = 0x2b;
pub const COMMA: u8 = 0x2c;
pub const MINUS: u8 = 0x2d;
pub const DOT: u8 = 0x2e;
pub const SLASH: u8 = 0x2f;
pub const DIGIT_ZERO: u8 = 0x30;
pub const DIGIT_NINE: u8 = 0x39;
pub const COLON: u8 = 0x3a;
pub const LESS: u8 = 0x3c;
pub const EQUAL: u8 = 0x3d;
pub const GREATER: u8 = 0x3e;
pub const QUESTION: u8 = 0x3f;
pub const AT: u8 = 0x40;
pub const UPPER_A: u8 = 0x41;
pub const UPPER_Z: u8 = 0x5a;
pub const LEFT_BRACKET: u8 = 0x5b;
pub const BACKSLASH: u8 = 0x5c;
pub const RIGHT_BRACKET: u8 = 0x5d;
pub const UNDERSCORE: u8 = 0x5f;
pub const LOWER_A: u8 = 0x61;
pub const LOWER_N: u8 = 0x6e;
pub const LOWER_R: u8 = 0x72;
pub const LOWER_T: u8 = 0x74;
pub const LOWER_Z: u8 = 0x7a;
pub const LEFT_BRACE: u8 = 0x7b;
pub const PIPE: u8 = 0x7c;
pub const RIGHT_BRACE: u8 = 0x7d;
pub const TILDE: u8 = 0x7e;

/// The byte at `i`, or `NUL` when `i` lies outside the buffer.
pub open spec fn byte_at(src: Seq<u8>, i: int) -> u8 {
    if 0 <= i < src.len() {
        src[i]
    } else {
        NUL
    }
}

/// ASCII whitespace: space, tab, line feed, form feed, carriage return.
pub open spec fn is_space(b: u8) -> bool {
    b == SPACE || b == TAB || b == LF || b == FF || b == CR
}

pub open spec fn is_digit(b: u8) -> bool {
    DIGIT_ZERO <= b <= DIGIT_NINE
}

pub open spec fn is_letter(b: u8) -> bool {
    (UPPER_A <= b <= UPPER_Z) || (LOWER_A <= b <= LOWER_Z)
}

pub open spec fn is_ident_start(b: u8) -> bool {
    is_letter(b) || b == UNDERSCORE
}

pub open spec fn is_ident_byte(b: u8) -> bool {
    is_letter(b) || is_digit(b) || b == UNDERSCORE
}

pub open spec fn is_bracket(b: u8) -> bool {
    b == LEFT_PAREN || b == RIGHT_PAREN || b == LEFT_BRACKET || b == RIGHT_BRACKET
        || b == LEFT_BRACE || b == RIGHT_BRACE
}

/// The bytes that begin an operator or a punctuation sign.
pub open spec fn is_sign_start(b: u8) -> bool {
    b == PLUS || b == MINUS || b == STAR || b == SLASH || b == PERCENT || b == BANG || b == COLON
        || b == EQUAL || b == AMPERSAND || b == PIPE || b == TILDE || b == LESS || b == GREATER
        || b == DOT || b == COMMA || b == QUESTION || b == DOLLAR || b == AT
}

/// Text of a byte sequence, one character per byte.
pub open spec fn chars_of(s: Seq<u8>) -> Seq<char> {
    s.map_values(|b: u8| b as char)
}

/// The end of the run of whitespace that starts at `i`.
pub open spec fn space_end(src: Seq<u8>, i: int) -> int
    decreases src.len() - i,
{
    if is_space(byte_at(src, i)) {
        space_end(src, i + 1)
    } else {
        i
    }
}

/// The end of the run of identifier bytes that starts at `i`.
pub open spec fn ident_end(src: Seq<u8>, i: int) -> int
    decreases src.len() - i,
{
    if is_ident_byte(byte_at(src, i)) {
        ident_end(src, i + 1)
    } else {
        i
    }
}

/// The end of the run of digits that starts at `i`.
pub open spec fn digits_end(src: Seq<u8>, i: int) -> int
    decreases src.len() - i,
{
    if is_digit(byte_at(src, i)) {
        digits_end(src, i + 1)
    } else {
        i
    }
}

/// The end of the number literal that starts at `i`: a run of digits, and
/// a fraction when a dot is followed by a digit.
pub open spec fn number_end(src: Seq<u8>, i: int) -> int {
    let d = digits_end(src, i);
    if byte_at(src, d) == DOT && is_digit(byte_at(src, d + 1)) {
        digits_end(src, d + 1)
    } else {
        d
    }
}

/// The keyword spelled by `w`, if it is a reserved word.
pub open spec fn keyword_of(w: Seq<u8>) -> Option<TokenModel> {
    if w == "fn".spec_bytes() {
        Some(TokenModel::Fn)
    } else if w == "let".spec_bytes() {
        Some(TokenModel::Let)
    } else if w == "var".spec_bytes() {
        Some(TokenModel::Var)
    } else if w == "undefined".spec_bytes() {
        Some(TokenModel::Undefined)
    } else if w == "if".spec_bytes() {
        Some(TokenModel::If)
    } else if w == "elif".spec_bytes() {
        Some(TokenModel::Elif)
    } else if w == "else".spec_bytes() {
        Some(TokenModel::Else)
    } else if w == "mod".spec_bytes() {
        Some(TokenModel::Mod)
    } else if w == "struct".spec_bytes() {
        Some(TokenModel::Struct)
    } else {
        None
    }
}

/// The token for an identifier-shaped word: its keyword, or an identifier.
pub open spec fn word_token(w: Seq<u8>) -> TokenModel {
    match keyword_of(w) {
        Some(k) => k,
        None => TokenModel::Ident(chars_of(w)),
    }
}

/// How many bytes the sign starting at `i` spans: the longest spelling of
/// the catalog that the input starts with.
pub open spec fn sign_len(src: Seq<u8>, i: int) -> int {
    let c = byte_at(src, i);
    let n = byte_at(src, i + 1);
    if c == PLUS {
        if n == PLUS || n == EQUAL { 2 } else { 1 }
    } else if c == MINUS {
        if n == MINUS || n == EQUAL { 2 } else { 1 }
    } else if c == COLON {
        if n == EQUAL || n == COLON { 2 } else { 1 }
    } else if c == EQUAL {
        if n == EQUAL || n == GREATER { 2 } else { 1 }
    } else if c == AMPERSAND {
        if n == AMPERSAND { 2 } else { 1 }
    } else if c == PIPE {
        if n == PIPE { 2 } else { 1 }
    } else if c == STAR || c == SLASH || c == PERCENT || c == BANG || c == TILDE || c == LESS
        || c == GREATER {
        if n == EQUAL { 2 } else { 1 }
    } else if c == DOT {
        if n == DOT && byte_at(src, i + 2) == EQUAL {
            3
        } else if n == DOT {
            2
        } else {
            1
        }
    } else {
        1
    }
}

/// The sign token that starts at `i`: the spelling it consumes.
pub open spec fn sign_token(src: Seq<u8>, i: int) -> TokenModel {
    TokenModel::Sign(chars_of(src.subrange(i, i + sign_len(src, i))))
}

/// The catalog of operator and punctuation spellings.
pub open spec fn is_sign_spelling(w: Seq<u8>) -> bool {
    w == seq![PLUS] ||
        w == seq![PLUS, PLUS] ||
        w == seq![PLUS, EQUAL] ||
        w == seq![MINUS] ||
        w == seq![MINUS, MINUS] ||
        w == seq![MINUS, EQUAL] ||
        w == seq![STAR] ||
        w == seq![STAR, EQUAL] ||
        w == seq![SLASH] ||
        w == seq![SLASH, EQUAL] ||
        w == seq![PERCENT] ||
        w == seq![PERCENT, EQUAL] ||
        w == seq![BANG] ||
        w == seq![BANG, EQUAL] ||
        w == seq![COLON] ||
        w == seq![COLON, EQUAL] ||
        w == seq![COLON, COLON] ||
        w == seq![EQUAL] ||
        w == seq![EQUAL, EQUAL] ||
        w == seq![EQUAL, GREATER] ||
        w == seq![AMPERSAND] ||
        w == seq![AMPERSAND, AMPERSAND] ||
        w == seq![PIPE] ||
        w == seq![PIPE, PIPE] ||
        w == seq![TILDE] ||
        w == seq![TILDE, EQUAL] ||
        w == seq![LESS] ||
        w == seq![LESS, EQUAL] ||
        w == seq![GREATER] ||
        w == seq![GREATER, EQUAL] ||
        w == seq![DOT] ||
        w == seq![DOT, DOT] ||
        w == seq![DOT, DOT, EQUAL] ||
        w == seq![COMMA] ||
        w == seq![QUESTION] ||
        w == seq![DOLLAR] ||
        w == seq![AT]
}

/// The byte that the escape `\e` stands for.
pub open spec fn escape_value(e: u8) -> Option<u8> {
    if e == BACKSLASH || e == QUOTE || e == APOSTROPHE {
        Some(e)
    } else if e == LOWER_N {
        Some(LF)
    } else if e == LOWER_T {
        Some(TAB)
    } else if e == LOWER_R {
        Some(CR)
    } else if e == DIGIT_ZERO {
        Some(NUL)
    } else {
        None
    }
}

/// One logical character at `i`: its byte value and how many source bytes
/// it spans, or `None` for a backslash that starts no escape.
pub open spec fn decode_at(src: Seq<u8>, i: int) -> Option<(u8, int)> {
    if byte_at(src, i) == BACKSLASH {
        match escape_value(byte_at(src, i + 1)) {
            Some(v) => Some((v, 2)),
            None => None,
        }
    } else {
        Some((byte_at(src, i), 1))
    }
}

/// The outcome of scanning one item: its value and the position after it,
/// or the error kind and the position where it was detected.
pub type Scanned<T> = Result<(T, int), (LexingErrorKind, int)>;

/// The contents of a string literal whose body starts at `i`, up to and
/// including the closing quote.
pub open spec fn string_body(src: Seq<u8>, i: int) -> Scanned<Seq<u8>>
    decreases src.len() - i,
{
    let b = byte_at(src, i);
    if b == QUOTE {
        Ok((Seq::empty(), i + 1))
    } else if b == NUL {
        Err((LexingErrorKind::UnterminatedStringLiteral, i))
    } else {
        match decode_at(src, i) {
            None => Err((LexingErrorKind::InvalidEscapeSequence, i)),
            Some((v, n)) => prepend(seq![v], string_body(src, i + n)),
        }
    }
}

/// The string literal whose opening quote is at `p`.
pub open spec fn string_literal(src: Seq<u8>, p: int) -> Scanned<TokenModel> {
    match string_body(src, p + 1) {
        Ok((bytes, e)) => Ok((TokenModel::StrLit(bytes), e)),
        Err(err) => Err(err),
    }
}

/// The character literal whose opening apostrophe is at `p`.
pub open spec fn char_literal(src: Seq<u8>, p: int) -> Scanned<TokenModel> {
    let i = p + 1;
    if byte_at(src, i) == NUL {
        Err((LexingErrorKind::InvalidCharacterLiteral, i))
    } else {
        match decode_at(src, i) {
            None => Err((LexingErrorKind::InvalidEscapeSequence, i)),
            Some((v, n)) => if byte_at(src, i + n) == APOSTROPHE {
                Ok((TokenModel::CharLit(v), i + n + 1))
            } else {
                Err((LexingErrorKind::InvalidCharacterLiteral, i + n))
            },
        }
    }
}

/// The token that starts exactly at `s`, chosen by its first byte.
pub open spec fn token_at(src: Seq<u8>, s: int) -> Scanned<TokenModel> {
    let c = byte_at(src, s);
    if is_ident_start(c) {
        let e = ident_end(src, s);
        Ok((word_token(src.subrange(s, e)), e))
    } else if is_digit(c) {
        let e = number_end(src, s);
        Ok((TokenModel::NumLit(chars_of(src.subrange(s, e))), e))
    } else if c == QUOTE {
        string_literal(src, s)
    } else if c == APOSTROPHE {
        char_literal(src, s)
    } else if is_bracket(c) {
        Ok((TokenModel::Paren(c as char), s + 1))
    } else if is_sign_start(c) {
        Ok((sign_token(src, s), s + sign_len(src, s)))
    } else if c == NUL {
        Ok((TokenModel::EOF, s))
    } else {
        Err((LexingErrorKind::IllegalCharacter, s))
    }
}

/// The next token from `i`: whitespace is skipped first.
pub open spec fn next_token(src: Seq<u8>, i: int) -> Scanned<TokenModel> {
    token_at(src, space_end(src, i))
}

/// The whole token sequence from `i`, which ends with the first `EOF`, and
/// the position of that `EOF`; or the first error.
pub open spec fn lex_from(src: Seq<u8>, i: int) -> Scanned<Seq<TokenModel>>
    decreases src.len() - i,
{
    match next_token(src, i) {
        Err(err) => Err(err),
        Ok((t, j)) => if t is EOF {
            Ok((seq![t], j))
        } else {
            proof {
                lemma_next_token_advances(src, i);
            }
            prepend(seq![t], lex_from(src, j))
        },
    }
}

/// `items` put in front of the outcome of scanning the rest.
pub open spec fn prepend<T>(items: Seq<T>, rest: Scanned<Seq<T>>) -> Scanned<Seq<T>> {
    match rest {
        Ok((xs, e)) => Ok((items + xs, e)),
        Err(err) => Err(err),
    }
}

pub proof fn lemma_prepend_twice<T>(a: Seq<T>, b: Seq<T>, rest: Scanned<Seq<T>>)
    ensures
        prepend(a, prepend(b, rest)) == prepend(a + b, rest),
{
    if let Ok((xs, e)) = rest {
        assert(a + (b + xs) =~= (a + b) + xs);
    }
}

pub proof fn lemma_space_end(src: Seq<u8>, i: int)
    ensures
        i <= space_end(src, i),
        i <= src.len() ==> space_end(src, i) <= src.len(),
    decreases src.len() - i,
{
    if is_space(byte_at(src, i)) {
        lemma_space_end(src, i + 1);
    }
}

pub proof fn lemma_ident_end(src: Seq<u8>, i: int)
    ensures
        i <= ident_end(src, i),
        i <= src.len() ==> ident_end(src, i) <= src.len(),
    decreases src.len() - i,
{
    if is_ident_byte(byte_at(src, i)) {
        lemma_ident_end(src, i + 1);
    }
}

pub proof fn lemma_digits_end(src: Seq<u8>, i: int)
    ensures
        i <= digits_end(src, i),
        i <= src.len() ==> digits_end(src, i) <= src.len(),
    decreases src.len() - i,
{
    if is_digit(byte_at(src, i)) {
        lemma_digits_end(src, i + 1);
    }
}

pub proof fn lemma_string_body(src: Seq<u8>, i: int)
    requires
        0 <= i <= src.len(),
    ensures
        string_body(src, i) matches Ok((_, e)) ==> i < e <= src.len(),
        string_body(src, i) matches Err((_, p)) ==> i <= p <= src.len(),
    decreases src.len() - i,
{
    let b = byte_at(src, i);
    if b != QUOTE && b != NUL {
        if let Some((v, n)) = decode_at(src, i) {
            lemma_string_body(src, i + n);
        }
    }
}

/// A token other than `EOF` starts inside the buffer and ends after its
/// first byte, still inside the buffer.
pub proof fn lemma_next_token_advances(src: Seq<u8>, i: int)
    ensures
        next_token(src, i) matches Ok((t, j)) ==> (t is EOF || (i < j <= src.len())),
{
    let s = space_end(src, i);
    lemma_space_end(src, i);
    let c = byte_at(src, s);
    if c != NUL {
        assert(0 <= s < src.len());
        lemma_ident_end(src, s + 1);
        lemma_digits_end(src, s + 1);
        let d = digits_end(src, s);
        if byte_at(src, d) == DOT && is_digit(byte_at(src, d + 1)) {
            lemma_digits_end(src, d + 1);
        }
        lemma_string_body(src, s + 1);
        if is_sign_start(c) {
            assert(s + sign_len(src, s) <= src.len());
        }
        if c == APOSTROPHE {
            assert(char_literal(src, s) matches Ok((_, j)) ==> s < j <= src.len());
        }
        if is_digit(c) {
            assert(s < number_end(src, s) <= src.len());
        }
    }
}

} // verus!
