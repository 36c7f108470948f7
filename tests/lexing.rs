use frontend::{Lexer, LexingError, LexingErrorKind, Token};

fn lex(source: &str) -> Result<Vec<Token>, LexingError> {
    let mut lexer = Lexer::new(source);
    lexer.lex()
}

fn ident(s: &str) -> Token {
    Token::Ident(s.to_string())
}

fn num(s: &str) -> Token {
    Token::NumLit(s.to_string())
}

fn err(kind: LexingErrorKind, position: usize) -> Result<Vec<Token>, LexingError> {
    Err(LexingError { kind, position })
}

#[test]
fn identifiers_keep_their_span() {
    assert_eq!(
        lex("foo_bar1 _x Z9\0"),
        Ok(vec![ident("foo_bar1"), ident("_x"), ident("Z9"), Token::EOF])
    );
}

#[test]
fn reserved_words_become_keywords() {
    assert_eq!(
        lex("fn let var undefined if elif else mod struct\0"),
        Ok(vec![
            Token::Fn,
            Token::Let,
            Token::Var,
            Token::Undefined,
            Token::If,
            Token::Elif,
            Token::Else,
            Token::Mod,
            Token::Struct,
            Token::EOF,
        ])
    );
}

#[test]
fn keyword_prefix_is_an_identifier() {
    assert_eq!(
        lex("fnx lets iff structs\0"),
        Ok(vec![ident("fnx"), ident("lets"), ident("iff"), ident("structs"), Token::EOF])
    );
}

#[test]
fn integer_literal() {
    assert_eq!(lex("12345\0"), Ok(vec![num("12345"), Token::EOF]));
}

#[test]
fn dot_after_integer_is_a_separate_token() {
    assert_eq!(
        lex("3.field\0"),
        Ok(vec![num("3"), Token::Sign("."), ident("field"), Token::EOF])
    );
    assert_eq!(lex("7.\0"), Ok(vec![num("7"), Token::Sign("."), Token::EOF]));
    assert_eq!(lex("7..9\0"), Ok(vec![num("7"), Token::Sign(".."), num("9"), Token::EOF]));
}

#[test]
fn fraction_literal() {
    assert_eq!(lex("3.14\0"), Ok(vec![num("3.14"), Token::EOF]));
    assert_eq!(
        lex("10.5.2\0"),
        Ok(vec![num("10.5"), Token::Sign("."), num("2"), Token::EOF])
    );
}

#[test]
fn maximal_munch() {
    assert_eq!(lex("+=\0"), Ok(vec![Token::Sign("+="), Token::EOF]));
    assert_eq!(lex("..=\0"), Ok(vec![Token::Sign("..="), Token::EOF]));
    assert_eq!(lex("..\0"), Ok(vec![Token::Sign(".."), Token::EOF]));
    assert_eq!(lex("..x\0"), Ok(vec![Token::Sign(".."), ident("x"), Token::EOF]));
    assert_eq!(lex("+ =\0"), Ok(vec![Token::Sign("+"), Token::Sign("="), Token::EOF]));
    assert_eq!(lex("+++\0"), Ok(vec![Token::Sign("++"), Token::Sign("+"), Token::EOF]));
}

#[test]
fn every_sign_of_the_catalog() {
    let spellings = [
        "++", "+=", "+", "--", "-=", "-", "*=", "*", "/=", "/", "%=", "%", "!=", "!", ":=", "::",
        ":", "==", "=>", "=", "&&", "&", "||", "|", "~=", "~", "<=", "<", ">=", ">", "..=", "..",
        ".", ",", "?", "$", "@",
    ];
    for s in spellings {
        let source = format!("{} \0", s);
        assert_eq!(lex(&source), Ok(vec![Token::Sign(s), Token::EOF]), "{}", s);
    }
}

#[test]
fn single_colon_advances() {
    assert_eq!(
        lex("a:b\0"),
        Ok(vec![ident("a"), Token::Sign(":"), ident("b"), Token::EOF])
    );
    assert_eq!(lex(":\0"), Ok(vec![Token::Sign(":"), Token::EOF]));
}

#[test]
fn brackets() {
    assert_eq!(
        lex("( ) [ ] { }\0"),
        Ok(vec![
            Token::Paren('('),
            Token::Paren(')'),
            Token::Paren('['),
            Token::Paren(']'),
            Token::Paren('{'),
            Token::Paren('}'),
            Token::EOF,
        ])
    );
}

#[test]
fn unterminated_string() {
    assert_eq!(lex("\"abc\0"), err(LexingErrorKind::UnterminatedStringLiteral, 4));
    assert_eq!(lex("\"abc"), err(LexingErrorKind::UnterminatedStringLiteral, 4));
}

#[test]
fn empty_source() {
    assert_eq!(lex("\0"), Ok(vec![Token::EOF]));
    assert_eq!(lex(""), Ok(vec![Token::EOF]));
    assert_eq!(lex(" \t\r\n\x0c\0"), Ok(vec![Token::EOF]));
}

#[test]
fn statement_with_semicolon_is_rejected() {
    assert_eq!(
        lex("let x := 3.14 + y;\0"),
        err(LexingErrorKind::IllegalCharacter, 17)
    );
}

#[test]
fn statement_without_semicolon() {
    assert_eq!(
        lex("let x := 3.14 + y\0"),
        Ok(vec![
            Token::Let,
            ident("x"),
            Token::Sign(":="),
            num("3.14"),
            Token::Sign("+"),
            ident("y"),
            Token::EOF,
        ])
    );
}

#[test]
fn string_literals() {
    assert_eq!(lex("\"\"\0"), Ok(vec![Token::StrLit(vec![]), Token::EOF]));
    assert_eq!(
        lex("\"hi there\"\0"),
        Ok(vec![Token::StrLit(b"hi there".to_vec()), Token::EOF])
    );
}

#[test]
fn string_escapes() {
    assert_eq!(
        lex("\"\\\\\\\"\\'\\n\\t\\r\\0\"\0"),
        Ok(vec![Token::StrLit(vec![b'\\', b'"', b'\'', 10, 9, 13, 0]), Token::EOF])
    );
}

#[test]
fn invalid_escape() {
    assert_eq!(lex("\"a\\qb\"\0"), err(LexingErrorKind::InvalidEscapeSequence, 2));
    assert_eq!(lex("'\\x'\0"), err(LexingErrorKind::InvalidEscapeSequence, 1));
}

#[test]
fn character_literals() {
    assert_eq!(
        lex("'a' '\\n' '\\''\0"),
        Ok(vec![Token::CharLit(b'a'), Token::CharLit(10), Token::CharLit(b'\''), Token::EOF])
    );
}

#[test]
fn invalid_character_literal() {
    assert_eq!(lex("'ab'\0"), err(LexingErrorKind::InvalidCharacterLiteral, 2));
    assert_eq!(lex("'\0"), err(LexingErrorKind::InvalidCharacterLiteral, 1));
    assert_eq!(lex("'a"), err(LexingErrorKind::InvalidCharacterLiteral, 2));
}

#[test]
fn illegal_character() {
    assert_eq!(lex("a # b\0"), err(LexingErrorKind::IllegalCharacter, 2));
    assert_eq!(lex("\u{e9}\0"), err(LexingErrorKind::IllegalCharacter, 0));
}

#[test]
fn scanning_stops_at_the_sentinel() {
    assert_eq!(lex("a\0b"), Ok(vec![ident("a"), Token::EOF]));
}

#[test]
fn non_ascii_bytes_inside_strings_are_kept() {
    assert_eq!(
        lex("\"\u{e9}\"\0"),
        Ok(vec![Token::StrLit(vec![0xc3, 0xa9]), Token::EOF])
    );
}

#[test]
fn error_messages() {
    let e = LexingError { kind: LexingErrorKind::UnterminatedStringLiteral, position: 0 };
    assert_eq!(e.message(), "String Literal Has No End");
    let e = LexingError { kind: LexingErrorKind::IllegalCharacter, position: 3 };
    assert_eq!(e.message(), "Illegal Character");
    let e = LexingError { kind: LexingErrorKind::InvalidCharacterLiteral, position: 3 };
    assert_eq!(e.message(), "Invalid Character Literal");
    let e = LexingError { kind: LexingErrorKind::InvalidEscapeSequence, position: 3 };
    assert_eq!(e.message(), "Invalid Escape Sequence");
}
