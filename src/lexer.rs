use vstd::prelude::*;
use vstd::string::StringSliceAdditionalSpecFns;
use crate::scan::{
    byte_at, char_literal, chars_of, decode_at, digits_end, escape_value, ident_end, is_bracket,
    is_digit, is_ident_byte, is_ident_start, is_letter, is_sign_start, is_space, keyword_of,
    lemma_digits_end, lemma_next_token_advances, lemma_prepend_twice, lex_from, next_token,
    number_end, prepend, sign_len, sign_token, space_end, string_body, string_literal,
    word_token, Scanned, AMPERSAND, APOSTROPHE, AT, BACKSLASH, BANG, COLON, COMMA, CR,
    DIGIT_NINE, DIGIT_ZERO, DOLLAR, DOT, EQUAL, FF, GREATER, LEFT_BRACE, LEFT_BRACKET,
    LEFT_PAREN, LESS, LF, LOWER_A, LOWER_N, LOWER_R, LOWER_T, LOWER_Z, MINUS, NUL, PERCENT,
    PIPE, PLUS, QUESTION, QUOTE, RIGHT_BRACE, RIGHT_BRACKET, RIGHT_PAREN, SLASH, SPACE, STAR,
    TAB, TILDE, UNDERSCORE, UPPER_A, UPPER_Z,
};
use crate::text::push_char;
use crate::token::{LexingError, LexingErrorKind, Token, TokenModel};

verus! {

/// A scanner over a read-only byte buffer. The cursor only moves forward;
/// reading past the end of the buffer sees `NUL`, which ends the input, as
/// does a zero byte inside it.
pub struct Lexer<'a> {
    src: &'a [u8],
    i: usize,
}

/// The model of one scanning step: the token and the cursor after it, or
/// the error.
pub open spec fn token_outcome(r: Result<Token, LexingError>, end: int) -> Scanned<TokenModel> {
    match r {
        Ok(t) => Ok((t@, end)),
        Err(e) => Err(e@),
    }
}

/// The tokens seen as their models.
pub open spec fn token_views(ts: Seq<Token>) -> Seq<TokenModel> {
    ts.map_values(|t: Token| t@)
}

/// The model of a whole run: the tokens and the final cursor, or the error.
pub open spec fn tokens_outcome(r: Result<Vec<Token>, LexingError>, end: int) -> Scanned<
    Seq<TokenModel>,
> {
    match r {
        Ok(ts) => Ok((token_views(ts@), end)),
        Err(e) => Err(e@),
    }
}

/// `after` has consumed the sign that starts at the cursor of `before`,
/// and `t` is that sign.
pub open spec fn sign_taken(before: Lexer, after: Lexer, t: Token) -> bool {
    &&& after.source() == before.source()
    &&& after.cursor() == before.cursor() + sign_len(before.source(), before.cursor())
    &&& t@ == sign_token(before.source(), before.cursor())
}

fn is_space_byte(b: u8) -> (r: bool)
    ensures
        r == is_space(b),
{
    b == SPACE || b == TAB || b == LF || b == FF || b == CR
}

fn is_digit_byte(b: u8) -> (r: bool)
    ensures
        r == is_digit(b),
{
    DIGIT_ZERO <= b && b <= DIGIT_NINE
}

fn is_letter_byte(b: u8) -> (r: bool)
    ensures
        r == is_letter(b),
{
    (UPPER_A <= b && b <= UPPER_Z) || (LOWER_A <= b && b <= LOWER_Z)
}

fn is_bracket_byte(b: u8) -> (r: bool)
    ensures
        r == is_bracket(b),
{
    b == LEFT_PAREN || b == RIGHT_PAREN || b == LEFT_BRACKET || b == RIGHT_BRACKET
        || b == LEFT_BRACE || b == RIGHT_BRACE
}

fn is_sign_start_byte(b: u8) -> (r: bool)
    ensures
        r == is_sign_start(b),
{
    b == PLUS || b == MINUS || b == STAR || b == SLASH || b == PERCENT || b == BANG || b == COLON
        || b == EQUAL || b == AMPERSAND || b == PIPE || b == TILDE || b == LESS || b == GREATER
        || b == DOT || b == COMMA || b == QUESTION || b == DOLLAR || b == AT
}

fn is_ident_byte_exec(b: u8) -> (r: bool)
    ensures
        r == is_ident_byte(b),
{
    is_letter_byte(b) || is_digit_byte(b) || b == UNDERSCORE
}

/// Whether two byte strings are equal.
fn bytes_eq(a: &[u8], b: &[u8]) -> (r: bool)
    ensures
        r == (a@ == b@),
{
    if a.len() != b.len() {
        return false;
    }
    let mut k: usize = 0;
    while k < a.len()
        invariant
            a@.len() == b@.len(),
            k <= a@.len(),
            forall|j: int| 0 <= j < k ==> a@[j] == b@[j],
        decreases a@.len() - k,
    {
        if a[k] != b[k] {
            return false;
        }
        k = k + 1;
    }
    assert(a@ =~= b@);
    true
}

/// The text of a byte string, one character per byte.
fn text_of(bytes: &[u8]) -> (s: String)
    ensures
        s@ == chars_of(bytes@),
{
    let mut s = String::new();
    let mut k: usize = 0;
    while k < bytes.len()
        invariant
            k <= bytes@.len(),
            s@ == chars_of(bytes@.subrange(0, k as int)),
        decreases bytes@.len() - k,
    {
        push_char(&mut s, bytes[k] as char);
        assert(chars_of(bytes@.subrange(0, k + 1)) =~= chars_of(bytes@.subrange(0, k as int)).push(
            bytes@[k as int] as char,
        ));
        k = k + 1;
    }
    assert(bytes@.subrange(0, k as int) =~= bytes@);
    s
}

/// The keyword token of a reserved word.
fn keyword_token(word: &[u8]) -> (r: Option<Token>)
    ensures
        r matches Some(t) ==> keyword_of(word@) == Some(t@),
        r is None ==> keyword_of(word@) is None,
{
    if bytes_eq(word, "fn".as_bytes()) {
        Some(Token::Fn)
    } else if bytes_eq(word, "let".as_bytes()) {
        Some(Token::Let)
    } else if bytes_eq(word, "var".as_bytes()) {
        Some(Token::Var)
    } else if bytes_eq(word, "undefined".as_bytes()) {
        Some(Token::Undefined)
    } else if bytes_eq(word, "if".as_bytes()) {
        Some(Token::If)
    } else if bytes_eq(word, "elif".as_bytes()) {
        Some(Token::Elif)
    } else if bytes_eq(word, "else".as_bytes()) {
        Some(Token::Else)
    } else if bytes_eq(word, "mod".as_bytes()) {
        Some(Token::Mod)
    } else if bytes_eq(word, "struct".as_bytes()) {
        Some(Token::Struct)
    } else {
        None
    }
}

/// The byte that the escape `\\e` stands for.
fn escape_byte(e: u8) -> (r: Option<u8>)
    ensures
        r == escape_value(e),
{
    if e == BACKSLASH || e == QUOTE || e == APOSTROPHE {
        Some(e)
    } else if e == LOWER_N {
        Some(LF)
    } else if e == LOWER_T {
        Some(TAB)
    } else if e == LOWER_R {
        Some(CR)
    } else if e == DIGIT_ZERO {
        Some(NUL)
    } else {
        None
    }
}

impl<'a> Lexer<'a> {
    /// The bytes being scanned.
    pub closed spec fn source(&self) -> Seq<u8> {
        self.src@
    }

    /// The offset of the next byte to scan.
    pub closed spec fn cursor(&self) -> int {
        self.i as int
    }

    /// A lexer over the bytes of `source`, with the cursor at its start.
    /// The input ends at the first zero byte, or at the end of `source`.
    pub fn new(source: &'a str) -> (r: Self)
        ensures
            r.source() == source.spec_bytes(),
            r.cursor() == 0,
    {
        Self { src: source.as_bytes(), i: 0 }
    }

    /// Scans every token from the cursor on: the sequence ends with the
    /// first `EOF`, or scanning stops at the first error.
    pub fn lex(&mut self) -> (r: Result<Vec<Token>, LexingError>)
        ensures
            final(self).source() == old(self).source(),
            tokens_outcome(r, final(self).cursor()) == lex_from(
                old(self).source(),
                old(self).cursor(),
            ),
    {
        let mut ret: Vec<Token> = Vec::new();
        loop
            invariant
                self.src == old(self).src,
                lex_from(self.src@, old(self).i as int) == prepend(
                    token_views(ret@),
                    lex_from(self.src@, self.i as int),
                ),
            decreases self.src@.len() - self.i,
        {
            let ghost before = self.i as int;
            let ghost prefix = token_views(ret@);
            let t = match self.parse_token() {
                Ok(t) => t,
                Err(e) => {
                    return Err(e);
                },
            };
            let done = match &t {
                Token::EOF => true,
                _ => false,
            };
            let ghost tv = t@;
            ret.push(t);
            proof {
                lemma_next_token_advances(self.src@, before);
                assert(token_views(ret@) =~= prefix + seq![tv]);
                lemma_prepend_twice(prefix, seq![tv], lex_from(self.src@, self.i as int));
            }
            if done {
                assert(prefix + seq![tv] =~= token_views(ret@));
                return Ok(ret);
            }
        }
    }

    /// Skips whitespace, then scans one token, chosen by its first byte.
    fn parse_token(&mut self) -> (r: Result<Token, LexingError>)
        ensures
            final(self).src == old(self).src,
            token_outcome(r, final(self).i as int) == next_token(
                old(self).src@,
                old(self).i as int,
            ),
    {
        self.skip_ws();
        let c = self.ch();
        if is_letter_byte(c) || c == UNDERSCORE {
            Ok(self.parse_ident_like())
        } else if is_digit_byte(c) {
            Ok(self.parse_numeric_literal())
        } else if c == QUOTE {
            self.parse_string_literal()
        } else if c == APOSTROPHE {
            self.parse_character_literal()
        } else if is_bracket_byte(c) {
            self.read_ch();
            Ok(Token::Paren(c as char))
        } else if is_sign_start_byte(c) {
            Ok(self.parse_starts_with_sign())
        } else if c == NUL {
            Ok(Token::EOF)
        } else {
            Err(LexingError { kind: LexingErrorKind::IllegalCharacter, position: self.i })
        }
    }

    /// The byte at the cursor.
    fn ch(&self) -> (b: u8)
        ensures
            b == byte_at(self.src@, self.i as int),
    {
        if self.i < self.src.len() {
            self.src[self.i]
        } else {
            NUL
        }
    }

    /// The byte `k` places after the cursor.
    fn ch_at(&self, k: usize) -> (b: u8)
        ensures
            b == byte_at(self.src@, self.i + k),
    {
        if self.i < self.src.len() && k < self.src.len() - self.i {
            self.src[self.i + k]
        } else {
            NUL
        }
    }

    fn read_ch(&mut self)
        requires
            old(self).i < old(self).src.len(),
        ensures
            final(self).src == old(self).src,
            final(self).i == old(self).i + 1,
    {
        self.i = self.i + 1;
    }

    fn read_chs(&mut self, count: usize)
        requires
            old(self).i + count <= old(self).src.len(),
        ensures
            final(self).src == old(self).src,
            final(self).i == old(self).i + count,
    {
        self.i = self.i + count;
    }

    fn skip_ws(&mut self)
        ensures
            final(self).src == old(self).src,
            final(self).i == space_end(old(self).src@, old(self).i as int),
    {
        while is_space_byte(self.ch())
            invariant
                self.src == old(self).src,
                space_end(self.src@, self.i as int) == space_end(old(self).src@, old(self).i as int),
            decreases self.src@.len() - self.i,
        {
            self.read_ch();
        }
    }

    fn parse_ident_like(&mut self) -> (t: Token)
        requires
            is_ident_start(byte_at(old(self).src@, old(self).i as int)),
        ensures
            final(self).src == old(self).src,
            final(self).i == ident_end(old(self).src@, old(self).i as int),
            t@ == word_token(old(self).src@.subrange(old(self).i as int, final(self).i as int)),
    {
        let start = self.i;
        while is_ident_byte_exec(self.ch())
            invariant
                self.src == old(self).src,
                start == old(self).i,
                start <= self.i <= self.src@.len(),
                ident_end(self.src@, self.i as int) == ident_end(self.src@, start as int),
            decreases self.src@.len() - self.i,
        {
            self.read_ch();
        }
        let word = &self.src[start..self.i];
        match keyword_token(word) {
            Some(k) => k,
            None => Token::Ident(text_of(word)),
        }
    }

    fn read_digits(&mut self)
        requires
            old(self).i <= old(self).src@.len(),
        ensures
            final(self).src == old(self).src,
            final(self).i == digits_end(old(self).src@, old(self).i as int),
    {
        while is_digit_byte(self.ch())
            invariant
                self.src == old(self).src,
                old(self).i <= self.i <= self.src@.len(),
                digits_end(self.src@, self.i as int) == digits_end(old(self).src@, old(self).i as int),
            decreases self.src@.len() - self.i,
        {
            self.read_ch();
        }
    }

    fn parse_numeric_literal(&mut self) -> (t: Token)
        requires
            is_digit(byte_at(old(self).src@, old(self).i as int)),
        ensures
            final(self).src == old(self).src,
            final(self).i == number_end(old(self).src@, old(self).i as int),
            t@ == TokenModel::NumLit(
                chars_of(old(self).src@.subrange(old(self).i as int, final(self).i as int)),
            ),
    {
        let start = self.i;
        proof {
            lemma_digits_end(self.src@, start as int);
        }
        self.read_digits();
        if self.ch() == DOT && is_digit_byte(self.ch_at(1)) {
            self.read_ch();
            proof {
                lemma_digits_end(self.src@, self.i as int);
            }
            self.read_digits();
        }
        Token::NumLit(text_of(&self.src[start..self.i]))
    }

    /// Decodes one logical character of a string or character literal.
    fn parse_string_character(&mut self) -> (r: Result<u8, LexingError>)
        requires
            byte_at(old(self).src@, old(self).i as int) != NUL,
        ensures
            final(self).src == old(self).src,
            decode_at(old(self).src@, old(self).i as int) matches Some((v, n)) ==> r == Ok::<
                u8,
                LexingError,
            >(v) && final(self).i == old(self).i + n,
            decode_at(old(self).src@, old(self).i as int) is None ==> (r matches Err(e) && e@ == (
                LexingErrorKind::InvalidEscapeSequence,
                old(self).i as int,
            )),
    {
        let c = self.ch();
        if c == BACKSLASH {
            match escape_byte(self.ch_at(1)) {
                Some(v) => {
                    self.read_chs(2);
                    Ok(v)
                },
                None => Err(
                    LexingError { kind: LexingErrorKind::InvalidEscapeSequence, position: self.i },
                ),
            }
        } else {
            self.read_ch();
            Ok(c)
        }
    }

    fn parse_string_literal(&mut self) -> (r: Result<Token, LexingError>)
        requires
            byte_at(old(self).src@, old(self).i as int) == QUOTE,
        ensures
            final(self).src == old(self).src,
            token_outcome(r, final(self).i as int) == string_literal(
                old(self).src@,
                old(self).i as int,
            ),
    {
        self.read_ch();
        let mut ret: Vec<u8> = Vec::new();
        loop
            invariant
                self.src == old(self).src,
                self.i <= self.src@.len(),
                string_body(self.src@, old(self).i + 1) == prepend(
                    ret@,
                    string_body(self.src@, self.i as int),
                ),
            decreases self.src@.len() - self.i,
        {
            let c = self.ch();
            if c == QUOTE {
                self.read_ch();
                assert(ret@ + Seq::<u8>::empty() =~= ret@);
                return Ok(Token::StrLit(ret));
            }
            if c == NUL {
                return Err(
                    LexingError {
                        kind: LexingErrorKind::UnterminatedStringLiteral,
                        position: self.i,
                    },
                );
            }
            let ghost before = self.i as int;
            let ghost prefix = ret@;
            match self.parse_string_character() {
                Ok(v) => {
                    ret.push(v);
                    proof {
                        assert(string_body(self.src@, before) == prepend(
                            seq![v],
                            string_body(self.src@, self.i as int),
                        ));
                        lemma_prepend_twice(prefix, seq![v], string_body(self.src@, self.i as int));
                        assert(ret@ =~= prefix + seq![v]);
                    }
                },
                Err(e) => {
                    return Err(e);
                },
            }
        }
    }

    fn parse_character_literal(&mut self) -> (r: Result<Token, LexingError>)
        requires
            byte_at(old(self).src@, old(self).i as int) == APOSTROPHE,
        ensures
            final(self).src == old(self).src,
            token_outcome(r, final(self).i as int) == char_literal(
                old(self).src@,
                old(self).i as int,
            ),
    {
        self.read_ch();
        if self.ch() == NUL {
            return Err(
                LexingError { kind: LexingErrorKind::InvalidCharacterLiteral, position: self.i },
            );
        }
        let v = match self.parse_string_character() {
            Ok(v) => v,
            Err(e) => {
                return Err(e);
            },
        };
        if self.ch() != APOSTROPHE {
            return Err(
                LexingError { kind: LexingErrorKind::InvalidCharacterLiteral, position: self.i },
            );
        }
        self.read_ch();
        Ok(Token::CharLit(v))
    }

    /// Consumes the `n` bytes of a sign spelled `spelling`.
    fn take_sign(&mut self, spelling: &'static str, n: usize) -> (t: Token)
        requires
            old(self).i + n <= old(self).src@.len(),
            n == sign_len(old(self).src@, old(self).i as int),
            spelling@ =~= chars_of(old(self).src@.subrange(old(self).i as int, old(self).i + n)),
        ensures
            sign_taken(*old(self), *final(self), t),
    {
        self.read_chs(n);
        Token::Sign(spelling)
    }

    /// Scans the operator or punctuation sign at the cursor, longest
    /// spelling first.
    fn parse_starts_with_sign(&mut self) -> (t: Token)
        requires
            is_sign_start(byte_at(old(self).src@, old(self).i as int)),
        ensures
            sign_taken(*old(self), *final(self), t),
            final(self).i > old(self).i,
    {
        let c = self.ch();
        if c == PLUS {
            self.parse_starts_with_plus()
        } else if c == MINUS {
            self.parse_starts_with_minus()
        } else if c == STAR {
            self.parse_starts_with_star()
        } else if c == SLASH {
            self.parse_starts_with_divide()
        } else if c == PERCENT {
            self.parse_starts_with_modulus()
        } else if c == BANG {
            self.parse_starts_with_exclamation_mark()
        } else if c == COLON {
            self.parse_starts_with_colon()
        } else if c == EQUAL {
            self.parse_starts_with_equal()
        } else if c == AMPERSAND {
            self.parse_starts_with_ampersand()
        } else if c == PIPE {
            self.parse_starts_with_pipe()
        } else if c == TILDE {
            self.parse_starts_with_wavey()
        } else if c == LESS {
            self.parse_starts_with_smaller()
        } else if c == GREATER {
            self.parse_starts_with_greater()
        } else if c == DOT {
            self.parse_starts_with_dot()
        } else if c == COMMA {
            proof {
                reveal_strlit(",");
            }
            self.take_sign(",", 1)
        } else if c == QUESTION {
            proof {
                reveal_strlit("?");
            }
            self.take_sign("?", 1)
        } else if c == DOLLAR {
            proof {
                reveal_strlit("$");
            }
            self.take_sign("$", 1)
        } else {
            proof {
                reveal_strlit("@");
            }
            self.take_sign("@", 1)
        }
    }

    fn parse_starts_with_plus(&mut self) -> (t: Token)
        requires
            byte_at(old(self).src@, old(self).i as int) == PLUS,
        ensures
            sign_taken(*old(self), *final(self), t),
    {
        let next = self.ch_at(1);
        if next == PLUS {
            proof {
                reveal_strlit("++");
            }
            self.take_sign("++", 2)
        } else if next == EQUAL {
            proof {
                reveal_strlit("+=");
            }
            self.take_sign("+=", 2)
        } else {
            proof {
                reveal_strlit("+");
            }
            self.take_sign("+", 1)
        }
    }

    fn parse_starts_with_minus(&mut self) -> (t: Token)
        requires
            byte_at(old(self).src@, old(self).i as int) == MINUS,
        ensures
            sign_taken(*old(self), *final(self), t),
    {
        let next = self.ch_at(1);
        if next == MINUS {
            proof {
                reveal_strlit("--");
            }
            self.take_sign("--", 2)
        } else if next == EQUAL {
            proof {
                reveal_strlit("-=");
            }
            self.take_sign("-=", 2)
        } else {
            proof {
                reveal_strlit("-");
            }
            self.take_sign("-", 1)
        }
    }

    fn parse_starts_with_star(&mut self) -> (t: Token)
        requires
            byte_at(old(self).src@, old(self).i as int) == STAR,
        ensures
            sign_taken(*old(self), *final(self), t),
    {
        let next = self.ch_at(1);
        if next == EQUAL {
            proof {
                reveal_strlit("*=");
            }
            self.take_sign("*=", 2)
        } else {
            proof {
                reveal_strlit("*");
            }
            self.take_sign("*", 1)
        }
    }

    fn parse_starts_with_divide(&mut self) -> (t: Token)
        requires
            byte_at(old(self).src@, old(self).i as int) == SLASH,
        ensures
            sign_taken(*old(self), *final(self), t),
    {
        let next = self.ch_at(1);
        if next == EQUAL {
            proof {
                reveal_strlit("/=");
            }
            self.take_sign("/=", 2)
        } else {
            proof {
                reveal_strlit("/");
            }
            self.take_sign("/", 1)
        }
    }

    fn parse_starts_with_modulus(&mut self) -> (t: Token)
        requires
            byte_at(old(self).src@, old(self).i as int) == PERCENT,
        ensures
            sign_taken(*old(self), *final(self), t),
    {
        let next = self.ch_at(1);
        if next == EQUAL {
            proof {
                reveal_strlit("%=");
            }
            self.take_sign("%=", 2)
        } else {
            proof {
                reveal_strlit("%");
            }
            self.take_sign("%", 1)
        }
    }

    fn parse_starts_with_exclamation_mark(&mut self) -> (t: Token)
        requires
            byte_at(old(self).src@, old(self).i as int) == BANG,
        ensures
            sign_taken(*old(self), *final(self), t),
    {
        let next = self.ch_at(1);
        if next == EQUAL {
            proof {
                reveal_strlit("!=");
            }
            self.take_sign("!=", 2)
        } else {
            proof {
                reveal_strlit("!");
            }
            self.take_sign("!", 1)
        }
    }

    fn parse_starts_with_colon(&mut self) -> (t: Token)
        requires
            byte_at(old(self).src@, old(self).i as int) == COLON,
        ensures
            sign_taken(*old(self), *final(self), t),
    {
        let next = self.ch_at(1);
        if next == EQUAL {
            proof {
                reveal_strlit(":=");
            }
            self.take_sign(":=", 2)
        } else if next == COLON {
            proof {
                reveal_strlit("::");
            }
            self.take_sign("::", 2)
        } else {
            proof {
                reveal_strlit(":");
            }
            self.take_sign(":", 1)
        }
    }

    fn parse_starts_with_equal(&mut self) -> (t: Token)
        requires
            byte_at(old(self).src@, old(self).i as int) == EQUAL,
        ensures
            sign_taken(*old(self), *final(self), t),
    {
        let next = self.ch_at(1);
        if next == EQUAL {
            proof {
                reveal_strlit("==");
            }
            self.take_sign("==", 2)
        } else if next == GREATER {
            proof {
                reveal_strlit("=>");
            }
            self.take_sign("=>", 2)
        } else {
            proof {
                reveal_strlit("=");
            }
            self.take_sign("=", 1)
        }
    }

    fn parse_starts_with_ampersand(&mut self) -> (t: Token)
        requires
            byte_at(old(self).src@, old(self).i as int) == AMPERSAND,
        ensures
            sign_taken(*old(self), *final(self), t),
    {
        let next = self.ch_at(1);
        if next == AMPERSAND {
            proof {
                reveal_strlit("&&");
            }
            self.take_sign("&&", 2)
        } else {
            proof {
                reveal_strlit("&");
            }
            self.take_sign("&", 1)
        }
    }

    fn parse_starts_with_pipe(&mut self) -> (t: Token)
        requires
            byte_at(old(self).src@, old(self).i as int) == PIPE,
        ensures
            sign_taken(*old(self), *final(self), t),
    {
        let next = self.ch_at(1);
        if next == PIPE {
            proof {
                reveal_strlit("||");
            }
            self.take_sign("||", 2)
        } else {
            proof {
                reveal_strlit("|");
            }
            self.take_sign("|", 1)
        }
    }

    fn parse_starts_with_wavey(&mut self) -> (t: Token)
        requires
            byte_at(old(self).src@, old(self).i as int) == TILDE,
        ensures
            sign_taken(*old(self), *final(self), t),
    {
        let next = self.ch_at(1);
        if next == EQUAL {
            proof {
                reveal_strlit("~=");
            }
            self.take_sign("~=", 2)
        } else {
            proof {
                reveal_strlit("~");
            }
            self.take_sign("~", 1)
        }
    }

    fn parse_starts_with_smaller(&mut self) -> (t: Token)
        requires
            byte_at(old(self).src@, old(self).i as int) == LESS,
        ensures
            sign_taken(*old(self), *final(self), t),
    {
        let next = self.ch_at(1);
        if next == EQUAL {
            proof {
                reveal_strlit("<=");
            }
            self.take_sign("<=", 2)
        } else {
            proof {
                reveal_strlit("<");
            }
            self.take_sign("<", 1)
        }
    }

    fn parse_starts_with_greater(&mut self) -> (t: Token)
        requires
            byte_at(old(self).src@, old(self).i as int) == GREATER,
        ensures
            sign_taken(*old(self), *final(self), t),
    {
        let next = self.ch_at(1);
        if next == EQUAL {
            proof {
                reveal_strlit(">=");
            }
            self.take_sign(">=", 2)
        } else {
            proof {
                reveal_strlit(">");
            }
            self.take_sign(">", 1)
        }
    }

    fn parse_starts_with_dot(&mut self) -> (t: Token)
        requires
            byte_at(old(self).src@, old(self).i as int) == DOT,
        ensures
            sign_taken(*old(self), *final(self), t),
    {
        if self.ch_at(1) == DOT && self.ch_at(2) == EQUAL {
            proof {
                reveal_strlit("..=");
            }
            self.take_sign("..=", 3)
        } else if self.ch_at(1) == DOT {
            proof {
                reveal_strlit("..");
            }
            self.take_sign("..", 2)
        } else {
            proof {
                reveal_strlit(".");
            }
            self.take_sign(".", 1)
        }
    }
}

} // verus!
