//! Properties of the scanning rules that hold for every input.
use vstd::prelude::*;
use crate::scan::{
    byte_at, chars_of, digits_end, ident_end, is_digit, is_ident_byte, is_ident_start, is_space,
    is_sign_start, is_sign_spelling, keyword_of, lemma_next_token_advances, lex_from, next_token, number_end,
    sign_len, sign_token, space_end, string_body, word_token, BACKSLASH, DOT, NUL, QUOTE,
};
use crate::token::{LexingErrorKind, TokenModel};

verus! {

proof fn lemma_ident_run(src: Seq<u8>, i: int, e: int)
    requires
        0 <= i <= e <= src.len(),
        forall|k: int| i <= k < e ==> is_ident_byte(#[trigger] src[k]),
        !is_ident_byte(byte_at(src, e)),
    ensures
        ident_end(src, i) == e,
    decreases e - i,
{
    if i < e {
        lemma_ident_run(src, i + 1, e);
    }
}

proof fn lemma_digit_run(src: Seq<u8>, i: int, e: int)
    requires
        0 <= i <= e <= src.len(),
        forall|k: int| i <= k < e ==> is_digit(#[trigger] src[k]),
        !is_digit(byte_at(src, e)),
    ensures
        digits_end(src, i) == e,
    decreases e - i,
{
    if i < e {
        lemma_digit_run(src, i + 1, e);
    }
}

/// A maximal run of identifier bytes that starts with a letter or an
/// underscore scans as one token: the keyword it spells when it is a
/// reserved word, and otherwise an identifier holding exactly the run.
pub proof fn lemma_identifier_or_keyword(src: Seq<u8>, i: int, e: int)
    requires
        0 <= i < e <= src.len(),
        is_ident_start(src[i]),
        forall|k: int| i <= k < e ==> is_ident_byte(#[trigger] src[k]),
        !is_ident_byte(byte_at(src, e)),
    ensures
        next_token(src, i) == Ok::<(TokenModel, int), (LexingErrorKind, int)>(
            (word_token(src.subrange(i, e)), e),
        ),
        keyword_of(src.subrange(i, e)) is None ==> word_token(src.subrange(i, e))
            == TokenModel::Ident(chars_of(src.subrange(i, e))),
        keyword_of(src.subrange(i, e)) is Some ==> !(word_token(src.subrange(i, e)) is Ident),
{
    lemma_ident_run(src, i, e);
}

/// A maximal run of digits not followed by a dot and a digit scans as one
/// number literal holding exactly the run; a dot after it starts the next
/// token.
pub proof fn lemma_integer_literal(src: Seq<u8>, i: int, d: int)
    requires
        0 <= i < d <= src.len(),
        forall|k: int| i <= k < d ==> is_digit(#[trigger] src[k]),
        !is_digit(byte_at(src, d)),
        !(byte_at(src, d) == DOT && is_digit(byte_at(src, d + 1))),
    ensures
        next_token(src, i) == Ok::<(TokenModel, int), (LexingErrorKind, int)>(
            (TokenModel::NumLit(chars_of(src.subrange(i, d))), d),
        ),
        byte_at(src, d) == DOT ==> next_token(src, d) == Ok::<
            (TokenModel, int),
            (LexingErrorKind, int),
        >((sign_token(src, d), d + sign_len(src, d))),
{
    lemma_digit_run(src, i, d);
}

/// Digits, a dot and at least one more digit scan as one number literal
/// holding all of them.
pub proof fn lemma_fraction_literal(src: Seq<u8>, i: int, p: int, e: int)
    requires
        0 <= i < p,
        p + 1 < e <= src.len(),
        forall|k: int| i <= k < p ==> is_digit(#[trigger] src[k]),
        src[p] == DOT,
        forall|k: int| p < k < e ==> is_digit(#[trigger] src[k]),
        !is_digit(byte_at(src, e)),
    ensures
        next_token(src, i) == Ok::<(TokenModel, int), (LexingErrorKind, int)>(
            (TokenModel::NumLit(chars_of(src.subrange(i, e))), e),
        ),
{
    lemma_digit_run(src, i, p);
    lemma_digit_run(src, p + 1, e);
    assert(number_end(src, i) == e);
}

/// Every sign consumes at least one byte, and never more than the buffer
/// holds.
pub proof fn lemma_sign_progress(src: Seq<u8>, i: int)
    requires
        0 <= i,
        is_sign_start(byte_at(src, i)),
    ensures
        1 <= sign_len(src, i),
        i + sign_len(src, i) <= src.len(),
{
}

/// Maximal munch: the sign scanned at `i` is a spelling of the catalog,
/// and no longer spelling of the catalog starts at `i`.
pub proof fn lemma_longest_sign(src: Seq<u8>, i: int)
    requires
        0 <= i,
        is_sign_start(byte_at(src, i)),
    ensures
        is_sign_spelling(src.subrange(i, i + sign_len(src, i))),
        sign_len(src, i) < 2 && i + 2 <= src.len() ==> !is_sign_spelling(
            src.subrange(i, i + 2),
        ),
        sign_len(src, i) < 3 && i + 3 <= src.len() ==> !is_sign_spelling(
            src.subrange(i, i + 3),
        ),
{
    let c = byte_at(src, i);
    let n = byte_at(src, i + 1);
    let n2 = byte_at(src, i + 2);
    let len = sign_len(src, i);
    if len == 1 {
        assert(src.subrange(i, i + 1) =~= seq![c]);
    } else if len == 2 {
        assert(src.subrange(i, i + 2) =~= seq![c, n]);
    } else {
        assert(src.subrange(i, i + 3) =~= seq![c, n, n2]);
    }
    if len < 2 && i + 2 <= src.len() {
        assert(src.subrange(i, i + 2) =~= seq![c, n]);
    }
    if len < 3 && i + 3 <= src.len() {
        assert(src.subrange(i, i + 3) =~= seq![c, n, n2]);
    }
}

/// A string literal whose body holds no quote and no backslash before the
/// end of the input fails as unterminated, at the end of the input.
pub proof fn lemma_unterminated_string(src: Seq<u8>, i: int)
    requires
        0 <= i < src.len(),
        src[i] == QUOTE,
        forall|k: int| i < k < src.len() ==> #[trigger] src[k] != QUOTE && src[k] != BACKSLASH
            && src[k] != NUL,
    ensures
        next_token(src, i) == Err::<(TokenModel, int), (LexingErrorKind, int)>(
            (LexingErrorKind::UnterminatedStringLiteral, src.len() as int),
        ),
        lex_from(src, i) == Err::<(Seq<TokenModel>, int), (LexingErrorKind, int)>(
            (LexingErrorKind::UnterminatedStringLiteral, src.len() as int),
        ),
{
    lemma_unterminated_body(src, i + 1);
}

proof fn lemma_unterminated_body(src: Seq<u8>, j: int)
    requires
        0 <= j <= src.len(),
        forall|k: int| j <= k < src.len() ==> #[trigger] src[k] != QUOTE && src[k] != BACKSLASH
            && src[k] != NUL,
    ensures
        string_body(src, j) == Err::<(Seq<u8>, int), (LexingErrorKind, int)>(
            (LexingErrorKind::UnterminatedStringLiteral, src.len() as int),
        ),
    decreases src.len() - j,
{
    if j < src.len() {
        lemma_unterminated_body(src, j + 1);
    }
}

/// A source of whitespace alone, up to the end of the input, scans to
/// exactly one token, `EOF`.
pub proof fn lemma_blank_source(src: Seq<u8>, k: int)
    requires
        0 <= k <= src.len(),
        forall|j: int| 0 <= j < k ==> is_space(#[trigger] src[j]),
        byte_at(src, k) == NUL,
    ensures
        lex_from(src, 0) == Ok::<(Seq<TokenModel>, int), (LexingErrorKind, int)>(
            (seq![TokenModel::EOF], k),
        ),
{
    lemma_space_run(src, 0, k);
}

proof fn lemma_space_run(src: Seq<u8>, i: int, k: int)
    requires
        0 <= i <= k <= src.len(),
        forall|j: int| i <= j < k ==> is_space(#[trigger] src[j]),
        byte_at(src, k) == NUL,
    ensures
        space_end(src, i) == k,
    decreases k - i,
{
    if i < k {
        lemma_space_run(src, i + 1, k);
    }
}

/// A successful scan ends with exactly one `EOF`: its last token, and no
/// other.
pub proof fn lemma_single_eof(src: Seq<u8>, i: int)
    ensures
        lex_from(src, i) matches Ok((ts, _)) ==> {
            &&& ts.len() >= 1
            &&& ts.last() is EOF
            &&& forall|k: int| 0 <= k < ts.len() - 1 ==> !(#[trigger] ts[k] is EOF)
        },
    decreases src.len() - i,
{
    if let Ok((t, j)) = next_token(src, i) {
        if !(t is EOF) {
            lemma_next_token_advances(src, i);
            lemma_single_eof(src, j);
            if let Ok((rest, e)) = lex_from(src, j) {
                let ts = seq![t] + rest;
                assert(lex_from(src, i) == Ok::<(Seq<TokenModel>, int), (LexingErrorKind, int)>(
                    (ts, e),
                ));
                assert forall|k: int| 0 <= k < ts.len() - 1 implies !(#[trigger] ts[k] is EOF) by {
                    if k > 0 {
                        assert(ts[k] == rest[k - 1]);
                    }
                }
            }
        }
    }
}

} // verus!
