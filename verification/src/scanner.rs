//! The scanner: a stateful tokenizer that turns source bytes into a lazy
//! sequence of `Result<Token, LexError>`, and `collect`, which materializes
//! that sequence into a vector, stopping at (and including) the `Eof` token
//! or at the first lexical error.
//!
//! The specification side defines, once and for all, which token starts at
//! each byte offset (`spec_token`) and what the whole token stream of a
//! source is (`scan_from`); the executable scanner is proved to produce
//! exactly that.

use vstd::prelude::*;

use crate::cursor::Cursor;
use crate::token::{LexError, LexErrorKind, Span, Token, TokenType};

verus! {

/// Inter-token whitespace: space and horizontal tab. The newline is skipped
/// as well but is counted separately for diagnostic line numbers.
pub fn is_whitespace(c: u8) -> (r: bool)
    ensures
        r == is_whitespace_spec(c),
{
    c == 32 || c == 9
}

pub open spec fn is_whitespace_spec(c: u8) -> bool {
    c == 32 || c == 9
}

/// Whitespace as the scanner skips it: space, tab, or newline.
pub open spec fn is_skippable_spec(c: u8) -> bool {
    is_whitespace_spec(c) || c == 10
}

pub open spec fn is_digit_spec(c: u8) -> bool {
    48 <= c <= 57
}

pub open spec fn is_alpha_spec(c: u8) -> bool {
    (65 <= c <= 90) || (97 <= c <= 122)
}

pub open spec fn is_alnum_spec(c: u8) -> bool {
    is_alpha_spec(c) || is_digit_spec(c)
}

/// The kind of a token made of exactly this one byte, if any.
pub open spec fn single_kind_spec(c: u8) -> Option<TokenType> {
    if c == 40 {
        Some(TokenType::LeftParen)
    } else if c == 41 {
        Some(TokenType::RightParen)
    } else if c == 91 {
        Some(TokenType::LeftBracket)
    } else if c == 93 {
        Some(TokenType::RightBracket)
    } else if c == 123 {
        Some(TokenType::LeftBrace)
    } else if c == 125 {
        Some(TokenType::RightBrace)
    } else if c == 44 {
        Some(TokenType::Comma)
    } else if c == 46 {
        Some(TokenType::Dot)
    } else if c == 45 {
        Some(TokenType::Minus)
    } else if c == 43 {
        Some(TokenType::Plus)
    } else if c == 59 {
        Some(TokenType::Semicolon)
    } else if c == 47 {
        Some(TokenType::Slash)
    } else if c == 42 {
        Some(TokenType::Star)
    } else {
        None
    }
}

/// For `! = < >`: the kind taken alone and the kind taken with a following
/// `=`.
pub open spec fn two_char_kinds_spec(c: u8) -> Option<(TokenType, TokenType)> {
    if c == 33 {
        Some((TokenType::Bang, TokenType::BangEqual))
    } else if c == 61 {
        Some((TokenType::Equal, TokenType::EqualEqual))
    } else if c == 60 {
        Some((TokenType::Less, TokenType::LessEqual))
    } else if c == 62 {
        Some((TokenType::Greater, TokenType::GreaterEqual))
    } else {
        None
    }
}

/// First offset at or after `pos` that does not hold skippable whitespace.
pub open spec fn ws_end(code: Seq<u8>, pos: nat) -> nat
    decreases code.len() - pos,
{
    if pos >= code.len() {
        pos
    } else if is_skippable_spec(code[pos as int]) {
        ws_end(code, pos + 1)
    } else {
        pos
    }
}

/// First offset at or after `pos` that does not hold an ASCII digit.
pub open spec fn digits_end(code: Seq<u8>, pos: nat) -> nat
    decreases code.len() - pos,
{
    if pos >= code.len() {
        pos
    } else if is_digit_spec(code[pos as int]) {
        digits_end(code, pos + 1)
    } else {
        pos
    }
}

/// First offset at or after `pos` that does not hold an ASCII alphanumeric.
pub open spec fn alnum_end(code: Seq<u8>, pos: nat) -> nat
    decreases code.len() - pos,
{
    if pos >= code.len() {
        pos
    } else if is_alnum_spec(code[pos as int]) {
        alnum_end(code, pos + 1)
    } else {
        pos
    }
}

/// Offset of the first `"` at or after `pos`, if there is one.
pub open spec fn quote_at(code: Seq<u8>, pos: nat) -> Option<nat>
    decreases code.len() - pos,
{
    if pos >= code.len() {
        None
    } else if code[pos as int] == 34 {
        Some(pos)
    } else {
        quote_at(code, pos + 1)
    }
}

/// End of the number token that starts with the digit at `pos`: a maximal
/// digit run, then `.` and a further maximal digit run, but only when a
/// digit directly follows the `.`.
pub open spec fn number_end(code: Seq<u8>, pos: nat) -> nat {
    let e = digits_end(code, pos);
    if e < code.len() && code[e as int] == 46 && e + 1 < code.len() && is_digit_spec(
        code[e as int + 1],
    ) {
        digits_end(code, e + 1)
    } else {
        e
    }
}

/// How many bytes the UTF-8 character beginning with leading byte `c`
/// occupies. Continuation bytes, which never begin a character of valid
/// UTF-8, count as one byte.
pub open spec fn utf8_len_spec(c: u8) -> nat {
    if c < 0xC0 {
        1
    } else if c < 0xE0 {
        2
    } else if c < 0xF0 {
        3
    } else {
        4
    }
}

/// The keyword kind of a lexeme, or `Identifier` if it is none of the
/// sixteen keywords. Each keyword is spelled out by its ASCII bytes.
pub open spec fn keyword_or_identifier_spec(s: Seq<u8>) -> TokenType {
    if s.len() == 2 {
        if s[0] == 105 && s[1] == 102 {  // if
            TokenType::If
        } else if s[0] == 111 && s[1] == 114 {  // or
            TokenType::Or
        } else {
            TokenType::Identifier
        }
    } else if s.len() == 3 {
        if s[0] == 97 && s[1] == 110 && s[2] == 100 {  // and
            TokenType::And
        } else if s[0] == 102 && s[1] == 111 && s[2] == 114 {  // for
            TokenType::For
        } else if s[0] == 102 && s[1] == 117 && s[2] == 110 {  // fun
            TokenType::Fun
        } else if s[0] == 110 && s[1] == 105 && s[2] == 108 {  // nil
            TokenType::Nil
        } else if s[0] == 118 && s[1] == 97 && s[2] == 114 {  // var
            TokenType::Var
        } else {
            TokenType::Identifier
        }
    } else if s.len() == 4 {
        if s[0] == 101 && s[1] == 108 && s[2] == 115 && s[3] == 101 {  // else
            TokenType::Else
        } else if s[0] == 116 && s[1] == 114 && s[2] == 117 && s[3] == 101 {  // true
            TokenType::True
        } else if s[0] == 116 && s[1] == 104 && s[2] == 105 && s[3] == 115 {  // this
            TokenType::This
        } else {
            TokenType::Identifier
        }
    } else if s.len() == 5 {
        if s[0] == 99 && s[1] == 108 && s[2] == 97 && s[3] == 115 && s[4] == 115 {  // class
            TokenType::Class
        } else if s[0] == 102 && s[1] == 97 && s[2] == 108 && s[3] == 115 && s[4] == 101 {  // false
            TokenType::False
        } else if s[0] == 112 && s[1] == 114 && s[2] == 105 && s[3] == 110 && s[4] == 116 {  // print
            TokenType::Print
        } else if s[0] == 115 && s[1] == 117 && s[2] == 112 && s[3] == 101 && s[4] == 114 {  // super
            TokenType::Super
        } else if s[0] == 119 && s[1] == 104 && s[2] == 105 && s[3] == 108 && s[4] == 101 {  // while
            TokenType::While
        } else {
            TokenType::Identifier
        }
    } else if s.len() == 6 {
        if s[0] == 114 && s[1] == 101 && s[2] == 116 && s[3] == 117 && s[4] == 114 && s[5]
            == 110 {  // return
            TokenType::Return
        } else {
            TokenType::Identifier
        }
    } else {
        TokenType::Identifier
    }
}

pub open spec fn tok(kind: TokenType, start: nat, end: nat) -> Token {
    Token { kind, span: Span { start: start as usize, end: end as usize } }
}

pub open spec fn lex_err(kind: LexErrorKind, start: nat, end: nat) -> LexError {
    LexError { kind, span: Span { start: start as usize, end: end as usize } }
}

/// The token that starts exactly at offset `p`, which must hold a
/// non-whitespace byte inside the source.
pub open spec fn token_at(code: Seq<u8>, p: nat) -> Result<Token, LexError>
    recommends
        p < code.len(),
        !is_skippable_spec(code[p as int]),
{
    let c = code[p as int];
    if single_kind_spec(c) is Some {
        Ok(tok(single_kind_spec(c)->Some_0, p, p + 1))
    } else if two_char_kinds_spec(c) is Some {
        let (alone, with_eq) = two_char_kinds_spec(c)->Some_0;
        if p + 1 < code.len() && code[p as int + 1] == 61 {
            Ok(tok(with_eq, p, p + 2))
        } else {
            Ok(tok(alone, p, p + 1))
        }
    } else if is_digit_spec(c) {
        Ok(tok(TokenType::Number, p, number_end(code, p)))
    } else if is_alpha_spec(c) {
        let e = alnum_end(code, p);
        Ok(tok(keyword_or_identifier_spec(code.subrange(p as int, e as int)), p, e))
    } else if c == 34 {
        match quote_at(code, p + 1) {
            Some(q) => Ok(tok(TokenType::String, p, q + 1)),
            None => Err(lex_err(LexErrorKind::UnterminatedString, p, code.len())),
        }
    } else {
        let e = if p + utf8_len_spec(c) <= code.len() {
            p + utf8_len_spec(c)
        } else {
            code.len()
        };
        Err(lex_err(LexErrorKind::InvalidCharacter, p, e as nat))
    }
}

/// The next scan step from offset `pos`: skip whitespace, then either the
/// zero-length `Eof` token at end of input or the token found there.
pub open spec fn spec_token(code: Seq<u8>, pos: nat) -> Result<Token, LexError> {
    let p = ws_end(code, pos);
    if p >= code.len() {
        Ok(tok(TokenType::Eof, code.len(), code.len()))
    } else {
        token_at(code, p)
    }
}

/// The token stream of `code` from offset `pos` on: every token through the
/// terminating `Eof`, or the first lexical error. (The inner bound `pos + 1`
/// only serves the termination measure; a scanned token always ends past
/// `pos`.)
pub open spec fn scan_from(code: Seq<u8>, pos: nat) -> Result<Seq<Token>, LexError>
    decreases code.len() - pos,
{
    match spec_token(code, pos) {
        Err(e) => Err(e),
        Ok(t) => {
            if t.kind == TokenType::Eof {
                Ok(seq![t])
            } else {
                let next = if t.span.end > pos && t.span.end <= code.len() {
                    t.span.end as nat
                } else {
                    pos + 1
                };
                match scan_from(code, next) {
                    Err(e) => Err(e),
                    Ok(rest) => Ok(seq![t] + rest),
                }
            }
        },
    }
}

pub proof fn lemma_ws_end(code: Seq<u8>, pos: nat)
    requires
        pos <= code.len(),
    ensures
        pos <= ws_end(code, pos) <= code.len(),
        forall|i: int| pos <= i < ws_end(code, pos) ==> is_skippable_spec(#[trigger] code[i]),
        ws_end(code, pos) < code.len() ==> !is_skippable_spec(code[ws_end(code, pos) as int]),
    decreases code.len() - pos,
{
    if pos < code.len() && is_skippable_spec(code[pos as int]) {
        lemma_ws_end(code, pos + 1);
    }
}

pub proof fn lemma_digits_end(code: Seq<u8>, pos: nat)
    requires
        pos <= code.len(),
    ensures
        pos <= digits_end(code, pos) <= code.len(),
        forall|i: int| pos <= i < digits_end(code, pos) ==> is_digit_spec(#[trigger] code[i]),
        digits_end(code, pos) < code.len() ==> !is_digit_spec(code[digits_end(code, pos) as int]),
    decreases code.len() - pos,
{
    if pos < code.len() && is_digit_spec(code[pos as int]) {
        lemma_digits_end(code, pos + 1);
    }
}

pub proof fn lemma_alnum_end(code: Seq<u8>, pos: nat)
    requires
        pos <= code.len(),
    ensures
        pos <= alnum_end(code, pos) <= code.len(),
        forall|i: int| pos <= i < alnum_end(code, pos) ==> is_alnum_spec(#[trigger] code[i]),
        alnum_end(code, pos) < code.len() ==> !is_alnum_spec(code[alnum_end(code, pos) as int]),
    decreases code.len() - pos,
{
    if pos < code.len() && is_alnum_spec(code[pos as int]) {
        lemma_alnum_end(code, pos + 1);
    }
}

pub proof fn lemma_quote_at(code: Seq<u8>, pos: nat)
    requires
        pos <= code.len(),
    ensures
        quote_at(code, pos) matches Some(q) ==> pos <= q < code.len() && code[q as int] == 34,
        quote_at(code, pos) is None ==> forall|i: int|
            pos <= i < code.len() ==> #[trigger] code[i] != 34,
    decreases code.len() - pos,
{
    if pos < code.len() && code[pos as int] != 34 {
        lemma_quote_at(code, pos + 1);
    }
}

/// A scanned token sits inside the source, past the byte it starts at, and
/// is never `Eof`; a lexical error's span is within the source too.
pub proof fn lemma_token_at(code: Seq<u8>, p: nat)
    requires
        p < code.len(),
        code.len() <= usize::MAX,
        !is_skippable_spec(code[p as int]),
    ensures
        token_at(code, p) matches Ok(t) ==> t.span.start == p && p < t.span.end <= code.len()
            && t.kind != TokenType::Eof,
        token_at(code, p) matches Err(e) ==> e.span.start == p && p < e.span.end <= code.len(),
{
    let c = code[p as int];
    if single_kind_spec(c) is Some || two_char_kinds_spec(c) is Some {
    } else if is_digit_spec(c) {
        lemma_digits_end(code, p + 1);
        assert(digits_end(code, p) == digits_end(code, p + 1));
        let e = digits_end(code, p);
        if e < code.len() && code[e as int] == 46 && e + 1 < code.len() && is_digit_spec(
            code[e as int + 1],
        ) {
            lemma_digits_end(code, e + 1);
        }
    } else if is_alpha_spec(c) {
        lemma_alnum_end(code, p + 1);
        assert(alnum_end(code, p) == alnum_end(code, p + 1));
    } else if c == 34 {
        lemma_quote_at(code, p + 1);
    }
}

/// The next scan step from a position inside the source either yields `Eof`
/// with its zero-length span at the very end, or a token or error that
/// starts at or after the position and ends past it.
pub proof fn lemma_spec_token(code: Seq<u8>, pos: nat)
    requires
        pos <= code.len(),
        code.len() <= usize::MAX,
    ensures
        spec_token(code, pos) matches Ok(t) ==> t.span.end <= code.len() && (t.kind
            == TokenType::Eof ==> t.span.start == code.len() && t.span.end == code.len()) && (t.kind
            != TokenType::Eof ==> pos <= t.span.start < t.span.end),
        spec_token(code, pos) matches Err(e) ==> pos <= e.span.start < e.span.end <= code.len(),
{
    lemma_ws_end(code, pos);
    let p = ws_end(code, pos);
    if p < code.len() {
        lemma_token_at(code, p);
    }
}

/// Number of newline bytes strictly before `pos`; the scanner's line
/// counter is one more than this.
pub open spec fn newline_count(code: Seq<u8>, pos: nat) -> nat
    decreases pos,
{
    if pos == 0 {
        0
    } else {
        newline_count(code, (pos - 1) as nat) + if code[pos - 1] == 10 {
            1nat
        } else {
            0nat
        }
    }
}

pub proof fn lemma_newline_count_le(code: Seq<u8>, pos: nat)
    ensures
        newline_count(code, pos) <= pos,
    decreases pos,
{
    if pos > 0 {
        lemma_newline_count_le(code, (pos - 1) as nat);
    }
}

/// A maximal digit run pins down `digits_end`: if everything in `[a, b)` is
/// a digit and `b` is the end of input or holds a non-digit, the run that
/// starts at `a` ends at `b`.
pub proof fn lemma_digits_end_interval(code: Seq<u8>, a: nat, b: nat)
    requires
        a <= b <= code.len(),
        forall|i: int| a <= i < b ==> is_digit_spec(#[trigger] code[i]),
        b < code.len() ==> !is_digit_spec(code[b as int]),
    ensures
        digits_end(code, a) == b,
    decreases b - a,
{
    if a < b {
        lemma_digits_end_interval(code, a + 1, b);
    }
}

/// The counterpart of `lemma_digits_end_interval` for alphanumeric runs.
pub proof fn lemma_alnum_end_interval(code: Seq<u8>, a: nat, b: nat)
    requires
        a <= b <= code.len(),
        forall|i: int| a <= i < b ==> is_alnum_spec(#[trigger] code[i]),
        b < code.len() ==> !is_alnum_spec(code[b as int]),
    ensures
        alnum_end(code, a) == b,
    decreases b - a,
{
    if a < b {
        lemma_alnum_end_interval(code, a + 1, b);
    }
}

/// Every successful scan yields at least the `Eof` token; `Eof` is the last
/// token and occurs nowhere else; every token's span lies inside the source
/// in increasing order.
pub proof fn lemma_scan_from(code: Seq<u8>, pos: nat)
    requires
        pos <= code.len(),
        code.len() <= usize::MAX,
    ensures
        scan_from(code, pos) matches Ok(toks) ==> toks.len() >= 1 && toks[toks.len() - 1].kind
            == TokenType::Eof && (forall|i: int|
            0 <= i < toks.len() - 1 ==> #[trigger] toks[i].kind != TokenType::Eof) && (forall|
            i: int,
        |
            0 <= i < toks.len() ==> #[trigger] toks[i].span.end <= code.len()
                && toks[i].span.start <= toks[i].span.end),
    decreases code.len() - pos,
{
    lemma_spec_token(code, pos);
    match spec_token(code, pos) {
        Err(_) => {},
        Ok(t) => {
            if t.kind != TokenType::Eof {
                lemma_scan_from(code, t.span.end as nat);
            }
        },
    }
}

fn single_kind(c: u8) -> (r: Option<TokenType>)
    ensures
        r == single_kind_spec(c),
{
    if c == 40 {
        Some(TokenType::LeftParen)
    } else if c == 41 {
        Some(TokenType::RightParen)
    } else if c == 91 {
        Some(TokenType::LeftBracket)
    } else if c == 93 {
        Some(TokenType::RightBracket)
    } else if c == 123 {
        Some(TokenType::LeftBrace)
    } else if c == 125 {
        Some(TokenType::RightBrace)
    } else if c == 44 {
        Some(TokenType::Comma)
    } else if c == 46 {
        Some(TokenType::Dot)
    } else if c == 45 {
        Some(TokenType::Minus)
    } else if c == 43 {
        Some(TokenType::Plus)
    } else if c == 59 {
        Some(TokenType::Semicolon)
    } else if c == 47 {
        Some(TokenType::Slash)
    } else if c == 42 {
        Some(TokenType::Star)
    } else {
        None
    }
}

fn two_char_kinds(c: u8) -> (r: Option<(TokenType, TokenType)>)
    ensures
        r == two_char_kinds_spec(c),
{
    if c == 33 {
        Some((TokenType::Bang, TokenType::BangEqual))
    } else if c == 61 {
        Some((TokenType::Equal, TokenType::EqualEqual))
    } else if c == 60 {
        Some((TokenType::Less, TokenType::LessEqual))
    } else if c == 62 {
        Some((TokenType::Greater, TokenType::GreaterEqual))
    } else {
        None
    }
}

fn is_digit(c: u8) -> (r: bool)
    ensures
        r == is_digit_spec(c),
{
    48 <= c && c <= 57
}

fn is_alpha(c: u8) -> (r: bool)
    ensures
        r == is_alpha_spec(c),
{
    (65 <= c && c <= 90) || (97 <= c && c <= 122)
}

fn utf8_len(c: u8) -> (r: usize)
    ensures
        r == utf8_len_spec(c),
        1 <= r <= 4,
{
    if c < 0xC0 {
        1
    } else if c < 0xE0 {
        2
    } else if c < 0xF0 {
        3
    } else {
        4
    }
}

/// Classify the lexeme `code[start..end]` against the fixed keyword table.
fn keyword_or_identifier(code: &[u8], start: usize, end: usize) -> (k: TokenType)
    requires
        start <= end,
        end <= code@.len(),
    ensures
        k == keyword_or_identifier_spec(code@.subrange(start as int, end as int)),
{
    let ghost s = code@.subrange(start as int, end as int);
    let n = end - start;
    if n == 2 {
        let b0 = code[start];
        let b1 = code[start + 1];
        if b0 == 105 && b1 == 102 {
            return TokenType::If;
        }
        if b0 == 111 && b1 == 114 {
            return TokenType::Or;
        }
        return TokenType::Identifier;
    }
    if n == 3 {
        let b0 = code[start];
        let b1 = code[start + 1];
        let b2 = code[start + 2];
        if b0 == 97 && b1 == 110 && b2 == 100 {
            return TokenType::And;
        }
        if b0 == 102 && b1 == 111 && b2 == 114 {
            return TokenType::For;
        }
        if b0 == 102 && b1 == 117 && b2 == 110 {
            return TokenType::Fun;
        }
        if b0 == 110 && b1 == 105 && b2 == 108 {
            return TokenType::Nil;
        }
        if b0 == 118 && b1 == 97 && b2 == 114 {
            return TokenType::Var;
        }
        return TokenType::Identifier;
    }
    if n == 4 {
        let b0 = code[start];
        let b1 = code[start + 1];
        let b2 = code[start + 2];
        let b3 = code[start + 3];
        if b0 == 101 && b1 == 108 && b2 == 115 && b3 == 101 {
            return TokenType::Else;
        }
        if b0 == 116 && b1 == 114 && b2 == 117 && b3 == 101 {
            return TokenType::True;
        }
        if b0 == 116 && b1 == 104 && b2 == 105 && b3 == 115 {
            return TokenType::This;
        }
        return TokenType::Identifier;
    }
    if n == 5 {
        let b0 = code[start];
        let b1 = code[start + 1];
        let b2 = code[start + 2];
        let b3 = code[start + 3];
        let b4 = code[start + 4];
        if b0 == 99 && b1 == 108 && b2 == 97 && b3 == 115 && b4 == 115 {
            return TokenType::Class;
        }
        if b0 == 102 && b1 == 97 && b2 == 108 && b3 == 115 && b4 == 101 {
            return TokenType::False;
        }
        if b0 == 112 && b1 == 114 && b2 == 105 && b3 == 110 && b4 == 116 {
            return TokenType::Print;
        }
        if b0 == 115 && b1 == 117 && b2 == 112 && b3 == 101 && b4 == 114 {
            return TokenType::Super;
        }
        if b0 == 119 && b1 == 104 && b2 == 105 && b3 == 108 && b4 == 101 {
            return TokenType::While;
        }
        return TokenType::Identifier;
    }
    if n == 6 {
        let b0 = code[start];
        let b1 = code[start + 1];
        let b2 = code[start + 2];
        let b3 = code[start + 3];
        let b4 = code[start + 4];
        let b5 = code[start + 5];
        if b0 == 114 && b1 == 101 && b2 == 116 && b3 == 117 && b4 == 114 && b5 == 110 {
            return TokenType::Return;
        }
        return TokenType::Identifier;
    }
    TokenType::Identifier
}

/// The stateful tokenizer: one call to `generator` yields one token or one
/// lexical error; after `Eof` or an error nothing more is yielded.
pub struct Scanner<'a> {
    pub cursor: Cursor<'a>,
    /// Offset where the most recent lexeme began.
    pub start: usize,
    /// One-based line number at the current offset, for diagnostics.
    pub line: usize,
    /// Set once `Eof` or an error has been yielded.
    pub done: bool,
}

impl<'a> Scanner<'a> {
    pub open spec fn code(self) -> Seq<u8> {
        self.cursor.input@
    }

    pub open spec fn pos(self) -> nat {
        self.cursor.pos as nat
    }

    pub open spec fn wf(self) -> bool {
        &&& self.cursor.wf()
        &&& self.code().len() < usize::MAX
        &&& self.line as nat == 1 + newline_count(self.code(), self.pos())
        &&& self.start <= self.cursor.pos
    }

    pub fn new(code: &'a [u8]) -> (s: Scanner<'a>)
        requires
            code@.len() < usize::MAX,
        ensures
            s.wf(),
            s.code() == code@,
            s.pos() == 0,
            s.start == 0,
            s.line == 1,
            !s.done,
    {
        Scanner { cursor: Cursor::new(code), start: 0, line: 1, done: false }
    }

    /// Yield the token or lexical error that starts at the current offset,
    /// exactly as `spec_token` describes it, or nothing once the stream has
    /// ended.
    pub fn generator(&mut self) -> (r: Option<Result<Token, LexError>>)
        requires
            old(self).wf(),
        ensures
            final(self).wf(),
            final(self).code() == old(self).code(),
            old(self).done ==> r is None && final(self).done,
            !old(self).done ==> r == Some(spec_token(old(self).code(), old(self).pos()))
                && match spec_token(old(self).code(), old(self).pos()) {
                Ok(t) => {
                    if t.kind == TokenType::Eof {
                        final(self).done && final(self).pos() == old(self).code().len()
                    } else {
                        !final(self).done && final(self).pos() == t.span.end && final(self).start
                            == t.span.start
                    }
                },
                Err(_) => final(self).done,
            },
    {
        if self.done {
            return None;
        }
        let ghost code = self.code();
        let ghost pos0 = self.pos();

        // Skip whitespace, counting newlines for the line counter.
        loop
            invariant
                self.cursor.wf(),
                self.code() == code,
                code.len() < usize::MAX,
                self.line as nat == 1 + newline_count(code, self.pos()),
                self.start <= self.cursor.pos,
                !self.done,
                pos0 <= self.pos(),
                ws_end(code, pos0) == ws_end(code, self.pos()),
            ensures
                self.cursor.wf(),
                self.code() == code,
                self.line as nat == 1 + newline_count(code, self.pos()),
                self.start <= self.cursor.pos,
                !self.done,
                pos0 <= self.pos(),
                self.pos() == ws_end(code, pos0),
            decreases code.len() - self.pos(),
        {
            match self.cursor.current() {
                Some(c) => {
                    if is_whitespace(c) || c == 10 {
                        if c == 10 {
                            proof {
                                lemma_newline_count_le(code, self.pos());
                            }
                            self.line = self.line + 1;
                        }
                        self.cursor.bump();
                    } else {
                        break ;
                    }
                },
                None => {
                    break ;
                },
            }
        }

        self.start = self.cursor.length_consumed();
        let ghost p = self.pos();

        let c = match self.cursor.current() {
            None => {
                // End of input: the zero-length Eof token.
                self.done = true;
                return Some(Ok(Token::new(TokenType::Eof, self.start, self.start)));
            },
            Some(c) => c,
        };

        if let Some(k) = single_kind(c) {
            self.cursor.bump();
            return Some(Ok(Token::new(k, self.start, self.cursor.length_consumed())));
        }

        if let Some((alone, with_eq)) = two_char_kinds(c) {
            self.cursor.bump();
            if self.cursor.first() == 61 {
                self.cursor.bump();
                proof {
                    assert(newline_count(code, p + 1) == newline_count(code, p));
                    assert(newline_count(code, p + 2) == newline_count(code, p + 1));
                }
                return Some(Ok(Token::new(with_eq, self.start, self.cursor.length_consumed())));
            }
            return Some(Ok(Token::new(alone, self.start, self.cursor.length_consumed())));
        }

        if is_digit(c) {
            self.cursor.bump();
            self.eat_digit_run();
            proof {
                assert(digits_end(code, p) == digits_end(code, p + 1));
            }
            // A `.` continues the number only when a digit directly follows.
            if self.cursor.first() == 46 && is_digit(self.cursor.second()) {
                self.cursor.bump();
                self.eat_digit_run();
            }
            return Some(Ok(Token::new(TokenType::Number, self.start, self.cursor.length_consumed())));
        }

        if is_alpha(c) {
            self.cursor.bump();
            self.eat_alnum_run();
            proof {
                assert(alnum_end(code, p) == alnum_end(code, p + 1));
            }
            let end = self.cursor.length_consumed();
            let k = keyword_or_identifier(self.cursor.input, self.start, end);
            return Some(Ok(Token::new(k, self.start, end)));
        }

        if c == 34 {
            self.cursor.bump();
            // Scan to the closing quote, counting newlines inside the string.
            loop
                invariant
                    self.cursor.wf(),
                    self.code() == code,
                    code.len() < usize::MAX,
                    self.line as nat == 1 + newline_count(code, self.pos()),
                    self.start == p,
                    !self.done,
                    p + 1 <= self.pos(),
                    quote_at(code, p + 1) == quote_at(code, self.pos()),
                ensures
                    self.cursor.wf(),
                    self.code() == code,
                    self.line as nat == 1 + newline_count(code, self.pos()),
                    self.start == p,
                    !self.done,
                    p + 1 <= self.pos(),
                    quote_at(code, p + 1) == if self.pos() < code.len() {
                        Some(self.pos())
                    } else {
                        None
                    },
                decreases code.len() - self.pos(),
            {
                match self.cursor.current() {
                    None => {
                        break ;
                    },
                    Some(c2) => {
                        if c2 == 34 {
                            break ;
                        }
                        if c2 == 10 {
                            proof {
                                lemma_newline_count_le(code, self.pos());
                            }
                            self.line = self.line + 1;
                        }
                        self.cursor.bump();
                    },
                }
            }
            proof {
                lemma_quote_at(code, p + 1);
            }
            match self.cursor.current() {
                Some(_) => {
                    self.cursor.bump();
                    return Some(Ok(Token::new(
                        TokenType::String,
                        self.start,
                        self.cursor.length_consumed(),
                    )));
                },
                None => {
                    self.done = true;
                    return Some(Err(LexError {
                        kind: LexErrorKind::UnterminatedString,
                        span: Span::new(self.start, self.cursor.input.len()),
                    }));
                },
            }
        }

        // No token class starts with this byte: an invalid character whose
        // span covers the whole UTF-8 sequence it begins.
        let l = utf8_len(c);
        let n = self.cursor.input.len();
        let e = if l <= n - self.start {
            self.start + l
        } else {
            n
        };
        self.done = true;
        Some(Err(LexError { kind: LexErrorKind::InvalidCharacter, span: Span::new(self.start, e) }))
    }

    /// Consume a maximal run of ASCII digits.
    fn eat_digit_run(&mut self)
        requires
            old(self).wf(),
        ensures
            final(self).wf(),
            final(self).code() == old(self).code(),
            final(self).start == old(self).start,
            final(self).line == old(self).line,
            final(self).done == old(self).done,
            final(self).pos() == digits_end(old(self).code(), old(self).pos()),
    {
        let ghost code = self.code();
        let ghost pos0 = self.pos();
        let digit_pred = |b: u8| -> (r: bool)
            ensures
                r == is_digit_spec(b),
            { 48 <= b && b <= 57 };
        self.cursor.eat_while(digit_pred);
        proof {
            assert forall|i: int| pos0 <= i < self.pos() implies is_digit_spec(
                #[trigger] code[i],
            ) by {
                assert(digit_pred.ensures((code[i],), true));
            }
            if self.pos() < code.len() {
                assert(digit_pred.ensures((code[self.pos() as int],), false));
            }
            lemma_digits_end_interval(code, pos0, self.pos());
            lemma_newline_count_run(code, pos0, self.pos());
        }
    }

    /// Consume a maximal run of ASCII alphanumerics.
    fn eat_alnum_run(&mut self)
        requires
            old(self).wf(),
        ensures
            final(self).wf(),
            final(self).code() == old(self).code(),
            final(self).start == old(self).start,
            final(self).line == old(self).line,
            final(self).done == old(self).done,
            final(self).pos() == alnum_end(old(self).code(), old(self).pos()),
    {
        let ghost code = self.code();
        let ghost pos0 = self.pos();
        let alnum_pred = |b: u8| -> (r: bool)
            ensures
                r == is_alnum_spec(b),
            { (65 <= b && b <= 90) || (97 <= b && b <= 122) || (48 <= b && b <= 57) };
        self.cursor.eat_while(alnum_pred);
        proof {
            assert forall|i: int| pos0 <= i < self.pos() implies is_alnum_spec(
                #[trigger] code[i],
            ) by {
                assert(alnum_pred.ensures((code[i],), true));
            }
            if self.pos() < code.len() {
                assert(alnum_pred.ensures((code[self.pos() as int],), false));
            }
            lemma_alnum_end_interval(code, pos0, self.pos());
            lemma_newline_count_run(code, pos0, self.pos());
        }
    }
}

/// A scanned prefix concatenated onto the remainder of a scan: an error in
/// the remainder is the error of the whole.
pub open spec fn scan_result_cat(prefix: Seq<Token>, r: Result<Seq<Token>, LexError>) -> Result<
    Seq<Token>,
    LexError,
> {
    match r {
        Ok(rest) => Ok(prefix + rest),
        Err(e) => Err(e),
    }
}

/// Materialize the token stream of `code` into a vector: every token
/// through the terminating `Eof`, or the first lexical error, exactly as
/// `scan_from` describes from offset zero.
pub fn collect(code: &[u8]) -> (r: Result<Vec<Token>, LexError>)
    requires
        code@.len() < usize::MAX,
    ensures
        r matches Ok(v) ==> scan_from(code@, 0) == Ok::<Seq<Token>, LexError>(v@),
        r matches Err(e) ==> scan_from(code@, 0) == Err::<Seq<Token>, LexError>(e),
{
    let mut scanner = Scanner::new(code);
    let mut out: Vec<Token> = Vec::new();
    loop
        invariant
            scanner.wf(),
            !scanner.done,
            scanner.code() == code@,
            scanner.pos() <= code@.len(),
            code@.len() < usize::MAX,
            scan_result_cat(out@, scan_from(code@, scanner.pos())) == scan_from(code@, 0),
        decreases code@.len() - scanner.pos(),
    {
        let ghost pos_before = scanner.pos();
        let ghost old_out = out@;
        let step = scanner.generator();
        proof {
            lemma_spec_token(code@, pos_before);
        }
        match step {
            Some(Ok(t)) => {
                out.push(t);
                if t.kind == TokenType::Eof {
                    proof {
                        assert(out@ =~= old_out + seq![t]);
                    }
                    return Ok(out);
                }
                proof {
                    let rest = scan_from(code@, t.span.end as nat);
                    assert(scan_from(code@, pos_before) == scan_result_cat(seq![t], rest));
                    match rest {
                        Ok(rs) => {
                            assert(old_out + (seq![t] + rs) =~= (old_out + seq![t]) + rs);
                            assert(out@ =~= old_out + seq![t]);
                        },
                        Err(_) => {},
                    }
                }
            },
            Some(Err(e)) => {
                return Err(e);
            },
            None => {
                proof {
                    assert(false);
                }
                return Err(LexError { kind: LexErrorKind::MalformedNumber, span: Span::new(0, 0) });
            },
        }
    }
}

/// A run that contains no newline byte leaves the newline count unchanged.
pub proof fn lemma_newline_count_run(code: Seq<u8>, a: nat, b: nat)
    requires
        a <= b <= code.len(),
        forall|i: int| a <= i < b ==> #[trigger] code[i] != 10,
    ensures
        newline_count(code, a) == newline_count(code, b),
    decreases b - a,
{
    if a < b {
        lemma_newline_count_run(code, a, (b - 1) as nat);
    }
}

} // verus!
