//! The shared data model between the scanner and the parser: byte-offset
//! spans, token kinds, tokens, and lexical errors.

use vstd::prelude::*;

verus! {

/// A half-open range `[start, end)` of byte offsets into the source text.
/// Tokens and AST leaves never own a substring; they carry a span.
#[derive(Debug, Clone, Copy, PartialEq, Eq, Structural)]
pub struct Span {
    pub start: usize,
    pub end: usize,
}

impl Span {
    pub fn new(start: usize, end: usize) -> (s: Span)
        ensures
            s.start == start,
            s.end == end,
    {
        Span { start, end }
    }
}

/// The lexical kind of a token: single-character punctuation, one-or-two
/// character operators, literals, the fixed keywords, and `Eof`.
#[derive(Debug, Clone, Copy, PartialEq, Eq, Structural)]
pub enum TokenType {
    LeftParen,
    RightParen,
    LeftBracket,
    RightBracket,
    LeftBrace,
    RightBrace,
    Comma,
    Dot,
    Minus,
    Plus,
    Semicolon,
    Slash,
    Star,
    Bang,
    BangEqual,
    Equal,
    EqualEqual,
    Greater,
    GreaterEqual,
    Less,
    LessEqual,
    Identifier,
    String,
    Number,
    And,
    Class,
    Else,
    False,
    For,
    Fun,
    If,
    Nil,
    Or,
    Print,
    Return,
    Super,
    This,
    True,
    Var,
    While,
    Eof,
}

/// A classified, span-located unit of lexical input. The numeric value of a
/// `Number` token, like the text of a `String` or `Identifier` token, is
/// recovered from the source through the span.
#[derive(Debug, Clone, Copy, PartialEq, Eq, Structural)]
pub struct Token {
    pub kind: TokenType,
    pub span: Span,
}

impl Token {
    pub fn new(kind: TokenType, start: usize, end: usize) -> (t: Token)
        ensures
            t.kind == kind,
            t.span.start == start,
            t.span.end == end,
    {
        Token { kind, span: Span { start, end } }
    }
}

/// What went wrong while scanning.
#[derive(Debug, Clone, Copy, PartialEq, Eq, Structural)]
pub enum LexErrorKind {
    /// A byte that starts no token class; the span covers exactly that
    /// character.
    InvalidCharacter,
    /// End of input was reached inside a string literal; the span starts at
    /// the opening quote.
    UnterminatedString,
    /// A numeric lexeme that cannot be read back as a number. The digit-only
    /// grammar never produces one; the variant completes the taxonomy.
    MalformedNumber,
}

/// A lexical error as a value: a kind and the byte span of the primary issue.
#[derive(Debug, Clone, Copy, PartialEq, Eq, Structural)]
pub struct LexError {
    pub kind: LexErrorKind,
    pub span: Span,
}

} // verus!
