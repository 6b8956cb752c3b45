//! Diagnostics: the one error value surfaced to callers, either lexical or
//! structural, with a byte span into the source and a specifically worded
//! message. Rendering a source excerpt around the span is presentation work
//! left to the caller that owns the source text.

use vstd::prelude::*;

use crate::parser::{ParseErrorKind, ParserError};
use crate::token::{LexError, LexErrorKind, Span, TokenType};

verus! {

/// Any error the front end can produce for a source text: the first
/// lexical error, or the first structural error.
#[derive(Debug, Clone, Copy, PartialEq, Eq, Structural)]
pub enum Diagnostic {
    Lex(LexError),
    Parse(ParserError),
}

impl Diagnostic {
    /// The byte span of the primary issue.
    pub fn span(&self) -> (s: Span)
        ensures
            s == match *self {
                Diagnostic::Lex(e) => e.span,
                Diagnostic::Parse(e) => e.span,
            },
    {
        match *self {
            Diagnostic::Lex(e) => e.span,
            Diagnostic::Parse(e) => e.span,
        }
    }

    /// The diagnostic's wording.
    pub fn message(&self) -> (m: &'static str)
        ensures
            m@ == match *self {
                Diagnostic::Lex(e) => lex_message_spec(e.kind),
                Diagnostic::Parse(e) => parse_message_spec(e.kind),
            },
    {
        match *self {
            Diagnostic::Lex(e) => e.message(),
            Diagnostic::Parse(e) => e.message(),
        }
    }
}

/// The wording of each lexical error.
pub open spec fn lex_message_spec(k: LexErrorKind) -> Seq<char> {
    match k {
        LexErrorKind::InvalidCharacter => "invalid character"@,
        LexErrorKind::UnterminatedString => "unterminated string"@,
        LexErrorKind::MalformedNumber => "malformed number"@,
    }
}

impl LexError {
    /// The error's wording.
    pub fn message(&self) -> (m: &'static str)
        ensures
            m@ == lex_message_spec(self.kind),
    {
        match self.kind {
            LexErrorKind::InvalidCharacter => "invalid character",
            LexErrorKind::UnterminatedString => "unterminated string",
            LexErrorKind::MalformedNumber => "malformed number",
        }
    }
}

/// How each token kind is named when a diagnostic says what was expected.
pub open spec fn token_name_spec(k: TokenType) -> Seq<char> {
    match k {
        TokenType::LeftParen => "'('"@,
        TokenType::RightParen => "')'"@,
        TokenType::LeftBracket => "'['"@,
        TokenType::RightBracket => "']'"@,
        TokenType::LeftBrace => "'{'"@,
        TokenType::RightBrace => "'}'"@,
        TokenType::Comma => "','"@,
        TokenType::Dot => "'.'"@,
        TokenType::Minus => "'-'"@,
        TokenType::Plus => "'+'"@,
        TokenType::Semicolon => "';'"@,
        TokenType::Slash => "'/'"@,
        TokenType::Star => "'*'"@,
        TokenType::Bang => "'!'"@,
        TokenType::BangEqual => "'!='"@,
        TokenType::Equal => "'='"@,
        TokenType::EqualEqual => "'=='"@,
        TokenType::Greater => "'>'"@,
        TokenType::GreaterEqual => "'>='"@,
        TokenType::Less => "'<'"@,
        TokenType::LessEqual => "'<='"@,
        TokenType::Identifier => "an identifier"@,
        TokenType::String => "a string"@,
        TokenType::Number => "a number"@,
        TokenType::Eof => "end of input"@,
        _ => "a keyword"@,
    }
}

/// How a token kind is named in a diagnostic.
pub fn token_name(k: TokenType) -> (m: &'static str)
    ensures
        m@ == token_name_spec(k),
{
    match k {
        TokenType::LeftParen => "'('",
        TokenType::RightParen => "')'",
        TokenType::LeftBracket => "'['",
        TokenType::RightBracket => "']'",
        TokenType::LeftBrace => "'{'",
        TokenType::RightBrace => "'}'",
        TokenType::Comma => "','",
        TokenType::Dot => "'.'",
        TokenType::Minus => "'-'",
        TokenType::Plus => "'+'",
        TokenType::Semicolon => "';'",
        TokenType::Slash => "'/'",
        TokenType::Star => "'*'",
        TokenType::Bang => "'!'",
        TokenType::BangEqual => "'!='",
        TokenType::Equal => "'='",
        TokenType::EqualEqual => "'=='",
        TokenType::Greater => "'>'",
        TokenType::GreaterEqual => "'>='",
        TokenType::Less => "'<'",
        TokenType::LessEqual => "'<='",
        TokenType::Identifier => "an identifier",
        TokenType::String => "a string",
        TokenType::Number => "a number",
        TokenType::Eof => "end of input",
        _ => "a keyword",
    }
}

/// The wording of each structural error; the two ways a statement can fail
/// to start get two different messages.
pub open spec fn parse_message_spec(k: ParseErrorKind) -> Seq<char> {
    match k {
        ParseErrorKind::UnexpectedToken { expected: TokenType::Identifier } =>
            "expected an identifier here"@,
        ParseErrorKind::UnexpectedToken { expected: _ } => "unexpected token"@,
        ParseErrorKind::MissingDelimiter { delimiter: TokenType::LeftParen } => "expected a '('"@,
        ParseErrorKind::MissingDelimiter { delimiter: TokenType::RightParen } => "expected a ')'"@,
        ParseErrorKind::MissingDelimiter { delimiter: TokenType::LeftBrace } => "expected a '{'"@,
        ParseErrorKind::MissingDelimiter { delimiter: TokenType::RightBrace } => "expected a '}'"@,
        ParseErrorKind::MissingDelimiter { delimiter: TokenType::RightBracket } =>
            "expected a ']'"@,
        ParseErrorKind::MissingDelimiter { delimiter: _ } => "missing delimiter"@,
        ParseErrorKind::MissingPunctuation { punctuation: TokenType::Semicolon } =>
            "expected a ';'"@,
        ParseErrorKind::MissingPunctuation { punctuation: TokenType::Equal } =>
            "expected a '=' after the variable's name"@,
        ParseErrorKind::MissingPunctuation { punctuation: _ } => "missing punctuation"@,
        ParseErrorKind::ExpectedExpression => "expected an expression"@,
        ParseErrorKind::ExpectedStatementStart { looks_like_expression: true } =>
            "this looks like an expression, not a statement; did you mean 'var' or 'print'?"@,
        ParseErrorKind::ExpectedStatementStart { looks_like_expression: false } =>
            "no valid statement starts here"@,
    }
}

impl ParserError {
    /// The error's wording, naming what was expected.
    pub fn message(&self) -> (m: &'static str)
        ensures
            m@ == parse_message_spec(self.kind),
    {
        match self.kind {
            ParseErrorKind::UnexpectedToken { expected: TokenType::Identifier } =>
                "expected an identifier here",
            ParseErrorKind::UnexpectedToken { expected: _ } => "unexpected token",
            ParseErrorKind::MissingDelimiter { delimiter: TokenType::LeftParen } =>
                "expected a '('",
            ParseErrorKind::MissingDelimiter { delimiter: TokenType::RightParen } =>
                "expected a ')'",
            ParseErrorKind::MissingDelimiter { delimiter: TokenType::LeftBrace } =>
                "expected a '{'",
            ParseErrorKind::MissingDelimiter { delimiter: TokenType::RightBrace } =>
                "expected a '}'",
            ParseErrorKind::MissingDelimiter { delimiter: TokenType::RightBracket } =>
                "expected a ']'",
            ParseErrorKind::MissingDelimiter { delimiter: _ } => "missing delimiter",
            ParseErrorKind::MissingPunctuation { punctuation: TokenType::Semicolon } =>
                "expected a ';'",
            ParseErrorKind::MissingPunctuation { punctuation: TokenType::Equal } =>
                "expected a '=' after the variable's name",
            ParseErrorKind::MissingPunctuation { punctuation: _ } => "missing punctuation",
            ParseErrorKind::ExpectedExpression => "expected an expression",
            ParseErrorKind::ExpectedStatementStart { looks_like_expression: true } =>
                "this looks like an expression, not a statement; did you mean 'var' or 'print'?",
            ParseErrorKind::ExpectedStatementStart { looks_like_expression: false } =>
                "no valid statement starts here",
        }
    }
}

} // verus!
