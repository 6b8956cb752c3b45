use lox_front::diagnostics::{token_name, Diagnostic};
use lox_front::parser::{parse_expression, parse_statement};
use lox_front::scanner::collect;
use lox_front::token::TokenType;

#[test]
fn lexical_messages() {
    let err = collect("\"abc".as_bytes()).expect_err("expected an error");
    assert_eq!(err.message(), "unterminated string");
    let err = collect("@".as_bytes()).expect_err("expected an error");
    assert_eq!(err.message(), "invalid character");
}

#[test]
fn parse_messages_name_what_was_expected() {
    let err = parse_statement("var x = 1".as_bytes()).unwrap_err();
    assert_eq!(err.message(), "expected a ';'");

    let err = parse_statement("var x 1;".as_bytes()).unwrap_err();
    assert_eq!(err.message(), "expected a '=' after the variable's name");

    let err = parse_statement("var 1 = 2;".as_bytes()).unwrap_err();
    assert_eq!(err.message(), "expected an identifier here");

    let err = parse_expression("(1".as_bytes()).unwrap_err();
    assert_eq!(err.message(), "expected a ')'");

    let err = parse_expression("* 3".as_bytes()).unwrap_err();
    assert_eq!(err.message(), "expected an expression");
}

#[test]
fn statement_start_messages_differ() {
    let err = parse_statement("1;".as_bytes()).unwrap_err();
    assert_eq!(
        err.message(),
        "this looks like an expression, not a statement; did you mean 'var' or 'print'?"
    );
    let err = parse_statement(")".as_bytes()).unwrap_err();
    assert_eq!(err.message(), "no valid statement starts here");
}

#[test]
fn diagnostic_span_points_at_the_issue() {
    let err = parse_statement("var x = 1".as_bytes()).unwrap_err();
    let span = err.span();
    assert_eq!(span.start, 9);
    assert_eq!(span.end, 9);
    match err {
        Diagnostic::Parse(_) => {}
        Diagnostic::Lex(_) => panic!("expected a parse diagnostic"),
    }
}

#[test]
fn token_names() {
    assert_eq!(token_name(TokenType::Semicolon), "';'");
    assert_eq!(token_name(TokenType::Identifier), "an identifier");
    assert_eq!(token_name(TokenType::Eof), "end of input");
    assert_eq!(token_name(TokenType::While), "a keyword");
}
