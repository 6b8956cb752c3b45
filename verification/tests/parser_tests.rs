use lox_front::ast::{Atom, Op, Tree};
use lox_front::diagnostics::Diagnostic;
use lox_front::parser::{parse_expression, parse_statement, ParseErrorKind, Parser};
use lox_front::token::{Span, TokenType};

fn num(start: usize, end: usize) -> Tree {
    Tree::Atom(Atom::Number(Span::new(start, end)))
}

#[test]
fn it_works() {
    let tree = parse_expression("1 + 2".as_bytes()).expect("parse failed");
    let expected = Tree::NonTerm(Op::Plus, vec![num(0, 1), num(4, 5)]);
    assert_eq!(tree, expected);
}

#[test]
fn precedence_of_star_over_plus() {
    let tree = parse_expression("1 + 2 * 3".as_bytes()).expect("parse failed");
    let expected = Tree::NonTerm(
        Op::Plus,
        vec![
            num(0, 1),
            Tree::NonTerm(Op::Star, vec![num(4, 5), num(8, 9)]),
        ],
    );
    assert_eq!(tree, expected);
}

#[test]
fn grouping_beats_precedence() {
    let tree = parse_expression("(1 + 2) * 3".as_bytes()).expect("parse failed");
    let expected = Tree::NonTerm(
        Op::Star,
        vec![
            Tree::NonTerm(
                Op::Group,
                vec![Tree::NonTerm(Op::Plus, vec![num(1, 2), num(5, 6)])],
            ),
            num(10, 11),
        ],
    );
    assert_eq!(tree, expected);
}

#[test]
fn equal_precedence_chains_left() {
    let tree = parse_expression("1 - 2 + 3".as_bytes()).expect("parse failed");
    let expected = Tree::NonTerm(
        Op::Plus,
        vec![
            Tree::NonTerm(Op::Minus, vec![num(0, 1), num(4, 5)]),
            num(8, 9),
        ],
    );
    assert_eq!(tree, expected);
}

#[test]
fn unary_minus_binds_tighter_than_plus() {
    let tree = parse_expression("-1 + 2".as_bytes()).expect("parse failed");
    let expected = Tree::NonTerm(
        Op::Plus,
        vec![Tree::NonTerm(Op::Minus, vec![num(1, 2)]), num(5, 6)],
    );
    assert_eq!(tree, expected);
}

#[test]
fn missing_semicolon_after_var() {
    let err = parse_statement("var x = 1".as_bytes()).expect_err("expected a parse error");
    match err {
        Diagnostic::Parse(e) => {
            assert_eq!(
                e.kind,
                ParseErrorKind::MissingPunctuation {
                    punctuation: TokenType::Semicolon
                }
            );
            // The span is the token immediately following `1`: the
            // zero-length end-of-input token.
            assert_eq!(e.span.start, 9);
            assert_eq!(e.span.end, 9);
        }
        Diagnostic::Lex(_) => panic!("expected a parse error, not a lexical one"),
    }
}

#[test]
fn print_statement() {
    let tree = parse_statement("print \"hi\";".as_bytes()).expect("parse failed");
    let expected = Tree::NonTerm(
        Op::Print,
        vec![Tree::Atom(Atom::String(Span::new(6, 10)))],
    );
    assert_eq!(tree, expected);
}

#[test]
fn var_statement() {
    let src = "var x = 1;".as_bytes();
    let tree = parse_statement(src).expect("parse failed");
    let expected = Tree::Var(Span::new(4, 5), Box::new(num(8, 9)));
    assert_eq!(tree, expected);
}

#[test]
fn missing_equal_after_var_name() {
    let err = parse_statement("var x 1;".as_bytes()).expect_err("expected a parse error");
    match err {
        Diagnostic::Parse(e) => {
            assert_eq!(
                e.kind,
                ParseErrorKind::MissingPunctuation {
                    punctuation: TokenType::Equal
                }
            );
            assert_eq!(e.span.start, 6);
        }
        Diagnostic::Lex(_) => panic!("expected a parse error"),
    }
}

#[test]
fn missing_identifier_after_var() {
    let err = parse_statement("var 1 = 2;".as_bytes()).expect_err("expected a parse error");
    match err {
        Diagnostic::Parse(e) => {
            assert_eq!(
                e.kind,
                ParseErrorKind::UnexpectedToken {
                    expected: TokenType::Identifier
                }
            );
            assert_eq!(e.span.start, 4);
        }
        Diagnostic::Lex(_) => panic!("expected a parse error"),
    }
}

#[test]
fn missing_close_paren() {
    let err = parse_expression("(1 + 2".as_bytes()).expect_err("expected a parse error");
    match err {
        Diagnostic::Parse(e) => {
            assert_eq!(
                e.kind,
                ParseErrorKind::MissingDelimiter {
                    delimiter: TokenType::RightParen
                }
            );
            assert_eq!(e.span.start, 6);
            assert_eq!(e.span.end, 6);
        }
        Diagnostic::Lex(_) => panic!("expected a parse error"),
    }
}

#[test]
fn expected_expression_error() {
    let err = parse_expression("+ 1".as_bytes()).expect_err("expected a parse error");
    match err {
        Diagnostic::Parse(e) => {
            assert_eq!(e.kind, ParseErrorKind::ExpectedExpression);
            assert_eq!(e.span.start, 0);
            assert_eq!(e.span.end, 1);
        }
        Diagnostic::Lex(_) => panic!("expected a parse error"),
    }
}

#[test]
fn statement_start_distinguishes_expressions() {
    let err = parse_statement("1 + 2;".as_bytes()).expect_err("expected a parse error");
    match err {
        Diagnostic::Parse(e) => {
            assert_eq!(
                e.kind,
                ParseErrorKind::ExpectedStatementStart {
                    looks_like_expression: true
                }
            );
            assert_eq!(e.span.start, 0);
        }
        Diagnostic::Lex(_) => panic!("expected a parse error"),
    }

    let err = parse_statement("; nothing".as_bytes()).expect_err("expected a parse error");
    match err {
        Diagnostic::Parse(e) => {
            assert_eq!(
                e.kind,
                ParseErrorKind::ExpectedStatementStart {
                    looks_like_expression: false
                }
            );
        }
        Diagnostic::Lex(_) => panic!("expected a parse error"),
    }
}

#[test]
fn lexical_error_reaches_the_parser_caller() {
    let err = parse_expression("\"abc".as_bytes()).expect_err("expected an error");
    match err {
        Diagnostic::Lex(e) => assert_eq!(e.span.start, 0),
        Diagnostic::Parse(_) => panic!("expected a lexical error"),
    }
}

#[test]
fn if_statement_shape() {
    let src = "if ( x < 2 ) { print x ; }".as_bytes();
    let tree = parse_statement(src).expect("parse failed");
    match tree {
        Tree::NonTerm(Op::If, children) => {
            assert_eq!(children.len(), 2);
            assert!(matches!(children[0], Tree::NonTerm(Op::Less, _)));
            assert!(matches!(children[1], Tree::NonTerm(Op::Group, _)));
        }
        other => panic!("unexpected tree {:?}", other),
    }
}

#[test]
fn for_statement_has_four_children() {
    let src = "for ( var i = 0; i < 9; i + 1 ) { print i ; }".as_bytes();
    let tree = parse_statement(src).expect("parse failed");
    match tree {
        Tree::NonTerm(Op::For, children) => {
            assert_eq!(children.len(), 4);
            assert!(matches!(children[0], Tree::Var(_, _)));
        }
        other => panic!("unexpected tree {:?}", other),
    }
}

#[test]
fn fun_statement_params() {
    let src = "fun f ( a , b ) { print a ; }".as_bytes();
    let tree = parse_statement(src).expect("parse failed");
    match tree {
        Tree::Fun {
            name,
            parameters,
            body,
        } => {
            assert_eq!(&src[name.start..name.end], "f".as_bytes());
            assert_eq!(parameters.len(), 2);
            assert!(matches!(*body, Tree::NonTerm(Op::Group, _)));
        }
        other => panic!("unexpected tree {:?}", other),
    }
}

#[test]
fn fun_statement_empty_params() {
    let src = "fun f ( ) { print 1 ; }".as_bytes();
    let tree = parse_statement(src).expect("parse failed");
    match tree {
        Tree::Fun { parameters, .. } => assert_eq!(parameters.len(), 0),
        other => panic!("unexpected tree {:?}", other),
    }
}

#[test]
fn bracket_indexing_is_postfix() {
    let src = "a [ 1 ]".as_bytes();
    let tree = parse_expression(src).expect("parse failed");
    match tree {
        Tree::NonTerm(Op::Call, children) => {
            assert_eq!(children.len(), 2);
            assert!(matches!(children[0], Tree::Atom(Atom::Ident(_))));
        }
        other => panic!("unexpected tree {:?}", other),
    }
}

#[test]
fn parser_methods_walk_the_stream() {
    let mut parser = Parser::new("1 + 2".as_bytes()).expect("lexing failed");
    assert_eq!(parser.pos, 0);
    let first = parser.peek();
    assert_eq!(first.kind, TokenType::Number);
    let taken = parser.advance();
    assert_eq!(taken, first);
    assert_eq!(parser.current(), first);
    assert_eq!(parser.peek().kind, TokenType::Plus);
}
