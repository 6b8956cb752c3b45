use lox_front::scanner::{collect, Scanner};
use lox_front::token::{LexErrorKind, TokenType};

fn lexeme<'a>(src: &'a [u8], start: usize, end: usize) -> &'a [u8] {
    &src[start..end]
}

#[test]
fn chart() {
    let src = "{".as_bytes();
    let mut scanner = Scanner::new(src);

    let token = scanner
        .generator()
        .expect("expected a token")
        .expect("lexer returned error");

    assert_eq!(token.kind, TokenType::LeftBrace);
    assert_eq!(lexeme(src, token.span.start, token.span.end), "{".as_bytes());
}

#[test]
fn orelse_first() {
    let src = "<=fdkjdsalkjs".as_bytes();
    let mut scanner = Scanner::new(src);

    let token = scanner
        .generator()
        .expect("expected a token")
        .expect("lexer returned error");

    assert_eq!(token.kind, TokenType::LessEqual);
    assert_eq!(lexeme(src, token.span.start, token.span.end), "<=".as_bytes());
}

#[test]
fn orelse_second() {
    let src = "!=fdkjdsalkjs".as_bytes();
    let mut scanner = Scanner::new(src);

    let token = scanner
        .generator()
        .expect("expected a token")
        .expect("lexer returned error");

    assert_eq!(token.kind, TokenType::BangEqual);
    assert_eq!(lexeme(src, token.span.start, token.span.end), "!=".as_bytes());
}

#[test]
fn for_key() {
    let src = "for".as_bytes();
    let mut scanner = Scanner::new(src);

    let token = scanner
        .generator()
        .expect("expected a token")
        .expect("lexer returned error");

    assert_eq!(token.kind, TokenType::For);
    assert_eq!(lexeme(src, token.span.start, token.span.end), "for".as_bytes());
}

#[test]
fn iden() {
    let src = "hello".as_bytes();
    let mut result = Scanner::new(src);
    if let Some(x) = result.generator() {
        match x {
            Ok(a) => {
                assert_eq!(a.kind, TokenType::Identifier);
                assert_eq!(lexeme(src, a.span.start, a.span.end), "hello".as_bytes())
            }
            Err(_) => {}
        }
    }
}

#[test]
fn orelse() {
    let src = "<abcd".as_bytes();
    let mut result = Scanner::new(src);
    if let Some(x) = result.generator() {
        match x {
            Ok(a) => {
                assert_eq!(a.kind, TokenType::Less);
                assert_eq!(lexeme(src, a.span.start, a.span.end), "<".as_bytes())
            }
            Err(_) => {}
        }
    }
}

#[test]
fn single_left_paren() {
    let src = "(".as_bytes();
    let tokens = collect(src).expect("lexing failed");
    assert_eq!(tokens.len(), 2);
    assert_eq!(tokens[0].kind, TokenType::LeftParen);
    assert_eq!(tokens[0].span.start, 0);
    assert_eq!(tokens[0].span.end, 1);
    assert_eq!(tokens[1].kind, TokenType::Eof);
}

#[test]
fn bang_equal_is_one_token() {
    let tokens = collect("!=".as_bytes()).expect("lexing failed");
    assert_eq!(tokens.len(), 2);
    assert_eq!(tokens[0].kind, TokenType::BangEqual);
    assert_eq!(tokens[0].span.start, 0);
    assert_eq!(tokens[0].span.end, 2);
    assert_eq!(tokens[1].kind, TokenType::Eof);
}

#[test]
fn bang_alone_stays_alone() {
    let tokens = collect("! ".as_bytes()).expect("lexing failed");
    assert_eq!(tokens.len(), 2);
    assert_eq!(tokens[0].kind, TokenType::Bang);
    assert_eq!(tokens[0].span.start, 0);
    assert_eq!(tokens[0].span.end, 1);
    assert_eq!(tokens[1].kind, TokenType::Eof);
}

#[test]
fn fractional_number() {
    let src = "1.5".as_bytes();
    let tokens = collect(src).expect("lexing failed");
    assert_eq!(tokens.len(), 2);
    assert_eq!(tokens[0].kind, TokenType::Number);
    let text = std::str::from_utf8(&src[tokens[0].span.start..tokens[0].span.end]).unwrap();
    let value: f64 = text.parse().unwrap();
    assert_eq!(value, 1.5);
    assert_eq!(tokens[1].kind, TokenType::Eof);
}

#[test]
fn trailing_dot_is_separate() {
    let src = "1.".as_bytes();
    let tokens = collect(src).expect("lexing failed");
    assert_eq!(tokens.len(), 3);
    assert_eq!(tokens[0].kind, TokenType::Number);
    let text = std::str::from_utf8(&src[tokens[0].span.start..tokens[0].span.end]).unwrap();
    let value: f64 = text.parse().unwrap();
    assert_eq!(value, 1.0);
    assert_eq!(tokens[1].kind, TokenType::Dot);
    assert_eq!(tokens[1].span.start, 1);
    assert_eq!(tokens[1].span.end, 2);
    assert_eq!(tokens[2].kind, TokenType::Eof);
}

#[test]
fn exactly_one_eof_and_it_is_last() {
    let inputs: [&str; 6] = [
        "",
        "   \n\t ",
        "var x = 1;",
        "print \"hi\";",
        "fun f ( a , b ) { print a ; }",
        "1.",
    ];
    for input in inputs {
        let tokens = collect(input.as_bytes()).expect("lexing failed");
        let eof_count = tokens.iter().filter(|t| t.kind == TokenType::Eof).count();
        assert_eq!(eof_count, 1);
        assert_eq!(tokens.last().unwrap().kind, TokenType::Eof);
        assert_eq!(tokens.last().unwrap().span.start, input.len());
        assert_eq!(tokens.last().unwrap().span.end, input.len());
    }
}

#[test]
fn unterminated_string_error() {
    let err = collect("\"abc".as_bytes()).expect_err("expected a lexical error");
    assert_eq!(err.kind, LexErrorKind::UnterminatedString);
    assert_eq!(err.span.start, 0);
}

#[test]
fn unterminated_string_error_offset() {
    let err = collect("x = \"abc".as_bytes()).expect_err("expected a lexical error");
    assert_eq!(err.kind, LexErrorKind::UnterminatedString);
    assert_eq!(err.span.start, 4);
}

#[test]
fn string_span_includes_quotes() {
    let src = "\"hi\"".as_bytes();
    let tokens = collect(src).expect("lexing failed");
    assert_eq!(tokens[0].kind, TokenType::String);
    assert_eq!(tokens[0].span.start, 0);
    assert_eq!(tokens[0].span.end, 4);
}

#[test]
fn invalid_character_error() {
    let err = collect("@".as_bytes()).expect_err("expected a lexical error");
    assert_eq!(err.kind, LexErrorKind::InvalidCharacter);
    assert_eq!(err.span.start, 0);
    assert_eq!(err.span.end, 1);
}

#[test]
fn invalid_character_spans_whole_utf8_char() {
    let src = "é".as_bytes();
    assert_eq!(src.len(), 2);
    let err = collect(src).expect_err("expected a lexical error");
    assert_eq!(err.kind, LexErrorKind::InvalidCharacter);
    assert_eq!(err.span.start, 0);
    assert_eq!(err.span.end, 2);
}

#[test]
fn keywords_and_identifiers() {
    let src = "else elsewhere while whilex or ors".as_bytes();
    let tokens = collect(src).expect("lexing failed");
    let kinds: Vec<TokenType> = tokens.iter().map(|t| t.kind).collect();
    assert_eq!(
        kinds,
        vec![
            TokenType::Else,
            TokenType::Identifier,
            TokenType::While,
            TokenType::Identifier,
            TokenType::Or,
            TokenType::Identifier,
            TokenType::Eof,
        ]
    );
}

#[test]
fn generator_stops_after_eof() {
    let mut scanner = Scanner::new("+".as_bytes());
    let first = scanner.generator().unwrap().unwrap();
    assert_eq!(first.kind, TokenType::Plus);
    let second = scanner.generator().unwrap().unwrap();
    assert_eq!(second.kind, TokenType::Eof);
    assert!(scanner.generator().is_none());
    assert!(scanner.generator().is_none());
}

#[test]
fn generator_stops_after_error() {
    let mut scanner = Scanner::new("@ +".as_bytes());
    let first = scanner.generator().unwrap();
    assert!(first.is_err());
    assert!(scanner.generator().is_none());
}

#[test]
fn line_counter_tracks_newlines() {
    let mut scanner = Scanner::new("+\n\n-".as_bytes());
    assert_eq!(scanner.line, 1);
    scanner.generator().unwrap().unwrap();
    assert_eq!(scanner.line, 1);
    scanner.generator().unwrap().unwrap();
    assert_eq!(scanner.line, 3);
}
