use lox_front::cursor::{Cursor, SENTINEL};
use lox_front::scanner::is_whitespace;

#[test]
fn bump_walks_the_input() {
    let mut cursor = Cursor::new("ab".as_bytes());
    assert_eq!(cursor.length_consumed(), 0);
    assert_eq!(cursor.bump(), Some(b'a'));
    assert_eq!(cursor.length_consumed(), 1);
    assert_eq!(cursor.bump(), Some(b'b'));
    assert_eq!(cursor.bump(), None);
    assert_eq!(cursor.length_consumed(), 2);
}

#[test]
fn next_char_in_token_uses_sentinel() {
    let mut cursor = Cursor::new("x".as_bytes());
    assert_eq!(cursor.next_char_in_token(), b'x');
    assert_eq!(cursor.next_char_in_token(), SENTINEL);
}

#[test]
fn eof_consumes_like_the_iterator_it_replaces() {
    let mut cursor = Cursor::new("a".as_bytes());
    assert!(!cursor.eof());
    assert!(cursor.eof());
}

#[test]
fn current_does_not_consume() {
    let mut cursor = Cursor::new("ab".as_bytes());
    assert_eq!(cursor.current(), Some(b'a'));
    assert_eq!(cursor.current(), Some(b'a'));
    cursor.bump();
    cursor.bump();
    assert_eq!(cursor.current(), None);
}

#[test]
fn lookahead_one_two_three() {
    let cursor = Cursor::new("abc".as_bytes());
    assert_eq!(cursor.first(), b'a');
    assert_eq!(cursor.second(), b'b');
    assert_eq!(cursor.third(), b'c');
    let short = Cursor::new("a".as_bytes());
    assert_eq!(short.first(), b'a');
    assert_eq!(short.second(), SENTINEL);
    assert_eq!(short.third(), SENTINEL);
}

#[test]
fn eat_while_stops_at_first_failure() {
    let mut cursor = Cursor::new("123abc".as_bytes());
    cursor.eat_while(|b: u8| b.is_ascii_digit());
    assert_eq!(cursor.length_consumed(), 3);
    assert_eq!(cursor.current(), Some(b'a'));
    cursor.eat_while(|b: u8| b.is_ascii_alphabetic());
    assert_eq!(cursor.current(), None);
}

#[test]
fn whitespace_classification() {
    assert!(is_whitespace(b' '));
    assert!(is_whitespace(b'\t'));
    assert!(!is_whitespace(b'\n'));
    assert!(!is_whitespace(b'x'));
}
