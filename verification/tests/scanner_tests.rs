use gate::{Scanner, Token, TokenError};

use gate::Token::{
    Boolean, CloseParen, Comma, Divide, DoubleEq, Else, Gt, GtEq, Identifier, If, Lt, LtEq,
    Minus, Nil, Number, OpenParen, Plus, Times, While,
};

fn next_num(s: &mut Scanner) -> f64 {
    match s.next() {
        Some(Ok(Number(b))) => f64::from_bits(b),
        other => panic!("expected a number token, got {:?}", other),
    }
}

#[test]
fn test_punctuation() {
    let mut s = Scanner::new("(,) = == < <= > >= +-*/");
    assert_eq!(s.next(), Some(Ok(OpenParen)));
    assert_eq!(s.next(), Some(Ok(Comma)));
    assert_eq!(s.next(), Some(Ok(CloseParen)));
    assert_eq!(s.next(), Some(Ok(Token::Eq)));
    assert_eq!(s.next(), Some(Ok(DoubleEq)));
    assert_eq!(s.next(), Some(Ok(Lt)));
    assert_eq!(s.next(), Some(Ok(LtEq)));
    assert_eq!(s.next(), Some(Ok(Gt)));
    assert_eq!(s.next(), Some(Ok(GtEq)));
    assert_eq!(s.next(), Some(Ok(Plus)));
    assert_eq!(s.next(), Some(Ok(Minus)));
    assert_eq!(s.next(), Some(Ok(Times)));
    assert_eq!(s.next(), Some(Ok(Divide)));
    assert_eq!(s.next(), None);
}

#[test]
fn test_unexpected_char() {
    let mut s = Scanner::new("($)");
    assert_eq!(s.next(), Some(Ok(OpenParen)));
    assert_eq!(s.next(), Some(Err(TokenError::UnexpectedChar('$'))));
}

#[test]
fn test_words() {
    let mut s = Scanner::new("foo FOO _123_ Nil nil if else while false true");
    assert_eq!(s.next(), Some(Ok(Identifier("foo".to_owned()))));
    assert_eq!(s.next(), Some(Ok(Identifier("FOO".to_owned()))));
    assert_eq!(s.next(), Some(Ok(Identifier("_123_".to_owned()))));
    assert_eq!(s.next(), Some(Ok(Identifier("Nil".to_owned()))));
    assert_eq!(s.next(), Some(Ok(Nil)));
    assert_eq!(s.next(), Some(Ok(If)));
    assert_eq!(s.next(), Some(Ok(Else)));
    assert_eq!(s.next(), Some(Ok(While)));
    assert_eq!(s.next(), Some(Ok(Boolean(false))));
    assert_eq!(s.next(), Some(Ok(Boolean(true))));
    assert_eq!(s.next(), None);
}

#[test]
fn test_number() {
    let mut s = Scanner::new("0 -0 -1.2 +2.3 999 1.");
    assert_eq!(next_num(&mut s), 0.0);
    assert_eq!(next_num(&mut s), 0.0);
    assert_eq!(next_num(&mut s), -1.2);
    assert_eq!(next_num(&mut s), 2.3);
    assert_eq!(next_num(&mut s), 999.0);
    assert_eq!(next_num(&mut s), 1.0);
    assert_eq!(s.next(), None);
}

#[test]
fn test_string() {
    let mut s = Scanner::new(r#" "" "Foo bar" "\"\\" "#);
    assert_eq!(s.next(), Some(Ok(Token::String("".to_owned()))));
    assert_eq!(s.next(), Some(Ok(Token::String("Foo bar".to_owned()))));
    assert_eq!(s.next(), Some(Ok(Token::String(r#""\"#.to_owned()))));
    assert_eq!(s.next(), None);
}

#[test]
fn test_incomplete_string() {
    // An unterminated string is reported as incomplete, never as an
    // unexpected character, so a caller can ask for more input.
    let mut s = Scanner::new("\"abc");
    assert_eq!(s.next(), Some(Err(TokenError::IncompleteString)));
    assert_ne!(
        Some(Err(TokenError::IncompleteString)),
        Some(Err::<Token, TokenError>(TokenError::UnexpectedChar('"')))
    );
}

#[test]
fn test_scan_resume() {
    // Scanning goes on past an error: each pull yields the next token
    // after the erroring character.
    let mut s = Scanner::new("1 $ 2");
    assert_eq!(next_num(&mut s), 1.0);
    assert_eq!(s.next(), Some(Err(TokenError::UnexpectedChar('$'))));
    assert_eq!(next_num(&mut s), 2.0);
    assert_eq!(s.next(), None);
}

#[test]
fn test_invalid_escape() {
    let mut s = Scanner::new(r#""a\x""#);
    assert_eq!(s.next(), Some(Err(TokenError::InvalidEscape)));
}

#[test]
fn test_percent_token() {
    let mut s = Scanner::new("7 % 2");
    assert_eq!(next_num(&mut s), 7.0);
    assert_eq!(s.next(), Some(Ok(Token::Percent)));
    assert_eq!(next_num(&mut s), 2.0);
    assert_eq!(s.next(), None);
}
