use lib::error::ErrorKind;
use lib::token::{Token, TokenKind};
use lib::tokenizer::{convert, TokenValue, Tokenizer};

fn token(kind: TokenKind, value: &str) -> Token {
    Token::new(kind, value.to_string())
}

#[test]
fn test_tokenize() {
    let cases = [
        (token(TokenKind::Integer, "1"), TokenValue::Integer(1)),
        (token(TokenKind::Integer, "16#FFFE"), TokenValue::Integer(0xFFFE)),
        (token(TokenKind::Real, "1.0"), TokenValue::Real("1.0".to_string())),
        (token(TokenKind::Real, "1.2e-7"), TokenValue::Real("1.2e-7".to_string())),
        (
            token(TokenKind::StringLiteral, "this is a literal string"),
            TokenValue::String("this is a literal string".to_string()),
        ),
        (
            token(TokenKind::StringHex, "7468697320697320612068657820737472696E67"),
            TokenValue::String("this is a hex string".to_string()),
        ),
        (
            token(TokenKind::StringBase85, "FD,B0+DGm>@3B#fF(I<g+EMXFBl7P"),
            TokenValue::String("this is a base85 string".to_string()),
        ),
        (token(TokenKind::Name, "true"), TokenValue::Boolean(true)),
        (token(TokenKind::Name, "false"), TokenValue::Boolean(false)),
        (token(TokenKind::Name, "name"), TokenValue::Name("name".to_string())),
    ];

    for (input, expect) in cases {
        let mut tokenizer = Tokenizer::from(vec![input]);
        let Some(Ok(obj)) = tokenizer.next() else {
            panic!("expected object");
        };
        assert_eq!(expect, obj);
        assert!(tokenizer.next().is_none());
    }
}

#[test]
fn tokenizer_errors_and_deferred_numbers() {
    let bad_digits = convert(&token(TokenKind::Integer, "2#102")).unwrap();
    assert_eq!(ErrorKind::SyntaxError, bad_digits.unwrap_err().kind());
    let bad_base = convert(&token(TokenKind::Integer, "x#1")).unwrap();
    assert_eq!(ErrorKind::SyntaxError, bad_base.unwrap_err().kind());
    assert!(convert(&token(TokenKind::Integer, "40#1")).is_none());
    assert_eq!(
        TokenValue::Numeric("2147483648".to_string()),
        convert(&token(TokenKind::Integer, "2147483648")).unwrap().unwrap()
    );
    let bad_hex = convert(&token(TokenKind::StringHex, "GG")).unwrap();
    assert_eq!(ErrorKind::SyntaxError, bad_hex.unwrap_err().kind());
}
