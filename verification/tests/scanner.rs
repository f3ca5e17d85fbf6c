use lib::error::ErrorKind;
use lib::file::FileObject;
use lib::scanner::{is_delimiter, is_regular, is_whitespace, Lexer, Scanner, Token};

fn scanner(input: &str) -> Scanner {
    Scanner::new(FileObject::from_bytes(input.as_bytes().to_vec()))
}

fn tok(s: &mut Scanner) -> Option<Token> {
    s.next().map(|r| r.expect("expected a token"))
}

fn name(s: &str) -> Token {
    Token::Name(s.as_bytes().to_vec())
}

fn string(s: &str) -> Token {
    Token::String(s.as_bytes().to_vec())
}

fn number(s: &str) -> Token {
    Token::Number(s.as_bytes().to_vec())
}

/// A token as the object the lexer makes of it: number text read as a real where it is
/// one (as the prompt reads it), a name otherwise.
#[derive(Debug, PartialEq)]
enum Lexed {
    Integer(i32),
    Real(f32),
    String(String),
    Name(String),
}

fn lexed(token: Token) -> Lexed {
    match token {
        Token::Integer(i) => Lexed::Integer(i),
        Token::Number(text) => {
            let text = String::from_utf8(text).unwrap();
            match text.parse::<f32>() {
                Ok(r) => Lexed::Real(r),
                Err(_) => Lexed::Name(text),
            }
        },
        Token::String(bytes) => Lexed::String(String::from_utf8(bytes).unwrap()),
        Token::Name(bytes) => Lexed::Name(String::from_utf8(bytes).unwrap()),
        other => panic!("unexpected token {other:?}"),
    }
}

fn lexer(input: &str) -> Lexer {
    Scanner::new(FileObject::from_bytes(input.as_bytes().to_vec()))
}

fn next_object(l: &mut Lexer) -> Option<Result<Lexed, lib::error::Error>> {
    l.next().map(|r| r.map(lexed))
}

#[test]
fn test_lex_comment() {
    let mut l = lexer("% this is a comment");
    assert!(l.next().is_none());

    let cases = [
        ("10% this is a comment", Lexed::Integer(10)),
        ("16#FFFE% this is a comment", Lexed::Integer(0xFFFE)),
        ("1.0% this is a comment", Lexed::Real(1.0)),
        ("1.0e7% this is a comment", Lexed::Real(1.0e7)),
    ];
    for (input, expect) in cases {
        let mut l = lexer(input);
        let mut objs = Vec::new();
        while let Some(r) = next_object(&mut l) {
            if let Ok(o) = r {
                objs.push(o);
            }
        }
        assert_eq!(1, objs.len());
        assert_eq!(expect, objs.remove(0));
    }
}

#[test]
fn test_lex_bad_numeric() {
    for input in ["1x0", "1.x0"] {
        let mut l = lexer(input);
        let Some(Ok(Lexed::Name(name))) = next_object(&mut l) else {
            panic!("expected name object");
        };
        assert_eq!(input, name);
    }
}

#[test]
fn test_lex_numeric() {
    let cases = [
        ("1", Lexed::Integer(1)),
        ("-1", Lexed::Integer(-1)),
        ("1234567890", Lexed::Integer(1234567890)),
        ("2147483648", Lexed::Real(2147483648.0)),
        (".1", Lexed::Real(0.1)),
        ("-.1", Lexed::Real(-0.1)),
        ("1.234567890", Lexed::Real(1.234567890)),
        ("1.2E7", Lexed::Real(1.2e7)),
        ("1.2e7", Lexed::Real(1.2e7)),
        ("-1.2e7", Lexed::Real(-1.2e7)),
        ("1.2e-7", Lexed::Real(1.2e-7)),
        ("-1.2e-7", Lexed::Real(-1.2e-7)),
        ("2#1000", Lexed::Integer(0b1000)),
        ("8#1777", Lexed::Integer(0o1777)),
        ("16#fffe", Lexed::Integer(0xFFFE)),
        ("16#FFFE", Lexed::Integer(0xFFFE)),
        ("16#ffFE", Lexed::Integer(0xFFFE)),
    ];
    for (input, expect) in cases {
        let mut l = lexer(input);
        let Some(Ok(obj)) = next_object(&mut l) else {
            panic!("expected object");
        };
        assert_eq!(expect, obj, "input {input}");
    }
}

#[test]
fn test_lex_bad_string() {
    for input in ["(this is a string", "(this is a string\\)"] {
        let mut l = lexer(input);
        let Some(Err(e)) = l.next() else {
            panic!("expected error");
        };
        assert!(e.kind() == ErrorKind::SyntaxError);
    }
}

#[test]
fn test_lex_string() {
    let cases = [
        ("(this is a string)", "this is a string"),
        ("(this is a multiline\nstring)", "this is a multiline\nstring"),
        ("(this is a multiline\r\nstring)", "this is a multiline\r\nstring"),
        ("(this has (nested) parenthesis)", "this has (nested) parenthesis"),
    ];
    for (input, expect) in cases {
        let mut l = lexer(input);
        let Some(Ok(Lexed::String(string))) = next_object(&mut l) else {
            panic!("expected string object");
        };
        assert_eq!(expect, string);
    }
}

#[test]
fn test_lex_escaped_string() {
    let cases = [
        ("()", ""),
        ("(\\n)", "\n"),
        ("(\\r)", "\r"),
        ("(\\t)", "\t"),
        ("(\\b)", "\x08"),
        ("(\\f)", "\x0C"),
        ("(\\\\)", "\\"),
        ("(\\()", "("),
        ("(\\))", ")"),
        ("(\\\n)", ""),
        ("(\\\r)", ""),
        ("(\\\r\n)", ""),
    ];
    for (input, expect) in cases {
        let mut l = lexer(input);
        let Some(Ok(Lexed::String(string))) = next_object(&mut l) else {
            panic!("expected token");
        };
        assert_eq!(expect, string);
    }
}

#[test]
fn test_lex_ignore_escaped_string() {
    let mut l = lexer("(\\ii)");
    let Some(Ok(Lexed::String(string))) = next_object(&mut l) else {
        panic!("expected string object");
    };
    assert_eq!("ii", string);
}

#[test]
fn test_lex_octal_string() {
    let cases = [("(\\000)", "\0"), ("(\\377)", "ÿ")];
    for (input, expect) in cases {
        let mut l = lexer(input);
        let Some(Ok(Lexed::String(string))) = next_object(&mut l) else {
            panic!("expected string object");
        };
        assert_eq!(expect, string);
    }
}

#[test]
fn test_lex_hex_string() {
    let cases = [
        ("<736F6D65>", "some"),
        ("<736f6d65>", "some"),
        ("<736f6D65>", "some"),
        ("<73 6F 6D 65>", "some"),
        ("<70756D7>", "pump"),
        ("<70756D70>", "pump"),
    ];
    for (input, expect) in cases {
        let mut l = lexer(input);
        let Some(Ok(Lexed::String(string))) = next_object(&mut l) else {
            panic!("expected string object");
        };
        assert_eq!(expect, string);
    }
}

#[test]
fn test_lex_base85_string() {
    let mut l = lexer("<~FD,B0+DGm>F)Po,+EV1>F8~>");
    let Some(Ok(Lexed::String(string))) = next_object(&mut l) else {
        panic!("expected string object");
    };
    assert_eq!("this is some text", string);
}

#[test]
fn test_lex_multiple_string() {
    let input = "(this is a literal string) <7468697320697320612068657820737472696E67> <~FD,B0+DGm>@3B#fF(I<g+EMXFBl7P~>";
    let expect = [
        "this is a literal string",
        "this is a hex string",
        "this is a base85 string",
    ];
    let mut l = lexer(input);
    for e in expect {
        let Some(Ok(Lexed::String(string))) = next_object(&mut l) else {
            panic!("expected string object");
        };
        assert_eq!(e, string);
    }
}

#[test]
fn test_lex_name() {
    let inputs = [
        "abc",
        "Offset",
        "$$",
        "23A",
        "13-456",
        "a.b",
        "$MyDict",
        "@pattern",
        "16#FFFF.LMAO",
    ];
    for input in inputs {
        let mut l = lexer(input);
        let Some(Ok(Lexed::Name(name))) = next_object(&mut l) else {
            panic!("expected name object");
        };
        assert_eq!(input, name);
    }
}

#[test]
fn test_lex_self_deliminating() {
    // An open brace starts a procedure (see `scanner_procedures`); the other
    // self-delimiting characters end the token before them.
    let inputs = [
        ("mid[dle", "["),
        ("mid]dle", "]"),
        ("mid}dle", "}"),
        ("mid<<dle", "<<"),
        ("mid>>dle", ">>"),
        ("1[2", "["),
        ("1]2", "]"),
        ("1}2", "}"),
        ("1<<2", "<<"),
        ("1>>2", ">>"),
        ("1.2[3", "["),
        ("1.2]3", "]"),
        ("1.2}3", "}"),
        ("1.2<<3", "<<"),
        ("1.2>>3", ">>"),
        ("16#FF[FF", "["),
        ("16#FF]FF", "]"),
        ("16#FF}FF", "}"),
        ("16#FF<<FF", "<<"),
        ("16#FF>>FF", ">>"),
    ];
    for (input, expect) in inputs {
        let mut l = lexer(input);
        let _ = l.next();
        let Some(Ok(Lexed::Name(name))) = next_object(&mut l) else {
            panic!("expected name object");
        };
        assert_eq!(expect, name, "input {input}");
    }
}

#[test]
fn test_lex_all() {
    let input = "
myStr (i have a string right here)
myOtherStr (and
another \\
right \\
here)
% this is a comment
myInt 1234567890
myNegativeInt -1234567890
myReal 3.1456
myNegativeReal -3.1456
        ";
    let expect = [
        Lexed::Name("myStr".to_string()),
        Lexed::String("i have a string right here".to_string()),
        Lexed::Name("myOtherStr".to_string()),
        Lexed::String("and\nanother right here".to_string()),
        Lexed::Name("myInt".to_string()),
        Lexed::Integer(1234567890),
        Lexed::Name("myNegativeInt".to_string()),
        Lexed::Integer(-1234567890),
        Lexed::Name("myReal".to_string()),
        Lexed::Real(3.1456),
        Lexed::Name("myNegativeReal".to_string()),
        Lexed::Real(-3.1456),
    ];
    let mut l = lexer(input);
    for obj in expect {
        let Some(Ok(received)) = next_object(&mut l) else {
            panic!("expected object");
        };
        assert_eq!(obj, received);
    }
}

#[test]
fn scanner_tokens_keep_number_text() {
    let mut s = scanner("1.0e7 2147483648 1x0 /literal");
    assert_eq!(Some(number("1.0E7")), tok(&mut s));
    assert_eq!(Some(number("2147483648")), tok(&mut s));
    assert_eq!(Some(number("1x0")), tok(&mut s));
    assert_eq!(Some(Token::LiteralName(b"literal".to_vec())), tok(&mut s));
    assert!(s.next().is_none());
}

#[test]
fn scanner_base85_leaves_closing_bracket() {
    let mut s = scanner("<~FD,B0+DGm>F)Po,+EV1>F8~>");
    assert_eq!(Some(string("this is some text")), tok(&mut s));
    assert_eq!(Some(name(">")), tok(&mut s));
}

#[test]
fn scanner_octal_escape_takes_three_digits() {
    let mut s = scanner("(a\\101b) (\\1)");
    assert_eq!(Some(string("aAb")), tok(&mut s));
    assert_eq!(ErrorKind::SyntaxError, s.next().unwrap().unwrap_err().kind());
}

#[test]
fn scanner_ends_in_backslash() {
    let mut s = scanner("(ends in a backslash\\");
    let Some(Err(e)) = s.next() else {
        panic!("expected error");
    };
    assert_eq!(ErrorKind::IoError, e.kind());
    let mut h = scanner("<7%>");
    assert_eq!(ErrorKind::SyntaxError, h.next().unwrap().unwrap_err().kind());
}

#[test]
fn scanner_radix_out_of_range_is_refused() {
    let mut s = scanner("1#5 rest");
    assert!(s.try_next().is_none());
    // the position is kept
    assert!(s.try_next().is_none());
    let mut ok = scanner("36#z");
    assert_eq!(Some(Token::Integer(35)), ok.try_next().unwrap().map(|r| r.unwrap()));
}

#[test]
fn scanner_procedures() {
    let mut s = scanner("{ 1 {2} add } x");
    assert_eq!(
        Some(Token::Procedure(vec![
            Token::Integer(1),
            Token::Procedure(vec![Token::Integer(2)]),
            name("add"),
        ])),
        tok(&mut s)
    );
    assert_eq!(Some(name("x")), tok(&mut s));
    // an open brace always starts a procedure
    let mut inner = scanner("mid{dle");
    let _ = inner.next();
    assert_eq!(ErrorKind::SyntaxError, inner.next().unwrap().unwrap_err().kind());
    let mut open = scanner("{ 1 2");
    assert_eq!(ErrorKind::SyntaxError, open.next().unwrap().unwrap_err().kind());
}

#[test]
fn scanner_character_classes() {
    for b in b"<>()[]{}/%" {
        assert!(is_delimiter(*b));
        assert!(!is_regular(*b));
    }
    for b in [0u8, b' ', b'\t', b'\r', b'\n', 8, 12] {
        assert!(is_whitespace(b));
        assert!(!is_regular(b));
    }
    assert!(is_regular(b'a'));
}
