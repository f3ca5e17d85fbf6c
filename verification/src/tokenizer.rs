use vstd::prelude::*;
use vstd::string::StrSliceExecFns;
use vstd::utf8::encode_utf8;

use crate::ascii85::ascii85_fits;
use crate::encoding::{
    ascii_upper, decode85, decode_ascii85, decode_hex, fits85, hex_scan, str_to_uppercase,
    string_from_chars,
};
use crate::error::{Error, ErrorKind, Result};
use crate::number::{i32_from_str_radix, i32_of, parse_i32, parse_u32, u32_of};
use crate::token::{Token, TokenKind};

verus! {

/// What a token stands for. The two real forms hold their text for the float reader:
/// `Numeric` text is a real where it parses as a double and a `syntaxerror` otherwise;
/// `Real` text is read as `decimal e exponent` when it holds an `e`.
#[derive(Debug, PartialEq, Eq)]
pub enum TokenValue {
    Integer(i32),
    Numeric(String),
    Real(String),
    String(String),
    Boolean(bool),
    Name(String),
}

/// A token's value as the contracts see it.
pub enum ValueView {
    Integer(i32),
    Numeric(Seq<char>),
    Real(Seq<char>),
    String(Seq<char>),
    Boolean(bool),
    Name(Seq<char>),
}

pub open spec fn value_view(v: TokenValue) -> ValueView {
    match v {
        TokenValue::Integer(i) => ValueView::Integer(i),
        TokenValue::Numeric(s) => ValueView::Numeric(s@),
        TokenValue::Real(s) => ValueView::Real(s@),
        TokenValue::String(s) => ValueView::String(s@),
        TokenValue::Boolean(b) => ValueView::Boolean(b),
        TokenValue::Name(s) => ValueView::Name(s@),
    }
}

/// How converting a token ends: with a value, with an error of some kind, or in a panic
/// of the integer parser or of the ASCII85 decoder.
pub enum Conversion {
    Value(ValueView),
    Failed(ErrorKind),
    Aborts,
}

/// The index of the first `c` in `s`, or the length of `s`.
pub open spec fn first_char_index(s: Seq<char>, c: char) -> int
    decreases s.len(),
{
    if s.len() == 0 {
        0
    } else if s[0] == c {
        0
    } else {
        1 + first_char_index(s.skip(1), c)
    }
}

/// What `decode_hex` makes of the text.
pub open spec fn hex_text(text: Seq<char>) -> Conversion {
    let u = str_to_uppercase(text);
    let st = hex_scan(encode_utf8(u), encode_utf8(text).len() as int, encode_utf8(u).len() as int);
    if st.3 {
        Conversion::Failed(ErrorKind::SyntaxError)
    } else {
        Conversion::Value(ValueView::String(st.2))
    }
}

/// The value of a token of the given kind and text: `base#digits` integers in their base,
/// decimal integers, reals and numbers out of range left to the float reader, strings
/// decoded, and the names `true` and `false` as booleans.
pub open spec fn convert_spec(kind: TokenKind, text: Seq<char>) -> Conversion {
    match kind {
        TokenKind::Integer => if text.contains('#') {
            let k = first_char_index(text, '#');
            let rest = text.skip(k + 1);
            let digits = rest.take(first_char_index(rest, '#'));
            match u32_of(text.take(k)) {
                Some(base) => if 2 <= base <= 36 {
                    match i32_of(digits, base as int) {
                        Some(v) => Conversion::Value(ValueView::Integer(v)),
                        None => Conversion::Failed(ErrorKind::SyntaxError),
                    }
                } else {
                    Conversion::Aborts
                },
                None => Conversion::Failed(ErrorKind::SyntaxError),
            }
        } else {
            match i32_of(text, 10) {
                Some(v) => Conversion::Value(ValueView::Integer(v)),
                None => Conversion::Value(ValueView::Numeric(text)),
            }
        },
        TokenKind::Real => Conversion::Value(ValueView::Real(text)),
        TokenKind::StringLiteral => Conversion::Value(ValueView::String(text)),
        TokenKind::StringHex => hex_text(text),
        TokenKind::StringBase85 => if fits85(encode_utf8(text)) {
            Conversion::Value(ValueView::String(decode85(encode_utf8(text))))
        } else {
            Conversion::Aborts
        },
        TokenKind::Name => if text == "true"@ {
            Conversion::Value(ValueView::Boolean(true))
        } else if text == "false"@ {
            Conversion::Value(ValueView::Boolean(false))
        } else {
            Conversion::Value(ValueView::Name(text))
        },
    }
}

/// A converted token as the contracts see it: `None` for an abort.
pub open spec fn converted(r: Option<Result<TokenValue>>) -> Conversion {
    match r {
        Some(Ok(v)) => Conversion::Value(value_view(v)),
        Some(Err(e)) => Conversion::Failed(e.spec_kind()),
        None => Conversion::Aborts,
    }
}

/// The characters of `s`.
fn chars_of(s: &str) -> (r: Vec<char>)
    ensures
        r@ == s@,
{
    let n = s.unicode_len();
    let mut r: Vec<char> = Vec::with_capacity(n);
    let mut i: usize = 0;
    while i < n
        invariant
            n == s@.len(),
            i <= n,
            r@ == s@.subrange(0, i as int),
        decreases n - i,
    {
        r.push(s.get_char(i));
        i = i + 1;
        assert(r@ =~= s@.subrange(0, i as int));
    }
    assert(s@.subrange(0, n as int) =~= s@);
    r
}

/// The index of the first `c` in `s`, or the length of `s`.
fn find_char(s: &[char], c: char) -> (r: usize)
    ensures
        r == first_char_index(s@, c),
        r <= s@.len(),
        r < s@.len() <==> s@.contains(c),
{
    let mut i: usize = 0;
    assert(s@.skip(0) =~= s@);
    while i < s.len() && s[i] != c
        invariant
            i <= s@.len(),
            first_char_index(s@, c) == i + first_char_index(s@.skip(i as int), c),
            forall|j: int| 0 <= j < i ==> s@[j] != c,
        decreases s@.len() - i,
    {
        proof {
            assert(s@.skip(i as int).skip(1) =~= s@.skip(i + 1));
        }
        i = i + 1;
    }
    proof {
        if i < s.len() {
            assert(s@[i as int] == c);
        } else {
            assert(s@.skip(i as int).len() == 0);
            assert(!s@.contains(c));
        }
    }
    i
}

/// The characters of `s` from `start` to `end`, as a string.
fn substring(s: &[char], start: usize, end: usize) -> (r: String)
    requires
        start <= end <= s@.len(),
    ensures
        r@ == s@.subrange(start as int, end as int),
{
    let mut part: Vec<char> = Vec::with_capacity(end - start);
    let mut i: usize = start;
    while i < end
        invariant
            start <= i <= end,
            end <= s@.len(),
            part@ == s@.subrange(start as int, i as int),
        decreases end - i,
    {
        part.push(s[i]);
        i = i + 1;
        assert(part@ =~= s@.subrange(start as int, i as int));
    }
    string_from_chars(part.as_slice())
}

/// Whether `s` holds exactly the characters of `word`.
fn is_word(s: &[char], word: &str) -> (r: bool)
    ensures
        r == (s@ == word@),
{
    let w = chars_of(word);
    if s.len() != w.len() {
        return false;
    }
    let mut i: usize = 0;
    while i < s.len()
        invariant
            s@.len() == w@.len(),
            w@ == word@,
            i <= s@.len(),
            s@.subrange(0, i as int) == w@.subrange(0, i as int),
        decreases s@.len() - i,
    {
        if s[i] != w[i] {
            assert(s@[i as int] != w@[i as int]);
            return false;
        }
        i = i + 1;
        assert(s@.subrange(0, i as int) =~= w@.subrange(0, i as int));
    }
    assert(s@ =~= s@.subrange(0, i as int));
    assert(w@ =~= w@.subrange(0, i as int));
    true
}

/// The value a token stands for; `None` where the integer parser or the ASCII85 decoder
/// would panic.
pub fn convert(token: &Token) -> (r: Option<Result<TokenValue>>)
    ensures
        converted(r) == convert_spec(token.spec_kind(), token.spec_value()),
{
    let text = token.value();
    let chars = chars_of(text);
    match token.kind() {
        TokenKind::Integer => {
            let len = chars.len();
            let k = find_char(chars.as_slice(), '#');
            if k < len {
                let rest = substring(chars.as_slice(), k + 1, len);
                let rest_chars = chars_of(rest.as_str());
                assert(rest_chars@ =~= chars@.skip(k + 1));
                let k2 = find_char(rest_chars.as_slice(), '#');
                let digits = substring(rest_chars.as_slice(), 0, k2);
                let base_text = substring(chars.as_slice(), 0, k);
                assert(base_text@ =~= chars@.take(k as int));
                assert(digits@ =~= rest_chars@.take(k2 as int));
                match parse_u32(base_text.as_str()) {
                    Some(base) => {
                        if 2 <= base && base <= 36 {
                            match i32_from_str_radix(digits.as_str(), base) {
                                Some(value) => Some(Ok(TokenValue::Integer(value))),
                                None => Some(
                                    Err(Error::new(ErrorKind::SyntaxError, "invalid radix digits")),
                                ),
                            }
                        } else {
                            None
                        }
                    },
                    None => Some(Err(Error::new(ErrorKind::SyntaxError, "invalid radix base"))),
                }
            } else {
                match parse_i32(text) {
                    Some(i) => Some(Ok(TokenValue::Integer(i))),
                    None => Some(Ok(TokenValue::Numeric(string_from_chars(chars.as_slice())))),
                }
            }
        },
        TokenKind::Real => Some(Ok(TokenValue::Real(string_from_chars(chars.as_slice())))),
        TokenKind::StringLiteral => Some(
            Ok(TokenValue::String(string_from_chars(chars.as_slice()))),
        ),
        TokenKind::StringHex => match decode_hex(text) {
            Ok(decoded) => Some(Ok(TokenValue::String(decoded))),
            Err(e) => Some(Err(e)),
        },
        TokenKind::StringBase85 => {
            if !ascii85_fits(text) {
                return None;
            }
            match decode_ascii85(text) {
                Ok(decoded) => Some(Ok(TokenValue::String(decoded))),
                Err(e) => Some(Err(e)),
            }
        },
        TokenKind::Name => {
            if is_word(chars.as_slice(), "true") {
                Some(Ok(TokenValue::Boolean(true)))
            } else if is_word(chars.as_slice(), "false") {
                Some(Ok(TokenValue::Boolean(false)))
            } else {
                Some(Ok(TokenValue::Name(string_from_chars(chars.as_slice()))))
            }
        },
    }
}

/// Turns tokens, in order, into the values they stand for.
pub struct Tokenizer {
    input: Vec<Token>,
    position: usize,
}

impl Tokenizer {
    /// The tokens still to convert.
    pub closed spec fn remaining(&self) -> Seq<Token> {
        self.input@.skip(self.position as int)
    }

    pub closed spec fn wf(&self) -> bool {
        self.position <= self.input@.len()
    }

    /// A tokenizer over `tokens`.
    pub fn from(tokens: Vec<Token>) -> (r: Self)
        ensures
            r.wf(),
            r.remaining() == tokens@,
    {
        let r = Tokenizer { input: tokens, position: 0 };
        assert(r.input@.skip(0) =~= r.input@);
        r
    }

    /// The value of the next token: `None` when there is none.
    pub fn next(&mut self) -> (r: Option<Result<TokenValue>>)
        requires
            old(self).wf(),
            old(self).remaining().len() > 0 ==> !(convert_spec(
                old(self).remaining()[0].spec_kind(),
                old(self).remaining()[0].spec_value(),
            ) is Aborts),
        ensures
            final(self).wf(),
            old(self).remaining().len() == 0 ==> r is None && final(self).remaining() == old(
                self,
            ).remaining(),
            old(self).remaining().len() > 0 ==> r is Some && converted(r) == convert_spec(
                old(self).remaining()[0].spec_kind(),
                old(self).remaining()[0].spec_value(),
            ) && final(self).remaining() == old(self).remaining().skip(1),
    {
        if self.position >= self.input.len() {
            return None;
        }
        let r = convert(&self.input[self.position]);
        proof {
            assert(self.input@[self.position as int] == self.remaining()[0]);
        }
        self.position = self.position + 1;
        proof {
            assert(self.remaining() =~= old(self).remaining().skip(1));
        }
        match r {
            Some(value) => Some(value),
            None => None,
        }
    }
}

} // verus!
