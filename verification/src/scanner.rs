use vstd::prelude::*;

use vstd::utf8::encode_utf8;

use crate::encoding::{decode85, decode_ascii85, decode_hex, fits85, hex_scan, str_to_uppercase, string_from_chars};
use crate::ascii85::ascii85_fits;
use crate::name::bytes_of;
use crate::error::{Error, ErrorKind};
use crate::file::{offset_index, FileObject, SeekFrom};
use crate::number::{i32_from_str_radix, i32_of, parse_i32, parse_u32, u32_of};

verus! {

pub const FORM_FEED: u8 = 0x0C;

pub const BACKSPACE: u8 = 0x08;

/// A token read from PostScript source. A `Number` is numeric text that is no integer:
/// a real where the float reader accepts it, else a name of that text.
#[derive(Debug, PartialEq, Eq)]
pub enum Token {
    Integer(i32),
    Number(Vec<u8>),
    String(Vec<u8>),
    Name(Vec<u8>),
    LiteralName(Vec<u8>),
    Procedure(Vec<Token>),
}

/// A token as the contracts see it.
pub enum TokenView {
    Integer(i32),
    Number(Seq<u8>),
    String(Seq<u8>),
    Name(Seq<u8>),
    LiteralName(Seq<u8>),
    Procedure(Seq<TokenView>),
}

pub open spec fn token_view(t: Token) -> TokenView
    decreases t,
{
    match t {
        Token::Integer(i) => TokenView::Integer(i),
        Token::Number(v) => TokenView::Number(v@),
        Token::String(v) => TokenView::String(v@),
        Token::Name(v) => TokenView::Name(v@),
        Token::LiteralName(v) => TokenView::LiteralName(v@),
        Token::Procedure(v) => TokenView::Procedure(tokens_view(v@)),
    }
}

pub open spec fn tokens_view(s: Seq<Token>) -> Seq<TokenView>
    decreases s,
{
    if s.len() == 0 {
        Seq::empty()
    } else {
        tokens_view(s.drop_last()).push(token_view(s.last()))
    }
}

/// How reading a token ends: with a token, with an error of some kind, or in a panic of
/// the integer parser or of the ASCII85 decoder.
pub enum Outcome {
    Done(TokenView),
    Failed(ErrorKind),
    Aborts,
}

/// The same, as the scanner's functions return it.
#[derive(Debug)]
pub enum Step {
    Done(Token),
    Failed(Error),
    Aborted,
}

pub open spec fn step_view(s: Step) -> Outcome {
    match s {
        Step::Done(t) => Outcome::Done(token_view(t)),
        Step::Failed(e) => Outcome::Failed(e.spec_kind()),
        Step::Aborted => Outcome::Aborts,
    }
}

pub open spec fn spec_is_delimiter(b: u8) -> bool {
    b == 0x3c || b == 0x3e || b == 0x28 || b == 0x29 || b == 0x5b || b == 0x5d || b == 0x7b
        || b == 0x7d || b == 0x2f || b == 0x25
}

pub open spec fn spec_is_whitespace(b: u8) -> bool {
    b == 0 || b == 0x20 || b == 0x09 || b == 0x0d || b == 0x0a || b == BACKSPACE || b
        == FORM_FEED
}

pub open spec fn spec_is_regular(b: u8) -> bool {
    !spec_is_delimiter(b) && !spec_is_whitespace(b)
}

/// `<`, `>`, `(`, `)`, `[`, `]`, `{`, `}`, `/` and `%`.
pub fn is_delimiter(ch: u8) -> (r: bool)
    ensures
        r == spec_is_delimiter(ch),
{
    ch == 0x3c || ch == 0x3e || ch == 0x28 || ch == 0x29 || ch == 0x5b || ch == 0x5d || ch == 0x7b
        || ch == 0x7d || ch == 0x2f || ch == 0x25
}

/// NUL, space, tab, carriage return, line feed, backspace and form feed.
pub fn is_whitespace(ch: u8) -> (r: bool)
    ensures
        r == spec_is_whitespace(ch),
{
    ch == 0 || ch == 0x20 || ch == 0x09 || ch == 0x0d || ch == 0x0a || ch == BACKSPACE || ch
        == FORM_FEED
}

/// Neither a delimiter nor white space.
pub fn is_regular(ch: u8) -> (r: bool)
    ensures
        r == spec_is_regular(ch),
{
    !is_delimiter(ch) && !is_whitespace(ch)
}

/// The byte at `c`, if there is one.
pub open spec fn at(d: Seq<u8>, c: int) -> Option<u8> {
    if 0 <= c < d.len() {
        Some(d[c])
    } else {
        None
    }
}

/// Bytes read as characters, one each.
pub open spec fn latin1(s: Seq<u8>) -> Seq<char> {
    s.map_values(|b: u8| b as char)
}

/// The position after a comment's text from `c` on: past the first line feed or form
/// feed, or at the end.
pub open spec fn comment_end(d: Seq<u8>, c: int) -> int
    decreases d.len() - c,
{
    if c < 0 || c >= d.len() {
        c
    } else if d[c] == 0x0a || d[c] == FORM_FEED {
        c + 1
    } else {
        comment_end(d, c + 1)
    }
}

/// A name being read stops at a regular byte once it is `<<`, `>>` or one delimiter.
pub open spec fn scanning_delim(name: Seq<u8>) -> bool {
    name == seq![0x3cu8, 0x3cu8] || name == seq![0x3eu8, 0x3eu8] || (name.len() == 1
        && spec_is_delimiter(name[0]))
}

/// Reads the rest of a name that starts with `name`, from `c`: the name and the position
/// after it.
pub open spec fn name_scan(d: Seq<u8>, c: int, name: Seq<u8>) -> (Seq<u8>, int)
    decreases d.len() - c,
{
    if c < 0 || c >= d.len() {
        (name, c)
    } else {
        let b = d[c];
        if spec_is_whitespace(b) {
            (name, c)
        } else if spec_is_delimiter(b) && name.len() > 0 && name != seq![0x3cu8] && name
            != seq![0x3eu8] {
            (name, c)
        } else if spec_is_regular(b) && scanning_delim(name) && !(name.len() > 0 && name[0]
            == 0x2f) {
            (name, c)
        } else {
            name_scan(d, c + 1, name.push(b))
        }
    }
}

/// A name read whole: literal when it starts with `/`, which is dropped.
pub open spec fn name_token(name: Seq<u8>) -> TokenView {
    if name.len() > 0 && name[0] == 0x2f {
        TokenView::LiteralName(name.skip(1))
    } else {
        TokenView::Name(name)
    }
}

/// Reads the regular bytes from `c` on after `acc`, `e` made `E`.
pub open spec fn numeric_scan(d: Seq<u8>, c: int, acc: Seq<u8>) -> (Seq<u8>, int)
    decreases d.len() - c,
{
    if 0 <= c < d.len() && spec_is_regular(d[c]) {
        numeric_scan(
            d,
            c + 1,
            acc.push(
                if d[c] == 0x65 || d[c] == 0x45 {
                    0x45u8
                } else {
                    d[c]
                },
            ),
        )
    } else {
        (acc, c)
    }
}

/// The index of the first `b` in `s`, or the length of `s`.
pub open spec fn first_index(s: Seq<u8>, b: u8) -> int
    decreases s.len(),
{
    if s.len() == 0 {
        0
    } else if s[0] == b {
        0
    } else {
        1 + first_index(s.skip(1), b)
    }
}

/// A numeric token from `c` on: `base#digits` in that base, else with an `E` a real or
/// name, else a 32-bit integer, else a real or name; radix text that does not parse
/// is a name.
pub open spec fn numeric_token(d: Seq<u8>, c: int) -> (Outcome, int) {
    let (num, c1) = numeric_scan(d, c, Seq::empty());
    let as_name = name_scan(d, c1, num);
    let named = (Outcome::Done(name_token(as_name.0)), as_name.1);
    if num.contains(0x23) {
        let k = first_index(num, 0x23);
        let rest = num.skip(k + 1);
        let digits = rest.take(first_index(rest, 0x23));
        match u32_of(latin1(num.take(k))) {
            Some(base) => if 2 <= base <= 36 {
                match i32_of(latin1(digits), base as int) {
                    Some(v) => (Outcome::Done(TokenView::Integer(v)), c1),
                    None => named,
                }
            } else {
                (Outcome::Aborts, c1)
            },
            None => named,
        }
    } else if num.contains(0x45) {
        (Outcome::Done(TokenView::Number(num)), c1)
    } else {
        match i32_of(latin1(num), 10) {
            Some(v) => (Outcome::Done(TokenView::Integer(v)), c1),
            None => (Outcome::Done(TokenView::Number(num)), c1),
        }
    }
}

/// The byte a simple escape `\x` stands for in a string literal: `r`, `n`, `t`, `b`, `f`,
/// backslash and the parentheses.
pub open spec fn simple_escape(e: u8) -> Option<u8> {
    if e == 0x72 {
        Some(0x0du8)
    } else if e == 0x6e {
        Some(0x0au8)
    } else if e == 0x74 {
        Some(0x09u8)
    } else if e == 0x62 {
        Some(BACKSPACE)
    } else if e == 0x66 {
        Some(FORM_FEED)
    } else if e == 0x5c {
        Some(0x5cu8)
    } else if e == 0x28 {
        Some(0x28u8)
    } else if e == 0x29 {
        Some(0x29u8)
    } else {
        None
    }
}

/// The value of a digit byte, counted from `0` modulo 256.
pub open spec fn digit_of(b: u8) -> u8 {
    if b >= 0x30 {
        (b - 0x30) as u8
    } else {
        (b + 0xd0) as u8
    }
}

/// The value of a digit byte, counted from `0` modulo 256.
fn digit(b: u8) -> (r: u8)
    ensures
        r == digit_of(b),
{
    if b >= 0x30 {
        b - 0x30
    } else {
        b + 0xd0
    }
}

/// The byte an escape `\ddd` makes of its three digits: `d0 << 6 | d1 << 3 | d2` on
/// bytes, bits shifted out dropped.
pub open spec fn octal_byte(e: u8, b1: u8, b2: u8) -> u8 {
    ((digit_of(e) << 6u8) | (digit_of(b1) << 3u8)) | digit_of(b2)
}

/// The characters of a string literal from `c` on, after `acc`, inside `depth` open
/// parentheses: the outcome and the position after it. The bytes of the string are the
/// UTF-8 of the characters read, one per byte.
pub open spec fn literal_scan(d: Seq<u8>, c: int, acc: Seq<char>, depth: nat) -> (Outcome, int)
    decreases d.len() - c,
{
    if c < 0 || c >= d.len() {
        (Outcome::Failed(ErrorKind::SyntaxError), c)
    } else {
        let ch = d[c];
        if ch == 0x28 {
            literal_scan(d, c + 1, acc.push('('), depth + 1)
        } else if ch == 0x29 {
            if depth == 0 {
                (Outcome::Done(TokenView::String(encode_utf8(acc))), c + 1)
            } else {
                literal_scan(d, c + 1, acc.push(')'), (depth - 1) as nat)
            }
        } else if ch == 0x5c {
            if c + 1 >= d.len() {
                (Outcome::Failed(ErrorKind::IoError), c + 1)
            } else {
                let e = d[c + 1];
                let c2 = c + 2;
                if e == 0x0a {
                    literal_scan(d, c2, acc, depth)
                } else if simple_escape(e) is Some {
                    literal_scan(d, c2, acc.push(simple_escape(e).unwrap() as char), depth)
                } else if e == 0x0d {
                    if c2 >= d.len() {
                        (Outcome::Failed(ErrorKind::SyntaxError), c2)
                    } else if d[c2] == 0x0a {
                        literal_scan(d, c2 + 1, acc, depth)
                    } else {
                        literal_scan(d, c2, acc, depth)
                    }
                } else if 0x30 <= e <= 0x39 {
                    if c2 + 1 < d.len() {
                        literal_scan(
                            d,
                            c2 + 2,
                            acc.push(octal_byte(e, d[c2], d[c2 + 1]) as char),
                            depth,
                        )
                    } else {
                        (Outcome::Failed(ErrorKind::SyntaxError), d.len() as int)
                    }
                } else {
                    literal_scan(d, c2, acc.push(e as char), depth)
                }
            }
        } else {
            literal_scan(d, c + 1, acc.push(ch as char), depth)
        }
    }
}

/// A letter or a digit.
pub open spec fn spec_is_alnum(b: u8) -> bool {
    (0x30 <= b <= 0x39) || (0x61 <= b <= 0x7a) || (0x41 <= b <= 0x5a)
}

/// A hexadecimal digit.
pub open spec fn spec_is_hex_digit(b: u8) -> bool {
    (0x30 <= b <= 0x39) || (0x61 <= b <= 0x66) || (0x41 <= b <= 0x46)
}

/// What `decode_hex` makes of the collected characters.
pub open spec fn hex_outcome(acc: Seq<char>) -> Outcome {
    let u = str_to_uppercase(acc);
    let st = hex_scan(encode_utf8(u), encode_utf8(acc).len() as int, encode_utf8(u).len() as int);
    if st.3 {
        Outcome::Failed(ErrorKind::SyntaxError)
    } else {
        Outcome::Done(TokenView::String(encode_utf8(st.2)))
    }
}

/// The digits of a hex string from `c` on, white space skipped, up to `>`.
pub open spec fn hex_string_scan(d: Seq<u8>, c: int, acc: Seq<char>) -> (Outcome, int)
    decreases d.len() - c,
{
    if c < 0 || c >= d.len() {
        (Outcome::Failed(ErrorKind::SyntaxError), c)
    } else if spec_is_whitespace(d[c]) {
        hex_string_scan(d, c + 1, acc)
    } else if d[c] == 0x3e {
        (hex_outcome(acc), c + 1)
    } else if spec_is_alnum(d[c]) {
        hex_string_scan(d, c + 1, acc.push(d[c] as char))
    } else {
        (Outcome::Failed(ErrorKind::SyntaxError), c + 1)
    }
}

/// What `decode_ascii85` makes of the collected characters; it overflows when a group's
/// number does not fit in 32 bits.
pub open spec fn base85_outcome(acc: Seq<char>) -> Outcome {
    let e = encode_utf8(acc);
    if fits85(e) {
        Outcome::Done(TokenView::String(encode_utf8(decode85(e))))
    } else {
        Outcome::Aborts
    }
}

/// The characters of an ASCII85 string from `c` on: every `~` is dropped, and one
/// followed by `>` ends the string, the `>` left unread.
pub open spec fn base85_string_scan(d: Seq<u8>, c: int, acc: Seq<char>) -> (Outcome, int)
    decreases d.len() - c,
{
    if c < 0 || c >= d.len() {
        (Outcome::Failed(ErrorKind::SyntaxError), c)
    } else if d[c] == 0x7e {
        if c + 1 >= d.len() {
            (Outcome::Failed(ErrorKind::SyntaxError), c + 1)
        } else if d[c + 1] == 0x3e {
            (base85_outcome(acc), c + 1)
        } else {
            base85_string_scan(d, c + 1, acc)
        }
    } else {
        base85_string_scan(d, c + 1, acc.push(d[c] as char))
    }
}

/// A token that starts with the `<` at `c`: `<<`, an ASCII85 string, a hex string, or a
/// name starting with `<`.
pub open spec fn gt_token(d: Seq<u8>, c: int) -> (Outcome, int) {
    let c1 = c + 1;
    if c1 >= d.len() {
        (Outcome::Failed(ErrorKind::SyntaxError), c1)
    } else if d[c1] == 0x3c {
        (Outcome::Done(TokenView::Name(seq![0x3cu8, 0x3cu8])), c1 + 1)
    } else if d[c1] == 0x7e {
        base85_string_scan(d, c1, Seq::empty())
    } else if spec_is_hex_digit(d[c1]) {
        hex_string_scan(d, c1, Seq::empty())
    } else {
        let named = name_scan(d, c1, seq![0x3cu8]);
        (Outcome::Done(name_token(named.0)), named.1)
    }
}

proof fn lemma_comment_end(d: Seq<u8>, c: int)
    requires
        0 <= c <= d.len(),
    ensures
        c <= comment_end(d, c) <= d.len(),
    decreases d.len() - c,
{
    if c < d.len() && !(d[c] == 0x0a || d[c] == FORM_FEED) {
        lemma_comment_end(d, c + 1);
    }
}

proof fn lemma_name_scan(d: Seq<u8>, c: int, name: Seq<u8>)
    requires
        0 <= c <= d.len(),
    ensures
        c <= name_scan(d, c, name).1 <= d.len(),
        name_scan(d, c, name).0.len() == name.len() + name_scan(d, c, name).1 - c,
        name.len() > 0 ==> name_scan(d, c, name).0[0] == name[0],
    decreases d.len() - c,
{
    if c < d.len() {
        let b = d[c];
        if !(spec_is_whitespace(b) || (spec_is_delimiter(b) && name.len() > 0 && name != seq![
            0x3cu8,
        ] && name != seq![0x3eu8]) || (spec_is_regular(b) && scanning_delim(name) && !(
        name.len() > 0 && name[0] == 0x2f))) {
            lemma_name_scan(d, c + 1, name.push(b));
        }
    }
}

proof fn lemma_numeric_scan(d: Seq<u8>, c: int, acc: Seq<u8>)
    requires
        0 <= c <= d.len(),
    ensures
        c <= numeric_scan(d, c, acc).1 <= d.len(),
        numeric_scan(d, c, acc).0.len() == acc.len() + numeric_scan(d, c, acc).1 - c,
    decreases d.len() - c,
{
    if c < d.len() && spec_is_regular(d[c]) {
        lemma_numeric_scan(
            d,
            c + 1,
            acc.push(
                if d[c] == 0x65 || d[c] == 0x45 {
                    0x45u8
                } else {
                    d[c]
                },
            ),
        );
    }
}

/// The next token from `c` on, white space and comments skipped: `None` at the end of
/// the data, else how reading it ends; and the position after it.
pub open spec fn next_token(d: Seq<u8>, c: int) -> (Option<Outcome>, int)
    decreases d.len() - c, 0int,
{
    if c < 0 || c >= d.len() {
        (None, c)
    } else {
        let b = d[c];
        if spec_is_whitespace(b) {
            next_token(d, c + 1)
        } else if b == 0x25 {
            let e = comment_end(d, c + 1);
            if e <= c || e > d.len() {
                (None, c)
            } else {
                next_token(d, e)
            }
        } else if b == 0x2d || b == 0x2e || (0x30 <= b <= 0x39) {
            let r = numeric_token(d, c);
            (Some(r.0), r.1)
        } else if b == 0x28 {
            let r = literal_scan(d, c + 1, Seq::empty(), 0);
            (Some(r.0), r.1)
        } else if b == 0x3c {
            let r = gt_token(d, c);
            (Some(r.0), r.1)
        } else if b == 0x7b {
            let r = procedure_scan(d, c + 1, Seq::empty());
            (Some(r.0), r.1)
        } else {
            let n = name_scan(d, c, Seq::empty());
            (Some(Outcome::Done(name_token(n.0))), n.1)
        }
    }
}

/// The tokens of a procedure body from `c` on, after `acc`, up to the name `}`; a
/// procedure that the data ends in is a `syntaxerror`. (The guard before the recursion
/// never holds: a token always takes at least one byte.)
pub open spec fn procedure_scan(d: Seq<u8>, c: int, acc: Seq<TokenView>) -> (Outcome, int)
    decreases d.len() - c, 1int,
{
    if c < 0 || c > d.len() {
        (Outcome::Failed(ErrorKind::SyntaxError), c)
    } else {
        let (r, c2) = next_token(d, c);
        match r {
            None => (Outcome::Failed(ErrorKind::SyntaxError), c2),
            Some(Outcome::Failed(k)) => (Outcome::Failed(k), c2),
            Some(Outcome::Aborts) => (Outcome::Aborts, c2),
            Some(Outcome::Done(t)) => if t == TokenView::Name(seq![0x7du8]) {
                (Outcome::Done(TokenView::Procedure(acc)), c2)
            } else if c2 <= c || c2 > d.len() {
                (Outcome::Aborts, c2)
            } else {
                procedure_scan(d, c2, acc.push(t))
            },
        }
    }
}

proof fn lemma_literal_scan(d: Seq<u8>, c: int, acc: Seq<char>, depth: nat)
    requires
        0 <= c <= d.len(),
    ensures
        c <= literal_scan(d, c, acc, depth).1 <= d.len(),
    decreases d.len() - c,
{
    if c < d.len() {
        let ch = d[c];
        if ch == 0x28 {
            lemma_literal_scan(d, c + 1, acc.push('('), depth + 1);
        } else if ch == 0x29 {
            if depth != 0 {
                lemma_literal_scan(d, c + 1, acc.push(')'), (depth - 1) as nat);
            }
        } else if ch == 0x5c {
            if c + 1 < d.len() {
                let e = d[c + 1];
                let c2 = c + 2;
                if e == 0x0a {
                    lemma_literal_scan(d, c2, acc, depth);
                } else if simple_escape(e) is Some {
                    lemma_literal_scan(d, c2, acc.push(simple_escape(e).unwrap() as char), depth);
                } else if e == 0x0d {
                    if c2 < d.len() {
                        if d[c2] == 0x0a {
                            lemma_literal_scan(d, c2 + 1, acc, depth);
                        } else {
                            lemma_literal_scan(d, c2, acc, depth);
                        }
                    }
                } else if 0x30 <= e <= 0x39 {
                    if c2 + 1 < d.len() {
                        lemma_literal_scan(
                            d,
                            c2 + 2,
                            acc.push(octal_byte(e, d[c2], d[c2 + 1]) as char),
                            depth,
                        );
                    }
                } else {
                    lemma_literal_scan(d, c2, acc.push(e as char), depth);
                }
            }
        } else {
            lemma_literal_scan(d, c + 1, acc.push(ch as char), depth);
        }
    }
}

/// How a byte changes the parenthesis depth of a literal string: `(` opens, `)` closes.
pub open spec fn paren_step(b: u8) -> int {
    if b == 0x28 {
        1
    } else if b == 0x29 {
        -1
    } else {
        0
    }
}

/// The parenthesis depth at the end of `t`: opened less closed parentheses.
pub open spec fn paren_depth(t: Seq<u8>) -> int
    decreases t.len(),
{
    if t.len() == 0 {
        0
    } else {
        paren_depth(t.drop_last()) + paren_step(t.last())
    }
}

/// `t` has balanced parentheses, to any depth: no prefix closes more than it opens, and
/// the whole closes all it opens.
pub open spec fn balanced_parens(t: Seq<u8>) -> bool {
    &&& forall|k: int| 0 <= k <= t.len() ==> paren_depth(#[trigger] t.take(k)) >= 0
    &&& paren_depth(t) == 0
}

/// The characters that the bytes of a literal string without escapes stand for.
pub open spec fn literal_chars(t: Seq<u8>) -> Seq<char> {
    t.map_values(|b: u8| b as char)
}

proof fn lemma_paren_depth_concat(a: Seq<u8>, b: Seq<u8>)
    ensures
        paren_depth(a + b) == paren_depth(a) + paren_depth(b),
    decreases b.len(),
{
    if b.len() == 0 {
        assert(a + b =~= a);
    } else {
        lemma_paren_depth_concat(a, b.drop_last());
        assert((a + b).drop_last() =~= a + b.drop_last());
    }
}

/// From depth `depth`, the bytes `t` (no backslash, never closing below depth zero and
/// ending at depth zero) followed by `)` end the literal string after that `)`, with the
/// characters of `t` after `acc`.
proof fn lemma_literal_scan_balanced(d: Seq<u8>, c: int, acc: Seq<char>, depth: nat, t: Seq<u8>)
    requires
        0 <= c,
        c + t.len() < d.len(),
        d.subrange(c, c + t.len()) == t,
        d[c + t.len()] == 0x29,
        forall|i: int| 0 <= i < t.len() ==> #[trigger] t[i] != 0x5c,
        forall|k: int| 0 <= k <= t.len() ==> depth + paren_depth(#[trigger] t.take(k)) >= 0,
        depth + paren_depth(t) == 0,
    ensures
        literal_scan(d, c, acc, depth) == (
            Outcome::Done(TokenView::String(encode_utf8(acc + literal_chars(t)))),
            c + t.len() + 1,
        ),
    decreases t.len(),
{
    if t.len() == 0 {
        assert(acc + literal_chars(t) =~= acc);
    } else {
        let ch = t[0];
        let u = t.skip(1);
        assert(d[c] == ch);
        assert(t.take(1) =~= seq![ch]);
        assert(paren_depth(seq![ch]) == paren_step(ch)) by {
            assert(seq![ch].drop_last() =~= Seq::<u8>::empty());
            assert(seq![ch].last() == ch);
            assert(paren_depth(Seq::<u8>::empty()) == 0);
        }
        assert(depth + paren_depth(t.take(1)) >= 0);
        let nd = depth + paren_step(ch);
        assert forall|k: int| 0 <= k <= u.len() implies nd + paren_depth(#[trigger] u.take(k))
            >= 0 by {
            assert(t.take(k + 1) =~= t.take(1) + u.take(k));
            lemma_paren_depth_concat(t.take(1), u.take(k));
            assert(depth + paren_depth(t.take(k + 1)) >= 0);
        }
        assert(t =~= t.take(1) + u);
        lemma_paren_depth_concat(t.take(1), u);
        assert(d.subrange(c + 1, c + 1 + u.len()) =~= u);
        assert forall|i: int| 0 <= i < u.len() implies #[trigger] u[i] != 0x5c by {
            assert(u[i] == t[i + 1]);
        }
        assert(d[c + 1 + u.len()] == 0x29);
        let nacc = acc.push(ch as char);
        assert(nacc + literal_chars(u) =~= acc + literal_chars(t));
        if ch == 0x28 {
            assert(ch as char == '(');
            lemma_literal_scan_balanced(d, c + 1, nacc, (depth + 1) as nat, u);
        } else if ch == 0x29 {
            assert(ch as char == ')');
            assert(depth >= 1);
            lemma_literal_scan_balanced(d, c + 1, nacc, (depth - 1) as nat, u);
        } else {
            lemma_literal_scan_balanced(d, c + 1, nacc, depth, u);
        }
    }
}

/// A literal string whose parentheses are balanced to any depth is read whole: where the
/// data holds `(`, then bytes `t` without a backslash whose parentheses balance, then `)`,
/// the next token is the string of the bytes of `t`, and reading ends just after that `)`.
pub proof fn lemma_balanced_literal_string(d: Seq<u8>, c: int, t: Seq<u8>)
    requires
        0 <= c,
        c + t.len() + 1 < d.len(),
        d[c] == 0x28,
        d.subrange(c + 1, c + 1 + t.len()) == t,
        d[c + 1 + t.len()] == 0x29,
        forall|i: int| 0 <= i < t.len() ==> #[trigger] t[i] != 0x5c,
        balanced_parens(t),
    ensures
        next_token(d, c) == (
            Some(Outcome::Done(TokenView::String(encode_utf8(literal_chars(t))))),
            c + t.len() + 2,
        ),
{
    lemma_literal_scan_balanced(d, c + 1, Seq::empty(), 0, t);
    assert(Seq::<char>::empty() + literal_chars(t) =~= literal_chars(t));
}

proof fn lemma_hex_string_scan(d: Seq<u8>, c: int, acc: Seq<char>)
    requires
        0 <= c <= d.len(),
    ensures
        c <= hex_string_scan(d, c, acc).1 <= d.len(),
    decreases d.len() - c,
{
    if c < d.len() {
        if spec_is_whitespace(d[c]) {
            lemma_hex_string_scan(d, c + 1, acc);
        } else if d[c] != 0x3e && spec_is_alnum(d[c]) {
            lemma_hex_string_scan(d, c + 1, acc.push(d[c] as char));
        }
    }
}

proof fn lemma_base85_string_scan(d: Seq<u8>, c: int, acc: Seq<char>)
    requires
        0 <= c <= d.len(),
    ensures
        c <= base85_string_scan(d, c, acc).1 <= d.len(),
    decreases d.len() - c,
{
    if c < d.len() {
        if d[c] == 0x7e {
            if c + 1 < d.len() && d[c + 1] != 0x3e {
                lemma_base85_string_scan(d, c + 1, acc);
            }
        } else {
            lemma_base85_string_scan(d, c + 1, acc.push(d[c] as char));
        }
    }
}

/// A token takes at least one byte and never reads past the end.
proof fn lemma_next_token(d: Seq<u8>, c: int)
    requires
        0 <= c <= d.len(),
    ensures
        c <= next_token(d, c).1 <= d.len(),
        next_token(d, c).0 is Some ==> c < next_token(d, c).1,
    decreases d.len() - c, 0int,
{
    if c < d.len() {
        let b = d[c];
        if spec_is_whitespace(b) {
            lemma_next_token(d, c + 1);
        } else if b == 0x25 {
            lemma_comment_end(d, c + 1);
            lemma_next_token(d, comment_end(d, c + 1));
        } else if b == 0x2d || b == 0x2e || (0x30 <= b <= 0x39) {
            lemma_numeric_scan(d, c + 1, Seq::<u8>::empty().push(b));
            let (num, c1) = numeric_scan(d, c, Seq::empty());
            lemma_name_scan(d, c1, num);
        } else if b == 0x28 {
            lemma_literal_scan(d, c + 1, Seq::empty(), 0);
        } else if b == 0x3c {
            if c + 1 < d.len() {
                lemma_base85_string_scan(d, c + 1, Seq::empty());
                lemma_hex_string_scan(d, c + 1, Seq::empty());
                lemma_name_scan(d, c + 1, seq![0x3cu8]);
            }
        } else if b == 0x7b {
            lemma_procedure_scan(d, c + 1, Seq::empty());
        } else {
            assert(Seq::<u8>::empty() != seq![0x3cu8, 0x3cu8]);
            assert(Seq::<u8>::empty() != seq![0x3eu8, 0x3eu8]);
            lemma_name_scan(d, c + 1, Seq::<u8>::empty().push(b));
        }
    }
}

proof fn lemma_procedure_scan(d: Seq<u8>, c: int, acc: Seq<TokenView>)
    requires
        0 <= c <= d.len(),
    ensures
        c <= procedure_scan(d, c, acc).1 <= d.len(),
    decreases d.len() - c, 1int,
{
    lemma_next_token(d, c);
    let (r, c2) = next_token(d, c);
    if let Some(Outcome::Done(t)) = r {
        if t != TokenView::Name(seq![0x7du8]) && c < c2 <= d.len() {
            lemma_procedure_scan(d, c2, acc.push(t));
        }
    }
}

/// The characters of `bytes`, one per byte, as a string.
fn latin1_string(bytes: &[u8]) -> (r: String)
    ensures
        r@ == latin1(bytes@),
{
    let mut chars: Vec<char> = Vec::with_capacity(bytes.len());
    let mut n: usize = 0;
    while n < bytes.len()
        invariant
            n <= bytes@.len(),
            chars@ == latin1(bytes@.subrange(0, n as int)),
        decreases bytes@.len() - n,
    {
        chars.push(bytes[n] as char);
        n = n + 1;
        assert(chars@ =~= latin1(bytes@.subrange(0, n as int)));
    }
    assert(bytes@.subrange(0, n as int) =~= bytes@);
    string_from_chars(chars.as_slice())
}

/// The index of the first `b` in `s`, or the length of `s`.
fn find_byte(s: &[u8], b: u8) -> (r: usize)
    ensures
        r == first_index(s@, b),
        r <= s@.len(),
        r < s@.len() <==> s@.contains(b),
{
    let mut i: usize = 0;
    assert(s@.skip(0) =~= s@);
    while i < s.len() && s[i] != b
        invariant
            i <= s@.len(),
            first_index(s@, b) == i + first_index(s@.skip(i as int), b),
            forall|j: int| 0 <= j < i ==> s@[j] != b,
        decreases s@.len() - i,
    {
        proof {
            assert(s@.skip(i as int).skip(1) =~= s@.skip(i + 1));
        }
        i = i + 1;
    }
    proof {
        if i < s.len() {
            assert(s@[i as int] == b);
        } else {
            assert(s@.skip(i as int).len() == 0);
            assert(!s@.contains(b));
        }
    }
    i
}

/// A copy of `s` from `start` to `end`.
fn slice_copy(s: &[u8], start: usize, end: usize) -> (r: Vec<u8>)
    requires
        start <= end <= s@.len(),
    ensures
        r@ == s@.subrange(start as int, end as int),
{
    let mut r: Vec<u8> = Vec::with_capacity(end - start);
    let mut i: usize = start;
    while i < end
        invariant
            start <= i <= end,
            end <= s@.len(),
            r@ == s@.subrange(start as int, i as int),
        decreases end - i,
    {
        r.push(s[i]);
        i = i + 1;
        assert(r@ =~= s@.subrange(start as int, i as int));
    }
    r
}

/// Reads tokens from an in-memory file.
pub struct Scanner {
    input: FileObject,
}

/// The same scanner, under the name the object reader had.
pub type Lexer = Scanner;

impl Scanner {
    /// The bytes being read.
    pub closed spec fn data(&self) -> Seq<u8> {
        self.input.spec_data()
    }

    /// The position of the next byte to read.
    pub closed spec fn pos(&self) -> int {
        self.input.spec_cursor()
    }

    /// The position is within the data.
    pub open spec fn wf(&self) -> bool {
        0 <= self.pos() <= self.data().len() <= usize::MAX
    }

    /// A scanner reading `input` from its cursor on.
    pub fn new(input: FileObject) -> (r: Self)
        ensures
            r.wf(),
            r.data() == input.spec_data(),
            r.pos() == input.spec_cursor(),
    {
        let _ = input.position();
        Self { input }
    }

    /// Reads one byte.
    fn next_char(&mut self) -> (r: Option<u8>)
        requires
            old(self).wf(),
        ensures
            final(self).wf(),
            final(self).data() == old(self).data(),
            r == at(old(self).data(), old(self).pos()),
            final(self).pos() == old(self).pos() + if r is Some {
                1int
            } else {
                0int
            },
    {
        let mut buf: [u8; 1] = [0];
        let n = self.input.read(&mut buf);
        if n == 1 {
            Some(buf[0])
        } else {
            None
        }
    }

    /// The next byte, without reading it.
    fn peek_char(&mut self) -> (r: Option<u8>)
        requires
            old(self).wf(),
        ensures
            final(self).wf(),
            final(self).data() == old(self).data(),
            final(self).pos() == old(self).pos(),
            r == at(old(self).data(), old(self).pos()),
    {
        if let Some(ch) = self.next_char() {
            let ghost p = self.input.spec_cursor();
            assert(p == old(self).pos() + 1);
            assert(p >= 1);
            assert((-1i64 as isize) as int == -1);
            assert(offset_index(p, -1) == Some(p - 1));
            let _ = self.input.seek(SeekFrom::Current(-1));
            return Some(ch);
        }
        None
    }

    /// Reads a byte and checks that it is `ch`; `syntaxerror` otherwise.
    fn expect_char(&mut self, ch: u8) -> (r: crate::error::Result<()>)
        requires
            old(self).wf(),
        ensures
            final(self).wf(),
            final(self).data() == old(self).data(),
            final(self).pos() == old(self).pos() + if old(self).pos() < old(self).data().len() {
                1int
            } else {
                0int
            },
            at(old(self).data(), old(self).pos()) == Some(ch) <==> r is Ok,
            r is Err ==> r->Err_0.spec_kind() == ErrorKind::SyntaxError,
    {
        match self.next_char() {
            Some(received) if ch == received => Ok(()),
            _ => Err(Error::new(ErrorKind::SyntaxError, "unexpected character")),
        }
    }

    fn next_is_delimiter(&mut self) -> (r: bool)
        requires
            old(self).wf(),
        ensures
            final(self).wf(),
            final(self).data() == old(self).data(),
            final(self).pos() == old(self).pos(),
            r == (at(old(self).data(), old(self).pos()) matches Some(b) && spec_is_delimiter(b)),
    {
        match self.peek_char() {
            Some(ch) => is_delimiter(ch),
            None => false,
        }
    }

    fn next_is_regular(&mut self) -> (r: bool)
        requires
            old(self).wf(),
        ensures
            final(self).wf(),
            final(self).data() == old(self).data(),
            final(self).pos() == old(self).pos(),
            r == (at(old(self).data(), old(self).pos()) matches Some(b) && spec_is_regular(b)),
    {
        match self.peek_char() {
            Some(ch) => is_regular(ch),
            None => false,
        }
    }

    fn next_is_whitespace(&mut self) -> (r: bool)
        requires
            old(self).wf(),
        ensures
            final(self).wf(),
            final(self).data() == old(self).data(),
            final(self).pos() == old(self).pos(),
            r == (at(old(self).data(), old(self).pos()) matches Some(b) && spec_is_whitespace(b)),
    {
        match self.peek_char() {
            Some(ch) => is_whitespace(ch),
            None => false,
        }
    }
    /// Skips a comment: the `%` under the cursor and the text after it up to and
    /// including the first line feed or form feed.
    fn scan_comment(&mut self) -> (r: crate::error::Result<()>)
        requires
            old(self).wf(),
            at(old(self).data(), old(self).pos()) == Some(0x25u8),
        ensures
            final(self).wf(),
            final(self).data() == old(self).data(),
            r is Ok,
            final(self).pos() == comment_end(old(self).data(), old(self).pos() + 1),
    {
        self.expect_char(0x25)?;
        loop
            invariant_except_break
                comment_end(self.data(), self.pos()) == comment_end(
                    old(self).data(),
                    old(self).pos() + 1,
                ),
            invariant
                self.wf(),
                self.data() == old(self).data(),
            ensures
                self.pos() == comment_end(old(self).data(), old(self).pos() + 1),
            decreases self.data().len() - self.pos(),
        {
            match self.next_char() {
                None => break,
                Some(ch) => {
                    if ch == 0x0a || ch == FORM_FEED {
                        break;
                    }
                },
            }
        }
        Ok(())
    }

    /// Reads the rest of a name that starts with `name`.
    fn scan_name(&mut self, name: Vec<u8>) -> (r: Step)
        requires
            old(self).wf(),
        ensures
            final(self).wf(),
            final(self).data() == old(self).data(),
            final(self).pos() == name_scan(old(self).data(), old(self).pos(), name@).1,
            step_view(r) == Outcome::Done(
                name_token(name_scan(old(self).data(), old(self).pos(), name@).0),
            ),
    {
        let mut name = name;
        let ghost target = name_scan(old(self).data(), old(self).pos(), name@);
        loop
            invariant_except_break
                name_scan(self.data(), self.pos(), name@) == target,
            invariant
                self.wf(),
                self.data() == old(self).data(),
            ensures
                (name@, self.pos()) == target,
            decreases self.data().len() - self.pos(),
        {
            if self.next_is_whitespace() {
                break;
            }
            if self.next_is_delimiter() && name.len() > 0 && !is_only(&name, 0x3c) && !is_only(
                &name,
                0x3e,
            ) {
                break;
            }
            let first_ch = if name.len() > 0 {
                name[0]
            } else {
                0
            };
            let scanning_delim = is_pair(&name, 0x3c) || is_pair(&name, 0x3e) || (name.len() == 1
                && is_delimiter(first_ch));
            let scanning_literal = first_ch == 0x2f;
            if self.next_is_regular() && scanning_delim && !scanning_literal {
                break;
            }
            match self.next_char() {
                Some(ch) => name.push(ch),
                None => break,
            }
        }
        if name.len() > 0 && name[0] == 0x2f {
            let rest = slice_copy(name.as_slice(), 1, name.len());
            assert(rest@ =~= name@.skip(1));
            Step::Done(Token::LiteralName(rest))
        } else {
            Step::Done(Token::Name(name))
        }
    }

    /// Reads a number: see `numeric_token`.
    fn scan_numeric(&mut self) -> (r: Step)
        requires
            old(self).wf(),
        ensures
            final(self).wf(),
            final(self).data() == old(self).data(),
            (step_view(r), final(self).pos()) == numeric_token(old(self).data(), old(self).pos()),
    {
        let mut numeric: Vec<u8> = Vec::new();
        let ghost target = numeric_scan(old(self).data(), old(self).pos(), Seq::empty());
        loop
            invariant_except_break
                numeric_scan(self.data(), self.pos(), numeric@) == target,
            invariant
                self.wf(),
                self.data() == old(self).data(),
            ensures
                (numeric@, self.pos()) == target,
            decreases self.data().len() - self.pos(),
        {
            if !self.next_is_regular() {
                break;
            }
            let Some(ch) = self.next_char() else {
                break;
            };
            if ch == 0x65 || ch == 0x45 {
                numeric.push(0x45);
            } else {
                numeric.push(ch);
            }
        }
        let len = numeric.len();
        let k = find_byte(numeric.as_slice(), 0x23);
        if k < len {
            let rest = slice_copy(numeric.as_slice(), k + 1, len);
            assert(rest@ =~= numeric@.skip(k + 1));
            let k2 = find_byte(rest.as_slice(), 0x23);
            let digits = slice_copy(rest.as_slice(), 0, k2);
            let base_text = slice_copy(numeric.as_slice(), 0, k);
            assert(base_text@ =~= numeric@.take(k as int));
            assert(digits@ =~= rest@.take(k2 as int));
            let base_str = latin1_string(base_text.as_slice());
            match parse_u32(base_str.as_str()) {
                Some(base) => {
                    if 2 <= base && base <= 36 {
                        let digit_str = latin1_string(digits.as_slice());
                        match i32_from_str_radix(digit_str.as_str(), base) {
                            Some(v) => Step::Done(Token::Integer(v)),
                            None => self.scan_name(numeric),
                        }
                    } else {
                        Step::Aborted
                    }
                },
                None => self.scan_name(numeric),
            }
        } else if find_byte(numeric.as_slice(), 0x45) < len {
            Step::Done(Token::Number(numeric))
        } else {
            let text = latin1_string(numeric.as_slice());
            match parse_i32(text.as_str()) {
                Some(v) => Step::Done(Token::Integer(v)),
                None => Step::Done(Token::Number(numeric)),
            }
        }
    }
    /// Reads a string literal from the `(` under the cursor.
    fn scan_string_literal(&mut self) -> (r: Step)
        requires
            old(self).wf(),
            at(old(self).data(), old(self).pos()) == Some(0x28u8),
        ensures
            final(self).wf(),
            final(self).data() == old(self).data(),
            (step_view(r), final(self).pos()) == literal_scan(
                old(self).data(),
                old(self).pos() + 1,
                Seq::empty(),
                0,
            ),
    {
        let _ = self.expect_char(0x28);
        let ghost target = literal_scan(old(self).data(), old(self).pos() + 1, Seq::empty(), 0);
        let mut string: Vec<char> = Vec::new();
        let mut active: usize = 0;
        loop
            invariant_except_break
                literal_scan(self.data(), self.pos(), string@, active as nat) == target,
            invariant
                self.wf(),
                self.data() == old(self).data(),
                active <= self.pos(),
                target == literal_scan(old(self).data(), old(self).pos() + 1, Seq::empty(), 0),
            ensures
                target == (
                    Outcome::Done(TokenView::String(encode_utf8(string@))),
                    self.pos(),
                ),
            decreases self.data().len() - self.pos(),
        {
            let ghost c = self.pos();
            let Some(ch) = self.next_char() else {
                return Step::Failed(Error::new(ErrorKind::SyntaxError, "unterminated string"));
            };
            if ch == 0x28 {
                string.push('(');
                active = active + 1;
            } else if ch == 0x29 {
                if active < 1 {
                    break;
                }
                string.push(')');
                active = active - 1;
            } else if ch == 0x5c {
                let next_ch = match self.next_char() {
                    None => {
                        return Step::Failed(Error::new(ErrorKind::IoError, "unexpected eof"));
                    },
                    Some(next_ch) => next_ch,
                };
                if next_ch == 0x0a {
                    continue ;
                } else if next_ch == 0x72 {
                    string.push('\r');
                } else if next_ch == 0x6e {
                    string.push('\n');
                } else if next_ch == 0x74 {
                    string.push('\t');
                } else if next_ch == 0x62 {
                    string.push(BACKSPACE as char);
                } else if next_ch == 0x66 {
                    string.push(FORM_FEED as char);
                } else if next_ch == 0x5c {
                    string.push('\\');
                } else if next_ch == 0x28 {
                    string.push('(');
                } else if next_ch == 0x29 {
                    string.push(')');
                } else if next_ch == 0x0d {
                    match self.peek_char() {
                        None => {
                            return Step::Failed(
                                Error::new(ErrorKind::SyntaxError, "unterminated string"),
                            );
                        },
                        Some(b) => {
                            if b == 0x0a {
                                let _ = self.next_char();
                            }
                        },
                    }
                } else if 0x30 <= next_ch && next_ch <= 0x39 {
                    let ch1 = self.next_char();
                    let ch2 = self.next_char();
                    match (ch1, ch2) {
                        (Some(c1), Some(c2)) => {
                            let octal: u8 = ((digit(next_ch) << 6u8) | (digit(c1) << 3u8)) | digit(
                                c2,
                            );
                            string.push(octal as char);
                        },
                        _ => {
                            return Step::Failed(
                                Error::new(ErrorKind::SyntaxError, "invalid octal number"),
                            );
                        },
                    }
                } else {
                    string.push(next_ch as char);
                }
            } else {
                string.push(ch as char);
            }
        }
        Step::Done(Token::String(utf8_bytes(&string)))
    }

    /// Reads the digits of a hex string, after its `<`, and decodes them.
    fn scan_string_hex(&mut self) -> (r: Step)
        requires
            old(self).wf(),
        ensures
            final(self).wf(),
            final(self).data() == old(self).data(),
            (step_view(r), final(self).pos()) == hex_string_scan(
                old(self).data(),
                old(self).pos(),
                Seq::empty(),
            ),
    {
        let ghost target = hex_string_scan(old(self).data(), old(self).pos(), Seq::empty());
        let mut string: Vec<char> = Vec::new();
        loop
            invariant_except_break
                hex_string_scan(self.data(), self.pos(), string@) == target,
            invariant
                self.wf(),
                self.data() == old(self).data(),
                target == hex_string_scan(old(self).data(), old(self).pos(), Seq::empty()),
            ensures
                target == (hex_outcome(string@), self.pos()),
            decreases self.data().len() - self.pos(),
        {
            if self.next_is_whitespace() {
                let _ = self.next_char();
                continue ;
            }
            let Some(ch) = self.next_char() else {
                return Step::Failed(Error::new(ErrorKind::SyntaxError, "unterminated string"));
            };
            if ch == 0x3e {
                break;
            } else if (0x30 <= ch && ch <= 0x39) || (0x61 <= ch && ch <= 0x7a) || (0x41 <= ch
                && ch <= 0x5a) {
                string.push(ch as char);
            } else {
                return Step::Failed(Error::new(ErrorKind::SyntaxError, "invalid hex string"));
            }
        }
        let text = string_from_chars(string.as_slice());
        match decode_hex(text.as_str()) {
            Ok(decoded) => Step::Done(Token::String(bytes_of(decoded.as_str().as_bytes()))),
            Err(e) => Step::Failed(e),
        }
    }

    /// Reads the characters of an ASCII85 string, after its `<`, and decodes them.
    fn scan_string_base85(&mut self) -> (r: Step)
        requires
            old(self).wf(),
        ensures
            final(self).wf(),
            final(self).data() == old(self).data(),
            (step_view(r), final(self).pos()) == base85_string_scan(
                old(self).data(),
                old(self).pos(),
                Seq::empty(),
            ),
    {
        let ghost target = base85_string_scan(old(self).data(), old(self).pos(), Seq::empty());
        let mut string: Vec<char> = Vec::new();
        loop
            invariant_except_break
                base85_string_scan(self.data(), self.pos(), string@) == target,
            invariant
                self.wf(),
                self.data() == old(self).data(),
                target == base85_string_scan(old(self).data(), old(self).pos(), Seq::empty()),
            ensures
                target == (base85_outcome(string@), self.pos()),
            decreases self.data().len() - self.pos(),
        {
            match self.next_char() {
                None => {
                    return Step::Failed(
                        Error::new(ErrorKind::SyntaxError, "unterminated base85 string"),
                    );
                },
                Some(ch) => {
                    if ch == 0x7e {
                        match self.peek_char() {
                            None => {
                                return Step::Failed(
                                    Error::new(ErrorKind::SyntaxError, "unterminated base85 string"),
                                );
                            },
                            Some(b) => {
                                if b == 0x3e {
                                    break;
                                }
                            },
                        }
                    } else {
                        string.push(ch as char);
                    }
                },
            }
        }
        let text = string_from_chars(string.as_slice());
        if !ascii85_fits(text.as_str()) {
            return Step::Aborted;
        }
        match decode_ascii85(text.as_str()) {
            Ok(decoded) => Step::Done(Token::String(bytes_of(decoded.as_str().as_bytes()))),
            Err(e) => Step::Failed(e),
        }
    }

    /// Reads a token that starts with the `<` under the cursor.
    fn scan_gt(&mut self) -> (r: Step)
        requires
            old(self).wf(),
            at(old(self).data(), old(self).pos()) == Some(0x3cu8),
        ensures
            final(self).wf(),
            final(self).data() == old(self).data(),
            (step_view(r), final(self).pos()) == gt_token(old(self).data(), old(self).pos()),
    {
        let _ = self.expect_char(0x3c);
        let Some(ch) = self.peek_char() else {
            return Step::Failed(Error::new(ErrorKind::SyntaxError, "unterminated hex string"));
        };
        if ch == 0x3c {
            let _ = self.next_char();
            let mut name: Vec<u8> = Vec::new();
            name.push(0x3c);
            name.push(0x3c);
            assert(name@ =~= seq![0x3cu8, 0x3cu8]);
            Step::Done(Token::Name(name))
        } else if ch == 0x7e {
            self.scan_string_base85()
        } else if (0x30 <= ch && ch <= 0x39) || (0x61 <= ch && ch <= 0x66) || (0x41 <= ch && ch
            <= 0x46) {
            self.scan_string_hex()
        } else {
            let mut name: Vec<u8> = Vec::new();
            name.push(0x3c);
            assert(name@ =~= seq![0x3cu8]);
            self.scan_name(name)
        }
    }
    /// Reads the next token: `None` at the end of the data.
    fn scan_next(&mut self) -> (r: Option<Step>)
        requires
            old(self).wf(),
        ensures
            final(self).wf(),
            final(self).data() == old(self).data(),
            (
                match r {
                    Some(step) => Some(step_view(step)),
                    None => None::<Outcome>,
                },
                final(self).pos(),
            ) == next_token(old(self).data(), old(self).pos()),
        decreases old(self).data().len() - old(self).pos(), 1int,
    {
        loop
            invariant
                self.wf(),
                self.data() == old(self).data(),
                old(self).pos() <= self.pos(),
                next_token(self.data(), self.pos()) == next_token(old(self).data(), old(self).pos()),
            decreases self.data().len() - self.pos(),
        {
            if self.next_is_whitespace() {
                let _ = self.next_char();
                continue ;
            }
            let ch = self.peek_char()?;
            if ch == 0x25 {
                let ghost c0 = self.pos();
                let _ = self.scan_comment();
                proof {
                    lemma_comment_end(self.data(), c0 + 1);
                }
                continue ;
            }
            if ch == 0x2d || ch == 0x2e || (0x30 <= ch && ch <= 0x39) {
                return Some(self.scan_numeric());
            } else if ch == 0x28 {
                return Some(self.scan_string_literal());
            } else if ch == 0x3c {
                return Some(self.scan_gt());
            } else if ch == 0x7b {
                return Some(self.scan_procedure());
            } else {
                return Some(self.scan_name(Vec::new()));
            }
        }
    }

    /// Reads a procedure from the `{` under the cursor up to the name `}`.
    fn scan_procedure(&mut self) -> (r: Step)
        requires
            old(self).wf(),
            at(old(self).data(), old(self).pos()) == Some(0x7bu8),
        ensures
            final(self).wf(),
            final(self).data() == old(self).data(),
            (step_view(r), final(self).pos()) == procedure_scan(
                old(self).data(),
                old(self).pos() + 1,
                Seq::empty(),
            ),
        decreases old(self).data().len() - old(self).pos(), 0int,
    {
        let _ = self.expect_char(0x7b);
        let ghost target = procedure_scan(old(self).data(), old(self).pos() + 1, Seq::empty());
        let mut objs: Vec<Token> = Vec::new();
        loop
            invariant_except_break
                procedure_scan(self.data(), self.pos(), tokens_view(objs@)) == target,
            invariant
                self.wf(),
                self.data() == old(self).data(),
                old(self).pos() < self.pos(),
                target == procedure_scan(old(self).data(), old(self).pos() + 1, Seq::empty()),
            ensures
                target == (Outcome::Done(TokenView::Procedure(tokens_view(objs@))), self.pos()),
            decreases self.data().len() - self.pos(),
        {
            let ghost c = self.pos();
            proof {
                lemma_next_token(self.data(), c);
            }
            let obj = match self.scan_next() {
                None => {
                    return Step::Failed(Error::new(ErrorKind::SyntaxError, "unterminated procedure"));
                },
                Some(Step::Failed(e)) => {
                    return Step::Failed(e);
                },
                Some(Step::Aborted) => {
                    return Step::Aborted;
                },
                Some(Step::Done(t)) => t,
            };
            if is_close_brace(&obj) {
                break;
            }
            let ghost before = objs@;
            objs.push(obj);
            proof {
                assert(objs@.drop_last() =~= before);
            }
        }
        Step::Done(Token::Procedure(objs))
    }

    /// The next token: `None` at the end of the data, else the token or the error that
    /// reading it raised.
    pub fn next(&mut self) -> (r: Option<crate::error::Result<Token>>)
        requires
            old(self).wf(),
            !(next_token(old(self).data(), old(self).pos()).0 matches Some(Outcome::Aborts)),
        ensures
            final(self).wf(),
            final(self).data() == old(self).data(),
            final(self).pos() == next_token(old(self).data(), old(self).pos()).1,
            next_matches(r, next_token(old(self).data(), old(self).pos()).0),
    {
        match self.scan_next() {
            None => None,
            Some(Step::Done(t)) => Some(Ok(t)),
            Some(Step::Failed(e)) => Some(Err(e)),
            Some(Step::Aborted) => None,
        }
    }

    /// `next`, or `None` (the position unchanged) where reading the token would make the
    /// integer parser or the ASCII85 decoder panic.
    pub fn try_next(&mut self) -> (r: Option<Option<crate::error::Result<Token>>>)
        requires
            old(self).wf(),
        ensures
            final(self).wf(),
            final(self).data() == old(self).data(),
            (next_token(old(self).data(), old(self).pos()).0 matches Some(Outcome::Aborts))
                <==> r is None,
            r is None ==> final(self).pos() == old(self).pos(),
            r is Some ==> final(self).pos() == next_token(old(self).data(), old(self).pos()).1
                && next_matches(r.unwrap(), next_token(old(self).data(), old(self).pos()).0),
    {
        let start = self.input.position();
        match self.scan_next() {
            None => Some(None),
            Some(Step::Done(t)) => Some(Some(Ok(t))),
            Some(Step::Failed(e)) => Some(Some(Err(e))),
            Some(Step::Aborted) => {
                proof {
                    lemma_next_token(old(self).data(), old(self).pos());
                }
                let _ = self.input.seek(SeekFrom::Start(start as u64));
                None
            },
        }
    }
}

/// Whether the token is the name `}` that closes a procedure.
fn is_close_brace(t: &Token) -> (r: bool)
    ensures
        r == (token_view(*t) == TokenView::Name(seq![0x7du8])),
{
    match t {
        Token::Name(n) => {
            let r = n.len() == 1 && n[0] == 0x7d;
            proof {
                if n@.len() == 1 && n@[0] == 0x7d {
                    assert(n@ =~= seq![0x7du8]);
                }
            }
            r
        },
        _ => false,
    }
}

/// `r` is what `o` describes: the end, a token, or an error of that kind.
pub open spec fn next_matches(r: Option<crate::error::Result<Token>>, o: Option<Outcome>) -> bool {
    match (r, o) {
        (None, None) => true,
        (Some(Ok(t)), Some(Outcome::Done(v))) => token_view(t) == v,
        (Some(Err(e)), Some(Outcome::Failed(k))) => e.spec_kind() == k,
        _ => false,
    }
}

/// The UTF-8 bytes of the given characters.
fn utf8_bytes(chars: &Vec<char>) -> (r: Vec<u8>)
    ensures
        r@ == encode_utf8(chars@),
{
    let text = string_from_chars(chars.as_slice());
    bytes_of(text.as_str().as_bytes())
}

/// Whether `s` is the one byte `b`.
fn is_only(s: &Vec<u8>, b: u8) -> (r: bool)
    ensures
        r == (s@ == seq![b]),
{
    let r = s.len() == 1 && s[0] == b;
    proof {
        if s@.len() == 1 && s@[0] == b {
            assert(s@ =~= seq![b]);
        }
    }
    r
}

/// Whether `s` is the byte `b` twice.
fn is_pair(s: &Vec<u8>, b: u8) -> (r: bool)
    ensures
        r == (s@ == seq![b, b]),
{
    let r = s.len() == 2 && s[0] == b && s[1] == b;
    proof {
        if s@.len() == 2 && s@[0] == b && s@[1] == b {
            assert(s@ =~= seq![b, b]);
        }
    }
    r
}

} // verus!
