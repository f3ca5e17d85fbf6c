use vstd::prelude::*;
use vstd::string::StringSliceAdditionalSpecFns;
use vstd::utf8::{encode_utf8, is_ascii_chars, valid_utf8};

use crate::error::{Error, ErrorKind, Result};

verus! {

/// Builds a string of the given characters (std `FromIterator<char> for String`).
#[verifier::external_body]
pub(crate) fn string_from_chars(chars: &[char]) -> (r: String)
    ensures
        r@ == chars@,
{
    chars.iter().collect()
}

/// What std `str::to_uppercase` returns for the given characters.
pub uninterp spec fn str_to_uppercase(s: Seq<char>) -> Seq<char>;

/// ASCII letters made upper case, every other character kept.
pub open spec fn ascii_upper(s: Seq<char>) -> Seq<char> {
    s.map_values(|c: char| if 'a' <= c <= 'z' { ((c as u8) - 32) as char } else { c })
}

/// std `str::to_uppercase`: the upper case of each character, after the Unicode tables;
/// on ASCII text that is the ASCII upper case. What it gives on other text is left unstated.
#[verifier::external_body]
fn to_uppercase(s: &str) -> (r: String)
    ensures
        r@ == str_to_uppercase(s@),
        is_ascii_chars(s@) ==> r@ == ascii_upper(s@),
{
    s.to_uppercase()
}

/// std `str::from_utf8`, reduced to whether it accepts the bytes: it accepts exactly
/// well-formed UTF-8.
#[verifier::external_body]
fn is_utf8(bytes: &[u8]) -> (r: bool)
    ensures
        r == valid_utf8(bytes@),
{
    std::str::from_utf8(bytes).is_ok()
}

// ---------------------------------------------------------------------------
// ASCII85
// ---------------------------------------------------------------------------

/// `p` divided `k` times by 85.
pub open spec fn div85(p: int, k: nat) -> int
    decreases k,
{
    if k == 0 {
        p
    } else {
        div85(p, (k - 1) as nat) / 85
    }
}

/// The base-85 digit of `p` for `85^k`, as the character that stands for it.
pub open spec fn digit85(p: int, k: nat) -> char {
    (div85(p, k) % 85 + 33) as char
}

/// The 32-bit big-endian number that four bytes make.
pub open spec fn be_u32(c: Seq<u8>) -> int {
    c[0] * 16777216 + c[1] * 65536 + c[2] * 256 + c[3]
}

/// The first `n` bytes of `c` (at most four), then zero bytes up to four.
pub open spec fn pad_group4(c: Seq<u8>) -> Seq<u8> {
    c + Seq::new((4 - c.len()) as nat, |i: int| 0u8)
}

/// Encodes a group of four bytes: the highest digit, then, for each byte that is not
/// zero, the digit in its position.
pub open spec fn encode_group85(c: Seq<u8>) -> Seq<char> {
    let p = be_u32(c);
    seq![digit85(p, 4)] + (if c[0] != 0 {
        seq![digit85(p, 3)]
    } else {
        Seq::empty()
    }) + (if c[1] != 0 {
        seq![digit85(p, 2)]
    } else {
        Seq::empty()
    }) + (if c[2] != 0 {
        seq![digit85(p, 1)]
    } else {
        Seq::empty()
    }) + (if c[3] != 0 {
        seq![digit85(p, 0)]
    } else {
        Seq::empty()
    })
}

/// The start of the last group of `len` items in groups of `g`.
pub open spec fn last_group_start(len: int, g: int) -> int {
    ((len - 1) / g) * g
}

/// ASCII85 encoding of `b`: each group of four bytes (the last one padded with zeros)
/// in turn.
pub open spec fn encode85(b: Seq<u8>) -> Seq<char>
    decreases b.len(),
{
    if b.len() == 0 {
        Seq::empty()
    } else {
        let m = last_group_start(b.len() as int, 4);
        encode85(b.take(m)) + encode_group85(pad_group4(b.skip(m)))
    }
}

/// The value of an ASCII85 digit character (characters below `!` count as `!`).
pub open spec fn value85(ch: u8) -> int {
    if ch < 33 {
        0
    } else {
        ch - 33
    }
}

/// The number that a group of five digit characters makes.
pub open spec fn group_value85(c: Seq<u8>) -> int {
    value85(c[0]) * 52200625 + value85(c[1]) * 614125 + value85(c[2]) * 7225 + value85(c[3]) * 85
        + value85(c[4])
}

/// The first `n` characters of `c` (at most five), then `u` up to five.
pub open spec fn pad_group5(c: Seq<u8>) -> Seq<u8> {
    c + Seq::new((5 - c.len()) as nat, |i: int| 117u8)
}

/// The four characters, one per byte, of the 32-bit big-endian number `v`.
pub open spec fn be_chars(v: u32) -> Seq<char> {
    seq![
        ((v >> 24u32) & 0xffu32) as u8 as char,
        ((v >> 16u32) & 0xffu32) as u8 as char,
        ((v >> 8u32) & 0xffu32) as u8 as char,
        (v & 0xffu32) as u8 as char,
    ]
}

/// Whether every group of five characters of `e` (the last one padded with `u`) makes a
/// number that fits in 32 bits.
pub open spec fn fits85(e: Seq<u8>) -> bool
    decreases e.len(),
{
    if e.len() == 0 {
        true
    } else {
        let m = last_group_start(e.len() as int, 5);
        fits85(e.take(m)) && group_value85(pad_group5(e.skip(m))) <= u32::MAX
    }
}

/// Each group of five characters of `e` (the last padded with `u`) decoded to four
/// characters.
pub open spec fn decode85_groups(e: Seq<u8>) -> Seq<char>
    decreases e.len(),
{
    if e.len() == 0 {
        Seq::empty()
    } else {
        let m = last_group_start(e.len() as int, 5);
        decode85_groups(e.take(m)) + be_chars(group_value85(pad_group5(e.skip(m))) as u32)
    }
}

/// ASCII85 decoding of `e`: the decoded groups, less one character per character that
/// the last group lacks.
pub open spec fn decode85(e: Seq<u8>) -> Seq<char> {
    let d = decode85_groups(e);
    if e.len() % 5 == 0 {
        d
    } else {
        d.take(d.len() - (5 - e.len() % 5))
    }
}

fn fill_buffer(buf: &mut Vec<u8>, ch: u8)
    ensures
        final(buf)@ == Seq::new(old(buf)@.len(), |i: int| ch),
{
    let mut i: usize = 0;
    while i < buf.len()
        invariant
            i <= buf@.len(),
            buf@.len() == old(buf)@.len(),
            forall|j: int| 0 <= j < i ==> buf@[j] == ch,
        decreases buf.len() - i,
    {
        buf.set(i, ch);
        i = i + 1;
    }
    assert(buf@ =~= Seq::new(old(buf)@.len(), |i: int| ch));
}

/// Encodes one group of four bytes.
fn encode_chunk85(chunk: &Vec<u8>, out: &mut Vec<char>) -> (r: Result<()>)
    requires
        chunk@.len() == 4,
    ensures
        r.is_ok(),
        final(out)@ == old(out)@ + encode_group85(chunk@),
{
    let pattern: u32 = ((((((chunk[0] as u32) << 8u32) | chunk[1] as u32) << 8u32) | chunk[2] as u32)
        << 8u32) | chunk[3] as u32;
    proof {
        let (c0, c1, c2, c3) = (chunk@[0], chunk@[1], chunk@[2], chunk@[3]);
        assert(((((((c0 as u32) << 8u32) | c1 as u32) << 8u32) | c2 as u32) << 8u32) | c3 as u32
            == c0 as u32 * 16777216 + c1 as u32 * 65536 + c2 as u32 * 256 + c3 as u32)
            by (bit_vector);
    }
    let ghost p = pattern as int;
    let mut digits: Vec<char> = Vec::new();
    let mut rest: u32 = pattern;
    let mut i: u32 = 1;
    while i <= 5
        invariant
            1 <= i <= 6,
            p == be_u32(chunk@),
            rest == div85(p, (i - 1) as nat),
            digits@.len() == i - 1,
            forall|k: int| 0 <= k < i - 1 ==> digits@[k] == digit85(p, k as nat),
        decreases 6 - i,
    {
        let ascii_ch: u32 = (rest % 85) + 33;
        if !(33 <= ascii_ch && ascii_ch <= 117) {
            return Err(Error::new(ErrorKind::SyntaxError, "received unprintable character"));
        }
        digits.push(ascii_ch as u8 as char);
        rest = rest / 85;
        i = i + 1;
    }
    out.push(digits[4]);
    if chunk[0] != 0 {
        out.push(digits[3]);
    }
    if chunk[1] != 0 {
        out.push(digits[2]);
    }
    if chunk[2] != 0 {
        out.push(digits[1]);
    }
    if chunk[3] != 0 {
        out.push(digits[0]);
    }
    proof {
        reveal(encode_group85);
    }
    assert(final(out)@ =~= old(out)@ + encode_group85(chunk@));
    Ok(())
}

/// ASCII85-encodes the bytes of `raw`; a group that ends in zero bytes keeps only the
/// digits that the bytes before them need.
pub fn encode_ascii85(raw: &str) -> (r: Result<String>)
    ensures
        r matches Ok(s) && s@ == encode85(raw.spec_bytes()),
{
    let bytes = raw.as_bytes();
    let ghost b = bytes@;
    let len = bytes.len();
    let mut encoded: Vec<char> = Vec::new();
    let mut g: usize = 0;
    while g < len
        invariant
            b == bytes@,
            len == b.len(),
            g <= len,
            g % 4 == 0 || g == len,
            encoded@ == encode85(b.take(g as int)),
        decreases len - g,
    {
        let end = if len - g < 4 {
            len
        } else {
            g + 4
        };
        let mut chunk: Vec<u8> = Vec::new();
        let mut k: usize = 0;
        while k < 4
            invariant
                b == bytes@,
                len == b.len(),
                g < end <= len,
                end <= g + 4,
                k <= 4,
                chunk@ == pad_group4(b.subrange(g as int, end as int)).take(k as int),
            decreases 4 - k,
        {
            let ch = if k < end - g {
                bytes[g + k]
            } else {
                0u8
            };
            chunk.push(ch);
            assert(chunk@ =~= pad_group4(b.subrange(g as int, end as int)).take(k + 1));
            k = k + 1;
        }
        proof {
            assert(chunk@ =~= pad_group4(b.subrange(g as int, end as int)));
            lemma_encode85_step(b, g as int, end as int);
        }
        let res = encode_chunk85(&chunk, &mut encoded);
        g = end;
    }
    proof {
        assert(b.take(len as int) =~= b);
    }
    Ok(string_from_chars(encoded.as_slice()))
}

/// Decodes one group of five digit characters.
fn decode_chunk85(chunk: &Vec<u8>, out: &mut Vec<char>)
    requires
        chunk@.len() == 5,
        group_value85(chunk@) <= u32::MAX,
    ensures
        final(out)@ == old(out)@ + be_chars(group_value85(chunk@) as u32),
{
    let d0: u64 = if chunk[0] < 33 { 0 } else { (chunk[0] - 33) as u64 };
    let d1: u64 = if chunk[1] < 33 { 0 } else { (chunk[1] - 33) as u64 };
    let d2: u64 = if chunk[2] < 33 { 0 } else { (chunk[2] - 33) as u64 };
    let d3: u64 = if chunk[3] < 33 { 0 } else { (chunk[3] - 33) as u64 };
    let d4: u64 = if chunk[4] < 33 { 0 } else { (chunk[4] - 33) as u64 };
    let total: u64 = d0 * 52200625 + d1 * 614125 + d2 * 7225 + d3 * 85 + d4;
    let pattern: u32 = total as u32;
    out.push(((pattern >> 24u32) & 0xffu32) as u8 as char);
    out.push(((pattern >> 16u32) & 0xffu32) as u8 as char);
    out.push(((pattern >> 8u32) & 0xffu32) as u8 as char);
    out.push((pattern & 0xffu32) as u8 as char);
    assert(final(out)@ =~= old(out)@ + be_chars(group_value85(chunk@) as u32));
}

/// ASCII85-decodes the bytes of `encoded` to one character per decoded byte.
pub fn decode_ascii85(encoded: &str) -> (r: Result<String>)
    requires
        fits85(encoded.spec_bytes()),
    ensures
        r matches Ok(s) && s@ == decode85(encoded.spec_bytes()),
{
    let bytes = encoded.as_bytes();
    let ghost e = bytes@;
    let len = bytes.len();
    let mut decoded: Vec<char> = Vec::new();
    let mut g: usize = 0;
    while g < len
        invariant
            e == bytes@,
            len == e.len(),
            g <= len,
            g % 5 == 0 || g == len,
            fits85(e),
            decoded@ == decode85_groups(e.take(g as int)),
        decreases len - g,
    {
        let end = if len - g < 5 {
            len
        } else {
            g + 5
        };
        let mut chunk: Vec<u8> = Vec::new();
        let mut k: usize = 0;
        while k < 5
            invariant
                e == bytes@,
                len == e.len(),
                g < end <= len,
                end <= g + 5,
                k <= 5,
                chunk@ == pad_group5(e.subrange(g as int, end as int)).take(k as int),
            decreases 5 - k,
        {
            let ch = if k < end - g {
                bytes[g + k]
            } else {
                117u8
            };
            chunk.push(ch);
            assert(chunk@ =~= pad_group5(e.subrange(g as int, end as int)).take(k + 1));
            k = k + 1;
        }
        proof {
            assert(chunk@ =~= pad_group5(e.subrange(g as int, end as int)));
            lemma_decode85_step(e, g as int, end as int);
            lemma_fits85_prefix(e, end as int);
        }
        decode_chunk85(&chunk, &mut decoded);
        g = end;
    }
    proof {
        assert(e.take(len as int) =~= e);
    }
    let pad_amount = 5 - (len % 5);
    if pad_amount != 5 {
        proof {
            lemma_decode85_groups_len(e);
        }
        decoded.truncate(decoded.len() - pad_amount);
    }
    Ok(string_from_chars(decoded.as_slice()))
}

/// Encoding up to the end of a group adds that group's encoding.
proof fn lemma_encode85_step(b: Seq<u8>, g: int, end: int)
    requires
        0 <= g < end <= b.len(),
        g % 4 == 0,
        end <= g + 4,
    ensures
        encode85(b.take(end)) == encode85(b.take(g)) + encode_group85(
            pad_group4(b.subrange(g, end)),
        ),
{
    let t = b.take(end);
    assert(last_group_start(end, 4) == g);
    assert(t.take(g) =~= b.take(g));
    assert(t.skip(g) =~= b.subrange(g, end));
}

/// Decoding up to the end of a group adds that group's four characters.
pub(crate) proof fn lemma_decode85_step(e: Seq<u8>, g: int, end: int)
    requires
        0 <= g < end <= e.len(),
        g % 5 == 0,
        end <= g + 5,
    ensures
        decode85_groups(e.take(end)) == decode85_groups(e.take(g)) + be_chars(
            group_value85(pad_group5(e.subrange(g, end))) as u32,
        ),
        last_group_start(end, 5) == g,
        e.take(end).skip(g) == e.subrange(g, end),
{
    let t = e.take(end);
    assert(last_group_start(end, 5) == g);
    assert(t.take(g) =~= e.take(g));
    assert(t.skip(g) =~= e.subrange(g, end));
}

/// Every prefix of a sequence whose groups fit ends at a group boundary whose groups fit.
pub(crate) proof fn lemma_fits85_prefix(e: Seq<u8>, n: int)
    requires
        fits85(e),
        0 < n <= e.len(),
        n % 5 == 0 || n == e.len(),
    ensures
        fits85(e.take(n)),
        group_value85(pad_group5(e.take(n).skip(last_group_start(n, 5)))) <= u32::MAX,
    decreases e.len(),
{
    if n == e.len() {
        assert(e.take(n) =~= e);
    } else {
        let m = last_group_start(e.len() as int, 5);
        assert(n <= m);
        assert(e.take(m).take(n) =~= e.take(n));
        if n < m || n == m {
            lemma_fits85_prefix(e.take(m), n);
        }
    }
}

/// The decoded groups hold four characters per group.
proof fn lemma_decode85_groups_len(e: Seq<u8>)
    ensures
        decode85_groups(e).len() == 4 * ((e.len() + 4) / 5),
    decreases e.len(),
{
    if e.len() > 0 {
        let m = last_group_start(e.len() as int, 5);
        lemma_decode85_groups_len(e.take(m));
    }
}

// ---------------------------------------------------------------------------
// Hexadecimal
// ---------------------------------------------------------------------------

/// The upper-case hexadecimal digit for `d` below 16.
pub open spec fn hex_char(d: int) -> char {
    if d < 10 {
        (48 + d) as char
    } else {
        (55 + d) as char
    }
}

/// The upper-case hexadecimal form of a byte, without a leading zero.
pub open spec fn hex_byte(b: u8) -> Seq<char> {
    if b < 16 {
        seq![hex_char(b as int)]
    } else {
        seq![hex_char((b / 16) as int), hex_char((b % 16) as int)]
    }
}

/// The hexadecimal forms of the bytes of `b`, one after the other.
pub open spec fn encode_hex_spec(b: Seq<u8>) -> Seq<char>
    decreases b.len(),
{
    if b.len() == 0 {
        Seq::empty()
    } else {
        encode_hex_spec(b.drop_last()) + hex_byte(b.last())
    }
}

fn hex_digit_char(d: u8) -> (r: char)
    requires
        d < 16,
    ensures
        r == hex_char(d as int),
{
    if d < 10 {
        (48 + d) as char
    } else {
        (55 + d) as char
    }
}

/// Writes each byte of `s` as upper-case hexadecimal digits, a byte below 16 as one digit.
pub fn encode_hex(s: &str) -> (r: Result<String>)
    ensures
        r matches Ok(e) && e@ == encode_hex_spec(s.spec_bytes()),
{
    let bytes = s.as_bytes();
    let mut encoded: Vec<char> = Vec::new();
    let mut i: usize = 0;
    while i < bytes.len()
        invariant
            i <= bytes@.len(),
            encoded@ == encode_hex_spec(bytes@.take(i as int)),
        decreases bytes.len() - i,
    {
        let ch = bytes[i];
        if ch >= 16 {
            encoded.push(hex_digit_char(ch / 16));
        }
        encoded.push(hex_digit_char(ch % 16));
        assert(bytes@.take(i + 1).drop_last() =~= bytes@.take(i as int));
        i = i + 1;
    }
    assert(bytes@.take(bytes@.len() as int) =~= bytes@);
    Ok(string_from_chars(encoded.as_slice()))
}

/// The value of a hexadecimal digit (either case).
pub open spec fn hex_value(c: u8) -> Option<int> {
    if 48 <= c <= 57 {
        Some(c - 48)
    } else if 65 <= c <= 70 {
        Some(c - 55)
    } else if 97 <= c <= 102 {
        Some(c - 87)
    } else {
        None
    }
}

/// std `u8::from_str_radix(_, 16)` on the text of two ASCII bytes: an optional `+`
/// sign, then hexadecimal digits.
pub open spec fn parse_hex_pair(c0: u8, c1: u8) -> Option<u8> {
    if c0 == 43 {
        match hex_value(c1) {
            Some(v) => Some(v as u8),
            None => None,
        }
    } else {
        match (hex_value(c0), hex_value(c1)) {
            (Some(h), Some(l)) => Some((h * 16 + l) as u8),
            _ => None,
        }
    }
}

/// What a chunk of two bytes decodes to: nothing when the bytes are not UTF-8, a
/// character when they are two ASCII bytes that read as a hexadecimal number, and an error
/// (`None`) otherwise.
pub open spec fn hex_chunk(c0: u8, c1: u8) -> Option<Seq<char>> {
    if !valid_utf8(seq![c0, c1]) {
        Some(Seq::empty())
    } else if c0 < 128 && c1 < 128 {
        match parse_hex_pair(c0, c1) {
            Some(v) => Some(seq![v as char]),
            None => None,
        }
    } else {
        None
    }
}

/// The state of hex decoding after the first `i` bytes of the upper-cased text `u`
/// (whose original length is `n`): the pending chunk, the characters decoded, and whether
/// decoding failed. A chunk is decoded after each second byte, or after byte `n - 1`,
/// where a missing second byte counts as `0`.
pub open spec fn hex_scan(u: Seq<u8>, n: int, i: int) -> (u8, u8, Seq<char>, bool)
    decreases i,
{
    if i <= 0 {
        (0, 0, Seq::empty(), false)
    } else {
        let (c0, c1, out, failed) = hex_scan(u, n, i - 1);
        if failed {
            (c0, c1, out, true)
        } else {
            let j = i - 1;
            let c0 = if j % 2 == 0 {
                u[j]
            } else {
                c0
            };
            let c1 = if j % 2 == 1 {
                u[j]
            } else {
                c1
            };
            if j % 2 == 1 || j + 1 == n {
                let c1 = if j + 1 == n && c1 == 0 {
                    48u8
                } else {
                    c1
                };
                match hex_chunk(c0, c1) {
                    Some(s) => (0, 0, out + s, false),
                    None => (c0, c1, out, true),
                }
            } else {
                (c0, c1, out, false)
            }
        }
    }
}

fn hex_digit_value(c: u8) -> (r: Option<u8>)
    ensures
        r matches Some(v) ==> hex_value(c) == Some(v as int),
        r is None ==> hex_value(c) is None,
{
    if 48 <= c && c <= 57 {
        Some(c - 48)
    } else if 65 <= c && c <= 70 {
        Some(c - 55)
    } else if 97 <= c && c <= 102 {
        Some(c - 87)
    } else {
        None
    }
}

fn decode_hex_chunk(c0: u8, c1: u8) -> (r: Option<Option<char>>)
    ensures
        r matches Some(Some(ch)) ==> hex_chunk(c0, c1) == Some(seq![ch]),
        r matches Some(None) ==> hex_chunk(c0, c1) == Some(Seq::<char>::empty()),
        r is None ==> hex_chunk(c0, c1) is None,
{
    let mut pair: Vec<u8> = Vec::new();
    pair.push(c0);
    pair.push(c1);
    assert(pair@ =~= seq![c0, c1]);
    if !is_utf8(pair.as_slice()) {
        return Some(None);
    }
    if c0 >= 128 || c1 >= 128 {
        return None;
    }
    if c0 == 43 {
        match hex_digit_value(c1) {
            Some(v) => Some(Some(v as char)),
            None => None,
        }
    } else {
        match (hex_digit_value(c0), hex_digit_value(c1)) {
            (Some(h), Some(l)) => Some(Some((h * 16 + l) as char)),
            _ => None,
        }
    }
}

/// Decodes hexadecimal text (of either case) two digits at a time; an odd last digit
/// stands for its value times 16.
pub fn decode_hex(encoded: &str) -> (r: Result<String>)
    ensures
        ({
            let u = str_to_uppercase(encoded@);
            let st = hex_scan(encode_utf8(u), encoded.spec_bytes().len() as int, encode_utf8(u).len() as int);
            &&& st.3 ==> (r matches Err(e) && e.spec_kind() == ErrorKind::SyntaxError)
            &&& !st.3 ==> (r matches Ok(s) && s@ == st.2)
        }),
        is_ascii_chars(encoded@) ==> ({
            let u = ascii_upper(encoded@);
            let st = hex_scan(encode_utf8(u), encoded.spec_bytes().len() as int, encode_utf8(u).len() as int);
            &&& st.3 ==> (r matches Err(e) && e.spec_kind() == ErrorKind::SyntaxError)
            &&& !st.3 ==> (r matches Ok(s) && s@ == st.2)
        }),
{
    let upper = to_uppercase(encoded);
    let upper_str = upper.as_str();
    let bytes = upper_str.as_bytes();
    assert(bytes@ == encode_utf8(upper_str@));
    let ghost u = bytes@;
    let n = encoded.as_bytes().len();
    let mut decoded: Vec<char> = Vec::new();
    let mut c0: u8 = 0;
    let mut c1: u8 = 0;
    let mut i: usize = 0;
    while i < bytes.len()
        invariant
            u == bytes@,
            u == encode_utf8(str_to_uppercase(encoded@)),
            is_ascii_chars(encoded@) ==> str_to_uppercase(encoded@) == ascii_upper(encoded@),
            n == encoded.spec_bytes().len(),
            i <= u.len(),
            hex_scan(u, n as int, i as int) == (c0, c1, decoded@, false),
        decreases bytes.len() - i,
    {
        let chunk_index = i % 2;
        if chunk_index == 0 {
            c0 = bytes[i];
        } else {
            c1 = bytes[i];
        }
        let is_last = i + 1 == n;
        if chunk_index == 1 || is_last {
            if is_last && c1 == 0 {
                c1 = 48;
            }
            match decode_hex_chunk(c0, c1) {
                None => {
                    proof {
                        lemma_hex_scan_failed(u, n as int, i + 1, u.len() as int);
                        assert(u == encode_utf8(str_to_uppercase(encoded@)));
                    }
                    return Err(Error::from(ErrorKind::SyntaxError));
                },
                Some(Some(ch)) => {
                    decoded.push(ch);
                },
                Some(None) => {},
            }
            assert(decoded@ =~= hex_scan(u, n as int, i + 1).2);
            c0 = 0;
            c1 = 0;
        }
        i = i + 1;
    }
    proof {
        assert(u == encode_utf8(str_to_uppercase(encoded@)));
    }
    Ok(string_from_chars(decoded.as_slice()))
}

/// Once hex decoding has failed it stays failed.
proof fn lemma_hex_scan_failed(u: Seq<u8>, n: int, i: int, j: int)
    requires
        0 <= i <= j,
        hex_scan(u, n, i).3,
    ensures
        hex_scan(u, n, j).3,
    decreases j - i,
{
    if i < j {
        lemma_hex_scan_failed(u, n, i, j - 1);
    }
}

} // verus!
