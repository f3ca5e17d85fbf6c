use vstd::prelude::*;
use vstd::utf8::{
    encode_utf8, encode_utf8_valid_utf8, is_ascii_chars, is_ascii_chars_encode_utf8, valid_utf8,
};

use crate::ascii85::{byte_chars, char_bytes};
use crate::encoding::{
    ascii_upper, encode_hex_spec, hex_byte, hex_char, hex_chunk, hex_scan, hex_value,
    parse_hex_pair,
};

verus! {

/// Every byte is at least 16, so it has two hexadecimal digits.
pub open spec fn two_digit_bytes(b: Seq<u8>) -> bool {
    forall|i: int| 0 <= i < b.len() ==> b[i] >= 16
}

/// The hexadecimal form of bytes of two digits each: two upper-case digits per byte.
proof fn lemma_encode_hex_layout(b: Seq<u8>)
    requires
        two_digit_bytes(b),
    ensures
        encode_hex_spec(b).len() == 2 * b.len(),
        forall|k: int|
            0 <= k < b.len() ==> encode_hex_spec(b)[2 * k] == hex_char((b[k] / 16) as int)
                && encode_hex_spec(b)[2 * k + 1] == hex_char((b[k] % 16) as int),
    decreases b.len(),
{
    if b.len() > 0 {
        let h = b.drop_last();
        lemma_encode_hex_layout(h);
        let e = encode_hex_spec(b);
        assert(e == encode_hex_spec(h) + hex_byte(b.last()));
        assert forall|k: int| 0 <= k < b.len() implies e[2 * k] == hex_char((b[k] / 16) as int)
            && e[2 * k + 1] == hex_char((b[k] % 16) as int) by {
            if k < h.len() {
                assert(b[k] == h[k]);
            }
        }
    }
}

/// A hexadecimal digit character is an ASCII upper-case digit whose byte reads back as
/// its value.
proof fn lemma_hex_char(d: int)
    requires
        0 <= d < 16,
    ensures
        '\0' <= hex_char(d) <= '\u{7f}',
        !('a' <= hex_char(d) <= 'z'),
        hex_value(hex_char(d) as u8) == Some(d),
        hex_char(d) as u8 != 43,
        hex_char(d) as u8 != 0,
{
}

/// Two hexadecimal digit bytes decode to the byte they stand for.
proof fn lemma_hex_pair(x: u8)
    requires
        x >= 16,
    ensures
        hex_chunk(hex_char((x / 16) as int) as u8, hex_char((x % 16) as int) as u8) == Some(
            seq![x as char],
        ),
{
    let c0 = hex_char((x / 16) as int) as u8;
    let c1 = hex_char((x % 16) as int) as u8;
    lemma_hex_char((x / 16) as int);
    lemma_hex_char((x % 16) as int);
    let cs = seq![c0 as char, c1 as char];
    assert(is_ascii_chars(cs));
    is_ascii_chars_encode_utf8(cs);
    assert(encode_utf8(cs) =~= seq![c0, c1]);
    encode_utf8_valid_utf8(cs);
    assert(valid_utf8(seq![c0, c1]));
    assert(parse_hex_pair(c0, c1) == Some(x));
}

/// The lower-case hexadecimal digit for `d` below 16.
pub open spec fn lower_hex_char(d: int) -> char {
    if d < 10 {
        (48 + d) as char
    } else {
        (87 + d) as char
    }
}

/// Every pair of hexadecimal digits, upper or lower case, decodes to the byte it stands
/// for: the digits of `h` and `l` (each below 16) give the byte `16 h + l`, `h = 0`
/// included.
pub proof fn lemma_hex_digit_pair(h: int, l: int)
    requires
        0 <= h < 16,
        0 <= l < 16,
    ensures
        parse_hex_pair(hex_char(h) as u8, hex_char(l) as u8) == Some((h * 16 + l) as u8),
        hex_chunk(hex_char(h) as u8, hex_char(l) as u8) == Some(seq![(h * 16 + l) as char]),
        parse_hex_pair(lower_hex_char(h) as u8, lower_hex_char(l) as u8) == Some(
            (h * 16 + l) as u8,
        ),
        hex_chunk(lower_hex_char(h) as u8, lower_hex_char(l) as u8) == Some(
            seq![(h * 16 + l) as char],
        ),
{
    lemma_ascii_pair_utf8(hex_char(h) as u8, hex_char(l) as u8);
    lemma_ascii_pair_utf8(lower_hex_char(h) as u8, lower_hex_char(l) as u8);
    assert(0 <= h * 16 + l < 256);
}

/// Two ASCII bytes are valid UTF-8.
proof fn lemma_ascii_pair_utf8(c0: u8, c1: u8)
    requires
        c0 < 128,
        c1 < 128,
    ensures
        valid_utf8(seq![c0, c1]),
{
    let cs = seq![c0 as char, c1 as char];
    assert(is_ascii_chars(cs));
    is_ascii_chars_encode_utf8(cs);
    assert(encode_utf8(cs) =~= seq![c0, c1]);
    encode_utf8_valid_utf8(cs);
}

/// Decoding the first `2k` bytes of the hexadecimal form gives the first `k` bytes.
proof fn lemma_hex_scan_prefix(b: Seq<u8>, u: Seq<u8>, k: int)
    requires
        two_digit_bytes(b),
        u.len() == 2 * b.len(),
        forall|j: int|
            0 <= j < b.len() ==> u[2 * j] == hex_char((b[j] / 16) as int) as u8 && u[2 * j + 1]
                == hex_char((b[j] % 16) as int) as u8,
        0 <= k <= b.len(),
    ensures
        hex_scan(u, u.len() as int, 2 * k) == (0u8, 0u8, byte_chars(b.take(k)), false),
    decreases k,
{
    if k == 0 {
        assert(byte_chars(b.take(0)) =~= Seq::<char>::empty());
    } else {
        lemma_hex_scan_prefix(b, u, k - 1);
        let x = b[k - 1];
        lemma_hex_pair(x);
        lemma_hex_char((x % 16) as int);
        let n = u.len() as int;
        assert(hex_scan(u, n, 2 * k - 1) == (u[2 * k - 2], 0u8, byte_chars(b.take(k - 1)), false));
        assert(byte_chars(b.take(k)) =~= byte_chars(b.take(k - 1)) + seq![x as char]);
    }
}

/// Hexadecimal round trip: bytes of at least 16 each, written as hexadecimal and read
/// back, come back as one character per byte; the text is ASCII and upper case already,
/// so upper-casing it and taking its UTF-8 bytes changes nothing.
pub proof fn lemma_hex_round_trip(b: Seq<u8>)
    requires
        two_digit_bytes(b),
    ensures
        is_ascii_chars(encode_hex_spec(b)),
        ascii_upper(encode_hex_spec(b)) == encode_hex_spec(b),
        encode_utf8(encode_hex_spec(b)) == char_bytes(encode_hex_spec(b)),
        encode_hex_spec(b).len() == 2 * b.len(),
        hex_scan(
            char_bytes(encode_hex_spec(b)),
            2 * b.len() as int,
            2 * b.len() as int,
        ) == (0u8, 0u8, byte_chars(b), false),
{
    lemma_encode_hex_layout(b);
    let e = encode_hex_spec(b);
    assert forall|i: int| 0 <= i < e.len() implies '\0' <= #[trigger] e[i] <= '\u{7f}' && !(
    'a' <= e[i] <= 'z') by {
        let k = i / 2;
        assert(0 <= k < b.len());
        lemma_hex_char((b[k] / 16) as int);
        lemma_hex_char((b[k] % 16) as int);
        if i % 2 == 0 {
            assert(i == 2 * k);
        } else {
            assert(i == 2 * k + 1);
        }
    }
    assert(ascii_upper(e) =~= e);
    is_ascii_chars_encode_utf8(e);
    assert(encode_utf8(e) =~= char_bytes(e));
    let u = char_bytes(e);
    lemma_hex_scan_prefix(b, u, b.len() as int);
    assert(b.take(b.len() as int) =~= b);
}

} // verus!
