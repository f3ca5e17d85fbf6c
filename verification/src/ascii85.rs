use vstd::prelude::*;
use vstd::string::StringSliceAdditionalSpecFns;

use vstd::utf8::{encode_utf8, is_ascii_chars, is_ascii_chars_encode_utf8};

use crate::encoding::{
    be_chars, be_u32, decode85, decode85_groups, digit85, div85, encode85, encode_group85, fits85,
    group_value85, last_group_start, lemma_decode85_step, lemma_fits85_prefix, pad_group4,
    pad_group5, value85,
};

verus! {

/// Whether every group of five characters of `encoded` (the last padded with `u`) makes
/// a number that fits in 32 bits, as `decode_ascii85` needs.
pub fn ascii85_fits(encoded: &str) -> (r: bool)
    ensures
        r == fits85(encoded.spec_bytes()),
{
    let bytes = encoded.as_bytes();
    let ghost e = bytes@;
    let len = bytes.len();
    let mut g: usize = 0;
    while g < len
        invariant
            e == bytes@,
            len == e.len(),
            g <= len,
            g % 5 == 0 || g == len,
            e == encoded.spec_bytes(),
            fits85(e.take(g as int)),
        decreases len - g,
    {
        let end = if len - g < 5 {
            len
        } else {
            g + 5
        };
        let mut total: u64 = 0;
        let mut k: usize = 0;
        while k < 5
            invariant
                e == bytes@,
                len == e.len(),
                g < end <= len,
                end <= g + 5,
                k <= 5,
                total == partial_value85(pad_group5(e.subrange(g as int, end as int)), k as int),
                total <= 13311159372,
            decreases 5 - k,
        {
            let ch = if k < end - g {
                bytes[g + k]
            } else {
                117u8
            };
            let digit: u64 = if ch < 33 {
                0
            } else {
                (ch - 33) as u64
            };
            proof {
                assert(pad_group5(e.subrange(g as int, end as int))[k as int] == ch);
                lemma_partial_value85_bound(pad_group5(e.subrange(g as int, end as int)), k + 1);
            }
            total = total * 85 + digit;
            k = k + 1;
        }
        proof {
            lemma_partial_value85_full(pad_group5(e.subrange(g as int, end as int)));
            lemma_fits85_step(e, g as int, end as int);
        }
        if total > 4294967295 {
            proof {
                lemma_fits85_fail(e, g as int, end as int);
            }
            return false;
        }
        g = end;
    }
    proof {
        assert(e.take(len as int) =~= e);
    }
    true
}

/// The number the first `k` characters of a group make, most significant first.
pub open spec fn partial_value85(c: Seq<u8>, k: int) -> int
    decreases k,
{
    if k <= 0 {
        0
    } else {
        partial_value85(c, k - 1) * 85 + value85(c[k - 1])
    }
}

proof fn lemma_partial_value85_bound(c: Seq<u8>, k: int)
    requires
        0 <= k <= 5,
    ensures
        0 <= partial_value85(c, k) <= 3 * pow85(k) - 3,
        pow85(k) <= 4437053125,
    decreases k,
{
    reveal_with_fuel(pow85, 6);
    if k > 0 {
        lemma_partial_value85_bound(c, k - 1);
        let p = partial_value85(c, k - 1);
        let v = value85(c[k - 1]);
        assert(0 <= v <= 222);
        assert(p * 85 + v <= 3 * pow85(k) - 3) by (nonlinear_arith)
            requires
                0 <= p <= 3 * pow85(k - 1) - 3,
                0 <= v <= 222,
                pow85(k) == pow85(k - 1) * 85,
        ;
    }
}

/// A group whose number does not fit spoils the whole sequence.
proof fn lemma_fits85_fail(e: Seq<u8>, g: int, end: int)
    requires
        0 <= g < end <= e.len(),
        g % 5 == 0,
        end <= g + 5,
        end == g + 5 || end == e.len(),
        group_value85(pad_group5(e.subrange(g, end))) > u32::MAX,
    ensures
        !fits85(e),
{
    lemma_fits85_step(e, g, end);
    if fits85(e) {
        lemma_fits85_prefix(e, end);
    }
}

/// A group of five characters is decoded in turn: the prefix up to its end fits exactly
/// when the prefix before it fits and the group's number fits.
proof fn lemma_fits85_step(e: Seq<u8>, g: int, end: int)
    requires
        0 <= g < end <= e.len(),
        g % 5 == 0,
        end <= g + 5,
    ensures
        fits85(e.take(end)) == (fits85(e.take(g)) && group_value85(
            pad_group5(e.subrange(g, end)),
        ) <= u32::MAX),
{
    lemma_decode85_step(e, g, end);
    assert(e.take(end).take(g) =~= e.take(g));
}

/// 85 to the power `k`.
pub open spec fn pow85(k: int) -> int
    decreases k,
{
    if k <= 0 {
        1
    } else {
        pow85(k - 1) * 85
    }
}

proof fn lemma_partial_value85_full(c: Seq<u8>)
    requires
        c.len() == 5,
    ensures
        partial_value85(c, 5) == group_value85(c),
{
    reveal_with_fuel(partial_value85, 6);
}


/// Characters as bytes, one each.
pub open spec fn char_bytes(cs: Seq<char>) -> Seq<u8> {
    cs.map_values(|c: char| c as u8)
}

/// Bytes as characters, one each.
pub open spec fn byte_chars(b: Seq<u8>) -> Seq<char> {
    b.map_values(|x: u8| x as char)
}

/// No byte is zero.
pub open spec fn no_nul(b: Seq<u8>) -> bool {
    forall|i: int| 0 <= i < b.len() ==> b[i] != 0
}

/// A number below `85^5` is the sum of its base-85 digits times their places.
proof fn lemma_digits85(p: int)
    requires
        0 <= p < 4437053125,
    ensures
        p == (div85(p, 4) % 85) * 52200625 + (div85(p, 3) % 85) * 614125 + (div85(p, 2) % 85)
            * 7225 + (div85(p, 1) % 85) * 85 + div85(p, 0) % 85,
        0 <= div85(p, 0) % 85 < 85,
        0 <= div85(p, 1) % 85 < 85,
        0 <= div85(p, 2) % 85 < 85,
        0 <= div85(p, 3) % 85 < 85,
        0 <= div85(p, 4) % 85 < 85,
{
    let q0 = div85(p, 0);
    let q1 = div85(p, 1);
    let q2 = div85(p, 2);
    let q3 = div85(p, 3);
    let q4 = div85(p, 4);
    let q5 = q4 / 85;
    assert(q1 == q0 / 85 && q2 == q1 / 85 && q3 == q2 / 85 && q4 == q3 / 85);
    vstd::arithmetic::div_mod::lemma_fundamental_div_mod(q0, 85);
    vstd::arithmetic::div_mod::lemma_fundamental_div_mod(q1, 85);
    vstd::arithmetic::div_mod::lemma_fundamental_div_mod(q2, 85);
    vstd::arithmetic::div_mod::lemma_fundamental_div_mod(q3, 85);
    vstd::arithmetic::div_mod::lemma_fundamental_div_mod(q4, 85);
    vstd::arithmetic::div_mod::lemma_mod_bound(q0, 85);
    vstd::arithmetic::div_mod::lemma_mod_bound(q1, 85);
    vstd::arithmetic::div_mod::lemma_mod_bound(q2, 85);
    vstd::arithmetic::div_mod::lemma_mod_bound(q3, 85);
    vstd::arithmetic::div_mod::lemma_mod_bound(q4, 85);
    vstd::arithmetic::div_mod::lemma_div_pos_is_pos(q0, 85);
    vstd::arithmetic::div_mod::lemma_div_pos_is_pos(q1, 85);
    vstd::arithmetic::div_mod::lemma_div_pos_is_pos(q2, 85);
    vstd::arithmetic::div_mod::lemma_div_pos_is_pos(q3, 85);
    vstd::arithmetic::div_mod::lemma_div_pos_is_pos(q4, 85);
    assert(p == 4437053125 * q5 + (q4 % 85) * 52200625 + (q3 % 85) * 614125 + (q2 % 85) * 7225
        + (q1 % 85) * 85 + q0 % 85);
    assert(q5 == 0);
}

/// The top bytes of a 32-bit number from its range.
proof fn lemma_top_bytes(v: u32, x0: u32, x1: u32, x2: u32)
    by (bit_vector)
    requires
        x0 < 256,
        x1 < 256,
        x2 < 256,
    ensures
        (x0 * 16777216 <= v && v < x0 * 16777216 + 16777216) ==> (v >> 24u32) & 0xffu32 == x0,
        (x0 * 16777216 + x1 * 65536 <= v && v < x0 * 16777216 + x1 * 65536 + 65536) ==> (v
            >> 16u32) & 0xffu32 == x1,
        (x0 * 16777216 + x1 * 65536 + x2 * 256 <= v && v < x0 * 16777216 + x1 * 65536 + x2 * 256
            + 256) ==> (v >> 8u32) & 0xffu32 == x2,
        (v >> 24u32) & 0xffu32 == v / 16777216,
{
}

/// The bytes of a 32-bit number made of four bytes.
proof fn lemma_all_bytes(v: u32, x0: u32, x1: u32, x2: u32, x3: u32)
    by (bit_vector)
    requires
        x0 < 256,
        x1 < 256,
        x2 < 256,
        x3 < 256,
        v == x0 * 16777216 + x1 * 65536 + x2 * 256 + x3,
    ensures
        (v >> 24u32) & 0xffu32 == x0,
        (v >> 16u32) & 0xffu32 == x1,
        (v >> 8u32) & 0xffu32 == x2,
        v & 0xffu32 == x3,
{
}

/// The digit characters of a number below `85^5` are ASCII, and their bytes give back
/// the digits.
proof fn lemma_digit_chars(p: int, k: nat)
    requires
        0 <= p < 4437053125,
        k <= 4,
    ensures
        33 <= digit85(p, k) as int <= 117,
        value85(digit85(p, k) as u8) == div85(p, k) % 85,
        '\0' <= digit85(p, k) <= '\u{7f}',
{
    lemma_digits85(p);
    let d = div85(p, k) % 85;
    assert(0 <= d < 85);
    assert(digit85(p, k) as int == d + 33);
    assert(digit85(p, k) as u8 == (d + 33) as u8);
}

/// A group of four bytes whose first `r` bytes are not zero and whose others are, encoded
/// and decoded again, gives back its first `r` bytes; its encoding has `r + 1` ASCII
/// characters.
proof fn lemma_group_round_trip(c: Seq<u8>, r: int)
    requires
        c.len() == 4,
        1 <= r <= 4,
        forall|i: int| 0 <= i < r ==> c[i] != 0,
        forall|i: int| r <= i < 4 ==> c[i] == 0,
    ensures
        encode_group85(c).len() == r + 1,
        is_ascii_chars(encode_group85(c)),
        group_value85(pad_group5(char_bytes(encode_group85(c)))) <= u32::MAX,
        be_chars(group_value85(pad_group5(char_bytes(encode_group85(c)))) as u32).take(r)
            == byte_chars(c.take(r)),
{
    let p = be_u32(c);
    assert(0 <= p < 4294967296);
    lemma_digits85(p);
    lemma_digit_chars(p, 0);
    lemma_digit_chars(p, 1);
    lemma_digit_chars(p, 2);
    lemma_digit_chars(p, 3);
    lemma_digit_chars(p, 4);
    let d0 = div85(p, 0) % 85;
    let d1 = div85(p, 1) % 85;
    let d2 = div85(p, 2) % 85;
    let d3 = div85(p, 3) % 85;
    let d4 = div85(p, 4) % 85;
    let g0 = digit85(p, 0);
    let g1 = digit85(p, 1);
    let g2 = digit85(p, 2);
    let g3 = digit85(p, 3);
    let g4 = digit85(p, 4);
    let enc = encode_group85(c);
    let eg = char_bytes(enc);
    let v = group_value85(pad_group5(eg));
    let (c0, c1, c2, c3) = (c[0] as u32, c[1] as u32, c[2] as u32, c[3] as u32);
    assert(value85(117u8) == 84);
    if r == 4 {
        assert(enc =~= seq![g4, g3, g2, g1, g0]);
        assert(pad_group5(eg) =~= seq![g4 as u8, g3 as u8, g2 as u8, g1 as u8, g0 as u8]);
        assert(v == p);
        lemma_all_bytes(v as u32, c0, c1, c2, c3);
    } else if r == 3 {
        assert(enc =~= seq![g4, g3, g2, g1]);
        assert(pad_group5(eg) =~= seq![g4 as u8, g3 as u8, g2 as u8, g1 as u8, 117u8]);
        assert(v == d4 * 52200625 + d3 * 614125 + d2 * 7225 + d1 * 85 + 84);
        assert(p <= v <= p + 84);
        lemma_top_bytes(v as u32, c0, c1, c2);
    } else if r == 2 {
        assert(enc =~= seq![g4, g3, g2]);
        assert(pad_group5(eg) =~= seq![g4 as u8, g3 as u8, g2 as u8, 117u8, 117u8]);
        assert(v == d4 * 52200625 + d3 * 614125 + d2 * 7225 + 84 * 85 + 84);
        assert(p <= v <= p + 7224);
        lemma_top_bytes(v as u32, c0, c1, 0);
    } else {
        assert(enc =~= seq![g4, g3]);
        assert(pad_group5(eg) =~= seq![g4 as u8, g3 as u8, 117u8, 117u8, 117u8]);
        assert(v == d4 * 52200625 + d3 * 614125 + 84 * 7225 + 84 * 85 + 84);
        assert(p <= v <= p + 614124);
        lemma_top_bytes(v as u32, c0, 0, 0);
    }
    assert(is_ascii_chars(enc));
    assert(be_chars(v as u32).take(r) =~= byte_chars(c.take(r)));
}

proof fn lemma_char_bytes_concat(x: Seq<char>, y: Seq<char>)
    ensures
        char_bytes(x + y) == char_bytes(x) + char_bytes(y),
{
    assert(char_bytes(x + y) =~= char_bytes(x) + char_bytes(y));
}

/// Whole groups of four bytes, none zero, encode to five ASCII characters each, whose
/// groups all fit and decode back to the bytes.
proof fn lemma_full_groups_round_trip(b: Seq<u8>)
    requires
        b.len() % 4 == 0,
        no_nul(b),
    ensures
        is_ascii_chars(encode85(b)),
        encode85(b).len() == b.len() / 4 * 5,
        fits85(char_bytes(encode85(b))),
        decode85_groups(char_bytes(encode85(b))) == byte_chars(b),
    decreases b.len(),
{
    if b.len() == 0 {
        assert(char_bytes(encode85(b)) =~= Seq::<u8>::empty());
        assert(byte_chars(b) =~= Seq::<char>::empty());
    } else {
        let m = last_group_start(b.len() as int, 4);
        assert(m == b.len() - 4);
        let head = b.take(m);
        let g = b.skip(m);
        assert(pad_group4(g) =~= g);
        lemma_full_groups_round_trip(head);
        lemma_group_round_trip(g, 4);
        let e1 = encode85(head);
        let e2 = encode_group85(g);
        assert(encode85(b) == e1 + e2);
        lemma_char_bytes_concat(e1, e2);
        let e = char_bytes(e1 + e2);
        let n1 = char_bytes(e1).len() as int;
        assert(e.len() == n1 + 5);
        assert(last_group_start(e.len() as int, 5) == n1);
        assert(e.take(n1) =~= char_bytes(e1));
        assert(e.skip(n1) =~= char_bytes(e2));
        assert(pad_group5(char_bytes(e2)) =~= char_bytes(e2));
        let v = group_value85(char_bytes(e2));
        assert(be_chars(v as u32) =~= be_chars(v as u32).take(4));
        assert(g.take(4) =~= g);
        assert(byte_chars(b) =~= byte_chars(head) + byte_chars(g));
        assert(is_ascii_chars(e1 + e2)) by {
            assert forall|i: int| 0 <= i < (e1 + e2).len() implies '\0' <= #[trigger] (e1
                + e2)[i] <= '\u{7f}' by {
                if i < e1.len() {
                    assert((e1 + e2)[i] == e1[i]);
                } else {
                    assert((e1 + e2)[i] == e2[i - e1.len()]);
                }
            }
        }
    }
}

proof fn lemma_ascii_concat(x: Seq<char>, y: Seq<char>)
    requires
        is_ascii_chars(x),
        is_ascii_chars(y),
    ensures
        is_ascii_chars(x + y),
{
    assert forall|i: int| 0 <= i < (x + y).len() implies '\0' <= #[trigger] (x + y)[i] <= '\u{7f}' by {
        if i < x.len() {
            assert((x + y)[i] == x[i]);
        } else {
            assert((x + y)[i] == y[i - x.len()]);
        }
    }
}

/// The encoded sequence splits into the whole groups and the last group: its groups fit,
/// and decoding them gives the whole groups' bytes and the last group's four bytes.
proof fn lemma_split_last_group(e1: Seq<char>, e2: Seq<char>, r: int)
    requires
        e1.len() % 5 == 0,
        e2.len() == r + 1,
        1 <= r <= 4,
        fits85(char_bytes(e1)),
        group_value85(pad_group5(char_bytes(e2))) <= u32::MAX,
    ensures
        fits85(char_bytes(e1 + e2)),
        decode85_groups(char_bytes(e1 + e2)) == decode85_groups(char_bytes(e1)) + be_chars(
            group_value85(pad_group5(char_bytes(e2))) as u32,
        ),
        char_bytes(e1 + e2).len() == e1.len() + r + 1,
{
    lemma_char_bytes_concat(e1, e2);
    let e = char_bytes(e1 + e2);
    let n1 = e1.len() as int;
    assert(e.len() == n1 + r + 1);
    assert(last_group_start(e.len() as int, 5) == n1);
    assert(e.take(n1) =~= char_bytes(e1));
    assert(e.skip(n1) =~= char_bytes(e2));
}

/// Decoding drops as many characters from the last group as its encoding lacked.
proof fn lemma_truncate_last_group(
    e: Seq<u8>,
    head: Seq<char>,
    last: Seq<char>,
    expected: Seq<char>,
    n1: int,
    r: int,
)
    requires
        1 <= r <= 4,
        n1 % 5 == 0,
        e.len() == n1 + r + 1,
        head.len() == n1 / 5 * 4,
        last.len() == 4,
        decode85_groups(e) == head + last,
        last.take(r) == expected,
    ensures
        decode85(e) == head + expected,
{
    let d = decode85_groups(e);
    if r == 4 {
        assert(e.len() % 5 == 0);
        assert(last =~= last.take(4));
    } else {
        assert(e.len() % 5 == r + 1);
        assert(d.take(d.len() - (5 - e.len() % 5)) =~= head + last.take(r));
    }
}

/// ASCII85 round trip: bytes with no zero byte, encoded and then decoded, come back as
/// one character per byte; their encoding is ASCII, so its UTF-8 bytes are its characters,
/// and every group of it fits in 32 bits.
#[verifier::rlimit(80)]
pub proof fn lemma_ascii85_round_trip(b: Seq<u8>)
    requires
        no_nul(b),
    ensures
        is_ascii_chars(encode85(b)),
        encode_utf8(encode85(b)) == char_bytes(encode85(b)),
        fits85(char_bytes(encode85(b))),
        decode85(char_bytes(encode85(b))) == byte_chars(b),
{
    if b.len() == 0 {
        assert(char_bytes(encode85(b)) =~= Seq::<u8>::empty());
        assert(byte_chars(b) =~= Seq::<char>::empty());
        assert(encode_utf8(encode85(b)) =~= Seq::<u8>::empty());
    } else {
        let m = last_group_start(b.len() as int, 4);
        let head = b.take(m);
        let g = b.skip(m);
        let r = g.len() as int;
        lemma_full_groups_round_trip(head);
        let c = pad_group4(g);
        lemma_group_round_trip(c, r);
        let e1 = encode85(head);
        let e2 = encode_group85(c);
        assert(encode85(b) == e1 + e2);
        lemma_split_last_group(e1, e2, r);
        let v = group_value85(pad_group5(char_bytes(e2)));
        assert(c.take(r) =~= g);
        lemma_truncate_last_group(
            char_bytes(e1 + e2),
            byte_chars(head),
            be_chars(v as u32),
            byte_chars(g),
            e1.len() as int,
            r,
        );
        assert(byte_chars(b) =~= byte_chars(head) + byte_chars(g));
        lemma_ascii_concat(e1, e2);
        is_ascii_chars_encode_utf8(e1 + e2);
        assert(encode_utf8(e1 + e2) =~= char_bytes(e1 + e2));
    }
}

} // verus!
